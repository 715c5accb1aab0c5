//! What the traffic capture is for, said of the calls themselves: an exchange goes out as it
//! was seen, what is written to the log is read back from it, a damaged record is noticed,
//! and nothing is given up before its time.

use crate::kafka::{
    Attempts, CaptureEnvelope, CaptureRecord, Delivery, DeliveryConfig, InMemoryProducer,
    KafkaCapture, ProduceError, Produced, Producer, SendStep, Sent,
};
use crate::policy_laws::lesser;
use crate::view_laws::text_in_option;
use crate::wal::{
    checksum, crc32, crc_bits, crc_register, decode_body, encode_body, first_frame,
    law_decode_undoes_encode, read_ckpt, Compaction, Entry, Record, Wal,
};
use crate::wal_drain::{log_full, produce, Drain, DrainStep, SentStep, WalConfig};
use crate::wal_laws::lemma_frame_found;
use vstd::bytes::*;
use vstd::prelude::*;
use vstd::utf8::encode_utf8;

verus! {

/// The envelope of an exchange holds everything of it, the headers in their order.
pub proof fn law_an_exchange_is_enveloped_whole(record: &CaptureRecord, i: int, r: CaptureEnvelope)
    requires
        call_ensures(CaptureEnvelope::from_record, (record,), r),
    ensures
        r.request_id@ == record.request_id@,
        r.method@ == crate::kafka::uppercase(record.method@),
        r.path@ == record.path@,
        text_in_option(r.query) == text_in_option(record.query),
        r.headers@.len() == record.headers@.len(),
        0 <= i < record.headers@.len() ==> r.headers@[i].0@ == record.headers@[i].0@
            && r.headers@[i].1@ == record.headers@[i].1@,
        r.body@ == record.body@,
        r.response_status == record.response_status,
        r.response_body@ == record.response_body@,
{
    let a = crate::kafka::pairs(r.headers@);
    let b = crate::kafka::pairs(record.headers@);
    assert(a.len() == r.headers@.len() && b.len() == record.headers@.len());
    if 0 <= i < record.headers@.len() {
        assert(a[i] == (r.headers@[i].0@, r.headers@[i].1@));
        assert(b[i] == (record.headers@[i].0@, record.headers@[i].1@));
    }
}

/// A captured exchange is handed to the producer once, for the topic of the capture and under
/// the id of the request; one that could not be serialised is not handed over.
pub proof fn law_an_exchange_is_handed_over_once<P: Producer>(
    capture: &mut KafkaCapture<P>,
    envelope: &CaptureEnvelope,
    serialized: Option<Vec<u8>>,
)
    requires
        call_ensures(KafkaCapture::<P>::capture, (capture, envelope, serialized), ()),
    ensures
        final(capture).topic@ == old(capture).topic@,
        ({
            let before = old(capture).producer.handed();
            let after = final(capture).producer.handed();
            &&& serialized is None ==> after == before
            &&& serialized matches Some(payload) ==> {
                &&& after.len() == before.len() + 1
                &&& after.take(before.len() as int) == before
                &&& after[before.len() as int].topic == old(capture).topic@
                &&& after[before.len() as int].key == encode_utf8(envelope.request_id@)
                &&& after[before.len() as int].payload == payload@
            }
        }),
{
    if serialized is Some {
        assert(final(capture).producer.handed().take(old(capture).producer.handed().len() as int)
            =~= old(capture).producer.handed());
    }
}

/// A capture is of what it was made of.
pub proof fn law_a_capture_is_for_its_topic<P>(producer: P, topic: String, r: KafkaCapture<P>)
    requires
        call_ensures(KafkaCapture::<P>::new, (producer, topic), r),
    ensures
        r.producer == producer && r.topic@ == topic@,
{
}

/// The two records are the same.
pub open spec fn same_record(a: Produced, b: Sent) -> bool {
    a.0@ == b.topic && a.1@ == b.key && a.2@ == b.payload
}

/// A producer in memory starts empty and tells what it was handed, in order.
pub proof fn law_a_producer_tells_what_it_was_handed(
    fresh: InMemoryProducer,
    p: &InMemoryProducer,
    i: int,
    r: Vec<Produced>,
)
    requires
        call_ensures(InMemoryProducer::new, (), fresh),
        call_ensures(InMemoryProducer::produced, (p,), r),
    ensures
        fresh.handed().len() == 0,
        r@.len() == p.handed().len(),
        0 <= i < r@.len() ==> same_record(r@[i], p.handed()[i]),
{
    let s = crate::kafka::sent(r@);
    assert(s.len() == r@.len());
    if 0 <= i < r@.len() {
        assert(s[i] == (Sent { topic: r@[i].0@, key: r@[i].1@, payload: r@[i].2@ }));
    }
}

/// A producer in memory takes everything it is handed.
pub proof fn law_a_producer_takes_what_it_is_handed(
    p: &mut InMemoryProducer,
    topic: &str,
    key: &[u8],
    payload: &[u8],
    r: Result<(), ProduceError>,
)
    requires
        call_ensures(InMemoryProducer::produce, (p, topic, key, payload), r),
    ensures
        r is Ok,
        final(p).handed() == old(p).handed() + seq![
            (Sent { topic: topic@, key: key@, payload: payload@ }),
        ],
{
    assert(old(p).handed() + seq![(Sent { topic: topic@, key: key@, payload: payload@ })]
        =~= old(p).handed().push(Sent { topic: topic@, key: key@, payload: payload@ }));
}

/// A record is taken on exactly while fewer are under way than the limit; where none can be,
/// it is dropped and nothing else changes.
pub proof fn law_records_under_way_are_limited(d: &mut Delivery, r: Result<(), ProduceError>)
    requires
        call_ensures(Delivery::spawn, (d,), r),
    ensures
        final(d).config() == old(d).config(),
        r is Ok <==> old(d).inflight() != old(d).config().max_inflight,
        r is Ok ==> final(d).inflight() == old(d).inflight() + 1,
        r matches Err(e) ==> final(d).inflight() == old(d).inflight() && e.reason@
            == "capture buffer saturated, record dropped"@,
{
}

/// A delivery that ended frees one place.
pub proof fn law_an_ended_delivery_frees_its_place(d: &mut Delivery)
    requires
        call_ensures(Delivery::finished, (d,), ()),
    ensures
        final(d).inflight() == old(d).inflight() - 1,
        final(d).config() == old(d).config(),
{
}

/// Delivery starts with nothing under way, and by default holds 1024 records and tries each
/// four times.
pub proof fn law_delivery_starts_idle(cfg: DeliveryConfig, usual: DeliveryConfig, d: Delivery)
    requires
        call_ensures(Delivery::new, (cfg,), d),
        call_ensures(DeliveryConfig::default, (), usual),
    ensures
        d.inflight() == 0 && d.config() == cfg,
        usual.max_inflight == 1024 && usual.max_attempts == 4 && usual.base_backoff == 50_000_000,
{
}

/// A record is tried again exactly after a failure short of its last attempt: the first time
/// after the base delay, and after twice as long each further time.
pub proof fn law_delivery_waits_twice_as_long_each_time(
    cfg: DeliveryConfig,
    first: Option<Attempts>,
    a: Attempts,
    delivered: bool,
    r: (Attempts, SendStep),
)
    requires
        call_ensures(Attempts::start, (cfg,), first),
        call_ensures(Attempts::deliver, (a, delivered), r),
    ensures
        first is None <==> cfg.max_attempts == 0,
        first matches Some(f) ==> f.attempt == 1 && f.backoff == cfg.base_backoff && f.max_attempts
            == cfg.max_attempts,
        r.1 is Done <==> delivered || a.attempt >= a.max_attempts,
        r.1 is Done ==> r.0 == a,
        r.1 matches SendStep::RetryAfter(wait) ==> {
            &&& wait == a.backoff
            &&& r.0.attempt == a.attempt + 1
            &&& r.0.max_attempts == a.max_attempts
            &&& r.0.backoff == lesser(2 * a.backoff, 18_446_744_073_709_551_615_999_999_999)
        },
{
}

/// A record that is never taken is tried exactly as often as allowed.
pub proof fn law_a_refused_record_is_tried_to_the_last(a: Attempts, outcomes: Seq<bool>)
    requires
        1 <= a.attempt <= a.max_attempts,
        forall|i: int| 0 <= i < outcomes.len() ==> !(#[trigger] outcomes[i]),
    ensures
        a.last_attempt(outcomes) == a.max_attempts,
    decreases a.max_attempts - a.attempt,
{
    let delivered = a.attempt < outcomes.len() && outcomes[a.attempt as int];
    if !(a.step(delivered) is Done) {
        law_a_refused_record_is_tried_to_the_last(a.next(), outcomes);
    }
}

/// What was encoded is decoded. A record is encoded exactly where its topic and its key are
/// short enough for their length fields.
pub proof fn law_a_decoded_record_is_what_was_encoded(
    topic: &str,
    key: &[u8],
    payload: &[u8],
    encoded: Option<Vec<u8>>,
    body: &[u8],
    decoded: Option<(String, Vec<u8>, Vec<u8>)>,
)
    requires
        call_ensures(encode_body, (topic, key, payload), encoded),
        encoded is Some ==> body@ == encoded->Some_0@,
        call_ensures(decode_body, (body,), decoded),
    ensures
        encoded is Some <==> encode_utf8(topic@).len() <= 65_535 && key@.len() <= 4_294_967_295,
        encoded is Some ==> {
            &&& decoded is Some
            &&& decoded->Some_0.0@ == topic@
            &&& decoded->Some_0.1@ == key@
            &&& decoded->Some_0.2@ == payload@
        },
        encoded is Some ==> body@ == spec_u16_to_le_bytes(encode_utf8(topic@).len() as u16)
            + encode_utf8(topic@) + spec_u32_to_le_bytes(key@.len() as u32) + key@ + payload@,
{
    let e = Entry { topic: topic@, key: key@, payload: payload@ };
    if encoded is Some {
        law_decode_undoes_encode(e);
    }
}

/// A body that decodes is laid out as records are: nothing else is taken for one.
pub proof fn law_only_records_decode(body: &[u8], r: Option<(String, Vec<u8>, Vec<u8>)>)
    requires
        call_ensures(decode_body, (body,), r),
    ensures
        r matches Some(rec) ==> {
            &&& encode_utf8(rec.0@).len() <= 65_535
            &&& rec.1@.len() <= 4_294_967_295
            &&& body@ == spec_u16_to_le_bytes(encode_utf8(rec.0@).len() as u16) + encode_utf8(rec.0@)
                + spec_u32_to_le_bytes(rec.1@.len() as u32) + rec.1@ + rec.2@
        },
{
    lemma_auto_spec_u16_to_from_le_bytes();
    lemma_auto_spec_u32_to_from_le_bytes();
    if let Some(rec) = r {
        let b = body@;
        let topic_end = 2 + spec_u16_from_le_bytes(b.subrange(0, 2)) as int;
        let key_start = topic_end + 4;
        let key_end = key_start + spec_u32_from_le_bytes(b.subrange(topic_end, key_start)) as int;
        vstd::utf8::decode_utf8_encode_utf8(b.subrange(2, topic_end));
        assert(encode_utf8(rec.0@) == b.subrange(2, topic_end));
        assert(spec_u16_to_le_bytes(encode_utf8(rec.0@).len() as u16) == b.subrange(0, 2));
        assert(spec_u32_to_le_bytes(rec.1@.len() as u32) == b.subrange(topic_end, key_start));
        assert(b =~= b.subrange(0, 2) + b.subrange(2, topic_end) + b.subrange(topic_end, key_start)
            + rec.1@ + rec.2@);
    }
}

/// One step of dividing by the polynomial of the IEEE 802.3 checksum, its lowest bit first.
pub open spec fn divided(r: u32) -> u32 {
    if r & 1 == 1 {
        (r >> 1) ^ 0xEDB8_8320u32
    } else {
        r >> 1
    }
}

/// The register after eight steps.
pub open spec fn divided_by_a_byte(r: u32) -> u32 {
    divided(divided(divided(divided(divided(divided(divided(divided(r))))))))
}

/// The checksum starts from ones and is complemented at the end; each byte is mixed into the
/// register and divided out of it.
pub proof fn law_the_checksum_grows_byte_by_byte(
    none: &[u8],
    bytes: &[u8],
    byte: u8,
    more: &[u8],
    start: u32,
    before: u32,
    after: u32,
)
    requires
        none@.len() == 0,
        more@ == bytes@.push(byte),
        call_ensures(crc32, (none,), start),
        call_ensures(crc32, (bytes,), before),
        call_ensures(crc32, (more,), after),
    ensures
        start == 0,
        !after == divided_by_a_byte(!before ^ (byte as u32)),
{
    assert(!0xFFFF_FFFFu32 == 0) by (bit_vector);
    assert(more@.drop_last() =~= bytes@);
    let r = crc_register(bytes@);
    assert(!!r == r) by (bit_vector);
    let s = crc_register(more@);
    assert(!!s == s) by (bit_vector);
    let m = r ^ (byte as u32);
    reveal_with_fuel(crc_bits, 9);
    assert(crc_bits(m, 8) == divided_by_a_byte(m));
}

proof fn lemma_bits_tell_apart(a: u32, b: u32, n: nat)
    requires
        a != b,
    ensures
        crc_bits(a, n) != crc_bits(b, n),
    decreases n,
{
    if n > 0 {
        lemma_bits_tell_apart(a, b, (n - 1) as nat);
        let x = crc_bits(a, (n - 1) as nat);
        let y = crc_bits(b, (n - 1) as nat);
        assert(x != y ==> (if x & 1 == 1 {
            (x >> 1) ^ 0xEDB8_8320u32
        } else {
            x >> 1
        }) != (if y & 1 == 1 {
            (y >> 1) ^ 0xEDB8_8320u32
        } else {
            y >> 1
        })) by (bit_vector);
    }
}

proof fn lemma_register_tells_apart(a: Seq<u8>, b: Seq<u8>, at: int)
    requires
        a.len() == b.len(),
        0 <= at < a.len(),
        a[at] != b[at],
        forall|i: int| 0 <= i < a.len() && i != at ==> a[i] == b[i],
    ensures
        crc_register(a) != crc_register(b),
    decreases a.len(),
{
    let x = crc_register(a.drop_last());
    let y = crc_register(b.drop_last());
    let c = a.last();
    let d = b.last();
    if at == a.len() - 1 {
        assert(a.drop_last() =~= b.drop_last());
        assert(c != d ==> x ^ (c as u32) != x ^ (d as u32)) by (bit_vector);
    } else {
        lemma_register_tells_apart(a.drop_last(), b.drop_last(), at);
        assert(x != y ==> x ^ (c as u32) != y ^ (c as u32)) by (bit_vector);
    }
    lemma_bits_tell_apart(x ^ (c as u32), y ^ (d as u32), 8);
}

/// A byte that changed is noticed: the checksum is another one.
pub proof fn law_a_changed_byte_is_noticed(a: &[u8], b: &[u8], at: int, x: u32, y: u32)
    requires
        call_ensures(crc32, (a,), x),
        call_ensures(crc32, (b,), y),
        a@.len() == b@.len(),
        0 <= at < a@.len(),
        a@[at] != b@[at],
        forall|i: int| 0 <= i < a@.len() && i != at ==> a@[i] == b@[i],
    ensures
        x != y,
{
    lemma_register_tells_apart(a@, b@, at);
    let r = crc_register(a@);
    let s = crc_register(b@);
    assert(r != s ==> !r != !s) by (bit_vector);
}

/// The bytes that a record takes in the log.
pub open spec fn frame_size(topic: Seq<char>, key: Seq<u8>, payload: Seq<u8>) -> int {
    8int + 2 + encode_utf8(topic).len() + 4 + key.len() + payload.len()
}

/// The record has room for itself in its length fields and in the log.
pub open spec fn has_room(wal: Wal, topic: Seq<char>, key: Seq<u8>, payload: Seq<u8>) -> bool {
    &&& encode_utf8(topic).len() <= 65_535
    &&& key.len() <= 4_294_967_295
    &&& frame_size(topic, key, payload) - 8 <= 4_294_967_295
    &&& wal@.end + frame_size(topic, key, payload) <= wal@.max_bytes
}

proof fn lemma_frame_size(topic: Seq<char>, key: Seq<u8>, payload: Seq<u8>)
    ensures
        ({
            let e = Entry { topic, key, payload };
            &&& crate::wal::body_of(e).len() == frame_size(topic, key, payload) - 8
            &&& crate::wal::frame_of(crate::wal::body_of(e)).len() == frame_size(topic, key, payload)
        }),
{
    lemma_auto_spec_u16_to_from_le_bytes();
    lemma_auto_spec_u32_to_from_le_bytes();
    let t = spec_u16_to_le_bytes(encode_utf8(topic).len() as u16);
    let k = spec_u32_to_le_bytes(key.len() as u32);
    assert(t.len() == 2 && k.len() == 4);
    let body = crate::wal::body_of(Entry { topic, key, payload });
    assert(spec_u32_to_le_bytes(body.len() as u32).len() == 4);
    assert(spec_u32_to_le_bytes(checksum(body)).len() == 4);
}

/// A record is appended at the end of the log, exactly where there is room for it. Reading at
/// its frame, whatever follows, gives it back, and the next record starts where it ends.
pub proof fn law_an_appended_record_is_read_back(
    wal: &Wal,
    topic: &str,
    key: &[u8],
    payload: &[u8],
    placed: Option<(u64, Vec<u8>)>,
    reader: &mut Wal,
    rest: Seq<u8>,
    log: &[u8],
    r: Option<Record>,
)
    requires
        call_ensures(Wal::append, (wal, topic, key, payload), placed),
        call_ensures(Wal::next, (reader, log), r),
        placed matches Some(p) ==> log@ == p.1@ + rest,
    ensures
        placed is Some <==> has_room(*wal, topic@, key@, payload@),
        placed matches Some((at, frame)) ==> {
            &&& at == wal@.end
            &&& frame@.len() == frame_size(topic@, key@, payload@)
            &&& r matches Some(rec) && {
                &&& rec.topic@ == topic@
                &&& rec.key@ == key@
                &&& rec.payload@ == payload@
                &&& rec.next == old(reader)@.acked + frame@.len()
            }
            &&& final(reader)@ == old(reader)@
        },
{
    let e = Entry { topic: topic@, key: key@, payload: payload@ };
    lemma_frame_size(topic@, key@, payload@);
    if placed is Some {
        lemma_frame_found(e, rest);
    }
}

/// A record of which one byte was changed in the log is not read: it is dropped, with all
/// that follows it.
pub proof fn law_a_damaged_record_is_not_read(
    wal: &Wal,
    topic: &str,
    key: &[u8],
    payload: &[u8],
    placed: (u64, Vec<u8>),
    at: int,
    reader: &mut Wal,
    log: &[u8],
    r: Option<Record>,
)
    requires
        call_ensures(Wal::append, (wal, topic, key, payload), Some(placed)),
        call_ensures(Wal::next, (reader, log), r),
        log@.len() == placed.1@.len(),
        8 <= at < log@.len(),
        log@[at] != placed.1@[at],
        forall|i: int| 0 <= i < log@.len() && i != at ==> log@[i] == placed.1@[i],
    ensures
        r is None,
        final(reader)@.end == old(reader)@.acked,
        final(reader)@.acked == old(reader)@.acked,
{
    let e = Entry { topic: topic@, key: key@, payload: payload@ };
    let body = crate::wal::body_of(e);
    let frame = placed.1@;
    let n = frame.len() as int;
    lemma_frame_size(topic@, key@, payload@);
    lemma_auto_spec_u32_to_from_le_bytes();
    assert(frame.subrange(0, 4) =~= spec_u32_to_le_bytes(body.len() as u32));
    assert(frame.subrange(4, 8) =~= spec_u32_to_le_bytes(checksum(body)));
    assert(frame.subrange(8, n) =~= body);
    assert(log@.subrange(0, 4) =~= frame.subrange(0, 4));
    assert(log@.subrange(4, 8) =~= frame.subrange(4, 8));
    let damaged = log@.subrange(8, n);
    assert(damaged[at - 8] != body[at - 8]) by {
        assert(body[at - 8] == frame[at]);
    }
    assert forall|i: int| 0 <= i < damaged.len() && i != at - 8 implies damaged[i] == body[i] by {
        assert(log@[i + 8] == frame[i + 8]);
        assert(frame[i + 8] == body[i]);
    }
    lemma_register_tells_apart(damaged, body, at - 8);
    let x = crc_register(damaged);
    let y = crc_register(body);
    assert(x != y ==> !x != !y) by (bit_vector);
    assert(first_frame(log@) is None);
}

/// A record that has no room is dropped and said to be; any other goes where an append puts
/// it.
pub proof fn law_a_record_without_room_is_dropped(
    wal: &Wal,
    topic: &str,
    key: &[u8],
    payload: &[u8],
    full: ProduceError,
    placed: Option<(u64, Vec<u8>)>,
    r: Result<(u64, Vec<u8>), ProduceError>,
)
    requires
        call_ensures(log_full, (), full),
        call_ensures(Wal::append, (wal, topic, key, payload), placed),
        call_ensures(produce, (wal, topic, key, payload), r),
    ensures
        r is Ok <==> has_room(*wal, topic@, key@, payload@),
        r matches Ok(p) ==> p.0 == placed->Some_0.0 && p.1@ == placed->Some_0.1@,
        r matches Err(e) ==> e.reason@ == full.reason@,
        full.reason@ == "capture WAL full, record dropped"@,
{
    lemma_frame_size(topic@, key@, payload@);
}

/// The log grows by what was appended, and by nothing else.
pub proof fn law_the_end_moves_with_each_append(wal: &mut Wal, len: u64)
    requires
        call_ensures(Wal::appended, (wal, len), ()),
    ensures
        final(wal)@.end == old(wal)@.end + len,
        final(wal)@.acked == old(wal)@.acked,
        final(wal)@.max_bytes == old(wal)@.max_bytes,
        final(wal)@.compact_threshold == old(wal)@.compact_threshold,
{
}

/// A commit moves the start of the undelivered records. The checkpoint it writes takes up the
/// log again right there, and never past its end.
pub proof fn law_a_commit_survives_a_restart(
    wal: &mut Wal,
    next: u64,
    written: Vec<u8>,
    len: u64,
    ckpt: &[u8],
    max_bytes: u64,
    threshold: u64,
    read: u64,
    again: Wal,
    anew: Wal,
)
    requires
        call_ensures(Wal::commit, (wal, next), written),
        ckpt@ == written@,
        call_ensures(read_ckpt, (Some(ckpt),), read),
        call_ensures(Wal::open, (len, Some(ckpt), max_bytes, threshold), again),
        call_ensures(Wal::open, (len, None::<&[u8]>, max_bytes, threshold), anew),
    ensures
        final(wal)@.acked == next,
        final(wal)@.end == old(wal)@.end,
        final(wal)@.max_bytes == old(wal)@.max_bytes,
        final(wal)@.compact_threshold == old(wal)@.compact_threshold,
        read == next,
        again@.acked == lesser(next as int, len as int),
        anew@.acked == 0,
        again@.end == len && anew@.end == len,
        again@.max_bytes == max_bytes && again@.compact_threshold == threshold,
{
}

/// A checkpoint file that is too short, or not there, counts as none.
pub proof fn law_a_broken_checkpoint_counts_as_none(short: &[u8], r: u64, none: u64)
    requires
        short@.len() < 8,
        call_ensures(read_ckpt, (Some(short),), r),
        call_ensures(read_ckpt, (None::<&[u8]>,), none),
    ensures
        r == 0 && none == 0,
{
}

/// A record waits exactly where undelivered bytes are left, and what is read for it is its
/// frame, or what is left of it.
pub proof fn law_what_is_left_is_read(wal: &Wal, header: &[u8], at: Option<u64>, n: u64)
    requires
        call_ensures(Wal::waiting, (wal,), at),
        call_ensures(Wal::frame_len, (wal, header), n),
    ensures
        at is Some <==> wal@.acked < wal@.end,
        at matches Some(a) ==> a == wal@.acked,
        header@.len() >= 8 ==> n == lesser(
            8 + spec_u32_from_le_bytes(header@.take(4)),
            wal@.end - wal@.acked,
        ),
        header@.len() < 8 ==> n == lesser(8, wal@.end - wal@.acked),
{
    if header@.len() >= 8 {
        assert(header@.take(4) =~= header@.subrange(0, 4));
    }
}

/// Delivered bytes are reclaimed once nothing else is left, or once there are as many as the
/// threshold; what is kept is exactly the undelivered.
pub proof fn law_only_delivered_bytes_are_reclaimed(
    wal: &Wal,
    plan: Option<Compaction>,
    moved: &mut Wal,
    ckpt: Vec<u8>,
    read: u64,
    bytes: &[u8],
)
    requires
        call_ensures(Wal::maybe_compact, (wal,), plan),
        call_ensures(Wal::compacted, (moved,), ckpt),
        bytes@ == ckpt@,
        call_ensures(read_ckpt, (Some(bytes),), read),
    ensures
        plan is Some <==> wal@.acked > 0 && (wal@.acked >= wal@.end || wal@.acked
            >= wal@.compact_threshold),
        plan matches Some(c) ==> c.from == wal@.acked && c.from + c.live == wal@.end,
        final(moved)@.acked == 0,
        final(moved)@.end == old(moved)@.end - old(moved)@.acked,
        final(moved)@.max_bytes == old(moved)@.max_bytes,
        final(moved)@.compact_threshold == old(moved)@.compact_threshold,
        read == 0,
{
}

/// A record that waits is delivered; where none does, the drainer settles for the flush
/// interval.
pub proof fn law_a_waiting_record_is_delivered(
    cfg: WalConfig,
    fresh: Drain,
    d: &Drain,
    record: Option<Record>,
    r: DrainStep,
)
    requires
        call_ensures(Drain::new, (cfg,), fresh),
        call_ensures(Drain::polled, (d, record), r),
    ensures
        fresh.cfg == cfg && fresh.backoff == cfg.base_backoff,
        record matches Some(rec) ==> r == DrainStep::Deliver(rec),
        record is None ==> r == DrainStep::Settle(d.cfg.sync_interval),
{
}

/// Only an acknowledged record is committed, and the delay then starts over; one that was
/// not is tried again after the delay, which doubles up to its cap.
pub proof fn law_only_acknowledged_records_are_committed(
    d: &mut Drain,
    acknowledged: bool,
    next: u64,
    since_sync: u128,
    r: SentStep,
)
    requires
        call_ensures(Drain::drain, (d, acknowledged, next, since_sync), r),
    ensures
        final(d).cfg == old(d).cfg,
        acknowledged ==> {
            &&& r == (SentStep::Commit { next, sync: since_sync >= old(d).cfg.sync_interval })
            &&& final(d).backoff == old(d).cfg.base_backoff
        },
        !acknowledged ==> {
            &&& r == SentStep::RetryAfter(old(d).backoff)
            &&& final(d).backoff == lesser(
                lesser(2 * old(d).backoff, old(d).cfg.max_backoff as int),
                18_446_744_073_709_551_615_999_999_999,
            )
        },
{
}

/// The log usually holds 256 MiB and reclaims delivered bytes by 8 MiB.
pub proof fn law_the_usual_log(r: WalConfig)
    requires
        call_ensures(WalConfig::default, (), r),
    ensures
        r.max_bytes == 268_435_456,
        r.compact_threshold == 8_388_608,
        r.base_backoff == 100_000_000,
        r.max_backoff == 5_000_000_000,
        r.sync_interval == 200_000_000,
{
}

} // verus!
