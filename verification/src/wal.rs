//! The write-ahead log of undelivered records: its record format and its cursors.
//!
//! The log is an append-only file of frames, `[u32 len][u32 crc][len bytes]`, and a
//! checkpoint: the offset up to which delivery has been acknowledged. This module
//! decides which bytes go where and what a frame holds; reading and writing the two
//! files is left to the caller.

use crate::types::clone_bytes;
use vstd::bytes::*;
use vstd::prelude::*;
use vstd::slice::slice_subrange;
use vstd::string::*;
use vstd::utf8::{encode_utf8, valid_utf8};

verus! {

/// Reads text from bytes with `String::from_utf8`: it succeeds exactly on valid
/// UTF-8, and the text has those bytes.
#[verifier::external_body]
fn read_text(bytes: Vec<u8>) -> (r: Option<String>)
    ensures
        r is Some <==> valid_utf8(bytes@),
        r is Some ==> encode_utf8(r->Some_0@) == bytes@,
{
    String::from_utf8(bytes).ok()
}

/// One bit of the checksum register.
pub open spec fn crc_bit(crc: u32) -> u32 {
    if crc & 1 == 1 {
        (crc >> 1) ^ 0xEDB8_8320u32
    } else {
        crc >> 1
    }
}

/// `n` bits of the checksum register.
pub open spec fn crc_bits(crc: u32, n: nat) -> u32
    decreases n,
{
    if n == 0 {
        crc
    } else {
        crc_bit(crc_bits(crc, (n - 1) as nat))
    }
}

/// The checksum register after `bytes`.
pub open spec fn crc_register(bytes: Seq<u8>) -> u32
    decreases bytes.len(),
{
    if bytes.len() == 0 {
        0xFFFF_FFFFu32
    } else {
        crc_bits(crc_register(bytes.drop_last()) ^ (bytes.last() as u32), 8)
    }
}

/// The IEEE 802.3 CRC-32 of `bytes`.
pub open spec fn checksum(bytes: Seq<u8>) -> u32 {
    !crc_register(bytes)
}

/// Computes the IEEE 802.3 CRC-32.
pub fn crc32(bytes: &[u8]) -> (r: u32)
    ensures
        r == checksum(bytes@),
{
    let mut crc: u32 = 0xFFFF_FFFF;
    let mut i: usize = 0;
    while i < bytes.len()
        invariant
            0 <= i <= bytes@.len(),
            crc == crc_register(bytes@.take(i as int)),
        decreases bytes@.len() - i,
    {
        assert(bytes@.take(i + 1).drop_last() =~= bytes@.take(i as int));
        crc = crc ^ (bytes[i] as u32);
        let ghost mixed = crc;
        let mut n: u32 = 0;
        while n < 8
            invariant
                0 <= n <= 8,
                crc == crc_bits(mixed, n as nat),
            decreases 8 - n,
        {
            if crc & 1 == 1 {
                crc = (crc >> 1) ^ 0xEDB8_8320;
            } else {
                crc = crc >> 1;
            }
            n += 1;
        }
        i += 1;
    }
    assert(bytes@.take(i as int) =~= bytes@);
    !crc
}

/// A queued record.
pub ghost struct Entry {
    pub topic: Seq<char>,
    pub key: Seq<u8>,
    pub payload: Seq<u8>,
}

/// The topic and the key are short enough for their length fields.
pub open spec fn encodable(e: Entry) -> bool {
    encode_utf8(e.topic).len() <= u16::MAX && e.key.len() <= u32::MAX
}

/// `[u16 topic_len][topic][u32 key_len][key][payload]`.
pub open spec fn body_of(e: Entry) -> Seq<u8> {
    let topic = encode_utf8(e.topic);
    spec_u16_to_le_bytes(topic.len() as u16) + topic + spec_u32_to_le_bytes(e.key.len() as u32)
        + e.key + e.payload
}

/// `[u32 len][u32 crc][body]`.
pub open spec fn frame_of(body: Seq<u8>) -> Seq<u8> {
    spec_u32_to_le_bytes(body.len() as u32) + spec_u32_to_le_bytes(checksum(body)) + body
}

/// The record a body holds, if it is one.
pub open spec fn entry_of(body: Seq<u8>) -> Option<Entry> {
    if body.len() < 2 {
        None
    } else {
        let topic_end = 2 + spec_u16_from_le_bytes(body.subrange(0, 2)) as int;
        if body.len() < topic_end + 4 || !valid_utf8(body.subrange(2, topic_end)) {
            None
        } else {
            let key_start = topic_end + 4;
            let key_end = key_start + spec_u32_from_le_bytes(
                body.subrange(topic_end, key_start),
            ) as int;
            if body.len() < key_end {
                None
            } else {
                Some(
                    Entry {
                        topic: vstd::utf8::decode_utf8(body.subrange(2, topic_end)),
                        key: body.subrange(key_start, key_end),
                        payload: body.skip(key_end),
                    },
                )
            }
        }
    }
}

/// Encodes a record body, or nothing where a length does not fit its field.
pub fn encode_body(topic: &str, key: &[u8], payload: &[u8]) -> (r: Option<Vec<u8>>)
    ensures
        ({
            let e = Entry { topic: topic@, key: key@, payload: payload@ };
            match r {
                Some(body) => encodable(e) && body@ == body_of(e),
                None => !encodable(e),
            }
        }),
{
    let name = topic.as_bytes();
    if name.len() > u16::MAX as usize || key.len() as u64 > u32::MAX as u64 {
        return None;
    }
    let mut body = u16_to_le_bytes(name.len() as u16);
    body.extend_from_slice(name);
    let mut key_len = u32_to_le_bytes(key.len() as u32);
    body.append(&mut key_len);
    body.extend_from_slice(key);
    body.extend_from_slice(payload);
    assert(body@ =~= body_of(Entry { topic: topic@, key: key@, payload: payload@ }));
    Some(body)
}

/// Decodes a record body: the inverse of [`encode_body`].
pub fn decode_body(body: &[u8]) -> (r: Option<(String, Vec<u8>, Vec<u8>)>)
    ensures
        match (r, entry_of(body@)) {
            (Some(rec), Some(e)) => rec.0@ == e.topic && rec.1@ == e.key && rec.2@ == e.payload,
            (None, None) => true,
            _ => false,
        },
{
    if body.len() < 2 {
        return None;
    }
    let topic_len = u16_from_le_bytes(slice_subrange(body, 0, 2)) as usize;
    let topic_end = 2 + topic_len;
    if body.len() < topic_end || body.len() - topic_end < 4 {
        return None;
    }
    let topic = match read_text(clone_bytes(slice_subrange(body, 2, topic_end))) {
        Some(topic) => topic,
        None => {
            return None;
        },
    };
    proof {
        vstd::utf8::encode_utf8_decode_utf8(topic@);
    }
    let key_start = topic_end + 4;
    let key_len = u32_from_le_bytes(slice_subrange(body, topic_end, key_start)) as usize;
    if body.len() - key_start < key_len {
        return None;
    }
    let key_end = key_start + key_len;
    let key = clone_bytes(slice_subrange(body, key_start, key_end));
    let payload = clone_bytes(slice_subrange(body, key_end, body.len()));
    assert(payload@ =~= body@.skip(key_end as int));
    Some((topic, key, payload))
}

/// What was encoded is decoded: no record changes on its way through the log.
pub proof fn law_decode_undoes_encode(e: Entry)
    requires
        encodable(e),
    ensures
        entry_of(body_of(e)) == Some(e),
{
    let topic = encode_utf8(e.topic);
    let body = body_of(e);
    lemma_auto_spec_u16_to_from_le_bytes();
    lemma_auto_spec_u32_to_from_le_bytes();
    vstd::utf8::encode_utf8_valid_utf8(e.topic);
    vstd::utf8::encode_utf8_decode_utf8(e.topic);
    let topic_end = 2 + topic.len() as int;
    assert(body.subrange(0, 2) =~= spec_u16_to_le_bytes(topic.len() as u16));
    assert(body.subrange(2, topic_end) =~= topic);
    assert(body.subrange(topic_end, topic_end + 4) =~= spec_u32_to_le_bytes(e.key.len() as u32));
    let key_end = topic_end + 4 + e.key.len() as int;
    assert(body.subrange(topic_end + 4, key_end) =~= e.key);
    assert(body.skip(key_end) =~= e.payload);
}

/// The first frame of `log`: the record it holds and the bytes it takes. `None`
/// where the bytes are cut short, do not match their checksum, or hold no record.
pub open spec fn first_frame(log: Seq<u8>) -> Option<(Entry, int)> {
    if log.len() < 8 {
        None
    } else {
        let len = spec_u32_from_le_bytes(log.subrange(0, 4)) as int;
        let crc = spec_u32_from_le_bytes(log.subrange(4, 8));
        if log.len() < 8 + len || checksum(log.subrange(8, 8 + len)) != crc {
            None
        } else {
            match entry_of(log.subrange(8, 8 + len)) {
                Some(e) => Some((e, 8 + len)),
                None => None,
            }
        }
    }
}

/// The records that will be read from `log`, in order: all frames up to the first
/// that is not whole.
pub open spec fn entries(log: Seq<u8>) -> Seq<Entry>
    decreases log.len(),
{
    match first_frame(log) {
        Some((e, n)) => if 0 < n <= log.len() {
            seq![e] + entries(log.skip(n))
        } else {
            Seq::empty()
        },
        None => Seq::empty(),
    }
}

/// `log` is whole frames and nothing else.
pub open spec fn intact(log: Seq<u8>) -> bool
    decreases log.len(),
{
    log.len() == 0 || match first_frame(log) {
        Some((e, n)) => 0 < n <= log.len() && intact(log.skip(n)),
        None => false,
    }
}

/// A record read back from the log, with the offset just past it.
#[derive(Debug)]
pub struct Record {
    pub topic: String,
    pub key: Vec<u8>,
    pub payload: Vec<u8>,
    pub next: u64,
}

impl View for Record {
    type V = Entry;

    open spec fn view(&self) -> Entry {
        Entry { topic: self.topic@, key: self.key@, payload: self.payload@ }
    }
}

/// A move of the undelivered bytes to the front of the log.
#[derive(Debug)]
pub struct Compaction {
    /// Where the undelivered bytes start.
    pub from: u64,
    /// How many there are: the length of the log afterwards.
    pub live: u64,
}

/// The cursors of the log.
#[derive(Debug)]
pub struct Wal {
    write_offset: u64,
    read_offset: u64,
    compact_threshold: u64,
    max_bytes: u64,
}

/// The cursors as numbers.
pub ghost struct Cursors {
    /// The end of the log, where the next append lands.
    pub end: int,
    /// The start of the undelivered records.
    pub acked: int,
    pub compact_threshold: int,
    pub max_bytes: int,
}

impl View for Wal {
    type V = Cursors;

    closed spec fn view(&self) -> Cursors {
        Cursors {
            end: self.write_offset as int,
            acked: self.read_offset as int,
            compact_threshold: self.compact_threshold as int,
            max_bytes: self.max_bytes as int,
        }
    }
}

impl Cursors {
    /// The undelivered bytes of the log file `file`.
    pub open spec fn pending(self, file: Seq<u8>) -> Seq<u8> {
        file.subrange(self.acked, self.end)
    }

    /// The log file holds everything up to the end.
    pub open spec fn fits(self, file: Seq<u8>) -> bool {
        0 <= self.acked <= self.end <= file.len()
    }
}

/// The offset a checkpoint file holds: its first eight bytes, or 0 where it is absent
/// or too short.
pub open spec fn checkpoint(bytes: Option<Seq<u8>>) -> u64 {
    match bytes {
        Some(b) => if b.len() < 8 {
            0
        } else {
            spec_u64_from_le_bytes(b.take(8))
        },
        None => 0,
    }
}

/// Reads a checkpoint file's content.
pub fn read_ckpt(bytes: Option<&[u8]>) -> (r: u64)
    ensures
        r == checkpoint(
            match bytes {
                Some(b) => Some(b@),
                None => None,
            },
        ),
{
    match bytes {
        Some(b) => if b.len() < 8 {
            0
        } else {
            let head = slice_subrange(b, 0, 8);
            assert(head@ =~= b@.take(8));
            u64_from_le_bytes(head)
        },
        None => 0,
    }
}

impl Wal {
    #[verifier::type_invariant]
    spec fn well_formed(self) -> bool {
        self.read_offset <= self.write_offset
    }

    /// Takes up a log of `log_len` bytes: reading resumes at the checkpoint, so
    /// undelivered records are read again.
    pub fn open(
        log_len: u64,
        ckpt: Option<&[u8]>,
        max_bytes: u64,
        compact_threshold: u64,
    ) -> (r: Self)
        ensures
            r@.end == log_len,
            ({
                let at = checkpoint(
                    match ckpt {
                        Some(b) => Some(b@),
                        None => None,
                    },
                );
                r@.acked == if at <= log_len {
                    at
                } else {
                    log_len
                }
            }),
            r@.max_bytes == max_bytes,
            r@.compact_threshold == compact_threshold,
    {
        let at = read_ckpt(ckpt);
        Wal {
            write_offset: log_len,
            read_offset: if at <= log_len {
                at
            } else {
                log_len
            },
            compact_threshold,
            max_bytes,
        }
    }

    /// The frame to append for a record and where it goes, or nothing where the
    /// record cannot be framed or the log would grow past its cap.
    pub fn append(&self, topic: &str, key: &[u8], payload: &[u8]) -> (r: Option<(u64, Vec<u8>)>)
        ensures
            ({
                let e = Entry { topic: topic@, key: key@, payload: payload@ };
                let fits = encodable(e) && body_of(e).len() <= u32::MAX && self@.end + 8
                    + body_of(e).len() <= self@.max_bytes;
                match r {
                    Some((at, frame)) => fits && at == self@.end && frame@ == frame_of(body_of(e)),
                    None => !fits,
                }
            }),
    {
        let body = match encode_body(topic, key, payload) {
            Some(body) => body,
            None => {
                return None;
            },
        };
        if body.len() as u64 > u32::MAX as u64 {
            return None;
        }
        let frame_len = 8 + body.len() as u64;
        if self.write_offset > self.max_bytes || self.max_bytes - self.write_offset < frame_len {
            return None;
        }
        let mut frame = u32_to_le_bytes(body.len() as u32);
        let mut crc = u32_to_le_bytes(crc32(body.as_slice()));
        frame.append(&mut crc);
        frame.extend_from_slice(body.as_slice());
        assert(frame@ =~= frame_of(body@));
        Some((self.write_offset, frame))
    }

    /// The frame of `len` bytes has been written at the end of the log.
    pub fn appended(&mut self, len: u64)
        requires
            old(self)@.end + len <= u64::MAX,
        ensures
            final(self)@ == (Cursors { end: old(self)@.end + len, ..old(self)@ }),
    {
        proof {
            use_type_invariant(&*self);
        }
        let write_offset = self.write_offset + len;
        *self = Wal {
            write_offset,
            read_offset: self.read_offset,
            compact_threshold: self.compact_threshold,
            max_bytes: self.max_bytes,
        };
    }

    /// Where the next frame starts, if a record is waiting.
    pub fn waiting(&self) -> (r: Option<u64>)
        ensures
            match r {
                Some(at) => at == self@.acked && self@.acked < self@.end,
                None => self@.acked >= self@.end,
            },
    {
        if self.read_offset >= self.write_offset {
            None
        } else {
            Some(self.read_offset)
        }
    }

    /// How many bytes of the log to read from the start of the next frame, given its
    /// first bytes: the whole frame, but not past the end.
    pub fn frame_len(&self, header: &[u8]) -> (r: u64)
        ensures
            ({
                let left = self@.end - self@.acked;
                let frame = if header@.len() < 8 {
                    8int
                } else {
                    8 + spec_u32_from_le_bytes(header@.subrange(0, 4))
                };
                r == if frame <= left {
                    frame
                } else {
                    left
                }
            }),
    {
        proof {
            use_type_invariant(self);
        }
        let left = self.write_offset - self.read_offset;
        let frame: u64 = if header.len() < 8 {
            8
        } else {
            8 + u32_from_le_bytes(slice_subrange(header, 0, 4)) as u64
        };
        if frame <= left {
            frame
        } else {
            left
        }
    }

    /// The next undelivered record, from the log's bytes at the read cursor. A frame
    /// that is torn or corrupt is the end: everything from the read cursor on is
    /// dropped.
    pub fn next(&mut self, log: &[u8]) -> (r: Option<Record>)
        requires
            old(self)@.acked + log@.len() <= old(self)@.end,
        ensures
            match first_frame(log@) {
                Some((e, n)) => {
                    &&& *final(self) == *old(self)
                    &&& r is Some
                    &&& r->Some_0@ == e
                    &&& r->Some_0.next == old(self)@.acked + n
                    &&& r->Some_0.next <= old(self)@.end
                },
                None => r is None && final(self)@ == (Cursors {
                    end: old(self)@.acked,
                    ..old(self)@
                }),
            },
    {
        proof {
            use_type_invariant(&*self);
        }
        if let Some((topic, key, payload, n)) = read_frame(log) {
            return Some(Record { topic, key, payload, next: self.read_offset + n as u64 });
        }
        *self = Wal {
            write_offset: self.read_offset,
            read_offset: self.read_offset,
            compact_threshold: self.compact_threshold,
            max_bytes: self.max_bytes,
        };
        None
    }

    /// Everything before `next` is delivered. The checkpoint file is to hold the
    /// bytes returned.
    pub fn commit(&mut self, next: u64) -> (r: Vec<u8>)
        requires
            next <= old(self)@.end,
        ensures
            final(self)@ == (Cursors { acked: next as int, ..old(self)@ }),
            r@ == spec_u64_to_le_bytes(next),
            checkpoint(Some(r@)) == next,
    {
        *self = Wal {
            write_offset: self.write_offset,
            read_offset: next,
            compact_threshold: self.compact_threshold,
            max_bytes: self.max_bytes,
        };
        let bytes = u64_to_le_bytes(next);
        proof {
            lemma_auto_spec_u64_to_from_le_bytes();
            assert(bytes@.take(8) =~= bytes@);
        }
        bytes
    }

    /// Whether to reclaim the delivered bytes, and how: once everything is delivered,
    /// or once they have reached the threshold.
    pub fn maybe_compact(&self) -> (r: Option<Compaction>)
        ensures
            ({
                let due = self@.acked > 0 && (self@.acked >= self@.end || self@.acked
                    >= self@.compact_threshold);
                match r {
                    Some(c) => due && c.from == self@.acked && c.live == self@.end - self@.acked,
                    None => !due,
                }
            }),
    {
        proof {
            use_type_invariant(self);
        }
        let caught_up = self.read_offset >= self.write_offset;
        if self.read_offset == 0 || (!caught_up && self.read_offset < self.compact_threshold) {
            return None;
        }
        Some(Compaction { from: self.read_offset, live: self.write_offset - self.read_offset })
    }

    /// The undelivered bytes have been moved to the front of the log. The checkpoint
    /// file is to hold the bytes returned.
    pub fn compacted(&mut self) -> (r: Vec<u8>)
        ensures
            final(self)@ == (Cursors {
                end: old(self)@.end - old(self)@.acked,
                acked: 0,
                ..old(self)@
            }),
            r@ == spec_u64_to_le_bytes(0),
            checkpoint(Some(r@)) == 0,
    {
        proof {
            use_type_invariant(&*self);
        }
        *self = Wal {
            write_offset: self.write_offset - self.read_offset,
            read_offset: 0,
            compact_threshold: self.compact_threshold,
            max_bytes: self.max_bytes,
        };
        let bytes = u64_to_le_bytes(0);
        proof {
            lemma_auto_spec_u64_to_from_le_bytes();
            assert(bytes@.take(8) =~= bytes@);
        }
        bytes
    }
}

/// Reads the first frame of `log`: its record and the bytes it takes.
fn read_frame(log: &[u8]) -> (r: Option<(String, Vec<u8>, Vec<u8>, usize)>)
    ensures
        match (r, first_frame(log@)) {
            (Some(rec), Some((e, n))) => rec.0@ == e.topic && rec.1@ == e.key && rec.2@ == e.payload
                && rec.3 == n && n <= log@.len(),
            (None, None) => true,
            _ => false,
        },
{
    if log.len() < 8 {
        return None;
    }
    let len = u32_from_le_bytes(slice_subrange(log, 0, 4)) as usize;
    let crc = u32_from_le_bytes(slice_subrange(log, 4, 8));
    if log.len() - 8 < len {
        return None;
    }
    let body = slice_subrange(log, 8, 8 + len);
    if crc32(body) != crc {
        return None;
    }
    match decode_body(body) {
        Some((topic, key, payload)) => Some((topic, key, payload, 8 + len)),
        None => None,
    }
}

} // verus!
