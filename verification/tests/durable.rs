use osproxy::directives::{EtcdDirectiveStore, WatchEvent, RECONNECT_DELAY};
use osproxy::kafka::{Attempts, CaptureRecord, Delivery, SendStep};
use osproxy::wal::{crc32, decode_body, encode_body, read_ckpt, Wal};
use osproxy::wal_drain::{produce, Drain, DrainStep, SentStep};
use osproxy::{
    CaptureEnvelope, DeliveryConfig, InMemoryProducer, KafkaCapture, WalConfig,
};
use serde_json::Value;

/// A directive set: the ids of its directives. A key that is not known is refused.
fn decode(value: &[u8]) -> Option<Vec<String>> {
    let doc: Value = serde_json::from_slice(value).ok()?;
    let known = ["id", "level", "ttl_secs"];
    doc["directives"]
        .as_array()?
        .iter()
        .map(|d| {
            let object = d.as_object()?;
            if object.keys().all(|k| known.contains(&k.as_str())) {
                object["id"].as_str().map(str::to_owned)
            } else {
                None
            }
        })
        .collect()
}

const GOOD: &[u8] = br#"{"directives":[{"id":"a","level":"Shape","ttl_secs":600}]}"#;

#[test]
fn a_valid_value_is_applied_and_load_reflects_it() {
    let mut store: EtcdDirectiveStore<Vec<String>> = EtcdDirectiveStore::from_read(None, vec![]);
    assert_eq!(store.load().len(), 0, "starts empty");
    store.apply_value(decode(GOOD));
    assert_eq!(store.load().len(), 1, "the published set is now live");
}

#[test]
fn a_malformed_value_keeps_the_last_good_snapshot() {
    let mut store: EtcdDirectiveStore<Vec<String>> = EtcdDirectiveStore::from_read(None, vec![]);
    store.apply_value(decode(GOOD));
    store.apply_value(decode(b"not json"));
    assert_eq!(store.load().len(), 1, "the malformed update was rejected, last-good kept");
    store.apply_value(decode(
        br#"{"directives":[{"id":"b","level":"Shape","ttl_secs":60,"tennant":"acme"}]}"#,
    ));
    assert_eq!(store.load().len(), 1, "an unknown-key publish is rejected too");
}

#[test]
fn a_watch_is_followed_event_by_event() {
    let mut store = EtcdDirectiveStore::from_read(decode(GOOD), vec![]);
    assert_eq!(store.load(), &vec!["a".to_owned()]);
    store.apply_event(WatchEvent::Put(None), vec![]);
    assert_eq!(store.load().len(), 1);
    store.apply_event(WatchEvent::Delete, vec![]);
    assert!(store.load().is_empty(), "a deleted key means no directives");
    store.apply_event(WatchEvent::Put(decode(GOOD)), vec![]);
    assert_eq!(store.load().len(), 1);
    assert_eq!(RECONNECT_DELAY, 1_000_000_000);
}

fn record(rid: &str) -> CaptureRecord {
    CaptureRecord {
        request_id: rid.to_owned(),
        method: "Post".to_owned(),
        path: "/orders/_doc/1".to_owned(),
        query: Some("refresh=true".to_owned()),
        headers: vec![("content-type".to_owned(), "application/json".to_owned())],
        body: br#"{"id":7}"#.to_vec(),
        response_status: 201,
        response_body: br#"{"result":"created"}"#.to_vec(),
    }
}

/// The wire form of an envelope.
#[derive(Debug)]
struct Wire(Value);

impl Wire {
    fn of(e: &CaptureEnvelope) -> Self {
        let mut m = serde_json::Map::new();
        m.insert("request_id".to_owned(), Value::from(e.request_id.clone()));
        m.insert("method".to_owned(), Value::from(e.method.clone()));
        m.insert("path".to_owned(), Value::from(e.path.clone()));
        m.insert("query".to_owned(), Value::from(e.query.clone()));
        m.insert("headers".to_owned(), serde_json::to_value(&e.headers).unwrap());
        m.insert("body".to_owned(), Value::from(e.body.clone()));
        m.insert("response_status".to_owned(), Value::from(e.response_status));
        m.insert("response_body".to_owned(), Value::from(e.response_body.clone()));
        Wire(Value::Object(m))
    }

    fn back(&self) -> CaptureEnvelope {
        let bytes = |v: &Value| serde_json::from_value::<Vec<u8>>(v.clone()).unwrap();
        let text = |v: &Value| v.as_str().unwrap().to_owned();
        CaptureEnvelope {
            request_id: text(&self.0["request_id"]),
            method: text(&self.0["method"]),
            path: text(&self.0["path"]),
            query: self.0["query"].as_str().map(str::to_owned),
            headers: serde_json::from_value(self.0["headers"].clone()).unwrap(),
            body: bytes(&self.0["body"]),
            response_status: self.0["response_status"].as_u64().unwrap() as u16,
            response_body: bytes(&self.0["response_body"]),
        }
    }
}

#[test]
fn the_envelope_round_trips_through_json() {
    let env = CaptureEnvelope::from_record(&record("r1"));
    let bytes = serde_json::to_vec(&Wire::of(&env).0).unwrap();
    let back = Wire(serde_json::from_slice(&bytes).unwrap()).back();
    assert_eq!(back, env);
    assert_eq!(back.method, "POST");
    assert_eq!(back.body, br#"{"id":7}"#);
    assert_eq!(back.response_status, 201);
}

#[test]
fn kafka_capture_produces_one_envelope_per_exchange() {
    let mut capture = KafkaCapture::new(InMemoryProducer::new(), "osproxy.capture".to_owned());
    for rid in ["r1", "r2"] {
        let env = CaptureEnvelope::from_record(&record(rid));
        capture.capture(&env, serde_json::to_vec(&Wire::of(&env).0).ok());
    }
    let lost = CaptureEnvelope::from_record(&record("r3"));
    capture.capture(&lost, None);
    let sent = capture.producer.produced();
    assert_eq!(sent.len(), 2);
    let (topic, key, payload) = &sent[0];
    assert_eq!(topic, "osproxy.capture");
    assert_eq!(key, b"r1", "the request id is the partition key");
    let env = Wire(serde_json::from_slice(payload).unwrap()).back();
    assert_eq!(env.path, "/orders/_doc/1");
}

fn cfg(max_attempts: u32, max_inflight: usize) -> DeliveryConfig {
    DeliveryConfig { max_inflight, max_attempts, base_backoff: 10_000_000 }
}

/// Sends until the delivery is over; the sends and the delays between them.
fn deliver(cfg: DeliveryConfig, succeeds_at: u32) -> (u32, Vec<u128>) {
    let mut calls = 0u32;
    let mut delays = vec![];
    let Some(mut attempts) = Attempts::start(cfg) else { return (0, delays) };
    loop {
        calls += 1;
        let (next, step) = attempts.deliver(calls == succeeds_at);
        attempts = next;
        match step {
            SendStep::Done => return (calls, delays),
            SendStep::RetryAfter(d) => delays.push(d),
        }
    }
}

#[test]
fn deliver_stops_on_the_first_success() {
    let (calls, delays) = deliver(cfg(5, 1), 3);
    assert_eq!(calls, 3, "stops once a send succeeds");
    assert_eq!(delays, vec![10_000_000, 20_000_000]);
}

#[test]
fn deliver_gives_up_after_the_attempt_budget() {
    assert_eq!(deliver(cfg(4, 1), 99).0, 4, "exactly max_attempts sends, then gives up");
    assert_eq!(deliver(cfg(0, 1), 1).0, 0);
    let d = DeliveryConfig::default();
    assert_eq!((d.max_inflight, d.max_attempts, d.base_backoff), (1024, 4, 50_000_000));
}

#[test]
fn spawn_drops_when_the_buffer_is_saturated() {
    let mut delivery = Delivery::new(cfg(1, 1));
    assert!(delivery.spawn().is_ok(), "the first record takes the only slot");
    let err = delivery.spawn().unwrap_err();
    assert_eq!(err.reason, "capture buffer saturated, record dropped");
}

#[test]
fn spawn_frees_the_slot_after_delivery() {
    let mut delivery = Delivery::new(cfg(1, 1));
    delivery.spawn().expect("first accepted");
    delivery.finished();
    assert!(delivery.spawn().is_ok(), "the slot is reusable once delivery finishes");
}

/// The files of a log, in memory.
struct Disk {
    log: Vec<u8>,
    ckpt: Option<Vec<u8>>,
}

impl Disk {
    fn new() -> Self {
        Disk { log: vec![], ckpt: None }
    }

    fn open(&mut self, cfg: WalConfig) -> Wal {
        Wal::open(
            self.log.len() as u64,
            self.ckpt.as_deref(),
            cfg.max_bytes,
            cfg.compact_threshold,
        )
    }

    fn put(&mut self, wal: &mut Wal, key: &str, payload: &[u8]) -> bool {
        match produce(wal, "t", key.as_bytes(), payload) {
            Ok((at, frame)) => {
                self.log.truncate(at as usize);
                self.log.extend_from_slice(&frame);
                wal.appended(frame.len() as u64);
                true
            }
            Err(e) => {
                assert_eq!(e.reason, "capture WAL full, record dropped");
                false
            }
        }
    }

    /// One step of the drainer; the key it delivered.
    fn step(&mut self, wal: &mut Wal, drain: &mut Drain, ack: bool) -> Option<String> {
        let record = match wal.waiting() {
            None => None,
            Some(at) => {
                let at = at as usize;
                let len = wal.frame_len(&self.log[at..]) as usize;
                wal.next(&self.log[at..at + len])
            }
        };
        match drain.polled(record) {
            DrainStep::Settle(_) => {
                self.compact(wal);
                None
            }
            DrainStep::Deliver(r) => match drain.drain(ack, r.next, 0) {
                SentStep::Commit { next, sync } => {
                    assert!(!sync);
                    self.ckpt = Some(wal.commit(next));
                    Some(String::from_utf8(r.key).unwrap())
                }
                SentStep::RetryAfter(_) => None,
            },
        }
    }

    fn compact(&mut self, wal: &mut Wal) {
        if let Some(c) = wal.maybe_compact() {
            let from = c.from as usize;
            self.log = self.log[from..from + c.live as usize].to_vec();
            self.ckpt = Some(wal.compacted());
        }
    }
}

fn fast_cfg() -> WalConfig {
    WalConfig {
        max_bytes: 1 << 20,
        compact_threshold: 256,
        base_backoff: 1_000_000,
        max_backoff: 5_000_000,
        sync_interval: 1_000_000,
    }
}

#[test]
fn delivers_every_record_in_order() {
    let mut disk = Disk::new();
    let mut wal = disk.open(fast_cfg());
    let mut drain = Drain::new(fast_cfg());
    for i in 0..5 {
        assert!(disk.put(&mut wal, &format!("k{i}"), b"v"));
    }
    let keys: Vec<String> =
        (0..5).map(|_| disk.step(&mut wal, &mut drain, true).unwrap()).collect();
    assert_eq!(keys, ["k0", "k1", "k2", "k3", "k4"]);
    assert!(disk.step(&mut wal, &mut drain, true).is_none());
    assert!(disk.log.is_empty(), "everything is delivered and reclaimed");
}

#[test]
fn retries_until_the_broker_acks() {
    let mut disk = Disk::new();
    let mut wal = disk.open(fast_cfg());
    let mut drain = Drain::new(fast_cfg());
    disk.put(&mut wal, "k", b"v");
    for _ in 0..3 {
        assert!(disk.step(&mut wal, &mut drain, false).is_none());
    }
    assert_eq!(drain.backoff, 5_000_000, "the delay doubles up to its cap");
    assert_eq!(disk.step(&mut wal, &mut drain, true).as_deref(), Some("k"));
    assert_eq!(drain.backoff, 1_000_000);
}

#[test]
fn undelivered_records_survive_a_restart() {
    let mut disk = Disk::new();
    {
        let mut wal = disk.open(fast_cfg());
        let mut drain = Drain::new(fast_cfg());
        disk.put(&mut wal, "k1", b"v1");
        disk.put(&mut wal, "k2", b"v2");
        for _ in 0..4 {
            assert!(disk.step(&mut wal, &mut drain, false).is_none());
        }
    }
    let mut wal = disk.open(fast_cfg());
    let mut drain = Drain::new(fast_cfg());
    assert_eq!(disk.step(&mut wal, &mut drain, true).as_deref(), Some("k1"));
    let mut again = disk.open(fast_cfg());
    assert_eq!(disk.step(&mut again, &mut drain, true).as_deref(), Some("k2"));
}

#[test]
fn a_full_buffer_drops_new_records() {
    let mut disk = Disk::new();
    let mut wal = disk.open(WalConfig { max_bytes: 64, ..fast_cfg() });
    let payload = vec![b'x'; 40];
    assert!(disk.put(&mut wal, "k", &payload), "the first record fits under the cap");
    assert!(
        !disk.put(&mut wal, "k", &payload),
        "the second record exceeds the cap and is dropped"
    );
}

#[test]
fn a_torn_tail_costs_only_itself() {
    let mut disk = Disk::new();
    let mut wal = disk.open(fast_cfg());
    disk.put(&mut wal, "k1", b"v1");
    let whole = disk.log.len();
    disk.put(&mut wal, "k2", b"v2");
    disk.log.truncate(disk.log.len() - 1);
    let mut wal = disk.open(fast_cfg());
    let mut drain = Drain::new(fast_cfg());
    assert_eq!(disk.step(&mut wal, &mut drain, true).as_deref(), Some("k1"));
    assert!(disk.step(&mut wal, &mut drain, true).is_none());
    assert!(disk.log.is_empty(), "the torn bytes are gone");
    disk.put(&mut wal, "k3", b"v3");
    assert_eq!(disk.log.len(), whole, "the next record is written from the start");
    disk.log[4] ^= 1;
    assert_eq!(wal.waiting(), Some(0));
    assert!(wal.next(&disk.log).is_none(), "a corrupt frame is the end");
    assert_eq!(wal.waiting(), None);
}

#[test]
fn compaction_keeps_what_is_undelivered() {
    let cfg = WalConfig { compact_threshold: 1, ..fast_cfg() };
    let mut disk = Disk::new();
    let mut wal = disk.open(cfg);
    let mut drain = Drain::new(cfg);
    for k in ["a", "b", "c"] {
        disk.put(&mut wal, k, b"v");
    }
    assert_eq!(disk.step(&mut wal, &mut drain, true).as_deref(), Some("a"));
    let before = disk.log.len();
    disk.compact(&mut wal);
    assert!(disk.log.len() < before);
    assert_eq!(disk.step(&mut wal, &mut drain, true).as_deref(), Some("b"));
    let mut wal = disk.open(cfg);
    assert_eq!(disk.step(&mut wal, &mut drain, true).as_deref(), Some("c"));
}

#[test]
fn the_checksum_and_the_frame_bytes_are_fixed() {
    assert_eq!(crc32(b"123456789"), 0xcbf4_3926);
    assert_eq!(crc32(b""), 0);
    let body = encode_body("t", b"k", b"pay").unwrap();
    assert_eq!(body, [1, 0, b't', 1, 0, 0, 0, b'k', b'p', b'a', b'y']);
    assert_eq!(
        decode_body(&body),
        Some(("t".to_owned(), b"k".to_vec(), b"pay".to_vec()))
    );
    assert_eq!(decode_body(&body[..2]), None);
    assert_eq!(decode_body(&[1, 0, 0xff, 0, 0, 0, 0]), None, "a topic is text");
    assert_eq!(encode_body(&"t".repeat(70_000), b"", b""), None);
    assert_eq!(read_ckpt(None), 0);
    assert_eq!(read_ckpt(Some(&[1, 2, 3])), 0);
    assert_eq!(read_ckpt(Some(&[7, 1, 0, 0, 0, 0, 0, 0])), 263);
}

#[test]
fn the_default_buffer_is_large() {
    let d = WalConfig::default();
    assert_eq!(d.max_bytes, 268_435_456);
    assert_eq!(d.compact_threshold, 8_388_608);
    assert_eq!((d.base_backoff, d.max_backoff), (100_000_000, 5_000_000_000));
    assert_eq!(d.sync_interval, 200_000_000);
    let mut drain = Drain::new(d);
    assert!(matches!(drain.drain(true, 4, 200_000_000), SentStep::Commit { next: 4, sync: true }));
    assert!(matches!(drain.polled(None), DrainStep::Settle(200_000_000)));
}

#[test]
fn a_default_producer_was_handed_nothing() {
    assert!(InMemoryProducer::default().produced().is_empty());
}
