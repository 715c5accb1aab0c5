use osproxy::read::{hit_ids, shape_hits, ReadShape};
use osproxy::search_scan::{ids_of, HitShaper, Piece, SearchHitsScanner};
use osproxy::search_stream::{next_frame, start, FrameAction, FrameEvent};
use osproxy::types::DocIdRule;
use osproxy::bench_support::{buffered, response, streaming};
use serde_json::Value;

fn make_shape() -> ReadShape {
    ReadShape {
        inject_names: vec!["_tenant".to_owned()],
        id_rule: Some(DocIdRule {
            template: "{partition}:{body.id}".to_owned(),
            set_routing: true,
        }),
    }
}

fn shaper() -> HitShaper {
    HitShaper { logical_index: "orders".to_owned(), shape: make_shape() }
}

fn map_ids(ids: Vec<Option<String>>) -> Vec<Option<String>> {
    ids.into_iter()
        .map(|id| id.and_then(|id| id.strip_prefix("acme:").map(str::to_owned)))
        .collect()
}

fn assemble(pieces: &[Piece]) -> Vec<u8> {
    shaper().assemble(pieces, &map_ids(ids_of(pieces)))
}

fn run_split(body: &[u8], cut: usize) -> Vec<u8> {
    let mut scanner = SearchHitsScanner::new();
    let mut out = assemble(&scanner.feed(&body[..cut]));
    out.extend(assemble(&scanner.feed(&body[cut..])));
    out.extend(assemble(&scanner.finish()));
    out
}

fn oracle(body: &[u8]) -> Value {
    let bytes =
        shape_hits(body, "orders", &make_shape(), &map_ids(hit_ids(body))).expect("oracle ok");
    serde_json::from_slice(&bytes).expect("oracle is json")
}

fn assert_matches_oracle_for_all_splits(body: &[u8]) {
    let oracle_val = oracle(body);
    for cut in 0..=body.len() {
        let streamed = run_split(body, cut);
        let streamed_val: Value = serde_json::from_slice(&streamed)
            .unwrap_or_else(|e| panic!("streamed not json at cut {cut}: {e}\n{streamed:?}"));
        assert_eq!(
            streamed_val,
            oracle_val,
            "streamed != oracle at split {cut} of {}",
            body.len()
        );
    }
}

fn contains(haystack: &[u8], needle: &[u8]) -> bool {
    haystack.windows(needle.len()).any(|w| w == needle)
}

#[test]
fn strips_hits_and_preserves_siblings_across_every_split() {
    let body = br#"{
        "took": 5,
        "_shards": { "total": 3, "successful": 3 },
        "hits": { "total": { "value": 1 }, "max_score": 1.0, "hits": [
            { "_index": "shared", "_id": "acme:7", "_routing": "acme",
              "_source": { "_tenant": "acme", "msg": "hi" } },
            { "_index": "shared", "_id": "acme:8", "_routing": "acme",
              "_source": { "_tenant": "acme", "msg": "yo" } }
        ] },
        "aggregations": { "by_day": { "buckets": [ { "key": 1, "doc_count": 9 } ] } }
    }"#;
    assert_matches_oracle_for_all_splits(body);
    let streamed = run_split(body, body.len() / 2);
    assert!(
        !contains(&streamed, b"_tenant"),
        "injected field leaked: {}",
        String::from_utf8_lossy(&streamed)
    );
}

#[test]
fn empty_hits_array() {
    assert_matches_oracle_for_all_splits(
        br#"{"took":1,"hits":{"total":{"value":0},"hits":[]},"aggregations":{}}"#,
    );
}

#[test]
fn no_hits_key_passes_through() {
    assert_matches_oracle_for_all_splits(br#"{"took":1,"_shards":{"total":1}}"#);
}

#[test]
fn hits_value_not_an_object_passes_through() {
    assert_matches_oracle_for_all_splits(br#"{"took":1,"hits":42}"#);
}

#[test]
fn root_hits_directly_an_array_passes_through() {
    assert_matches_oracle_for_all_splits(
        br#"{"hits":[{"_index":"shared","_id":"acme:7","_source":{"_tenant":"acme"}}]}"#,
    );
}

#[test]
fn source_string_containing_structural_bytes() {
    let body = br#"{"hits":{"hits":[
        {"_index":"shared","_id":"acme:1","_source":{"_tenant":"acme",
         "note":"close ] brace } and \"hits\":[fake] inside a string"}}
    ]}}"#;
    assert_matches_oracle_for_all_splits(body);
}

#[test]
fn sibling_object_with_its_own_hits_array_is_not_matched() {
    let body = br#"{
        "decoy": { "hits": [ { "_source": { "_tenant": "acme" } } ] },
        "hits": { "hits": [ { "_index": "shared", "_id": "acme:7",
            "_source": { "_tenant": "acme", "msg": "real" } } ] }
    }"#;
    assert_matches_oracle_for_all_splits(body);
    let streamed = run_split(body, 3);
    let val: Value = serde_json::from_slice(&streamed).unwrap();
    assert!(val["hits"]["hits"][0]["_source"].get("_tenant").is_none());
    assert_eq!(val["hits"]["hits"][0]["_index"], "orders");
}

#[test]
fn id_is_mapped_back_to_logical() {
    let body = br#"{"hits":{"hits":[
        {"_index":"shared","_id":"acme:42","_routing":"acme","_source":{"_tenant":"acme"}}
    ]}}"#;
    let streamed = run_split(body, body.len());
    let val: Value = serde_json::from_slice(&streamed).unwrap();
    assert_eq!(val["hits"]["hits"][0]["_id"], "42");
}

#[test]
fn scalar_and_string_hit_elements_do_not_panic() {
    assert_matches_oracle_for_all_splits(br#"{"hits":{"hits":[1,"two",true,null]}}"#);
}

fn run_chunked(body: &[u8], sizes: &[usize]) -> Vec<u8> {
    let mut scanner = SearchHitsScanner::new();
    let mut out = Vec::new();
    let mut i = 0usize;
    let mut k = 0usize;
    while i < body.len() {
        let n = if sizes.is_empty() { body.len() } else { sizes[k % sizes.len()].max(1) };
        let end = (i + n).min(body.len());
        out.extend(assemble(&scanner.feed(&body[i..end])));
        i = end;
        k += 1;
    }
    out.extend(assemble(&scanner.finish()));
    out
}

/// A small deterministic generator of JSON values with structural bytes in strings.
struct Gen(u64);

impl Gen {
    fn below(&mut self, n: u64) -> u64 {
        self.0 = self.0.wrapping_mul(6364136223846793005).wrapping_add(1442695040888963407);
        (self.0 >> 33) % n
    }

    fn text(&mut self) -> String {
        let pool = ['a', '"', '\\', ']', '}', '{', '[', ':', ',', 'h', '\u{e9}', '\n', ' '];
        let n = self.below(12);
        (0..n).map(|_| pool[self.below(pool.len() as u64) as usize]).collect()
    }

    fn key(&mut self) -> String {
        let pool = ["a", "hits", "_tenant", "bc", "_source", "x"];
        pool[self.below(pool.len() as u64) as usize].to_owned()
    }

    fn value(&mut self, depth: u64) -> Value {
        match self.below(if depth == 0 { 4 } else { 6 }) {
            0 => Value::Null,
            1 => Value::Bool(self.below(2) == 0),
            2 => Value::from(self.below(1_000_000) as i64 - 500_000),
            3 => Value::String(self.text()),
            4 => {
                let n = self.below(4);
                Value::Array((0..n).map(|_| self.value(depth - 1)).collect())
            }
            _ => {
                let n = self.below(4);
                Value::Object((0..n).map(|_| (self.key(), self.value(depth - 1))).collect())
            }
        }
    }

    fn hit(&mut self) -> Value {
        let mut source = serde_json::Map::new();
        source.insert("_tenant".to_owned(), Value::from("acme"));
        for _ in 0..self.below(4) {
            let v = self.value(2);
            source.insert(format!("f{}", self.below(9)), v);
        }
        let mut hit = serde_json::Map::new();
        hit.insert("_index".to_owned(), Value::from("shared"));
        hit.insert("_id".to_owned(), Value::from(format!("acme:{}", self.below(9999))));
        hit.insert("_routing".to_owned(), Value::from("acme"));
        hit.insert("_source".to_owned(), Value::Object(source));
        Value::Object(hit)
    }

    fn hits_field(&mut self) -> Value {
        let n = self.below(5);
        let list = Value::Array((0..n).map(|_| self.hit()).collect());
        match self.below(11) {
            0..=7 => {
                let mut m = serde_json::Map::new();
                m.insert("total".to_owned(), Value::from(n));
                m.insert("hits".to_owned(), list);
                Value::Object(m)
            }
            8 => list,
            9 => {
                let mut m = serde_json::Map::new();
                m.insert("total".to_owned(), Value::from(1));
                m.insert("hits".to_owned(), self.value(3));
                Value::Object(m)
            }
            _ => self.value(3),
        }
    }

    fn envelope(&mut self) -> Value {
        if self.below(11) == 0 {
            return self.value(3);
        }
        let mut top = serde_json::Map::new();
        top.insert("took".to_owned(), Value::from(5));
        if self.below(2) == 0 {
            top.insert("_shards".to_owned(), self.value(3));
        }
        if self.below(4) > 0 {
            top.insert("hits".to_owned(), self.hits_field());
        }
        if self.below(2) == 0 {
            top.insert("aggregations".to_owned(), self.value(3));
        }
        Value::Object(top)
    }
}

#[test]
fn streamed_matches_buffered_oracle() {
    let mut gen = Gen(7);
    for _ in 0..400 {
        let env = gen.envelope();
        let n = gen.below(30);
        let sizes: Vec<usize> = (0..n).map(|_| 1 + gen.below(9) as usize).collect();
        let body = serde_json::to_vec(&env).unwrap();
        let streamed = run_chunked(&body, &sizes);
        let streamed_val: Value =
            serde_json::from_slice(&streamed).expect("streamed output is valid json");
        assert_eq!(streamed_val, oracle(&body), "{env}");
    }
}

const BODY: &[u8] = br#"{"took":5,"hits":{"total":{"value":2},"hits":[
    {"_index":"shared","_id":"acme:7","_routing":"acme","_source":{"_tenant":"acme","msg":"hi"}},
    {"_index":"shared","_id":"acme:8","_routing":"acme","_source":{"_tenant":"acme","msg":"yo"}}
]},"aggregations":{"by_day":{"buckets":[{"key":1,"doc_count":9}]}}}"#;

fn split_into(body: &[u8], n: usize) -> Vec<Vec<u8>> {
    let n = n.max(1);
    let step = body.len().div_ceil(n);
    body.chunks(step.max(1)).map(<[u8]>::to_vec).collect()
}

/// Drives the frame pump over the events of a body; `None` where the body failed.
fn drive(events: Vec<FrameEvent>) -> Option<(Vec<u8>, usize)> {
    let mut stage = start();
    let mut out = Vec::new();
    let mut frames = 0usize;
    for event in events {
        let (next, action) = next_frame(stage, event);
        stage = next;
        match action {
            FrameAction::Pull => {}
            FrameAction::Send(pieces) => {
                frames += 1;
                out.extend(assemble(&pieces));
            }
            FrameAction::Fail => return None,
            FrameAction::Stop => return Some((out, frames)),
        }
    }
    panic!("the events end with the end of the body or a failure");
}

fn events(chunks: Vec<Vec<u8>>) -> Vec<FrameEvent> {
    let mut all: Vec<FrameEvent> = chunks.into_iter().map(FrameEvent::Data).collect();
    all.push(FrameEvent::End);
    all
}

#[test]
fn reassembles_across_arbitrary_frame_boundaries() {
    let oracle_val = oracle(BODY);
    for n in [1, 2, 3, 7, 16, BODY.len()] {
        let (out, _) = drive(events(split_into(BODY, n))).unwrap();
        let out_val: Value =
            serde_json::from_slice(&out).unwrap_or_else(|e| panic!("not json for n={n}: {e}"));
        assert_eq!(out_val, oracle_val, "streamed != oracle for n={n} frames");
        assert!(!out.windows(7).any(|w| w == b"_tenant"), "injected field leaked (n={n})");
    }
}

#[test]
fn single_byte_frames_emit_each_hit_only_once() {
    let (out, frames) = drive(events(split_into(BODY, BODY.len()))).unwrap();
    assert!(frames < BODY.len(), "bytes inside a hit settle nothing");
    let s = String::from_utf8(out).unwrap();
    assert_eq!(s.matches(r#""msg":"hi""#).count(), 1);
    assert_eq!(s.matches(r#""msg":"yo""#).count(), 1);
    let v: Value = serde_json::from_str(&s).unwrap();
    assert_eq!(v["hits"]["hits"][0]["_id"], "7");
    assert_eq!(v["hits"]["hits"][0]["_index"], "orders");
}

#[test]
fn empty_upstream_frames_are_skipped() {
    let chunks = vec![BODY[..20].to_vec(), Vec::new(), BODY[20..].to_vec(), Vec::new()];
    let (out, _) = drive(events(chunks)).unwrap();
    assert_eq!(serde_json::from_slice::<Value>(&out).unwrap(), oracle(BODY));
}

#[test]
fn frames_without_data_are_skipped() {
    let all = vec![
        FrameEvent::Data(BODY[..50].to_vec()),
        FrameEvent::NoData,
        FrameEvent::Data(BODY[50..].to_vec()),
        FrameEvent::NoData,
        FrameEvent::End,
    ];
    let (out, _) = drive(all).unwrap();
    assert_eq!(serde_json::from_slice::<Value>(&out).unwrap(), oracle(BODY));
}

#[test]
fn upstream_error_propagates_as_a_stream_error() {
    let result = drive(vec![FrameEvent::Data(BODY[..30].to_vec()), FrameEvent::Failed]);
    assert!(result.is_none(), "upstream error must propagate");
    let (stage, _) = next_frame(start(), FrameEvent::Failed);
    let (_, after) = next_frame(stage, FrameEvent::Data(BODY.to_vec()));
    assert!(matches!(after, FrameAction::Stop), "nothing follows a failure");
}

#[test]
fn the_reference_bodies_agree() {
    let body = response(3, 40);
    let doc: Value = serde_json::from_slice(&body).unwrap();
    assert_eq!(doc["hits"]["total"]["value"], 3);
    assert_eq!(doc["hits"]["hits"][2]["_id"], "acme:2");
    assert_eq!(doc["aggregations"]["blob"], "x".repeat(40));
    let a: Value = serde_json::from_slice(&buffered(&body)).unwrap();
    let b: Value = serde_json::from_slice(&streaming(&body)).unwrap();
    assert_eq!(a, b);
    assert_eq!(a["hits"]["hits"][2]["_id"], "2");
    assert_eq!(a["hits"]["hits"][0]["_source"].get("_tenant"), None);
    assert_eq!(buffered(b"nonsense"), b"");
}
