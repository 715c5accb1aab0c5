use std::collections::{BTreeMap, BTreeSet};

use osproxy::asyncwrite::{QueueError, QueuedWrite, WriteMode};
use osproxy::bulk::{
    begin_bulk, op_body_len, BulkStart, Demux, BYTE_FLUSH_THRESHOLD, FLUSH_THRESHOLD,
};
use osproxy::bulkline::BulkAction;
use osproxy::bulkprep::{inject_pairs, Answers, BulkItem};
use osproxy::bulkrun::{AsyncStep, BulkRun, Flushed, Rewriting, Step};
use osproxy::error::{ErrorCode, RewriteError, SinkError, SpiError, SpiFault};
use osproxy::ndjson::{BodyEvent, BulkReader, NdjsonReader, LineStep, OpStep};
use osproxy::types::{
    BodyTransform, DocIdRule, DocOp, EndpointKind, InjectedField, InjectedValue, MigrationPhase,
    OpResult, Protocol, RequestCtx, Resolved, RouteDecision, Target, WriteAck, WriteOp,
};
use osproxy::{PipelineResponse, RequestError};
use serde_json::Value;

/// The clusters, the placements and the migration gate.
struct World {
    placed: BTreeMap<String, (String, String)>,
    held: BTreeSet<String>,
    fails: bool,
    short: bool,
    stored: BTreeMap<(String, String), Vec<u8>>,
    batches: Vec<usize>,
    fetched: usize,
    enqueued: Vec<QueuedWrite>,
    queue_fails: bool,
}

fn world() -> World {
    let mut placed = BTreeMap::new();
    for p in ["acme", "globex"] {
        placed.insert(p.to_owned(), ("eu-1".to_owned(), format!("{p}-idx")));
    }
    World {
        placed,
        held: BTreeSet::new(),
        fails: false,
        short: false,
        stored: BTreeMap::new(),
        batches: vec![],
        fetched: 0,
        enqueued: vec![],
        queue_fails: false,
    }
}

impl World {
    fn resolve(&mut self, partition: &str) -> Result<Resolved, SpiError> {
        self.fetched += 1;
        let (cluster, index) = self.placed.get(partition).cloned().ok_or(SpiError {
            fault: SpiFault::PlacementMissing { partition: partition.to_owned() },
            code: ErrorCode::PlacementMissing,
            retryable: false,
        })?;
        Ok(Resolved {
            partition: partition.to_owned(),
            decision: RouteDecision {
                target: Target { cluster, index, endpoint: None },
                upstream_protocol: Protocol::Http1,
                body_transform: BodyTransform::Both {
                    inject: vec![InjectedField {
                        name: "_tenant".to_owned(),
                        value: InjectedValue::PartitionId,
                    }],
                    id: DocIdRule {
                        template: "{partition}:{body.id}".to_owned(),
                        set_routing: true,
                    },
                },
                epoch: 1,
            },
            migration: MigrationPhase::Settled,
        })
    }

    fn write(&mut self, batch: Vec<WriteOp>) -> Result<WriteAck, SinkError> {
        self.batches.push(batch.len());
        if self.fails {
            return Err(SinkError { code: ErrorCode::UpstreamFailed, retryable: true });
        }
        let mut results = vec![];
        for op in batch {
            let index = op.target.index;
            let (id, created, status) = match op.doc {
                DocOp::Index { id, body, .. } | DocOp::Create { id, body, .. } => {
                    let id = id.unwrap();
                    let fresh = self.stored.insert((index, id.clone()), body).is_none();
                    (id, fresh, if fresh { 201 } else { 200 })
                }
                DocOp::Update { id, body, .. } => {
                    let doc: Value = serde_json::from_slice(&body).unwrap();
                    let made = serde_json::to_vec(&doc["upsert"]).unwrap();
                    self.stored.insert((index, id.clone()), made);
                    (id, true, 201)
                }
                DocOp::Delete { id, .. } => {
                    let there = self.stored.remove(&(index, id.clone())).is_some();
                    (id, false, if there { 200 } else { 404 })
                }
            };
            results.push(OpResult { id, status, created });
        }
        if self.short {
            results.pop();
        }
        Ok(WriteAck { results, pool_reuse: false })
    }

    fn admits(&self, partition: &str) -> bool {
        !self.held.contains(partition)
    }
}

fn ctx(headers: Vec<(String, String)>) -> RequestCtx {
    RequestCtx {
        request_id: "r".to_owned(),
        principal: "svc".to_owned(),
        method: "POST".to_owned(),
        endpoint: EndpointKind::IngestBulk,
        protocol: Protocol::Http1,
        logical_index: "orders".to_owned(),
        headers,
        body: vec![],
        doc_id: None,
        query: None,
        path: "/orders/_bulk".to_owned(),
    }
}

fn action_of(line: &[u8]) -> Result<BulkAction, RequestError> {
    let doc: Value = serde_json::from_slice(line)
        .map_err(|_| RequestError::Rewrite(RewriteError::MalformedBulkAction))?;
    match doc.as_object().and_then(|o| o.keys().next()).map(String::as_str) {
        Some("index") => Ok(BulkAction::Index),
        Some("create") => Ok(BulkAction::Create),
        Some("update") => Ok(BulkAction::Update),
        Some("delete") => Ok(BulkAction::Delete),
        _ => Err(RequestError::Rewrite(RewriteError::MalformedBulkAction)),
    }
}

fn item_of(line: &[u8], source: Option<&[u8]>) -> BulkItem {
    let doc: Value = serde_json::from_slice(line).unwrap();
    let meta = doc.as_object().unwrap().values().next().unwrap().clone();
    BulkItem {
        action: action_of(line).unwrap(),
        index: meta["_index"].as_str().map(str::to_owned),
        id: meta["_id"].as_str().map(str::to_owned),
        source: source.map(<[u8]>::to_vec),
        concurrency_control: meta.get("if_seq_no").is_some(),
    }
}

/// Reads the operations of a body that arrives in frames.
fn operations(frames: Vec<Vec<u8>>) -> Result<Vec<BulkItem>, RequestError> {
    let mut reader = BulkReader::new();
    let mut frames = frames.into_iter();
    let mut items = vec![];
    loop {
        match reader.next_op()? {
            OpStep::ReadAction(line) => {
                let action = action_of(&line)?;
                if let Some(OpStep::Op(line, None)) = reader.action(line, action) {
                    items.push(item_of(&line, None));
                }
            }
            OpStep::Op(line, source) => items.push(item_of(&line, source.as_deref())),
            OpStep::NeedFrame => {
                let event = match frames.next() {
                    Some(data) => BodyEvent::Data(data),
                    None => BodyEvent::End,
                };
                reader.lines = reader.lines.feed(event)?;
            }
            OpStep::End => return Ok(items),
        }
    }
}

fn partition_of(ctx: &RequestCtx, item: &BulkItem) -> Result<String, SpiError> {
    let from_body = item
        .source
        .as_deref()
        .and_then(|s| serde_json::from_slice::<Value>(s).ok())
        .and_then(|d| d["tenant_id"].as_str().map(str::to_owned));
    let from_header = ctx.headers.iter().find(|(k, _)| k == "x-tenant").map(|(_, v)| v.clone());
    from_body.or(from_header).ok_or(SpiError {
        fault: SpiFault::PartitionUnresolved,
        code: ErrorCode::PartitionUnresolved,
        retryable: false,
    })
}

fn spliced(body: &[u8], pairs: &[(String, Value)]) -> Result<Value, RewriteError> {
    let mut doc: Value = serde_json::from_slice(body).map_err(|_| RewriteError::InvalidJson)?;
    let object = doc.as_object_mut().ok_or(RewriteError::NotAnObject)?;
    for (name, value) in pairs {
        if object.insert(name.clone(), value.clone()).is_some() {
            return Err(RewriteError::ReservedFieldCollision);
        }
    }
    Ok(doc)
}

/// The rewriting layer of the tenancy above.
fn rewrite(item: &BulkItem, resolved: &Resolved) -> Answers {
    let partition = resolved.partition.as_str();
    let pairs = inject_pairs(&resolved.decision.body_transform, partition);
    let source = item.source.clone().unwrap_or_default();
    let constructed = serde_json::from_slice::<Value>(&source)
        .ok()
        .and_then(|d| d.get("id").map(|v| v.to_string()))
        .map(|id| format!("{partition}:{}", id.trim_matches('"')))
        .ok_or(RewriteError::Other);
    let updated = serde_json::from_slice::<Value>(&source)
        .map_err(|_| RewriteError::InvalidJson)
        .and_then(|mut d| {
            for part in ["doc", "upsert"] {
                if let Some(inner) = d.get(part) {
                    let bytes = serde_json::to_vec(inner).unwrap();
                    d[part] = spliced(&bytes, &pairs)?;
                }
            }
            Ok(d)
        });
    let recovered = constructed
        .as_ref()
        .ok()
        .and_then(|p| p.strip_prefix(&format!("{partition}:")).map(str::to_owned));
    Answers {
        mapped: item
            .id
            .as_ref()
            .map(|id| format!("{partition}:{id}"))
            .ok_or(RewriteError::Other),
        injected: spliced(&source, &pairs).map(|d| serde_json::to_vec(&d).unwrap()),
        constructed,
        recovered,
        updated,
    }
}

fn answers_for(w: &Rewriting) -> Answers {
    let resolved = w.resolved().expect("the placement is known");
    rewrite(w.operation(), resolved)
}

fn finish(world: &mut World, run: BulkRun) -> PipelineResponse {
    let closing = run.finish();
    let mut done = vec![];
    for i in 0..closing.sub_batches().len() {
        let admits: Vec<bool> =
            closing.sub_batches()[i].iter().map(|e| world.admits(&e.1.partition)).collect();
        let result = world.write(closing.batch(i, &admits));
        done.push(Flushed { admits, result });
    }
    closing.response(done)
}

fn bulk_with(world: &mut World, ctx: &RequestCtx, frames: Vec<Vec<u8>>) -> Result<Value, RequestError> {
    assert!(matches!(begin_bulk(ctx, WriteMode::Sync, true), BulkStart::Dispatch));
    let mut run = BulkRun::new();
    for item in operations(frames)? {
        let partition = partition_of(ctx, &item);
        let mut step = run.operation(ctx, item, partition);
        run = loop {
            step = match step {
                Step::Next(run) => break run,
                Step::Fetch(f) => {
                    let outcome = world.resolve(f.partition());
                    assert_eq!(f.index(), "orders");
                    f.fetched(outcome)
                }
                Step::Rewrite(w) => {
                    let answers = answers_for(&w);
                    w.rewritten(answers)
                }
                Step::Gate(g) => {
                    let admits: Vec<bool> =
                        g.operations().iter().map(|e| world.admits(&e.1.partition)).collect();
                    let writing = g.gated(&admits);
                    let result = world.write(writing.batch());
                    Step::Next(writing.written(result))
                }
            };
        };
    }
    let response = finish(world, run);
    assert_eq!(response.status, 200);
    assert_eq!(response.content_type, None);
    Ok(serde_json::from_slice(&response.body).unwrap())
}

fn bulk(world: &mut World, body: &str) -> Value {
    bulk_with(world, &ctx(vec![]), vec![body.as_bytes().to_vec()]).unwrap()
}

fn acme() -> Vec<(String, String)> {
    vec![("x-tenant".to_owned(), "acme".to_owned())]
}

fn stored(world: &World, index: &str, id: &str) -> Option<Value> {
    world
        .stored
        .get(&(index.to_owned(), id.to_owned()))
        .map(|b| serde_json::from_slice(b).unwrap())
}

#[test]
fn mixed_partition_bulk_demuxes_preserves_order_and_isolates() {
    let mut w = world();
    let doc = bulk(
        &mut w,
        "{\"index\":{}}\n{\"tenant_id\":\"acme\",\"id\":1,\"msg\":\"a1\"}\n\
         {\"index\":{}}\n{\"tenant_id\":\"globex\",\"id\":2,\"msg\":\"g2\"}\n\
         {\"index\":{}}\n{\"id\":3,\"msg\":\"orphan\"}\n\
         {\"index\":{}}\n{\"tenant_id\":\"acme\",\"id\":4,\"msg\":\"a4\"}\n",
    );
    assert_eq!(doc["errors"], true, "{doc}");
    let items = doc["items"].as_array().unwrap();
    assert_eq!(items.len(), 4);
    assert_eq!(items[0]["index"]["_id"], "1");
    assert_eq!(items[0]["index"]["status"], 201);
    assert_eq!(items[1]["index"]["_id"], "2");
    assert_eq!(items[1]["index"]["status"], 201);
    assert_eq!(items[2]["index"]["status"], 400);
    assert_eq!(items[2]["index"]["error"]["type"], "partition_unresolved");
    assert_eq!(items[3]["index"]["_id"], "4");
    assert_eq!(items[3]["index"]["status"], 201);
    assert!(stored(&w, "acme-idx", "acme:1").is_some());
    assert!(stored(&w, "globex-idx", "globex:2").is_some());
    assert!(stored(&w, "globex-idx", "acme:1").is_none());
    assert_eq!(stored(&w, "acme-idx", "acme:4").unwrap()["_tenant"], "acme");
    assert_eq!(w.fetched, 2, "each placement is fetched once");
    w.batches.sort_unstable();
    assert_eq!(w.batches, vec![1, 2], "one sub-batch per target");
}

#[test]
fn all_succeed_reports_no_errors() {
    let mut w = world();
    let body = "{\"index\":{}}\n{\"tenant_id\":\"acme\",\"id\":1}\n{\"delete\":{\"_id\":\"1\"}}\n";
    let doc = bulk_with(&mut w, &ctx(acme()), vec![body.as_bytes().to_vec()]).unwrap();
    assert_eq!(doc["errors"], false, "{doc}");
    let items = doc["items"].as_array().unwrap();
    assert_eq!(items.len(), 2);
    assert_eq!(items[0]["index"]["result"], "created");
    assert_eq!(items[1]["delete"]["_id"], "1");
}

#[test]
fn bulk_preserves_item_order() {
    let mut seed: u64 = 11;
    let mut below = |n: u64| {
        seed = seed.wrapping_mul(6364136223846793005).wrapping_add(1442695040888963407);
        (seed >> 33) % n
    };
    for _ in 0..48 {
        let mut w = world();
        let n = below(12);
        let ops: Vec<(&str, u64)> = (0..n)
            .map(|_| (if below(2) == 0 { "acme" } else { "globex" }, below(1000)))
            .collect();
        let mut body = String::new();
        for (tenant, id) in &ops {
            body.push_str(&format!(
                "{{\"index\":{{}}}}\n{{\"tenant_id\":\"{tenant}\",\"id\":{id}}}\n"
            ));
        }
        let doc = bulk(&mut w, &body);
        let items = doc["items"].as_array().unwrap();
        assert_eq!(items.len(), ops.len());
        for (item, (_, id)) in items.iter().zip(&ops) {
            assert_eq!(item["index"]["_id"], id.to_string());
        }
    }
}

#[test]
fn per_item_errors_are_positioned_and_typed() {
    let mut w = world();
    let body = "{\"update\":{}}\n{\"doc\":{}}\n{\"delete\":{}}\n\
                {\"index\":{}}\n{\"tenant_id\":\"ghost\",\"id\":9}\n";
    let doc = bulk_with(&mut w, &ctx(acme()), vec![body.as_bytes().to_vec()]).unwrap();
    assert_eq!(doc["errors"], true);
    let items = doc["items"].as_array().unwrap();
    assert_eq!(items[0]["update"]["error"]["type"], "update_without_id");
    assert_eq!(items[1]["delete"]["error"]["type"], "delete_without_id");
    assert_eq!(items[2]["index"]["error"]["type"], "placement_missing");
    assert_eq!(items[2]["index"]["status"], 404);
}

#[test]
fn sources_that_cannot_be_written_are_positioned() {
    let mut w = world();
    let body = "{\"index\":{}}\n{\"_tenant\":\"evil\",\"id\":1}\n\
                {\"index\":{}}\n{\"msg\":1}\n\
                {\"update\":{\"_id\":\"1\"}}\n{oops\n\
                {\"update\":{\"_id\":\"1\"}}\n{\"doc\":{\"_tenant\":1}}\n";
    let doc = bulk_with(&mut w, &ctx(acme()), vec![body.as_bytes().to_vec()]).unwrap();
    let items = doc["items"].as_array().unwrap();
    assert_eq!(items[0]["index"]["error"]["type"], "reserved_field_collision");
    assert_eq!(items[1]["index"]["error"]["type"], "id_construction");
    assert_eq!(items[2]["update"]["error"]["type"], "invalid_json");
    assert_eq!(items[3]["update"]["error"]["type"], "reserved_field_collision");
    assert!(w.batches.is_empty(), "nothing was sent");
}

#[test]
fn action_line_id_is_mapped_logical_to_physical() {
    let mut w = world();
    let doc = bulk(&mut w, "{\"index\":{\"_id\":\"99\"}}\n{\"tenant_id\":\"acme\",\"id\":1}\n");
    assert_eq!(doc["items"][0]["index"]["_id"], "99");
    assert!(stored(&w, "acme-idx", "acme:99").is_some());
}

#[test]
fn large_bulk_flushes_mid_stream_without_dropping_or_reordering() {
    const COUNT: usize = 600;
    let mut w = world();
    let mut body = String::new();
    for id in 0..COUNT {
        body.push_str(&format!(
            "{{\"index\":{{}}}}\n{{\"tenant_id\":\"acme\",\"id\":{id},\"msg\":\"m{id}\"}}\n"
        ));
    }
    let doc = bulk(&mut w, &body);
    assert_eq!(doc["errors"], false, "no errors expected");
    let items = doc["items"].as_array().unwrap();
    assert_eq!(items.len(), COUNT);
    for (id, item) in items.iter().enumerate() {
        assert_eq!(item["index"]["_id"], id.to_string(), "order preserved");
        assert_eq!(item["index"]["status"], 201);
    }
    for id in ["0", "599"] {
        assert!(stored(&w, "acme-idx", &format!("acme:{id}")).is_some());
    }
    assert_eq!(w.batches, vec![FLUSH_THRESHOLD, FLUSH_THRESHOLD, COUNT - 2 * FLUSH_THRESHOLD]);
}

#[test]
fn a_body_may_arrive_in_any_frames() {
    let body = "\n{\"index\":{}}\r\n{\"tenant_id\":\"acme\",\"id\":1}\n  \n{\"delete\":{\"_id\":\"1\"}}";
    let mut whole = world();
    let want = bulk_with(&mut whole, &ctx(acme()), vec![body.as_bytes().to_vec()]).unwrap();
    for step in [1, 2, 3, 7, 20] {
        let mut w = world();
        let frames: Vec<Vec<u8>> = body.as_bytes().chunks(step).map(<[u8]>::to_vec).collect();
        let got = bulk_with(&mut w, &ctx(acme()), frames).unwrap();
        assert_eq!(got, want);
        assert_eq!(got["items"].as_array().unwrap().len(), 2);
    }
}

#[test]
fn large_documents_are_flushed_by_their_bytes() {
    let mut w = world();
    let big = "x".repeat(BYTE_FLUSH_THRESHOLD / 2);
    let mut body = String::new();
    for id in 0..3 {
        body.push_str(&format!(
            "{{\"index\":{{}}}}\n{{\"tenant_id\":\"acme\",\"id\":{id},\"msg\":\"{big}\"}}\n"
        ));
    }
    bulk(&mut w, &body);
    assert_eq!(w.batches, vec![2, 1], "two of them reach the byte threshold");
}

#[test]
fn create_action_routes_through_the_create_op() {
    let mut w = world();
    let doc =
        bulk(&mut w, "{\"create\":{}}\n{\"tenant_id\":\"acme\",\"id\":5,\"msg\":\"c5\"}\n");
    assert_eq!(doc["errors"], false, "{doc}");
    assert_eq!(doc["items"][0]["create"]["_id"], "5");
    assert_eq!(doc["items"][0]["create"]["status"], 201);
    assert!(stored(&w, "acme-idx", "acme:5").is_some());
}

#[test]
fn update_upsert_injects_tenancy_and_round_trips() {
    let mut w = world();
    let body = "{\"update\":{\"_id\":\"5\"}}\n{\"doc\":{\"msg\":\"patched\"},\"upsert\":{\"msg\":\"made\"}}\n";
    let doc = bulk_with(&mut w, &ctx(acme()), vec![body.as_bytes().to_vec()]).unwrap();
    assert_eq!(doc["errors"], false, "{doc}");
    assert_eq!(doc["items"][0]["update"]["_id"], "5");
    let made = stored(&w, "acme-idx", "acme:5").unwrap();
    assert_eq!(made["_tenant"], "acme");
    assert_eq!(made["msg"], "made");
}

#[test]
fn upstream_failure_positions_502_for_that_target() {
    let mut w = world();
    w.fails = true;
    let doc = bulk(&mut w, "{\"index\":{}}\n{\"tenant_id\":\"acme\",\"id\":1}\n");
    assert_eq!(doc["errors"], true);
    assert_eq!(doc["items"][0]["index"]["status"], 502);
    assert_eq!(doc["items"][0]["index"]["error"]["type"], "upstream_failed");
}

#[test]
fn an_upstream_rejection_of_one_item_is_positioned() {
    let mut w = world();
    let doc = bulk_with(
        &mut w,
        &ctx(acme()),
        vec![b"{\"delete\":{\"_id\":\"none\"}}\n".to_vec()],
    )
    .unwrap();
    assert_eq!(doc["items"][0]["delete"]["status"], 404);
    assert_eq!(doc["items"][0]["delete"]["error"]["type"], "not_found");
    assert_eq!(doc["errors"], true);
}

#[test]
fn an_operation_the_cluster_does_not_answer_has_no_line() {
    let mut w = world();
    w.short = true;
    let doc = bulk(
        &mut w,
        "{\"index\":{}}\n{\"tenant_id\":\"acme\",\"id\":1}\n{\"index\":{}}\n{\"tenant_id\":\"acme\",\"id\":2}\n",
    );
    assert_eq!(doc["items"][0]["index"]["status"], 201);
    assert!(doc["items"][1].is_null());
}

#[test]
fn malformed_bulk_body_is_a_request_error() {
    let mut w = world();
    let err = bulk_with(&mut w, &ctx(vec![]), vec![b"{\"index\":{}}\n".to_vec()]).unwrap_err();
    assert!(matches!(err, RequestError::Rewrite(RewriteError::MalformedBulkAction)));
}

#[test]
fn bulk_gates_per_item_holding_only_the_migrating_partition() {
    let mut w = world();
    w.held.insert("globex".to_owned());
    let doc = bulk(
        &mut w,
        "{\"index\":{}}\n{\"tenant_id\":\"acme\",\"id\":1,\"msg\":\"a1\"}\n\
         {\"index\":{}}\n{\"tenant_id\":\"globex\",\"id\":2,\"msg\":\"g2\"}\n\
         {\"index\":{}}\n{\"tenant_id\":\"globex\",\"id\":3,\"msg\":\"g3\"}\n\
         {\"index\":{}}\n{\"tenant_id\":\"acme\",\"id\":4,\"msg\":\"a4\"}\n",
    );
    assert_eq!(doc["errors"], true);
    let items = doc["items"].as_array().unwrap();
    assert_eq!(items[0]["index"]["status"], 201);
    assert_eq!(items[0]["index"]["_id"], "1");
    assert_eq!(items[1]["index"]["status"], 409);
    assert_eq!(items[1]["index"]["error"]["type"], "stale_epoch");
    assert_eq!(items[2]["index"]["status"], 409);
    assert_eq!(items[2]["index"]["error"]["type"], "stale_epoch");
    assert_eq!(items[3]["index"]["status"], 201);
    assert_eq!(items[3]["index"]["_id"], "4");
    let recorded: usize = w.batches.iter().sum();
    assert_eq!(recorded, 2, "only the two acme writes committed");
}

#[test]
fn the_gate_is_asked_on_a_mid_stream_flush_too() {
    let mut w = world();
    w.held.insert("acme".to_owned());
    let mut body = String::new();
    for id in 0..300 {
        body.push_str(&format!("{{\"index\":{{}}}}\n{{\"tenant_id\":\"acme\",\"id\":{id}}}\n"));
    }
    let doc = bulk(&mut w, &body);
    assert!(doc["items"].as_array().unwrap().iter().all(|i| i["index"]["status"] == 409));
    assert!(w.stored.is_empty());
}

fn async_bulk(world: &mut World, ctx: &RequestCtx, queue: bool, body: &[u8]) -> PipelineResponse {
    match begin_bulk(ctx, WriteMode::Async, queue) {
        BulkStart::Refused(response) => return response,
        BulkStart::Enqueue => {}
        BulkStart::Dispatch => panic!("the mode is asynchronous"),
    }
    let mut run = BulkRun::new();
    for item in operations(vec![body.to_vec()]).unwrap() {
        let (next, item) = match run.refuse(ctx, item) {
            Ok(pair) => pair,
            Err(next) => {
                run = next;
                continue;
            }
        };
        let partition = partition_of(ctx, &item);
        let mut step = next.operation(ctx, item, partition);
        run = loop {
            step = match step {
                Step::Next(run) => break run,
                Step::Fetch(f) => {
                    let outcome = world.resolve(f.partition());
                    f.fetched(outcome)
                }
                Step::Rewrite(w) => {
                    let answers = answers_for(&w);
                    match w.rewritten_async(answers) {
                        AsyncStep::Next(run) => Step::Next(run),
                        AsyncStep::Enqueue(e) => {
                            let ack = if world.queue_fails {
                                Err(QueueError { reason: "broker unavailable" })
                            } else {
                                world.enqueued.push(e.write(ctx));
                                Ok(())
                            };
                            Step::Next(e.enqueued(ctx, ack))
                        }
                    }
                }
                Step::Gate(_) => unreachable!("nothing is buffered"),
            };
        };
    }
    finish(world, run)
}

const ASYNC_BULK: &[u8] = b"{\"index\":{\"_id\":\"1\"}}\n{\"tenant_id\":\"acme\",\"id\":1}\n{\"update\":{\"_id\":\"acme:9\"}}\n{\"doc\":{\"x\":1}}\n{\"delete\":{\"_id\":\"acme:2\"}}\n";

#[test]
fn async_bulk_enqueues_each_item_with_a_per_item_op_id() {
    let mut w = world();
    let resp = async_bulk(&mut w, &ctx(acme()), true, ASYNC_BULK);
    assert_eq!(resp.status, 200);
    let body: Value = serde_json::from_slice(&resp.body).unwrap();
    let items = body["items"].as_array().unwrap();
    assert_eq!(items.len(), 3);
    assert_eq!(items[0]["index"]["status"], 202);
    assert_eq!(items[0]["index"]["result"], "queued");
    assert_eq!(items[0]["index"]["op_id"], "r:0");
    assert_eq!(items[1]["update"]["status"], 400);
    assert_eq!(items[1]["update"]["error"]["type"], "unsupported_async");
    assert_eq!(items[2]["delete"]["status"], 202);
    assert_eq!(items[2]["delete"]["op_id"], "r:2");
    assert_eq!(body["errors"], true);
    assert_eq!(w.enqueued.len(), 2);
    assert!(w.enqueued.iter().all(|q| q.partition_key == "acme"));
    assert_eq!(w.enqueued[0].op_id, "r:0");
    assert_eq!(w.enqueued[1].op_id, "r:2");
    assert!(w.batches.is_empty(), "nothing is sent to a cluster");
}

#[test]
fn async_bulk_with_no_queue_is_refused_422() {
    let mut w = world();
    assert_eq!(async_bulk(&mut w, &ctx(acme()), false, ASYNC_BULK).status, 422);
    let mut conditional = ctx(acme());
    conditional.query = Some("if_seq_no=3".to_owned());
    assert_eq!(async_bulk(&mut w, &conditional, true, ASYNC_BULK).status, 400);
    assert!(w.enqueued.is_empty());
}

#[test]
fn async_bulk_reports_what_the_queue_refuses() {
    let mut w = world();
    w.queue_fails = true;
    let body: &[u8] =
        b"{\"index\":{\"if_seq_no\":1}}\n{\"id\":1}\n{\"index\":{}}\n{\"id\":2}\n";
    let resp = async_bulk(&mut w, &ctx(acme()), true, body);
    let doc: Value = serde_json::from_slice(&resp.body).unwrap();
    assert_eq!(doc["items"][0]["index"]["status"], 400);
    assert_eq!(doc["items"][1]["index"]["status"], 503);
    assert_eq!(doc["items"][1]["index"]["error"]["type"], "enqueue_failed");
    assert_eq!(doc["items"][1]["index"]["_id"], "2");
}

#[test]
fn an_empty_bulk_has_no_items() {
    let mut w = world();
    let response = finish(&mut w, BulkRun::new());
    assert_eq!(response.body, br#"{"took":0,"errors":false,"items":[]}"#);
    let same = Demux::new(0).response();
    assert_eq!(same.body, response.body);
}

#[test]
fn the_response_bytes_are_fixed() {
    let mut w = world();
    let body = "{\"index\":{\"_id\":\"a\\\"b\"}}\n{\"tenant_id\":\"acme\",\"id\":1}\n\
                {\"delete\":{}}\n";
    let operations = operations(vec![body.as_bytes().to_vec()]).unwrap();
    assert_eq!(operations.len(), 2);
    let frames = vec![body.as_bytes().to_vec()];
    let mut run_world = world();
    let doc = bulk_with(&mut run_world, &ctx(acme()), frames).unwrap();
    assert_eq!(doc["items"][0]["index"]["_id"], "a\"b");
    let refused = async_bulk(&mut w, &ctx(acme()), true, b"{\"update\":{\"_id\":\"1\"}}\n{}\n");
    assert_eq!(
        String::from_utf8(refused.body).unwrap(),
        concat_text(&[
            r#"{"took":0,"errors":true,"items":[{"update":{"_index":"orders","_id":"1","#,
            r#""status":400,"error":{"type":"unsupported_async"}}}]}"#,
        ])
    );
}

fn concat_text(parts: &[&str]) -> String {
    parts.concat()
}

#[test]
fn a_delete_has_no_body_bytes() {
    let op = WriteOp {
        target: Target { cluster: "c".to_owned(), index: "i".to_owned(), endpoint: None },
        doc: DocOp::Delete { id: "1".to_owned(), routing: None },
        epoch: 1,
        protocol: Protocol::Http1,
    };
    assert_eq!(op_body_len(&op), 0);
    let op = WriteOp {
        doc: DocOp::Create { id: None, routing: None, body: b"{}".to_vec() },
        ..op
    };
    assert_eq!(op_body_len(&op), 2);
}

#[test]
fn a_line_past_the_cap_is_too_large_and_a_failed_body_fails() {
    let mut reader = NdjsonReader::new();
    let chunk = vec![b'x'; 16 * 1024 * 1024];
    for _ in 0..5 {
        reader = reader.feed(BodyEvent::Data(chunk.clone())).unwrap();
    }
    let err = reader.next_line().unwrap_err();
    assert_eq!(err.code(), ErrorCode::PayloadTooLarge);
    let err = NdjsonReader::new().feed(BodyEvent::Failed).unwrap_err();
    assert!(matches!(err, RequestError::Internal { reason: "reading bulk body stream" }));
}

#[test]
fn a_last_line_needs_no_newline() {
    let mut reader = NdjsonReader::new().feed(BodyEvent::Data(b"a\r\n\n b".to_vec())).unwrap();
    assert!(matches!(reader.next_line().unwrap(), LineStep::Line(l) if &l[..] == b"a"));
    assert!(matches!(reader.next_line().unwrap(), LineStep::NeedFrame));
    reader = reader.feed(BodyEvent::NoData).unwrap().feed(BodyEvent::End).unwrap();
    assert!(matches!(reader.next_line().unwrap(), LineStep::Line(l) if &l[..] == b" b"));
    assert!(matches!(reader.next_line().unwrap(), LineStep::End));
}

#[test]
fn an_over_long_line_keeps_failing() {
    let mut reader = BulkReader::new();
    reader.lines = reader.lines.feed(BodyEvent::Data(b"\n\n".to_vec())).unwrap();
    let chunk = vec![b'x'; 33 * 1024 * 1024];
    for _ in 0..2 {
        assert!(matches!(reader.next_op().unwrap(), OpStep::NeedFrame));
        reader.lines = reader.lines.feed(BodyEvent::Data(chunk.clone())).unwrap();
    }
    for _ in 0..2 {
        let err = reader.next_op().unwrap_err();
        assert!(matches!(
            err,
            RequestError::PayloadTooLarge { reason: "bulk line exceeds the per-op size cap" }
        ));
    }
}

#[test]
fn a_line_cut_into_three_frames_is_handed_out_whole() {
    let mut reader = BulkReader::new();
    for part in [&b"{\"index"[..], b"\":", b"{}}\n{\"id\":1}"] {
        assert!(matches!(reader.next_op().unwrap(), OpStep::NeedFrame));
        reader.lines = reader.lines.feed(BodyEvent::Data(part.to_vec())).unwrap();
    }
    let line = match reader.next_op().unwrap() {
        OpStep::ReadAction(line) => line,
        other => panic!("{other:?}"),
    };
    assert_eq!(&line[..], b"{\"index\":{}}");
    assert!(reader.action(line, BulkAction::Index).is_none());
    assert!(matches!(reader.next_op().unwrap(), OpStep::NeedFrame));
    reader.lines = reader.lines.feed(BodyEvent::End).unwrap();
    match reader.next_op().unwrap() {
        OpStep::Op(action, Some(source)) => {
            assert_eq!(&action[..], b"{\"index\":{}}");
            assert_eq!(&source[..], b"{\"id\":1}");
        }
        other => panic!("{other:?}"),
    }
    assert!(matches!(reader.next_op().unwrap(), OpStep::End));
    assert!(matches!(reader.next_op().unwrap(), OpStep::End));
}

/// All lines that a reader hands out over these frames.
fn lines_of(frames: &[&[u8]]) -> Vec<Vec<u8>> {
    let mut reader = NdjsonReader::new();
    let mut left = frames.iter();
    let mut lines = vec![];
    loop {
        match reader.next_line().unwrap() {
            LineStep::Line(line) => lines.push(line.to_vec()),
            LineStep::End => return lines,
            LineStep::NeedFrame => {
                let event = match left.next() {
                    Some(frame) => BodyEvent::Data(frame.to_vec()),
                    None => BodyEvent::End,
                };
                reader = reader.feed(event).unwrap();
            }
        }
    }
}

#[test]
fn the_lines_do_not_depend_on_where_the_frames_are_cut() {
    let body = b"one\r\n \t\ntwo\n\nthree";
    let whole = lines_of(&[body]);
    assert_eq!(whole, vec![b"one".to_vec(), b"two".to_vec(), b"three".to_vec()]);
    for cut in 0..=body.len() {
        let (a, b) = body.split_at(cut);
        assert_eq!(lines_of(&[a, b]), whole);
        assert_eq!(lines_of(&[a, b"", b]), whole);
    }
}

#[test]
fn each_answer_echoes_the_operation_in_its_place() {
    let mut w = world();
    w.held.insert("globex".to_owned());
    let body = concat_text(&[
        "{\"index\":{\"_id\":\"10\"}}\n{\"tenant_id\":\"acme\",\"id\":10}\n",
        "{\"index\":{\"_id\":\"11\"}}\n{\"tenant_id\":\"globex\",\"id\":11}\n",
        "{\"delete\":{\"_id\":\"12\"}}\n",
        "{\"create\":{\"_id\":\"13\"}}\n{\"tenant_id\":\"acme\",\"id\":13}\n",
    ]);
    let out = bulk_with(&mut w, &ctx(acme()), vec![body.into_bytes()]).unwrap();
    let verbs = ["index", "index", "delete", "create"];
    let statuses = [201, 409, 404, 201];
    for k in 0..4 {
        let item = &out["items"][k][verbs[k]];
        assert_eq!(item["_id"], (10 + k).to_string());
        assert_eq!(item["status"], statuses[k]);
    }
}
