use std::collections::BTreeMap;

use osproxy::admin::{admin, forwarded};
use osproxy::asyncwrite::{enqueued, EnqueueStep};
use osproxy::cursor::CursorRequest;
use osproxy::dbq::{acknowledged, cap_ids_only, expand, match_search, refuse, DbqStep};
use osproxy::endpoints::{
    continued, counted, cursor, cursor_forward, delete_by_id, deleted, gate_write, get_by_id, got,
    ingest_doc, next_page_id, opened_pit_id, pinned, pit_answer, pit_create, pit_created,
    pit_opened, pit_search, pit_searched, response_for, search, search_answer, searched,
    CursorStart, Opened, WriteStep,
};
use osproxy::error::{ErrorCode, RewriteError, SinkError, SpiError, SpiFault};
use osproxy::mget::{self, MgetItem, MultiGet};
use osproxy::msearch::{self, MsearchItem, MultiSearch};
use osproxy::observe::{
    classify_info, dispatch_info, ending, error_context, read_dispatch_info, resolve_info,
    rewrite_info, streamed_ending, Ending,
};
use osproxy::pipeline::{
    DiagLevel, HeaderDirective, Published, Route, OFF, SHAPE,
};
use osproxy::placements::Placements;
use osproxy::plan::Rewritten;
use osproxy::read::{filter_terms, hit_ids};
use osproxy::retry::Retry;
use osproxy::types::{
    BodyTransform, CountOutcome, CursorOutcome, DocIdRule, DocOp, EndpointKind, InjectedField,
    InjectedValue, MigrationPhase, OpResult, Protocol, ReadOutcome, RequestCtx, Resolved,
    RouteDecision, SearchOutcome, Target, TraceContext, WriteAck, WriteOp,
};
use osproxy::{
    AdminPolicy, PassthroughPolicy, Pipeline, PipelineResponse, QueueError, QueuedWrite,
    RequestError, RetryPolicy, WriteMode,
};
use serde_json::Value;

fn json(text: &str) -> Value {
    serde_json::from_str(text).unwrap()
}

fn ctx(endpoint: EndpointKind, body: &[u8]) -> RequestCtx {
    RequestCtx {
        request_id: "r".to_owned(),
        principal: "svc".to_owned(),
        method: "POST".to_owned(),
        endpoint,
        protocol: Protocol::Http1,
        logical_index: "orders".to_owned(),
        headers: vec![],
        body: body.to_vec(),
        doc_id: None,
        query: None,
        path: "/orders/_doc".to_owned(),
    }
}

fn with_headers(mut c: RequestCtx, headers: &[(&str, &str)]) -> RequestCtx {
    c.headers = headers.iter().map(|(k, v)| ((*k).to_owned(), (*v).to_owned())).collect();
    c
}

fn shared(partition: &str, cluster: &str) -> Resolved {
    Resolved {
        partition: partition.to_owned(),
        decision: RouteDecision {
            target: Target {
                cluster: cluster.to_owned(),
                index: "shared".to_owned(),
                endpoint: Some(format!("http://{cluster}.internal:9200")),
            },
            upstream_protocol: Protocol::Http2,
            body_transform: BodyTransform::Both {
                inject: vec![InjectedField {
                    name: "_tenant".to_owned(),
                    value: InjectedValue::PartitionId,
                }],
                id: DocIdRule { template: "{partition}:{body.id}".to_owned(), set_routing: true },
            },
            epoch: 1,
        },
        migration: MigrationPhase::Settled,
    }
}

fn missing(partition: &str) -> SpiError {
    SpiError {
        fault: SpiFault::PlacementMissing { partition: partition.to_owned() },
        code: ErrorCode::PlacementMissing,
        retryable: false,
    }
}

fn backend_down() -> SpiError {
    SpiError {
        fault: SpiFault::PlacementBackend,
        code: ErrorCode::PlacementBackendUnavailable,
        retryable: true,
    }
}

/// The router of the tenancy: the partition from the body or the header.
fn resolve(c: &RequestCtx) -> Result<Resolved, SpiError> {
    let body = serde_json::from_slice::<Value>(&c.body).ok();
    let partition = body
        .and_then(|d| d["tenant_id"].as_str().map(str::to_owned))
        .or(c.headers.iter().find(|(k, _)| k == "x-tenant").map(|(_, v)| v.clone()));
    match partition {
        Some(p) if p == "acme" => Ok(shared("acme", "eu-1")),
        Some(p) => Err(missing(&p)),
        None => Err(SpiError {
            fault: SpiFault::PartitionUnresolved,
            code: ErrorCode::PartitionUnresolved,
            retryable: false,
        }),
    }
}

fn rewrite(body: &[u8]) -> Rewritten {
    let doc = serde_json::from_slice::<Value>(body).map_err(|_| RewriteError::InvalidJson);
    let injected = doc.clone().and_then(|mut d| {
        let object = d.as_object_mut().ok_or(RewriteError::NotAnObject)?;
        object.insert("_tenant".to_owned(), Value::from("acme"));
        Ok(serde_json::to_vec(&d).unwrap())
    });
    let id = doc.clone().map(|d| format!("acme:{}", d["id"]));
    Rewritten { valid: doc.map(|_| ()), injected, id }
}

fn physical(logical: &str) -> Result<String, RewriteError> {
    Ok(format!("acme:{logical}"))
}

fn logical(physical: &str) -> Option<String> {
    physical.strip_prefix("acme:").map(str::to_owned)
}

fn wrap_query(r: &Resolved, body: &[u8]) -> Result<Vec<u8>, RewriteError> {
    let mut doc: Value = serde_json::from_slice(body).map_err(|_| RewriteError::InvalidJson)?;
    if !doc["aggs"]["leak"]["global"].is_null() {
        return Err(RewriteError::Other);
    }
    let (name, value) = filter_terms(&r.decision.body_transform, &r.partition).remove(0);
    let client = doc["query"].clone();
    doc["query"] = json(&format!(
        r#"{{"bool":{{"filter":[{{"term":{{"{name}":"{value}"}}}}],"must":[{client}]}}}}"#
    ));
    Ok(serde_json::to_vec(&doc).unwrap())
}

fn map_ids(body: &[u8]) -> Vec<Option<String>> {
    hit_ids(body).into_iter().map(|id| id.and_then(|id| logical(&id))).collect()
}

/// A cluster in memory.
#[derive(Default)]
struct Cluster {
    docs: BTreeMap<String, Value>,
    writes: usize,
    searches: Vec<Value>,
    failure: Option<SinkError>,
}

impl Cluster {
    fn write(&mut self, batch: Vec<WriteOp>) -> Result<WriteAck, SinkError> {
        if let Some(f) = self.failure {
            return Err(f);
        }
        self.writes += 1;
        let mut results = vec![];
        for op in batch {
            match op.doc {
                DocOp::Index { id, body, .. } => {
                    let id = id.unwrap();
                    let doc = serde_json::from_slice(&body).unwrap();
                    let created = self.docs.insert(id.clone(), doc).is_none();
                    results.push(OpResult { id, status: if created { 201 } else { 200 }, created });
                }
                DocOp::Delete { id, .. } => {
                    let there = self.docs.remove(&id).is_some();
                    let status = if there { 200 } else { 404 };
                    results.push(OpResult { id, status, created: false });
                }
                _ => unreachable!("only these are sent"),
            }
        }
        Ok(WriteAck { results, pool_reuse: true })
    }

    fn get(&self, id: &str) -> ReadOutcome {
        let found = self.docs.get(id);
        let body = match found {
            Some(source) => format!(
                r#"{{"_index":"shared","_id":"{id}","_routing":"acme","found":true,"_source":{source}}}"#
            ),
            None => String::new(),
        };
        ReadOutcome {
            status: if found.is_some() { 200 } else { 404 },
            found: found.is_some(),
            body: body.into_bytes(),
            pool_reuse: false,
        }
    }

    fn search(&mut self, body: &[u8]) -> SearchOutcome {
        self.searches.push(serde_json::from_slice(body).unwrap());
        let hits: Vec<String> = self
            .docs
            .iter()
            .map(|(id, s)| {
                format!(r#"{{"_index":"shared","_id":"{id}","_routing":"acme","_source":{s}}}"#)
            })
            .collect();
        let text = format!(
            r#"{{"took":3,"hits":{{"total":{{"value":{}}},"hits":[{}]}},"aggregations":{{ "a":1 }}}}"#,
            hits.len(),
            hits.join(",")
        );
        SearchOutcome { status: 200, body: text.into_bytes(), pool_reuse: false }
    }
}

/// A queue that keeps what it takes.
#[derive(Default)]
struct Queue {
    on: bool,
    fails: bool,
    writes: Vec<QueuedWrite>,
}

impl Queue {
    fn enqueue(&mut self, write: QueuedWrite) -> Result<(), QueueError> {
        if self.fails {
            return Err(QueueError { reason: "broker unavailable" });
        }
        self.writes.push(write);
        Ok(())
    }
}

fn finish_write(
    p: &Pipeline,
    c: &RequestCtx,
    step: WriteStep,
    resolved: &Resolved,
    cluster: &mut Cluster,
    queue: &mut Queue,
    admitted: bool,
) -> Result<Result<WriteAck, PipelineResponse>, RequestError> {
    assert_eq!(p.queue_enabled, queue.on);
    match step {
        WriteStep::Async(EnqueueStep::Respond(r)) => Ok(Err(r)),
        WriteStep::Async(EnqueueStep::Enqueue(write)) => {
            let ack = queue.enqueue(write);
            Ok(Err(enqueued(c, ack)))
        }
        WriteStep::Dispatch(batch) => {
            gate_write(resolved, admitted)?;
            cluster.write(batch).map(Ok).map_err(RequestError::Sink)
        }
    }
}

fn ingest_at(
    p: &Pipeline,
    c: &RequestCtx,
    cluster: &mut Cluster,
    queue: &mut Queue,
    resolved: Result<Resolved, SpiError>,
    admitted: bool,
) -> Result<PipelineResponse, RequestError> {
    let resolved = resolved.map_err(RequestError::Spi)?;
    let step = ingest_doc(c, &resolved, rewrite(&c.body), p.write_mode(c), p.queue_enabled)?;
    match finish_write(p, c, step, &resolved, cluster, queue, admitted)? {
        Ok(ack) => {
            let id = ack.results.first().and_then(|r| logical(&r.id));
            Ok(response_for(&ack, id.as_deref()))
        }
        Err(response) => Ok(response),
    }
}

fn ingest(
    p: &Pipeline,
    c: &RequestCtx,
    cluster: &mut Cluster,
    queue: &mut Queue,
) -> Result<PipelineResponse, RequestError> {
    ingest_at(p, c, cluster, queue, resolve(c), true)
}

fn text(r: &PipelineResponse) -> String {
    String::from_utf8(r.body.clone()).unwrap()
}

const DOC: &[u8] = br#"{"tenant_id":"acme","id":7,"msg":"hello"}"#;

#[test]
fn ingest_doc_returns_created_response() {
    let (mut cluster, mut queue) = (Cluster::default(), Queue::default());
    let c = ctx(EndpointKind::IngestDoc, br#"{"tenant_id":"acme","id":7}"#);
    let resp = ingest(&Pipeline::new(), &c, &mut cluster, &mut queue).unwrap();
    assert_eq!(resp.status, 201);
    let body = text(&resp);
    assert!(body.contains(r#""_id":"7""#), "{body}");
    assert!(!body.contains("acme:7"), "physical id must not leak: {body}");
    assert!(body.contains(r#""result":"created""#));
    assert_eq!(body, r#"{"_id":"7","result":"created"}"#);
    let again = ingest(&Pipeline::new(), &c, &mut cluster, &mut queue).unwrap();
    assert_eq!(text(&again), r#"{"_id":"7","result":"updated"}"#);
}

#[test]
fn an_empty_acknowledgement_is_an_empty_answer() {
    let ack = WriteAck { results: vec![], pool_reuse: false };
    let r = response_for(&ack, None);
    assert_eq!((r.status, text(&r)), (200, "{}".to_owned()));
}

#[test]
fn single_doc_ingest_routes_transforms_and_writes() {
    let r = shared("acme", "eu-1");
    let client = br#"{"tenant_id":"acme","id":1001,"msg":"hello"}"#;
    let c = ctx(EndpointKind::IngestDoc, client);
    let step = ingest_doc(&c, &r, rewrite(client), WriteMode::Sync, false).unwrap();
    let WriteStep::Dispatch(batch) = step else { unreachable!("the mode is synchronous") };
    assert_eq!(batch.len(), 1);
    assert_eq!(batch[0].target.cluster, "eu-1");
    assert_eq!(batch[0].target.index, "shared");
    assert_eq!(batch[0].epoch, 1);
    assert_eq!(batch[0].protocol, Protocol::Http2);
    let DocOp::Index { id, routing, body } = &batch[0].doc else {
        unreachable!("ingest produces an Index op")
    };
    assert_eq!(id.as_deref(), Some("acme:1001"));
    assert_eq!(routing.as_deref(), Some("acme"));
    let stored: Value = serde_json::from_slice(body).unwrap();
    assert_eq!(stored["_tenant"], "acme");
    let stripped = osproxy::json::strip_fields(stored, &["_tenant".to_owned()]);
    assert_eq!(stripped, serde_json::from_slice::<Value>(client).unwrap());
}

#[test]
fn unimplemented_endpoint_is_unsupported() {
    let p = Pipeline::new();
    let c = ctx(EndpointKind::Admin, br#"{"q":1}"#);
    let err = admin(p.admin_policy.as_ref(), &c, None).unwrap_err();
    assert!(matches!(
        err,
        RequestError::Spi(SpiError {
            fault: SpiFault::UnsupportedEndpoint { endpoint: EndpointKind::Admin },
            ..
        })
    ));
    let err = p.dispatch(&ctx(EndpointKind::Unknown, b"")).unwrap_err();
    assert_eq!(err.code(), ErrorCode::UnsupportedEndpoint);
}

#[test]
fn a_global_aggregation_search_is_rejected_before_dispatch() {
    let c = with_headers(
        ctx(
            EndpointKind::Search,
            br#"{"size":0,"aggs":{"leak":{"global":{},"aggs":{"all":{"top_hits":{"size":50}}}}}}"#,
        ),
        &[("x-tenant", "acme")],
    );
    let r = resolve(&c).unwrap();
    let err = search(&c, &r, wrap_query(&r, &c.body)).unwrap_err();
    assert!(matches!(err, RequestError::Rewrite(_)), "{err:?}");
    assert_eq!(err.code(), ErrorCode::UnsupportedEndpoint);
    assert!(!err.retryable());
}

#[test]
fn upstream_trace_is_gated_on_span_export() {
    let hop = || TraceContext { traceparent: "00-abc-def-01".to_owned(), tracestate: None };
    assert!(
        Pipeline::new().upstream_trace(hop()).is_none(),
        "no proxy traceparent injected when span export is off"
    );
    let on = Pipeline::new().with_exporter(true);
    assert_eq!(on.upstream_trace(hop()).unwrap().traceparent, "00-abc-def-01");
}

#[test]
fn explain_records_success_spans() {
    let c = ctx(EndpointKind::IngestDoc, DOC);
    let r = resolve(&c).unwrap();
    let info = resolve_info(&r);
    assert_eq!(info.partition, "acme");
    assert!(info.routing);
    assert_eq!(info.placement_kind, "shared_index");
    assert_eq!(info.inject_fields, vec!["_tenant".to_owned()]);
    let step = ingest_doc(&c, &r, rewrite(DOC), WriteMode::Sync, false).unwrap();
    let WriteStep::Dispatch(batch) = step else { unreachable!("the mode is synchronous") };
    let rewritten = rewrite_info(&r, &batch);
    assert_eq!(rewritten.transform_kind, "inject+construct_id");
    assert!(rewritten.body_bytes > DOC.len());
    let ack = Cluster::default().write(batch).unwrap();
    let sent = dispatch_info(&r, &ack);
    assert_eq!((sent.cluster.as_str(), sent.upstream_status, sent.pool_reuse), ("eu-1", 201, true));
    let result = Ok(response_for(&ack, Some("7")));
    match ending(&result) {
        Ending::Egress(e) => assert_eq!((e.status, e.response_bytes), (201, 30)),
        Ending::Failure(_) => panic!("the request succeeded"),
    }
    assert_eq!(classify_info(&c).logical_index, "orders");
    assert_eq!(classify_info(&c).endpoint, EndpointKind::IngestDoc);
}

#[test]
fn other_shapes_are_recorded_by_their_labels() {
    let mut r = shared("acme", "eu-1");
    r.decision.body_transform = BodyTransform::Verbatim;
    let info = resolve_info(&r);
    assert_eq!(info.placement_kind, "dedicated");
    assert!(!info.routing);
    assert_eq!(rewrite_info(&r, &[]).transform_kind, "none");
    assert_eq!(rewrite_info(&r, &[]).body_bytes, 0);
    r.decision.body_transform = BodyTransform::Inject(vec![]);
    assert_eq!(rewrite_info(&r, &[]).transform_kind, "inject");
    r.decision.body_transform =
        BodyTransform::ConstructId(DocIdRule { template: "x".to_owned(), set_routing: true });
    assert_eq!(rewrite_info(&r, &[]).transform_kind, "construct_id");
    assert!(resolve_info(&r).routing);
    assert_eq!(dispatch_info(&r, &WriteAck { results: vec![], pool_reuse: true }).upstream_status, 0);
    assert_eq!(MigrationPhase::Settled.label(), "settled");
    assert_eq!(MigrationPhase::Cutover.label(), "cutover");
}

#[test]
fn explain_records_failure_with_remediation() {
    let err = Pipeline::new().dispatch(&ctx(EndpointKind::Unknown, b"")).unwrap_err();
    match ending(&Err(err)) {
        Ending::Failure(f) => {
            assert_eq!(f.code, ErrorCode::UnsupportedEndpoint);
            assert_eq!(
                f.remediation,
                "endpoint is not supported for tenancy rewrite in this version"
            );
        }
        Ending::Egress(_) => panic!("the request failed"),
    }
}

fn async_ctx(extra: &[(&str, &str)]) -> RequestCtx {
    let mut headers = vec![("x-write-mode", "async")];
    headers.extend_from_slice(extra);
    with_headers(ctx(EndpointKind::IngestDoc, br#"{"tenant_id":"acme","id":7}"#), &headers)
}

#[test]
fn async_ingest_enqueues_and_returns_202_without_touching_the_sink() {
    let (mut cluster, mut queue) = (Cluster::default(), Queue { on: true, ..Queue::default() });
    let p = Pipeline::new().with_write_queue(true);
    let resp = ingest(&p, &async_ctx(&[]), &mut cluster, &mut queue).unwrap();
    assert_eq!(resp.status, 202);
    let body = text(&resp);
    assert!(body.contains(r#""status":"accepted""#), "{body}");
    assert!(body.contains(r#""result":"queued""#), "{body}");
    assert!(body.contains(r#""op_id":"r""#), "{body}");
    assert_eq!(queue.writes.len(), 1);
    assert_eq!(queue.writes[0].partition_key, "acme");
    assert_eq!(queue.writes[0].op_id, "r");
    assert_eq!(cluster.writes, 0, "sync sink must stay untouched");
}

#[test]
fn async_request_with_no_queue_is_refused_422() {
    let (mut cluster, mut queue) = (Cluster::default(), Queue::default());
    let resp = ingest(&Pipeline::new(), &async_ctx(&[]), &mut cluster, &mut queue).unwrap();
    assert_eq!(resp.status, 422);
}

#[test]
fn async_client_supplied_op_id_is_honored_and_invalid_falls_back() {
    let (mut cluster, mut queue) = (Cluster::default(), Queue { on: true, ..Queue::default() });
    let p = Pipeline::new().with_write_queue(true);
    let mut c = async_ctx(&[("x-op-id", "client-key-1")]);
    c.request_id = "r1".to_owned();
    ingest(&p, &c, &mut cluster, &mut queue).unwrap();
    let mut c2 = async_ctx(&[("x-op-id", "bad key")]);
    c2.request_id = "r2".to_owned();
    ingest(&p, &c2, &mut cluster, &mut queue).unwrap();
    assert_eq!(queue.writes[0].op_id, "client-key-1");
    assert_eq!(queue.writes[1].op_id, "r2");
}

#[test]
fn async_enqueue_failure_is_reported_503() {
    let mut cluster = Cluster::default();
    let mut queue = Queue { on: true, fails: true, ..Queue::default() };
    let p = Pipeline::new().with_write_queue(true);
    let resp = ingest(&p, &async_ctx(&[]), &mut cluster, &mut queue).unwrap();
    assert_eq!(resp.status, 503);
    assert!(text(&resp).contains(r#""op_id":"r""#));
}

#[test]
fn sync_remains_the_default_without_a_header() {
    let (mut cluster, mut queue) = (Cluster::default(), Queue { on: true, ..Queue::default() });
    let p = Pipeline::new().with_write_queue(true);
    let resp =
        ingest(&p, &ctx(EndpointKind::IngestDoc, DOC), &mut cluster, &mut queue).unwrap();
    assert_eq!(resp.status, 201);
    assert!(queue.writes.is_empty(), "sync must not enqueue");
}

#[test]
fn baseline_async_makes_fan_out_the_default() {
    let (mut cluster, mut queue) = (Cluster::default(), Queue { on: true, ..Queue::default() });
    let p = Pipeline::new().with_write_queue(true).with_baseline_write_mode(WriteMode::Async);
    let resp =
        ingest(&p, &ctx(EndpointKind::IngestDoc, DOC), &mut cluster, &mut queue).unwrap();
    assert_eq!(resp.status, 202);
    assert_eq!(queue.writes.len(), 1);
    let c2 = with_headers(ctx(EndpointKind::IngestDoc, DOC), &[("X-Write-Mode", "sync")]);
    let resp2 = ingest(&p, &c2, &mut cluster, &mut queue).unwrap();
    assert_eq!(resp2.status, 201);
    assert_eq!(queue.writes.len(), 1, "sync override must not enqueue");
    assert!(p.is_sync_write(&c2.headers));
    assert!(!p.is_sync_write(&[]));
    let odd = with_headers(ctx(EndpointKind::IngestDoc, DOC), &[("x-write-mode", "later")]);
    assert!(!p.is_sync_write(&odd.headers), "an unknown mode falls back to the baseline");
}

#[test]
fn async_rejects_optimistic_concurrency_with_400() {
    let (mut cluster, mut queue) = (Cluster::default(), Queue { on: true, ..Queue::default() });
    let p = Pipeline::new().with_write_queue(true);
    let mut c = async_ctx(&[]);
    c.query = Some("if_seq_no=3&if_primary_term=1".to_owned());
    let resp = ingest(&p, &c, &mut cluster, &mut queue).unwrap();
    assert_eq!(resp.status, 400);
    assert!(text(&resp).contains("optimistic concurrency"));
    assert!(queue.writes.is_empty(), "rejected op must not enqueue");
}

#[test]
fn async_rejects_scripted_update_path_with_400() {
    let (mut cluster, mut queue) = (Cluster::default(), Queue { on: true, ..Queue::default() });
    let p = Pipeline::new().with_write_queue(true);
    let mut c = async_ctx(&[]);
    c.path = "/orders/_update/7".to_owned();
    let resp = ingest(&p, &c, &mut cluster, &mut queue).unwrap();
    assert_eq!(resp.status, 400);
    assert!(queue.writes.is_empty());
}

fn delete_by_query(
    p: &Pipeline,
    c: &RequestCtx,
    cluster: &mut Cluster,
    queue: &mut Queue,
) -> Result<PipelineResponse, RequestError> {
    let mode = p.write_mode(c);
    if let Some(refused) = refuse(c, mode, p.delete_by_query_expansion, p.queue_enabled) {
        return Ok(refused);
    }
    let r = resolve(c).map_err(RequestError::Spi)?;
    let op = match_search(&r, wrap_query(&r, &c.body))?;
    let answer = cluster.search(&op.body);
    match expand(c, &r, &answer.body)? {
        DbqStep::Refused(response) => Ok(response),
        DbqStep::Enqueue { total, writes } => {
            let acks: Vec<Result<(), QueueError>> =
                writes.into_iter().map(|w| queue.enqueue(w)).collect();
            Ok(acknowledged(total, &acks))
        }
    }
}

const ASYNC: &[(&str, &str)] = &[("x-write-mode", "async"), ("x-tenant", "acme")];

#[test]
fn async_delete_by_query_expands_to_one_enqueued_delete_per_match() {
    let (mut cluster, mut queue) = (Cluster::default(), Queue { on: true, ..Queue::default() });
    let p = Pipeline::new().with_write_queue(true).with_delete_by_query_expansion(true);
    for id in [1, 2] {
        let body = format!(r#"{{"tenant_id":"acme","id":{id}}}"#);
        let c = ctx(EndpointKind::IngestDoc, body.as_bytes());
        ingest(&p, &c, &mut cluster, &mut queue).unwrap();
    }
    assert!(queue.writes.is_empty(), "sync seeds must not enqueue");
    let c = with_headers(
        ctx(EndpointKind::DeleteByQuery, br#"{"query":{"match_all":{}}}"#),
        ASYNC,
    );
    let resp = delete_by_query(&p, &c, &mut cluster, &mut queue).unwrap();
    assert_eq!(resp.status, 200);
    let body: Value = serde_json::from_slice(&resp.body).unwrap();
    assert_eq!(body["total"], 2);
    assert_eq!(body["deleted"], 2);
    assert_eq!(body["version_conflicts"], 0);
    assert_eq!(body["failures"], json("[]"));
    assert_eq!(body["took"], 0);
    assert_eq!(body["timed_out"], false);
    assert_eq!(body["batches"], 1);
    assert_eq!(queue.writes.len(), 2);
    let mut ids: Vec<String> = queue
        .writes
        .iter()
        .filter_map(|w| match &w.batch[0].doc {
            DocOp::Delete { id, .. } => Some(id.clone()),
            _ => None,
        })
        .collect();
    ids.sort();
    assert_eq!(ids, vec!["acme:1".to_owned(), "acme:2".to_owned()]);
    assert_eq!(queue.writes[0].op_id, "r:0");
    assert_eq!(queue.writes[1].op_id, "r:1");
    let sent = cluster.searches.last().unwrap();
    assert_eq!(sent["size"], 10_001);
    assert_eq!(sent["_source"], false);
    assert_eq!(sent["track_total_hits"], true);
    assert_eq!(sent["query"]["bool"]["filter"][0]["term"]["_tenant"], "acme");
}

#[test]
fn a_delete_by_query_over_the_cap_is_refused_and_failures_are_counted() {
    let c = with_headers(ctx(EndpointKind::DeleteByQuery, b"{}"), ASYNC);
    let r = shared("acme", "eu-1");
    let over = br#"{"hits":{"total":{"value":10001},"hits":[]}}"#;
    match expand(&c, &r, over).unwrap() {
        DbqStep::Refused(resp) => {
            assert_eq!(resp.status, 400);
            assert!(text(&resp).contains("match set exceeds the proxy cap"));
        }
        DbqStep::Enqueue { .. } => panic!("the cap is passed"),
    }
    let odd = br#"{"hits":{"total":{"value":-1},"hits":[{"_id":5},{"_id":"acme:1"}]}}"#;
    match expand(&c, &r, odd).unwrap() {
        DbqStep::Enqueue { total, writes } => {
            assert_eq!(total, 0);
            assert_eq!(writes.len(), 1);
        }
        DbqStep::Refused(_) => panic!("nothing is counted"),
    }
    let err = expand(&c, &r, b"{").unwrap_err();
    assert!(matches!(err, RequestError::Rewrite(RewriteError::InvalidJson)));
    let resp = acknowledged(2, &[Ok(()), Err(QueueError { reason: "x" })]);
    let body: Value = serde_json::from_slice(&resp.body).unwrap();
    assert_eq!(body["deleted"], 1);
    assert_eq!(body["failures"], json(r#"[{"status":503,"type":"enqueue_failed"}]"#));
    assert!(matches!(
        cap_ids_only(b"[]").unwrap_err(),
        RequestError::Internal { reason: "search body is not an object" }
    ));
    assert!(matches!(
        match_search(&r, Err(RewriteError::Other)).unwrap_err(),
        RequestError::Rewrite(RewriteError::Other)
    ));
}

#[test]
fn delete_by_query_is_rejected_unless_async_and_expansion_enabled() {
    let (mut cluster, mut queue) = (Cluster::default(), Queue { on: true, ..Queue::default() });
    let dbq = || ctx(EndpointKind::DeleteByQuery, br#"{"query":{"match_all":{}}}"#);
    let p = Pipeline::new().with_write_queue(true).with_delete_by_query_expansion(true);
    let c = with_headers(dbq(), &[("x-tenant", "acme")]);
    assert_eq!(delete_by_query(&p, &c, &mut cluster, &mut queue).unwrap().status, 400);
    let p = Pipeline::new().with_write_queue(true);
    let c = with_headers(dbq(), ASYNC);
    assert_eq!(delete_by_query(&p, &c, &mut cluster, &mut queue).unwrap().status, 400);
    let p = Pipeline::new().with_delete_by_query_expansion(true);
    assert_eq!(delete_by_query(&p, &c, &mut cluster, &mut queue).unwrap().status, 422);
    assert!(queue.writes.is_empty(), "no deletes enqueued on rejection");
    assert!(cluster.searches.is_empty());
}

fn admin_run(policy: Option<&AdminPolicy>, path: &str, query: Option<&str>) -> Result<osproxy::types::CursorOp, RequestError> {
    let mut c = ctx(EndpointKind::Admin, b"");
    c.method = "GET".to_owned();
    c.path = path.to_owned();
    c.query = query.map(str::to_owned);
    c.logical_index = String::new();
    admin(policy, &c, Some("http://admin-1:9200".to_owned()))
}

fn cat_policy() -> AdminPolicy {
    AdminPolicy::new("admin-1".to_owned(), vec!["/_cat/".to_owned()])
}

#[test]
fn an_allow_listed_admin_request_forwards_verbatim_to_the_admin_cluster() {
    let op = admin_run(Some(&cat_policy()), "/_cat/indices", Some("v&format=json")).unwrap();
    assert_eq!(op.cluster, "admin-1", "routed to admin cluster");
    assert_eq!(op.path, "/_cat/indices", "full path forwarded verbatim");
    assert_eq!(op.query.as_deref(), Some("v&format=json"));
    assert_eq!(op.endpoint.as_deref(), Some("http://admin-1:9200"));
    let resp = forwarded(CursorOutcome {
        status: 200,
        body: br#"[{"index":"a"}]"#.to_vec(),
        pool_reuse: false,
        content_type: Some("text/plain".to_owned()),
    });
    assert_eq!(resp.status, 200);
    assert_eq!(resp.body, br#"[{"index":"a"}]"#);
    assert_eq!(resp.content_type.as_deref(), Some("text/plain"));
    let own = cat_policy().with_endpoint("http://own:1".to_owned());
    let op = admin_run(Some(&own), "/_cat/indices", None).unwrap();
    assert_eq!(op.endpoint.as_deref(), Some("http://own:1"));
}

#[test]
fn an_admin_request_off_the_allow_list_is_rejected() {
    let err = admin_run(Some(&cat_policy()), "/_cluster/settings", None).unwrap_err();
    assert_eq!(err.code(), ErrorCode::UnsupportedEndpoint);
}

#[test]
fn a_traversal_path_cannot_escape_the_allow_listed_prefix() {
    let err = admin_run(Some(&cat_policy()), "/_cat/../_cluster/settings", None).unwrap_err();
    assert_eq!(err.code(), ErrorCode::UnsupportedEndpoint);
}

#[test]
fn admin_is_rejected_when_no_policy_is_configured() {
    let err = admin_run(None, "/_cat/indices", None).unwrap_err();
    assert_eq!(err.code(), ErrorCode::UnsupportedEndpoint);
}

/// Asks a backend that fails `failures` times, as often as the policy allows.
fn ask(policy: RetryPolicy, failures: u32, error: fn() -> SpiError) -> (Result<u8, SpiError>, u32) {
    let mut calls = 0u32;
    loop {
        calls += 1;
        if calls > failures {
            return (Ok(7), calls);
        }
        let e = error();
        match policy.after_failure(calls - 1, e.retryable) {
            Retry::After(_) => {}
            Retry::GiveUp => return (Err(e), calls),
        }
    }
}

fn policy(max_attempts: u32) -> RetryPolicy {
    RetryPolicy { max_attempts, base_backoff: 0, max_backoff: 0 }
}

#[test]
fn retries_a_transient_backend_then_succeeds() {
    let (out, calls) = ask(policy(3), 2, backend_down);
    assert_eq!(out.unwrap(), 7);
    assert_eq!(calls, 3);
}

#[test]
fn gives_up_after_max_attempts_with_the_retryable_error() {
    let (out, calls) = ask(policy(2), u32::MAX, backend_down);
    assert!(out.is_err());
    assert_eq!(calls, 2, "exactly max_attempts tries");
}

#[test]
fn does_not_retry_a_non_retryable_error() {
    let (out, calls) = ask(RetryPolicy::default(), u32::MAX, || missing("p"));
    assert!(out.is_err());
    assert_eq!(calls, 1, "a definitive error is not retried");
}

#[test]
fn delays_double_up_to_the_cap() {
    let p = RetryPolicy::default();
    assert_eq!((p.max_attempts, p.base_backoff, p.max_backoff), (3, 50_000_000, 1_000_000_000));
    assert_eq!(p.backoff(0), 50_000_000);
    assert_eq!(p.backoff(1), 100_000_000);
    assert_eq!(p.backoff(40), 1_000_000_000);
}

#[test]
fn a_transient_backend_blip_is_retried_and_the_write_succeeds() {
    let (mut cluster, mut queue) = (Cluster::default(), Queue::default());
    let c = ctx(EndpointKind::IngestDoc, DOC);
    let (out, _) = ask(policy(3), 2, backend_down);
    let resolved = out.and_then(|_| resolve(&c));
    let p = Pipeline::new();
    let resp = ingest_at(&p, &c, &mut cluster, &mut queue, resolved, true).unwrap();
    assert!(resp.status >= 200 && resp.status < 300);
    assert_eq!(cluster.writes, 1, "the write committed after retry");
}

#[test]
fn a_persistently_unavailable_backend_surfaces_a_retryable_error() {
    let (mut cluster, mut queue) = (Cluster::default(), Queue::default());
    let c = ctx(EndpointKind::IngestDoc, DOC);
    let (out, _) = ask(policy(3), u32::MAX, backend_down);
    let resolved = out.and_then(|_| resolve(&c));
    let err =
        ingest_at(&Pipeline::new(), &c, &mut cluster, &mut queue, resolved, true).unwrap_err();
    assert_eq!(err.code(), ErrorCode::PlacementBackendUnavailable);
    assert!(err.retryable());
    assert_eq!(cluster.writes, 0, "nothing committed");
}

#[test]
fn the_mget_per_item_resolve_retries_a_transient_blip() {
    let c = with_headers(ctx(EndpointKind::MultiGet, b""), &[("x-tenant", "acme")]);
    let item = MgetItem { index: None, id: "7".to_owned() };
    let (out, calls) = ask(policy(3), 2, backend_down);
    assert_eq!(calls, 3);
    let r = out.and_then(|_| resolve(&c)).unwrap();
    let answer = MultiGet::new(1).prepared(0, mget::prepare(&c, &item, Ok(&r), physical("7")));
    let answer = answer.fetched(0, Ok(Cluster::default().get("acme:7")));
    let doc: Value = serde_json::from_slice(&answer.response().body).unwrap();
    assert_ne!(doc["docs"][0]["error"]["type"], "placement_missing");
}

fn seeded() -> Cluster {
    let mut cluster = Cluster::default();
    let mut queue = Queue::default();
    for (id, msg) in [(7, "seven"), (9, "nine")] {
        let body = format!(r#"{{"tenant_id":"acme","id":{id},"msg":"{msg}"}}"#);
        let c = ctx(EndpointKind::IngestDoc, body.as_bytes());
        ingest(&Pipeline::new(), &c, &mut cluster, &mut queue).unwrap();
    }
    cluster
}

fn multi_get(cluster: &Cluster, items: &[(Option<&str>, &str)]) -> Value {
    let c = with_headers(ctx(EndpointKind::MultiGet, b""), &[("x-tenant", "acme")]);
    let mut cache = Placements::new();
    let mut answer = MultiGet::new(items.len());
    for (i, (index, id)) in items.iter().enumerate() {
        let item = MgetItem { index: index.map(str::to_owned), id: (*id).to_owned() };
        let index = item.index_for(&c);
        if cache.get("acme", &index).is_none() && index != "nowhere" {
            cache.insert("acme".to_owned(), index.clone(), resolve(&c).unwrap());
        }
        let placement = cache.get("acme", &index).ok_or_else(|| missing("acme"));
        answer = answer.prepared(i, mget::prepare(&c, &item, placement, physical(id)));
    }
    let mut done: Vec<(usize, ReadOutcome)> = vec![];
    for i in 0..items.len() {
        if let Some(f) = answer.fetch(i) {
            done.push((i, cluster.get(&f.op.id)));
        }
    }
    for (i, outcome) in done.into_iter().rev() {
        answer = answer.fetched(i, Ok(outcome));
    }
    let resp = answer.response();
    assert_eq!(resp.status, 200);
    serde_json::from_slice(&resp.body).unwrap()
}

#[test]
fn mget_reinterleaves_in_input_order_and_shapes_each_doc() {
    let doc = multi_get(&seeded(), &[(None, "9"), (None, "404"), (None, "7")]);
    let docs = doc["docs"].as_array().unwrap();
    assert_eq!(docs.len(), 3);
    assert_eq!(docs[0]["_index"], "orders");
    assert_eq!(docs[0]["_id"], "9");
    assert_eq!(docs[0]["found"], true);
    assert!(docs[0]["_source"].get("_tenant").is_none());
    assert!(docs[0].get("_routing").is_none());
    assert_eq!(docs[0]["_source"]["msg"], "nine");
    assert_eq!(docs[1]["_id"], "404");
    assert_eq!(docs[1]["found"], false);
    assert_eq!(docs[2]["_id"], "7");
    assert_eq!(docs[2]["found"], true);
    assert_eq!(docs[2]["_source"]["msg"], "seven");
    let text = doc.to_string();
    assert!(!text.contains("acme:"), "physical id leaked: {text}");
    assert!(!text.contains("_tenant"), "injected field leaked: {text}");
}

#[test]
fn mget_docs_form_maps_logical_ids_to_physical_reads() {
    let doc = multi_get(&seeded(), &[(Some("orders"), "7")]);
    assert_eq!(doc["docs"][0]["_id"], "7");
    assert_eq!(doc["docs"][0]["found"], true);
    assert_eq!(doc["docs"][0]["_source"]["msg"], "seven");
}

#[test]
fn mget_positions_each_failure() {
    let c = ctx(EndpointKind::MultiGet, b"");
    let r = shared("acme", "eu-1");
    let item = || MgetItem { index: Some("orders".to_owned()), id: "7".to_owned() };
    let none = mget::prepare(&c, &item(), Err(missing("acme")), physical("7")).unwrap_err();
    assert_eq!(
        none,
        json(r#"{"_index":"orders","_id":"7","error":{"type":"placement_missing"}}"#)
    );
    let bad = mget::prepare(&c, &item(), Ok(&r), Err(RewriteError::IrreversibleId)).unwrap_err();
    assert_eq!(bad["error"]["type"], "irreversible_id");
    let fetch = mget::prepare(&c, &item(), Ok(&r), physical("7")).unwrap();
    let failure = SinkError { code: ErrorCode::UpstreamFailed, retryable: true };
    assert_eq!(mget::shape_result(&fetch, Err(failure))["error"]["type"], "upstream_failed");
    let broken =
        ReadOutcome { status: 200, found: true, body: b"{".to_vec(), pool_reuse: false };
    assert_eq!(mget::shape_result(&fetch, Ok(broken))["error"]["type"], "malformed_upstream");
    let doc = multi_get(&seeded(), &[(Some("nowhere"), "7"), (None, "7")]);
    assert_eq!(doc["docs"][0]["error"]["type"], "placement_missing");
    assert_eq!(doc["docs"][0]["_index"], "nowhere");
    assert_eq!(doc["docs"][1]["found"], true);
    assert!(MultiGet::new(1).fetch(5).is_none());
}

fn multi_search(cluster: &mut Cluster, queries: &[(Option<&str>, &str)]) -> PipelineResponse {
    let c = with_headers(ctx(EndpointKind::MultiSearch, b""), &[("x-tenant", "acme")]);
    let r = resolve(&c).unwrap();
    let mut answer = MultiSearch::new(queries.len());
    for (i, (index, query)) in queries.iter().enumerate() {
        let item = MsearchItem {
            index: index.map(str::to_owned),
            query: query.as_bytes().to_vec(),
        };
        let wrapped = wrap_query(&r, &item.query);
        answer = answer.prepared(i, msearch::prepare(&c, &item, Ok(&r), wrapped));
    }
    for i in (0..queries.len()).rev() {
        if let Some(s) = answer.search(i) {
            assert_eq!(s.partition, "acme");
            let outcome = cluster.search(&s.op.body);
            let mapped = map_ids(&outcome.body);
            answer = answer.searched(i, Ok(outcome), &mapped);
        }
    }
    answer.response()
}

#[test]
fn msearch_reinterleaves_responses_and_strips_each_to_logical() {
    let mut cluster = Cluster::default();
    let c = ctx(EndpointKind::IngestDoc, DOC);
    ingest(&Pipeline::new(), &c, &mut cluster, &mut Queue::default()).unwrap();
    let resp = multi_search(
        &mut cluster,
        &[
            (None, r#"{"query":{"match":{"msg":"hello"}}}"#),
            (Some("orders"), r#"{"query":{"match_all":{}}}"#),
        ],
    );
    assert_eq!(resp.status, 200);
    let doc: Value = serde_json::from_slice(&resp.body).unwrap();
    let responses = doc["responses"].as_array().unwrap();
    assert_eq!(responses.len(), 2);
    for r in responses {
        assert_eq!(r["status"], 200);
        let hit = &r["hits"]["hits"][0];
        assert_eq!(hit["_index"], "orders");
        assert_eq!(hit["_id"], "7");
        assert!(hit["_source"].get("_tenant").is_none());
        assert_eq!(hit["_source"]["msg"], "hello");
    }
    assert_eq!(cluster.searches.len(), 2);
    for q in &cluster.searches {
        assert_eq!(q["query"]["bool"]["filter"][0]["term"]["_tenant"], "acme");
    }
    let text = doc.to_string();
    assert!(!text.contains("acme:"), "physical id leaked: {text}");
    assert!(!text.contains("_tenant"), "injected field leaked: {text}");
    let raw = String::from_utf8(resp.body).unwrap();
    assert!(raw.contains(r#""aggregations":{ "a":1 }"#), "a sibling keeps its text: {raw}");
}

#[test]
fn msearch_query_cannot_escape_the_partition_filter() {
    let mut cluster = Cluster::default();
    multi_search(&mut cluster, &[(None, r#"{"query":{"term":{"_tenant":"globex"}}}"#)]);
    let q = &cluster.searches[0];
    assert_eq!(q["query"]["bool"]["filter"][0]["term"]["_tenant"], "acme");
    assert_eq!(q["query"]["bool"]["must"][0]["term"]["_tenant"], "globex");
}

#[test]
fn msearch_positions_each_failure() {
    let c = ctx(EndpointKind::MultiSearch, b"");
    let r = shared("acme", "eu-1");
    let item = || MsearchItem { index: None, query: vec![] };
    let none = msearch::prepare(&c, &item(), Err(missing("acme")), Ok(vec![])).unwrap_err();
    assert_eq!(none, br#"{"error":{"type":"placement_missing"},"status":400}"#);
    let bad =
        msearch::prepare(&c, &item(), Ok(&r), Err(RewriteError::InvalidJson)).unwrap_err();
    assert_eq!(bad, br#"{"error":{"type":"invalid_query"},"status":400}"#);
    let s = msearch::prepare(&c, &item(), Ok(&r), Ok(b"{}".to_vec())).unwrap();
    let failure = SinkError { code: ErrorCode::UpstreamFailed, retryable: true };
    assert_eq!(
        msearch::shape_response(&s, Err(failure), &[]),
        br#"{"error":{"type":"upstream_failed"},"status":502}"#
    );
    for body in ["{", "[1]"] {
        let outcome =
            SearchOutcome { status: 200, body: body.as_bytes().to_vec(), pool_reuse: false };
        assert_eq!(
            msearch::shape_response(&s, Ok(outcome), &[]),
            br#"{"error":{"type":"malformed_upstream"},"status":502}"#
        );
    }
    assert_eq!(
        msearch::with_status(br#"{ "a": [ 1 ] }"#, 207).unwrap(),
        br#"{"a":[ 1 ],"status":207}"#
    );
    assert_eq!(msearch::with_status(b"1", 200), None);
    let empty = MultiSearch::new(0).response();
    assert_eq!(empty.body, br#"{"responses":[]}"#);
    let waiting = MultiSearch::new(2).response();
    assert_eq!(waiting.body, br#"{"responses":[null,null]}"#);
}

fn read(cluster: &Cluster, id: &str) -> PipelineResponse {
    let mut c = with_headers(ctx(EndpointKind::GetById, b""), &[("x-tenant", "acme")]);
    c.doc_id = Some(id.to_owned());
    let r = resolve(&c).unwrap();
    let lookup = get_by_id(&c, &r, physical(id)).unwrap();
    assert_eq!(lookup.op.routing.as_deref(), Some("acme"));
    let outcome = cluster.get(&lookup.op.id);
    let info = read_dispatch_info(&r, outcome.status, outcome.pool_reuse);
    assert_eq!(info.cluster, "eu-1");
    assert_eq!(info.upstream_status, outcome.status);
    got(&c, &lookup, &outcome).unwrap()
}

#[test]
fn get_by_id_returns_the_logical_document() {
    let resp = read(&seeded(), "7");
    assert_eq!(resp.status, 200);
    let doc: Value = serde_json::from_slice(&resp.body).unwrap();
    assert_eq!(doc["_id"], "7");
    assert_eq!(doc["_index"], "orders");
    assert!(doc.get("_routing").is_none());
    assert!(doc["_source"].get("_tenant").is_none());
    assert_eq!(doc["_source"]["msg"], "seven");
    assert_eq!(doc["_source"]["id"], 7);
}

#[test]
fn get_by_id_miss_is_logical_not_found() {
    let resp = read(&Cluster::default(), "404");
    assert_eq!(resp.status, 404);
    let doc: Value = serde_json::from_slice(&resp.body).unwrap();
    assert_eq!(doc["_id"], "404");
    assert_eq!(doc["found"], false);
}

#[test]
fn get_by_id_records_shape_only_read_spans() {
    let resp = read(&seeded(), "7");
    match ending(&Ok(resp)) {
        Ending::Egress(e) => assert_eq!(e.status, 200),
        Ending::Failure(_) => panic!("the read succeeded"),
    }
    let mut c = ctx(EndpointKind::GetById, DOC);
    c.doc_id = None;
    let r = resolve(&c).unwrap();
    let err = get_by_id(&c, &r, physical("7")).unwrap_err();
    assert!(matches!(
        err,
        RequestError::Internal { reason: "get-by-id reached the engine without a document id" }
    ));
    let info = error_context(&err);
    assert_eq!(info.remediation, "internal error; inspect logs");
}

#[test]
fn delete_by_id_removes_the_document() {
    let mut cluster = seeded();
    let mut queue = Queue::default();
    let p = Pipeline::new();
    let mut c = with_headers(ctx(EndpointKind::DeleteById, b""), &[("x-tenant", "acme")]);
    c.doc_id = Some("7".to_owned());
    let r = resolve(&c).unwrap();
    for (status, result) in [(200, "deleted"), (404, "not_found")] {
        let step = delete_by_id(&c, &r, physical("7"), WriteMode::Sync, false).unwrap();
        let ack = finish_write(&p, &c, step, &r, &mut cluster, &mut queue, true).unwrap().unwrap();
        let resp = deleted(&c, "7", &ack);
        assert_eq!(resp.status, status);
        let doc: Value = serde_json::from_slice(&resp.body).unwrap();
        assert_eq!(doc["_index"], "orders");
        assert_eq!(doc["_id"], "7");
        assert_eq!(doc["result"], result);
    }
    assert_eq!(read(&cluster, "7").status, 404);
    c.doc_id = None;
    let err = delete_by_id(&c, &r, physical("7"), WriteMode::Sync, false).unwrap_err();
    assert!(matches!(
        err,
        RequestError::Internal { reason: "delete-by-id reached the engine without a document id" }
    ));
    let none = deleted(&c, "7", &WriteAck { results: vec![], pool_reuse: false });
    assert_eq!(none.status, 200);
}

#[test]
fn an_async_delete_is_enqueued() {
    let mut cluster = seeded();
    let mut queue = Queue { on: true, ..Queue::default() };
    let p = Pipeline::new().with_write_queue(true);
    let mut c = with_headers(ctx(EndpointKind::DeleteById, b""), ASYNC);
    c.doc_id = Some("7".to_owned());
    let r = resolve(&c).unwrap();
    let step = delete_by_id(&c, &r, physical("7"), p.write_mode(&c), true).unwrap();
    let resp = finish_write(&p, &c, step, &r, &mut cluster, &mut queue, true).unwrap().unwrap_err();
    assert_eq!(resp.status, 202);
    assert!(matches!(&queue.writes[0].batch[0].doc, DocOp::Delete { id, .. } if id == "acme:7"));
    assert_eq!(read(&cluster, "7").status, 200);
}

fn run_search(cluster: &mut Cluster, body: &[u8], query: Option<&str>) -> PipelineResponse {
    let mut c = with_headers(ctx(EndpointKind::Search, body), &[("x-tenant", "acme")]);
    c.query = query.map(str::to_owned);
    assert!(pinned(&c, false).is_none());
    let r = resolve(&c).unwrap();
    let (op, shape) = search(&c, &r, wrap_query(&r, body)).unwrap();
    assert_eq!(op.query, query.and_then(|_| Some("scroll=1m".to_owned())));
    let outcome = cluster.search(&op.body);
    let mapped = map_ids(&outcome.body);
    let shaped = searched(&c, &shape, &outcome, &mapped, true).unwrap();
    assert!(shaped.cursor_id.is_none());
    search_answer(shaped, "")
}

#[test]
fn search_filters_the_query_and_strips_hits() {
    let mut cluster = Cluster::default();
    let c = ctx(EndpointKind::IngestDoc, DOC);
    ingest(&Pipeline::new(), &c, &mut cluster, &mut Queue::default()).unwrap();
    let resp = run_search(
        &mut cluster,
        br#"{"query":{"match":{"msg":"hello"}}}"#,
        Some("q=x&scroll=1m"),
    );
    assert_eq!(resp.status, 200);
    let doc: Value = serde_json::from_slice(&resp.body).unwrap();
    let hit = &doc["hits"]["hits"][0];
    assert_eq!(hit["_index"], "orders");
    assert_eq!(hit["_id"], "7");
    assert!(hit["_source"].get("_tenant").is_none());
    assert_eq!(hit["_source"]["msg"], "hello");
}

#[test]
fn search_dispatches_a_query_wrapped_in_the_mandatory_filter() {
    let mut cluster = Cluster::default();
    run_search(&mut cluster, br#"{"query":{"term":{"_tenant":"globex"}}}"#, None);
    assert_eq!(cluster.searches.len(), 1);
    let q = &cluster.searches[0];
    assert_eq!(q["query"]["bool"]["filter"][0]["term"]["_tenant"], "acme");
    assert_eq!(q["query"]["bool"]["must"][0]["term"]["_tenant"], "globex");
}

#[test]
fn count_returns_a_partition_scoped_total() {
    let resp = counted(&CountOutcome { status: 200, count: 1, pool_reuse: false });
    assert_eq!(resp.status, 200);
    let doc: Value = serde_json::from_slice(&resp.body).unwrap();
    assert_eq!(doc["count"], 1);
    let big = counted(&CountOutcome { status: 206, count: u64::MAX, pool_reuse: false });
    assert_eq!(text(&big), r#"{"count":18446744073709551615}"#);
    assert_eq!(big.status, 206);
    let c = ctx(EndpointKind::Count, br#"{"tenant_id":"acme","query":{"match_all":{}}}"#);
    let r = resolve(&c).unwrap();
    let (op, _) = search(&c, &r, wrap_query(&r, &c.body)).unwrap();
    let q: Value = serde_json::from_slice(&op.body).unwrap();
    assert_eq!(q["query"]["bool"]["filter"][0]["term"]["_tenant"], "acme");
}

const REAL_ID: &str = "DXF1ZXJ5QW5kRmV0Y2grealScrollId==";

/// The signer: a token names its key, its cluster and the cluster's id.
fn sign(key: u8, cluster: &str, id: &str) -> String {
    format!("{key}|{cluster}|{id}")
}

fn open(key: u8, token: &str) -> Option<Opened> {
    let mut parts = token.splitn(3, '|');
    if parts.next()? != key.to_string() {
        return None;
    }
    Some(Opened { cluster: parts.next()?.to_owned(), id: parts.next()?.to_owned() })
}

fn cursor_ctx(method: &str, body: &[u8], id: Option<&str>) -> RequestCtx {
    let mut c = ctx(EndpointKind::Cursor, body);
    c.method = method.to_owned();
    c.logical_index = String::new();
    c.doc_id = id.map(str::to_owned);
    c
}

fn existing(c: &RequestCtx) -> CursorRequest {
    match cursor(c, true).unwrap() {
        CursorStart::Existing(req) => req,
        CursorStart::Create => panic!("an existing cursor is named"),
    }
}

#[test]
fn a_continued_scroll_routes_to_its_pinned_cluster_with_the_real_id() {
    let token = sign(9, "eu-1", REAL_ID);
    let body = format!(r#"{{"scroll":"1m","scroll_id":"{token}"}}"#);
    let c = cursor_ctx("POST", body.as_bytes(), None);
    let req = existing(&c);
    let opened = open(9, &req.wrapped);
    let endpoint = Some("http://eu-1.internal:9200".to_owned());
    let op = cursor_forward(&c, &req, opened.as_ref(), endpoint).unwrap();
    assert_eq!(op.cluster, "eu-1", "routed to the pinned cluster");
    assert_eq!(op.endpoint.as_deref(), Some("http://eu-1.internal:9200"));
    assert_eq!(op.path, "/_search/scroll");
    let sent = String::from_utf8(op.body).unwrap();
    assert!(sent.contains(REAL_ID), "real id substituted: {sent}");
    assert!(!sent.contains(&token), "the wrapper must be stripped before upstream");
    assert!(sent.contains(r#""scroll":"1m""#), "keep-alive preserved: {sent}");
}

#[test]
fn the_path_form_scroll_id_is_unwrapped_from_the_doc_id() {
    let token = sign(9, "us-2", REAL_ID);
    let c = cursor_ctx("GET", b"", Some(&token));
    let req = existing(&c);
    let op = cursor_forward(&c, &req, open(9, &req.wrapped).as_ref(), None).unwrap();
    assert_eq!(op.cluster, "us-2");
    assert_eq!(String::from_utf8(op.body).unwrap(), format!(r#"{{"scroll_id":"{REAL_ID}"}}"#));
}

#[test]
fn a_scroll_opening_search_wraps_the_scroll_id_for_the_client() {
    let c = ctx(EndpointKind::Search, br#"{"query":{"match_all":{}},"tenant_id":"acme"}"#);
    let r = resolve(&c).unwrap();
    let (_, shape) = search(&c, &r, wrap_query(&r, &c.body)).unwrap();
    let outcome = SearchOutcome {
        status: 200,
        body: br#"{"_scroll_id":"UPSTREAMSCROLL","hits":{"hits":[]}}"#.to_vec(),
        pool_reuse: false,
    };
    let shaped = searched(&c, &shape, &outcome, &[], true).unwrap();
    let id = shaped.cursor_id.clone().expect("a scroll was opened");
    let token = sign(5, &r.decision.target.cluster, &id);
    let resp = search_answer(shaped, &token);
    let v: Value = serde_json::from_slice(&resp.body).unwrap();
    let wrapped = v["_scroll_id"].as_str().expect("response carries a scroll id");
    assert_ne!(wrapped, "UPSTREAMSCROLL", "the raw upstream id must not leak");
    let opened = open(5, wrapped).expect("the token verifies");
    assert_eq!(opened.cluster, "eu-1", "pinned to the serving cluster");
    assert_eq!(opened.id, "UPSTREAMSCROLL", "unwraps to the real upstream id");
    let off = searched(&c, &shape, &outcome, &[], false).unwrap();
    assert!(off.cursor_id.is_none(), "without affinity nothing is wrapped");
}

#[test]
fn a_scroll_continue_re_wraps_the_next_page_scroll_id() {
    let outcome = CursorOutcome {
        status: 200,
        body: br#"{"_scroll_id":"NEXTPAGE"}"#.to_vec(),
        pool_reuse: false,
        content_type: Some("application/json".to_owned()),
    };
    let id = next_page_id(&outcome).expect("next page id present");
    let token = sign(9, "eu-1", &id);
    let resp = continued(outcome, Some(&token));
    let v: Value = serde_json::from_slice(&resp.body).unwrap();
    let next = v["_scroll_id"].as_str().unwrap();
    assert_ne!(next, "NEXTPAGE", "the raw next-page id must not leak");
    let opened = open(9, next).expect("re-wrapped id verifies");
    assert_eq!((opened.cluster.as_str(), opened.id.as_str()), ("eu-1", "NEXTPAGE"));
    assert_eq!(resp.content_type.as_deref(), Some("application/json"));
    let plain = CursorOutcome {
        status: 200,
        body: b"{ }".to_vec(),
        pool_reuse: false,
        content_type: None,
    };
    assert!(next_page_id(&plain).is_none());
    assert_eq!(continued(plain, None).body, b"{ }");
}

#[test]
fn a_pit_close_routes_to_its_pinned_cluster_via_the_pit_endpoint() {
    let token = sign(3, "eu-1", REAL_ID);
    let c = cursor_ctx("DELETE", format!(r#"{{"id":"{token}"}}"#).as_bytes(), None);
    let req = existing(&c);
    let op = cursor_forward(&c, &req, open(3, &req.wrapped).as_ref(), None).unwrap();
    assert_eq!(op.cluster, "eu-1");
    assert_eq!(op.path, "/_pit", "pit close targets the _pit endpoint");
    let sent = String::from_utf8(op.body).unwrap();
    assert!(sent.contains(REAL_ID), "real id substituted: {sent}");
    assert!(!sent.contains(&token), "wrapper stripped before upstream");
}

#[test]
fn a_pit_create_resolves_the_index_cluster_and_wraps_the_returned_id() {
    let mut c = ctx(EndpointKind::Cursor, br#"{"tenant_id":"acme"}"#);
    c.query = Some("keep_alive=5m".to_owned());
    assert!(matches!(cursor(&c, true).unwrap(), CursorStart::Create));
    let r = resolve(&c).unwrap();
    let op = pit_create(&c, &r);
    assert_eq!(op.cluster, "eu-1", "opened on the resolved cluster");
    assert_eq!(op.path, "/shared/_pit", "the physical index's _pit endpoint");
    assert_eq!(op.query.as_deref(), Some("keep_alive=5m"), "keep_alive forwarded");
    assert_eq!(op.endpoint.as_deref(), Some("http://eu-1.internal:9200"));
    for body in [r#"{"id":"RAWPIT"}"#, r#"{"pit_id":"RAWPIT","x":1}"#] {
        let outcome = CursorOutcome {
            status: 200,
            body: body.as_bytes().to_vec(),
            pool_reuse: false,
            content_type: None,
        };
        let raw = opened_pit_id(&outcome).expect("pit create returns an id");
        let token = sign(13, "eu-1", &raw);
        let resp = pit_created(outcome, Some(&token));
        let v: Value = serde_json::from_slice(&resp.body).unwrap();
        let id = v["id"].as_str().or(v["pit_id"].as_str()).unwrap();
        assert_ne!(id, "RAWPIT", "the raw pit id must not leak");
        let opened = open(13, id).expect("wrapped id verifies");
        assert_eq!((opened.cluster.as_str(), opened.id.as_str()), ("eu-1", "RAWPIT"));
    }
}

#[test]
fn a_pit_search_routes_to_the_pit_cluster_and_substitutes_the_real_id() {
    let pit = sign(17, "us-9", "RAWPIT");
    let body =
        format!(r#"{{"query":{{"match_all":{{}}}},"pit":{{"id":"{pit}"}},"tenant_id":"acme"}}"#);
    let mut c = ctx(EndpointKind::Search, body.as_bytes());
    c.logical_index = String::new();
    let wrapped_pit = pinned(&c, true).expect("the search is pinned");
    let opened = pit_opened(open(17, &wrapped_pit)).unwrap();
    let r = resolve(&c).unwrap();
    let (op, shape) =
        pit_search(&c, &r, wrap_query(&r, &c.body), &opened, Some("http://us-9:1".to_owned()))
            .unwrap();
    assert_eq!(op.cluster, "us-9", "routes to the PIT's pinned cluster, not the resolved target");
    assert_eq!(op.path, "/_search");
    assert_eq!(op.endpoint.as_deref(), Some("http://us-9:1"));
    let sent = String::from_utf8(op.body).unwrap();
    assert!(sent.contains("RAWPIT"), "real pit id substituted: {sent}");
    assert!(!sent.contains(&pit), "the wrapped pit id must be stripped before upstream");
    assert!(
        sent.contains(r#""term":{"_tenant":"acme"}"#),
        "the partition filter must be applied to a PIT search: {sent}"
    );
    let outcome = CursorOutcome {
        status: 200,
        body: br#"{"pit_id":"NEXTPIT","hits":{"hits":[{"_id":"acme:7","_source":{"_tenant":"acme"}}]}}"#
            .to_vec(),
        pool_reuse: false,
        content_type: None,
    };
    let mapped = map_ids(&outcome.body);
    let shaped = pit_searched(&c, &shape, &outcome, &mapped).unwrap();
    let token = sign(17, &opened.cluster, shaped.cursor_id.as_deref().unwrap());
    let resp = pit_answer(shaped, &token);
    assert_eq!(resp.status, 200);
    let v: Value = serde_json::from_slice(&resp.body).unwrap();
    assert_eq!(v["pit_id"], token);
    assert_eq!(v["hits"]["hits"][0]["_id"], "7");
    assert!(v["hits"]["hits"][0]["_source"].get("_tenant").is_none());
}

#[test]
fn a_forged_pit_in_a_search_body_fails_closed_without_dispatch() {
    let pit = sign(2, "us-9", "RAWPIT");
    let body = format!(r#"{{"query":{{"match_all":{{}}}},"pit":{{"id":"{pit}"}}}}"#);
    let c = ctx(EndpointKind::Search, body.as_bytes());
    let wrapped_pit = pinned(&c, true).unwrap();
    let err = pit_opened(open(1, &wrapped_pit)).unwrap_err();
    assert_eq!(err.code(), ErrorCode::CursorUnresolvable);
    assert!(matches!(err, RequestError::Cursor { reason: "pit envelope is invalid or expired" }));
}

#[test]
fn affinity_disabled_fails_closed() {
    let c = cursor_ctx("POST", br#"{"scroll_id":"anything"}"#, None);
    let err = cursor(&c, false).unwrap_err();
    assert_eq!(err.code(), ErrorCode::CursorUnresolvable);
    assert!(!err.retryable(), "re-issue the search, not a blind retry");
    assert!(matches!(err, RequestError::Cursor { reason: "cursor affinity is not enabled" }));
    let none = cursor_ctx("POST", b"{}", None);
    assert!(matches!(
        cursor(&none, true).unwrap_err(),
        RequestError::Cursor { reason: "no cursor id in the request" }
    ));
}

#[test]
fn a_forged_cursor_fails_closed_without_dispatch() {
    let token = sign(2, "eu-1", REAL_ID);
    let c = cursor_ctx("POST", format!(r#"{{"scroll_id":"{token}"}}"#).as_bytes(), None);
    let req = existing(&c);
    let err = cursor_forward(&c, &req, open(1, &req.wrapped).as_ref(), None).unwrap_err();
    assert_eq!(err.code(), ErrorCode::CursorUnresolvable);
    assert!(matches!(
        err,
        RequestError::Cursor { reason: "cursor envelope is invalid or expired" }
    ));
}

#[test]
fn ingest_is_gated_through_the_migration_lifecycle() {
    let (mut cluster, mut queue) = (Cluster::default(), Queue::default());
    let p = Pipeline::new();
    let c = ctx(EndpointKind::IngestDoc, br#"{"tenant_id":"acme","id":1,"msg":"hi"}"#);
    assert!(ingest(&p, &c, &mut cluster, &mut queue).unwrap().status >= 200);
    assert_eq!(cluster.writes, 1);
    let mut draining = shared("acme", "eu-1");
    draining.migration = MigrationPhase::Draining;
    assert_eq!(resolve_info(&draining).migration.label(), "draining");
    assert!(ingest_at(&p, &c, &mut cluster, &mut queue, Ok(draining), true).is_ok());
    assert_eq!(cluster.writes, 2);
    let mut cutover = shared("acme", "eu-1");
    cutover.migration = MigrationPhase::Cutover;
    let err = ingest_at(&p, &c, &mut cluster, &mut queue, Ok(cutover), false).unwrap_err();
    assert_eq!(err.code(), ErrorCode::StaleEpoch);
    assert!(err.retryable(), "stale-epoch must be retryable");
    assert!(matches!(err, RequestError::StaleEpoch { stamped: 1 }));
    assert_eq!(cluster.writes, 2, "no write during cutover");
    let moved = shared("acme", "us-1");
    assert!(ingest_at(&p, &c, &mut cluster, &mut queue, Ok(moved), true).is_ok());
    assert_eq!(cluster.writes, 3);
}

fn diagnose(result: Result<PipelineResponse, RequestError>) -> osproxy::observe::ErrorContext {
    match ending(&result) {
        Ending::Failure(f) => f,
        Ending::Egress(_) => panic!("expected a failed request"),
    }
}

fn failing(body: &[u8], placed: Result<Resolved, SpiError>, sink: Option<SinkError>) -> osproxy::observe::ErrorContext {
    let (mut cluster, mut queue) = (Cluster::default(), Queue::default());
    cluster.failure = sink;
    let c = ctx(EndpointKind::IngestDoc, body);
    diagnose(ingest_at(&Pipeline::new(), &c, &mut cluster, &mut queue, placed, true))
}

#[test]
fn an_unresolved_partition_is_fully_diagnosable_from_the_trace() {
    let c = ctx(EndpointKind::IngestDoc, br#"{"id":1}"#);
    let d = failing(&c.body, resolve(&c), None);
    assert_eq!(d.code, ErrorCode::PartitionUnresolved);
    assert!(!d.retryable, "a missing key is the client's to fix");
    assert!(d.remediation.contains("partition key"), "{}", d.remediation);
}

#[test]
fn a_missing_placement_is_fully_diagnosable_from_the_trace() {
    let d = failing(DOC, Err(missing("acme")), None);
    assert_eq!(d.code, ErrorCode::PlacementMissing);
    assert!(!d.retryable);
    assert_eq!(d.partition.as_deref(), Some("acme"));
    assert!(d.remediation.contains("register a placement"));
}

#[test]
fn a_down_placement_backend_is_diagnosed_as_retryable() {
    let d = failing(DOC, Err(backend_down()), None);
    assert_eq!(d.code, ErrorCode::PlacementBackendUnavailable);
    assert!(d.retryable, "a backend outage is transient, retry");
    assert!(d.remediation.contains("retry"));
}

#[test]
fn an_upstream_rejection_is_diagnosed_at_the_delivery_stage() {
    let sink = SinkError { code: ErrorCode::UpstreamFailed, retryable: false };
    let d = failing(DOC, Ok(shared("acme", "eu-1")), Some(sink));
    assert_eq!(d.code, ErrorCode::UpstreamFailed);
    assert!(!d.retryable, "a 4xx is not the proxy's to retry");
}

#[test]
fn a_stale_epoch_is_diagnosed_as_a_retryable_migration_conflict() {
    let sink = SinkError { code: ErrorCode::StaleEpoch, retryable: true };
    let d = failing(DOC, Ok(shared("acme", "eu-1")), Some(sink));
    assert_eq!(d.code, ErrorCode::StaleEpoch);
    assert!(d.retryable);
    assert!(!d.remediation.is_empty(), "every failure carries a remediation");
}

#[test]
fn every_failure_mode_carries_the_full_diagnostic_quintet() {
    let spi = |fault| RequestError::Spi(SpiError { fault, code: ErrorCode::Other, retryable: false });
    let all = vec![
        spi(SpiFault::PartitionUnresolved),
        spi(SpiFault::PlacementMissing { partition: "p".to_owned() }),
        spi(SpiFault::PlacementBackend),
        spi(SpiFault::UnsupportedEndpoint { endpoint: EndpointKind::Admin }),
        spi(SpiFault::IdRuleMissingPartition),
        spi(SpiFault::PrincipalAttrMissing),
        spi(SpiFault::Other),
        RequestError::Rewrite(RewriteError::InvalidJson),
        RequestError::Sink(SinkError { code: ErrorCode::UpstreamFailed, retryable: true }),
        RequestError::StaleEpoch { stamped: 1 },
        RequestError::Cursor { reason: "x" },
        RequestError::PayloadTooLarge { reason: "x" },
        RequestError::Internal { reason: "x" },
    ];
    let mut seen = std::collections::BTreeSet::new();
    for e in &all {
        let d = error_context(e);
        assert!(!d.remediation.is_empty(), "{e:?}");
        assert_eq!(d.retryable, e.retryable());
        seen.insert(d.remediation);
        match streamed_ending(Err(e)) {
            Ending::Failure(f) => assert_eq!(f.remediation, d.remediation),
            Ending::Egress(_) => panic!("a failure"),
        }
    }
    assert_eq!(seen.len(), 12);
    assert!(matches!(streamed_ending(Ok(204)), Ending::Egress(e) if e.response_bytes == 0));
}

#[test]
fn every_upstream_fault_is_typed_classified_and_never_panics() {
    for (code, retryable) in [
        (ErrorCode::UpstreamFailed, true),
        (ErrorCode::UpstreamFailed, false),
        (ErrorCode::StaleEpoch, true),
    ] {
        let d = failing(DOC, Ok(shared("acme", "eu-1")), Some(SinkError { code, retryable }));
        assert_eq!(d.code, code);
        assert_eq!(d.retryable, retryable);
    }
}

#[test]
fn routing_faults_are_typed_and_classified() {
    let d = failing(DOC, Err(missing("acme")), None);
    assert_eq!((d.code, d.retryable), (ErrorCode::PlacementMissing, false));
    let d = failing(DOC, Err(backend_down()), None);
    assert_eq!((d.code, d.retryable), (ErrorCode::PlacementBackendUnavailable, true));
}

#[test]
fn malformed_bodies_never_panic_and_stay_typed() {
    let cases: [&[u8]; 4] =
        [b"", b"not json at all", br#"{"id":1}"#, br#"{"tenant_id":"acme""#];
    for body in cases {
        let c = ctx(EndpointKind::IngestDoc, body);
        let d = failing(body, resolve(&c), None);
        assert!(!d.retryable, "a malformed body is not retryable: {body:?}");
    }
}

fn quiet() -> Published {
    Published { level: DiagLevel { rank: OFF }, ring_buffer: false, capture: false }
}

#[test]
fn the_default_pipeline_exports_nothing() {
    let p = Pipeline::new();
    assert!(!p.exports(p.diagnostics(quiet(), None)));
    let on = Pipeline::new().with_exporter(true);
    assert!(on.exports(on.diagnostics(quiet(), None)), "the baseline is the shape");
    assert_eq!(p.service_name, "osproxy");
    assert_eq!(p.with_service_name("osproxy-test".to_owned()).service_name, "osproxy-test");
}

#[test]
fn baseline_off_suppresses_export_until_a_directive_selects_the_request() {
    let p = Pipeline::new().with_exporter(true).with_baseline_level(DiagLevel { rank: OFF });
    assert!(!p.exports(p.diagnostics(quiet(), None)));
    let on = Published { level: DiagLevel { rank: SHAPE }, ..quiet() };
    assert!(p.exports(p.diagnostics(on, None)));
}

#[test]
fn a_ring_buffer_directive_captures_into_the_break_glass_tape() {
    let p = Pipeline::new().with_baseline_level(DiagLevel { rank: OFF });
    assert!(!p.diagnostics(quiet(), None).capture, "no ring_buffer directive, empty tape");
    let on = Published { ring_buffer: true, ..quiet() };
    let d = p.diagnostics(on, None);
    assert!(d.capture);
    assert_eq!(d.level.rank, OFF, "capture does not require a raised export level");
    let done = p.conclude(
        &Ok(PipelineResponse::json(200, b"{}".to_vec())),
        on,
        None,
    );
    assert!(done.tape && !done.export && !done.traffic_capture);
}

#[test]
fn a_validly_signed_header_enables_export_for_its_request_only() {
    let p = Pipeline::new().with_exporter(true).with_baseline_level(DiagLevel { rank: OFF });
    assert!(!p.exports(p.diagnostics(quiet(), None)), "no header, no export");
    let valid = HeaderDirective {
        level: Some(DiagLevel { rank: SHAPE }),
        ring_buffer: false,
        capture: true,
    };
    let d = p.diagnostics(quiet(), Some(valid));
    assert!(p.exports(d));
    assert!(d.traffic_capture);
    let elsewhere = HeaderDirective { level: None, ring_buffer: true, capture: true };
    let d = p.diagnostics(quiet(), Some(elsewhere));
    assert!(!d.capture && !d.traffic_capture && !p.exports(d));
}

#[test]
fn capture_is_off_until_asked_for() {
    let p = Pipeline::new();
    assert!(!p.diagnostics(quiet(), None).traffic_capture);
    assert!(p.diagnostics(Published { capture: true, ..quiet() }, None).traffic_capture);
    let always = Pipeline::new().with_baseline_capture(true);
    let failed = Err(RequestError::Internal { reason: "x" });
    assert!(always.conclude(&failed, quiet(), None).traffic_capture);
}

#[test]
fn passthrough_skips_tenancy_for_the_indices_it_lists() {
    let policy = PassthroughPolicy::new("c".to_owned(), "http://c:9200".to_owned())
        .with_index_prefixes(vec!["legacy-".to_owned()]);
    let p = Pipeline::new().with_passthrough(policy);
    let mut c = ctx(EndpointKind::Search, b"{}");
    c.query = Some("q=1".to_owned());
    assert!(matches!(p.dispatch(&c).unwrap(), Route::Serve(EndpointKind::Search)));
    assert!(!p.is_passthrough("orders"));
    c.logical_index = "legacy-a".to_owned();
    c.endpoint = EndpointKind::Unknown;
    assert!(p.is_passthrough("legacy-a"));
    let Route::Forward(op) = p.dispatch(&c).unwrap() else { panic!("it passes through") };
    assert_eq!((op.cluster.as_str(), op.query.as_deref()), ("c", Some("q=1")));
    assert_eq!(op.endpoint.as_deref(), Some("http://c:9200"));
    assert_eq!(op.protocol, Some(Protocol::Http1));
    let streamed = p.forward_streamed(&c).unwrap();
    assert_eq!((streamed.cluster.as_str(), streamed.path.as_str()), ("c", "/orders/_doc"));
    let err = Pipeline::default().forward_streamed(&c).unwrap_err();
    assert_eq!(err.code(), ErrorCode::UnsupportedEndpoint);
    assert!(!Pipeline::new().is_passthrough("x"));
}

#[test]
fn the_builders_set_what_they_name() {
    let p = Pipeline::new()
        .with_admin_passthrough(cat_policy())
        .with_cursor_signer()
        .with_retry_policy(policy(9));
    assert!(p.affinity);
    assert_eq!(p.retry.max_attempts, 9);
    assert!(p.admin_policy.is_some_and(|a| a.allows("/_cat/x")));
}

#[test]
fn publishing_to_the_fleet_store_flips_export_without_rebuilding_the_pipeline() {
    let p = Pipeline::new().with_exporter(true).with_baseline_level(DiagLevel { rank: OFF });
    let mut store = osproxy::EtcdDirectiveStore::from_read(None, quiet());
    assert!(!p.exports(p.diagnostics(*store.load(), None)), "empty fleet store exports nothing");
    store.apply_value(Some(Published { level: DiagLevel { rank: SHAPE }, ..quiet() }));
    assert!(p.exports(p.diagnostics(*store.load(), None)), "a published directive flips export on");
    store.apply_event(osproxy::directives::WatchEvent::Delete, quiet());
    assert!(!p.exports(p.diagnostics(*store.load(), None)), "clearing the store stops export");
}

#[test]
fn an_expired_directive_does_not_re_enable_export() {
    let p = Pipeline::new().with_exporter(true).with_baseline_level(DiagLevel { rank: OFF });
    let expired = HeaderDirective { level: None, ring_buffer: false, capture: false };
    assert!(!p.exports(p.diagnostics(quiet(), Some(expired))));
}

#[test]
fn the_whole_catalogue_resolves_to_a_typed_outcome() {
    let faults = [
        None,
        Some(SinkError { code: ErrorCode::UpstreamFailed, retryable: true }),
        Some(SinkError { code: ErrorCode::UpstreamFailed, retryable: false }),
        Some(SinkError { code: ErrorCode::StaleEpoch, retryable: true }),
    ];
    let placed: [fn() -> Result<Resolved, SpiError>; 3] =
        [|| Ok(shared("acme", "eu-1")), || Err(missing("acme")), || Err(backend_down())];
    for place in placed {
        for fault in faults {
            let (mut cluster, mut queue) = (Cluster::default(), Queue::default());
            cluster.failure = fault;
            let c = ctx(EndpointKind::IngestDoc, DOC);
            let result =
                ingest_at(&Pipeline::new(), &c, &mut cluster, &mut queue, place(), true);
            if result.is_err() {
                let d = diagnose(result);
                assert!(!d.remediation.is_empty());
            }
        }
    }
}

#[test]
fn failures_read_as_sentences() {
    let spi = RequestError::Spi(missing("p"));
    assert_eq!(spi.message("no placement"), "routing failed: no placement");
    let rewrite = RequestError::Rewrite(RewriteError::InvalidJson);
    assert_eq!(rewrite.message("bad json"), "rewrite failed: bad json");
    let sink = RequestError::Sink(SinkError { code: ErrorCode::Other, retryable: false });
    assert_eq!(sink.message("reset"), "sink failed: reset");
    let stale = RequestError::StaleEpoch { stamped: 42 };
    assert_eq!(stale.message(""), "stale placement epoch 42 for a migrating partition");
    let internal = RequestError::Internal { reason: "x" };
    assert_eq!(internal.message(""), "internal invariant violated: x");
    assert_eq!(RequestError::Cursor { reason: "y" }.message(""), "cursor unresolvable: y");
    assert_eq!(RequestError::PayloadTooLarge { reason: "z" }.message(""), "payload too large: z");
}

#[test]
fn the_engine_runs_on_a_custom_router_implementation() {
    let mut pinned_to = shared("pinned", "custom");
    pinned_to.decision.target.index = "pinned-index".to_owned();
    pinned_to.decision.body_transform = BodyTransform::Verbatim;
    let body = br#"{"msg":"hi"}"#;
    let c = ctx(EndpointKind::IngestDoc, body);
    let step = ingest_doc(&c, &pinned_to, rewrite(body), WriteMode::Sync, false).unwrap();
    let WriteStep::Dispatch(batch) = step else { unreachable!("the mode is synchronous") };
    assert_eq!(batch.len(), 1, "one write committed");
    assert_eq!(batch[0].target.cluster.as_str(), "custom");
    assert_eq!(batch[0].target.index.as_str(), "pinned-index");
    assert!(matches!(&batch[0].doc, DocOp::Index { id: None, body: b, .. } if b == body));
}
