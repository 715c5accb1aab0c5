use osproxy::asyncwrite::MAX_OP_ID_LEN;
use osproxy::cursor::{forwardable_query, pit_ids_in_delete_body};
use osproxy::error::{ErrorCode, RewriteError, SinkError, SpiError, SpiFault};
use osproxy::types::{
    BodyTransform, DocIdRule, DocOp, EndpointKind, InjectedField, InjectedValue, MigrationPhase,
    Protocol, RequestCtx, Resolved, RouteDecision, Target, WriteOp,
};
use osproxy::{
    build_write_batch, op_id_for, valid_op_id, NoQueue, PassthroughPolicy, QueuedWrite, RequestError,
    WriteMode,
};
use osproxy::plan::{plan_rewrite, Rewritten};
use serde_json::Value;

#[test]
fn parses_known_modes_case_insensitively_and_rejects_unknown() {
    assert_eq!(WriteMode::parse("sync"), Some(WriteMode::Sync));
    assert_eq!(WriteMode::parse("ASYNC"), Some(WriteMode::Async));
    assert_eq!(WriteMode::parse("queue"), None);
    assert_eq!(WriteMode::parse(""), None);
}

#[test]
fn op_id_validation_bounds_length_and_charset() {
    assert!(valid_op_id("a-b_c.d:1"));
    assert!(!valid_op_id(""));
    assert!(!valid_op_id("has space"));
    assert!(!valid_op_id("inject\nkey"));
    assert!(!valid_op_id(&"x".repeat(MAX_OP_ID_LEN + 1)));
    assert!(valid_op_id(&"x".repeat(MAX_OP_ID_LEN)));
}

fn target(cluster: &str, index: &str) -> Target {
    Target { cluster: cluster.to_owned(), index: index.to_owned(), endpoint: None }
}

#[test]
fn no_queue_is_disabled_and_refuses() {
    assert!(!NoQueue.enabled());
    let write = QueuedWrite {
        op_id: "op-1".to_owned(),
        partition_key: "acme".to_owned(),
        batch: vec![WriteOp {
            target: target("c", "i"),
            doc: DocOp::Index { id: Some("p:1".to_owned()), routing: None, body: b"{}".to_vec() },
            epoch: 1,
            protocol: Protocol::Http1,
        }],
    };
    let err = NoQueue.enqueue(write).unwrap_err();
    assert_eq!(err.reason, "async write queue is not configured");
}

#[test]
fn only_cursor_params_are_forwarded_not_query_affecting_ones() {
    assert_eq!(forwardable_query(Some("scroll=1m")).as_deref(), Some("scroll=1m"));
    assert_eq!(forwardable_query(Some("keep_alive=5m")).as_deref(), Some("keep_alive=5m"));
    assert_eq!(
        forwardable_query(Some("q=*&scroll=1m")).as_deref(),
        Some("scroll=1m"),
        "a query-string search param must never reach the upstream"
    );
    assert_eq!(forwardable_query(Some("q=*")), None);
    assert_eq!(forwardable_query(Some("source={}&analyzer=x")), None);
    assert_eq!(forwardable_query(None), None);
    assert_eq!(forwardable_query(Some("")), None);
}

#[test]
fn several_cursor_params_keep_their_order() {
    assert_eq!(
        forwardable_query(Some("scroll=1m&q=a&keep_alive=2m&scroll")).as_deref(),
        Some("scroll=1m&keep_alive=2m&scroll")
    );
}

#[test]
fn pit_delete_body_yields_the_wrapped_id_array() {
    assert_eq!(
        pit_ids_in_delete_body(br#"{"pit_id":["a","b"]}"#),
        Some(vec!["a".to_owned(), "b".to_owned()])
    );
    assert_eq!(pit_ids_in_delete_body(br#"{"pit_id":[]}"#), None);
    assert_eq!(pit_ids_in_delete_body(br#"{"scroll_id":"x"}"#), None);
    assert_eq!(pit_ids_in_delete_body(b"not json"), None);
}

fn spi(fault: SpiFault, code: ErrorCode, retryable: bool) -> RequestError {
    RequestError::Spi(SpiError { fault, code, retryable })
}

#[test]
fn spi_error_code_propagates() {
    let err = spi(
        SpiFault::PlacementMissing { partition: "p".to_owned() },
        ErrorCode::PlacementMissing,
        false,
    );
    assert_eq!(err.code(), ErrorCode::PlacementMissing);
    assert!(!err.retryable());
}

#[test]
fn sink_error_retryability_propagates() {
    let err = RequestError::Sink(SinkError { code: ErrorCode::UpstreamFailed, retryable: true });
    assert_eq!(err.code(), ErrorCode::UpstreamFailed);
    assert!(err.retryable());
}

#[test]
fn rewrite_and_internal_are_terminal() {
    let err = RequestError::Rewrite(RewriteError::NotAnObject);
    assert_eq!(err.code(), ErrorCode::UnsupportedEndpoint);
    assert!(!err.retryable());
    assert!(!RequestError::Internal { reason: "x" }.retryable());
}

#[test]
fn every_other_error_has_its_code() {
    let stale = RequestError::StaleEpoch { stamped: 3 };
    assert_eq!(stale.code(), ErrorCode::StaleEpoch);
    assert!(stale.retryable());
    let cursor = RequestError::Cursor { reason: "x" };
    assert_eq!(cursor.code(), ErrorCode::CursorUnresolvable);
    assert!(!cursor.retryable());
    let large = RequestError::PayloadTooLarge { reason: "x" };
    assert_eq!(large.code(), ErrorCode::PayloadTooLarge);
    assert!(!large.retryable());
}

fn ctx_for(logical_index: &str) -> RequestCtx {
    RequestCtx {
        request_id: "r".to_owned(),
        principal: "svc".to_owned(),
        method: "POST".to_owned(),
        endpoint: EndpointKind::IngestDoc,
        protocol: Protocol::Http1,
        logical_index: logical_index.to_owned(),
        headers: vec![],
        body: vec![],
        doc_id: None,
        query: None,
        path: "/".to_owned(),
    }
}

fn matches_index(policy: &PassthroughPolicy, logical_index: &str) -> bool {
    policy.matches(&ctx_for(logical_index))
}

#[test]
fn a_prefix_free_policy_passes_every_request_through() {
    let policy = PassthroughPolicy::new("c".to_owned(), "http://c:9200".to_owned());
    assert!(matches_index(&policy, "anything"));
    assert!(matches_index(&policy, "orders"));
}

#[test]
fn a_prefix_policy_passes_only_matching_indices_and_isolates_the_rest() {
    let policy = PassthroughPolicy::new("c".to_owned(), "http://c:9200".to_owned())
        .with_index_prefixes(vec!["legacy-".to_owned(), "raw_".to_owned()]);
    assert!(matches_index(&policy, "legacy-orders"), "prefix match");
    assert!(matches_index(&policy, "raw_events"), "second prefix match");
    assert!(!matches_index(&policy, "orders"), "tenanted index isolated");
    assert!(
        !matches_index(&policy, "not-legacy-orders"),
        "prefix must anchor at the start, not match mid-string"
    );
}

fn resolved(transform: BodyTransform) -> Resolved {
    Resolved {
        partition: "acme".to_owned(),
        decision: RouteDecision {
            target: target("eu-1", "shared"),
            upstream_protocol: Protocol::Http1,
            body_transform: transform,
            epoch: 4,
        },
        migration: MigrationPhase::Settled,
    }
}

fn field(name: &str, value: InjectedValue) -> InjectedField {
    InjectedField { name: name.to_owned(), value }
}

fn rule(template: &str, set_routing: bool) -> DocIdRule {
    DocIdRule { template: template.to_owned(), set_routing }
}

/// The rewriting layer: validates, splices the fields in and builds the id.
fn rewrite(r: &Resolved, body: &[u8]) -> Result<Rewritten, RequestError> {
    let plan = plan_rewrite(r)?;
    let parsed = serde_json::from_slice::<Value>(body).map_err(|_| RewriteError::InvalidJson);
    let object = match &parsed {
        Ok(Value::Object(m)) => Ok(m.clone()),
        Ok(_) => Err(RewriteError::NotAnObject),
        Err(e) => Err(*e),
    };
    let injected = match (&object, plan.inject) {
        (Ok(m), Some(pairs)) => {
            let mut m = m.clone();
            let mut out = Ok(());
            for (name, value) in pairs {
                if m.contains_key(&name) {
                    out = Err(RewriteError::ReservedFieldCollision);
                }
                m.insert(name, value);
            }
            out.map(|()| serde_json::to_vec(&Value::Object(m)).unwrap())
        }
        (Err(e), _) => Err(*e),
        (_, None) => Err(RewriteError::Other),
    };
    let id = match (&object, plan.id_template) {
        (Ok(m), Some(template)) => {
            let key = template.split("{body.").nth(1).unwrap().trim_end_matches('}');
            let text = match &m[key] {
                Value::String(s) => s.clone(),
                other => format!("{other}"),
            };
            Ok(format!("{}:{}", r.partition, text))
        }
        (Err(e), _) => Err(*e),
        (_, None) => Err(RewriteError::Other),
    };
    Ok(Rewritten { valid: object.map(|_| ()), injected, id })
}

fn build(r: &Resolved, body: &[u8]) -> Result<Vec<WriteOp>, RequestError> {
    let rewritten = rewrite(r, body)?;
    build_write_batch(r, body, rewritten)
}

fn index_op(batch: &[WriteOp]) -> (&Option<String>, &Option<String>, Value) {
    match &batch[0].doc {
        DocOp::Index { id, routing, body } => (id, routing, serde_json::from_slice(body).unwrap()),
        _ => unreachable!("the ingest of one document is an index operation"),
    }
}

#[test]
fn inject_and_construct_id_with_routing() {
    let inject = vec![field("_tenant", InjectedValue::PartitionId)];
    let id = rule("{partition}:{body.id}", true);
    let r = resolved(BodyTransform::Both { inject, id });
    let batch = build(&r, br#"{ "id": 1001, "msg": "hi" }"#).unwrap();
    assert_eq!(batch[0].epoch, 4);
    let (id, routing, body) = index_op(&batch);
    assert_eq!(id.as_deref(), Some("acme:1001"));
    assert_eq!(routing.as_deref(), Some("acme"));
    assert_eq!(body["_tenant"], "acme");
    assert_eq!(body["msg"], "hi");
}

#[test]
fn inject_only_has_no_id_or_routing() {
    let inject = vec![field("_t", InjectedValue::Constant(Value::from("acme")))];
    let r = resolved(BodyTransform::Inject(inject));
    let batch = build(&r, br#"{ "k": 1 }"#).unwrap();
    let (id, routing, body) = index_op(&batch);
    assert!(id.is_none());
    assert!(routing.is_none());
    assert_eq!(body["_t"], "acme");
}

#[test]
fn construct_id_without_routing() {
    let r = resolved(BodyTransform::ConstructId(rule("{partition}:{body.k}", false)));
    let batch = build(&r, br#"{ "k": "v" }"#).unwrap();
    let (id, routing, _) = index_op(&batch);
    assert_eq!(id.as_deref(), Some("acme:v"));
    assert!(routing.is_none());
}

#[test]
fn none_transform_passes_body_through() {
    let r = resolved(BodyTransform::Verbatim);
    let batch = build(&r, br#"{ "k": 1 }"#).unwrap();
    let (id, routing, body) = index_op(&batch);
    assert!(id.is_none());
    assert!(routing.is_none());
    assert_eq!(body, serde_json::from_str::<Value>(r#"{ "k": 1 }"#).unwrap());
}

#[test]
fn reserved_field_collision_is_rejected() {
    let inject = vec![field("_t", InjectedValue::Constant(Value::from("acme")))];
    let r = resolved(BodyTransform::Inject(inject));
    let err = build(&r, br#"{ "_t": "evil" }"#).unwrap_err();
    assert!(matches!(err, RequestError::Rewrite(RewriteError::ReservedFieldCollision)));
}

#[test]
fn malformed_body_is_rejected() {
    let r = resolved(BodyTransform::Verbatim);
    let err = build(&r, b"not json").unwrap_err();
    assert!(matches!(err, RequestError::Rewrite(RewriteError::InvalidJson)));
}

#[test]
fn unresolved_principal_value_is_internal_error() {
    let inject = vec![field("_t", InjectedValue::FromPrincipal("tenant".to_owned()))];
    let r = resolved(BodyTransform::Inject(inject));
    let err = build(&r, br#"{ "k": 1 }"#).unwrap_err();
    assert!(matches!(err, RequestError::Internal { .. }));
    let direct = build_write_batch(
        &r,
        br#"{ "k": 1 }"#,
        Rewritten { valid: Ok(()), injected: Ok(b"{}".to_vec()), id: Ok("x".to_owned()) },
    );
    assert!(matches!(direct.unwrap_err(), RequestError::Internal { .. }));
}

#[test]
fn without_an_acceptable_header_the_given_id_is_the_op_id() {
    let mut c = RequestCtx {
        request_id: "r".to_owned(),
        principal: "svc".to_owned(),
        method: "POST".to_owned(),
        endpoint: EndpointKind::IngestDoc,
        protocol: Protocol::Http1,
        logical_index: "orders".to_owned(),
        headers: vec![],
        body: vec![],
        doc_id: None,
        query: None,
        path: "/orders/_doc".to_owned(),
    };
    assert_eq!(op_id_for(&c, "other"), "other");
    c.headers = vec![("x-op-id".to_owned(), "bad key".to_owned())];
    assert_eq!(op_id_for(&c, "other"), "other");
    c.headers = vec![("x-op-id".to_owned(), "mine-1".to_owned())];
    assert_eq!(op_id_for(&c, "other"), "mine-1");
}
