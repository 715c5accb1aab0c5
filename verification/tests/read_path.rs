use osproxy::error::RewriteError;
use osproxy::read::{
    build_delete_op, build_delete_op_physical, build_read_op, build_search_op, filter_terms,
    hit_ids, not_found_body, read_shape, shape_delete, shape_found, shape_hits, ReadShape,
};
use osproxy::types::{
    BodyTransform, DocIdRule, DocOp, InjectedField, InjectedValue, MigrationPhase, Protocol,
    Resolved, RouteDecision, SearchOp, Target,
};
use osproxy::RequestError;
use serde_json::Value;

fn resolved(transform: BodyTransform) -> Resolved {
    Resolved {
        partition: "acme".to_owned(),
        decision: RouteDecision {
            target: Target {
                cluster: "eu-1".to_owned(),
                index: "shared".to_owned(),
                endpoint: None,
            },
            upstream_protocol: Protocol::Http1,
            body_transform: transform,
            epoch: 4,
        },
        migration: MigrationPhase::Settled,
    }
}

fn field(name: &str, value: InjectedValue) -> InjectedField {
    InjectedField { name: name.to_owned(), value }
}

fn shared_transform() -> BodyTransform {
    BodyTransform::Both {
        inject: vec![field("_tenant", InjectedValue::PartitionId)],
        id: DocIdRule { template: "{partition}:{body.id}".to_owned(), set_routing: true },
    }
}

/// The id rule: the partition, a colon, the logical id.
fn physical(logical: &str) -> Result<String, RewriteError> {
    Ok(format!("acme:{logical}"))
}

fn logical(physical: &str) -> Option<String> {
    physical.strip_prefix("acme:").map(str::to_owned)
}

/// The query wrapped in the partition filter.
fn wrap(r: &Resolved, body: &[u8]) -> Result<Vec<u8>, RewriteError> {
    let doc: Value = serde_json::from_slice(body).map_err(|_| RewriteError::InvalidJson)?;
    let filter: Vec<Value> = filter_terms(&r.decision.body_transform, &r.partition)
        .into_iter()
        .map(|(name, value)| {
            serde_json::from_str(&format!(r#"{{"term":{{"{name}":"{value}"}}}}"#)).unwrap()
        })
        .collect();
    let mut whole: Value =
        serde_json::from_str(r#"{"query":{"bool":{"filter":[],"must":[]}}}"#).unwrap();
    whole["query"]["bool"]["filter"] = Value::Array(filter);
    whole["query"]["bool"]["must"] = Value::Array(vec![doc["query"].clone()]);
    Ok(serde_json::to_vec(&whole).unwrap())
}

fn search(r: &Resolved, body: &[u8]) -> Result<(SearchOp, ReadShape), RequestError> {
    build_search_op(r, wrap(r, body))
}

fn shaped(upstream: &[u8], shape: &ReadShape) -> Result<Vec<u8>, RequestError> {
    let mapped: Vec<Option<String>> =
        hit_ids(upstream).into_iter().map(|id| id.and_then(|id| logical(&id))).collect();
    shape_hits(upstream, "orders", shape, &mapped)
}

#[test]
fn read_op_maps_logical_id_and_sets_routing() {
    let (op, shape) = build_read_op(&resolved(shared_transform()), "7", physical("7")).unwrap();
    assert_eq!(op.id, "acme:7");
    assert_eq!(op.routing.as_deref(), Some("acme"));
    assert_eq!(op.target.index.as_str(), "shared");
    assert_eq!(shape.inject_names, vec!["_tenant".to_owned()]);
}

#[test]
fn read_op_without_id_rule_uses_client_id() {
    let (op, _) =
        build_read_op(&resolved(BodyTransform::Verbatim), "raw-id", Err(RewriteError::Other))
            .unwrap();
    assert_eq!(op.id, "raw-id");
    assert!(op.routing.is_none());
}

#[test]
fn an_id_the_rule_cannot_map_fails_the_read() {
    let err =
        build_read_op(&resolved(shared_transform()), "7", Err(RewriteError::IrreversibleId))
            .unwrap_err();
    assert!(matches!(err, RequestError::Rewrite(RewriteError::IrreversibleId)));
}

#[test]
fn found_response_is_the_logical_document() {
    let upstream = br#"{
        "_index": "shared",
        "_id": "acme:7",
        "_routing": "acme",
        "found": true,
        "_source": { "_tenant": "acme", "msg": "hi" }
    }"#;
    let body = shape_found(upstream, "orders", "7", &["_tenant".to_owned()]).unwrap();
    let doc: Value = serde_json::from_slice(&body).unwrap();
    assert_eq!(doc["_index"], "orders");
    assert_eq!(doc["_id"], "7");
    assert!(doc.get("_routing").is_none());
    assert!(doc["_source"].get("_tenant").is_none());
    assert_eq!(doc["_source"]["msg"], "hi");
}

#[test]
fn a_found_document_that_is_no_json_fails() {
    let err = shape_found(b"{", "orders", "7", &[]).unwrap_err();
    assert!(matches!(err, RequestError::Rewrite(RewriteError::InvalidJson)));
    assert_eq!(shape_found(b" [1] ", "orders", "7", &[]).unwrap(), b"[1]");
}

#[test]
fn not_found_body_is_logical() {
    let doc: Value = serde_json::from_slice(&not_found_body("orders", "7")).unwrap();
    assert_eq!(doc["_index"], "orders");
    assert_eq!(doc["_id"], "7");
    assert_eq!(doc["found"], false);
}

#[test]
fn delete_op_maps_logical_id_and_sets_routing() {
    let op = build_delete_op(&resolved(shared_transform()), "7", physical("7")).unwrap();
    assert_eq!(op.epoch, 4);
    let DocOp::Delete { id, routing } = &op.doc else {
        unreachable!("delete-by-id produces a Delete op")
    };
    assert_eq!(id, "acme:7");
    assert_eq!(routing.as_deref(), Some("acme"));
}

#[test]
fn a_delete_by_physical_id_keeps_the_id() {
    let op = build_delete_op_physical(&resolved(shared_transform()), "acme:9".to_owned());
    assert!(matches!(
        &op.doc,
        DocOp::Delete { id, routing } if id == "acme:9" && routing.as_deref() == Some("acme")
    ));
    assert_eq!(op.target.cluster, "eu-1");
}

#[test]
fn delete_response_reports_logical_terms() {
    let ok: Value = serde_json::from_slice(&shape_delete("orders", "7", 200)).unwrap();
    assert_eq!(ok["_index"], "orders");
    assert_eq!(ok["_id"], "7");
    assert_eq!(ok["result"], "deleted");
    let miss: Value = serde_json::from_slice(&shape_delete("orders", "7", 404)).unwrap();
    assert_eq!(miss["result"], "not_found");
}

#[test]
fn search_op_wraps_client_query_in_the_partition_filter() {
    let (op, _) =
        search(&resolved(shared_transform()), br#"{"query":{"match_all":{}}}"#).unwrap();
    let q: Value = serde_json::from_slice(&op.body).unwrap();
    assert_eq!(q["query"]["bool"]["filter"][0]["term"]["_tenant"], "acme");
    assert_eq!(
        q["query"]["bool"]["must"][0]["match_all"],
        serde_json::from_str::<Value>("{}").unwrap()
    );
}

#[test]
fn a_decorative_injected_field_is_stripped_but_never_filtered() {
    let transform = BodyTransform::Both {
        inject: vec![
            field("_tenant", InjectedValue::PartitionId),
            field("_region", InjectedValue::Constant(Value::from("eu"))),
        ],
        id: DocIdRule { template: "{partition}:{body.id}".to_owned(), set_routing: false },
    };
    let (op, shape) = search(&resolved(transform), br#"{"query":{"match_all":{}}}"#).unwrap();
    let q: Value = serde_json::from_slice(&op.body).unwrap();
    let filter = q["query"]["bool"]["filter"].as_array().unwrap();
    assert_eq!(filter.len(), 1, "exactly one isolation term: {q}");
    assert_eq!(filter[0]["term"]["_tenant"], "acme");
    assert!(
        filter[0]["term"].get("_region").is_none(),
        "the decorative field must not be filtered: {q}"
    );
    assert_eq!(shape.inject_names, vec!["_tenant".to_owned(), "_region".to_owned()]);
}

#[test]
fn a_query_that_cannot_be_wrapped_fails_the_search() {
    let err = search(&resolved(shared_transform()), b"{").unwrap_err();
    assert!(matches!(err, RequestError::Rewrite(RewriteError::InvalidJson)));
}

#[test]
fn hits_are_stripped_to_the_logical_view() {
    let upstream = br#"{
        "hits": { "total": { "value": 1 }, "hits": [
            { "_index": "shared", "_id": "acme:7", "_routing": "acme",
              "_source": { "_tenant": "acme", "msg": "hi" } }
        ] }
    }"#;
    let shape = read_shape(&shared_transform());
    let body = shaped(upstream, &shape).unwrap();
    let doc: Value = serde_json::from_slice(&body).unwrap();
    let hit = &doc["hits"]["hits"][0];
    assert_eq!(hit["_index"], "orders");
    assert_eq!(hit["_id"], "7");
    assert!(hit.get("_routing").is_none());
    assert!(hit["_source"].get("_tenant").is_none());
    assert_eq!(hit["_source"]["msg"], "hi");
}

#[test]
fn an_id_that_maps_to_nothing_is_left_as_it_is() {
    let upstream = br#"{"hits":{"hits":[{"_id":"other:7"},{"_id":7},{"x":1}]}}"#;
    let shape = read_shape(&shared_transform());
    let body = shaped(upstream, &shape).unwrap();
    let doc: Value = serde_json::from_slice(&body).unwrap();
    assert_eq!(doc["hits"]["hits"][0]["_id"], "other:7");
    assert_eq!(doc["hits"]["hits"][1]["_id"], 7);
    assert!(doc["hits"]["hits"][2].get("_id").is_none());
    assert_eq!(
        hit_ids(upstream),
        vec![Some("other:7".to_owned()), None, None]
    );
}

#[test]
fn without_an_id_rule_the_id_stays() {
    let upstream = br#"{"hits":{"hits":[{"_id":"acme:7"}]}}"#;
    let shape = read_shape(&BodyTransform::Inject(vec![]));
    let body = shaped(upstream, &shape).unwrap();
    let doc: Value = serde_json::from_slice(&body).unwrap();
    assert_eq!(doc["hits"]["hits"][0]["_id"], "acme:7");
}

#[test]
fn top_level_siblings_including_aggregations_pass_through_untouched() {
    let upstream = br#"{
        "took": 5,
        "_shards": { "total": 3, "successful": 3 },
        "hits": { "total": { "value": 1 }, "hits": [
            { "_index": "shared", "_id": "acme:7", "_routing": "acme",
              "_source": { "_tenant": "acme", "msg": "hi" } }
        ] },
        "aggregations": { "by_day": { "buckets": [ { "key": 1, "doc_count": 9 } ] } }
    }"#;
    let shape = read_shape(&shared_transform());
    let body = shaped(upstream, &shape).unwrap();
    let doc: Value = serde_json::from_slice(&body).unwrap();
    assert_eq!(doc["hits"]["hits"][0]["_index"], "orders");
    assert!(doc["hits"]["hits"][0]["_source"].get("_tenant").is_none());
    assert_eq!(doc["took"], 5);
    assert_eq!(doc["_shards"]["successful"], 3);
    assert_eq!(doc["aggregations"]["by_day"]["buckets"][0]["doc_count"], 9);
    let text = String::from_utf8(body).unwrap();
    assert!(
        text.contains(r#"{ "by_day": { "buckets": [ { "key": 1, "doc_count": 9 } ] } }"#),
        "the text of a sibling is kept byte for byte: {text}"
    );
}

#[test]
fn a_non_object_response_passes_through_unchanged() {
    let shape = read_shape(&shared_transform());
    assert_eq!(shape_hits(b"[1,2,3]", "orders", &shape, &[]).unwrap(), b"[1,2,3]");
    assert!(shape_hits(b"not json", "orders", &shape, &[]).is_err());
}

#[test]
fn an_answer_without_hits_or_with_a_strange_hits_keeps_its_content() {
    let shape = read_shape(&shared_transform());
    assert_eq!(shape_hits(br#"{ "b": [1, 2], "a": 1 }"#, "orders", &shape, &[]).unwrap(),
        br#"{"a":1,"b":[1, 2]}"#);
    assert_eq!(shape_hits(br#"{"hits":42}"#, "orders", &shape, &[]).unwrap(), br#"{"hits":42}"#);
    assert_eq!(
        shape_hits(br#"{"hits":{"hits":"x"}}"#, "orders", &shape, &[]).unwrap(),
        br#"{"hits":{"hits":"x"}}"#
    );
}
