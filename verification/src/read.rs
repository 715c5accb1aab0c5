//! The read path: turning a routing decision into the operation a cluster runs, and
//! the cluster's answer back into the client's logical view.
//!
//! Mapping an id between its logical and its physical form, and wrapping a query in
//! the partition filter, are done by the rewriting layer; the functions here take
//! what it returned.

use crate::error::{RequestError, RewriteError};
use crate::json::{
    self, field, stripped, text_of, tree, with_field, Members, Node, Object, RawObject, Tree,
};
use crate::text::views;
use crate::types::{
    field_names, id_rule, id_rule_of, injected, injected_fields, names, opt, opts, routing, routing_for,
    BodyTransform, DocIdRule, DocOp, DocView, InjectedField, InjectedValue, ReadOp, Resolved, SearchOp,
    WriteOp,
};
use serde_json::Value;
use vstd::prelude::*;

verus! {

/// What is needed to bring an answer back into the client's view.
#[derive(Debug)]
pub struct ReadShape {
    /// The injected fields, stripped from every document.
    pub inject_names: Vec<String>,
    /// The id rule, where the placement builds physical ids.
    pub id_rule: Option<DocIdRule>,
}

impl ReadShape {
    /// The shape of the documents that `t` stores.
    pub open spec fn of(self, t: BodyTransform) -> bool {
        &&& views(self.inject_names@) == names(injected(t))
        &&& self.id_rule == id_rule(t)
    }
}

/// The shape of the documents a transform stores: the injected names and the id
/// rule.
pub fn read_shape(transform: &BodyTransform) -> (r: ReadShape)
    ensures
        r.of(*transform),
{
    ReadShape {
        inject_names: field_names(injected_fields(transform)),
        id_rule: match id_rule_of(transform) {
            Some(rule) => Some(rule.clone()),
            None => None,
        },
    }
}

/// The physical id of a document: what the id rule maps its logical id to, or the
/// logical id itself where there is no rule. `mapped` is the rule's answer.
pub open spec fn physical_id(
    t: BodyTransform,
    logical: Seq<char>,
    mapped: Result<String, RewriteError>,
) -> Result<Seq<char>, RewriteError> {
    match id_rule(t) {
        None => Ok(logical),
        Some(_) => match mapped {
            Ok(id) => Ok(id@),
            Err(e) => Err(e),
        },
    }
}

/// The physical id and the routing of a by-id request.
fn physical_id_and_routing(
    resolved: &Resolved,
    logical_id: &str,
    mapped: Result<String, RewriteError>,
) -> (r: Result<(String, Option<String>), RequestError>)
    ensures
        match physical_id(resolved.decision.body_transform, logical_id@, mapped) {
            Ok(id) => r is Ok && r->Ok_0.0@ == id && opt(r->Ok_0.1) == routing(
                resolved.decision.body_transform,
                resolved.partition@,
            ),
            Err(e) => r == Err::<(String, Option<String>), _>(RequestError::Rewrite(e)),
        },
{
    let id = match id_rule_of(&resolved.decision.body_transform) {
        Some(_) => match mapped {
            Ok(id) => id,
            Err(e) => {
                return Err(RequestError::Rewrite(e));
            },
        },
        None => logical_id.to_owned(),
    };
    let routing = routing_for(&resolved.decision.body_transform, resolved.partition.as_str());
    Ok((id, routing))
}

/// The fetch for a by-id read, and the shape to bring its answer back with.
/// `mapped` is the physical id the id rule gives; it is not looked at where the
/// placement has no id rule.
pub fn build_read_op(
    resolved: &Resolved,
    logical_id: &str,
    mapped: Result<String, RewriteError>,
) -> (r: Result<(ReadOp, ReadShape), RequestError>)
    ensures
        match physical_id(resolved.decision.body_transform, logical_id@, mapped) {
            Ok(id) => {
                &&& r is Ok
                &&& r->Ok_0.0.target == resolved.decision.target
                &&& r->Ok_0.0.id@ == id
                &&& opt(r->Ok_0.0.routing) == routing(
                    resolved.decision.body_transform,
                    resolved.partition@,
                )
                &&& r->Ok_0.0.protocol == resolved.decision.upstream_protocol
                &&& r->Ok_0.1.of(resolved.decision.body_transform)
            },
            Err(e) => r == Err::<(ReadOp, ReadShape), _>(RequestError::Rewrite(e)),
        },
{
    match physical_id_and_routing(resolved, logical_id, mapped) {
        Ok((id, routing)) => Ok(
            (
                ReadOp {
                    target: resolved.decision.target.clone(),
                    id,
                    routing,
                    protocol: resolved.decision.upstream_protocol,
                },
                read_shape(&resolved.decision.body_transform),
            ),
        ),
        Err(e) => Err(e),
    }
}

/// A delete of the document with the physical id `id`, under `resolved`.
pub open spec fn is_delete(op: WriteOp, resolved: Resolved, id: Seq<char>) -> bool {
    &&& op.follows(resolved)
    &&& op.doc@ == (DocView::Delete {
        id,
        routing: routing(resolved.decision.body_transform, resolved.partition@),
    })
}

/// The delete for a by-id request, stamped with the decision's epoch. `mapped` is as
/// in [`build_read_op`].
pub fn build_delete_op(
    resolved: &Resolved,
    logical_id: &str,
    mapped: Result<String, RewriteError>,
) -> (r: Result<WriteOp, RequestError>)
    ensures
        match physical_id(resolved.decision.body_transform, logical_id@, mapped) {
            Ok(id) => r is Ok && is_delete(r->Ok_0, *resolved, id),
            Err(e) => r == Err::<WriteOp, _>(RequestError::Rewrite(e)),
        },
{
    match physical_id_and_routing(resolved, logical_id, mapped) {
        Ok((id, routing)) => Ok(
            WriteOp {
                target: resolved.decision.target.clone(),
                doc: DocOp::Delete { id, routing },
                epoch: resolved.decision.epoch,
                protocol: resolved.decision.upstream_protocol,
            },
        ),
        Err(e) => Err(e),
    }
}

/// The delete of a document known by its physical id, as a search on the physical
/// index finds it.
pub fn build_delete_op_physical(resolved: &Resolved, physical_id: String) -> (r: WriteOp)
    ensures
        is_delete(r, *resolved, physical_id@),
{
    WriteOp {
        target: resolved.decision.target.clone(),
        doc: DocOp::Delete {
            id: physical_id,
            routing: routing_for(&resolved.decision.body_transform, resolved.partition.as_str()),
        },
        epoch: resolved.decision.epoch,
        protocol: resolved.decision.upstream_protocol,
    }
}

/// The members with those of `_source` stripped of the injected names.
pub open spec fn source_stripped(m: Map<Seq<char>, Tree>, inject: Seq<Seq<char>>) -> Map<
    Seq<char>,
    Tree,
> {
    if m.dom().contains("_source"@) {
        m.insert("_source"@, stripped(m["_source"@], inject))
    } else {
        m
    }
}

/// A stored document as its client knows it: the logical index and id, no
/// `_routing`, and no injected field in `_source`.
pub open spec fn found_view(
    t: Tree,
    index: Seq<char>,
    id: Seq<char>,
    inject: Seq<Seq<char>>,
) -> Tree {
    match t {
        Tree::Object(m) => Tree::Object(
            source_stripped(
                m.insert("_index"@, Tree::Str(index)).insert("_id"@, Tree::Str(id)).remove(
                    "_routing"@,
                ),
                inject,
            ),
        ),
        other => other,
    }
}

/// Strips the injected names from `_source`.
fn strip_source(object: Object, inject_names: &[String]) -> (r: Object)
    ensures
        r@ == source_stripped(object@, views(inject_names@)),
{
    let (source, rest) = object.take("_source");
    match source {
        Some(source) => {
            let kept = rest.with("_source", json::strip_fields(source, inject_names));
            assert(kept@ =~= source_stripped(object@, views(inject_names@)));
            kept
        },
        None => {
            assert(rest@ =~= object@);
            rest
        },
    }
}

/// Shapes a found document into its client's view. Only bytes that are no JSON
/// text fail.
pub fn shape_found(
    upstream_body: &[u8],
    logical_index: &str,
    logical_id: &str,
    inject_names: &[String],
) -> (r: Result<Vec<u8>, RequestError>)
    ensures
        match json::parsed(upstream_body@) {
            Some(t) => r is Ok && r->Ok_0@ == json::written(
                found_view(t, logical_index@, logical_id@, views(inject_names@)),
            ),
            None => r == Err::<Vec<u8>, _>(RequestError::Rewrite(RewriteError::InvalidJson)),
        },
{
    let doc = match json::parse(upstream_body) {
        Some(v) => v,
        None => {
            return Err(RequestError::Rewrite(RewriteError::InvalidJson));
        },
    };
    let shaped = match Members::from_value(doc) {
        Ok(object) => {
            let named = object.with("_index", json::text(logical_index)).with(
                "_id",
                json::text(logical_id),
            ).without("_routing");
            strip_source(named, inject_names).into_value()
        },
        Err(other) => other,
    };
    match json::print(&shaped) {
        Some(body) => Ok(body),
        None => Err(RequestError::Internal { reason: "serializing read response" }),
    }
}

/// The members `_index` and `_id` of a document, in logical terms.
pub open spec fn named(index: Seq<char>, id: Seq<char>) -> Map<Seq<char>, Tree> {
    Map::<Seq<char>, Tree>::empty().insert("_index"@, Tree::Str(index)).insert(
        "_id"@,
        Tree::Str(id),
    )
}

fn named_object(index: &str, id: &str) -> (r: Object)
    ensures
        r@ == named(index@, id@),
{
    Members::new().with("_index", json::text(index)).with("_id", json::text(id))
}

/// The answer to a delete, in logical terms: `not_found` for a 404, else `deleted`.
pub fn shape_delete(logical_index: &str, logical_id: &str, status: u16) -> (r: Vec<u8>)
    ensures
        r@ == json::written(
            Tree::Object(
                named(logical_index@, logical_id@).insert(
                    "result"@,
                    Tree::Str(
                        if status == 404 {
                            "not_found"@
                        } else {
                            "deleted"@
                        },
                    ),
                ),
            ),
        ),
{
    let result = if status == 404 {
        "not_found"
    } else {
        "deleted"
    };
    let doc = named_object(logical_index, logical_id).with("result", json::text(result));
    match json::print(&doc.into_value()) {
        Some(body) => body,
        None => Vec::new(),
    }
}

/// The content of the answer for a document that does not exist.
pub open spec fn not_found_view(index: Seq<char>, id: Seq<char>) -> Tree {
    Tree::Object(named(index, id).insert("found"@, Tree::Bool(false)))
}

pub(crate) fn not_found(logical_index: &str, logical_id: &str) -> (r: Value)
    ensures
        tree(r) == not_found_view(logical_index@, logical_id@),
{
    named_object(logical_index, logical_id).with("found", json::boolean(false)).into_value()
}

/// The answer for a document that does not exist, in logical terms.
pub fn not_found_body(logical_index: &str, logical_id: &str) -> (r: Vec<u8>)
    ensures
        r@ == json::written(not_found_view(logical_index@, logical_id@)),
{
    match json::print(&not_found(logical_index, logical_id)) {
        Some(body) => body,
        None => Vec::new(),
    }
}

/// The fields whose value is the partition: the ones a query is filtered on.
pub open spec fn isolating(fields: Seq<InjectedField>) -> Seq<InjectedField> {
    fields.filter(|f: InjectedField| f.value is PartitionId)
}

/// The terms every query of a partition is filtered on: each field injected with the
/// partition, and the partition. Fields injected with anything else are stripped
/// from hits but never filtered on.
pub fn filter_terms(transform: &BodyTransform, partition: &str) -> (r: Vec<(String, String)>)
    ensures
        r@.len() == isolating(injected(*transform)).len(),
        forall|i: int|
            0 <= i < r@.len() ==> (#[trigger] r@[i]).0@ == isolating(
                injected(*transform),
            )[i].name@ && r@[i].1@ == partition@,
{
    let fields = injected_fields(transform);
    let mut terms: Vec<(String, String)> = Vec::new();
    let mut i: usize = 0;
    assert(isolating(fields@.take(0)) =~= Seq::empty()) by {
        reveal(Seq::filter);
    }
    while i < fields.len()
        invariant
            fields@ == injected(*transform),
            0 <= i <= fields@.len(),
            terms@.len() == isolating(fields@.take(i as int)).len(),
            forall|j: int|
                0 <= j < terms@.len() ==> (#[trigger] terms@[j]).0@ == isolating(
                    fields@.take(i as int),
                )[j].name@ && terms@[j].1@ == partition@,
        decreases fields@.len() - i,
    {
        proof {
            reveal(Seq::filter);
            assert(fields@.take(i + 1).drop_last() =~= fields@.take(i as int));
            assert(fields@.take(i + 1).last() == fields@[i as int]);
        }
        if matches!(fields[i].value, InjectedValue::PartitionId) {
            terms.push((fields[i].name.clone(), partition.to_owned()));
        }
        i += 1;
    }
    assert(fields@.take(i as int) =~= fields@);
    terms
}

/// The search for a resolved request, and the shape to strip its hits with.
/// `wrapped` is the client's body wrapped in the partition filter.
pub fn build_search_op(resolved: &Resolved, wrapped: Result<Vec<u8>, RewriteError>) -> (r: Result<
    (SearchOp, ReadShape),
    RequestError,
>)
    ensures
        match wrapped {
            Ok(body) => {
                &&& r is Ok
                &&& r->Ok_0.0.target == resolved.decision.target
                &&& r->Ok_0.0.body == body
                &&& r->Ok_0.0.query is None
                &&& r->Ok_0.0.protocol == resolved.decision.upstream_protocol
                &&& r->Ok_0.1.of(resolved.decision.body_transform)
            },
            Err(e) => r == Err::<(SearchOp, ReadShape), _>(RequestError::Rewrite(e)),
        },
{
    match wrapped {
        Ok(body) => Ok(
            (
                SearchOp {
                    target: resolved.decision.target.clone(),
                    body,
                    query: None,
                    protocol: resolved.decision.upstream_protocol,
                },
                read_shape(&resolved.decision.body_transform),
            ),
        ),
        Err(e) => Err(RequestError::Rewrite(e)),
    }
}

/// The logical id of the `i`-th hit, as far as the id rule gave one.
pub open spec fn mapped_at(mapped: Seq<Option<Seq<char>>>, i: int) -> Option<Seq<char>> {
    if 0 <= i < mapped.len() {
        mapped[i]
    } else {
        None
    }
}

/// A hit as its client knows it: the logical index, no `_routing`, the logical id
/// where the id rule gives one for a string `_id`, no injected field in `_source`.
pub open spec fn hit_view(
    t: Tree,
    index: Seq<char>,
    has_rule: bool,
    mapped: Option<Seq<char>>,
    inject: Seq<Seq<char>>,
) -> Tree {
    match t {
        Tree::Object(m) => {
            let named = m.insert("_index"@, Tree::Str(index)).remove("_routing"@);
            let renamed = if has_rule && text_of(field(Tree::Object(named), "_id"@)) is Some
                && mapped is Some {
                named.insert("_id"@, Tree::Str(mapped->Some_0))
            } else {
                named
            };
            Tree::Object(source_stripped(renamed, inject))
        },
        other => other,
    }
}

/// The hits of an answer as their client knows them.
pub open spec fn hits_view(
    hits: Seq<Tree>,
    index: Seq<char>,
    has_rule: bool,
    mapped: Seq<Option<Seq<char>>>,
    inject: Seq<Seq<char>>,
) -> Seq<Tree> {
    Seq::new(
        hits.len(),
        |i: int| hit_view(hits[i], index, has_rule, mapped_at(mapped, i), inject),
    )
}

/// Shapes one hit into its client's view. `mapped` is the logical id the id rule
/// gives for the hit's physical id.
pub fn shape_hit(
    hit: Value,
    logical_index: &str,
    shape: &ReadShape,
    mapped: &Option<String>,
) -> (r: Value)
    ensures
        tree(r) == hit_view(
            tree(hit),
            logical_index@,
            shape.id_rule is Some,
            opt(*mapped),
            views(shape.inject_names@),
        ),
{
    let object = match Members::from_value(hit) {
        Ok(object) => object,
        Err(other) => {
            return other;
        },
    };
    let named = object.with("_index", json::text(logical_index)).without("_routing");
    let has_id = match named.get("_id") {
        Some(id) => json::as_str(id).is_some(),
        None => false,
    };
    let renamed = match mapped {
        Some(logical) => if shape.id_rule.is_some() && has_id {
            named.with("_id", json::text(logical.as_str()))
        } else {
            named
        },
        None => named,
    };
    strip_source(renamed, shape.inject_names.as_slice()).into_value()
}

/// Shapes the hits of an array, each with the logical id at its position.
fn shape_all(
    hits: Vec<Value>,
    logical_index: &str,
    shape: &ReadShape,
    mapped: &[Option<String>],
) -> (r: Vec<Value>)
    ensures
        json::trees(r@) == hits_view(
            json::trees(hits@),
            logical_index@,
            shape.id_rule is Some,
            opts(mapped@),
            views(shape.inject_names@),
        ),
{
    let mut out: Vec<Value> = Vec::new();
    let absent: Option<String> = None;
    let ghost all = hits@;
    for hit in it: hits
        invariant
            it.seq() == all,
            absent is None,
            out@.len() == it.index(),
            forall|j: int|
                0 <= j < out@.len() ==> tree(#[trigger] out@[j]) == hit_view(
                    tree(all[j]),
                    logical_index@,
                    shape.id_rule is Some,
                    mapped_at(opts(mapped@), j),
                    views(shape.inject_names@),
                ),
    {
        let at = out.len();
        let logical = if at < mapped.len() {
            &mapped[at]
        } else {
            &absent
        };
        out.push(shape_hit(hit, logical_index, shape, logical));
    }
    assert(json::trees(out@) =~= hits_view(
        json::trees(all),
        logical_index@,
        shape.id_rule is Some,
        opts(mapped@),
        views(shape.inject_names@),
    ));
    out
}

/// The `hits` object of an answer with the hits of its `hits` array shaped.
pub open spec fn envelope_view(
    t: Tree,
    index: Seq<char>,
    has_rule: bool,
    mapped: Seq<Option<Seq<char>>>,
    inject: Seq<Seq<char>>,
) -> Tree {
    match field(t, "hits"@) {
        Some(Tree::Array(hits)) => with_field(
            t,
            "hits"@,
            Tree::Array(hits_view(hits, index, has_rule, mapped, inject)),
        ),
        _ => t,
    }
}

fn shape_envelope(
    hits: Value,
    logical_index: &str,
    shape: &ReadShape,
    mapped: &[Option<String>],
) -> (r: Value)
    ensures
        tree(r) == envelope_view(
            tree(hits),
            logical_index@,
            shape.id_rule is Some,
            opts(mapped@),
            views(shape.inject_names@),
        ),
{
    let object = match Members::from_value(hits) {
        Ok(object) => object,
        Err(other) => {
            return other;
        },
    };
    let (inner, rest) = object.take("hits");
    match inner {
        None => {
            assert(rest@ =~= object@);
            rest.into_value()
        },
        Some(inner) => {
            let shaped = match json::open(inner) {
                Node::Array(all) => json::close(
                    Node::Array(shape_all(all, logical_index, shape, mapped)),
                ),
                Node::Str(s) => json::close(Node::Str(s)),
                Node::Object(m) => json::close(Node::Object(m)),
                Node::Other(o) => o,
            };
            let whole = rest.with("hits", shaped);
            assert(whole@ =~= object@.insert("hits"@, tree(shaped)));
            assert(object@ =~= object@.insert("hits"@, object@["hits"@]));
            whole.into_value()
        },
    }
}

/// The raw members of an answer with its hits shaped. Every other member keeps its
/// text.
pub open spec fn answer_view(
    top: Map<Seq<char>, Seq<char>>,
    envelope: Tree,
    index: Seq<char>,
    has_rule: bool,
    mapped: Seq<Option<Seq<char>>>,
    inject: Seq<Seq<char>>,
) -> Map<Seq<char>, Seq<char>> {
    top.insert("hits"@, json::raw_of(envelope_view(envelope, index, has_rule, mapped, inject)))
}

/// The content of an answer's `hits` member.
pub open spec fn envelope_of(top: Map<Seq<char>, Seq<char>>) -> Option<Tree> {
    json::parsed(vstd::utf8::encode_utf8(top["hits"@]))
}

/// What an answer becomes once its hits are shaped; `None` where it is no JSON text.
pub open spec fn shaped_answer(
    body: Seq<u8>,
    index: Seq<char>,
    has_rule: bool,
    mapped: Seq<Option<Seq<char>>>,
    inject: Seq<Seq<char>>,
) -> Option<Seq<u8>> {
    match json::raw_members(body) {
        None => if json::is_json_text(body) {
            Some(body)
        } else {
            None
        },
        Some(top) => if !top.dom().contains("hits"@) {
            Some(json::raw_written(top))
        } else {
            match envelope_of(top) {
                Some(envelope) => Some(
                    json::raw_written(answer_view(top, envelope, index, has_rule, mapped, inject)),
                ),
                None => None,
            }
        },
    }
}

/// Shapes the hits of a search answer into their client's view. Only the `hits`
/// member is read; the others are kept as raw text. A JSON text that is no object is
/// passed through. `mapped` holds, hit by hit, the logical id the id rule gives. Who
/// reads the shaped answer finds every member but `hits` with the text it had.
pub fn shape_hits(
    upstream_body: &[u8],
    logical_index: &str,
    shape: &ReadShape,
    mapped: &[Option<String>],
) -> (r: Result<Vec<u8>, RequestError>)
    ensures
        match shaped_answer(
            upstream_body@,
            logical_index@,
            shape.id_rule is Some,
            opts(mapped@),
            views(shape.inject_names@),
        ) {
            Some(body) => r is Ok && r->Ok_0@ == body,
            None => r == Err::<Vec<u8>, _>(RequestError::Rewrite(RewriteError::InvalidJson)),
        },
        r matches Ok(shaped) ==> match json::raw_members(upstream_body@) {
            Some(top) => json::raw_members(shaped@) is Some && forall|k: Seq<char>|
                k != "hits"@ && #[trigger] top.dom().contains(k) ==> json::raw_members(
                    shaped@,
                )->Some_0.dom().contains(k) && json::raw_members(shaped@)->Some_0[k]
                    == top[k],
            None => shaped@ == upstream_body@,
        },
{
    let top = match RawObject::read(upstream_body) {
        Some(top) => top,
        None => {
            return if json::is_json(upstream_body) {
                Ok(crate::types::clone_bytes(upstream_body))
            } else {
                Err(RequestError::Rewrite(RewriteError::InvalidJson))
            };
        },
    };
    let (hits, rest) = top.take("hits");
    let whole = match hits {
        None => {
            assert(rest@ =~= top@);
            rest
        },
        Some(raw) => {
            let envelope = match json::parse(json::raw_bytes(&*raw)) {
                Some(v) => v,
                None => {
                    return Err(RequestError::Rewrite(RewriteError::InvalidJson));
                },
            };
            let shaped = shape_envelope(envelope, logical_index, shape, mapped);
            match json::to_raw(&shaped) {
                Some(text) => {
                    let whole = rest.with("hits", text);
                    assert(whole@ =~= answer_view(
                        top@,
                        tree(envelope),
                        logical_index@,
                        shape.id_rule is Some,
                        opts(mapped@),
                        views(shape.inject_names@),
                    ));
                    whole
                },
                None => {
                    return Err(RequestError::Internal { reason: "serializing search response" });
                },
            }
        },
    };
    match whole.write() {
        Some(body) => Ok(body),
        None => Err(RequestError::Internal { reason: "serializing search response" }),
    }
}

/// The physical ids of an answer's hits, where they are strings.
pub open spec fn physical_ids(body: Seq<u8>) -> Seq<Option<Seq<char>>> {
    match json::raw_members(body) {
        Some(top) => if top.dom().contains("hits"@) {
            match envelope_of(top) {
                Some(envelope) => match field(envelope, "hits"@) {
                    Some(Tree::Array(hits)) => Seq::new(
                        hits.len(),
                        |i: int| text_of(field(hits[i], "_id"@)),
                    ),
                    _ => Seq::empty(),
                },
                None => Seq::empty(),
            }
        } else {
            Seq::empty()
        },
        None => Seq::empty(),
    }
}

/// The physical id of each hit of a search answer, in order: what the id rule is to
/// map before [`shape_hits`].
pub fn hit_ids(upstream_body: &[u8]) -> (r: Vec<Option<String>>)
    ensures
        opts(r@) == physical_ids(upstream_body@),
{
    let mut ids: Vec<Option<String>> = Vec::new();
    assert(opts(ids@) =~= Seq::empty());
    let top = match RawObject::read(upstream_body) {
        Some(top) => top,
        None => {
            return ids;
        },
    };
    let raw = match top.take("hits").0 {
        Some(raw) => raw,
        None => {
            return ids;
        },
    };
    let envelope = match json::parse(json::raw_bytes(&*raw)) {
        Some(v) => v,
        None => {
            return ids;
        },
    };
    let hits = match json::get(&envelope, "hits") {
        Some(inner) => match json::as_array(inner) {
            Some(hits) => hits,
            None => {
                return ids;
            },
        },
        None => {
            return ids;
        },
    };
    let mut i: usize = 0;
    while i < hits.len()
        invariant
            0 <= i <= hits@.len(),
            ids@.len() == i,
            forall|j: int|
                0 <= j < i ==> opt(#[trigger] ids@[j]) == text_of(field(tree(hits@[j]), "_id"@)),
        decreases hits@.len() - i,
    {
        let id = match json::field_text(&hits[i], "_id") {
            Some(id) => Some(id.to_owned()),
            None => None,
        };
        ids.push(id);
        i += 1;
    }
    assert(opts(ids@) =~= physical_ids(upstream_body@));
    ids
}

} // verus!
