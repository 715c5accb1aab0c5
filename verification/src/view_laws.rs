//! What reads and searches are for, said of the calls themselves: which document or index is
//! asked, and that its client sees all of what is its own and nothing else.

use crate::bulk_laws::{builds_ids, has_fields, keeps_ids, routed};
use crate::endpoints::{counted, get_by_id, got, search, searched, Lookup, Shaped};
use crate::error::{RequestError, RewriteError};
use crate::json::{self, field, tree, Tree};
use crate::read::{
    build_read_op, build_search_op, filter_terms, hit_ids, read_shape, shape_found, shape_hit,
    shape_hits, ReadShape,
};
use crate::search_scan::HitShaper;
use crate::text::{decimal_text, views};
use crate::types::{
    BodyTransform, CountOutcome, DocIdRule, InjectedField, ReadOp, ReadOutcome, RequestCtx,
    Resolved, SearchOp, SearchOutcome,
};
use crate::pipeline::PipelineResponse;
use serde_json::Value;
use vstd::prelude::*;
use vstd::utf8::encode_utf8;

verus! {

/// `k` is one of the names.
pub open spec fn listed(names: Seq<String>, k: Seq<char>) -> bool {
    exists|i: int| 0 <= i < names.len() && (#[trigger] names[i])@ == k
}

proof fn lemma_listed(names: Seq<String>, k: Seq<char>)
    ensures
        views(names).contains(k) == listed(names, k),
{
    let v = views(names);
    if v.contains(k) {
        let i = choose|i: int| 0 <= i < v.len() && v[i] == k;
        assert(names[i]@ == k);
    }
    if listed(names, k) {
        let i = choose|i: int| 0 <= i < names.len() && (#[trigger] names[i])@ == k;
        assert(v[i] == k);
    }
}

/// `to` has the member `k` of `from`, with the same value, or both have none.
pub open spec fn same_member(from: Map<Seq<char>, Tree>, to: Map<Seq<char>, Tree>, k: Seq<char>) -> bool {
    &&& to.dom().contains(k) <==> from.dom().contains(k)
    &&& from.dom().contains(k) ==> to[k] == from[k]
}

/// A stored source as its client sees it: every member that is not injected, with the value
/// it was stored with, and no other. What is no object is shown as it is.
pub open spec fn shows_source(from: Tree, names: Seq<String>, to: Tree) -> bool {
    match from {
        Tree::Object(s) => {
            &&& to matches Tree::Object(v)
            &&& forall|k: Seq<char>| #[trigger]
                v.dom().contains(k) <==> s.dom().contains(k) && !listed(names, k)
            &&& forall|k: Seq<char>| #[trigger] v.dom().contains(k) ==> v[k] == s[k]
        },
        other => to == other,
    }
}

proof fn lemma_source(from: Tree, names: Seq<String>)
    ensures
        shows_source(from, names, json::stripped(from, views(names))),
{
    if let Tree::Object(s) = from {
        let v = json::stripped(from, views(names))->Object_0;
        assert forall|k: Seq<char>| #[trigger] v.dom().contains(k) <==> s.dom().contains(k) && !listed(
            names,
            k,
        ) by {
            lemma_listed(names, k);
        }
    }
}

proof fn lemma_member_names()
    ensures
        "_index"@ != "_id"@,
        "_index"@ != "_routing"@,
        "_index"@ != "_source"@,
        "_id"@ != "_routing"@,
        "_id"@ != "_source"@,
        "_routing"@ != "_source"@,
{
    reveal_strlit("_index");
    reveal_strlit("_id");
    reveal_strlit("_routing");
    reveal_strlit("_source");
    assert("_index"@.len() == 6 && "_id"@.len() == 3);
    assert("_routing"@.len() == 8 && "_source"@.len() == 7);
}

/// The members that a document and a hit have in common, as their client sees them: the
/// logical index, no `_routing`, the source where there is one, and everything else as it is
/// stored, but for the id.
pub open spec fn shows_members(
    m: Map<Seq<char>, Tree>,
    index: Seq<char>,
    names: Seq<String>,
    v: Map<Seq<char>, Tree>,
) -> bool {
    &&& v.dom().contains("_index"@) && v["_index"@] == Tree::Str(index)
    &&& !v.dom().contains("_routing"@)
    &&& v.dom().contains("_source"@) <==> m.dom().contains("_source"@)
    &&& m.dom().contains("_source"@) ==> shows_source(m["_source"@], names, v["_source"@])
    &&& forall|k: Seq<char>|
        k != "_index"@ && k != "_id"@ && k != "_routing"@ && k != "_source"@ ==> #[trigger] same_member(
            m,
            v,
            k,
        )
}

/// A hit as its client sees it, with or without an id rule: all of it, less what is
/// injected, under the logical index, and with the mapped id where the rule gives one for a
/// text.
pub open spec fn shows_hit(
    from: Tree,
    index: Seq<char>,
    has_rule: bool,
    mapped: Option<Seq<char>>,
    names: Seq<String>,
    to: Tree,
) -> bool {
    match from {
        Tree::Object(m) => {
            &&& to matches Tree::Object(v)
            &&& shows_members(m, index, names, v)
            &&& if has_rule && mapped is Some && m.dom().contains("_id"@) && m["_id"@] is Str {
                v.dom().contains("_id"@) && v["_id"@] == Tree::Str(mapped->Some_0)
            } else {
                same_member(m, v, "_id"@)
            }
        },
        other => to == other,
    }
}

/// A document that was read as its client sees it: all of it, less what is injected, under
/// the logical index and id.
pub open spec fn shows_document(
    from: Tree,
    index: Seq<char>,
    id: Seq<char>,
    names: Seq<String>,
    to: Tree,
) -> bool {
    match from {
        Tree::Object(m) => {
            &&& to matches Tree::Object(v)
            &&& shows_members(m, index, names, v)
            &&& v.dom().contains("_id"@) && v["_id"@] == Tree::Str(id)
        },
        other => to == other,
    }
}

pub proof fn lemma_hit_view(
    from: Tree,
    index: Seq<char>,
    has_rule: bool,
    mapped: Option<Seq<char>>,
    names: Seq<String>,
)
    ensures
        shows_hit(
            from,
            index,
            has_rule,
            mapped,
            names,
            crate::read::hit_view(from, index, has_rule, mapped, views(names)),
        ),
{
    lemma_member_names();
    if let Tree::Object(m) = from {
        lemma_source(m["_source"@], names);
    }
}

pub proof fn lemma_found_view(from: Tree, index: Seq<char>, id: Seq<char>, names: Seq<String>)
    ensures
        shows_document(
            from,
            index,
            id,
            names,
            crate::read::found_view(from, index, id, views(names)),
        ),
{
    lemma_member_names();
    if let Tree::Object(m) = from {
        lemma_source(m["_source"@], names);
    }
}

/// The text of an optional string.
pub open spec fn text_in_option(s: Option<String>) -> Option<Seq<char>> {
    if s is Some {
        Some(s->Some_0@)
    } else {
        None
    }
}

/// A shaped hit shows its client all of the stored hit, whether or not there is an id rule:
/// its document, less the injected fields and nothing more, and every other member.
pub proof fn law_a_hit_keeps_its_document(
    hit: Value,
    index: &str,
    shape: &ReadShape,
    mapped: &Option<String>,
    r: Value,
)
    requires
        call_ensures(shape_hit, (hit, index, shape, mapped), r),
    ensures
        shows_hit(
            tree(hit),
            index@,
            shape.id_rule is Some,
            text_in_option(*mapped),
            shape.inject_names@,
            tree(r),
        ),
{
    lemma_hit_view(
        tree(hit),
        index@,
        shape.id_rule is Some,
        text_in_option(*mapped),
        shape.inject_names@,
    );
}

/// A document that was read shows its client all of what is stored, less the injected fields
/// and nothing more.
pub proof fn law_a_document_is_shown_whole(
    body: &[u8],
    index: &str,
    id: &str,
    names: &[String],
    r: Result<Vec<u8>, RequestError>,
)
    requires
        call_ensures(shape_found, (body, index, id, names), r),
    ensures
        r is Ok <==> json::parsed(body@) is Some,
        r is Err ==> r == Err::<Vec<u8>, _>(RequestError::Rewrite(RewriteError::InvalidJson)),
        r is Ok ==> exists|to: Tree|
            r->Ok_0@ == #[trigger] json::written(to) && shows_document(
                json::parsed(body@)->Some_0,
                index@,
                id@,
                names@,
                to,
            ),
{
    if let Some(t) = json::parsed(body@) {
        lemma_found_view(t, index@, id@, names@);
        assert(r->Ok_0@ == json::written(
            crate::read::found_view(t, index@, id@, views(names@)),
        ));
    }
}

/// A fetch asks for the document its client names, where the request was resolved to: under
/// the client's own id without an id rule, else under what the rule maps it to.
pub proof fn law_a_fetch_is_for_the_document_named(
    resolved: &Resolved,
    id: &str,
    mapped: Result<String, RewriteError>,
    r: Result<(ReadOp, ReadShape), RequestError>,
)
    requires
        call_ensures(build_read_op, (resolved, id, mapped), r),
    ensures
        ({
            let t = resolved.decision.body_transform;
            &&& r is Ok <==> keeps_ids(t) || mapped is Ok
            &&& r is Err ==> r == Err::<(ReadOp, ReadShape), _>(RequestError::Rewrite(mapped->Err_0))
            &&& r matches Ok((op, shape)) ==> {
                &&& op.target == resolved.decision.target
                &&& op.protocol == resolved.decision.upstream_protocol
                &&& keeps_ids(t) ==> op.id@ == id@
                &&& !keeps_ids(t) ==> op.id@ == mapped->Ok_0@
                &&& routed(t, resolved.partition@, text_in_option(op.routing))
                &&& strips_what_it_injects(t, shape)
            }
        }),
{
    if r is Ok {
        lemma_shape(resolved.decision.body_transform, r->Ok_0.1);
    }
}

/// What is stripped on the way out is what is injected on the way in, field by field, and
/// ids are mapped back by the rule they are built by.
pub open spec fn strips_what_it_injects(t: BodyTransform, shape: ReadShape) -> bool {
    &&& t is Verbatim || t is ConstructId ==> shape.inject_names@.len() == 0
    &&& forall|fields: Seq<InjectedField>| #[trigger]
        has_fields(t, fields) ==> {
            &&& shape.inject_names@.len() == fields.len()
            &&& forall|i: int|
                0 <= i < fields.len() ==> (#[trigger] shape.inject_names@[i])@ == fields[i].name@
        }
    &&& keeps_ids(t) ==> shape.id_rule is None
    &&& forall|rule: DocIdRule| #[trigger] builds_ids(t, rule) ==> shape.id_rule == Some(rule)
}

pub proof fn lemma_shape(t: BodyTransform, shape: ReadShape)
    requires
        shape.of(t),
    ensures
        strips_what_it_injects(t, shape),
{
    let fields = crate::types::injected(t);
    let v = views(shape.inject_names@);
    assert(v.len() == shape.inject_names@.len());
    assert(crate::types::names(fields).len() == fields.len());
    assert forall|i: int| 0 <= i < fields.len() implies (#[trigger] shape.inject_names@[i])@
        == fields[i].name@ by {
        assert(v[i] == shape.inject_names@[i]@);
        assert(crate::types::names(fields)[i] == fields[i].name@);
    }
}

/// The shape of a transform strips exactly what the transform injects.
pub proof fn law_what_is_injected_is_stripped(t: &BodyTransform, r: ReadShape)
    requires
        call_ensures(read_shape, (t,), r),
    ensures
        strips_what_it_injects(*t, r),
{
    lemma_shape(*t, r);
}

/// A read by id asks for the document that the path names and remembers how its client knows
/// it.
pub proof fn law_a_read_is_for_the_document_named(
    ctx: &RequestCtx,
    resolved: &Resolved,
    mapped: Result<String, RewriteError>,
    r: Result<Lookup, RequestError>,
)
    requires
        call_ensures(get_by_id, (ctx, resolved, mapped), r),
    ensures
        ({
            let t = resolved.decision.body_transform;
            &&& r is Ok <==> ctx.doc_id is Some && (keeps_ids(t) || mapped is Ok)
            &&& r matches Ok(found) ==> {
                &&& found.logical_id@ == ctx.doc_id->Some_0@
                &&& found.op.target == resolved.decision.target
                &&& found.op.protocol == resolved.decision.upstream_protocol
                &&& keeps_ids(t) ==> found.op.id@ == ctx.doc_id->Some_0@
                &&& !keeps_ids(t) ==> found.op.id@ == mapped->Ok_0@
                &&& routed(t, resolved.partition@, text_in_option(found.op.routing))
                &&& strips_what_it_injects(t, found.shape)
            }
        }),
{
    if r is Ok {
        lemma_shape(resolved.decision.body_transform, r->Ok_0.shape);
    }
}

/// The answer to a read by id: the whole document as its client sees it, with 200, or that
/// there is none under this index and id, with 404.
pub proof fn law_a_read_is_answered_with_the_document(
    ctx: &RequestCtx,
    lookup: &Lookup,
    outcome: &ReadOutcome,
    r: Result<PipelineResponse, RequestError>,
)
    requires
        call_ensures(got, (ctx, lookup, outcome), r),
    ensures
        r is Ok <==> !outcome.found || json::parsed(outcome.body@) is Some,
        r matches Ok(a) ==> a.content_type is None && (a.status == 200 <==> outcome.found) && (a.status
            == 404 <==> !outcome.found),
        !outcome.found ==> r->Ok_0.body@ == json::written(
            Tree::Object(
                map![
                    "_index"@ => Tree::Str(ctx.logical_index@),
                    "_id"@ => Tree::Str(lookup.logical_id@),
                    "found"@ => Tree::Bool(false),
                ],
            ),
        ),
        outcome.found && r is Ok ==> exists|to: Tree|
            r->Ok_0.body@ == #[trigger] json::written(to) && shows_document(
                json::parsed(outcome.body@)->Some_0,
                ctx.logical_index@,
                lookup.logical_id@,
                lookup.shape.inject_names@,
                to,
            ),
{
    let index = ctx.logical_index@;
    let id = lookup.logical_id@;
    assert(crate::read::named(index, id).insert("found"@, Tree::Bool(false)) =~= map![
        "_index"@ => Tree::Str(index),
        "_id"@ => Tree::Str(id),
        "found"@ => Tree::Bool(false),
    ]);
    if outcome.found {
        if let Some(t) = json::parsed(outcome.body@) {
            lemma_found_view(t, index, id, lookup.shape.inject_names@);
            assert(r->Ok_0.body@ == json::written(
                crate::read::found_view(t, index, id, views(lookup.shape.inject_names@)),
            ));
        }
    }
}

/// Every query of a partition is filtered on every field that is injected with the
/// partition, by its name and with the partition for a value, and on nothing else.
pub proof fn law_queries_are_filtered_on_the_partition(
    t: &BodyTransform,
    partition: &str,
    fields: Seq<InjectedField>,
    r: Vec<(String, String)>,
)
    requires
        call_ensures(filter_terms, (t, partition), r),
    ensures
        t is Verbatim || t is ConstructId ==> r@.len() == 0,
        forall|j: int| 0 <= j < r@.len() ==> (#[trigger] r@[j]).1@ == partition@,
        has_fields(*t, fields) ==> {
            &&& forall|i: int|
                0 <= i < fields.len() && (#[trigger] fields[i]).value is PartitionId ==> filters_on(
                    r@,
                    fields[i].name@,
                )
            &&& forall|j: int|
                0 <= j < r@.len() ==> isolates(fields, (#[trigger] r@[j]).0@)
        },
{
    reveal(Seq::filter);
    let kept = |f: InjectedField| f.value is PartitionId;
    let all = crate::types::injected(*t);
    let terms = crate::read::isolating(all);
    assert(terms == all.filter(kept));
    if t is Verbatim || t is ConstructId {
        assert(all =~= Seq::empty());
        all.lemma_filter_len(kept);
    }
    if has_fields(*t, fields) {
        assert(all == fields);
        assert forall|i: int| 0 <= i < fields.len() && (
        #[trigger] fields[i]).value is PartitionId implies filters_on(r@, fields[i].name@) by {
            fields.lemma_filter_contains(kept, i);
            assert(terms.contains(fields[i]));
            let j = choose|j: int| 0 <= j < terms.len() && terms[j] == fields[i];
            assert(r@[j].0@ == fields[i].name@);
        }
        assert forall|j: int| 0 <= j < r@.len() implies isolates(fields, (#[trigger] r@[j]).0@) by {
            let f = terms[j];
            fields.lemma_filter_pred(kept, j);
            assert(terms.contains(f));
            fields.lemma_filter_contains_rev(kept, f);
            let i = choose|i: int| 0 <= i < fields.len() && fields[i] == f;
            assert(fields[i].name@ == r@[j].0@);
        }
    }
}

/// Some term is on the field `name`.
pub open spec fn filters_on(terms: Seq<(String, String)>, name: Seq<char>) -> bool {
    exists|j: int| 0 <= j < terms.len() && (#[trigger] terms[j]).0@ == name
}

/// The field `name` is injected with the partition.
pub open spec fn isolates(fields: Seq<InjectedField>, name: Seq<char>) -> bool {
    exists|i: int|
        0 <= i < fields.len() && (#[trigger] fields[i]).value is PartitionId && fields[i].name@ == name
}

/// A search asks where the request was resolved to, with the client's body as it was wrapped
/// in the partition filter.
pub proof fn law_a_search_asks_with_the_wrapped_body(
    ctx: &RequestCtx,
    resolved: &Resolved,
    wrapped: Result<Vec<u8>, RewriteError>,
    r: Result<(SearchOp, ReadShape), RequestError>,
    plain: Result<(SearchOp, ReadShape), RequestError>,
)
    requires
        call_ensures(search, (ctx, resolved, wrapped), r),
        call_ensures(build_search_op, (resolved, wrapped), plain),
    ensures
        r is Ok <==> wrapped is Ok,
        plain is Ok <==> wrapped is Ok,
        wrapped matches Err(e) ==> r == Err::<(SearchOp, ReadShape), _>(RequestError::Rewrite(e))
            && plain == Err::<(SearchOp, ReadShape), _>(RequestError::Rewrite(e)),
        wrapped matches Ok(body) ==> {
            &&& r->Ok_0.0.target == resolved.decision.target
            &&& r->Ok_0.0.body@ == body@
            &&& r->Ok_0.0.protocol == resolved.decision.upstream_protocol
            &&& strips_what_it_injects(resolved.decision.body_transform, r->Ok_0.1)
            &&& plain->Ok_0.0.target == resolved.decision.target
            &&& plain->Ok_0.0.body@ == body@
            &&& plain->Ok_0.0.query is None
            &&& plain->Ok_0.0.protocol == resolved.decision.upstream_protocol
            &&& strips_what_it_injects(resolved.decision.body_transform, plain->Ok_0.1)
        },
{
    if wrapped is Ok {
        lemma_shape(resolved.decision.body_transform, r->Ok_0.1);
        lemma_shape(resolved.decision.body_transform, plain->Ok_0.1);
    }
}

/// The logical id at a position, as far as there is one.
pub open spec fn id_at(mapped: Seq<Option<String>>, i: int) -> Option<Seq<char>> {
    if 0 <= i < mapped.len() {
        text_in_option(mapped[i])
    } else {
        None
    }
}

/// The hits as their client sees them: each one, in its place.
pub open spec fn shows_hits(
    from: Seq<Tree>,
    index: Seq<char>,
    shape: ReadShape,
    mapped: Seq<Option<String>>,
    to: Seq<Tree>,
) -> bool {
    &&& to.len() == from.len()
    &&& forall|i: int|
        0 <= i < from.len() ==> shows_hit(
            from[i],
            index,
            shape.id_rule is Some,
            id_at(mapped, i),
            shape.inject_names@,
            #[trigger] to[i],
        )
}

/// The `hits` of an answer as their client sees them: every hit of the list shown in its
/// place, and all else as it was.
pub open spec fn shows_envelope(
    from: Tree,
    index: Seq<char>,
    shape: ReadShape,
    mapped: Seq<Option<String>>,
    to: Tree,
) -> bool {
    match from {
        Tree::Object(m) => if m.dom().contains("hits"@) && m["hits"@] is Array {
            &&& to matches Tree::Object(v)
            &&& v.dom().contains("hits"@)
            &&& v["hits"@] matches Tree::Array(hits)
            &&& shows_hits(m["hits"@]->Array_0, index, shape, mapped, hits)
            &&& forall|k: Seq<char>| k != "hits"@ ==> #[trigger] same_member(m, v, k)
        } else {
            to == from
        },
        other => to == other,
    }
}

/// The answer to a search as its client sees it: only its `hits` are shaped, and every
/// other member keeps its text. An answer that is no object is passed on as it is.
pub open spec fn shows_answer(
    body: Seq<u8>,
    index: Seq<char>,
    shape: ReadShape,
    mapped: Seq<Option<String>>,
    to: Seq<u8>,
) -> bool {
    match json::raw_members(body) {
        None => to == body,
        Some(top) => if top.dom().contains("hits"@) {
            exists|shown: Tree|
                {
                    &&& to == #[trigger] json::raw_written(top.insert("hits"@, json::raw_of(shown)))
                    &&& json::parsed(encode_utf8(top["hits"@])) is Some
                    &&& shows_envelope(
                        json::parsed(encode_utf8(top["hits"@]))->Some_0,
                        index,
                        shape,
                        mapped,
                        shown,
                    )
                }
        } else {
            to == json::raw_written(top)
        },
    }
}

/// An answer cannot be shaped: it is no JSON text, or its `hits` are none.
pub open spec fn unreadable(body: Seq<u8>) -> bool {
    match json::raw_members(body) {
        None => !json::is_json_text(body),
        Some(top) => top.dom().contains("hits"@) && json::parsed(encode_utf8(top["hits"@])) is None,
    }
}

pub proof fn lemma_answer(
    body: Seq<u8>,
    index: Seq<char>,
    shape: ReadShape,
    mapped: Seq<Option<String>>,
)
    ensures
        ({
            let r = crate::read::shaped_answer(
                body,
                index,
                shape.id_rule is Some,
                crate::types::opts(mapped),
                views(shape.inject_names@),
            );
            &&& r is None <==> unreadable(body)
            &&& r matches Some(to) ==> shows_answer(body, index, shape, mapped, to)
        }),
{
    let rule = shape.id_rule is Some;
    let names = views(shape.inject_names@);
    let ids = crate::types::opts(mapped);
    assert forall|i: int| #[trigger] crate::read::mapped_at(ids, i) == id_at(mapped, i) by {
        if 0 <= i < mapped.len() {
            assert(ids[i] == text_in_option(mapped[i]));
        }
    }
    if let Some(top) = json::raw_members(body) {
        if top.dom().contains("hits"@) {
            if let Some(envelope) = json::parsed(encode_utf8(top["hits"@])) {
                let shown = crate::read::envelope_view(envelope, index, rule, ids, names);
                if let Some(Tree::Array(hits)) = field(envelope, "hits"@) {
                    let to = crate::read::hits_view(hits, index, rule, ids, names);
                    assert forall|i: int| 0 <= i < hits.len() implies shows_hit(
                        hits[i],
                        index,
                        rule,
                        id_at(mapped, i),
                        shape.inject_names@,
                        #[trigger] to[i],
                    ) by {
                        lemma_hit_view(hits[i], index, rule, id_at(mapped, i), shape.inject_names@);
                        assert(crate::read::mapped_at(ids, i) == id_at(mapped, i));
                    }
                }
                assert(shows_envelope(envelope, index, shape, mapped, shown));
                assert(crate::read::shaped_answer(body, index, rule, ids, names) == Some(
                    json::raw_written(top.insert("hits"@, json::raw_of(shown))),
                ));
            }
        }
    }
}

/// A search answer is shown with every one of its hits in its place, each whole, and with
/// all else it says; only one that cannot be read fails.
pub proof fn law_a_search_answer_is_shown_whole(
    body: &[u8],
    index: &str,
    shape: &ReadShape,
    mapped: &[Option<String>],
    r: Result<Vec<u8>, RequestError>,
)
    requires
        call_ensures(shape_hits, (body, index, shape, mapped), r),
    ensures
        r is Err <==> unreadable(body@),
        r matches Err(e) ==> (e matches RequestError::Rewrite(x) && x
            == crate::error::RewriteError::InvalidJson),
        r is Err ==> r == Err::<Vec<u8>, _>(RequestError::Rewrite(RewriteError::InvalidJson)),
        r matches Ok(to) ==> shows_answer(body@, index@, *shape, mapped@, to@),
{
    lemma_answer(body@, index@, *shape, mapped@);
}

/// A buffered search shows the same: the cluster's status, and the answer as its client sees
/// it.
pub proof fn law_a_buffered_search_shows_its_answer(
    ctx: &RequestCtx,
    shape: &ReadShape,
    outcome: &SearchOutcome,
    mapped: &[Option<String>],
    affinity: bool,
    r: Result<Shaped, RequestError>,
)
    requires
        call_ensures(searched, (ctx, shape, outcome, mapped, affinity), r),
    ensures
        r is Err <==> unreadable(outcome.body@),
        r matches Err(e) ==> (e matches RequestError::Rewrite(x) && x
            == crate::error::RewriteError::InvalidJson),
        r matches Ok(a) ==> a.status == outcome.status && shows_answer(
            outcome.body@,
            ctx.logical_index@,
            *shape,
            mapped@,
            a.body@,
        ) && (!affinity ==> a.cursor_id is None),
{
    lemma_answer(outcome.body@, ctx.logical_index@, *shape, mapped@);
}

/// A streamed hit shows the same as a buffered one; what cannot be read is passed on as it
/// came.
pub proof fn law_a_streamed_hit_keeps_its_document(
    shaper: &HitShaper,
    raw: &[u8],
    mapped: &Option<String>,
    r: Vec<u8>,
)
    requires
        call_ensures(HitShaper::transform, (shaper, raw, mapped), r),
    ensures
        json::parsed(raw@) is None ==> r@ == raw@,
        json::parsed(raw@) is Some ==> exists|to: Tree|
            r@ == #[trigger] json::written(to) && shows_hit(
                json::parsed(raw@)->Some_0,
                shaper.logical_index@,
                shaper.shape.id_rule is Some,
                text_in_option(*mapped),
                shaper.shape.inject_names@,
                to,
            ),
{
    if let Some(t) = json::parsed(raw@) {
        let rule = shaper.shape.id_rule is Some;
        let names = shaper.shape.inject_names@;
        lemma_hit_view(t, shaper.logical_index@, rule, text_in_option(*mapped), names);
        assert(r@ == json::written(
            crate::read::hit_view(
                t,
                shaper.logical_index@,
                rule,
                text_in_option(*mapped),
                views(names),
            ),
        ));
    }
}

/// The ids that are mapped back are those of the hits, each in its place: the text of a
/// hit's `_id`, and none where that is no text.
pub proof fn law_the_ids_of_all_hits_are_mapped(
    body: &[u8],
    top: Map<Seq<char>, Seq<char>>,
    outer: Map<Seq<char>, Tree>,
    hits: Seq<Tree>,
    r: Vec<Option<String>>,
)
    requires
        call_ensures(hit_ids, (body,), r),
        json::raw_members(body@) == Some(top),
        top.dom().contains("hits"@),
        json::parsed(encode_utf8(top["hits"@])) == Some(Tree::Object(outer)),
        outer.dom().contains("hits"@),
        outer["hits"@] == Tree::Array(hits),
    ensures
        r@.len() == hits.len(),
        forall|i: int|
            0 <= i < hits.len() ==> match (hits[i], #[trigger] r@[i]) {
                (Tree::Object(m), Some(id)) => m.dom().contains("_id"@) && m["_id"@] == Tree::Str(id@),
                (Tree::Object(m), None) => !(m.dom().contains("_id"@) && m["_id"@] is Str),
                (_, id) => id is None,
            },
{
    let ids = crate::types::opts(r@);
    assert(ids.len() == r@.len());
    assert forall|i: int| 0 <= i < hits.len() implies match (hits[i], #[trigger] r@[i]) {
        (Tree::Object(m), Some(id)) => m.dom().contains("_id"@) && m["_id"@] == Tree::Str(id@),
        (Tree::Object(m), None) => !(m.dom().contains("_id"@) && m["_id"@] is Str),
        (_, id) => id is None,
    } by {
        assert(ids[i] == crate::types::opt(r@[i]));
        assert(ids[i] == json::text_of(field(hits[i], "_id"@)));
    }
}

/// A count is answered with the cluster's status and count.
pub proof fn law_a_count_is_the_clusters(outcome: &CountOutcome, r: PipelineResponse)
    requires
        call_ensures(counted, (outcome,), r),
    ensures
        r.status == outcome.status,
        r.content_type is None,
        r.body@ == encode_utf8("{\"count\":"@ + decimal_text(outcome.count as nat) + "}"@),
{
}

} // verus!
