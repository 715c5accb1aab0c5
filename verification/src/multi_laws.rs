//! What requests that carry several reads or searches are for, said of the calls
//! themselves: each part is for the index it names, and is answered for itself.

use crate::bulk_laws::{keeps_ids, routed};
use crate::error::{RewriteError, SinkError, SpiError};
use crate::json::{self, tree, Tree};
use crate::mget::{self, shape_result, Fetch, MgetItem, MultiGet};
use crate::msearch::{
    self, assemble_responses, entry_bytes, listed, shape_response, with_status, MsearchItem,
    MultiSearch, Search,
};
use crate::pipeline::PipelineResponse;
use crate::types::{ReadOutcome, RequestCtx, Resolved, SearchOutcome};
use crate::view_laws::{
    lemma_answer, lemma_found_view, shows_answer, shows_document, strips_what_it_injects,
    text_in_option, unreadable,
};
use serde_json::Value;
use vstd::prelude::*;
use vstd::utf8::encode_utf8;

verus! {

/// A search that names an index is for that index; only one that names none is for the
/// request's.
pub proof fn law_a_search_is_for_the_index_it_names(item: &MsearchItem, ctx: &RequestCtx, r: String)
    requires
        call_ensures(MsearchItem::index_for, (item, ctx), r),
    ensures
        item.index matches Some(index) ==> r@ == index@,
        item.index is None ==> r@ == ctx.logical_index@,
{
}

/// The error of a search that cannot be had.
pub open spec fn search_error(entry: Seq<u8>, status: u64, error: Seq<char>) -> bool {
    entry == json::written(
        Tree::Object(
            map![
                "error"@ => Tree::Object(map!["type"@ => Tree::Str(error)]),
                "status"@ => Tree::Uint(status),
            ],
        ),
    )
}

proof fn lemma_search_error(status: u16, error: Seq<char>)
    ensures
        search_error(msearch::error_text(status, error), status as u64, error),
{
    let kind = Map::<Seq<char>, Tree>::empty().insert("type"@, Tree::Str(error));
    assert(kind =~= map!["type"@ => Tree::Str(error)]);
    assert(Map::<Seq<char>, Tree>::empty().insert("error"@, Tree::Object(kind)).insert(
        "status"@,
        Tree::Uint(status as u64),
    ) =~= map!["error"@ => Tree::Object(kind), "status"@ => Tree::Uint(status as u64)]);
}

/// A prepared search asks where its own index was resolved to, with its own wrapped query,
/// and its hits are to be shown under the index it names.
pub proof fn law_a_prepared_search_is_for_its_own_index(
    ctx: &RequestCtx,
    item: &MsearchItem,
    placement: Result<&Resolved, SpiError>,
    wrapped: Result<Vec<u8>, RewriteError>,
    r: Result<Search, Vec<u8>>,
)
    requires
        call_ensures(msearch::prepare, (ctx, item, placement, wrapped), r),
    ensures
        r is Ok <==> placement is Ok && wrapped is Ok,
        placement is Err ==> search_error(r->Err_0@, 400, "placement_missing"@),
        placement is Ok && wrapped is Err ==> search_error(r->Err_0@, 400, "invalid_query"@),
        r matches Ok(s) ==> {
            let resolved = *placement->Ok_0;
            &&& s.op.target == resolved.decision.target
            &&& s.op.protocol == resolved.decision.upstream_protocol
            &&& s.op.body@ == wrapped->Ok_0@
            &&& s.op.query is None
            &&& s.partition@ == resolved.partition@
            &&& strips_what_it_injects(resolved.decision.body_transform, s.shape)
            &&& item.index matches Some(index) ==> s.logical_index@ == index@
            &&& item.index is None ==> s.logical_index@ == ctx.logical_index@
        },
{
    lemma_search_error(400, "placement_missing"@);
    lemma_search_error(400, "invalid_query"@);
    if let Ok(s) = r {
        let t = placement->Ok_0.decision.body_transform;
        assert(crate::view_laws::strips_what_it_injects(t, s.shape)) by {
            crate::view_laws::lemma_shape(t, s.shape);
        }
    }
}

/// The entry of a search: its answer as its client sees it, under the index the search
/// names, with the cluster's status added; or the error it ended with.
pub proof fn law_a_search_entry_shows_its_own_answer(
    s: &Search,
    result: Result<SearchOutcome, SinkError>,
    mapped: &[Option<String>],
    r: Vec<u8>,
)
    requires
        call_ensures(shape_response, (s, result, mapped), r),
    ensures
        result is Err ==> search_error(r@, 502, "upstream_failed"@),
        result matches Ok(outcome) ==> {
            &&& unreadable(outcome.body@) ==> search_error(r@, 502, "malformed_upstream"@)
            &&& !unreadable(outcome.body@) ==> exists|shown: Seq<u8>|
                {
                    &&& #[trigger] shows_answer(outcome.body@, s.logical_index@, s.shape, mapped@, shown)
                    &&& json::raw_members(shown) is None ==> search_error(
                        r@,
                        502,
                        "malformed_upstream"@,
                    )
                    &&& json::raw_members(shown) matches Some(top) ==> r@ == json::raw_written(
                        top.insert("status"@, json::raw_of(Tree::Uint(outcome.status as u64))),
                    )
                }
        },
{
    lemma_search_error(502, "upstream_failed"@);
    lemma_search_error(502, "malformed_upstream"@);
    if let Ok(outcome) = result {
        lemma_answer(outcome.body@, s.logical_index@, s.shape, mapped@);
        if !unreadable(outcome.body@) {
            let shown = crate::read::shaped_answer(
                outcome.body@,
                s.logical_index@,
                s.shape.id_rule is Some,
                crate::types::opts(mapped@),
                crate::text::views(s.shape.inject_names@),
            )->Some_0;
            assert(shows_answer(outcome.body@, s.logical_index@, s.shape, mapped@, shown));
        }
    }
}

/// Adding the status changes no other member.
pub proof fn law_adding_the_status_changes_nothing_else(
    shaped: &[u8],
    status: u16,
    top: Map<Seq<char>, Seq<char>>,
    r: Option<Vec<u8>>,
)
    requires
        call_ensures(with_status, (shaped, status), r),
    ensures
        json::raw_members(shaped@) is None ==> r is None,
        json::raw_members(shaped@) == Some(top) ==> r is Some && json::raw_members(r->Some_0@) == Some(
            top.insert("status"@, json::raw_of(Tree::Uint(status as u64))),
        ),
{
}

/// The answer lists every entry, in order, with a comma between each two.
pub proof fn law_a_multi_search_lists_every_entry(a: Seq<Seq<u8>>, b: Seq<Seq<u8>>, one: Seq<u8>)
    ensures
        listed(Seq::empty()) == Seq::<u8>::empty(),
        listed(seq![one]) == one,
        a.len() > 0 && b.len() > 0 ==> listed(a + b) == listed(a) + seq![0x2cu8] + listed(b),
    decreases b.len(),
{
    if a.len() > 0 && b.len() > 0 {
        let whole = a + b;
        let comma = seq![0x2cu8];
        assert(whole.drop_last() =~= a + b.drop_last());
        if b.len() == 1 {
            assert(a + b.drop_last() =~= a);
            assert(whole.last() == b[0]);
        } else {
            law_a_multi_search_lists_every_entry(a, b.drop_last(), one);
            assert(listed(a) + comma + listed(b.drop_last()) + comma + b.last() =~= listed(a) + comma + (
            listed(b.drop_last()) + comma + b.last()));
        }
    }
}

/// The list of entries stands between the brackets of `responses`.
pub proof fn law_a_multi_search_answer_is_its_entries(responses: &[Vec<u8>], entries: Seq<Seq<u8>>, r: Vec<u8>)
    requires
        call_ensures(assemble_responses, (responses,), r),
        entries.len() == responses@.len(),
        forall|i: int| 0 <= i < entries.len() ==> #[trigger] entries[i] == responses@[i]@,
    ensures
        r@ == encode_utf8("{\"responses\":["@) + listed(entries) + encode_utf8("]}"@),
{
    assert(entry_bytes(responses@) =~= entries);
}

/// What comes back for a search fills its own place and no other.
pub proof fn law_a_search_fills_its_own_place(
    before: MultiSearch,
    ordinal: usize,
    result: Result<SearchOutcome, SinkError>,
    mapped: &[Option<String>],
    after: MultiSearch,
    s: &Search,
    entry: Vec<u8>,
)
    requires
        ordinal < before.entries().len(),
        before.entries().len() == before.waiting().len(),
        call_ensures(MultiSearch::searched, (before, ordinal, result, mapped), after),
        before.waiting()[ordinal as int] == Some(*s),
        call_ensures(shape_response, (s, result, mapped), entry),
    ensures
        after.entries().len() == before.entries().len(),
        after.entries()[ordinal as int] == entry@,
        forall|k: int|
            0 <= k < before.entries().len() && k != ordinal ==> #[trigger] after.entries()[k]
                == before.entries()[k],
        after.waiting() == before.waiting(),
{
}

/// The answer to a multi-search is its entries in order, with status 200.
pub proof fn law_a_multi_search_answers_in_order(all: &MultiSearch, r: PipelineResponse)
    requires
        call_ensures(MultiSearch::response, (all,), r),
    ensures
        r.status == 200,
        r.content_type is None,
        r.body@ == encode_utf8("{\"responses\":["@) + listed(all.entries()) + encode_utf8("]}"@),
{
}

/// A document asked for by its index is looked for there; only one asked for without is
/// looked for in the request's.
pub proof fn law_a_document_is_in_the_index_it_names(item: &MgetItem, ctx: &RequestCtx, r: String)
    requires
        call_ensures(MgetItem::index_for, (item, ctx), r),
    ensures
        item.index matches Some(index) ==> r@ == index@,
        item.index is None ==> r@ == ctx.logical_index@,
{
}

/// The report in the place of a document that cannot be had.
pub open spec fn document_error(t: Tree, index: Seq<char>, id: Seq<char>, error: Seq<char>) -> bool {
    t == Tree::Object(
        map![
            "_index"@ => Tree::Str(index),
            "_id"@ => Tree::Str(id),
            "error"@ => Tree::Object(map!["type"@ => Tree::Str(error)]),
        ],
    )
}

proof fn lemma_document_error(index: Seq<char>, id: Seq<char>, error: Seq<char>)
    ensures
        document_error(mget::error_view(index, id, error), index, id, error),
{
    let kind = Map::<Seq<char>, Tree>::empty().insert("type"@, Tree::Str(error));
    assert(kind =~= map!["type"@ => Tree::Str(error)]);
    assert(crate::read::named(index, id).insert("error"@, Tree::Object(kind)) =~= map![
        "_index"@ => Tree::Str(index),
        "_id"@ => Tree::Str(id),
        "error"@ => Tree::Object(kind),
    ]);
}

/// A prepared fetch asks for the document by its own index and id, as a read by id would.
pub proof fn law_a_prepared_fetch_is_for_its_own_document(
    ctx: &RequestCtx,
    item: &MgetItem,
    placement: Result<&Resolved, SpiError>,
    mapped: Result<String, RewriteError>,
    r: Result<Fetch, Value>,
)
    requires
        call_ensures(mget::prepare, (ctx, item, placement, mapped), r),
    ensures
        ({
            let index = if item.index is Some {
                item.index->Some_0@
            } else {
                ctx.logical_index@
            };
            let keeps = keeps_ids(placement->Ok_0.decision.body_transform);
            &&& r is Ok <==> placement is Ok && (keeps || mapped is Ok)
            &&& placement is Err ==> document_error(
                tree(r->Err_0),
                index,
                item.id@,
                "placement_missing"@,
            )
            &&& placement is Ok && !keeps && mapped is Err ==> document_error(
                tree(r->Err_0),
                index,
                item.id@,
                "irreversible_id"@,
            )
            &&& r matches Ok(f) ==> {
                let resolved = *placement->Ok_0;
                let t = resolved.decision.body_transform;
                &&& f.op.target == resolved.decision.target
                &&& f.op.protocol == resolved.decision.upstream_protocol
                &&& keeps ==> f.op.id@ == item.id@
                &&& !keeps ==> f.op.id@ == mapped->Ok_0@
                &&& routed(t, resolved.partition@, text_in_option(f.op.routing))
                &&& strips_what_it_injects(t, f.shape)
                &&& f.logical_index@ == index
                &&& f.logical_id@ == item.id@
            }
        }),
{
    let index = if item.index is Some {
        item.index->Some_0@
    } else {
        ctx.logical_index@
    };
    lemma_document_error(index, item.id@, "placement_missing"@);
    lemma_document_error(index, item.id@, "irreversible_id"@);
    if let Ok(f) = r {
        crate::view_laws::lemma_shape(placement->Ok_0.decision.body_transform, f.shape);
    }
}

/// What stands for a document: what its client sees of it, that there is none, or the error
/// its fetch ended with, always under its own index and id.
pub proof fn law_a_document_stands_for_itself(
    f: &Fetch,
    result: Result<ReadOutcome, SinkError>,
    r: Value,
)
    requires
        call_ensures(shape_result, (f, result), r),
    ensures
        result is Err ==> document_error(
            tree(r),
            f.logical_index@,
            f.logical_id@,
            "upstream_failed"@,
        ),
        result matches Ok(outcome) ==> {
            &&& outcome.found && json::parsed(outcome.body@) is None ==> document_error(
                tree(r),
                f.logical_index@,
                f.logical_id@,
                "malformed_upstream"@,
            )
            &&& outcome.found && json::parsed(outcome.body@) is Some ==> exists|to: Tree|
                {
                    &&& #[trigger] shows_document(
                        json::parsed(outcome.body@)->Some_0,
                        f.logical_index@,
                        f.logical_id@,
                        f.shape.inject_names@,
                        to,
                    )
                    &&& json::parsed(json::written(to)) is Some ==> json::parsed(json::written(to))
                        == Some(tree(r))
                    &&& json::parsed(json::written(to)) is None ==> document_error(
                        tree(r),
                        f.logical_index@,
                        f.logical_id@,
                        "malformed_upstream"@,
                    )
                }
            &&& !outcome.found ==> {
                let none = Tree::Object(
                    map![
                        "_index"@ => Tree::Str(f.logical_index@),
                        "_id"@ => Tree::Str(f.logical_id@),
                        "found"@ => Tree::Bool(false),
                    ],
                );
                json::parsed(json::written(none)) is Some ==> json::parsed(json::written(none)) == Some(
                    tree(r),
                )
            }
        },
{
    let index = f.logical_index@;
    let id = f.logical_id@;
    lemma_document_error(index, id, "upstream_failed"@);
    lemma_document_error(index, id, "malformed_upstream"@);
    assert(crate::read::named(index, id).insert("found"@, Tree::Bool(false)) =~= map![
        "_index"@ => Tree::Str(index),
        "_id"@ => Tree::Str(id),
        "found"@ => Tree::Bool(false),
    ]);
    if let Ok(outcome) = result {
        if let Some(t) = json::parsed(outcome.body@) {
            let names = f.shape.inject_names@;
            lemma_found_view(t, index, id, names);
            let to = crate::read::found_view(t, index, id, crate::text::views(names));
            assert(shows_document(t, index, id, names, to));
        }
    }
}

/// What comes back for a document fills its own place and no other.
pub proof fn law_a_document_fills_its_own_place(
    before: MultiGet,
    ordinal: usize,
    result: Result<ReadOutcome, SinkError>,
    after: MultiGet,
    f: &Fetch,
    doc: Value,
)
    requires
        ordinal < before.docs().len(),
        before.docs().len() == before.waiting().len(),
        call_ensures(MultiGet::fetched, (before, ordinal, result), after),
        before.waiting()[ordinal as int] == Some(*f),
        call_ensures(shape_result, (f, result), doc),
    ensures
        after.docs().len() == before.docs().len(),
        after.docs()[ordinal as int] == tree(doc),
        forall|k: int|
            0 <= k < before.docs().len() && k != ordinal ==> #[trigger] after.docs()[k]
                == before.docs()[k],
        after.waiting() == before.waiting(),
{
}

/// The answer to a multi-get is its documents in order, with status 200.
pub proof fn law_a_multi_get_answers_in_order(all: MultiGet, r: PipelineResponse)
    requires
        call_ensures(MultiGet::response, (all,), r),
    ensures
        r.status == 200,
        r.content_type is None,
        r.body@ == json::written(Tree::Object(map!["docs"@ => Tree::Array(all.docs())])),
{
    assert(Map::<Seq<char>, Tree>::empty().insert("docs"@, Tree::Array(all.docs())) =~= map![
        "docs"@ => Tree::Array(all.docs()),
    ]);
}

} // verus!
