//! Delete-by-query in the asynchronous mode. The proxy runs the partition's own query,
//! ids only and capped, and enqueues one delete for each document that matches. Every
//! other way of asking for it is refused.

use crate::asyncwrite::{
    op_id, op_id_for, rejected_body, unavailable_response, unsupported_response, QueueError,
    QueuedWrite, WriteMode,
};
use crate::bulk::item_op_id;
use crate::error::{RequestError, RewriteError};
use crate::json::{self, field, text_of, tree, Members, Node, Tree};
use crate::pipeline::PipelineResponse;
use crate::read::{build_delete_op_physical, build_search_op, is_delete};
use crate::text::{decimal, views};
use crate::types::{RequestCtx, Resolved, SearchOp, WriteOp};
use serde_json::Value;
use vstd::prelude::*;
use vstd::string::*;

verus! {

/// The most documents that one request may match.
pub const DBQ_MAX_MATCHES: u64 = 10_000;

/// Why a delete-by-query is refused before its query runs, with the status.
pub open spec fn refusal(mode: WriteMode, expansion: bool, queue_enabled: bool) -> Option<
    (int, Seq<char>),
> {
    if !(mode is Async) {
        Some((400, "delete_by_query is only supported in async write mode"@))
    } else if !expansion {
        Some((400, "delete_by_query expansion is not enabled on this proxy"@))
    } else if !queue_enabled {
        Some((422, "async write mode is not available on this proxy"@))
    } else {
        None
    }
}

/// The refusal of a delete-by-query that must not run; `None` where it may.
pub fn refuse(ctx: &RequestCtx, mode: WriteMode, expansion: bool, queue_enabled: bool) -> (r: Option<
    PipelineResponse,
>)
    ensures
        match refusal(mode, expansion, queue_enabled) {
            Some((status, reason)) => r is Some && r->Some_0.is_json(
                status,
                rejected_body(reason, ctx.logical_index@),
            ),
            None => r is None,
        },
{
    let index = ctx.logical_index.as_str();
    if !matches!(mode, WriteMode::Async) {
        return Some(
            unsupported_response("delete_by_query is only supported in async write mode", index),
        );
    }
    if !expansion {
        return Some(
            unsupported_response("delete_by_query expansion is not enabled on this proxy", index),
        );
    }
    if !queue_enabled {
        return Some(unavailable_response(index));
    }
    None
}

/// The search for the documents that match: as many as show that the cap is passed, no
/// source, and an exact total. The query is not touched.
pub open spec fn capped(m: Map<Seq<char>, Tree>) -> Map<Seq<char>, Tree> {
    m.insert("size"@, Tree::Uint(10_001)).insert("_source"@, Tree::Bool(false)).insert(
        "track_total_hits"@,
        Tree::Bool(true),
    )
}

/// Caps a search body. It has to be a JSON object.
pub fn cap_ids_only(body: &[u8]) -> (r: Result<Vec<u8>, RequestError>)
    ensures
        match json::parsed(body@) {
            None => r == Err::<Vec<u8>, _>(RequestError::Rewrite(RewriteError::InvalidJson)),
            Some(Tree::Object(m)) => r is Ok && r->Ok_0@ == json::written(Tree::Object(capped(m))),
            Some(_) => r is Err && r->Err_0 is Internal && r->Err_0->Internal_reason@
                == "search body is not an object"@,
        },
{
    let doc = match json::parse(body) {
        Some(v) => v,
        None => {
            return Err(RequestError::Rewrite(RewriteError::InvalidJson));
        },
    };
    let object = match Members::from_value(doc) {
        Ok(object) => object,
        Err(_) => {
            return Err(RequestError::Internal { reason: "search body is not an object" });
        },
    };
    let whole = object.with("size", json::uint(DBQ_MAX_MATCHES + 1)).with(
        "_source",
        json::boolean(false),
    ).with("track_total_hits", json::boolean(true)).into_value();
    match json::print(&whole) {
        Some(bytes) => Ok(bytes),
        None => Err(RequestError::Internal { reason: "serializing delete-by-query search body" }),
    }
}

/// The search that finds the matching documents. `wrapped` is the client's query wrapped
/// in the partition filter.
pub fn match_search(resolved: &Resolved, wrapped: Result<Vec<u8>, RewriteError>) -> (r: Result<
    SearchOp,
    RequestError,
>)
    ensures
        match wrapped {
            Err(e) => r == Err::<SearchOp, _>(RequestError::Rewrite(e)),
            Ok(body) => match json::parsed(body@) {
                None => r == Err::<SearchOp, _>(RequestError::Rewrite(RewriteError::InvalidJson)),
                Some(Tree::Object(m)) => {
                    &&& r is Ok
                    &&& r->Ok_0.target == resolved.decision.target
                    &&& r->Ok_0.body@ == json::written(Tree::Object(capped(m)))
                    &&& r->Ok_0.query is None
                    &&& r->Ok_0.protocol == resolved.decision.upstream_protocol
                },
                Some(_) => r is Err && r->Err_0 is Internal && r->Err_0->Internal_reason@
                    == "search body is not an object"@,
            },
        },
{
    match build_search_op(resolved, wrapped) {
        Err(e) => Err(e),
        Ok((op, _)) => match cap_ids_only(op.body.as_slice()) {
            Err(e) => Err(e),
            Ok(body) => Ok(
                SearchOp { target: op.target, body, query: op.query, protocol: op.protocol },
            ),
        },
    }
}

/// The member at the end of a path of keys.
pub open spec fn at_path(t: Tree, a: Seq<char>, b: Seq<char>) -> Option<Tree> {
    match field(t, a) {
        Some(x) => field(x, b),
        None => None,
    }
}

/// How many documents an answer says match; none where it does not say.
pub open spec fn total_of(t: Tree) -> u64 {
    match at_path(t, "hits"@, "total"@) {
        Some(total) => match field(total, "value"@) {
            Some(Tree::Uint(n)) => n,
            _ => 0,
        },
        None => 0,
    }
}

/// The ids of the hits that have a string for one, in order.
pub open spec fn ids_of(hits: Seq<Tree>) -> Seq<Seq<char>>
    decreases hits.len(),
{
    if hits.len() == 0 {
        Seq::empty()
    } else {
        match text_of(field(hits.last(), "_id"@)) {
            Some(id) => ids_of(hits.drop_last()).push(id),
            None => ids_of(hits.drop_last()),
        }
    }
}

/// The physical ids of the documents an answer names.
pub open spec fn matched_ids(t: Tree) -> Seq<Seq<char>> {
    match at_path(t, "hits"@, "hits"@) {
        Some(Tree::Array(hits)) => ids_of(hits),
        _ => Seq::empty(),
    }
}

fn total(doc: &Value) -> (r: u64)
    ensures
        r == total_of(tree(*doc)),
{
    let hits = match json::get(doc, "hits") {
        Some(hits) => hits,
        None => {
            return 0;
        },
    };
    let total = match json::get(hits, "total") {
        Some(total) => total,
        None => {
            return 0;
        },
    };
    match json::get(total, "value") {
        Some(value) => match json::as_u64(value) {
            Some(n) => n,
            None => 0,
        },
        None => 0,
    }
}

fn ids(doc: &Value) -> (r: Vec<String>)
    ensures
        views(r@) == matched_ids(tree(*doc)),
{
    let mut out: Vec<String> = Vec::new();
    assert(views(out@) =~= Seq::empty());
    let hits = match json::get(doc, "hits") {
        Some(hits) => hits,
        None => {
            return out;
        },
    };
    let list = match json::get(hits, "hits") {
        Some(list) => list,
        None => {
            return out;
        },
    };
    let all = match json::as_array(list) {
        Some(all) => all,
        None => {
            return out;
        },
    };
    let ghost found = json::trees(all@);
    let mut i: usize = 0;
    assert(found.take(0) =~= Seq::empty());
    while i < all.len()
        invariant
            found == json::trees(all@),
            0 <= i <= all@.len(),
            views(out@) == ids_of(found.take(i as int)),
        decreases all@.len() - i,
    {
        let ghost before = out@;
        proof {
            assert(found.take(i + 1).drop_last() =~= found.take(i as int));
            assert(found.take(i + 1).last() == tree(all@[i as int]));
        }
        if let Some(id) = json::field_text(&all[i], "_id") {
            out.push(id.to_owned());
            assert(views(out@) =~= views(before).push(id@));
        }
        i += 1;
    }
    assert(found.take(i as int) =~= found);
    out
}

/// What to do once the matching documents are known.
#[derive(Debug)]
pub enum DbqStep {
    /// Too many match: answer this.
    Refused(PipelineResponse),
    /// Enqueue these in order, then answer with [`acknowledged`].
    Enqueue { total: u64, writes: Vec<QueuedWrite> },
}

/// The delete of the `i`-th match, under the batch's op id and that position.
pub open spec fn is_queued_delete(
    w: QueuedWrite,
    ctx: RequestCtx,
    resolved: Resolved,
    i: nat,
    id: Seq<char>,
) -> bool {
    &&& w.op_id@ == item_op_id(op_id(ctx), i)
    &&& w.partition_key@ == resolved.partition@
    &&& w.batch@.len() == 1
    &&& is_delete(w.batch@[0], resolved, id)
}

/// One delete per id, in order.
pub fn deletes(ctx: &RequestCtx, resolved: &Resolved, ids: Vec<String>) -> (r: Vec<QueuedWrite>)
    ensures
        r@.len() == ids@.len(),
        forall|i: int|
            0 <= i < r@.len() ==> is_queued_delete(
                #[trigger] r@[i],
                *ctx,
                *resolved,
                i as nat,
                ids@[i]@,
            ),
{
    let batch_id = op_id_for(ctx, ctx.request_id.as_str());
    let mut out: Vec<QueuedWrite> = Vec::new();
    let ghost all = ids@;
    for id in it: ids
        invariant
            it.seq() == all,
            batch_id@ == op_id(*ctx),
            out@.len() == it.index(),
            forall|i: int|
                0 <= i < out@.len() ==> is_queued_delete(
                    #[trigger] out@[i],
                    *ctx,
                    *resolved,
                    i as nat,
                    all[i]@,
                ),
    {
        let at = out.len();
        let mut id_here = batch_id.clone();
        id_here.append(":");
        id_here.append(decimal(at as u64).as_str());
        let mut batch: Vec<WriteOp> = Vec::new();
        batch.push(build_delete_op_physical(resolved, id));
        out.push(
            QueuedWrite { op_id: id_here, partition_key: resolved.partition.clone(), batch },
        );
    }
    out
}

/// Turns the answer of the match search into deletes, unless more match than the cap
/// allows.
pub fn expand(ctx: &RequestCtx, resolved: &Resolved, answer: &[u8]) -> (r: Result<
    DbqStep,
    RequestError,
>)
    ensures
        match json::parsed(answer@) {
            None => r == Err::<DbqStep, _>(RequestError::Rewrite(RewriteError::InvalidJson)),
            Some(t) => r is Ok && (if total_of(t) > DBQ_MAX_MATCHES {
                r->Ok_0 matches DbqStep::Refused(answer) && answer.is_json(
                    400,
                    rejected_body(
                        "delete_by_query match set exceeds the proxy cap"@,
                        ctx.logical_index@,
                    ),
                )
            } else {
                r->Ok_0 matches DbqStep::Enqueue { total, writes } && total == total_of(t)
                    && writes@.len() == matched_ids(t).len() && forall|i: int|
                    0 <= i < writes@.len() ==> is_queued_delete(
                        #[trigger] writes@[i],
                        *ctx,
                        *resolved,
                        i as nat,
                        matched_ids(t)[i],
                    )
            }),
        },
{
    let doc = match json::parse(answer) {
        Some(doc) => doc,
        None => {
            return Err(RequestError::Rewrite(RewriteError::InvalidJson));
        },
    };
    let total = total(&doc);
    if total > DBQ_MAX_MATCHES {
        return Ok(
            DbqStep::Refused(
                unsupported_response(
                    "delete_by_query match set exceeds the proxy cap",
                    ctx.logical_index.as_str(),
                ),
            ),
        );
    }
    let ids = ids(&doc);
    let ghost want = views(ids@);
    let writes = deletes(ctx, resolved, ids);
    assert forall|i: int| 0 <= i < writes@.len() implies is_queued_delete(
        #[trigger] writes@[i],
        *ctx,
        *resolved,
        i as nat,
        matched_ids(tree(doc))[i],
    ) by {
        assert(want[i] == ids@[i]@);
    }
    Ok(DbqStep::Enqueue { total, writes })
}

/// How many deletes the queue took.
pub open spec fn taken(acks: Seq<Result<(), QueueError>>) -> nat
    decreases acks.len(),
{
    if acks.len() == 0 {
        0
    } else {
        taken(acks.drop_last()) + (if acks.last() is Ok {
            1nat
        } else {
            0nat
        })
    }
}

/// How one delete that the queue refused is reported.
pub open spec fn failure_view() -> Tree {
    Tree::Object(
        Map::<Seq<char>, Tree>::empty().insert("status"@, Tree::Uint(503)).insert(
            "type"@,
            Tree::Str("enqueue_failed"@),
        ),
    )
}

/// The answer to a delete-by-query: how many matched, how many deletes were enqueued, and
/// one failure for each that was not.
pub open spec fn report_view(total: u64, acks: Seq<Result<(), QueueError>>) -> Tree {
    Tree::Object(
        Map::<Seq<char>, Tree>::empty().insert("took"@, Tree::Uint(0)).insert(
            "timed_out"@,
            Tree::Bool(false),
        ).insert("total"@, Tree::Uint(total)).insert(
            "deleted"@,
            Tree::Uint(taken(acks) as u64),
        ).insert("version_conflicts"@, Tree::Uint(0)).insert("batches"@, Tree::Uint(1)).insert(
            "failures"@,
            Tree::Array(Seq::new((acks.len() - taken(acks)) as nat, |i: int| failure_view())),
        ),
    )
}

fn failure() -> (r: Value)
    ensures
        tree(r) == failure_view(),
{
    let report: json::Object = Members::new();
    report.with("status", json::uint(503)).with("type", json::text("enqueue_failed")).into_value()
}

/// The answer once the queue has spoken about every delete.
pub fn acknowledged(total: u64, acks: &[Result<(), QueueError>]) -> (r: PipelineResponse)
    ensures
        r.is_json(200, json::written(report_view(total, acks@))),
{
    let mut deleted: u64 = 0;
    let mut failures: Vec<Value> = Vec::new();
    let mut i: usize = 0;
    assert(acks@.take(0) =~= Seq::empty());
    while i < acks.len()
        invariant
            0 <= i <= acks@.len(),
            deleted == taken(acks@.take(i as int)),
            deleted <= i,
            failures@.len() == i - deleted,
            forall|j: int| 0 <= j < failures@.len() ==> tree(#[trigger] failures@[j]) == failure_view(),
        decreases acks@.len() - i,
    {
        proof {
            assert(acks@.take(i + 1).drop_last() =~= acks@.take(i as int));
            assert(acks@.take(i + 1).last() == acks@[i as int]);
        }
        match &acks[i] {
            Ok(()) => {
                deleted += 1;
            },
            Err(_) => {
                failures.push(failure());
            },
        }
        i += 1;
    }
    assert(acks@.take(i as int) =~= acks@);
    assert(json::trees(failures@) =~= Seq::new(
        (acks@.len() - taken(acks@)) as nat,
        |i: int| failure_view(),
    ));
    let report: json::Object = Members::new();
    let whole = report.with("took", json::uint(0)).with("timed_out", json::boolean(false)).with(
        "total",
        json::uint(total),
    ).with("deleted", json::uint(deleted)).with("version_conflicts", json::uint(0)).with(
        "batches",
        json::uint(1),
    ).with("failures", json::close(Node::Array(failures))).into_value();
    match json::print(&whole) {
        Some(body) => PipelineResponse::json(200, body),
        None => PipelineResponse::json(200, Vec::new()),
    }
}

/// What a request expands into is bounded: where a cluster returns no more hits than it
/// counts, and no more are counted than the cap allows, there are at most as many deletes
/// as the cap.
pub proof fn law_expansion_is_bounded(t: Tree)
    requires
        total_of(t) <= DBQ_MAX_MATCHES,
        at_path(t, "hits"@, "hits"@) matches Some(Tree::Array(hits)) ==> hits.len() <= total_of(t),
    ensures
        matched_ids(t).len() <= DBQ_MAX_MATCHES,
{
    if let Some(Tree::Array(hits)) = at_path(t, "hits"@, "hits"@) {
        lemma_ids_len(hits);
    }
}

proof fn lemma_ids_len(hits: Seq<Tree>)
    ensures
        ids_of(hits).len() <= hits.len(),
    decreases hits.len(),
{
    if hits.len() > 0 {
        lemma_ids_len(hits.drop_last());
    }
}

/// Every delete is accounted for: those the queue took and those it refused are all the
/// deletes there were.
pub proof fn law_every_delete_is_reported(acks: Seq<Result<(), QueueError>>)
    ensures
        taken(acks) <= acks.len(),
        forall|k: int| 0 <= k < acks.len() && acks[k] is Err ==> taken(acks) < acks.len(),
    decreases acks.len(),
{
    if acks.len() > 0 {
        law_every_delete_is_reported(acks.drop_last());
        assert forall|k: int| 0 <= k < acks.len() && acks[k] is Err implies taken(acks)
            < acks.len() by {
            if k < acks.len() - 1 {
                assert(acks.drop_last()[k] == acks[k]);
            }
        }
    }
}

} // verus!
