//! What writes are for, said of the calls themselves: what is stored or deleted, what is
//! enqueued instead and under which handle, and what is refused.

use crate::asyncwrite::{
    enqueue_async, enqueued, op_id_for, unsupported_async, valid_op_id, EnqueueStep, QueueError,
    QueuedWrite, WriteMode,
};
use crate::bulk::item_op_id;
use crate::bulk_laws::{
    builds_ids, carried_body, carried_id, carried_routing, goes_to, has_fields, keeps_ids, routed,
};
use crate::dbq::{
    acknowledged, cap_ids_only, deletes, expand, ids_of, match_search, refuse, taken, DbqStep,
};
use crate::endpoints::{delete_by_id, deleted, gate_write, ingest_doc, response_for, WriteStep};
use crate::error::{RequestError, RewriteError};
use crate::json::{self, tree, Tree};
use crate::pipeline::PipelineResponse;
use crate::plan::{plan_rewrite, Rewritten, RewritePlan};
use crate::text::{
    decimal_text, law_pairs_are_found_by_name, law_parts_stand_between_separators, names_pair,
    part_at,
};
use crate::types::{
    first_named, law_only_capitals_are_ignored, law_the_first_header_of_a_name_counts,
    letters_match, BodyTransform, InjectedField, InjectedValue, RequestCtx, Resolved, SearchOp,
    WriteAck, WriteOp,
};
use vstd::prelude::*;
use vstd::utf8::encode_utf8;

verus! {

/// The answer is this JSON object, with this status.
pub open spec fn answers_with(r: PipelineResponse, status: int, m: Map<Seq<char>, Tree>) -> bool {
    &&& r.status == status
    &&& r.body@ == json::written(Tree::Object(m))
    &&& r.content_type is None
}

/// A refusal with a reason.
pub open spec fn refuses(r: PipelineResponse, status: int, reason: Seq<char>, index: Seq<char>) -> bool {
    answers_with(
        r,
        status,
        map![
            "status"@ => Tree::Str("rejected"@),
            "error"@ => Tree::Str(reason),
            "_index"@ => Tree::Str(index),
        ],
    )
}

/// The request makes its write conditional on the document's version.
pub open spec fn conditional_query(ctx: RequestCtx) -> bool {
    ctx.query matches Some(q) && (names_pair(q@, "if_seq_no"@) || names_pair(q@, "if_primary_term"@)
        || names_pair(q@, "version"@))
}

/// The request is for a partial update.
pub open spec fn update_path(ctx: RequestCtx) -> bool {
    exists|at: int| part_at(ctx.path@, '/', "_update"@, at)
}

proof fn lemma_names_of_preconditions()
    ensures
        !"if_seq_no"@.contains('&') && !"if_seq_no"@.contains('='),
        !"if_primary_term"@.contains('&') && !"if_primary_term"@.contains('='),
        !"version"@.contains('&') && !"version"@.contains('='),
{
    reveal_strlit("if_seq_no");
    reveal_strlit("if_primary_term");
    reveal_strlit("version");
}

/// A write whose query names `if_seq_no`, `if_primary_term` or `version` is refused in the
/// asynchronous mode, and so is a partial update; nothing else is.
pub proof fn law_conditional_writes_are_refused(ctx: &RequestCtx, r: Option<&'static str>)
    requires
        call_ensures(unsupported_async, (ctx,), r),
    ensures
        ctx.query matches Some(q) && names_pair(q@, "if_seq_no"@) ==> r is Some,
        ctx.query matches Some(q) && names_pair(q@, "if_primary_term"@) ==> r is Some,
        ctx.query matches Some(q) && names_pair(q@, "version"@) ==> r is Some,
        update_path(*ctx) ==> r is Some,
        r is None <==> !conditional_query(*ctx) && !update_path(*ctx),
        conditional_query(*ctx) ==> r->Some_0@
            == "optimistic concurrency (if_seq_no/if_primary_term/version) is not supported in async write mode"@,
        !conditional_query(*ctx) && update_path(*ctx) ==> r->Some_0@
            == "scripted/partial _update is not supported in async write mode"@,
{
    lemma_refusal(*ctx);
}

pub proof fn lemma_refusal(ctx: RequestCtx)
    ensures
        crate::asyncwrite::has_precondition(ctx.query) == conditional_query(ctx),
        crate::text::split(ctx.path@, '/').contains("_update"@) == update_path(ctx),
{
    lemma_names_of_preconditions();
    law_parts_stand_between_separators(ctx.path@, '/', "_update"@);
    if let Some(q) = ctx.query {
        let parts = crate::text::split(q@, '&');
        law_pairs_are_found_by_name(q@, "if_seq_no"@);
        law_pairs_are_found_by_name(q@, "if_primary_term"@);
        law_pairs_are_found_by_name(q@, "version"@);
        if conditional_query(ctx) {
            let key = if names_pair(q@, "if_seq_no"@) {
                "if_seq_no"@
            } else if names_pair(q@, "if_primary_term"@) {
                "if_primary_term"@
            } else {
                "version"@
            };
            let i = choose|i: int|
                0 <= i < parts.len() && crate::text::key_of(#[trigger] parts[i]) == key;
            assert(crate::asyncwrite::is_precondition(crate::text::key_of(parts[i])));
        }
    }
}

/// A text that is acceptable as an op id: 1 to 128 bytes, each an ASCII letter, a digit,
/// `-`, `.`, `:` or `_`.
pub open spec fn acceptable_id(s: Seq<char>) -> bool {
    let b = encode_utf8(s);
    &&& 1 <= b.len() <= 128
    &&& forall|i: int|
        0 <= i < b.len() ==> {
            ||| 0x61 <= #[trigger] b[i] <= 0x7a
            ||| 0x41 <= b[i] <= 0x5a
            ||| 0x30 <= b[i] <= 0x3a
            ||| 0x2d <= b[i] <= 0x2e
            ||| b[i] == 0x5f
        }
}

/// Exactly the acceptable texts are accepted as op ids.
pub proof fn law_op_ids_are_short_and_safe(s: &str, r: bool)
    requires
        call_ensures(valid_op_id, (s,), r),
    ensures
        r == acceptable_id(s@),
{
    lemma_acceptable(s@);
}

proof fn lemma_acceptable(s: Seq<char>)
    ensures
        crate::asyncwrite::is_op_id(s) == acceptable_id(s),
{
    let b = encode_utf8(s);
    if crate::asyncwrite::is_op_id(s) {
        assert forall|i: int| 0 <= i < b.len() implies {
            ||| 0x61 <= #[trigger] b[i] <= 0x7a
            ||| 0x41 <= b[i] <= 0x5a
            ||| 0x30 <= b[i] <= 0x3a
            ||| 0x2d <= b[i] <= 0x2e
            ||| b[i] == 0x5f
        } by {
            assert(crate::asyncwrite::op_id_byte(b[i]));
        }
    }
    if acceptable_id(s) {
        assert forall|i: int| 0 <= i < b.len() implies crate::asyncwrite::op_id_byte(
            #[trigger] b[i],
        ) by {}
    }
}

/// The handle `id` of a write: what its first `X-Op-Id` header holds where that is
/// acceptable, else the fallback.
pub open spec fn handle(ctx: RequestCtx, fallback: Seq<char>, id: Seq<char>) -> bool {
    &&& forall|i: int| #[trigger]
        first_named(ctx.headers@, "x-op-id"@, i) ==> id == if acceptable_id(ctx.headers@[i].1@) {
            ctx.headers@[i].1@
        } else {
            fallback
        }
    &&& (forall|i: int|
        0 <= i < ctx.headers@.len() ==> !letters_match((#[trigger] ctx.headers@[i]).0@, "x-op-id"@))
        ==> id == fallback
}

pub proof fn lemma_handle(ctx: RequestCtx, fallback: Seq<char>)
    ensures
        handle(ctx, fallback, crate::asyncwrite::op_id_or(ctx, fallback)),
{
    law_the_first_header_of_a_name_counts(ctx.headers@, "x-op-id"@);
    assert forall|i: int| #[trigger]
        first_named(ctx.headers@, "x-op-id"@, i) implies crate::asyncwrite::op_id_or(ctx, fallback)
        == if acceptable_id(ctx.headers@[i].1@) {
        ctx.headers@[i].1@
    } else {
        fallback
    } by {
        lemma_acceptable(ctx.headers@[i].1@);
    }
    if crate::types::header_of(ctx.headers@, "x-op-id"@) is Some {
        let i = choose|i: int| #[trigger]
            first_named(ctx.headers@, "x-op-id"@, i) && ctx.headers@[i].1@ == crate::types::header_of(
                ctx.headers@,
                "x-op-id"@,
            )->Some_0;
        assert(letters_match(ctx.headers@[i].0@, "x-op-id"@));
    }
}

/// The op id is the client's own where it sends an acceptable one, else the id given.
pub proof fn law_the_op_id_is_the_clients_where_acceptable(ctx: &RequestCtx, fallback: &str, r: String)
    requires
        call_ensures(op_id_for, (ctx, fallback), r),
    ensures
        handle(*ctx, fallback@, r@),
{
    lemma_handle(*ctx, fallback@);
}

/// An asynchronous write is enqueued only where it can be honoured and there is a queue, as
/// the batch that was built, for its partition and under its handle. What cannot be honoured
/// is refused with 400, and without a queue everything else is with 422.
pub proof fn law_only_what_can_be_honoured_is_enqueued(
    ctx: &RequestCtx,
    queue_enabled: bool,
    partition: &str,
    batch: Vec<WriteOp>,
    r: EnqueueStep,
)
    requires
        call_ensures(enqueue_async, (ctx, queue_enabled, partition, batch), r),
    ensures
        async_step(r, *ctx, queue_enabled, partition@),
        r matches EnqueueStep::Enqueue(w) ==> w.batch == batch,
{
    lemma_async_step(r, *ctx, queue_enabled, partition@);
}

/// What becomes of an asynchronous write.
pub open spec fn async_step(
    r: EnqueueStep,
    ctx: RequestCtx,
    queue_enabled: bool,
    partition: Seq<char>,
) -> bool {
    let refused = conditional_query(ctx) || update_path(ctx);
    &&& r is Enqueue <==> !refused && queue_enabled
    &&& r matches EnqueueStep::Enqueue(w) ==> w.partition_key@ == partition && handle(
        ctx,
        ctx.request_id@,
        w.op_id@,
    )
    &&& r matches EnqueueStep::Respond(a) ==> {
        &&& conditional_query(ctx) ==> refuses(
            a,
            400,
            "optimistic concurrency (if_seq_no/if_primary_term/version) is not supported in async write mode"@,
            ctx.logical_index@,
        )
        &&& !conditional_query(ctx) && update_path(ctx) ==> refuses(
            a,
            400,
            "scripted/partial _update is not supported in async write mode"@,
            ctx.logical_index@,
        )
        &&& !refused ==> refuses(
            a,
            422,
            "async write mode is not available on this proxy"@,
            ctx.logical_index@,
        )
    }
}

pub proof fn lemma_rejected(r: PipelineResponse, status: int, reason: Seq<char>, index: Seq<char>)
    requires
        r.is_json(status, crate::asyncwrite::rejected_body(reason, index)),
    ensures
        refuses(r, status, reason, index),
{
    let m = map![
        "status"@ => Tree::Str("rejected"@),
        "error"@ => Tree::Str(reason),
        "_index"@ => Tree::Str(index),
    ];
    assert(crate::asyncwrite::verdict("rejected"@, "error"@, reason, index) =~= m);
}

proof fn lemma_async_step(
    r: EnqueueStep,
    ctx: RequestCtx,
    queue_enabled: bool,
    partition: Seq<char>,
)
    requires
        r.is_for(ctx, queue_enabled, partition),
    ensures
        async_step(r, ctx, queue_enabled, partition),
{
    lemma_refusal(ctx);
    lemma_handle(ctx, ctx.request_id@);
    if let EnqueueStep::Respond(a) = r {
        if let Some(reason) = crate::asyncwrite::refusal(ctx) {
            lemma_rejected(a, 400, reason, ctx.logical_index@);
        } else {
            lemma_rejected(
                a,
                422,
                "async write mode is not available on this proxy"@,
                ctx.logical_index@,
            );
        }
    }
}

/// A write is accepted with 202 only once the queue took it, and the answer gives its
/// handle; one that the queue refused is answered with 503.
pub proof fn law_accepted_means_enqueued(
    ctx: &RequestCtx,
    acknowledged: Result<(), QueueError>,
    r: PipelineResponse,
)
    requires
        call_ensures(enqueued, (ctx, acknowledged), r),
    ensures
        r.status == 202 <==> acknowledged is Ok,
        exists|id: Seq<char>| #[trigger]
            handle(*ctx, ctx.request_id@, id) && (acknowledged is Ok ==> answers_with(
                r,
                202,
                map![
                    "status"@ => Tree::Str("accepted"@),
                    "result"@ => Tree::Str("queued"@),
                    "_index"@ => Tree::Str(ctx.logical_index@),
                    "op_id"@ => Tree::Str(id),
                ],
            )) && (acknowledged is Err ==> answers_with(
                r,
                503,
                map![
                    "status"@ => Tree::Str("rejected"@),
                    "error"@ => Tree::Str("async write could not be enqueued"@),
                    "_index"@ => Tree::Str(ctx.logical_index@),
                    "op_id"@ => Tree::Str(id),
                ],
            )),
{
    lemma_handle(*ctx, ctx.request_id@);
    let id = crate::asyncwrite::op_id(*ctx);
    let index = ctx.logical_index@;
    assert(crate::asyncwrite::verdict("accepted"@, "result"@, "queued"@, index).insert(
        "op_id"@,
        Tree::Str(id),
    ) =~= map![
        "status"@ => Tree::Str("accepted"@),
        "result"@ => Tree::Str("queued"@),
        "_index"@ => Tree::Str(index),
        "op_id"@ => Tree::Str(id),
    ]);
    assert(crate::asyncwrite::verdict(
        "rejected"@,
        "error"@,
        "async write could not be enqueued"@,
        index,
    ).insert("op_id"@, Tree::Str(id)) =~= map![
        "status"@ => Tree::Str("rejected"@),
        "error"@ => Tree::Str("async write could not be enqueued"@),
        "_index"@ => Tree::Str(index),
        "op_id"@ => Tree::Str(id),
    ]);
    assert(handle(*ctx, ctx.request_id@, id));
}

/// A header value names a write mode in any case of its letters, and nothing else does.
pub proof fn law_write_modes_are_named_in_any_case(value: &str, r: Option<WriteMode>)
    requires
        call_ensures(WriteMode::parse, (value,), r),
    ensures
        letters_match(value@, "sync"@) <==> r == Some(WriteMode::Sync),
        letters_match(value@, "async"@) <==> r == Some(WriteMode::Async),
{
    law_only_capitals_are_ignored(value@, "sync"@);
    law_only_capitals_are_ignored(value@, "async"@);
    reveal_strlit("sync");
    reveal_strlit("async");
}

/// A field whose value depends on the request is not resolved.
pub open spec fn unresolved_field(f: InjectedField) -> bool {
    f.value is FromPrincipal || f.value is FromHeader
}

/// The transform injects a field that is not resolved.
pub open spec fn has_unresolved(t: BodyTransform) -> bool {
    exists|fields: Seq<InjectedField>, i: int|
        #![trigger has_fields(t, fields), fields[i]]
        has_fields(t, fields) && 0 <= i < fields.len() && unresolved_field(fields[i])
}

pub proof fn lemma_unresolved(t: BodyTransform)
    ensures
        has_unresolved(t) <==> (t is Inject || t is Both) && crate::plan::any_unresolved(
            crate::types::injected(t),
        ),
{
    let fields = crate::types::injected(t);
    if t is Inject || t is Both {
        assert(has_fields(t, fields));
        if crate::plan::any_unresolved(fields) {
            let i = choose|i: int|
                0 <= i < fields.len() && crate::plan::is_unresolved(#[trigger] fields[i]);
            assert(unresolved_field(fields[i]));
        }
    }
    if has_unresolved(t) {
        let (f, i) = choose|f: Seq<InjectedField>, i: int|
            #![trigger has_fields(t, f), f[i]]
            has_fields(t, f) && 0 <= i < f.len() && unresolved_field(f[i]);
        assert(f == fields);
        assert(crate::plan::is_unresolved(fields[i]));
    }
}

/// A document is stored with one index operation where its decision says: as it came where
/// nothing is injected, else as the rewriting layer made it; under the built id where ids
/// are built, else without one; and routed as the id rule says.
pub open spec fn stores(batch: Seq<WriteOp>, resolved: Resolved, body: Seq<u8>, w: Rewritten) -> bool {
    let t = resolved.decision.body_transform;
    &&& batch.len() == 1
    &&& goes_to(batch[0], resolved)
    &&& batch[0].doc is Index
    &&& t is Verbatim || t is ConstructId ==> carried_body(batch[0].doc) == Some(body)
    &&& t is Inject || t is Both ==> carried_body(batch[0].doc) == Some(w.injected->Ok_0@)
    &&& t is Verbatim || t is Inject ==> carried_id(batch[0].doc) is None
    &&& t is ConstructId || t is Both ==> carried_id(batch[0].doc) == Some(w.id->Ok_0@)
    &&& routed(t, resolved.partition@, carried_routing(batch[0].doc))
}

/// An ingest is stored, or enqueued to be stored, exactly where what its transform needs of
/// the rewriting layer is there; else it fails with the first thing that is not.
pub proof fn law_an_ingest_stores_its_document(
    ctx: &RequestCtx,
    resolved: &Resolved,
    w: Rewritten,
    mode: WriteMode,
    queue_enabled: bool,
    r: Result<WriteStep, RequestError>,
)
    requires
        call_ensures(ingest_doc, (ctx, resolved, w, mode, queue_enabled), r),
    ensures
        ({
            let t = resolved.decision.body_transform;
            let injects = t is Inject || t is Both;
            let builds = t is ConstructId || t is Both;
            let loose = has_unresolved(t);
            &&& r is Ok <==> !loose && (injects ==> w.injected is Ok) && (!injects ==> w.valid is Ok)
                && (builds ==> w.id is Ok)
            &&& loose ==> r->Err_0 is Internal
            &&& !loose && injects && w.injected is Err ==> r == Err::<WriteStep, _>(
                RequestError::Rewrite(w.injected->Err_0),
            )
            &&& !injects && w.valid is Err ==> r == Err::<WriteStep, _>(
                RequestError::Rewrite(w.valid->Err_0),
            )
            &&& r is Ok && mode is Sync ==> r->Ok_0 is Dispatch && stores(
                r->Ok_0->Dispatch_0@,
                *resolved,
                ctx.body@,
                w,
            )
            &&& r is Ok && mode is Async ==> r->Ok_0 is Async && async_step(
                r->Ok_0->Async_0,
                *ctx,
                queue_enabled,
                resolved.partition@,
            )
            &&& r is Ok && mode is Async && r->Ok_0->Async_0 is Enqueue ==> stores(
                r->Ok_0->Async_0->Enqueue_0.batch@,
                *resolved,
                ctx.body@,
                w,
            )
        }),
{
    lemma_unresolved(resolved.decision.body_transform);
    if r is Ok && mode is Async {
        lemma_async_step(r->Ok_0->Async_0, *ctx, queue_enabled, resolved.partition@);
    }
}

/// The rewriting layer is told to splice in every field, in order, under its name: a
/// constant with its own value, else the partition. Only a document that nothing is spliced
/// into is to be checked by itself, and an id is to be built just where there is an id rule,
/// with its template.
pub proof fn law_every_field_is_to_be_spliced_in(
    resolved: &Resolved,
    fields: Seq<InjectedField>,
    r: Result<RewritePlan, RequestError>,
)
    requires
        call_ensures(plan_rewrite, (resolved,), r),
    ensures
        ({
            let t = resolved.decision.body_transform;
            &&& r is Err <==> has_unresolved(t)
            &&& r matches Ok(plan) ==> {
                &&& t is Verbatim || t is ConstructId ==> plan.inject is None && plan.validate
                &&& has_fields(t, fields) ==> {
                    &&& !plan.validate
                    &&& plan.inject matches Some(pairs)
                    &&& pairs@.len() == fields.len()
                    &&& forall|i: int|
                        0 <= i < fields.len() ==> {
                            &&& (#[trigger] pairs@[i]).0@ == fields[i].name@
                            &&& match fields[i].value {
                                InjectedValue::Constant(v) => tree(pairs@[i].1) == tree(v),
                                _ => tree(pairs@[i].1) == Tree::Str(resolved.partition@),
                            }
                        }
                }
                &&& keeps_ids(t) ==> plan.id_template is None
                &&& forall|rule: crate::types::DocIdRule| #[trigger]
                    builds_ids(t, rule) ==> (plan.id_template matches Some(template) && template@
                        == rule.template@)
            }
        }),
{
    lemma_unresolved(resolved.decision.body_transform);
}

/// The delete of one document, where its decision says: under the client's own id without an
/// id rule, else under what the rule maps it to.
pub open spec fn removes(
    op: WriteOp,
    resolved: Resolved,
    id: Seq<char>,
    mapped: Result<String, RewriteError>,
) -> bool {
    let t = resolved.decision.body_transform;
    &&& goes_to(op, resolved)
    &&& op.doc is Delete
    &&& keeps_ids(t) ==> carried_id(op.doc) == Some(id)
    &&& !keeps_ids(t) ==> mapped is Ok && carried_id(op.doc) == Some(mapped->Ok_0@)
    &&& routed(t, resolved.partition@, carried_routing(op.doc))
}

/// A delete by id removes the document that the path names; it fails only where no document
/// is named or its id cannot be mapped.
pub proof fn law_a_delete_removes_the_document_it_names(
    ctx: &RequestCtx,
    resolved: &Resolved,
    mapped: Result<String, RewriteError>,
    mode: WriteMode,
    queue_enabled: bool,
    r: Result<WriteStep, RequestError>,
)
    requires
        call_ensures(delete_by_id, (ctx, resolved, mapped, mode, queue_enabled), r),
    ensures
        ({
            let keeps = keeps_ids(resolved.decision.body_transform);
            &&& r is Ok <==> ctx.doc_id is Some && (keeps || mapped is Ok)
            &&& ctx.doc_id is None ==> r->Err_0 is Internal
            &&& ctx.doc_id is Some && !keeps && mapped is Err ==> r == Err::<WriteStep, _>(
                RequestError::Rewrite(mapped->Err_0),
            )
            &&& r is Ok && mode is Sync ==> {
                &&& r->Ok_0 is Dispatch
                &&& r->Ok_0->Dispatch_0@.len() == 1
                &&& removes(r->Ok_0->Dispatch_0@[0], *resolved, ctx.doc_id->Some_0@, mapped)
            }
            &&& r is Ok && mode is Async ==> r->Ok_0 is Async && async_step(
                r->Ok_0->Async_0,
                *ctx,
                queue_enabled,
                resolved.partition@,
            )
            &&& r is Ok && mode is Async && r->Ok_0->Async_0 is Enqueue ==> {
                let batch = r->Ok_0->Async_0->Enqueue_0.batch@;
                batch.len() == 1 && removes(batch[0], *resolved, ctx.doc_id->Some_0@, mapped)
            }
        }),
{
    if r is Ok && mode is Async {
        lemma_async_step(r->Ok_0->Async_0, *ctx, queue_enabled, resolved.partition@);
    }
}

/// A write that the migration gate does not admit is not sent, and its client may try again.
pub proof fn law_a_stale_write_is_held_back(
    resolved: &Resolved,
    admitted: bool,
    r: Result<(), RequestError>,
)
    requires
        call_ensures(gate_write, (resolved, admitted), r),
    ensures
        r is Ok <==> admitted,
        r matches Err(e) ==> (e matches RequestError::StaleEpoch { stamped } && stamped
            == resolved.decision.epoch) && e.spec_retryable(),
{
}

/// The answer to an ingest gives the cluster's status, the document's logical id where there
/// is one and its stored id where there is none, and whether it was created or updated.
pub proof fn law_an_ingest_is_answered_with_its_result(
    ack: &WriteAck,
    logical: Option<&str>,
    r: PipelineResponse,
)
    requires
        call_ensures(response_for, (ack, logical), r),
        ack.results@.len() > 0,
    ensures
        r.status == ack.results@[0].status,
        r.content_type is None,
        r.body@ == encode_utf8(
            "{\"_id\":\""@ + (if logical is Some {
                logical->Some_0@
            } else {
                ack.results@[0].id@
            }) + "\",\"result\":\""@ + (if ack.results@[0].created {
                "created"@
            } else {
                "updated"@
            }) + "\"}"@,
        ),
{
}

/// The answer to a delete gives the cluster's status, the logical index and id, and whether
/// there was a document to delete.
pub proof fn law_a_delete_is_answered_with_its_result(
    ctx: &RequestCtx,
    id: &str,
    ack: &WriteAck,
    r: PipelineResponse,
)
    requires
        call_ensures(deleted, (ctx, id, ack), r),
        ack.results@.len() > 0,
    ensures
        answers_with(
            r,
            ack.results@[0].status as int,
            map![
                "_index"@ => Tree::Str(ctx.logical_index@),
                "_id"@ => Tree::Str(id@),
                "result"@ => Tree::Str(if ack.results@[0].status == 404 { "not_found"@ } else { "deleted"@ }),
            ],
        ),
{
    let result = Tree::Str(
        if ack.results@[0].status == 404 {
            "not_found"@
        } else {
            "deleted"@
        },
    );
    assert(crate::read::named(ctx.logical_index@, id@).insert("result"@, result) =~= map![
        "_index"@ => Tree::Str(ctx.logical_index@),
        "_id"@ => Tree::Str(id@),
        "result"@ => result,
    ]);
}

/// A delete-by-query runs only in the asynchronous mode, where it was switched on and there
/// is a queue.
pub proof fn law_a_delete_by_query_needs_mode_switch_and_queue(
    ctx: &RequestCtx,
    mode: WriteMode,
    expansion: bool,
    queue_enabled: bool,
    r: Option<PipelineResponse>,
)
    requires
        call_ensures(refuse, (ctx, mode, expansion, queue_enabled), r),
    ensures
        r is None <==> mode is Async && expansion && queue_enabled,
        !(mode is Async) ==> refuses(
            r->Some_0,
            400,
            "delete_by_query is only supported in async write mode"@,
            ctx.logical_index@,
        ),
        mode is Async && !expansion ==> refuses(
            r->Some_0,
            400,
            "delete_by_query expansion is not enabled on this proxy"@,
            ctx.logical_index@,
        ),
        mode is Async && expansion && !queue_enabled ==> refuses(
            r->Some_0,
            422,
            "async write mode is not available on this proxy"@,
            ctx.logical_index@,
        ),
{
    if r is Some {
        let (status, reason) = crate::dbq::refusal(mode, expansion, queue_enabled)->Some_0;
        lemma_rejected(r->Some_0, status, reason, ctx.logical_index@);
    }
}

/// The search for the documents to delete is the client's own with three members set: one
/// more hit than the cap allows, no sources, an exact total. Every other member, the query
/// among them, is as it was.
pub proof fn law_the_match_search_keeps_the_query(
    body: &[u8],
    m: Map<Seq<char>, Tree>,
    r: Result<Vec<u8>, RequestError>,
)
    requires
        call_ensures(cap_ids_only, (body,), r),
    ensures
        json::parsed(body@) == Some(Tree::Object(m)) ==> r is Ok && exists|sent: Map<Seq<char>, Tree>|
            {
                &&& r->Ok_0@ == #[trigger] json::written(Tree::Object(sent))
                &&& sent.dom().contains("size"@) && sent["size"@] == Tree::Uint(10_001)
                &&& sent.dom().contains("_source"@) && sent["_source"@] == Tree::Bool(false)
                &&& sent.dom().contains("track_total_hits"@) && sent["track_total_hits"@] == Tree::Bool(
                    true,
                )
                &&& forall|k: Seq<char>|
                    k != "size"@ && k != "_source"@ && k != "track_total_hits"@ ==> (
                    #[trigger] sent.dom().contains(k) <==> m.dom().contains(k)) && (m.dom().contains(k)
                        ==> sent[k] == m[k])
            },
        json::parsed(body@) is None ==> r == Err::<Vec<u8>, _>(
            RequestError::Rewrite(RewriteError::InvalidJson),
        ),
        (json::parsed(body@) matches Some(t) && !(t is Object)) ==> r is Err,
{
    reveal_strlit("size");
    reveal_strlit("_source");
    reveal_strlit("track_total_hits");
    let sent = crate::dbq::capped(m);
    assert("size"@.len() == 4 && "_source"@.len() == 7 && "track_total_hits"@.len() == 16);
    if json::parsed(body@) == Some(Tree::Object(m)) {
        assert(r->Ok_0@ == json::written(Tree::Object(sent)));
    }
}

/// The documents to delete are looked for where the request was resolved to, with the
/// partition's own query and no parameter of the client's.
pub proof fn law_matches_are_looked_for_in_the_partition(
    resolved: &Resolved,
    wrapped: Result<Vec<u8>, RewriteError>,
    r: Result<SearchOp, RequestError>,
    capped: Result<Vec<u8>, RequestError>,
    body: &[u8],
)
    requires
        call_ensures(match_search, (resolved, wrapped), r),
        wrapped matches Ok(w) ==> w@ == body@,
        call_ensures(cap_ids_only, (body,), capped),
    ensures
        wrapped matches Err(e) ==> r == Err::<SearchOp, _>(RequestError::Rewrite(e)),
        wrapped is Ok ==> (r is Ok <==> capped is Ok),
        r matches Ok(op) ==> {
            &&& op.target == resolved.decision.target
            &&& op.protocol == resolved.decision.upstream_protocol
            &&& op.query is None
            &&& op.body@ == capped->Ok_0@
        },
{
}

/// One queued delete of the document stored under `id`, at its place in the batch.
pub open spec fn queues_delete(
    w: QueuedWrite,
    ctx: RequestCtx,
    resolved: Resolved,
    at: int,
    id: Seq<char>,
) -> bool {
    &&& w.partition_key@ == resolved.partition@
    &&& w.batch@.len() == 1
    &&& goes_to(w.batch@[0], resolved)
    &&& w.batch@[0].doc is Delete
    &&& carried_id(w.batch@[0].doc) == Some(id)
    &&& routed(
        resolved.decision.body_transform,
        resolved.partition@,
        carried_routing(w.batch@[0].doc),
    )
    &&& exists|batch: Seq<char>| #[trigger]
        handle(ctx, ctx.request_id@, batch) && w.op_id@ == batch + ":"@ + decimal_text(at as nat)
}

proof fn lemma_queued_delete(w: QueuedWrite, ctx: RequestCtx, resolved: Resolved, at: int, id: Seq<char>)
    requires
        at >= 0,
        crate::dbq::is_queued_delete(w, ctx, resolved, at as nat, id),
    ensures
        queues_delete(w, ctx, resolved, at, id),
{
    lemma_handle(ctx, ctx.request_id@);
    let batch = crate::asyncwrite::op_id(ctx);
    assert(handle(ctx, ctx.request_id@, batch));
    assert(item_op_id(batch, at as nat) == batch + ":"@ + decimal_text(at as nat));
}

/// One delete is queued for each id, in order and none besides.
pub proof fn law_each_id_gets_a_delete(
    ctx: &RequestCtx,
    resolved: &Resolved,
    ids: Vec<String>,
    r: Vec<QueuedWrite>,
)
    requires
        call_ensures(deletes, (ctx, resolved, ids), r),
    ensures
        r@.len() == ids@.len(),
        forall|i: int|
            0 <= i < ids@.len() ==> queues_delete(#[trigger] r@[i], *ctx, *resolved, i, ids@[i]@),
{
    assert forall|i: int| 0 <= i < ids@.len() implies queues_delete(
        #[trigger] r@[i],
        *ctx,
        *resolved,
        i,
        ids@[i]@,
    ) by {
        lemma_queued_delete(r@[i], *ctx, *resolved, i, ids@[i]@);
    }
}

/// A hit is stored under `id`.
pub open spec fn hit_under(hit: Tree, id: Seq<char>) -> bool {
    hit matches Tree::Object(m) && m.dom().contains("_id"@) && m["_id"@] == Tree::Str(id)
}

/// A hit is stored under some id.
pub open spec fn hit_has_id(hit: Tree) -> bool {
    exists|id: Seq<char>| hit_under(hit, id)
}

/// The ids of two lists of hits are those of the first, then those of the second; and one
/// hit gives its id, or none where it has none.
pub proof fn law_every_hit_gives_its_id(a: Seq<Tree>, b: Seq<Tree>, hit: Tree, id: Seq<char>)
    ensures
        ids_of(a + b) == ids_of(a) + ids_of(b),
        hit_under(hit, id) ==> ids_of(seq![hit]) == seq![id],
        !hit_has_id(hit) ==> ids_of(seq![hit]).len() == 0,
        ids_of(Seq::empty()).len() == 0,
    decreases b.len(),
{
    let one = seq![hit];
    assert(one.drop_last() =~= Seq::empty());
    assert(ids_of(one.drop_last()) =~= Seq::empty());
    if hit_under(hit, id) {
        assert(ids_of(one) =~= seq![id]);
    }
    if let Some(s) = json::text_of(json::field(hit, "_id"@)) {
        assert(hit_under(hit, s));
    }
    if b.len() == 0 {
        assert(a + b =~= a);
        assert(ids_of(a) + ids_of(b) =~= ids_of(a));
    } else {
        let init = b.drop_last();
        law_every_hit_gives_its_id(a, init, hit, id);
        assert((a + b).drop_last() =~= a + init);
        assert(ids_of(a + b) =~= ids_of(a) + ids_of(b));
    }
}

proof fn lemma_ids(hits: Seq<Tree>, i: int, id: Seq<char>)
    requires
        0 <= i < hits.len(),
        hit_under(hits[i], id),
    ensures
        ids_of(hits).contains(id),
{
    let a = hits.take(i);
    let b = hits.skip(i + 1);
    let one = seq![hits[i]];
    law_every_hit_gives_its_id(a, one, hits[i], id);
    law_every_hit_gives_its_id(a + one, b, hits[i], id);
    assert(hits =~= a + one + b);
    assert(ids_of(hits)[ids_of(a).len() as int] == id);
}

proof fn lemma_all_ids(hits: Seq<Tree>)
    requires
        forall|i: int| 0 <= i < hits.len() ==> hit_has_id(#[trigger] hits[i]),
    ensures
        ids_of(hits).len() == hits.len(),
        forall|i: int| 0 <= i < hits.len() ==> hit_under(#[trigger] hits[i], ids_of(hits)[i]),
    decreases hits.len(),
{
    if hits.len() > 0 {
        let init = hits.drop_last();
        assert forall|i: int| 0 <= i < init.len() implies hit_has_id(#[trigger] init[i]) by {
            assert(hits[i] == init[i]);
        }
        lemma_all_ids(init);
        let last = hits[hits.len() - 1];
        assert(hit_has_id(last));
        let id = choose|id: Seq<char>| hit_under(last, id);
        assert forall|i: int| 0 <= i < hits.len() implies hit_under(
            #[trigger] hits[i],
            ids_of(hits)[i],
        ) by {
            if i < init.len() {
                assert(hits[i] == init[i]);
                assert(hit_under(init[i], ids_of(init)[i]));
            }
        }
    }
}

proof fn lemma_ids_are_hits(hits: Seq<Tree>, k: int)
    requires
        0 <= k < ids_of(hits).len(),
    ensures
        exists|i: int| 0 <= i < hits.len() && hit_under(#[trigger] hits[i], ids_of(hits)[k]),
    decreases hits.len(),
{
    if hits.len() > 0 {
        let init = hits.drop_last();
        if k < ids_of(init).len() {
            lemma_ids_are_hits(init, k);
            let i = choose|i: int| 0 <= i < init.len() && hit_under(#[trigger] init[i], ids_of(init)[k]);
            assert(hits[i] == init[i]);
            assert(ids_of(hits)[k] == ids_of(init)[k]);
        } else {
            assert(hit_under(hits[hits.len() - 1], ids_of(hits)[k]));
        }
    }
}

/// An answer that counts `total` matches and lists these hits.
pub open spec fn lists_hits(t: Tree, total: u64, hits: Seq<Tree>) -> bool {
    &&& t matches Tree::Object(top)
    &&& top.dom().contains("hits"@)
    &&& top["hits"@] matches Tree::Object(outer)
    &&& outer.dom().contains("hits"@) && outer["hits"@] == Tree::Array(hits)
    &&& counts(outer, total)
}

/// What the `hits` of an answer count: the integer `value` of their `total`, and nothing
/// where there is none.
pub open spec fn counts(outer: Map<Seq<char>, Tree>, total: u64) -> bool {
    &&& (exists|n: u64| #[trigger] counts_exactly(outer, n)) ==> counts_exactly(outer, total)
    &&& !(exists|n: u64| #[trigger] counts_exactly(outer, n)) ==> total == 0
}

/// The `total` of the hits has the integer `value` `n`.
pub open spec fn counts_exactly(outer: Map<Seq<char>, Tree>, n: u64) -> bool {
    &&& outer.dom().contains("total"@)
    &&& outer["total"@] matches Tree::Object(count)
    &&& count.dom().contains("value"@) && count["value"@] == Tree::Uint(n)
}

/// Some delete of the batch is for the document stored under `id`.
pub open spec fn has_delete(
    writes: Seq<QueuedWrite>,
    ctx: RequestCtx,
    resolved: Resolved,
    id: Seq<char>,
) -> bool {
    exists|k: int| 0 <= k < writes.len() && queues_delete(#[trigger] writes[k], ctx, resolved, k, id)
}

/// The `k`-th delete of the batch is for a document among the hits.
pub open spec fn is_for_a_hit(
    writes: Seq<QueuedWrite>,
    ctx: RequestCtx,
    resolved: Resolved,
    hits: Seq<Tree>,
    k: int,
) -> bool {
    exists|i: int, id: Seq<char>|
        0 <= i < hits.len() && #[trigger] hit_under(hits[i], id) && queues_delete(
            writes[k],
            ctx,
            resolved,
            k,
            id,
        )
}

/// Every hit of the answer that is stored under an id has its delete, no delete is for
/// anything else, and where every hit has an id there are exactly as many deletes as hits,
/// in their order. Past the cap nothing is deleted.
pub proof fn law_every_match_is_deleted(
    ctx: &RequestCtx,
    resolved: &Resolved,
    answer: &[u8],
    total: u64,
    hits: Seq<Tree>,
    r: Result<DbqStep, RequestError>,
)
    requires
        call_ensures(expand, (ctx, resolved, answer), r),
        json::parsed(answer@) matches Some(t) && lists_hits(t, total, hits),
    ensures
        r is Ok,
        total > 10_000 ==> (r->Ok_0 matches DbqStep::Refused(a) && refuses(
            a,
            400,
            "delete_by_query match set exceeds the proxy cap"@,
            ctx.logical_index@,
        )),
        total <= 10_000 ==> r->Ok_0 is Enqueue,
        r->Ok_0 matches DbqStep::Enqueue { total: counted, writes } ==> counted == total,
        r->Ok_0 matches DbqStep::Enqueue { total: _, writes } ==> forall|i: int, id: Seq<char>|
            0 <= i < hits.len() && #[trigger] hit_under(hits[i], id) ==> has_delete(
                writes@,
                *ctx,
                *resolved,
                id,
            ),
        r->Ok_0 matches DbqStep::Enqueue { total: _, writes } ==> forall|k: int|
            0 <= k < writes@.len() ==> #[trigger] is_for_a_hit(writes@, *ctx, *resolved, hits, k),
        (forall|i: int| 0 <= i < hits.len() ==> hit_has_id(#[trigger] hits[i])) ==> (
        r->Ok_0 matches DbqStep::Enqueue { total: _, writes } ==> writes@.len() == hits.len() && forall|
            i: int,
            id: Seq<char>,
        |
            0 <= i < hits.len() && #[trigger] hit_under(hits[i], id) ==> queues_delete(
                writes@[i],
                *ctx,
                *resolved,
                i,
                id,
            )),
{
    let t = json::parsed(answer@)->Some_0;
    let outer = t->Object_0["hits"@]->Object_0;
    assert(crate::dbq::total_of(t) == total) by {
        if crate::dbq::total_of(t) != 0 {
            assert(counts_exactly(outer, crate::dbq::total_of(t)));
        }
        if exists|n: u64| #[trigger] counts_exactly(outer, n) {
            assert(counts_exactly(outer, total));
        }
    }
    assert(crate::dbq::matched_ids(t) == ids_of(hits));
    if let DbqStep::Refused(a) = r->Ok_0 {
        lemma_rejected(
            a,
            400,
            "delete_by_query match set exceeds the proxy cap"@,
            ctx.logical_index@,
        );
    }
    if let DbqStep::Enqueue { total: counted, writes } = r->Ok_0 {
        let ids = ids_of(hits);
        assert forall|k: int| 0 <= k < writes@.len() implies queues_delete(
            #[trigger] writes@[k],
            *ctx,
            *resolved,
            k,
            ids[k],
        ) by {
            lemma_queued_delete(writes@[k], *ctx, *resolved, k, ids[k]);
        }
        assert forall|i: int, id: Seq<char>|
            0 <= i < hits.len() && #[trigger] hit_under(hits[i], id) implies has_delete(
            writes@,
            *ctx,
            *resolved,
            id,
        ) by {
            lemma_ids(hits, i, id);
            let k = choose|k: int| 0 <= k < ids.len() && ids[k] == id;
            assert(queues_delete(writes@[k], *ctx, *resolved, k, ids[k]));
        }
        assert forall|k: int| 0 <= k < writes@.len() implies #[trigger] is_for_a_hit(
            writes@,
            *ctx,
            *resolved,
            hits,
            k,
        ) by {
            lemma_ids_are_hits(hits, k);
            let i = choose|i: int| 0 <= i < hits.len() && hit_under(#[trigger] hits[i], ids[k]);
            assert(hit_under(hits[i], ids[k]) && queues_delete(writes@[k], *ctx, *resolved, k, ids[k]));
        }
        if forall|i: int| 0 <= i < hits.len() ==> hit_has_id(#[trigger] hits[i]) {
            lemma_all_ids(hits);
            assert forall|i: int, id: Seq<char>|
                0 <= i < hits.len() && #[trigger] hit_under(hits[i], id) implies queues_delete(
                writes@[i],
                *ctx,
                *resolved,
                i,
                id,
            ) by {
                assert(hit_under(hits[i], ids[i]));
                assert(id == ids[i]);
                assert(queues_delete(writes@[i], *ctx, *resolved, i, ids[i]));
            }
        }
    }
}

/// The deletes the queue took are counted one by one.
pub proof fn law_taken_deletes_are_counted(
    a: Seq<Result<(), QueueError>>,
    b: Seq<Result<(), QueueError>>,
    one: Result<(), QueueError>,
)
    ensures
        taken(Seq::empty()) == 0,
        taken(seq![one]) == if one is Ok {
            1nat
        } else {
            0nat
        },
        taken(a + b) == taken(a) + taken(b),
    decreases b.len(),
{
    assert(seq![one].drop_last() =~= Seq::empty());
    assert(taken(seq![one].drop_last()) == 0);
    if b.len() == 0 {
        assert(a + b =~= a);
    } else {
        law_taken_deletes_are_counted(a, b.drop_last(), one);
        assert((a + b).drop_last() =~= a + b.drop_last());
    }
}

/// The answer to a delete-by-query counts what matched and what was enqueued, and reports
/// one failure for each delete that was not.
pub proof fn law_a_delete_by_query_reports_every_delete(
    total: u64,
    acks: &[Result<(), QueueError>],
    r: PipelineResponse,
)
    requires
        call_ensures(acknowledged, (total, acks), r),
    ensures
        r.status == 200,
        r.content_type is None,
        exists|m: Map<Seq<char>, Tree>|
            {
                &&& r.body@ == #[trigger] json::written(Tree::Object(m))
                &&& m.dom() =~= set![
                    "took"@,
                    "timed_out"@,
                    "total"@,
                    "deleted"@,
                    "version_conflicts"@,
                    "batches"@,
                    "failures"@,
                ]
                &&& m["total"@] == Tree::Uint(total)
                &&& m["deleted"@] == Tree::Uint(taken(acks@) as u64)
                &&& m["took"@] == Tree::Uint(0)
                &&& m["timed_out"@] == Tree::Bool(false)
                &&& m["version_conflicts"@] == Tree::Uint(0)
                &&& m["batches"@] == Tree::Uint(1)
                &&& m["failures"@] matches Tree::Array(failures)
                &&& failures.len() + taken(acks@) == acks@.len()
                &&& forall|i: int|
                    0 <= i < failures.len() ==> (#[trigger] failures[i]) == Tree::Object(
                        map!["status"@ => Tree::Uint(503), "type"@ => Tree::Str("enqueue_failed"@)],
                    )
            },
{
    crate::dbq::law_every_delete_is_reported(acks@);
    reveal_strlit("took");
    reveal_strlit("timed_out");
    reveal_strlit("total");
    reveal_strlit("deleted");
    reveal_strlit("version_conflicts");
    reveal_strlit("batches");
    reveal_strlit("failures");
    assert("took"@.len() == 4 && "timed_out"@.len() == 9 && "total"@.len() == 5 && "deleted"@.len() == 7
        && "version_conflicts"@.len() == 17 && "batches"@.len() == 7 && "failures"@.len() == 8);
    assert("deleted"@[0] != "batches"@[0]);
    let m = crate::dbq::report_view(total, acks@)->Object_0;
    assert(crate::dbq::failure_view() == Tree::Object(
        map!["status"@ => Tree::Uint(503), "type"@ => Tree::Str("enqueue_failed"@)],
    )) by {
        assert(crate::dbq::failure_view()->Object_0 =~= map![
            "status"@ => Tree::Uint(503),
            "type"@ => Tree::Str("enqueue_failed"@),
        ]);
    }
    assert(r.body@ == json::written(Tree::Object(m)));
}

} // verus!
