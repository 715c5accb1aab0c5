//! The asynchronous write mode: a mutation is durably enqueued and answered with a
//! handle, instead of being forwarded and answered with its result.
//!
//! A `202` is answered only once the queue has acknowledged the write. Whatever
//! cannot be honoured this way is refused; nothing is accepted and dropped.

use crate::json::{self, Members, Object, Tree};
use crate::pipeline::PipelineResponse;
use crate::text::{contains, key_of, pair_key, split, split_at, views};
use crate::types::{eq_ignoring_case, header, header_of, same_ignoring_case, RequestCtx, WriteOp};
use vstd::prelude::*;

verus! {

/// How a mutation is dispatched.
#[derive(Clone, Copy, Debug, PartialEq, Eq, Structural)]
pub enum WriteMode {
    /// Forward it and answer with its result.
    Sync,
    /// Enqueue it and answer with a handle.
    Async,
}

impl Default for WriteMode {
    fn default() -> (r: Self)
        ensures
            r is Sync,
    {
        WriteMode::Sync
    }
}

impl WriteMode {
    /// The mode a header value names.
    pub open spec fn named(value: Seq<char>) -> Option<WriteMode> {
        if same_ignoring_case(value, "sync"@) {
            Some(WriteMode::Sync)
        } else if same_ignoring_case(value, "async"@) {
            Some(WriteMode::Async)
        } else {
            None
        }
    }

    /// Reads an `X-Write-Mode` header value, whatever the case of its letters; any
    /// value but `sync` and `async` is none.
    pub fn parse(value: &str) -> (r: Option<Self>)
        ensures
            r == WriteMode::named(value@),
    {
        if eq_ignoring_case(value, "sync") {
            Some(WriteMode::Sync)
        } else if eq_ignoring_case(value, "async") {
            Some(WriteMode::Async)
        } else {
            None
        }
    }
}

/// The longest op id accepted from a client, in bytes.
pub const MAX_OP_ID_LEN: usize = 128;

/// A byte an op id may hold: an ASCII letter or digit, `-`, `_`, `.` or `:`.
pub open spec fn op_id_byte(b: u8) -> bool {
    ||| 0x30 <= b <= 0x39
    ||| 0x41 <= b <= 0x5a
    ||| 0x61 <= b <= 0x7a
    ||| b == 0x2d
    ||| b == 0x5f
    ||| b == 0x2e
    ||| b == 0x3a
}

/// An acceptable op id: neither empty nor too long, and made of safe bytes.
pub open spec fn is_op_id(candidate: Seq<char>) -> bool {
    let bytes = vstd::utf8::encode_utf8(candidate);
    &&& 0 < bytes.len() <= MAX_OP_ID_LEN
    &&& forall|i: int| 0 <= i < bytes.len() ==> op_id_byte(#[trigger] bytes[i])
}

/// Whether `candidate` is acceptable as an op id.
pub fn valid_op_id(candidate: &str) -> (r: bool)
    ensures
        r == is_op_id(candidate@),
{
    let bytes = candidate.as_bytes();
    if bytes.len() == 0 || bytes.len() > MAX_OP_ID_LEN {
        return false;
    }
    let mut i: usize = 0;
    while i < bytes.len()
        invariant
            0 <= i <= bytes@.len(),
            bytes@ == vstd::utf8::encode_utf8(candidate@),
            forall|j: int| 0 <= j < i ==> op_id_byte(#[trigger] bytes@[j]),
        decreases bytes@.len() - i,
    {
        let b = bytes[i];
        let safe = (0x30 <= b && b <= 0x39) || (0x41 <= b && b <= 0x5a) || (0x61 <= b && b <= 0x7a)
            || b == 0x2d || b == 0x5f || b == 0x2e || b == 0x3a;
        if !safe {
            assert(!op_id_byte(bytes@[i as int]));
            return false;
        }
        i += 1;
    }
    true
}

/// The op id of a request: its `X-Op-Id` header where that is acceptable, else the id
/// given.
pub open spec fn op_id_or(ctx: RequestCtx, request_id: Seq<char>) -> Seq<char> {
    match header_of(ctx.headers@, "x-op-id"@) {
        Some(h) => if is_op_id(h) {
            h
        } else {
            request_id
        },
        None => request_id,
    }
}

/// The op id of a request: its `X-Op-Id` header where that is acceptable, else its
/// request id.
pub open spec fn op_id(ctx: RequestCtx) -> Seq<char> {
    op_id_or(ctx, ctx.request_id@)
}

/// The op id of a request, with `request_id` where its header gives none.
pub fn op_id_for(ctx: &RequestCtx, request_id: &str) -> (r: String)
    ensures
        r@ == op_id_or(*ctx, request_id@),
{
    match header(ctx.headers.as_slice(), "x-op-id") {
        Some(h) => if valid_op_id(h) {
            h.to_owned()
        } else {
            request_id.to_owned()
        },
        None => request_id.to_owned(),
    }
}

/// A query parameter that makes a write conditional on the document's version.
pub open spec fn is_precondition(key: Seq<char>) -> bool {
    key == "if_seq_no"@ || key == "if_primary_term"@ || key == "version"@
}

/// The query makes the write conditional.
pub open spec fn has_precondition(query: Option<String>) -> bool {
    match query {
        Some(q) => exists|i: int|
            0 <= i < split(q@, '&').len() && is_precondition(key_of(#[trigger] split(q@, '&')[i])),
        None => false,
    }
}

/// Why the asynchronous mode cannot honour a request, if it cannot.
pub open spec fn refusal(ctx: RequestCtx) -> Option<Seq<char>> {
    if has_precondition(ctx.query) {
        Some(
            "optimistic concurrency (if_seq_no/if_primary_term/version) is not supported in async write mode"@,
        )
    } else if split(ctx.path@, '/').contains("_update"@) {
        Some("scripted/partial _update is not supported in async write mode"@)
    } else {
        None
    }
}

fn conditional(query: &Option<String>) -> (r: bool)
    ensures
        r == has_precondition(*query),
{
    let q = match query {
        Some(q) => q,
        None => {
            return false;
        },
    };
    let parts = split_at(q.as_str(), '&');
    let mut keys: Vec<String> = Vec::new();
    keys.push("if_seq_no".to_owned());
    keys.push("if_primary_term".to_owned());
    keys.push("version".to_owned());
    assert(views(keys@) =~= seq!["if_seq_no"@, "if_primary_term"@, "version"@]);
    let mut i: usize = 0;
    while i < parts.len()
        invariant
            views(keys@) == seq!["if_seq_no"@, "if_primary_term"@, "version"@],
            views(parts@) == split(q@, '&'),
            *query == Some(*q),
            0 <= i <= parts@.len(),
            forall|j: int| 0 <= j < i ==> !is_precondition(key_of(#[trigger] split(q@, '&')[j])),
        decreases parts@.len() - i,
    {
        assert(parts@.len() == split(q@, '&').len());
        assert(split(q@, '&')[i as int] == parts@[i as int]@);
        let key = pair_key(parts[i].as_str());
        let hit = contains(keys.as_slice(), key.as_str());
        proof {
            let k = views(keys@);
            assert(k[0] == "if_seq_no"@ && k[1] == "if_primary_term"@ && k[2] == "version"@);
            assert(hit == is_precondition(key@)) by {
                if is_precondition(key@) {
                    assert(k.contains(key@));
                }
            }
        }
        if hit {
            proof {
                let text = query->Some_0@;
                assert(text == q@);
                assert(is_precondition(key_of(split(text, '&')[i as int])));
                assert(has_precondition(*query));
            }
            return true;
        }
        i += 1;
    }
    assert(parts@.len() == split(q@, '&').len());
    false
}

/// Why the asynchronous mode cannot honour a request: a version precondition or a
/// partial update needs the document's current state, which is not there when a
/// write is enqueued.
pub fn unsupported_async(ctx: &RequestCtx) -> (r: Option<&'static str>)
    ensures
        match (r, refusal(*ctx)) {
            (Some(reason), Some(want)) => reason@ == want,
            (None, None) => true,
            _ => false,
        },
{
    if conditional(&ctx.query) {
        return Some(
            "optimistic concurrency (if_seq_no/if_primary_term/version) is not supported in async write mode",
        );
    }
    if contains(split_at(ctx.path.as_str(), '/').as_slice(), "_update") {
        return Some("scripted/partial _update is not supported in async write mode");
    }
    None
}

/// A mutation accepted for fan-out: what the synchronous mode would have dispatched,
/// its correlation id and the key that keeps a partition's writes in order.
#[derive(Debug)]
pub struct QueuedWrite {
    pub op_id: String,
    pub partition_key: String,
    pub batch: Vec<WriteOp>,
}

/// A failure to enqueue a write.
#[derive(Clone, Copy, Debug)]
pub struct QueueError {
    /// A short reason without any value in it.
    pub reason: &'static str,
}

/// The queue of a proxy without one: it is off, and it refuses every write.
#[derive(Clone, Copy, Debug)]
pub struct NoQueue;

impl NoQueue {
    /// Whether writes can be enqueued.
    pub fn enabled(&self) -> (r: bool)
        ensures
            !r,
    {
        false
    }

    /// Refuses a write.
    pub fn enqueue(&self, _write: QueuedWrite) -> (r: Result<(), QueueError>)
        ensures
            r is Err,
            r->Err_0.reason@ == "async write queue is not configured"@,
    {
        Err(QueueError { reason: "async write queue is not configured" })
    }
}

/// The members `status`, a third text and `_index` of an answer.
pub open spec fn verdict(status: Seq<char>, key: Seq<char>, value: Seq<char>, index: Seq<char>) -> Map<
    Seq<char>,
    Tree,
> {
    Map::<Seq<char>, Tree>::empty().insert("status"@, Tree::Str(status)).insert(
        key,
        Tree::Str(value),
    ).insert("_index"@, Tree::Str(index))
}

fn verdict_object(status: &str, key: &str, value: &str, index: &str) -> (r: Object)
    ensures
        r@ == verdict(status@, key@, value@, index@),
{
    Members::new().with("status", json::text(status)).with(key, json::text(value)).with(
        "_index",
        json::text(index),
    )
}

fn respond(status: u16, members: Object) -> (r: PipelineResponse)
    ensures
        r.is_json(status as int, json::written(Tree::Object(members@))),
{
    match json::print(&members.into_value()) {
        Some(body) => PipelineResponse::json(status, body),
        None => PipelineResponse::json(status, Vec::new()),
    }
}

/// The body of the `202` for an enqueued write.
pub open spec fn accepted_body(op_id: Seq<char>, index: Seq<char>) -> Seq<u8> {
    json::written(
        Tree::Object(
            verdict("accepted"@, "result"@, "queued"@, index).insert("op_id"@, Tree::Str(op_id)),
        ),
    )
}

/// The body of a refusal.
pub open spec fn rejected_body(reason: Seq<char>, index: Seq<char>) -> Seq<u8> {
    json::written(Tree::Object(verdict("rejected"@, "error"@, reason, index)))
}

/// The body of the `503` for a write the queue refused.
pub open spec fn enqueue_failed_body(op_id: Seq<char>, index: Seq<char>) -> Seq<u8> {
    json::written(
        Tree::Object(
            verdict("rejected"@, "error"@, "async write could not be enqueued"@, index).insert(
                "op_id"@,
                Tree::Str(op_id),
            ),
        ),
    )
}

/// The `202` for an enqueued write: its handle, and that it is queued, not applied.
pub fn accepted_response(op_id: &str, index: &str) -> (r: PipelineResponse)
    ensures
        r.is_json(202, accepted_body(op_id@, index@)),
{
    respond(
        202,
        verdict_object("accepted", "result", "queued", index).with("op_id", json::text(op_id)),
    )
}

/// The `400` for a write the asynchronous mode cannot honour.
pub fn unsupported_response(reason: &str, index: &str) -> (r: PipelineResponse)
    ensures
        r.is_json(400, rejected_body(reason@, index@)),
{
    respond(400, verdict_object("rejected", "error", reason, index))
}

/// The `422` for an asynchronous write on a proxy without a queue.
pub fn unavailable_response(index: &str) -> (r: PipelineResponse)
    ensures
        r.is_json(422, rejected_body("async write mode is not available on this proxy"@, index@)),
{
    respond(
        422,
        verdict_object(
            "rejected",
            "error",
            "async write mode is not available on this proxy",
            index,
        ),
    )
}

/// The `503` for a write the queue refused; a retry under the same op id is
/// idempotent downstream.
pub fn enqueue_failed_response(op_id: &str, index: &str) -> (r: PipelineResponse)
    ensures
        r.is_json(503, enqueue_failed_body(op_id@, index@)),
{
    respond(
        503,
        verdict_object("rejected", "error", "async write could not be enqueued", index).with(
            "op_id",
            json::text(op_id),
        ),
    )
}

/// What to do with a resolved asynchronous write.
#[derive(Debug)]
pub enum EnqueueStep {
    /// Answer without enqueueing.
    Respond(PipelineResponse),
    /// Enqueue this, then answer with [`enqueued`].
    Enqueue(QueuedWrite),
}

impl EnqueueStep {
    /// What becomes of an asynchronous write for `partition`: refused where it cannot be
    /// honoured or where there is no queue, else enqueued under its op id.
    pub open spec fn is_for(
        self,
        ctx: RequestCtx,
        queue_enabled: bool,
        partition: Seq<char>,
    ) -> bool {
        match refusal(ctx) {
            Some(reason) => self is Respond && self->Respond_0.is_json(
                400,
                rejected_body(reason, ctx.logical_index@),
            ),
            None => if !queue_enabled {
                self is Respond && self->Respond_0.is_json(
                    422,
                    rejected_body(
                        "async write mode is not available on this proxy"@,
                        ctx.logical_index@,
                    ),
                )
            } else {
                &&& self is Enqueue
                &&& self->Enqueue_0.op_id@ == op_id(ctx)
                &&& self->Enqueue_0.partition_key@ == partition
            },
        }
    }
}

/// Decides about a resolved asynchronous write. A write that cannot be honoured is
/// refused whether or not there is a queue; without a queue every write is refused.
pub fn enqueue_async(
    ctx: &RequestCtx,
    queue_enabled: bool,
    partition: &str,
    batch: Vec<WriteOp>,
) -> (r: EnqueueStep)
    ensures
        r.is_for(*ctx, queue_enabled, partition@),
        r is Enqueue ==> r->Enqueue_0.batch == batch,
{
    let index = ctx.logical_index.as_str();
    if let Some(reason) = unsupported_async(ctx) {
        return EnqueueStep::Respond(unsupported_response(reason, index));
    }
    if !queue_enabled {
        return EnqueueStep::Respond(unavailable_response(index));
    }
    EnqueueStep::Enqueue(
        QueuedWrite { op_id: op_id_for(ctx, ctx.request_id.as_str()), partition_key: partition.to_owned(), batch },
    )
}

/// The answer once the queue has spoken: `202` only where it acknowledged the write.
pub fn enqueued(ctx: &RequestCtx, acknowledged: Result<(), QueueError>) -> (r: PipelineResponse)
    ensures
        match acknowledged {
            Ok(()) => r.is_json(202, accepted_body(op_id(*ctx), ctx.logical_index@)),
            Err(_) => r.is_json(503, enqueue_failed_body(op_id(*ctx), ctx.logical_index@)),
        },
        r.status == 202 <==> acknowledged is Ok,
{
    let id = op_id_for(ctx, ctx.request_id.as_str());
    match acknowledged {
        Ok(()) => accepted_response(id.as_str(), ctx.logical_index.as_str()),
        Err(_) => enqueue_failed_response(id.as_str(), ctx.logical_index.as_str()),
    }
}

} // verus!
