//! The endpoints, each as the decisions between its outside steps: what to send, and what
//! to answer once something came back. Resolving, rewriting, signing and sending are done
//! around these functions, which take their results.

use crate::asyncwrite::{enqueue_async, EnqueueStep, WriteMode};
use crate::cursor::{
    created_key, created_pit_id, cursor_body, cursor_request, forwardable_query, forwarded_query,
    pit_close_request, pit_id_in_body, pit_id_in_response, pit_of, pit_rewritten,
    rewrite_cursor_body, rewrite_pit_id, scroll_id, scroll_id_in_response, scroll_of, text_in,
    text_replaced, wrap_created_pit, wrap_pit_id_in_response, wrap_scroll_id_in_response,
    CursorRequest,
};
use crate::error::{RequestError, RewriteError};
use crate::json;
use crate::pipeline::PipelineResponse;
use crate::plan::{build_write_batch, is_index_batch, is_unresolved_error, stored, Rewritten};
use crate::read::{
    build_delete_op, build_read_op, build_search_op, found_view, is_delete, named, not_found_body,
    not_found_view, physical_id, shape_delete, shape_found, shape_hits, shaped_answer, ReadShape,
};
use crate::text::{decimal, decimal_text, views};
use crate::types::{
    clone_bytes, clone_text, opt, opts, routing, CountOutcome, CursorOp, CursorOutcome, ReadOp,
    ReadOutcome, RequestCtx, Resolved, SearchOp, SearchOutcome, WriteAck, WriteOp,
};
use vstd::prelude::*;
use vstd::string::*;
use vstd::utf8::encode_utf8;

verus! {

/// The migration gate, at dispatch: a write whose placement has moved on since it was
/// stamped is held back, to be tried again under the new placement.
pub fn gate_write(resolved: &Resolved, admitted: bool) -> (r: Result<(), RequestError>)
    ensures
        r == (if admitted {
            Ok::<(), RequestError>(())
        } else {
            Err(RequestError::StaleEpoch { stamped: resolved.decision.epoch })
        }),
{
    if admitted {
        Ok(())
    } else {
        Err(RequestError::StaleEpoch { stamped: resolved.decision.epoch })
    }
}

/// What to do with a write whose batch is built.
#[derive(Debug)]
pub enum WriteStep {
    /// It is asynchronous.
    Async(EnqueueStep),
    /// Pass it through the migration gate, then send it.
    Dispatch(Vec<WriteOp>),
}

fn write_step(
    ctx: &RequestCtx,
    resolved: &Resolved,
    batch: Vec<WriteOp>,
    mode: WriteMode,
    queue_enabled: bool,
) -> (r: WriteStep)
    ensures
        match mode {
            WriteMode::Async => {
                &&& r is Async
                &&& r->Async_0.is_for(*ctx, queue_enabled, resolved.partition@)
                &&& r->Async_0 is Enqueue ==> r->Async_0->Enqueue_0.batch == batch
            },
            WriteMode::Sync => r == WriteStep::Dispatch(batch),
        },
{
    match mode {
        WriteMode::Async => WriteStep::Async(
            enqueue_async(ctx, queue_enabled, resolved.partition.as_str(), batch),
        ),
        WriteMode::Sync => WriteStep::Dispatch(batch),
    }
}

/// The ingest of one document, once it is resolved and rewritten.
pub fn ingest_doc(
    ctx: &RequestCtx,
    resolved: &Resolved,
    rewritten: Rewritten,
    mode: WriteMode,
    queue_enabled: bool,
) -> (r: Result<WriteStep, RequestError>)
    ensures
        match stored(resolved.decision.body_transform, ctx.body@, rewritten) {
            Ok((id, bytes)) => r is Ok && match mode {
                WriteMode::Async => {
                    &&& r->Ok_0 is Async
                    &&& r->Ok_0->Async_0.is_for(*ctx, queue_enabled, resolved.partition@)
                    &&& r->Ok_0->Async_0 is Enqueue ==> is_index_batch(
                        r->Ok_0->Async_0->Enqueue_0.batch@,
                        *resolved,
                        id,
                        bytes,
                    )
                },
                WriteMode::Sync => r->Ok_0 is Dispatch && is_index_batch(
                    r->Ok_0->Dispatch_0@,
                    *resolved,
                    id,
                    bytes,
                ),
            },
            Err(Some(e)) => r == Err::<WriteStep, _>(RequestError::Rewrite(e)),
            Err(None) => r is Err && is_unresolved_error(r->Err_0),
        },
{
    match build_write_batch(resolved, ctx.body.as_slice(), rewritten) {
        Ok(batch) => Ok(write_step(ctx, resolved, batch, mode, queue_enabled)),
        Err(e) => Err(e),
    }
}

/// The body that answers an ingest.
pub open spec fn ingested_body(id: Seq<char>, created: bool) -> Seq<u8> {
    encode_utf8(
        "{\"_id\":\""@ + id + "\",\"result\":\""@ + (if created {
            "created"@
        } else {
            "updated"@
        }) + "\"}"@,
    )
}

/// The answer to the ingest of one document. It names the document by the id its client
/// knows: `logical_id`, what the id rule makes of the stored id, or the stored id itself
/// where the rule gives none.
pub fn response_for(ack: &WriteAck, logical_id: Option<&str>) -> (r: PipelineResponse)
    ensures
        if ack.results@.len() == 0 {
            r.is_json(200, encode_utf8("{}"@))
        } else {
            r.is_json(
                ack.results@[0].status as int,
                ingested_body(
                    match logical_id {
                        Some(id) => id@,
                        None => ack.results@[0].id@,
                    },
                    ack.results@[0].created,
                ),
            )
        },
{
    if ack.results.len() == 0 {
        return PipelineResponse::json(200, clone_bytes("{}".as_bytes()));
    }
    let first = &ack.results[0];
    let id = match logical_id {
        Some(id) => id,
        None => first.id.as_str(),
    };
    let mut body = "{\"_id\":\"".to_owned();
    body.append(id);
    body.append("\",\"result\":\"");
    body.append(
        if first.created {
            "created"
        } else {
            "updated"
        },
    );
    body.append("\"}");
    PipelineResponse::json(first.status, clone_bytes(body.as_str().as_bytes()))
}

/// The failure of a by-id request that names no document.
pub open spec fn is_internal(e: RequestError, reason: Seq<char>) -> bool {
    e is Internal && e->Internal_reason@ == reason
}

/// The failure of a request whose cursor cannot be routed.
pub open spec fn is_cursor_error(e: RequestError, reason: Seq<char>) -> bool {
    e is Cursor && e->Cursor_reason@ == reason
}

/// A by-id fetch, with what its answer is shaped by.
#[derive(Debug)]
pub struct Lookup {
    pub op: ReadOp,
    pub shape: ReadShape,
    pub logical_id: String,
}

/// The fetch of the document a request names. `mapped` is the physical id its id rule
/// gives.
pub fn get_by_id(
    ctx: &RequestCtx,
    resolved: &Resolved,
    mapped: Result<String, RewriteError>,
) -> (r: Result<Lookup, RequestError>)
    ensures
        match ctx.doc_id {
            None => r is Err && is_internal(
                r->Err_0,
                "get-by-id reached the engine without a document id"@,
            ),
            Some(logical) => match physical_id(
                resolved.decision.body_transform,
                logical@,
                mapped,
            ) {
                Err(e) => r == Err::<Lookup, _>(RequestError::Rewrite(e)),
                Ok(id) => {
                    &&& r is Ok
                    &&& r->Ok_0.op.target == resolved.decision.target
                    &&& r->Ok_0.op.id@ == id
                    &&& opt(r->Ok_0.op.routing) == routing(
                        resolved.decision.body_transform,
                        resolved.partition@,
                    )
                    &&& r->Ok_0.op.protocol == resolved.decision.upstream_protocol
                    &&& r->Ok_0.shape.of(resolved.decision.body_transform)
                    &&& r->Ok_0.logical_id@ == logical@
                },
            },
        },
{
    let logical_id = match &ctx.doc_id {
        Some(id) => id,
        None => {
            return Err(
                RequestError::Internal {
                    reason: "get-by-id reached the engine without a document id",
                },
            );
        },
    };
    match build_read_op(resolved, logical_id.as_str(), mapped) {
        Ok((op, shape)) => Ok(Lookup { op, shape, logical_id: logical_id.clone() }),
        Err(e) => Err(e),
    }
}

/// The answer to a by-id read: the document in its client's view, or that there is none.
pub fn got(ctx: &RequestCtx, lookup: &Lookup, outcome: &ReadOutcome) -> (r: Result<
    PipelineResponse,
    RequestError,
>)
    ensures
        if outcome.found {
            match json::parsed(outcome.body@) {
                Some(t) => r is Ok && r->Ok_0.is_json(
                    200,
                    json::written(
                        found_view(
                            t,
                            ctx.logical_index@,
                            lookup.logical_id@,
                            views(lookup.shape.inject_names@),
                        ),
                    ),
                ),
                None => r == Err::<PipelineResponse, _>(
                    RequestError::Rewrite(RewriteError::InvalidJson),
                ),
            }
        } else {
            r is Ok && r->Ok_0.is_json(
                404,
                json::written(not_found_view(ctx.logical_index@, lookup.logical_id@)),
            )
        },
{
    let index = ctx.logical_index.as_str();
    let id = lookup.logical_id.as_str();
    if outcome.found {
        match shape_found(outcome.body.as_slice(), index, id, lookup.shape.inject_names.as_slice()) {
            Ok(body) => Ok(PipelineResponse::json(200, body)),
            Err(e) => Err(e),
        }
    } else {
        Ok(PipelineResponse::json(404, not_found_body(index, id)))
    }
}

/// The delete of the document a request names.
pub fn delete_by_id(
    ctx: &RequestCtx,
    resolved: &Resolved,
    mapped: Result<String, RewriteError>,
    mode: WriteMode,
    queue_enabled: bool,
) -> (r: Result<WriteStep, RequestError>)
    ensures
        match ctx.doc_id {
            None => r is Err && is_internal(
                r->Err_0,
                "delete-by-id reached the engine without a document id"@,
            ),
            Some(logical) => match physical_id(
                resolved.decision.body_transform,
                logical@,
                mapped,
            ) {
                Err(e) => r == Err::<WriteStep, _>(RequestError::Rewrite(e)),
                Ok(id) => r is Ok && match mode {
                    WriteMode::Async => {
                        &&& r->Ok_0 is Async
                        &&& r->Ok_0->Async_0.is_for(*ctx, queue_enabled, resolved.partition@)
                        &&& r->Ok_0->Async_0 is Enqueue ==> {
                            &&& r->Ok_0->Async_0->Enqueue_0.batch@.len() == 1
                            &&& is_delete(r->Ok_0->Async_0->Enqueue_0.batch@[0], *resolved, id)
                        }
                    },
                    WriteMode::Sync => r->Ok_0 is Dispatch && r->Ok_0->Dispatch_0@.len() == 1
                        && is_delete(r->Ok_0->Dispatch_0@[0], *resolved, id),
                },
            },
        },
{
    let logical_id = match &ctx.doc_id {
        Some(id) => id,
        None => {
            return Err(
                RequestError::Internal {
                    reason: "delete-by-id reached the engine without a document id",
                },
            );
        },
    };
    match build_delete_op(resolved, logical_id.as_str(), mapped) {
        Ok(op) => {
            let mut batch: Vec<WriteOp> = Vec::new();
            batch.push(op);
            Ok(write_step(ctx, resolved, batch, mode, queue_enabled))
        },
        Err(e) => Err(e),
    }
}

/// The status of the first operation of a batch.
pub open spec fn first_status(ack: WriteAck) -> u16 {
    if ack.results@.len() == 0 {
        200
    } else {
        ack.results@[0].status
    }
}

/// The answer to a delete: the cluster's status, and the document by its logical id.
pub fn deleted(ctx: &RequestCtx, logical_id: &str, ack: &WriteAck) -> (r: PipelineResponse)
    ensures
        r.is_json(
            first_status(*ack) as int,
            json::written(
                json::Tree::Object(
                    named(ctx.logical_index@, logical_id@).insert(
                        "result"@,
                        json::Tree::Str(
                            if first_status(*ack) == 404 {
                                "not_found"@
                            } else {
                                "deleted"@
                            },
                        ),
                    ),
                ),
            ),
        ),
{
    let status: u16 = if ack.results.len() == 0 {
        200
    } else {
        ack.results[0].status
    };
    PipelineResponse::json(status, shape_delete(ctx.logical_index.as_str(), logical_id, status))
}

/// Whether a search is pinned to a point in time, by the wrapped id in its body. Without
/// cursor affinity no search is.
pub fn pinned(ctx: &RequestCtx, affinity: bool) -> (r: Option<String>)
    ensures
        opt(r) == (if affinity {
            pit_of(ctx.body@)
        } else {
            None
        }),
{
    if affinity {
        pit_id_in_body(ctx.body.as_slice())
    } else {
        None
    }
}

/// The search of a resolved request, buffered or streamed. `wrapped` is the client's body
/// wrapped in the partition filter; of the client's query string only the cursor
/// parameters go along.
pub fn search(
    ctx: &RequestCtx,
    resolved: &Resolved,
    wrapped: Result<Vec<u8>, RewriteError>,
) -> (r: Result<(SearchOp, ReadShape), RequestError>)
    ensures
        match wrapped {
            Err(e) => r == Err::<(SearchOp, ReadShape), _>(RequestError::Rewrite(e)),
            Ok(body) => {
                &&& r is Ok
                &&& r->Ok_0.0.target == resolved.decision.target
                &&& r->Ok_0.0.body == body
                &&& opt(r->Ok_0.0.query) == forwarded_query(opt(ctx.query))
                &&& r->Ok_0.0.protocol == resolved.decision.upstream_protocol
                &&& r->Ok_0.1.of(resolved.decision.body_transform)
            },
        },
{
    match build_search_op(resolved, wrapped) {
        Ok((op, shape)) => {
            let query = match &ctx.query {
                Some(q) => forwardable_query(Some(q.as_str())),
                None => forwardable_query(None),
            };
            Ok((SearchOp { target: op.target, body: op.body, query, protocol: op.protocol }, shape))
        },
        Err(e) => Err(e),
    }
}

/// An answer whose hits are shaped, and the upstream cursor id in it that is to be wrapped
/// before the client sees it.
#[derive(Debug)]
pub struct Shaped {
    pub status: u16,
    pub body: Vec<u8>,
    pub cursor_id: Option<String>,
}

/// Shapes the answer to a search. Where affinity is on, a scroll id in it is to be
/// wrapped.
pub fn searched(
    ctx: &RequestCtx,
    shape: &ReadShape,
    outcome: &SearchOutcome,
    mapped: &[Option<String>],
    affinity: bool,
) -> (r: Result<Shaped, RequestError>)
    ensures
        match shaped_answer(
            outcome.body@,
            ctx.logical_index@,
            shape.id_rule is Some,
            opts(mapped@),
            views(shape.inject_names@),
        ) {
            None => r == Err::<Shaped, _>(RequestError::Rewrite(RewriteError::InvalidJson)),
            Some(body) => r is Ok && r->Ok_0.status == outcome.status && r->Ok_0.body@ == body && opt(
                r->Ok_0.cursor_id,
            ) == (if affinity {
                scroll_id(body)
            } else {
                None
            }),
        },
{
    match shape_hits(outcome.body.as_slice(), ctx.logical_index.as_str(), shape, mapped) {
        Ok(body) => {
            let cursor_id = if affinity {
                scroll_id_in_response(body.as_slice())
            } else {
                None
            };
            Ok(Shaped { status: outcome.status, body, cursor_id })
        },
        Err(e) => Err(e),
    }
}

/// The answer to a search, with the token that stands for its scroll id, where it has one.
pub fn search_answer(shaped: Shaped, token: &str) -> (r: PipelineResponse)
    ensures
        r.is_json(
            shaped.status as int,
            if shaped.cursor_id is Some {
                text_replaced(shaped.body@, "_scroll_id"@, token@)
            } else {
                shaped.body@
            },
        ),
{
    let body = if shaped.cursor_id.is_some() {
        wrap_scroll_id_in_response(shaped.body, token)
    } else {
        shaped.body
    };
    PipelineResponse::json(shaped.status, body)
}

/// The answer to a count, which the partition filter has scoped already.
pub fn counted(outcome: &CountOutcome) -> (r: PipelineResponse)
    ensures
        r.is_json(
            outcome.status as int,
            encode_utf8("{\"count\":"@ + decimal_text(outcome.count as nat) + "}"@),
        ),
{
    let mut body = "{\"count\":".to_owned();
    body.append(decimal(outcome.count).as_str());
    body.append("}");
    PipelineResponse::json(outcome.status, clone_bytes(body.as_str().as_bytes()))
}

/// What a request on a cursor asks for.
#[derive(Debug)]
pub enum CursorStart {
    /// A point in time is to be opened on the index the request names.
    Create,
    /// An existing cursor is continued, cleared or closed: its wrapped id is to be opened.
    Existing(CursorRequest),
}

/// What a cursor request names: a scroll, else a point in time to close.
pub open spec fn names_cursor(ctx: RequestCtx, req: CursorRequest) -> bool {
    match scroll_of(ctx) {
        Some(id) => req.wrapped@ == id && req.upstream_path@ == "/_search/scroll"@ && req.id_field@
            == "scroll_id"@,
        None => text_in(ctx.body@, "id"@) == Some(req.wrapped@) && req.upstream_path@ == "/_pit"@
            && req.id_field@ == "id"@,
    }
}

/// Tells what a cursor request asks for. Without affinity, or without a cursor in the
/// request, it fails: it is never routed blindly.
pub fn cursor(ctx: &RequestCtx, affinity: bool) -> (r: Result<CursorStart, RequestError>)
    ensures
        if !affinity {
            r is Err && is_cursor_error(r->Err_0, "cursor affinity is not enabled"@)
        } else if ctx.logical_index@.len() > 0 {
            r == Ok::<CursorStart, RequestError>(CursorStart::Create)
        } else if scroll_of(*ctx) is None && text_in(ctx.body@, "id"@) is None {
            r is Err && is_cursor_error(r->Err_0, "no cursor id in the request"@)
        } else {
            r is Ok && r->Ok_0 is Existing && names_cursor(*ctx, r->Ok_0->Existing_0)
        },
{
    if !affinity {
        return Err(RequestError::Cursor { reason: "cursor affinity is not enabled" });
    }
    if !ctx.logical_index.as_str().is_empty() {
        return Ok(CursorStart::Create);
    }
    if let Some(req) = cursor_request(ctx) {
        return Ok(CursorStart::Existing(req));
    }
    match pit_close_request(ctx) {
        Some(req) => Ok(CursorStart::Existing(req)),
        None => Err(RequestError::Cursor { reason: "no cursor id in the request" }),
    }
}

/// What a wrapped cursor id opens to: the cluster it is pinned to and the cluster's own id.
#[derive(Debug)]
pub struct Opened {
    pub cluster: String,
    pub id: String,
}

/// The request on an existing cursor as it is sent to the cursor's cluster. `opened` is
/// what the wrapped id opened to; one that does not verify fails the request. `endpoint`
/// is the base URL the router knows for the cluster.
pub fn cursor_forward(
    ctx: &RequestCtx,
    req: &CursorRequest,
    opened: Option<&Opened>,
    endpoint: Option<String>,
) -> (r: Result<CursorOp, RequestError>)
    ensures
        match opened {
            None => r is Err && is_cursor_error(r->Err_0, "cursor envelope is invalid or expired"@),
            Some(o) => {
                &&& r is Ok
                &&& r->Ok_0.cluster@ == o.cluster@
                &&& r->Ok_0.method@ == ctx.method@
                &&& r->Ok_0.path@ == req.upstream_path@
                &&& r->Ok_0.body@ == cursor_body(ctx.body@, req.id_field@, o.id@)
                &&& r->Ok_0.endpoint == endpoint
                &&& r->Ok_0.query is None
                &&& r->Ok_0.protocol is None
            },
        },
{
    match opened {
        None => Err(RequestError::Cursor { reason: "cursor envelope is invalid or expired" }),
        Some(o) => Ok(
            CursorOp {
                cluster: o.cluster.clone(),
                method: ctx.method.clone(),
                path: req.upstream_path.to_owned(),
                body: rewrite_cursor_body(ctx.body.as_slice(), req.id_field, o.id.as_str()),
                endpoint,
                query: None,
                protocol: None,
            },
        ),
    }
}

/// The scroll id in the answer to a cursor request, which is to be wrapped again for the
/// client's next page.
pub fn next_page_id(outcome: &CursorOutcome) -> (r: Option<String>)
    ensures
        opt(r) == scroll_id(outcome.body@),
{
    scroll_id_in_response(outcome.body.as_slice())
}

/// The answer to a cursor request: the cluster's, with the token for the next page in
/// place of its scroll id. Without a token it is passed on as it is.
pub fn continued(outcome: CursorOutcome, token: Option<&str>) -> (r: PipelineResponse)
    ensures
        r.status == outcome.status,
        r.content_type == outcome.content_type,
        r.body@ == match token {
            Some(t) => text_replaced(outcome.body@, "_scroll_id"@, t@),
            None => outcome.body@,
        },
{
    let body = match token {
        Some(t) => wrap_scroll_id_in_response(outcome.body, t),
        None => outcome.body,
    };
    PipelineResponse::json(outcome.status, body).with_content_type(outcome.content_type)
}

/// Lets a pinned search go on only where its point in time verified.
pub fn pit_opened(opened: Option<Opened>) -> (r: Result<Opened, RequestError>)
    ensures
        match opened {
            Some(o) => r == Ok::<Opened, RequestError>(o),
            None => r is Err && is_cursor_error(r->Err_0, "pit envelope is invalid or expired"@),
        },
{
    match opened {
        Some(o) => Ok(o),
        None => Err(RequestError::Cursor { reason: "pit envelope is invalid or expired" }),
    }
}

/// The search pinned to a point in time, as it is sent to the point's cluster. The body is
/// the one wrapped in the partition filter: pinning a search does not lift its isolation.
pub fn pit_search(
    ctx: &RequestCtx,
    resolved: &Resolved,
    wrapped: Result<Vec<u8>, RewriteError>,
    opened: &Opened,
    endpoint: Option<String>,
) -> (r: Result<(CursorOp, ReadShape), RequestError>)
    ensures
        match wrapped {
            Err(e) => r == Err::<(CursorOp, ReadShape), _>(RequestError::Rewrite(e)),
            Ok(body) => {
                &&& r is Ok
                &&& r->Ok_0.0.cluster@ == opened.cluster@
                &&& r->Ok_0.0.method@ == ctx.method@
                &&& r->Ok_0.0.path@ == "/_search"@
                &&& r->Ok_0.0.body@ == pit_rewritten(body@, opened.id@)
                &&& r->Ok_0.0.endpoint == endpoint
                &&& r->Ok_0.0.query is None
                &&& r->Ok_0.0.protocol is None
                &&& r->Ok_0.1.of(resolved.decision.body_transform)
            },
        },
{
    match build_search_op(resolved, wrapped) {
        Ok((op, shape)) => Ok(
            (
                CursorOp {
                    cluster: opened.cluster.clone(),
                    method: ctx.method.clone(),
                    path: "/_search".to_owned(),
                    body: rewrite_pit_id(op.body, opened.id.as_str()),
                    endpoint,
                    query: None,
                    protocol: None,
                },
                shape,
            ),
        ),
        Err(e) => Err(e),
    }
}

/// Shapes the answer to a pinned search as that to any search. The refreshed point in time
/// it carries is to be wrapped.
pub fn pit_searched(
    ctx: &RequestCtx,
    shape: &ReadShape,
    outcome: &CursorOutcome,
    mapped: &[Option<String>],
) -> (r: Result<Shaped, RequestError>)
    ensures
        match shaped_answer(
            outcome.body@,
            ctx.logical_index@,
            shape.id_rule is Some,
            opts(mapped@),
            views(shape.inject_names@),
        ) {
            None => r == Err::<Shaped, _>(RequestError::Rewrite(RewriteError::InvalidJson)),
            Some(body) => r is Ok && r->Ok_0.status == outcome.status && r->Ok_0.body@ == body && opt(
                r->Ok_0.cursor_id,
            ) == text_in(body, "pit_id"@),
        },
{
    match shape_hits(outcome.body.as_slice(), ctx.logical_index.as_str(), shape, mapped) {
        Ok(body) => {
            let cursor_id = pit_id_in_response(body.as_slice());
            Ok(Shaped { status: outcome.status, body, cursor_id })
        },
        Err(e) => Err(e),
    }
}

/// The answer to a pinned search, with the token that stands for its point in time, where
/// it carries one.
pub fn pit_answer(shaped: Shaped, token: &str) -> (r: PipelineResponse)
    ensures
        r.is_json(
            shaped.status as int,
            if shaped.cursor_id is Some {
                text_replaced(shaped.body@, "pit_id"@, token@)
            } else {
                shaped.body@
            },
        ),
{
    let body = if shaped.cursor_id.is_some() {
        wrap_pit_id_in_response(shaped.body, token)
    } else {
        shaped.body
    };
    PipelineResponse::json(shaped.status, body)
}

/// The opening of a point in time, on the physical index of the resolved target.
pub fn pit_create(ctx: &RequestCtx, resolved: &Resolved) -> (r: CursorOp)
    ensures
        r.cluster@ == resolved.decision.target.cluster@,
        r.method@ == ctx.method@,
        r.path@ == "/"@ + resolved.decision.target.index@ + "/_pit"@,
        r.body@ == ctx.body@,
        r.endpoint == resolved.decision.target.endpoint,
        opt(r.query) == forwarded_query(opt(ctx.query)),
        r.protocol is None,
{
    let target = &resolved.decision.target;
    let mut path = "/".to_owned();
    path.append(target.index.as_str());
    path.append("/_pit");
    let query = match &ctx.query {
        Some(q) => forwardable_query(Some(q.as_str())),
        None => forwardable_query(None),
    };
    CursorOp {
        cluster: target.cluster.clone(),
        method: ctx.method.clone(),
        path,
        body: clone_bytes(ctx.body.as_slice()),
        endpoint: clone_text(&target.endpoint),
        query,
        protocol: None,
    }
}

/// The id of a point in time that was opened, which is to be wrapped for the client.
pub fn opened_pit_id(outcome: &CursorOutcome) -> (r: Option<String>)
    ensures
        opt(r) == text_in(outcome.body@, created_key(outcome.body@)),
{
    created_pit_id(outcome.body.as_slice())
}

/// The answer to the opening of a point in time, with the token in place of its id.
pub fn pit_created(outcome: CursorOutcome, token: Option<&str>) -> (r: PipelineResponse)
    ensures
        r.status == outcome.status,
        r.content_type == outcome.content_type,
        r.body@ == match token {
            Some(t) => text_replaced(outcome.body@, created_key(outcome.body@), t@),
            None => outcome.body@,
        },
{
    let body = match token {
        Some(t) => wrap_created_pit(outcome.body, t),
        None => outcome.body,
    };
    PipelineResponse::json(outcome.status, body).with_content_type(outcome.content_type)
}

} // verus!
