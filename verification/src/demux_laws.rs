//! What the demux of a bulk request is for, said of the calls themselves: every operation
//! waits with those for its target, goes out with them in order, and is answered in its own
//! place.

use crate::asyncwrite::{
    accepted_response, enqueue_failed_response, unavailable_response, unsupported_response,
    NoQueue, QueueError, QueuedWrite, WriteMode,
};
use crate::bulk::{
    answers, begin_bulk, build_batch, gate, held_back, in_range, law_answers_stay_in_place,
    lemma_by_target, lemma_picked, op_body_len, queue_item, queued_line, refuse_bulk_async,
    refuse_item_async, total_bytes, BulkStart, Demux, Entry, Place, SubBatch,
};
use crate::bulk_laws::{
    carried_body, carried_id, carried_routing, goes_to, keeps_ids,
    law_the_place_among_those_sent_counts_the_admitted, routed, speaks_of, tells_of,
};
use crate::bulk_order::rank;
use crate::bulkline::{bulk_body, items, response_text, BulkAction, Item, Line, LineKind, Report};
use crate::bulkprep::{prepare, BulkItem, ItemFailure, PlacementStep, Prepared};
use crate::error::{RequestError, RewriteError, SinkError, SpiError};
use crate::json::{self, tree, Tree};
use crate::pipeline::PipelineResponse;
use crate::placements::Placements;
use crate::plan::{build_write_batch, resolve_values, Rewritten};
use crate::read::{build_delete_op, build_delete_op_physical, not_found_body, shape_delete};
use crate::text::decimal_text;
use crate::types::{InjectedField, InjectedValue, RequestCtx, Resolved, Target, WriteAck, WriteOp};
use crate::view_laws::text_in_option;
use crate::write_laws::{
    answers_with, conditional_query, handle, has_unresolved, lemma_handle, lemma_refusal,
    lemma_rejected, lemma_unresolved, refuses, unresolved_field, update_path,
};
use serde_json::Value;
use vstd::prelude::*;

verus! {

/// Where a target is: its cluster, its index and its base URL.
pub open spec fn where_is(t: Target) -> Place {
    (t.cluster@, t.index@, text_in_option(t.endpoint))
}

/// What a demux holds for a place.
pub open spec fn held_for(d: Demux, p: Place) -> Seq<Entry> {
    if d.buffers().dom().contains(p) {
        d.buffers()[p]
    } else {
        Seq::empty()
    }
}

/// A demux starts with one empty slot for each operation, and holds nothing.
pub proof fn law_a_demux_starts_empty(n: usize, i: int, p: Place, d: Demux)
    requires
        call_ensures(Demux::new, (n,), d),
    ensures
        d.slots().len() == n,
        0 <= i < n ==> d.slots()[i] is None,
        held_for(d, p).len() == 0,
{
}

/// A further operation gets the next slot, and nothing else changes.
pub proof fn law_a_further_operation_gets_the_next_slot(d: Demux, i: int, r: (Demux, usize))
    requires
        call_ensures(Demux::push_slot, (d,), r),
    ensures
        r.1 == d.slots().len(),
        r.0.slots().len() == d.slots().len() + 1,
        r.0.slots()[r.1 as int] is None,
        0 <= i < d.slots().len() ==> r.0.slots()[i] == d.slots()[i],
        r.0.buffers() == d.buffers(),
{
}

/// An item is what a line says.
pub open spec fn item_says(x: Item, line: Line) -> bool {
    &&& x.action == line.action
    &&& x.index == line.index@
    &&& x.id == text_in_option(line.id)
    &&& x.status == line.status
    &&& line.kind matches LineKind::Result(word) ==> x.report == Report::Result(word@)
    &&& line.kind matches LineKind::Queued { op_id } ==> x.report == Report::Queued(op_id@)
    &&& line.kind matches LineKind::Error(word) ==> x.report == Report::Error(word@)
}

/// An answer lands in the slot of its operation and touches no other.
pub proof fn law_an_answer_lands_in_its_slot(
    d: Demux,
    ordinal: usize,
    line: Line,
    failure: ItemFailure,
    i: int,
    a: Demux,
    b: Demux,
)
    requires
        ordinal < d.slots().len(),
        call_ensures(Demux::set_line, (d, ordinal, line), a),
        call_ensures(Demux::failed, (d, ordinal, failure), b),
    ensures
        a.slots().len() == d.slots().len() && b.slots().len() == d.slots().len(),
        a.slots()[ordinal as int] matches Some(x) && item_says(x, line),
        b.slots()[ordinal as int] matches Some(x) && {
            &&& x.action == failure.action
            &&& x.index == failure.logical_index@
            &&& x.id == text_in_option(failure.logical_id)
            &&& x.status == failure.status
            &&& x.report == Report::Error(failure.error@)
        },
        0 <= i < d.slots().len() && i != ordinal ==> a.slots()[i] == d.slots()[i] && b.slots()[i]
            == d.slots()[i],
        a.buffers() == d.buffers() && b.buffers() == d.buffers(),
{
}

/// An operation joins those that wait for its target, as the last of them; all others wait as
/// they did. Its sub-batch goes out whole once it holds 256 operations or 4 MiB.
pub proof fn law_an_operation_waits_with_those_for_its_target(
    d: Demux,
    ordinal: usize,
    p: Prepared,
    other: Place,
    r: (Demux, Option<Vec<Entry>>),
)
    requires
        call_ensures(Demux::buffer_and_flush, (d, ordinal, p), r),
    ensures
        ({
            let here = where_is(p.op.target);
            let grown = held_for(d, here).push((ordinal, p));
            let full = grown.len() >= 256 || total_bytes(grown) >= 4_194_304;
            &&& r.1 is Some <==> full
            &&& r.1 matches Some(sent) ==> sent@ == grown && held_for(r.0, here).len() == 0
            &&& r.1 is None ==> held_for(r.0, here) == grown
            &&& other != here ==> held_for(r.0, other) == held_for(d, other)
        }),
        r.0.slots() == d.slots(),
{
}

/// At the end every sub-batch goes out as it was held, and nothing is held any more.
pub proof fn law_what_is_held_goes_out_at_the_end(d: Demux, p: Place, r: (Demux, Vec<SubBatch>))
    requires
        call_ensures(Demux::flush_remaining, (d,), r),
    ensures
        held_for(r.0, p).len() == 0,
        r.0.slots() == d.slots(),
        d.buffers().dom().contains(p) ==> exists|i: int|
            0 <= i < r.1@.len() && (#[trigger] r.1@[i]).place() == p && r.1@[i].held() == d.buffers()[p],
        forall|i: int|
            0 <= i < r.1@.len() ==> d.buffers().dom().contains((#[trigger] r.1@[i]).place())
                && d.buffers()[r.1@[i].place()] == r.1@[i].held(),
        forall|i: int, j: int|
            0 <= i < j < r.1@.len() ==> (#[trigger] r.1@[i]).place() != (#[trigger] r.1@[j]).place(),
{
    lemma_by_target(r.1@);
    if d.buffers().dom().contains(p) {
        let i = choose|i: int| 0 <= i < r.1@.len() && #[trigger] r.1@[i].place() == p;
        assert(r.1@[i].held() == d.buffers()[p]);
    }
}

/// The operations of a sub-batch are those it holds.
pub proof fn law_a_sub_batch_hands_out_its_operations(b: SubBatch, r: Vec<Entry>)
    requires
        call_ensures(SubBatch::into_entries, (b,), r),
    ensures
        r@ == b.held(),
{
}

/// The response holds every slot, in order, with status 200.
pub proof fn law_the_response_is_of_the_slots(
    d: &Demux,
    lines: &[Option<Line>],
    i: int,
    r: PipelineResponse,
    body: Vec<u8>,
)
    requires
        call_ensures(Demux::response, (d,), r),
        call_ensures(bulk_body, (lines,), body),
    ensures
        r.status == 200 && r.content_type is None,
        r.body@ == response_text(d.slots()),
        body@ == response_text(items(lines@)),
        items(lines@).len() == lines@.len(),
        0 <= i < lines@.len() ==> {
            &&& lines@[i] is None ==> items(lines@)[i] is None
            &&& lines@[i] matches Some(line) ==> (items(lines@)[i] matches Some(x) && item_says(x, line))
        },
{
}

/// The migration gate sends on exactly what it admits, in order, and holds back the rest.
pub proof fn law_the_gate_sends_on_what_it_admits(
    entries: Vec<Entry>,
    admits: &[bool],
    j: int,
    k: int,
    r: (Vec<Entry>, Vec<Entry>),
)
    requires
        admits@.len() == entries@.len(),
        call_ensures(gate, (entries, admits), r),
        0 <= j < k < entries@.len(),
    ensures
        r.0@.len() + r.1@.len() == entries@.len(),
        admits@[j] ==> r.0@.contains(entries@[j]),
        !admits@[j] ==> r.1@.contains(entries@[j]),
        admits@[k] ==> r.0@.contains(entries@[k]),
        !admits@[k] ==> r.1@.contains(entries@[k]),
        admits@[j] && admits@[k] ==> exists|a: int, b: int|
            0 <= a < b < r.0@.len() && #[trigger] r.0@[a] == entries@[j] && #[trigger] r.0@[b]
                == entries@[k],
{
    lemma_picked(entries@, admits@);
    law_the_place_among_those_sent_counts_the_admitted(entries@, admits@, admits@[j], j);
    law_the_place_among_those_sent_counts_the_admitted(entries@, admits@, admits@[k], k);
    if admits@[j] && admits@[k] {
        let a = rank(entries@, admits@, true, j);
        let b = rank(entries@, admits@, true, k);
        lemma_rank_grows(entries@, admits@, j, k);
        assert(r.0@[a] == entries@[j] && r.0@[b] == entries@[k]);
    }
}

proof fn lemma_rank_grows(entries: Seq<Entry>, flags: Seq<bool>, j: int, k: int)
    requires
        flags.len() == entries.len(),
        0 <= j < k < entries.len(),
        flags[j],
    ensures
        rank(entries, flags, true, j) < rank(entries, flags, true, k),
    decreases k - j,
{
    law_the_place_among_those_sent_counts_the_admitted(entries, flags, true, k - 1);
    if j < k - 1 {
        lemma_rank_grows(entries, flags, j, k - 1);
    }
}

/// Two writes are the same.
pub open spec fn same_write(a: WriteOp, b: WriteOp) -> bool {
    &&& a.target == b.target
    &&& a.epoch == b.epoch
    &&& a.protocol == b.protocol
    &&& a.doc is Index == b.doc is Index
    &&& a.doc is Create == b.doc is Create
    &&& a.doc is Update == b.doc is Update
    &&& a.doc is Delete == b.doc is Delete
    &&& carried_id(a.doc) == carried_id(b.doc)
    &&& carried_routing(a.doc) == carried_routing(b.doc)
    &&& carried_body(a.doc) == carried_body(b.doc)
}

/// What is dispatched is the operations, each as it was prepared, in order.
pub proof fn law_a_batch_is_the_operations(entries: &[Entry], i: int, r: Vec<WriteOp>)
    requires
        call_ensures(build_batch, (entries,), r),
    ensures
        r@.len() == entries@.len(),
        0 <= i < entries@.len() ==> same_write(r@[i], entries@[i].1.op),
{
    if 0 <= i < entries@.len() {
        assert(r@[i].doc@ == entries@[i].1.op.doc@);
    }
}

/// The size of an operation is that of the body it carries.
pub proof fn law_the_size_is_that_of_the_body(op: &WriteOp, r: usize)
    requires
        call_ensures(op_body_len, (op,), r),
    ensures
        r == match carried_body(op.doc) {
            Some(body) => body.len(),
            None => 0,
        },
{
}

/// No two entries are for the same operation.
pub open spec fn of_different_operations(entries: Seq<Entry>) -> bool {
    forall|i: int, j: int| 0 <= i < j < entries.len() ==> (#[trigger] entries[i]).0 != (#[trigger] entries[j]).0
}

/// What is held back is answered with a conflict, each in its own slot.
pub proof fn law_what_is_held_back_is_answered_in_place(
    d: Demux,
    rejected: &[Entry],
    i: int,
    k: int,
    r: Demux,
)
    requires
        call_ensures(Demux::apply_rejected, (d, rejected), r),
        in_range(rejected@, d.slots().len() as int),
        of_different_operations(rejected@),
    ensures
        r.slots().len() == d.slots().len(),
        r.buffers() == d.buffers(),
        0 <= i < rejected@.len() ==> (r.slots()[rejected@[i].0 as int] matches Some(x) && tells_of(
            x,
            rejected@[i].1,
        ) && x.status == 409 && x.report == Report::Error("stale_epoch"@)),
        0 <= k < d.slots().len() && (forall|j: int|
            0 <= j < rejected@.len() ==> (#[trigger] rejected@[j]).0 != k) ==> r.slots()[k]
            == d.slots()[k],
{
    let writes = held_back(rejected@);
    lemma_writes(rejected@, writes, d.slots().len() as int);
    law_answers_stay_in_place(d.slots(), writes);
    if 0 <= i < rejected@.len() {
        assert(writes[i].0 == rejected@[i].0);
        assert(r.slots()[writes[i].0 as int] == Some(writes[i].1));
    }
    if 0 <= k < d.slots().len() && (forall|j: int|
        0 <= j < rejected@.len() ==> (#[trigger] rejected@[j]).0 != k) {
        assert forall|j: int| 0 <= j < writes.len() implies writes[j].0 != k by {
            assert(rejected@[j].0 != k);
        }
        assert(r.slots()[k] == d.slots()[k]);
    }
}

proof fn lemma_writes(entries: Seq<Entry>, writes: Seq<(usize, Item)>, slots: int)
    requires
        in_range(entries, slots),
        of_different_operations(entries),
        writes.len() <= entries.len(),
        forall|i: int| 0 <= i < writes.len() ==> (#[trigger] writes[i]).0 == entries[i].0,
    ensures
        crate::bulk::writes_in_range(writes, slots),
        crate::bulk::distinct_slots(writes),
{
    assert forall|i: int| 0 <= i < writes.len() implies (#[trigger] writes[i]).0 < slots by {
        assert(entries[i].0 < slots);
    }
    assert forall|i: int, j: int| 0 <= i < j < writes.len() implies #[trigger] writes[i].0
        != #[trigger] writes[j].0 by {
        assert(entries[i].0 != entries[j].0);
    }
}

/// What was sent is answered with its own result, each in its own slot; where the target
/// failed, all of it is answered with that.
pub proof fn law_what_was_sent_is_answered_in_place(
    d: Demux,
    entries: &[Entry],
    result: Result<WriteAck, SinkError>,
    i: int,
    k: int,
    r: Demux,
)
    requires
        call_ensures(Demux::apply_results, (d, entries, result), r),
        in_range(entries@, d.slots().len() as int),
        of_different_operations(entries@),
    ensures
        r.slots().len() == d.slots().len(),
        r.buffers() == d.buffers(),
        0 <= i < entries@.len() && result is Err ==> (
        r.slots()[entries@[i].0 as int] matches Some(x) && tells_of(x, entries@[i].1) && x.status == 502
            && x.report == Report::Error("upstream_failed"@)),
        result matches Ok(ack) ==> (0 <= i < entries@.len() && i < ack.results@.len() ==> (
        r.slots()[entries@[i].0 as int] matches Some(x) && tells_of(x, entries@[i].1) && x.status
            == ack.results@[i].status && (x.report is Error <==> ack.results@[i].status >= 400))),
        0 <= k < d.slots().len() && (forall|j: int|
            0 <= j < entries@.len() ==> (#[trigger] entries@[j]).0 != k) ==> r.slots()[k] == d.slots()[k],
{
    let writes = answers(entries@, result);
    lemma_writes(entries@, writes, d.slots().len() as int);
    law_answers_stay_in_place(d.slots(), writes);
    if 0 <= i < writes.len() {
        assert(writes[i].0 == entries@[i].0);
        assert(r.slots()[writes[i].0 as int] == Some(writes[i].1));
    }
    if 0 <= k < d.slots().len() && (forall|j: int|
        0 <= j < entries@.len() ==> (#[trigger] entries@[j]).0 != k) {
        assert forall|j: int| 0 <= j < writes.len() implies writes[j].0 != k by {
            assert(entries@[j].0 != k);
        }
        assert(r.slots()[k] == d.slots()[k]);
    }
}

/// A whole bulk is refused for what the asynchronous mode cannot honour, or for want of a
/// queue; in the synchronous mode it is sent, whatever it says.
pub proof fn law_a_bulk_is_refused_for_what_cannot_be_honoured(
    ctx: &RequestCtx,
    mode: WriteMode,
    queue_enabled: bool,
    refused: Option<PipelineResponse>,
    r: BulkStart,
)
    requires
        call_ensures(refuse_bulk_async, (ctx, queue_enabled), refused),
        call_ensures(begin_bulk, (ctx, mode, queue_enabled), r),
    ensures
        ({
            let honoured = !conditional_query(*ctx) && !update_path(*ctx);
            &&& refused is None <==> honoured && queue_enabled
            &&& r is Dispatch <==> mode is Sync
            &&& r is Enqueue <==> mode is Async && honoured && queue_enabled
            &&& honoured && !queue_enabled ==> (refused matches Some(a) && refuses(
                a,
                422,
                "async write mode is not available on this proxy"@,
                ctx.logical_index@,
            ))
            &&& conditional_query(*ctx) ==> (refused matches Some(a) && refuses(
                a,
                400,
                "optimistic concurrency (if_seq_no/if_primary_term/version) is not supported in async write mode"@,
                ctx.logical_index@,
            ))
            &&& !conditional_query(*ctx) && update_path(*ctx) ==> (refused matches Some(a) && refuses(
                a,
                400,
                "scripted/partial _update is not supported in async write mode"@,
                ctx.logical_index@,
            ))
            &&& r matches BulkStart::Refused(a) ==> refused is Some && a.status
                == refused->Some_0.status && a.body@ == refused->Some_0.body@
        }),
{
    lemma_refusal(*ctx);
    if let Some(a) = refused {
        if let Some(reason) = crate::asyncwrite::refusal(*ctx) {
            lemma_rejected(a, 400, reason, ctx.logical_index@);
        } else {
            lemma_rejected(
                a,
                422,
                "async write mode is not available on this proxy"@,
                ctx.logical_index@,
            );
        }
    }
}

/// Of an asynchronous bulk exactly the updates and the conditional operations are refused.
pub proof fn law_an_operation_is_refused_for_what_cannot_be_honoured(
    item: &BulkItem,
    ctx: &RequestCtx,
    r: Option<Line>,
)
    requires
        call_ensures(refuse_item_async, (item, ctx), r),
    ensures
        r is Some <==> item.action == BulkAction::Update || item.concurrency_control,
        r matches Some(line) ==> {
            &&& line.action == item.action
            &&& line.status == 400
            &&& line.kind matches LineKind::Error(word) && word@ == "unsupported_async"@
            &&& text_in_option(line.id) == text_in_option(item.id)
            &&& item.index matches Some(index) ==> line.index@ == index@
            &&& item.index is None ==> line.index@ == ctx.logical_index@
        },
{
}

/// A prepared operation is enqueued alone, for its partition, under the handle of the request
/// followed by its position; it is said to be queued, under that handle, only once it is.
pub proof fn law_an_operation_is_enqueued_under_its_own_handle(
    ctx: &RequestCtx,
    ordinal: usize,
    p: &Prepared,
    acknowledged: Result<(), QueueError>,
    queued: QueuedWrite,
    line: Line,
)
    requires
        call_ensures(queue_item, (ctx, ordinal, p), queued),
        call_ensures(queued_line, (ctx, ordinal, p, acknowledged), line),
    ensures
        exists|id: Seq<char>| #[trigger]
            handle(*ctx, ctx.request_id@, id) && queued.op_id@ == id + ":"@ + decimal_text(
                ordinal as nat,
            ),
        queued.partition_key@ == p.partition@,
        queued.batch@.len() == 1 && same_write(queued.batch@[0], p.op),
        speaks_of(line, *p),
        acknowledged is Ok ==> line.status == 202 && (line.kind matches LineKind::Queued { op_id }
            && op_id@ == queued.op_id@),
        acknowledged is Err ==> line.status == 503 && (line.kind matches LineKind::Error(word) && word@
            == "enqueue_failed"@),
{
    lemma_handle(*ctx, ctx.request_id@);
    assert(handle(*ctx, ctx.request_id@, crate::asyncwrite::op_id(*ctx)));
    assert(queued.batch@[0].doc@ == p.op.doc@);
}

/// The lines of a response hold what they are made of.
pub proof fn law_a_line_holds_what_it_is_made_of(
    action: BulkAction,
    index: String,
    id: Option<String>,
    status: u16,
    word: &'static str,
    op_id: String,
    done: Line,
    queued: Line,
    failed: Line,
    line: &Line,
    is_error: bool,
    keyword: &'static str,
    has_source: bool,
)
    requires
        call_ensures(Line::result, (action, index, id, status, word), done),
        call_ensures(Line::queued, (action, index, id, status, op_id), queued),
        call_ensures(Line::error, (action, index, id, status, word), failed),
        call_ensures(Line::is_error, (line,), is_error),
        call_ensures(BulkAction::keyword, (action,), keyword),
        call_ensures(BulkAction::has_source, (action,), has_source),
    ensures
        done.kind matches LineKind::Result(w) && w@ == word@,
        queued.kind matches LineKind::Queued { op_id: w } && w@ == op_id@,
        failed.kind matches LineKind::Error(w) && w@ == word@,
        forall|l: Line|
            #![trigger text_in_option(l.id)]
            l == done || l == queued || l == failed ==> l.action == action && l.index@ == index@
                && text_in_option(l.id) == text_in_option(id) && l.status == status,
        is_error <==> line.kind is Error,
        keyword@ == match action {
            BulkAction::Index => "index"@,
            BulkAction::Create => "create"@,
            BulkAction::Update => "update"@,
            BulkAction::Delete => "delete"@,
        },
        has_source <==> action != BulkAction::Delete,
{
    assert forall|l: Line| #![trigger text_in_option(l.id)]
        l == done || l == queued || l == failed implies l.action == action && l.index@ == index@
        && text_in_option(l.id) == text_in_option(id) && l.status == status by {
        assert(l@.index == index@ && l@.action == action && l@.status == status);
        assert(crate::types::opt(l.id) == crate::types::opt(id));
    }
}

/// The line of an operation that failed says what failed.
pub proof fn law_a_failure_becomes_its_line(f: ItemFailure, line: Line)
    requires
        call_ensures(ItemFailure::into_line, (f,), line),
    ensures
        line.action == f.action,
        line.index@ == f.logical_index@,
        text_in_option(line.id) == text_in_option(f.logical_id),
        line.status == f.status,
        line.kind matches LineKind::Error(word) && word@ == f.error@,
{
    assert(crate::types::opt(line.id) == crate::types::opt(f.logical_id));
}

/// A placement that was fetched is found again under its partition and index, and nothing
/// else is changed by keeping it.
pub proof fn law_a_fetched_placement_is_found_again(
    cache: &mut Placements,
    partition: String,
    index: String,
    resolved: Resolved,
    other: (Seq<char>, Seq<char>),
)
    requires
        call_ensures(Placements::insert, (cache, partition, index, resolved), ()),
    ensures
        final(cache)@.dom().contains((partition@, index@)),
        final(cache)@[(partition@, index@)] == resolved,
        other != (partition@, index@) ==> final(cache)@.dom().contains(other) == old(
            cache,
        )@.dom().contains(other) && final(cache)@[other] == old(cache)@[other],
{
}

/// A request starts without placements, and one is found exactly under the partition and
/// index it was kept for.
pub proof fn law_a_placement_is_found_under_its_key(
    fresh: Placements,
    cache: &Placements,
    partition: &str,
    index: &str,
    r: Option<&Resolved>,
)
    requires
        call_ensures(Placements::new, (), fresh),
        call_ensures(Placements::get, (cache, partition, index), r),
    ensures
        !fresh@.dom().contains((partition@, index@)),
        r is Some <==> cache@.dom().contains((partition@, index@)),
        r matches Some(x) ==> *x == cache@[(partition@, index@)],
{
}

/// An operation is looked up under its partition and the index it names, else the request's;
/// what is not there is fetched, and an operation without a partition fails.
pub proof fn law_a_placement_is_looked_up_before_it_is_fetched(
    ctx: &RequestCtx,
    item: &BulkItem,
    partition: Result<String, SpiError>,
    cache: &Placements,
    r: PlacementStep,
)
    requires
        call_ensures(prepare, (ctx, item, partition, cache), r),
    ensures
        ({
            let index = match item.index {
                Some(index) => index@,
                None => ctx.logical_index@,
            };
            &&& partition is Err <==> r is Failed
            &&& r matches PlacementStep::Failed(f) ==> {
                &&& f.status == 400
                &&& f.error@ == "partition_unresolved"@
                &&& f.action == item.action
                &&& f.logical_index@ == index
                &&& text_in_option(f.logical_id) == text_in_option(item.id)
            }
            &&& r matches PlacementStep::Known(x) ==> cache@.dom().contains((partition->Ok_0@, index))
                && *x == cache@[(partition->Ok_0@, index)]
            &&& r matches PlacementStep::Fetch { partition: p, index: i } ==> !cache@.dom().contains(
                (partition->Ok_0@, index),
            ) && p@ == partition->Ok_0@ && i@ == index
        }),
{
}

/// The answers to asynchronous writes, and what each holds.
pub proof fn law_asynchronous_answers_hold_what_they_say(
    op_id: &str,
    reason: &str,
    index: &str,
    accepted: PipelineResponse,
    unsupported: PipelineResponse,
    unavailable: PipelineResponse,
    failed: PipelineResponse,
)
    requires
        call_ensures(accepted_response, (op_id, index), accepted),
        call_ensures(unsupported_response, (reason, index), unsupported),
        call_ensures(unavailable_response, (index,), unavailable),
        call_ensures(enqueue_failed_response, (op_id, index), failed),
    ensures
        answers_with(
            accepted,
            202,
            map![
                "status"@ => Tree::Str("accepted"@),
                "result"@ => Tree::Str("queued"@),
                "_index"@ => Tree::Str(index@),
                "op_id"@ => Tree::Str(op_id@),
            ],
        ),
        refuses(unsupported, 400, reason@, index@),
        refuses(unavailable, 422, "async write mode is not available on this proxy"@, index@),
        answers_with(
            failed,
            503,
            map![
                "status"@ => Tree::Str("rejected"@),
                "error"@ => Tree::Str("async write could not be enqueued"@),
                "_index"@ => Tree::Str(index@),
                "op_id"@ => Tree::Str(op_id@),
            ],
        ),
{
    lemma_rejected(unsupported, 400, reason@, index@);
    lemma_rejected(unavailable, 422, "async write mode is not available on this proxy"@, index@);
    assert(crate::asyncwrite::verdict("accepted"@, "result"@, "queued"@, index@).insert(
        "op_id"@,
        Tree::Str(op_id@),
    ) =~= map![
        "status"@ => Tree::Str("accepted"@),
        "result"@ => Tree::Str("queued"@),
        "_index"@ => Tree::Str(index@),
        "op_id"@ => Tree::Str(op_id@),
    ]);
    assert(crate::asyncwrite::verdict(
        "rejected"@,
        "error"@,
        "async write could not be enqueued"@,
        index@,
    ).insert("op_id"@, Tree::Str(op_id@)) =~= map![
        "status"@ => Tree::Str("rejected"@),
        "error"@ => Tree::Str("async write could not be enqueued"@),
        "_index"@ => Tree::Str(index@),
        "op_id"@ => Tree::Str(op_id@),
    ]);
}

/// A proxy without a queue enqueues nothing.
pub proof fn law_no_queue_takes_nothing(
    q: &NoQueue,
    write: QueuedWrite,
    enabled: bool,
    r: Result<(), QueueError>,
)
    requires
        call_ensures(NoQueue::enabled, (q,), enabled),
        call_ensures(NoQueue::enqueue, (q, write), r),
    ensures
        !enabled,
        r matches Err(e) && e.reason@ == "async write queue is not configured"@,
{
}

/// An ingested document is stored by one operation, where its decision says: its bytes as the
/// rewriting layer spliced them where fields are injected, else its own; under the id that
/// was built where there is a rule. It fails exactly where a part of that failed.
pub proof fn law_a_document_is_stored_as_it_was_rewritten(
    resolved: &Resolved,
    body: &[u8],
    w: Rewritten,
    r: Result<Vec<WriteOp>, RequestError>,
)
    requires
        call_ensures(build_write_batch, (resolved, body, w), r),
    ensures
        ({
            let t = resolved.decision.body_transform;
            let splices = t is Inject || t is Both;
            let builds = t is ConstructId || t is Both;
            let sound = !has_unresolved(t) && (splices ==> w.injected is Ok) && (!splices ==> w.valid is Ok)
                && (builds ==> w.id is Ok);
            &&& r is Ok <==> sound
            &&& r matches Ok(batch) ==> {
                &&& batch@.len() == 1
                &&& goes_to(batch@[0], *resolved)
                &&& batch@[0].doc is Index
                &&& carried_body(batch@[0].doc) == Some(
                    if splices {
                        w.injected->Ok_0@
                    } else {
                        body@
                    },
                )
                &&& carried_id(batch@[0].doc) == if builds {
                    Some(w.id->Ok_0@)
                } else {
                    None
                }
                &&& routed(t, resolved.partition@, carried_routing(batch@[0].doc))
            }
            &&& has_unresolved(t) ==> (r matches Err(RequestError::Internal { reason }) && reason@
                == "context-derived injected value reached the engine unresolved"@)
            &&& !has_unresolved(t) && splices && w.injected is Err ==> r == Err::<Vec<WriteOp>, _>(
                RequestError::Rewrite(w.injected->Err_0),
            )
            &&& !splices && w.valid is Err ==> r == Err::<Vec<WriteOp>, _>(
                RequestError::Rewrite(w.valid->Err_0),
            )
            &&& !has_unresolved(t) && (splices ==> w.injected is Ok) && (!splices ==> w.valid is Ok)
                && builds && w.id is Err ==> r == Err::<Vec<WriteOp>, _>(
                RequestError::Rewrite(w.id->Err_0),
            )
        }),
{
    lemma_unresolved(resolved.decision.body_transform);
    if let Ok(batch) = r {
        assert(batch@[0].doc@ is Index);
    }
}

/// The values to inject: a constant as it is, the partition where that is asked for, and a
/// failure for anything that depends on the request.
pub proof fn law_values_are_resolved_before_they_are_injected(
    fields: &[InjectedField],
    partition: &str,
    i: int,
    r: Result<Vec<(String, Value)>, RequestError>,
)
    requires
        call_ensures(resolve_values, (fields, partition), r),
    ensures
        r is Err <==> exists|j: int| 0 <= j < fields@.len() && unresolved_field(#[trigger] fields@[j]),
        r matches Ok(values) ==> {
            &&& values@.len() == fields@.len()
            &&& 0 <= i < fields@.len() ==> {
                &&& values@[i].0@ == fields@[i].name@
                &&& fields@[i].value matches InjectedValue::Constant(v) ==> tree(values@[i].1) == tree(v)
                &&& fields@[i].value is PartitionId ==> tree(values@[i].1) == Tree::Str(partition@)
            }
        },
{
    if crate::plan::any_unresolved(fields@) {
        let j = choose|j: int|
            0 <= j < fields@.len() && crate::plan::is_unresolved(#[trigger] fields@[j]);
        assert(unresolved_field(fields@[j]));
    }
    if exists|j: int| 0 <= j < fields@.len() && unresolved_field(#[trigger] fields@[j]) {
        let j = choose|j: int| 0 <= j < fields@.len() && unresolved_field(#[trigger] fields@[j]);
        assert(crate::plan::is_unresolved(fields@[j]));
    }
}

/// A document known by its physical id is deleted under that id, where the decision says.
pub proof fn law_a_physical_id_is_deleted_as_it_is(resolved: &Resolved, id: String, r: WriteOp)
    requires
        call_ensures(build_delete_op_physical, (resolved, id), r),
    ensures
        goes_to(r, *resolved),
        r.doc is Delete,
        carried_id(r.doc) == Some(id@),
        routed(resolved.decision.body_transform, resolved.partition@, carried_routing(r.doc)),
{
    assert(r.doc@ is Delete);
}

/// A delete by id is for the document that its client names: under that id where ids are
/// kept, else under the one it maps to; it fails exactly where there is none.
pub proof fn law_a_delete_is_for_the_document_named(
    resolved: &Resolved,
    id: &str,
    mapped: Result<String, RewriteError>,
    r: Result<WriteOp, RequestError>,
)
    requires
        call_ensures(build_delete_op, (resolved, id, mapped), r),
    ensures
        ({
            let t = resolved.decision.body_transform;
            &&& r is Ok <==> keeps_ids(t) || mapped is Ok
            &&& r is Err ==> r == Err::<WriteOp, _>(RequestError::Rewrite(mapped->Err_0))
            &&& r matches Ok(op) ==> {
                &&& goes_to(op, *resolved)
                &&& op.doc is Delete
                &&& keeps_ids(t) ==> carried_id(op.doc) == Some(id@)
                &&& !keeps_ids(t) ==> carried_id(op.doc) == Some(mapped->Ok_0@)
                &&& routed(t, resolved.partition@, carried_routing(op.doc))
            }
        }),
{
    if let Ok(op) = r {
        assert(op.doc@ is Delete);
    }
}

/// The answer to a delete, and that for a document that does not exist, name the client's own
/// index and id.
pub proof fn law_a_delete_is_answered_in_logical_terms(
    index: &str,
    id: &str,
    status: u16,
    deleted: Vec<u8>,
    missing: Vec<u8>,
)
    requires
        call_ensures(shape_delete, (index, id, status), deleted),
        call_ensures(not_found_body, (index, id), missing),
    ensures
        deleted@ == json::written(
            Tree::Object(
                map![
                    "_index"@ => Tree::Str(index@),
                    "_id"@ => Tree::Str(id@),
                    "result"@ => Tree::Str(
                        if status == 404 {
                            "not_found"@
                        } else {
                            "deleted"@
                        },
                    ),
                ],
            ),
        ),
        missing@ == json::written(
            Tree::Object(
                map![
                    "_index"@ => Tree::Str(index@),
                    "_id"@ => Tree::Str(id@),
                    "found"@ => Tree::Bool(false),
                ],
            ),
        ),
{
    let m = crate::read::named(index@, id@);
    let word = Tree::Str(
        if status == 404 {
            "not_found"@
        } else {
            "deleted"@
        },
    );
    assert(m.insert("result"@, word) =~= map![
        "_index"@ => Tree::Str(index@),
        "_id"@ => Tree::Str(id@),
        "result"@ => word,
    ]);
    assert(m.insert("found"@, Tree::Bool(false)) =~= map![
        "_index"@ => Tree::Str(index@),
        "_id"@ => Tree::Str(id@),
        "found"@ => Tree::Bool(false),
    ]);
}

} // verus!
