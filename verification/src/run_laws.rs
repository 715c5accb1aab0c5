//! What a bulk request comes to, said of the calls themselves: an operation that fails costs
//! nothing but its own answer, what is sent has passed the migration gate, and every other
//! operation waits, goes out and is answered as if it were alone.

use crate::asyncwrite::{QueueError, QueuedWrite};
use crate::bulk::{total_bytes, Entry, Place};
use crate::bulk_laws::{law_the_place_among_those_sent_counts_the_admitted, tells_of};
use crate::bulk_order::{entry_answer, rank};
use crate::bulkline::{response_text, Item, Report};
use crate::bulkprep::{build_op, Answers, BulkItem, ItemFailure, Prepared};
use crate::bulkrun::{
    AsyncStep, BulkRun, Closing, Enqueueing, Fetching, Flushed, Gating, Progress, Rewriting, Step,
    Writing,
};
use crate::demux_laws::{held_for, same_write, where_is};
use crate::error::{SinkError, SpiError};
use crate::pipeline::PipelineResponse;
use crate::text::decimal_text;
use crate::types::{RequestCtx, Resolved, WriteAck, WriteOp};
use crate::view_laws::text_in_option;
use crate::write_laws::{handle, lemma_handle};
use vstd::prelude::*;

verus! {

/// Nothing changed but the answers.
pub open spec fn only_answers_changed(now: Progress, before: Progress) -> bool {
    &&& now.demux().buffers() == before.demux().buffers()
    &&& now.cache() == before.cache()
    &&& now.left_open() == before.left_open()
}

/// The slot at `k` is answered with a failure of `item`, and all others are as they were.
pub open spec fn only_fails(
    now: Seq<Option<Item>>,
    before: Seq<Option<Item>>,
    k: int,
    item: BulkItem,
    index: Seq<char>,
    status: u16,
    word: Seq<char>,
) -> bool {
    &&& now.len() == before.len()
    &&& now[k] matches Some(x) && {
        &&& x.action == item.action
        &&& x.index == index
        &&& x.id == text_in_option(item.id)
        &&& x.status == status
        &&& x.report == Report::Error(word)
    }
    &&& forall|j: int| 0 <= j < before.len() && j != k ==> now[j] == #[trigger] before[j]
}

/// The index that an operation is for.
pub open spec fn index_of(item: BulkItem, ctx: RequestCtx) -> Seq<char> {
    if item.index is Some {
        item.index->Some_0@
    } else {
        ctx.logical_index@
    }
}

/// A request starts with nothing answered, held, fetched or left open.
pub proof fn law_a_run_starts_empty(p: Place, key: (Seq<char>, Seq<char>), r: BulkRun)
    requires
        call_ensures(BulkRun::new, (), r),
    ensures
        r.so_far().slots().len() == 0,
        held_for(r.so_far().demux(), p).len() == 0,
        !r.so_far().cache().dom().contains(key),
        r.so_far().left_open() == Set::<int>::empty(),
{
}

/// The next operation gets the next slot. Without a partition it is answered with that; with
/// one its placement is taken from those fetched, or is to be fetched. Nothing else changes.
pub proof fn law_an_operation_is_taken_up(
    run: BulkRun,
    ctx: &RequestCtx,
    item: BulkItem,
    partition: Result<String, SpiError>,
    j: int,
    r: Step,
)
    requires
        call_ensures(BulkRun::operation, (run, ctx, item, partition), r),
    ensures
        ({
            let before = run.so_far();
            let n = before.slots().len() as int;
            let index = index_of(item, *ctx);
            let now = match r {
                Step::Next(next) => next.so_far(),
                Step::Fetch(f) => f.so_far(),
                Step::Rewrite(w) => w.so_far(),
                Step::Gate(g) => g.so_far(),
            };
            &&& only_answers_changed(now, before)
            &&& now.slots().len() == n + 1
            &&& 0 <= j < n ==> now.slots()[j] == before.slots()[j]
            &&& partition is Err <==> r is Next
            &&& partition is Err ==> only_fails(
                now.slots(),
                before.slots().push(None),
                n,
                item,
                index,
                400,
                "partition_unresolved"@,
            )
            &&& partition matches Ok(p) ==> {
                let known = before.cache().dom().contains((p@, index));
                &&& now.slots()[n] is None
                &&& r is Rewrite <==> known
                &&& r is Fetch <==> !known
                &&& r matches Step::Rewrite(w) ==> w.ordinal() == n && w.item() == item && w.key() == (
                    p@,
                    index,
                )
                &&& r matches Step::Fetch(f) ==> f.ordinal() == n && f.item() == item && f.key() == (
                    p@,
                    index,
                )
            }
        }),
{
}

/// A placement is fetched for the partition and index of its operation. Once fetched it is
/// kept for all that follows; one that is missing costs only the operation that asked for it.
pub proof fn law_a_missing_placement_costs_one_operation(
    f: Fetching,
    outcome: Result<Resolved, SpiError>,
    partition: &str,
    index: &str,
    other: (Seq<char>, Seq<char>),
    r: Step,
)
    requires
        call_ensures(Fetching::partition, (&f,), partition),
        call_ensures(Fetching::index, (&f,), index),
        call_ensures(Fetching::fetched, (f, outcome), r),
    ensures
        (partition@, index@) == f.key(),
        outcome matches Ok(resolved) ==> (r matches Step::Rewrite(w) && {
            &&& w.ordinal() == f.ordinal() && w.item() == f.item() && w.key() == f.key()
            &&& w.so_far().demux() == f.so_far().demux()
            &&& w.so_far().left_open() == f.so_far().left_open()
            &&& w.so_far().cache().dom().contains(f.key())
            &&& w.so_far().cache()[f.key()] == resolved
            &&& other != f.key() ==> w.so_far().cache().dom().contains(other)
                == f.so_far().cache().dom().contains(other) && w.so_far().cache()[other]
                == f.so_far().cache()[other]
        }),
        outcome is Err ==> (r matches Step::Next(run) && only_answers_changed(
            run.so_far(),
            f.so_far(),
        ) && (f.ordinal() < f.so_far().slots().len() ==> only_fails(
            run.so_far().slots(),
            f.so_far().slots(),
            f.ordinal() as int,
            f.item(),
            index@,
            404,
            "placement_missing"@,
        ))),
{
}

/// What is rewritten is the operation, for the placement kept under its partition and index.
pub proof fn law_an_operation_is_rewritten_for_its_placement(
    w: &Rewriting,
    item: &BulkItem,
    resolved: Option<&Resolved>,
)
    requires
        call_ensures(Rewriting::operation, (w,), item),
        call_ensures(Rewriting::resolved, (w,), resolved),
    ensures
        *item == w.item(),
        resolved matches Some(x) && *x == w.so_far().cache()[w.key()],
{
}

/// Two prepared operations are the same.
pub open spec fn same_prepared(a: Prepared, b: Prepared) -> bool {
    &&& same_write(a.op, b.op)
    &&& a.partition@ == b.partition@
    &&& a.action == b.action
    &&& a.logical_index@ == b.logical_index@
    &&& a.logical_id@ == b.logical_id@
}

/// The operation waits behind those for its target, or goes out with them once there are 256
/// or they hold 4 MiB.
pub open spec fn joins(before: Progress, ordinal: usize, q: Prepared, other: Place, r: Step) -> bool {
    let here = where_is(q.op.target);
    let grown = held_for(before.demux(), here).push((ordinal, q));
    let full = grown.len() >= 256 || total_bytes(grown) >= 4_194_304;
    let now = match r {
        Step::Next(next) => next.so_far(),
        Step::Fetch(f) => f.so_far(),
        Step::Rewrite(w) => w.so_far(),
        Step::Gate(g) => g.so_far(),
    };
    &&& r is Gate <==> full
    &&& r is Next <==> !full
    &&& r matches Step::Gate(g) ==> g.entries() == grown && held_for(now.demux(), here).len() == 0
    &&& r is Next ==> held_for(now.demux(), here) == grown
    &&& other != here ==> held_for(now.demux(), other) == held_for(before.demux(), other)
    &&& now.slots() == before.slots()
    &&& now.cache() == before.cache()
    &&& now.left_open() == before.left_open()
}

/// An operation that can be written waits as what it is built to; one that cannot is answered
/// with why, and costs nothing else.
pub proof fn law_an_operation_waits_as_it_is_built(
    w: Rewriting,
    answers: Answers,
    placement: &Resolved,
    item: &BulkItem,
    index: String,
    built: Result<Prepared, ItemFailure>,
    other: Place,
    r: Step,
)
    requires
        call_ensures(Rewriting::rewritten, (w, answers), r),
        *placement == w.so_far().cache()[w.key()],
        *item == w.item(),
        index@ == w.key().1,
        call_ensures(build_op, (placement, item, index, answers), built),
        w.ordinal() < w.so_far().slots().len(),
    ensures
        built matches Err(f) ==> (r matches Step::Next(run) && only_answers_changed(
            run.so_far(),
            w.so_far(),
        ) && only_fails(
            run.so_far().slots(),
            w.so_far().slots(),
            w.ordinal() as int,
            *item,
            index@,
            f.status,
            f.error@,
        )),
        built matches Ok(p) ==> exists|q: Prepared| #[trigger]
            same_prepared(q, p) && joins(w.so_far(), w.ordinal(), q, other, r),
{
    if let Ok(p) = built {
        let q = choose|q: Prepared| #[trigger]
            w.prepares(q, answers) && crate::bulkrun::buffered(w.so_far(), (w.ordinal(), q), r);
        assert(p.op.doc@ == q.op.doc@);
        assert(same_prepared(q, p));
        assert(joins(w.so_far(), w.ordinal(), q, other, r));
    }
}

/// In the asynchronous mode the operation is enqueued as it is built instead.
pub proof fn law_an_operation_is_enqueued_as_it_is_built(
    w: Rewriting,
    answers: Answers,
    placement: &Resolved,
    item: &BulkItem,
    index: String,
    built: Result<Prepared, ItemFailure>,
    r: AsyncStep,
)
    requires
        call_ensures(Rewriting::rewritten_async, (w, answers), r),
        *placement == w.so_far().cache()[w.key()],
        *item == w.item(),
        index@ == w.key().1,
        call_ensures(build_op, (placement, item, index, answers), built),
        w.ordinal() < w.so_far().slots().len(),
    ensures
        built matches Err(f) ==> (r matches AsyncStep::Next(run) && only_answers_changed(
            run.so_far(),
            w.so_far(),
        ) && only_fails(
            run.so_far().slots(),
            w.so_far().slots(),
            w.ordinal() as int,
            *item,
            index@,
            f.status,
            f.error@,
        )),
        built matches Ok(p) ==> (r matches AsyncStep::Enqueue(e) && e.so_far() == w.so_far()
            && e.ordinal() == w.ordinal() && same_prepared(e.prepared(), p)),
{
    if let Ok(p) = built {
        assert(p.op.doc@ == r->Enqueue_0.prepared().op.doc@);
    }
}

/// An enqueued operation goes out alone, for its partition and under its handle. It is said
/// to be queued only where the queue took it, and nothing else changes.
pub proof fn law_a_queued_operation_is_answered_in_place(
    e: Enqueueing,
    ctx: &RequestCtx,
    acknowledged: Result<(), QueueError>,
    j: int,
    queued: QueuedWrite,
    r: BulkRun,
)
    requires
        call_ensures(Enqueueing::write, (&e, ctx), queued),
        call_ensures(Enqueueing::enqueued, (e, ctx, acknowledged), r),
        e.ordinal() < e.so_far().slots().len(),
    ensures
        exists|id: Seq<char>| #[trigger]
            handle(*ctx, ctx.request_id@, id) && queued.op_id@ == id + ":"@ + decimal_text(
                e.ordinal() as nat,
            ),
        queued.partition_key@ == e.prepared().partition@,
        queued.batch@.len() == 1 && same_write(queued.batch@[0], e.prepared().op),
        only_answers_changed(r.so_far(), e.so_far()),
        r.so_far().slots().len() == e.so_far().slots().len(),
        0 <= j < r.so_far().slots().len() && j != e.ordinal() ==> r.so_far().slots()[j]
            == e.so_far().slots()[j],
        r.so_far().slots()[e.ordinal() as int] matches Some(x) && tells_of(x, e.prepared()) && (
        acknowledged is Ok ==> x.status == 202 && x.report == Report::Queued(queued.op_id@)) && (
        acknowledged is Err ==> x.status == 503 && x.report == Report::Error("enqueue_failed"@)),
{
    lemma_handle(*ctx, ctx.request_id@);
    assert(handle(*ctx, ctx.request_id@, crate::asyncwrite::op_id(*ctx)));
    assert(queued.batch@[0].doc@ == e.prepared().op.doc@);
}

/// In the asynchronous mode exactly the updates and the conditional operations are refused,
/// each in its own slot; any other goes on.
pub proof fn law_a_refused_operation_costs_only_itself(
    run: BulkRun,
    ctx: &RequestCtx,
    item: BulkItem,
    r: Result<(BulkRun, BulkItem), BulkRun>,
)
    requires
        call_ensures(BulkRun::refuse, (run, ctx, item), r),
    ensures
        r is Err <==> item.action is Update || item.concurrency_control,
        r matches Ok(same) ==> same == (run, item),
        r matches Err(now) ==> only_answers_changed(now.so_far(), run.so_far()) && only_fails(
            now.so_far().slots(),
            run.so_far().slots().push(None),
            run.so_far().slots().len() as int,
            item,
            index_of(item, *ctx),
            400,
            "unsupported_async"@,
        ),
{
}

/// The entry at some place among `entries` has slot `k`.
pub open spec fn concerns(entries: Seq<Entry>, k: int) -> bool {
    exists|i: int| 0 <= i < entries.len() && (#[trigger] entries[i]).0 == k
}

/// The migration gate is asked about the sub-batch. What it admits is to be sent, in order;
/// the rest is answered with a conflict, and nothing else changes.
pub proof fn law_the_gate_holds_back_what_it_does_not_admit(
    g: Gating,
    admits: &[bool],
    j: int,
    k: int,
    ops: &Vec<Entry>,
    r: Writing,
)
    requires
        call_ensures(Gating::operations, (&g,), ops),
        admits@.len() == g.entries().len(),
        call_ensures(Gating::gated, (g, admits), r),
        0 <= j < g.entries().len(),
    ensures
        ops@ == g.entries(),
        only_answers_changed(r.so_far(), g.so_far()),
        admits@[j] ==> r.admitted().contains(g.entries()[j]),
        !admits@[j] ==> (r.so_far().slots()[g.entries()[j].0 as int] matches Some(x) && tells_of(
            x,
            g.entries()[j].1,
        ) && x.status == 409 && x.report == Report::Error("stale_epoch"@)),
        forall|e: Entry| #[trigger]
            r.admitted().contains(e) ==> exists|i: int|
                0 <= i < g.entries().len() && #[trigger] admits@[i] && g.entries()[i] == e,
        0 <= k < g.so_far().slots().len() && !concerns(g.entries(), k) ==> r.so_far().slots()[k]
            == g.so_far().slots()[k],
{
    let entries = g.entries();
    crate::bulk::lemma_picked(entries, admits@);
    law_the_place_among_those_sent_counts_the_admitted(entries, admits@, true, j);
    if admits@[j] {
        let at = rank(entries, admits@, true, j);
        assert(r.admitted()[at] == entries[j]);
    }
    assert forall|e: Entry| #[trigger] r.admitted().contains(e) implies exists|i: int|
        0 <= i < entries.len() && #[trigger] admits@[i] && entries[i] == e by {
        let a = choose|a: int| 0 <= a < r.admitted().len() && r.admitted()[a] == e;
        assert(crate::bulk::flagged(
            entries,
            admits@,
            true,
            crate::bulk::picked(entries, admits@, true)[a],
        ));
        let i = choose|i: int|
            0 <= i < entries.len() && #[trigger] admits@[i] == true && entries[i] == e;
        assert(admits@[i]);
    }
    if 0 <= k < g.so_far().slots().len() && !concerns(entries, k) {
        let no = crate::bulk::picked(entries, admits@, false);
        if crate::bulk_order::ordinals(no).contains(k) {
            let b = choose|b: int| 0 <= b < no.len() && (#[trigger] no[b]).0 == k;
            assert(crate::bulk::flagged(
                entries,
                admits@,
                false,
                crate::bulk::picked(entries, admits@, false)[b],
            ));
            let i = choose|i: int|
                0 <= i < entries.len() && #[trigger] admits@[i] == false && entries[i] == no[b];
            assert(entries[i].0 == k);
        }
    }
}

/// What is sent is what was admitted, each as it was prepared, for one target. It is answered
/// with its own result, or with its cluster's failure; nothing else changes, and only what
/// the cluster gave no result for stays open.
pub proof fn law_what_was_admitted_is_sent_and_answered(
    w: Writing,
    result: Result<WriteAck, SinkError>,
    j: int,
    k: int,
    batch: Vec<WriteOp>,
    r: BulkRun,
)
    requires
        call_ensures(Writing::batch, (&w,), batch),
        call_ensures(Writing::written, (w, result), r),
        0 <= j < w.admitted().len(),
    ensures
        batch@.len() == w.admitted().len(),
        same_write(batch@[j], w.admitted()[j].1.op),
        where_is(batch@[j].target) == where_is(batch@[0].target),
        r.so_far().demux().buffers() == w.so_far().demux().buffers(),
        r.so_far().cache() == w.so_far().cache(),
        ({
            let slot = r.so_far().slots()[w.admitted()[j].0 as int];
            &&& result is Err ==> (slot matches Some(x) && tells_of(x, w.admitted()[j].1) && x.status == 502
                && x.report == Report::Error("upstream_failed"@))
            &&& result matches Ok(ack) ==> {
                &&& j < ack.results@.len() ==> (slot matches Some(x) && tells_of(x, w.admitted()[j].1)
                    && x.status == ack.results@[j].status && (x.report is Error
                    <==> ack.results@[j].status >= 400))
                &&& j >= ack.results@.len() ==> slot is None && r.so_far().left_open().contains(
                    w.admitted()[j].0 as int,
                )
            }
        }),
        result is Err ==> r.so_far().left_open() =~= w.so_far().left_open(),
        0 <= k < w.so_far().slots().len() && !concerns(w.admitted(), k) ==> r.so_far().slots()[k]
            == w.so_far().slots()[k],
        r.so_far().left_open().contains(k) && !concerns(w.admitted(), k)
            ==> w.so_far().left_open().contains(k),
        w.so_far().left_open().contains(k) ==> r.so_far().left_open().contains(k),
{
    assert(batch@[j].doc@ == w.admitted()[j].1.op.doc@);
    assert(crate::bulk::place(batch@[j].target) == crate::bulk::place(batch@[0].target));
    if let Ok(ack) = result {
        let n = ack.results@.len() as int;
        if n < w.admitted().len() {
            let rest = w.admitted().skip(n);
            if j >= n {
                assert(rest[j - n] == w.admitted()[j]);
                assert(crate::bulk_order::ordinals(rest).contains(w.admitted()[j].0 as int));
            }
            if crate::bulk_order::ordinals(rest).contains(k) {
                let i = choose|i: int| 0 <= i < rest.len() && (#[trigger] rest[i]).0 == k;
                assert(w.admitted()[i + n].0 == k);
            }
        }
    }
}

/// At the end every list that waits is handed out, as it waits, and the answers so far stay.
pub proof fn law_all_that_waits_is_handed_out(
    run: BulkRun,
    p: Place,
    i: int,
    r: Closing,
    subs: &Vec<Vec<Entry>>,
)
    requires
        call_ensures(BulkRun::finish, (run,), r),
        call_ensures(Closing::sub_batches, (&r,), subs),
    ensures
        r.slots() == run.so_far().slots(),
        r.left_open() == run.so_far().left_open(),
        run.so_far().demux().buffers().dom().contains(p) ==> r.flushes().contains(
            run.so_far().demux().buffers()[p],
        ),
        0 <= i < r.flushes().len() ==> exists|q: Place| #[trigger]
            run.so_far().demux().buffers().dom().contains(q) && run.so_far().demux().buffers()[q]
                == r.flushes()[i],
        subs@.len() == r.flushes().len(),
        0 <= i < subs@.len() ==> subs@[i]@ == r.flushes()[i],
{
    let buffers = run.so_far().demux().buffers();
    let places = choose|places: Seq<Place>| #[trigger]
        crate::bulkrun::lists_of(r.flushes(), buffers, places);
    if buffers.dom().contains(p) {
        let a = choose|a: int| 0 <= a < places.len() && #[trigger] places[a] == p;
        assert(buffers[places[a]] == r.flushes()[a]);
    }
    if 0 <= i < r.flushes().len() {
        assert(buffers.dom().contains(places[i]));
    }
    let all = crate::bulkrun::lists(subs@);
    assert(all.len() == subs@.len());
    if 0 <= i < subs@.len() {
        assert(all[i] == subs@[i]@);
    }
}

/// What is sent of a sub-batch at the end is what the migration gate admits of it, in order.
pub proof fn law_the_last_batches_hold_what_is_admitted(
    c: &Closing,
    i: usize,
    admits: &[bool],
    j: int,
    r: Vec<WriteOp>,
)
    requires
        call_ensures(Closing::batch, (c, i, admits), r),
        i < c.flushes().len(),
        admits@.len() == c.flushes()[i as int].len(),
        0 <= j < admits@.len(),
    ensures
        admits@[j] ==> {
            let at = rank(c.flushes()[i as int], admits@, true, j);
            0 <= at < r@.len() && same_write(r@[at], c.flushes()[i as int][j].1.op)
        },
        r@.len() == rank(c.flushes()[i as int], admits@, true, admits@.len() as int),
{
    let entries = c.flushes()[i as int];
    law_the_place_among_those_sent_counts_the_admitted(entries, admits@, true, j);
    if admits@[j] {
        let at = rank(entries, admits@, true, j);
        assert(r@[at].doc@ == entries[j].1.op.doc@);
    }
}

/// These are the final answers of a request: each operation of a sub-batch has its own, and
/// every other is as it was.
pub open spec fn final_answers(c: Closing, done: Seq<Flushed>, f: Seq<Option<Item>>) -> bool {
    &&& forall|i: int, j: int|
        #![trigger c.flushes()[i][j]]
        0 <= i < c.flushes().len() && 0 <= j < c.flushes()[i].len() ==> f[c.flushes()[i][j].0 as int]
            == entry_answer(c.flushes()[i], done[i].admits@, done[i].result, j)
    &&& forall|k: int|
        0 <= k < c.slots().len() && (forall|i: int|
            0 <= i < c.flushes().len() ==> !concerns(#[trigger] c.flushes()[i], k)) ==> #[trigger] f[k]
            == c.slots()[k]
}

/// The answer to the request holds the final answers.
pub proof fn law_the_request_is_answered_with_the_final_answers(
    c: Closing,
    done: Vec<Flushed>,
    r: PipelineResponse,
)
    requires
        call_ensures(Closing::response, (c, done), r),
        done@.len() == c.flushes().len(),
    ensures
        r.status == 200 && r.content_type is None,
        exists|f: Seq<Option<Item>>| #[trigger]
            final_answers(c, done@, f) && r.body@ == response_text(f),
{
    let f = crate::bulkrun::closed(c.slots(), c.flushes(), done@);
    assert forall|k: int|
        0 <= k < c.slots().len() && (forall|i: int|
            0 <= i < c.flushes().len() ==> !concerns(
                #[trigger] c.flushes()[i],
                k,
            )) implies #[trigger] f[k] == c.slots()[k] by {
        if crate::bulkrun::flushed_set(c.flushes()).contains(k) {
            let (a, b) = choose|a: int, b: int|
                #![trigger c.flushes()[a][b]]
                0 <= a < c.flushes().len() && 0 <= b < c.flushes()[a].len() && c.flushes()[a][b].0 == k;
            assert(c.flushes()[a][b].0 == k);
            assert(concerns(c.flushes()[a], k));
        }
    }
    assert(final_answers(c, done@, f));
}

} // verus!
