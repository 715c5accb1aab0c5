//! The bulk demux: operations of one request that go to different targets are
//! gathered per target, dispatched in sub-batches, and answered in the order of the
//! request.
//!
//! A target's sub-batch is dispatched as soon as it reaches [`FLUSH_THRESHOLD`]
//! operations or [`BYTE_FLUSH_THRESHOLD`] bytes, so what is held stays bounded.

use crate::asyncwrite::{
    op_id, op_id_for, refusal, rejected_body, unavailable_response, unsupported_async,
    unsupported_response, QueueError, QueuedWrite, WriteMode,
};
use crate::bulkline::{bulk_body, items, response_text, BulkAction, Item, Line, Report};
use crate::bulkprep::{item_index, logical_index_of, BulkItem, ItemFailure, Prepared};
use crate::error::SinkError;
use crate::pipeline::PipelineResponse;
use crate::text::{decimal, decimal_text};
use crate::types::{
    clone_bytes, clone_text, opt, DocOp, DocView, OpResult, RequestCtx, Target, WriteAck, WriteOp,
};
use vstd::prelude::*;
use vstd::string::*;

verus! {

/// The operations a target's sub-batch may hold.
pub const FLUSH_THRESHOLD: usize = 256;

/// The document bytes a target's sub-batch may hold.
pub const BYTE_FLUSH_THRESHOLD: usize = 4_194_304;

/// The most sub-batches dispatched at once at the end.
pub const MAX_DISPATCH_CONCURRENCY: usize = 8;

/// A prepared operation and its position in the request.
pub type Entry = (usize, Prepared);

/// A target as values.
pub type Place = (Seq<char>, Seq<char>, Option<Seq<char>>);

/// A target as values.
pub open spec fn place(t: Target) -> Place {
    (t.cluster@, t.index@, opt(t.endpoint))
}

/// Whether two targets are the same.
fn same_target(a: &Target, b: &Target) -> (r: bool)
    ensures
        r == (place(*a) == place(*b)),
{
    if a.cluster != b.cluster || a.index != b.index {
        return false;
    }
    match (&a.endpoint, &b.endpoint) {
        (Some(x), Some(y)) => *x == *y,
        (None, None) => true,
        _ => false,
    }
}

/// The bytes of a document operation's body.
pub open spec fn doc_bytes(d: DocView) -> int {
    match d {
        DocView::Index { body, .. } => body.len() as int,
        DocView::Create { body, .. } => body.len() as int,
        DocView::Update { body, .. } => body.len() as int,
        DocView::Delete { .. } => 0,
    }
}

/// The bytes of a document operation's body; a delete has none.
pub fn op_body_len(op: &WriteOp) -> (r: usize)
    ensures
        r == doc_bytes(op.doc@),
{
    match &op.doc {
        DocOp::Index { body, .. } | DocOp::Create { body, .. } | DocOp::Update { body, .. } => {
            body.len()
        },
        DocOp::Delete { .. } => 0,
    }
}

/// The document bytes of a sub-batch.
pub open spec fn total_bytes(entries: Seq<Entry>) -> int
    decreases entries.len(),
{
    if entries.len() == 0 {
        0
    } else {
        total_bytes(entries.drop_last()) + doc_bytes(entries.last().1.op.doc@)
    }
}

/// Every operation is for the same target.
pub open spec fn all_for(entries: Seq<Entry>, p: Place) -> bool {
    forall|i: int| 0 <= i < entries.len() ==> place((#[trigger] entries[i]).1.op.target) == p
}

/// A sub-batch is due: it has reached a threshold.
pub open spec fn due(entries: Seq<Entry>) -> bool {
    entries.len() >= FLUSH_THRESHOLD || total_bytes(entries) >= BYTE_FLUSH_THRESHOLD
}

/// One target's sub-batch.
#[derive(Debug)]
pub struct SubBatch {
    pub target: Target,
    pub entries: Vec<Entry>,
    bytes: usize,
}

/// The sub-batches by target.
pub open spec fn by_target(s: Seq<SubBatch>) -> Map<Place, Seq<Entry>>
    decreases s.len(),
{
    if s.len() == 0 {
        Map::empty()
    } else {
        by_target(s.drop_last()).insert(s.last().place(), s.last().held())
    }
}

/// No two sub-batches are for the same target.
pub open spec fn distinct_targets(s: Seq<SubBatch>) -> bool {
    forall|i: int, j: int| 0 <= i < j < s.len() ==> #[trigger] s[i].place() != #[trigger] s[j].place()
}

impl SubBatch {
    pub closed spec fn place(self) -> Place {
        place(self.target)
    }

    pub closed spec fn held(self) -> Seq<Entry> {
        self.entries@
    }

    spec fn ok(self, slots: int) -> bool {
        &&& self.entries@.len() > 0
        &&& !due(self.entries@)
        &&& self.bytes == total_bytes(self.entries@)
        &&& forall|i: int| 0 <= i < self.entries@.len() ==> (#[trigger] self.entries@[i]).0 < slots
        &&& all_for(self.entries@, place(self.target))
    }
}

pub proof fn lemma_by_target(s: Seq<SubBatch>)
    requires
        distinct_targets(s),
    ensures
        forall|i: int|
            0 <= i < s.len() ==> by_target(s).dom().contains(#[trigger] s[i].place())
                && by_target(s)[s[i].place()] == s[i].held(),
        forall|p: Place| #[trigger]
            by_target(s).dom().contains(p) ==> exists|i: int|
                0 <= i < s.len() && #[trigger] s[i].place() == p,
    decreases s.len(),
{
    if s.len() > 0 {
        let t = s.drop_last();
        assert forall|i: int, j: int| 0 <= i < j < t.len() implies #[trigger] t[i].place()
            != #[trigger] t[j].place() by {
            assert(s[i].place() != s[j].place());
        }
        lemma_by_target(t);
        assert forall|i: int| 0 <= i < s.len() implies by_target(s).dom().contains(
            #[trigger] s[i].place(),
        ) && by_target(s)[s[i].place()] == s[i].held() by {
            if i < t.len() {
                assert(t[i] == s[i]);
                assert(s[i].place() != s[s.len() - 1].place());
            }
        }
        assert forall|p: Place| #[trigger] by_target(s).dom().contains(p) implies exists|i: int|
            0 <= i < s.len() && #[trigger] s[i].place() == p by {
            if p == s.last().place() {
                assert(s[s.len() - 1].place() == p);
            } else {
                assert(by_target(t).dom().contains(p));
                let i = choose|i: int| 0 <= i < t.len() && #[trigger] t[i].place() == p;
                assert(s[i].place() == p);
            }
        }
    }
}

proof fn lemma_same_targets(s: Seq<SubBatch>, want: Map<Place, Seq<Entry>>)
    requires
        distinct_targets(s),
        forall|i: int|
            0 <= i < s.len() ==> want.dom().contains(#[trigger] s[i].place())
                && want[s[i].place()] == s[i].held(),
        forall|p: Place| #[trigger]
            want.dom().contains(p) ==> exists|i: int|
                0 <= i < s.len() && #[trigger] s[i].place() == p,
    ensures
        by_target(s) == want,
{
    lemma_by_target(s);
    assert(by_target(s) =~= want);
}

proof fn lemma_bounded(s: Seq<SubBatch>, slots: int)
    requires
        distinct_targets(s),
        forall|i: int| 0 <= i < s.len() ==> (#[trigger] s[i]).ok(slots),
    ensures
        forall|p: Place| #[trigger]
            by_target(s).dom().contains(p) ==> 0 < by_target(s)[p].len() && !due(by_target(s)[p]),
{
    lemma_by_target(s);
    assert forall|p: Place| #[trigger] by_target(s).dom().contains(p) implies 0 < by_target(
        s,
    )[p].len() && !due(by_target(s)[p]) by {
        let i = choose|i: int| 0 <= i < s.len() && #[trigger] s[i].place() == p;
        assert(s[i].ok(slots));
    }
}

/// What waits for a target.
pub open spec fn queue_of(buffers: Map<Place, Seq<Entry>>, p: Place) -> Seq<Entry> {
    if buffers.dom().contains(p) {
        buffers[p]
    } else {
        Seq::empty()
    }
}

/// Taking one sub-batch out of the list, in any order, takes its target out of the
/// map.
proof fn lemma_taken(s: Seq<SubBatch>, i: int, rest: Seq<SubBatch>)
    requires
        distinct_targets(s),
        0 <= i < s.len(),
        rest == s.update(i, s.last()).drop_last(),
    ensures
        distinct_targets(rest),
        by_target(rest) == by_target(s).remove(s[i].place()),
        !by_target(rest).dom().contains(s[i].place()),
{
    lemma_by_target(s);
    assert forall|a: int, b: int| 0 <= a < b < rest.len() implies #[trigger] rest[a].place()
        != #[trigger] rest[b].place() by {
        let last = s.len() - 1;
        if a == i {
            assert(s[b].place() != s[last].place());
        } else if b == i {
            assert(s[a].place() != s[last].place());
        } else {
            assert(s[a].place() != s[b].place());
        }
    }
    let want = by_target(s).remove(s[i].place());
    assert forall|k: int| 0 <= k < rest.len() implies want.dom().contains(
        #[trigger] rest[k].place(),
    ) && want[rest[k].place()] == rest[k].held() by {
        let last = s.len() - 1;
        if k == i {
            assert(rest[k] == s[last]);
            assert(s[i].place() != s[last].place());
        } else {
            assert(rest[k] == s[k]);
            if k < i {
                assert(s[k].place() != s[i].place());
            } else {
                assert(s[i].place() != s[k].place());
            }
        }
    }
    assert forall|p: Place| #[trigger] want.dom().contains(p) implies exists|k: int|
        0 <= k < rest.len() && #[trigger] rest[k].place() == p by {
        let k = choose|k: int| 0 <= k < s.len() && #[trigger] s[k].place() == p;
        if k == s.len() - 1 {
            assert(rest[i].place() == p);
        } else {
            assert(rest[k].place() == p);
        }
    }
    lemma_same_targets(rest, want);
}

/// The state of a bulk request: the answers so far and the sub-batches held.
#[derive(Debug)]
pub struct Demux {
    lines: Vec<Option<Line>>,
    buffers: Vec<SubBatch>,
}

/// Writes answers into their slots, in order.
pub open spec fn set_lines(slots: Seq<Option<Item>>, writes: Seq<(usize, Item)>) -> Seq<Option<Item>>
    decreases writes.len(),
{
    if writes.len() == 0 {
        slots
    } else {
        set_lines(slots, writes.drop_last()).update(
            writes.last().0 as int,
            Some(writes.last().1),
        )
    }
}

impl Demux {
    /// The answers so far, one slot per operation.
    pub closed spec fn slots(self) -> Seq<Option<Item>> {
        items(self.lines@)
    }

    /// The sub-batches held.
    pub closed spec fn buffers(self) -> Map<Place, Seq<Entry>> {
        by_target(self.buffers@)
    }

    /// What is held for a target.
    pub open spec fn waiting(self, p: Place) -> Seq<Entry> {
        queue_of(self.buffers(), p)
    }

    /// Each sub-batch held is short of both thresholds.
    pub open spec fn bounded(self) -> bool {
        forall|p: Place| #[trigger]
            self.buffers().dom().contains(p) ==> 0 < self.buffers()[p].len() && !due(
                self.buffers()[p],
            )
    }

    #[verifier::type_invariant]
    spec fn well_formed(self) -> bool {
        &&& distinct_targets(self.buffers@)
        &&& forall|i: int|
            0 <= i < self.buffers@.len() ==> (#[trigger] self.buffers@[i]).ok(
                self.lines@.len() as int,
            )
    }

    /// A request of `n` operations, none answered.
    pub fn new(n: usize) -> (r: Self)
        ensures
            r.slots() == Seq::new(n as nat, |i: int| None::<Item>),
            r.buffers() == Map::<Place, Seq<Entry>>::empty(),
            r.bounded(),
    {
        let mut lines: Vec<Option<Line>> = Vec::new();
        let mut i: usize = 0;
        while i < n
            invariant
                0 <= i <= n,
                lines@.len() == i,
                forall|j: int| 0 <= j < i ==> (#[trigger] lines@[j]) is None,
            decreases n - i,
        {
            lines.push(None);
            i += 1;
        }
        assert(items(lines@) =~= Seq::new(n as nat, |i: int| None::<Item>));
        Demux { lines, buffers: Vec::new() }
    }

    /// One more operation, not answered: the position it has.
    pub fn push_slot(self) -> (r: (Self, usize))
        ensures
            r.0.slots() == self.slots().push(None),
            r.0.buffers() == self.buffers(),
            r.1 == self.slots().len(),
    {
        proof {
            use_type_invariant(&self);
        }
        let at = self.lines.len();
        let mut lines = self.lines;
        lines.push(None);
        assert(items(lines@) =~= items(self.lines@).push(None));
        proof {
            assert forall|i: int| 0 <= i < self.buffers@.len() implies (
            #[trigger] self.buffers@[i]).ok(lines@.len() as int) by {
                assert(self.buffers@[i].ok(self.lines@.len() as int));
            }
        }
        (Demux { lines, buffers: self.buffers }, at)
    }

    /// Answers one operation.
    pub fn set_line(self, ordinal: usize, line: Line) -> (r: Self)
        requires
            ordinal < self.slots().len(),
        ensures
            r.slots() == self.slots().update(ordinal as int, Some(line@)),
            r.buffers() == self.buffers(),
    {
        proof {
            use_type_invariant(&self);
        }
        let mut lines = self.lines;
        lines.set(ordinal, Some(line));
        assert(items(lines@) =~= items(self.lines@).update(ordinal as int, Some(line@)));
        Demux { lines, buffers: self.buffers }
    }

    /// Answers an operation that could not be prepared.
    pub fn failed(self, ordinal: usize, failure: ItemFailure) -> (r: Self)
        requires
            ordinal < self.slots().len(),
        ensures
            r.buffers() == self.buffers(),
            r.slots() == self.slots().update(
                ordinal as int,
                Some(
                    Item {
                        action: failure.action,
                        index: failure.logical_index@,
                        id: opt(failure.logical_id),
                        status: failure.status,
                        report: Report::Error(failure.error@),
                    },
                ),
            ),
    {
        self.set_line(ordinal, failure.into_line())
    }

    fn position(&self, target: &Target) -> (r: Option<usize>)
        ensures
            match r {
                Some(i) => i < self.buffers@.len() && self.buffers@[i as int].place() == place(
                    *target,
                ),
                None => forall|i: int|
                    0 <= i < self.buffers@.len() ==> (#[trigger] self.buffers@[i]).place() != place(
                        *target,
                    ),
            },
    {
        let mut i: usize = 0;
        while i < self.buffers.len()
            invariant
                0 <= i <= self.buffers@.len(),
                forall|j: int|
                    0 <= j < i ==> (#[trigger] self.buffers@[j]).place() != place(*target),
            decreases self.buffers@.len() - i,
        {
            if same_target(&self.buffers[i].target, target) {
                return Some(i);
            }
            i += 1;
        }
        None
    }

    /// Adds a prepared operation to its target's sub-batch. A sub-batch that is due
    /// is handed out to be dispatched.
    pub fn buffer_and_flush(self, ordinal: usize, prepared: Prepared) -> (r: (
        Self,
        Option<Vec<Entry>>,
    ))
        requires
            ordinal < self.slots().len(),
        ensures
            r.0.slots() == self.slots(),
            ({
                let p = place(prepared.op.target);
                let grown = self.waiting(p).push((ordinal, prepared));
                match r.1 {
                    Some(entries) => due(grown) && entries@ == grown && r.0.buffers()
                        == self.buffers().remove(p),
                    None => !due(grown) && r.0.buffers() == self.buffers().insert(p, grown),
                }
            }),
            r.1 matches Some(entries) ==> in_range(entries@, self.slots().len() as int) && all_for(
                entries@,
                place(prepared.op.target),
            ),
            r.0.bounded(),
    {
        proof {
            use_type_invariant(&self);
            lemma_by_target(self.buffers@);
        }
        let ghost p = place(prepared.op.target);
        let ghost slots = self.lines@.len() as int;
        let at = self.position(&prepared.op.target);
        let target = prepared.op.target.clone();
        let size = op_body_len(&prepared.op);
        let mut buffers = self.buffers;
        let ghost before = buffers@;
        let (mut entries, bytes) = match at {
            Some(i) => {
                let taken = buffers.swap_remove(i);
                proof {
                    assert(before[i as int].ok(slots));
                    lemma_taken(before, i as int, buffers@);
                    assert forall|k: int| 0 <= k < buffers@.len() implies (
                    #[trigger] buffers@[k]).ok(slots) by {
                        if k == i {
                            assert(before[before.len() - 1].ok(slots));
                        } else {
                            assert(before[k].ok(slots));
                        }
                    }
                }
                (taken.entries, taken.bytes)
            },
            None => {
                proof {
                    assert(!by_target(before).dom().contains(p));
                    assert(by_target(before).remove(p) =~= by_target(before));
                }
                (Vec::new(), 0usize)
            },
        };
        let ghost held = entries@;
        let over = entries.len() + 1 >= FLUSH_THRESHOLD || size >= BYTE_FLUSH_THRESHOLD - bytes;
        entries.push((ordinal, prepared));
        proof {
            assert(held =~= self.waiting(p));
            assert(bytes == total_bytes(held));
            assert(entries@.drop_last() =~= held);
            assert(total_bytes(entries@) == bytes + size);
            assert(over == due(entries@));
        }
        if over {
            proof {
                lemma_bounded(buffers@, slots);
            }
            (Demux { lines: self.lines, buffers }, Some(entries))
        } else {
            let grown = SubBatch { target, entries, bytes: bytes + size };
            let ghost rest = buffers@;
            buffers.push(grown);
            proof {
                assert(buffers@.drop_last() =~= rest);
                assert forall|a: int, b: int| 0 <= a < b < buffers@.len() implies #[trigger] buffers@[a].place()
                    != #[trigger] buffers@[b].place() by {
                    if b < rest.len() {
                        assert(rest[a].place() != rest[b].place());
                    } else {
                        lemma_by_target(rest);
                        assert(by_target(rest).dom().contains(rest[a].place()));
                    }
                }
                assert(grown.ok(slots));
                assert(by_target(buffers@) =~= by_target(before).insert(p, entries@));
                lemma_bounded(buffers@, slots);
            }
            (Demux { lines: self.lines, buffers }, None)
        }
    }

    /// Hands out every sub-batch still held.
    pub fn flush_remaining(self) -> (r: (Self, Vec<SubBatch>))
        ensures
            r.0.slots() == self.slots(),
            r.0.buffers() == Map::<Place, Seq<Entry>>::empty(),
            distinct_targets(r.1@),
            by_target(r.1@) == self.buffers(),
            forall|i: int|
                0 <= i < r.1@.len() ==> {
                    &&& (#[trigger] r.1@[i]).held().len() > 0
                    &&& !due(r.1@[i].held())
                    &&& in_range(r.1@[i].held(), self.slots().len() as int)
                    &&& all_for(r.1@[i].held(), r.1@[i].place())
                },
    {
        proof {
            use_type_invariant(&self);
            assert forall|i: int| 0 <= i < self.buffers@.len() implies (
            #[trigger] self.buffers@[i]).held().len() > 0 && !due(self.buffers@[i].held())
                && in_range(self.buffers@[i].held(), self.lines@.len() as int) && all_for(
                self.buffers@[i].held(),
                self.buffers@[i].place(),
            ) by {
                assert(self.buffers@[i].ok(self.lines@.len() as int));
            }
        }
        (Demux { lines: self.lines, buffers: Vec::new() }, self.buffers)
    }

    /// The response: every operation answered in its place.
    pub fn response(&self) -> (r: PipelineResponse)
        ensures
            r.is_json(200, response_text(self.slots())),
    {
        PipelineResponse::json(200, bulk_body(self.lines.as_slice()))
    }
}

impl SubBatch {
    /// The operations of the sub-batch.
    pub fn into_entries(self) -> (r: Vec<Entry>)
        ensures
            r@ == self.held(),
    {
        self.entries
    }
}

/// The entries whose flag is `want`, in order.
pub open spec fn picked(entries: Seq<Entry>, flags: Seq<bool>, want: bool) -> Seq<Entry>
    decreases entries.len(),
{
    if entries.len() == 0 {
        Seq::empty()
    } else {
        let before = picked(entries.drop_last(), flags, want);
        if flags[entries.len() - 1] == want {
            before.push(entries.last())
        } else {
            before
        }
    }
}

/// Splits a sub-batch by the migration write gate, asked again at dispatch:
/// `admits[i]` tells of the `i`-th entry. What is not admitted is never dispatched.
pub fn gate(entries: Vec<Entry>, admits: &[bool]) -> (r: (Vec<Entry>, Vec<Entry>))
    requires
        admits@.len() == entries@.len(),
    ensures
        r.0@ == picked(entries@, admits@, true),
        r.1@ == picked(entries@, admits@, false),
{
    let mut admitted: Vec<Entry> = Vec::new();
    let mut rejected: Vec<Entry> = Vec::new();
    let ghost all = entries@;
    let mut i: usize = 0;
    for entry in it: entries
        invariant
            it.seq() == all,
            admits@.len() == all.len(),
            i == it.index(),
            admitted@ == picked(all.take(it.index()), admits@, true),
            rejected@ == picked(all.take(it.index()), admits@, false),
    {
        assert(all.take(i + 1).drop_last() =~= all.take(i as int));
        assert(all.take(i + 1).last() == entry);
        if admits[i] {
            admitted.push(entry);
        } else {
            rejected.push(entry);
        }
        i += 1;
    }
    assert(all.take(all.len() as int) =~= all);
    (admitted, rejected)
}

/// Copies a write.
pub(crate) fn clone_op(op: &WriteOp) -> (r: WriteOp)
    ensures
        r.target == op.target,
        r.doc@ == op.doc@,
        r.epoch == op.epoch,
        r.protocol == op.protocol,
{
    let doc = match &op.doc {
        DocOp::Index { id, routing, body } => DocOp::Index {
            id: clone_text(id),
            routing: clone_text(routing),
            body: clone_bytes(body.as_slice()),
        },
        DocOp::Create { id, routing, body } => DocOp::Create {
            id: clone_text(id),
            routing: clone_text(routing),
            body: clone_bytes(body.as_slice()),
        },
        DocOp::Update { id, routing, body } => DocOp::Update {
            id: id.clone(),
            routing: clone_text(routing),
            body: clone_bytes(body.as_slice()),
        },
        DocOp::Delete { id, routing } => DocOp::Delete {
            id: id.clone(),
            routing: clone_text(routing),
        },
    };
    WriteOp { target: op.target.clone(), doc, epoch: op.epoch, protocol: op.protocol }
}

/// The batch to dispatch for entries: their operations, in order.
pub fn build_batch(entries: &[Entry]) -> (r: Vec<WriteOp>)
    ensures
        r@.len() == entries@.len(),
        forall|i: int|
            0 <= i < r@.len() ==> {
                &&& (#[trigger] r@[i]).target == entries@[i].1.op.target
                &&& r@[i].doc@ == entries@[i].1.op.doc@
                &&& r@[i].epoch == entries@[i].1.op.epoch
                &&& r@[i].protocol == entries@[i].1.op.protocol
            },
{
    let mut batch: Vec<WriteOp> = Vec::new();
    let mut i: usize = 0;
    while i < entries.len()
        invariant
            0 <= i <= entries@.len(),
            batch@.len() == i,
            forall|j: int|
                0 <= j < i ==> {
                    &&& (#[trigger] batch@[j]).target == entries@[j].1.op.target
                    &&& batch@[j].doc@ == entries@[j].1.op.doc@
                    &&& batch@[j].epoch == entries@[j].1.op.epoch
                    &&& batch@[j].protocol == entries@[j].1.op.protocol
                },
        decreases entries@.len() - i,
    {
        batch.push(clone_op(&entries[i].1.op));
        i += 1;
    }
    batch
}

/// The answer for a prepared operation.
pub open spec fn item(p: Prepared, status: u16, report: Report) -> Item {
    Item {
        action: p.action,
        index: p.logical_index@,
        id: Some(p.logical_id@),
        status,
        report,
    }
}

/// The type of failure for an upstream status.
pub open spec fn failure_type(status: u16) -> Seq<char> {
    if status == 409 {
        "conflict"@
    } else if status == 404 {
        "not_found"@
    } else {
        "rejected"@
    }
}

/// The answer for an operation the cluster took up: a failure for a status of 400 and
/// more, else its outcome.
pub open spec fn outcome(p: Prepared, result: OpResult) -> Item {
    item(
        p,
        result.status,
        if result.status >= 400 {
            Report::Error(failure_type(result.status))
        } else if result.created {
            Report::Result("created"@)
        } else {
            Report::Result("updated"@)
        },
    )
}

fn error_type_for(status: u16) -> (r: &'static str)
    ensures
        r@ == failure_type(status),
{
    match status {
        409 => "conflict",
        404 => "not_found",
        _ => "rejected",
    }
}

fn error_line(p: &Prepared, status: u16, error: &'static str) -> (r: Line)
    ensures
        r@ == item(*p, status, Report::Error(error@)),
{
    Line::error(p.action, p.logical_index.clone(), Some(p.logical_id.clone()), status, error)
}

/// The line for an operation held by the migration write gate: the client resolves
/// again and retries.
pub fn stale_epoch_line(p: &Prepared) -> (r: Line)
    ensures
        r@ == item(*p, 409, Report::Error("stale_epoch"@)),
{
    error_line(p, 409, "stale_epoch")
}

/// The line for an operation whose target failed.
pub fn upstream_failure_line(p: &Prepared) -> (r: Line)
    ensures
        r@ == item(*p, 502, Report::Error("upstream_failed"@)),
{
    error_line(p, 502, "upstream_failed")
}

/// The line for an operation the cluster took up.
pub fn success_line(p: &Prepared, result: &OpResult) -> (r: Line)
    ensures
        r@ == outcome(*p, *result),
{
    if result.status >= 400 {
        return error_line(p, result.status, error_type_for(result.status));
    }
    let outcome = if result.created {
        "created"
    } else {
        "updated"
    };
    Line::result(
        p.action,
        p.logical_index.clone(),
        Some(p.logical_id.clone()),
        result.status,
        outcome,
    )
}

/// The answers for entries held by the migration gate.
pub open spec fn held_back(rejected: Seq<Entry>) -> Seq<(usize, Item)> {
    rejected.map_values(|e: Entry| (e.0, item(e.1, 409, Report::Error("stale_epoch"@))))
}

/// The answers for dispatched entries: one per result, or a failure for each.
pub open spec fn answers(entries: Seq<Entry>, result: Result<WriteAck, SinkError>) -> Seq<
    (usize, Item),
> {
    match result {
        Ok(ack) => Seq::new(
            if entries.len() <= ack.results@.len() {
                entries.len()
            } else {
                ack.results@.len()
            },
            |i: int| (entries[i].0, outcome(entries[i].1, ack.results@[i])),
        ),
        Err(_) => entries.map_values(
            |e: Entry| (e.0, item(e.1, 502, Report::Error("upstream_failed"@))),
        ),
    }
}

/// Every entry has a slot.
pub open spec fn in_range(entries: Seq<Entry>, slots: int) -> bool {
    forall|i: int| 0 <= i < entries.len() ==> (#[trigger] entries[i]).0 < slots
}

/// Every answer has a slot.
pub open spec fn writes_in_range(writes: Seq<(usize, Item)>, slots: int) -> bool {
    forall|i: int| 0 <= i < writes.len() ==> (#[trigger] writes[i]).0 < slots
}

pub proof fn lemma_set_lines_len(slots: Seq<Option<Item>>, writes: Seq<(usize, Item)>)
    requires
        writes_in_range(writes, slots.len() as int),
    ensures
        set_lines(slots, writes).len() == slots.len(),
    decreases writes.len(),
{
    if writes.len() > 0 {
        let init = writes.drop_last();
        assert forall|i: int| 0 <= i < init.len() implies (#[trigger] init[i]).0 < slots.len() by {
            assert(init[i] == writes[i]);
        }
        lemma_set_lines_len(slots, init);
        assert(writes[writes.len() - 1].0 < slots.len());
    }
}

impl Demux {
    /// Answers the entries held by the migration gate, each in its place.
    pub fn apply_rejected(self, rejected: &[Entry]) -> (r: Self)
        requires
            in_range(rejected@, self.slots().len() as int),
        ensures
            r.buffers() == self.buffers(),
            r.slots() == set_lines(self.slots(), held_back(rejected@)),
    {
        let ghost start = self.slots();
        let ghost held = self.buffers();
        let ghost writes = held_back(rejected@);
        let mut state = self;
        let mut i: usize = 0;
        while i < rejected.len()
            invariant
                writes == held_back(rejected@),
                0 <= i <= rejected@.len(),
                in_range(rejected@, start.len() as int),
                state.buffers() == held,
                state.slots() == set_lines(start, writes.take(i as int)),
            decreases rejected@.len() - i,
        {
            proof {
                assert forall|j: int| 0 <= j < i implies (#[trigger] writes.take(
                    i as int,
                )[j]).0 < start.len() by {
                    assert(rejected@[j].0 < start.len());
                }
                lemma_set_lines_len(start, writes.take(i as int));
                assert(writes.take(i + 1).drop_last() =~= writes.take(i as int));
                assert(writes.take(i + 1).last() == writes[i as int]);
                assert(rejected@[i as int].0 < start.len());
            }
            state = state.set_line(rejected[i].0, stale_epoch_line(&rejected[i].1));
            i += 1;
        }
        assert(writes.take(i as int) =~= writes);
        state
    }

    /// Answers the dispatched entries with their target's outcome, each in its place.
    pub fn apply_results(self, entries: &[Entry], result: Result<WriteAck, SinkError>) -> (r: Self)
        requires
            in_range(entries@, self.slots().len() as int),
        ensures
            r.buffers() == self.buffers(),
            r.slots() == set_lines(self.slots(), answers(entries@, result)),
    {
        let ghost start = self.slots();
        let ghost held = self.buffers();
        let ghost writes = answers(entries@, result);
        let mut state = self;
        let mut i: usize = 0;
        match &result {
            Ok(ack) => {
                while i < entries.len() && i < ack.results.len()
                    invariant
                        result == Ok::<WriteAck, SinkError>(*ack),
                        writes == answers(entries@, result),
                        0 <= i <= writes.len(),
                        in_range(entries@, start.len() as int),
                        state.buffers() == held,
                        state.slots() == set_lines(start, writes.take(i as int)),
                    decreases entries@.len() - i,
                {
                    proof {
                        assert forall|j: int| 0 <= j < i implies (#[trigger] writes.take(
                            i as int,
                        )[j]).0 < start.len() by {
                            assert(entries@[j].0 < start.len());
                        }
                        lemma_set_lines_len(start, writes.take(i as int));
                        assert(writes.take(i + 1).drop_last() =~= writes.take(i as int));
                        assert(writes.take(i + 1).last() == writes[i as int]);
                        assert(entries@[i as int].0 < start.len());
                    }
                    state = state.set_line(
                        entries[i].0,
                        success_line(&entries[i].1, &ack.results[i]),
                    );
                    i += 1;
                }
            },
            Err(_) => {
                while i < entries.len()
                    invariant
                        result is Err,
                        writes == answers(entries@, result),
                        0 <= i <= entries@.len(),
                        in_range(entries@, start.len() as int),
                        state.buffers() == held,
                        state.slots() == set_lines(start, writes.take(i as int)),
                    decreases entries@.len() - i,
                {
                    proof {
                        assert forall|j: int| 0 <= j < i implies (#[trigger] writes.take(
                            i as int,
                        )[j]).0 < start.len() by {
                            assert(entries@[j].0 < start.len());
                        }
                        lemma_set_lines_len(start, writes.take(i as int));
                        assert(writes.take(i + 1).drop_last() =~= writes.take(i as int));
                        assert(writes.take(i + 1).last() == writes[i as int]);
                        assert(entries@[i as int].0 < start.len());
                    }
                    state = state.set_line(entries[i].0, upstream_failure_line(&entries[i].1));
                    i += 1;
                }
            },
        }
        assert(writes.take(i as int) =~= writes);
        state
    }
}

/// The op id of one operation of an asynchronous bulk: the batch's and its position.
pub open spec fn item_op_id(batch: Seq<char>, ordinal: nat) -> Seq<char> {
    batch + ":"@ + decimal_text(ordinal)
}

/// The answer to a whole asynchronous bulk that is refused: it cannot be honoured, or
/// there is no queue. `None` where its operations are to be looked at one by one.
pub fn refuse_bulk_async(ctx: &RequestCtx, queue_enabled: bool) -> (r: Option<PipelineResponse>)
    ensures
        match refusal(*ctx) {
            Some(reason) => r is Some && r->Some_0.is_json(
                400,
                rejected_body(reason, ctx.logical_index@),
            ),
            None => if queue_enabled {
                r is None
            } else {
                r is Some && r->Some_0.is_json(
                    422,
                    rejected_body(
                        "async write mode is not available on this proxy"@,
                        ctx.logical_index@,
                    ),
                )
            },
        },
{
    if let Some(reason) = unsupported_async(ctx) {
        return Some(unsupported_response(reason, ctx.logical_index.as_str()));
    }
    if !queue_enabled {
        return Some(unavailable_response(ctx.logical_index.as_str()));
    }
    None
}

/// How a bulk request is handled.
#[derive(Debug)]
pub enum BulkStart {
    /// Its operations are demultiplexed and sent.
    Dispatch,
    /// Its operations are enqueued one by one.
    Enqueue,
    /// It is refused as a whole.
    Refused(PipelineResponse),
}

/// Decides how a bulk request is handled, by its write mode.
pub fn begin_bulk(ctx: &RequestCtx, mode: WriteMode, queue_enabled: bool) -> (r: BulkStart)
    ensures
        match mode {
            WriteMode::Sync => r is Dispatch,
            WriteMode::Async => match refusal(*ctx) {
                Some(reason) => r is Refused && r->Refused_0.is_json(
                    400,
                    rejected_body(reason, ctx.logical_index@),
                ),
                None => if queue_enabled {
                    r is Enqueue
                } else {
                    r is Refused && r->Refused_0.is_json(
                        422,
                        rejected_body(
                            "async write mode is not available on this proxy"@,
                            ctx.logical_index@,
                        ),
                    )
                },
            },
        },
{
    match mode {
        WriteMode::Sync => BulkStart::Dispatch,
        WriteMode::Async => match refuse_bulk_async(ctx, queue_enabled) {
            Some(response) => BulkStart::Refused(response),
            None => BulkStart::Enqueue,
        },
    }
}

/// The line of an operation that cannot be enqueued: an update, or one that is
/// conditional on the document's version.
pub fn refuse_item_async(item: &BulkItem, ctx: &RequestCtx) -> (r: Option<Line>)
    ensures
        if item.action is Update || item.concurrency_control {
            r is Some && r->Some_0@ == (Item {
                action: item.action,
                index: item_index(*item, *ctx),
                id: opt(item.id),
                status: 400,
                report: Report::Error("unsupported_async"@),
            })
        } else {
            r is None
        },
{
    if matches!(item.action, BulkAction::Update) || item.concurrency_control {
        return Some(
            Line::error(
                item.action,
                logical_index_of(item, ctx),
                clone_text(&item.id),
                400,
                "unsupported_async",
            ),
        );
    }
    None
}

/// What is enqueued for one prepared operation of an asynchronous bulk.
pub fn queue_item(ctx: &RequestCtx, ordinal: usize, p: &Prepared) -> (r: QueuedWrite)
    ensures
        r.op_id@ == item_op_id(op_id(*ctx), ordinal as nat),
        r.partition_key@ == p.partition@,
        r.batch@.len() == 1,
        r.batch@[0].target == p.op.target,
        r.batch@[0].doc@ == p.op.doc@,
        r.batch@[0].epoch == p.op.epoch,
        r.batch@[0].protocol == p.op.protocol,
{
    let mut id = op_id_for(ctx, ctx.request_id.as_str());
    id.append(":");
    id.append(decimal(ordinal as u64).as_str());
    let mut batch: Vec<WriteOp> = Vec::new();
    batch.push(clone_op(&p.op));
    QueuedWrite { op_id: id, partition_key: p.partition.clone(), batch }
}

/// The line of an operation once the queue has spoken: `202` with its op id only
/// where the queue acknowledged it.
pub fn queued_line(
    ctx: &RequestCtx,
    ordinal: usize,
    p: &Prepared,
    acknowledged: Result<(), QueueError>,
) -> (r: Line)
    ensures
        r@ == match acknowledged {
            Ok(()) => item(*p, 202, Report::Queued(item_op_id(op_id(*ctx), ordinal as nat))),
            Err(_) => item(*p, 503, Report::Error("enqueue_failed"@)),
        },
{
    match acknowledged {
        Ok(()) => {
            let mut id = op_id_for(ctx, ctx.request_id.as_str());
            id.append(":");
            id.append(decimal(ordinal as u64).as_str());
            Line::queued(
                p.action,
                p.logical_index.clone(),
                Some(p.logical_id.clone()),
                202,
                id,
            )
        },
        Err(_) => error_line(p, 503, "enqueue_failed"),
    }
}

/// No two answers are for the same slot.
pub open spec fn distinct_slots(writes: Seq<(usize, Item)>) -> bool {
    forall|i: int, j: int| 0 <= i < j < writes.len() ==> #[trigger] writes[i].0 != #[trigger] writes[j].0
}

/// Answers for different operations land each in its own place and touch no other:
/// the response keeps the order of the request.
pub proof fn law_answers_stay_in_place(slots: Seq<Option<Item>>, writes: Seq<(usize, Item)>)
    requires
        writes_in_range(writes, slots.len() as int),
        distinct_slots(writes),
    ensures
        set_lines(slots, writes).len() == slots.len(),
        forall|i: int|
            0 <= i < writes.len() ==> set_lines(slots, writes)[(#[trigger] writes[i]).0 as int]
                == Some(writes[i].1),
        forall|k: int|
            0 <= k < slots.len() && (forall|i: int| 0 <= i < writes.len() ==> writes[i].0 != k)
                ==> #[trigger] set_lines(slots, writes)[k] == slots[k],
    decreases writes.len(),
{
    if writes.len() > 0 {
        let init = writes.drop_last();
        let last = writes.len() - 1;
        assert forall|i: int| 0 <= i < init.len() implies (#[trigger] init[i]).0 < slots.len() by {
            assert(init[i] == writes[i]);
        }
        assert forall|i: int, j: int| 0 <= i < j < init.len() implies #[trigger] init[i].0
            != #[trigger] init[j].0 by {
            assert(writes[i].0 != writes[j].0);
        }
        law_answers_stay_in_place(slots, init);
        assert(writes[last].0 < slots.len());
        assert forall|i: int| 0 <= i < writes.len() implies set_lines(
            slots,
            writes,
        )[(#[trigger] writes[i]).0 as int] == Some(writes[i].1) by {
            if i < last {
                assert(init[i] == writes[i]);
                assert(writes[i].0 != writes[last].0);
            }
        }
        assert forall|k: int|
            0 <= k < slots.len() && (forall|i: int| 0 <= i < writes.len() ==> writes[i].0
                != k) implies #[trigger] set_lines(slots, writes)[k] == slots[k] by {
            assert(writes[last].0 != k);
            assert forall|i: int| 0 <= i < init.len() implies init[i].0 != k by {
                assert(init[i] == writes[i]);
            }
        }
    }
}

/// Sub-batches may complete in any order: answers for different operations give the
/// same response whichever comes first.
pub proof fn law_completion_order_is_free(
    slots: Seq<Option<Item>>,
    a: Seq<(usize, Item)>,
    b: Seq<(usize, Item)>,
)
    requires
        writes_in_range(a, slots.len() as int),
        writes_in_range(b, slots.len() as int),
        distinct_slots(a),
        distinct_slots(b),
        forall|i: int, j: int| 0 <= i < a.len() && 0 <= j < b.len() ==> #[trigger] a[i].0 != #[trigger] b[j].0,
    ensures
        set_lines(set_lines(slots, a), b) == set_lines(set_lines(slots, b), a),
{
    law_answers_stay_in_place(slots, a);
    law_answers_stay_in_place(slots, b);
    let sa = set_lines(slots, a);
    let sb = set_lines(slots, b);
    law_answers_stay_in_place(sa, b);
    law_answers_stay_in_place(sb, a);
    let ab = set_lines(sa, b);
    let ba = set_lines(sb, a);
    assert forall|k: int| 0 <= k < slots.len() implies ab[k] == ba[k] by {
        if exists|i: int| 0 <= i < a.len() && a[i].0 == k {
            let i = choose|i: int| 0 <= i < a.len() && a[i].0 == k;
            assert(ba[a[i].0 as int] == Some(a[i].1));
            assert(sa[a[i].0 as int] == Some(a[i].1));
            assert forall|j: int| 0 <= j < b.len() implies b[j].0 != k by {
                assert(a[i].0 != b[j].0);
            }
            assert(ab[k] == sa[k]);
        } else if exists|j: int| 0 <= j < b.len() && b[j].0 == k {
            let j = choose|j: int| 0 <= j < b.len() && b[j].0 == k;
            assert(ab[b[j].0 as int] == Some(b[j].1));
            assert(sb[b[j].0 as int] == Some(b[j].1));
            assert(ba[k] == sb[k]);
        } else {
            assert(ab[k] == sa[k]);
            assert(sa[k] == slots[k]);
            assert(ba[k] == sb[k]);
            assert(sb[k] == slots[k]);
        }
    }
    assert(ab =~= ba);
}

/// An entry stands among `entries` at a place whose flag is `want`.
pub open spec fn flagged(entries: Seq<Entry>, flags: Seq<bool>, want: bool, e: Entry) -> bool {
    exists|i: int| 0 <= i < entries.len() && #[trigger] flags[i] == want && entries[i] == e
}

/// The migration gate loses and doubles nothing: an entry is dispatched or held back, and it is
/// dispatched only where it was admitted.
pub proof fn law_gate_splits(entries: Seq<Entry>, flags: Seq<bool>)
    requires
        flags.len() == entries.len(),
    ensures
        picked(entries, flags, true).len() + picked(entries, flags, false).len() == entries.len(),
        forall|k: int, want: bool|
            0 <= k < picked(entries, flags, want).len() ==> flagged(
                entries,
                flags,
                want,
                #[trigger] picked(entries, flags, want)[k],
            ),
{
    lemma_picked(entries, flags);
}

pub proof fn lemma_picked(entries: Seq<Entry>, flags: Seq<bool>)
    requires
        flags.len() >= entries.len(),
    ensures
        picked(entries, flags, true).len() + picked(entries, flags, false).len() == entries.len(),
        forall|k: int, want: bool|
            0 <= k < picked(entries, flags, want).len() ==> flagged(
                entries,
                flags,
                want,
                #[trigger] picked(entries, flags, want)[k],
            ),
    decreases entries.len(),
{
    if entries.len() > 0 {
        let init = entries.drop_last();
        let last = entries.len() - 1;
        lemma_picked(init, flags);
        assert forall|k: int, want: bool|
            0 <= k < picked(entries, flags, want).len() implies flagged(
            entries,
            flags,
            want,
            #[trigger] picked(entries, flags, want)[k],
        ) by {
            let before = picked(init, flags, want);
            if k < before.len() {
                assert(picked(entries, flags, want)[k] == before[k]);
                assert(flagged(init, flags, want, before[k]));
                let i = choose|i: int|
                    0 <= i < init.len() && #[trigger] flags[i] == want && init[i] == before[k];
                assert(flags[i] == want && entries[i] == before[k]);
            } else {
                assert(flags[last] == want && entries[last] == picked(entries, flags, want)[k]);
            }
        }
    }
}

/// The number that decimal digits stand for.
spec fn decimal_value(s: Seq<char>) -> nat
    decreases s.len(),
{
    if s.len() == 0 {
        0
    } else {
        10 * decimal_value(s.drop_last()) + (s.last() as nat - 0x30) as nat
    }
}

proof fn lemma_decimal_value(n: nat)
    ensures
        decimal_value(decimal_text(n)) == n,
    decreases n,
{
    let s = decimal_text(n);
    let d = n % 10;
    assert(crate::text::digit_char(d) as nat == 0x30 + d) by {
        let v = (0x30 + d) as u8;
        assert(v as nat == 0x30 + d);
        assert(v as char as nat == v as nat);
    }
    if n >= 10 {
        lemma_decimal_value(n / 10);
        assert(s.drop_last() =~= decimal_text(n / 10));
    } else {
        assert(s.drop_last() =~= Seq::empty());
        assert(decimal_value(s.drop_last()) == 0);
    }
}

/// No two operations of a batch share an op id.
pub proof fn law_op_ids_are_distinct(batch: Seq<char>, a: nat, b: nat)
    requires
        a != b,
    ensures
        item_op_id(batch, a) != item_op_id(batch, b),
{
    lemma_decimal_value(a);
    lemma_decimal_value(b);
    let head = batch + ":"@;
    let n = head.len() as int;
    assert(item_op_id(batch, a).skip(n) =~= decimal_text(a));
    assert(item_op_id(batch, b).skip(n) =~= decimal_text(b));
}

} // verus!
