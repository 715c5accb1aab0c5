//! One bulk request from its first operation to its answer. Each state says which outside
//! step comes next: the placement to fetch, the document to rewrite, the migration gate to ask, the
//! batch to send. What is sent has always passed the migration gate, and every operation ends up
//! with its answer in its place.

use crate::asyncwrite::{op_id, QueueError, QueuedWrite};
use crate::bulk::{
    all_for, answers, build_batch, clone_op, due, gate, held_back, in_range, item, item_op_id, lemma_by_target,
    lemma_set_lines_len, picked, place, queue_item, queued_line, refuse_item_async, set_lines,
    writes_in_range, Demux, Entry, Place,
};
use crate::bulk_order::{
    all_apart, all_stand, apart, asked, echoes, entry_answer, in_place, lemma_batch_in_place,
    lemma_orderly_gate, lemma_orderly_join, lemma_orderly_push, lemma_orderly_sent, lemma_orderly_set,
    orderly, ordinals, sent_answer, settle, stands_for, waits, Asked,
};
use crate::bulkline::{response_text, Item, Line, Report};
use crate::bulkprep::{
    build_op, doc_of, fail, is_prepared, item_index, logical_index_of, prepare, Answers, BulkItem,
    PlacementStep, Prepared,
};
use crate::error::{ErrorCode, SinkError, SpiError};
use crate::pipeline::PipelineResponse;
use crate::placements::Placements;
use crate::types::{opt, RequestCtx, Resolved, WriteAck, WriteOp};
use vstd::prelude::*;

verus! {

/// The operation at `k` waits in a sub-batch.
pub open spec fn pending(d: Demux, k: int) -> bool {
    exists|p: Place, i: int|
        #![trigger d.buffers()[p][i]]
        d.buffers().dom().contains(p) && 0 <= i < d.buffers()[p].len() && d.buffers()[p][i].0 == k
}

/// Every operation is answered or waits in a sub-batch, but for the open ones.
pub open spec fn settled(d: Demux, open: Set<int>) -> bool {
    forall|k: int|
        0 <= k < d.slots().len() ==> (#[trigger] d.slots()[k]) is Some || open.contains(k) || pending(
            d,
            k,
        )
}

/// The answer for an operation that failed before it was prepared.
pub open spec fn failure_item(item: BulkItem, index: Seq<char>, status: u16, error: Seq<char>) -> Item {
    Item { action: item.action, index, id: opt(item.id), status, report: Report::Error(error) }
}

/// What a bulk request has come to: the answers so far and what waits, the placements it
/// has fetched, and the operations that a cluster was sent and did not answer.
pub struct Progress {
    demux: Demux,
    cache: Placements,
    left_open: Ghost<Set<int>>,
    ops: Ghost<Seq<Asked>>,
}

impl Progress {
    /// The answers so far, and what waits.
    pub closed spec fn demux(self) -> Demux {
        self.demux
    }

    /// The answers so far.
    pub open spec fn slots(self) -> Seq<Option<Item>> {
        self.demux().slots()
    }

    /// The placements fetched so far.
    pub closed spec fn cache(self) -> Map<(Seq<char>, Seq<char>), Resolved> {
        self.cache@
    }

    /// The operations that a cluster was sent and did not answer.
    pub closed spec fn left_open(self) -> Set<int> {
        self.left_open@
    }

    /// What each operation taken up asks, in the order of the request.
    pub closed spec fn ops(self) -> Seq<Asked> {
        self.ops@
    }

    /// Every answer is in the place of its operation; what waits and what is open is
    /// unanswered, each operation once.
    pub open spec fn orderly_but(self, open: Set<int>) -> bool {
        orderly(self.slots(), self.demux().buffers(), self.ops(), open)
    }

    /// Every operation is answered or waits, but for the open ones and those that a cluster
    /// did not answer.
    pub open spec fn settled_but(self, open: Set<int>) -> bool {
        settled(self.demux(), self.left_open().union(open))
    }

    /// The same, but for the answers.
    pub open spec fn keeps(self, before: Progress) -> bool {
        &&& self.demux().buffers() == before.demux().buffers()
        &&& self.cache() == before.cache()
        &&& self.left_open() == before.left_open()
        &&& self.ops() == before.ops()
    }

    /// The same, but for the answers and for one more operation.
    pub open spec fn takes_up(self, before: Progress, op: Asked) -> bool {
        &&& self.demux().buffers() == before.demux().buffers()
        &&& self.cache() == before.cache()
        &&& self.left_open() == before.left_open()
        &&& self.ops() == before.ops().push(op)
    }
}

/// A bulk request between two operations.
pub struct BulkRun {
    so_far: Progress,
}

/// An operation whose placement has to be fetched.
pub struct Fetching {
    so_far: Progress,
    ordinal: usize,
    item: BulkItem,
    partition: String,
    index: String,
}

/// An operation whose placement is known and whose document is to be rewritten.
pub struct Rewriting {
    so_far: Progress,
    ordinal: usize,
    item: BulkItem,
    partition: String,
    index: String,
}

/// A sub-batch that is due. The migration gate is to be asked about each of its operations.
pub struct Gating {
    so_far: Progress,
    entries: Vec<Entry>,
}

/// The part of a sub-batch that passed the migration gate and is to be sent.
pub struct Writing {
    so_far: Progress,
    admitted: Vec<Entry>,
}

/// A prepared operation that is to be enqueued.
pub struct Enqueueing {
    so_far: Progress,
    ordinal: usize,
    prepared: Prepared,
}

/// A bulk request without further operations: what is still held is to be sent, in any
/// order.
pub struct Closing {
    demux: Demux,
    flushes: Vec<Vec<Entry>>,
    left_open: Ghost<Set<int>>,
    ops: Ghost<Seq<Asked>>,
}

/// What comes next for an operation.
pub enum Step {
    /// Go on with the next operation.
    Next(BulkRun),
    Fetch(Fetching),
    Rewrite(Rewriting),
    Gate(Gating),
}

/// What comes next for an operation of an asynchronous bulk.
pub enum AsyncStep {
    /// Go on with the next operation.
    Next(BulkRun),
    Enqueue(Enqueueing),
}

proof fn lemma_set(d: Demux, e: Demux, open: Set<int>, k: int, x: Item)
    requires
        settled(d, open),
        0 <= k < d.slots().len(),
        e.slots() == d.slots().update(k, Some(x)),
        e.buffers() == d.buffers(),
    ensures
        settled(e, open.remove(k)),
{
    assert forall|j: int| 0 <= j < e.slots().len() implies (#[trigger] e.slots()[j]) is Some || open.remove(
        k,
    ).contains(j) || pending(e, j) by {
        if j != k {
            assert(e.slots()[j] == d.slots()[j]);
            assert(d.slots()[j] is Some || open.contains(j) || pending(d, j));
            if pending(d, j) {
                let (p, i) = choose|p: Place, i: int|
                    #![trigger d.buffers()[p][i]]
                    d.buffers().dom().contains(p) && 0 <= i < d.buffers()[p].len()
                        && d.buffers()[p][i].0 == j;
                assert(e.buffers()[p][i].0 == j);
            }
        }
    }
}

proof fn lemma_push(d: Demux, e: Demux, open: Set<int>)
    requires
        settled(d, open),
        e.slots() == d.slots().push(None),
        e.buffers() == d.buffers(),
    ensures
        settled(e, open.insert(d.slots().len() as int)),
{
    assert forall|j: int| 0 <= j < e.slots().len() implies (#[trigger] e.slots()[j]) is Some || open.insert(
        d.slots().len() as int,
    ).contains(j) || pending(e, j) by {
        if j < d.slots().len() {
            assert(e.slots()[j] == d.slots()[j]);
            assert(d.slots()[j] is Some || open.contains(j) || pending(d, j));
            if pending(d, j) {
                let (p, i) = choose|p: Place, i: int|
                    #![trigger d.buffers()[p][i]]
                    d.buffers().dom().contains(p) && 0 <= i < d.buffers()[p].len()
                        && d.buffers()[p][i].0 == j;
                assert(e.buffers()[p][i].0 == j);
            }
        }
    }
}

proof fn lemma_buffer(d: Demux, e: Demux, open: Set<int>, ordinal: usize, prepared: Prepared)
    requires
        settled(d, open),
        e.slots() == d.slots(),
        e.buffers() == d.buffers().insert(
            place(prepared.op.target),
            d.waiting(place(prepared.op.target)).push((ordinal, prepared)),
        ),
    ensures
        settled(e, open.remove(ordinal as int)),
{
    let at = place(prepared.op.target);
    let grown = d.waiting(at).push((ordinal, prepared));
    assert forall|j: int| 0 <= j < e.slots().len() implies (#[trigger] e.slots()[j]) is Some || open.remove(
        ordinal as int,
    ).contains(j) || pending(e, j) by {
        assert(d.slots()[j] is Some || open.contains(j) || pending(d, j));
        if j == ordinal {
            let last = grown.len() - 1;
            assert(e.buffers()[at][last].0 == j);
        } else if pending(d, j) {
            let (p, i) = choose|p: Place, i: int|
                #![trigger d.buffers()[p][i]]
                d.buffers().dom().contains(p) && 0 <= i < d.buffers()[p].len() && d.buffers()[p][i].0
                    == j;
            assert(e.buffers()[p][i].0 == j);
        }
    }
}

proof fn lemma_flush(d: Demux, e: Demux, open: Set<int>, ordinal: usize, prepared: Prepared)
    requires
        settled(d, open),
        e.slots() == d.slots(),
        e.buffers() == d.buffers().remove(place(prepared.op.target)),
    ensures
        settled(
            e,
            open.remove(ordinal as int).union(
                ordinals(d.waiting(place(prepared.op.target)).push((ordinal, prepared))),
            ),
        ),
{
    let at = place(prepared.op.target);
    let grown = d.waiting(at).push((ordinal, prepared));
    assert forall|j: int| 0 <= j < e.slots().len() implies (#[trigger] e.slots()[j]) is Some || open.remove(
        ordinal as int,
    ).union(ordinals(grown)).contains(j) || pending(e, j) by {
        assert(d.slots()[j] is Some || open.contains(j) || pending(d, j));
        if j == ordinal {
            let last = grown.len() - 1;
            assert(grown[last].0 == j);
        } else if pending(d, j) {
            let (p, i) = choose|p: Place, i: int|
                #![trigger d.buffers()[p][i]]
                d.buffers().dom().contains(p) && 0 <= i < d.buffers()[p].len() && d.buffers()[p][i].0
                    == j;
            if p == at {
                assert(grown[i].0 == j);
            } else {
                assert(e.buffers()[p][i].0 == j);
            }
        }
    }
}

/// The positions that answers are for.
pub open spec fn written_to(writes: Seq<(usize, Item)>) -> Set<int> {
    Set::new(|k: int| exists|i: int| 0 <= i < writes.len() && (#[trigger] writes[i]).0 == k)
}

proof fn lemma_set_lines_some(slots: Seq<Option<Item>>, writes: Seq<(usize, Item)>, k: int)
    requires
        writes_in_range(writes, slots.len() as int),
        0 <= k < slots.len(),
        slots[k] is Some || written_to(writes).contains(k),
    ensures
        set_lines(slots, writes)[k] is Some,
    decreases writes.len(),
{
    if writes.len() > 0 {
        let init = writes.drop_last();
        assert(writes_in_range(init, slots.len() as int)) by {
            assert forall|i: int| 0 <= i < init.len() implies (#[trigger] init[i]).0
                < slots.len() by {
                assert(init[i] == writes[i]);
            }
        }
        lemma_set_lines_len(slots, init);
        assert(writes[writes.len() - 1].0 < slots.len());
        if writes.last().0 != k {
            if !(slots[k] is Some) {
                let i = choose|i: int| 0 <= i < writes.len() && (#[trigger] writes[i]).0 == k;
                assert(init[i].0 == k);
            }
            lemma_set_lines_some(slots, init, k);
        }
    }
}

proof fn lemma_writes(d: Demux, e: Demux, open: Set<int>, writes: Seq<(usize, Item)>)
    requires
        settled(d, open),
        writes_in_range(writes, d.slots().len() as int),
        e.slots() == set_lines(d.slots(), writes),
        e.buffers() == d.buffers(),
    ensures
        e.slots().len() == d.slots().len(),
        settled(e, open.difference(written_to(writes))),
{
    lemma_set_lines_len(d.slots(), writes);
    assert forall|j: int| 0 <= j < e.slots().len() implies (#[trigger] e.slots()[j]) is Some || open.difference(
        written_to(writes),
    ).contains(j) || pending(e, j) by {
        assert(d.slots()[j] is Some || open.contains(j) || pending(d, j));
        if d.slots()[j] is Some || written_to(writes).contains(j) {
            lemma_set_lines_some(d.slots(), writes, j);
        } else if pending(d, j) {
            let (p, i) = choose|p: Place, i: int|
                #![trigger d.buffers()[p][i]]
                d.buffers().dom().contains(p) && 0 <= i < d.buffers()[p].len() && d.buffers()[p][i].0
                    == j;
            assert(e.buffers()[p][i].0 == j);
        }
    }
}

/// A larger set of open operations is met too.
proof fn lemma_weaken(d: Demux, small: Set<int>, large: Set<int>)
    requires
        settled(d, small),
        small.subset_of(large),
    ensures
        settled(d, large),
{
    assert forall|j: int| 0 <= j < d.slots().len() implies (#[trigger] d.slots()[j]) is Some
        || large.contains(j) || pending(d, j) by {
        assert(d.slots()[j] is Some || small.contains(j) || pending(d, j));
    }
}

/// Every entry is picked one way or the other, and what is picked was there.
proof fn lemma_split(entries: Seq<Entry>, flags: Seq<bool>, slots: int)
    requires
        flags.len() >= entries.len(),
        in_range(entries, slots),
    ensures
        ordinals(entries).subset_of(
            ordinals(picked(entries, flags, true)).union(ordinals(picked(entries, flags, false))),
        ),
        in_range(picked(entries, flags, true), slots),
        in_range(picked(entries, flags, false), slots),
    decreases entries.len(),
{
    let yes = picked(entries, flags, true);
    let no = picked(entries, flags, false);
    if entries.len() > 0 {
        let init = entries.drop_last();
        let last = entries.len() - 1;
        assert(in_range(init, slots)) by {
            assert forall|i: int| 0 <= i < init.len() implies (#[trigger] init[i]).0 < slots by {
                assert(init[i] == entries[i]);
            }
        }
        lemma_split(init, flags, slots);
        let yes0 = picked(init, flags, true);
        let no0 = picked(init, flags, false);
        assert(entries[last].0 < slots);
        assert forall|i: int| 0 <= i < yes.len() implies (#[trigger] yes[i]).0 < slots by {
            if i < yes0.len() {
                assert(yes[i] == yes0[i]);
            }
        }
        assert forall|i: int| 0 <= i < no.len() implies (#[trigger] no[i]).0 < slots by {
            if i < no0.len() {
                assert(no[i] == no0[i]);
            }
        }
        assert forall|k: int| ordinals(entries).contains(k) implies ordinals(yes).union(
            ordinals(no),
        ).contains(k) by {
            let i = choose|i: int| 0 <= i < entries.len() && (#[trigger] entries[i]).0 == k;
            if i == last {
                if flags[last] {
                    assert(yes[yes.len() - 1].0 == k);
                } else {
                    assert(no[no.len() - 1].0 == k);
                }
            } else {
                assert(init[i].0 == k);
                assert(ordinals(init).contains(k));
                if ordinals(yes0).contains(k) {
                    let j = choose|j: int| 0 <= j < yes0.len() && (#[trigger] yes0[j]).0 == k;
                    assert(yes[j].0 == k);
                } else {
                    let j = choose|j: int| 0 <= j < no0.len() && (#[trigger] no0[j]).0 == k;
                    assert(no[j].0 == k);
                }
            }
        }
    }
}

/// Every operation of a batch goes to the same target.
pub open spec fn single_target(batch: Seq<WriteOp>) -> bool {
    forall|i: int, j: int|
        0 <= i < batch.len() && 0 <= j < batch.len() ==> place((#[trigger] batch[i]).target) == place(
            (#[trigger] batch[j]).target,
        )
}

/// What is picked is for the same target as the whole.
proof fn lemma_picked_for(entries: Seq<Entry>, flags: Seq<bool>, want: bool, p: Place)
    requires
        all_for(entries, p),
    ensures
        all_for(picked(entries, flags, want), p),
    decreases entries.len(),
{
    if entries.len() > 0 {
        let init = entries.drop_last();
        assert forall|i: int| 0 <= i < init.len() implies place((#[trigger] init[i]).1.op.target)
            == p by {
            assert(init[i] == entries[i]);
        }
        lemma_picked_for(init, flags, want, p);
        let before = picked(init, flags, want);
        let now = picked(entries, flags, want);
        assert forall|i: int| 0 <= i < now.len() implies place((#[trigger] now[i]).1.op.target)
            == p by {
            if i < before.len() {
                assert(now[i] == before[i]);
            } else {
                assert(now[i] == entries[entries.len() - 1]);
            }
        }
    }
}

/// The operations of a batch that its cluster left unanswered.
pub open spec fn unanswered(admitted: Seq<Entry>, result: Result<WriteAck, SinkError>) -> Set<int> {
    match result {
        Ok(ack) => if ack.results@.len() < admitted.len() {
            ordinals(admitted.skip(ack.results@.len() as int))
        } else {
            Set::empty()
        },
        Err(_) => Set::empty(),
    }
}

/// The migration gate's answers are for the entries it held back.
proof fn lemma_held_back(rejected: Seq<Entry>, slots: int)
    requires
        in_range(rejected, slots),
    ensures
        writes_in_range(held_back(rejected), slots),
        written_to(held_back(rejected)) =~= ordinals(rejected),
{
    let w = held_back(rejected);
    assert forall|i: int| 0 <= i < w.len() implies (#[trigger] w[i]).0 < slots by {
        assert(rejected[i].0 < slots);
    }
    assert forall|k: int| ordinals(rejected).contains(k) implies written_to(w).contains(k) by {
        let i = choose|i: int| 0 <= i < rejected.len() && (#[trigger] rejected[i]).0 == k;
        assert(w[i].0 == k);
    }
    assert forall|k: int| written_to(w).contains(k) implies ordinals(rejected).contains(k) by {
        let i = choose|i: int| 0 <= i < w.len() && (#[trigger] w[i]).0 == k;
        assert(rejected[i].0 == k);
    }
}

/// A cluster's answers are for the entries sent to it, all but the unanswered ones.
proof fn lemma_answers(admitted: Seq<Entry>, result: Result<WriteAck, SinkError>, slots: int)
    requires
        in_range(admitted, slots),
    ensures
        writes_in_range(answers(admitted, result), slots),
        ordinals(admitted).subset_of(
            written_to(answers(admitted, result)).union(unanswered(admitted, result)),
        ),
{
    let w = answers(admitted, result);
    assert forall|i: int| 0 <= i < w.len() implies (#[trigger] w[i]).0 < slots by {
        assert(admitted[i].0 < slots);
    }
    assert forall|k: int| ordinals(admitted).contains(k) implies written_to(w).union(
        unanswered(admitted, result),
    ).contains(k) by {
        let i = choose|i: int| 0 <= i < admitted.len() && (#[trigger] admitted[i]).0 == k;
        if i < w.len() {
            assert(w[i].0 == k);
        } else {
            let rest = admitted.skip(result->Ok_0.results@.len() as int);
            assert(rest[i - w.len()].0 == k);
        }
    }
}


/// One operation is open.
pub open spec fn one(k: usize) -> Set<int> {
    Set::empty().insert(k as int)
}

impl BulkRun {
    /// What the request has come to.
    pub closed spec fn so_far(self) -> Progress {
        self.so_far
    }

    #[verifier::type_invariant]
    spec fn well_formed(self) -> bool {
        &&& self.so_far.settled_but(Set::empty())
        &&& self.so_far.orderly_but(Set::empty())
    }

    /// A request none of whose operations has been read.
    pub fn new() -> (r: Self)
        ensures
            r.so_far().slots().len() == 0,
            r.so_far().demux().buffers() == Map::<Place, Seq<Entry>>::empty(),
            r.so_far().cache() == Map::<(Seq<char>, Seq<char>), Resolved>::empty(),
            r.so_far().left_open() == Set::<int>::empty(),
            r.so_far().ops() == Seq::<Asked>::empty(),
    {
        BulkRun {
            so_far: Progress {
                demux: Demux::new(0),
                cache: Placements::new(),
                left_open: Ghost(Set::empty()),
                ops: Ghost(Seq::empty()),
            },
        }
    }

    /// Takes up the next operation. `partition` is what the router made of its source.
    pub fn operation(
        self,
        ctx: &RequestCtx,
        item: BulkItem,
        partition: Result<String, SpiError>,
    ) -> (r: Step)
        ensures
            match partition {
                Err(_) => r matches Step::Next(run) && run.so_far().takes_up(
                    self.so_far(),
                    asked(item, item_index(item, *ctx)),
                ) && run.so_far().slots() == self.so_far().slots().push(
                    Some(
                        failure_item(item, item_index(item, *ctx), 400, "partition_unresolved"@),
                    ),
                ),
                Ok(p) => if self.so_far().cache().dom().contains((p@, item_index(item, *ctx))) {
                    r matches Step::Rewrite(w) && w.so_far().takes_up(
                        self.so_far(),
                        asked(item, item_index(item, *ctx)),
                    ) && w.so_far().slots() == self.so_far().slots().push(None) && w.ordinal()
                        == self.so_far().slots().len() && w.item() == item && w.key() == (
                        p@,
                        item_index(item, *ctx),
                    )
                } else {
                    r matches Step::Fetch(f) && f.so_far().takes_up(
                        self.so_far(),
                        asked(item, item_index(item, *ctx)),
                    ) && f.so_far().slots() == self.so_far().slots().push(None) && f.ordinal()
                        == self.so_far().slots().len() && f.item() == item && f.key() == (
                        p@,
                        item_index(item, *ctx),
                    )
                },
            },
    {
        proof {
            use_type_invariant(&self);
        }
        let before = self.so_far;
        let ghost op = asked(item, item_index(item, *ctx));
        let ops = Ghost(before.ops@.push(op));
        let (demux, ordinal) = before.demux.push_slot();
        proof {
            lemma_push(before.demux, demux, before.left_open@.union(Set::empty()));
            lemma_weaken(
                demux,
                before.left_open@.union(Set::empty()).insert(ordinal as int),
                before.left_open@.union(one(ordinal)),
            );
            lemma_orderly_push(before.slots(), before.demux.buffers(), before.ops@, op);
        }
        let index = logical_index_of(&item, ctx);
        let named = match &partition {
            Ok(p) => p.clone(),
            Err(_) => String::new(),
        };
        let step = prepare(ctx, &item, partition, &before.cache);
        match step {
            PlacementStep::Failed(failure) => {
                let answered = demux.failed(ordinal, failure);
                proof {
                    let x = failure_item(item, item_index(item, *ctx), 400, "partition_unresolved"@);
                    lemma_set(
                        demux,
                        answered,
                        before.left_open@.union(one(ordinal)),
                        ordinal as int,
                        x,
                    );
                    lemma_weaken(
                        answered,
                        before.left_open@.union(one(ordinal)).remove(ordinal as int),
                        before.left_open@.union(Set::empty()),
                    );
                    assert(answered.slots() =~= before.slots().push(Some(x)));
                    lemma_orderly_set(demux.slots(), demux.buffers(), ops@, ordinal as int, x);
                }
                Step::Next(
                    BulkRun {
                        so_far: Progress {
                            demux: answered,
                            cache: before.cache,
                            left_open: before.left_open,
                            ops,
                        },
                    },
                )
            },
            PlacementStep::Known(_) => Step::Rewrite(
                Rewriting {
                    so_far: Progress {
                        demux,
                        cache: before.cache,
                        left_open: before.left_open,
                        ops,
                    },
                    ordinal,
                    item,
                    partition: named,
                    index,
                },
            ),
            PlacementStep::Fetch { partition, index } => Step::Fetch(
                Fetching {
                    so_far: Progress {
                        demux,
                        cache: before.cache,
                        left_open: before.left_open,
                        ops,
                    },
                    ordinal,
                    item,
                    partition,
                    index,
                },
            ),
        }
    }
}

impl Fetching {
    /// What the request has come to.
    pub closed spec fn so_far(self) -> Progress {
        self.so_far
    }

    /// The position of the operation.
    pub closed spec fn ordinal(self) -> usize {
        self.ordinal
    }

    /// The operation.
    pub closed spec fn item(self) -> BulkItem {
        self.item
    }

    /// The partition and the index whose placement is to be fetched.
    pub closed spec fn key(self) -> (Seq<char>, Seq<char>) {
        (self.partition@, self.index@)
    }

    #[verifier::type_invariant]
    spec fn well_formed(self) -> bool {
        &&& self.ordinal < self.so_far.slots().len()
        &&& self.so_far.settled_but(one(self.ordinal))
        &&& self.so_far.orderly_but(one(self.ordinal))
        &&& self.so_far.ops()[self.ordinal as int] == asked(self.item, self.index@)
    }

    /// The partition whose placement is to be fetched.
    pub fn partition(&self) -> (r: &str)
        ensures
            r@ == self.key().0,
    {
        self.partition.as_str()
    }

    /// The index whose placement is to be fetched.
    pub fn index(&self) -> (r: &str)
        ensures
            r@ == self.key().1,
    {
        self.index.as_str()
    }

    /// Goes on with the placement that was fetched, or answers the operation that has none.
    pub fn fetched(self, outcome: Result<Resolved, SpiError>) -> (r: Step)
        ensures
            match outcome {
                Ok(resolved) => {
                    &&& r is Rewrite
                    &&& r->Rewrite_0.ordinal() == self.ordinal()
                    &&& r->Rewrite_0.item() == self.item()
                    &&& r->Rewrite_0.key() == self.key()
                    &&& r->Rewrite_0.so_far().demux() == self.so_far().demux()
                    &&& r->Rewrite_0.so_far().left_open() == self.so_far().left_open()
                    &&& r->Rewrite_0.so_far().ops() == self.so_far().ops()
                    &&& r->Rewrite_0.so_far().cache() == self.so_far().cache().insert(
                        self.key(),
                        resolved,
                    )
                },
                Err(_) => {
                    &&& r is Next
                    &&& r->Next_0.so_far().keeps(self.so_far())
                    &&& r->Next_0.so_far().slots() == self.so_far().slots().update(
                        self.ordinal() as int,
                        Some(
                            failure_item(
                                self.item(),
                                self.key().1,
                                404,
                                "placement_missing"@,
                            ),
                        ),
                    )
                },
            },
    {
        proof {
            use_type_invariant(&self);
        }
        match outcome {
            Ok(resolved) => {
                let mut cache = self.so_far.cache;
                cache.insert(self.partition.clone(), self.index.clone(), resolved);
                let so_far = Progress {
                    demux: self.so_far.demux,
                    cache,
                    left_open: self.so_far.left_open,
                    ops: self.so_far.ops,
                };
                Step::Rewrite(
                    Rewriting {
                        so_far,
                        ordinal: self.ordinal,
                        item: self.item,
                        partition: self.partition,
                        index: self.index,
                    },
                )
            },
            Err(_) => {
                let failure = fail(&self.item, self.index.as_str(), 404, "placement_missing");
                Step::Next(answer(self.so_far, self.ordinal, failure.into_line()))
            },
        }
    }
}

/// Answers the one open operation.
fn answer(so_far: Progress, ordinal: usize, line: Line) -> (r: BulkRun)
    requires
        ordinal < so_far.slots().len(),
        so_far.settled_but(one(ordinal)),
        so_far.orderly_but(one(ordinal)),
        echoes(line@, so_far.ops()[ordinal as int]),
    ensures
        r.so_far().keeps(so_far),
        r.so_far().slots() == so_far.slots().update(ordinal as int, Some(line@)),
{
    let demux = so_far.demux.set_line(ordinal, line);
    proof {
        let open = so_far.left_open@.union(one(ordinal));
        lemma_set(so_far.demux, demux, open, ordinal as int, line@);
        lemma_weaken(
            demux,
            open.remove(ordinal as int),
            so_far.left_open@.union(Set::empty()),
        );
        lemma_orderly_set(
            so_far.slots(),
            so_far.demux.buffers(),
            so_far.ops@,
            ordinal as int,
            line@,
        );
    }
    BulkRun {
        so_far: Progress {
            demux,
            cache: so_far.cache,
            left_open: so_far.left_open,
            ops: so_far.ops,
        },
    }
}

impl Rewriting {
    /// What the request has come to.
    pub closed spec fn so_far(self) -> Progress {
        self.so_far
    }

    /// The position of the operation.
    pub closed spec fn ordinal(self) -> usize {
        self.ordinal
    }

    /// The operation.
    pub closed spec fn item(self) -> BulkItem {
        self.item
    }

    /// The partition and the index of its placement.
    pub closed spec fn key(self) -> (Seq<char>, Seq<char>) {
        (self.partition@, self.index@)
    }

    /// The placement.
    pub open spec fn placement(self) -> Resolved {
        self.so_far().cache()[self.key()]
    }

    #[verifier::type_invariant]
    spec fn well_formed(self) -> bool {
        &&& self.ordinal < self.so_far.slots().len()
        &&& self.so_far.settled_but(one(self.ordinal))
        &&& self.so_far.orderly_but(one(self.ordinal))
        &&& self.so_far.ops()[self.ordinal as int] == asked(self.item, self.index@)
        &&& self.so_far.cache().dom().contains((self.partition@, self.index@))
    }

    /// The operation that is to be rewritten.
    pub fn operation(&self) -> (r: &BulkItem)
        ensures
            *r == self.item(),
    {
        &self.item
    }

    /// The placement that its document is to be rewritten for.
    pub fn resolved(&self) -> (r: Option<&Resolved>)
        ensures
            r is Some,
            *r->Some_0 == self.placement(),
    {
        proof {
            use_type_invariant(self);
        }
        self.so_far.cache.get(self.partition.as_str(), self.index.as_str())
    }

    /// What the operation is prepared to.
    pub open spec fn prepares(self, p: Prepared, answers: Answers) -> bool {
        doc_of(self.item(), self.placement(), answers) matches Ok((doc, id)) && is_prepared(
            p,
            self.item(),
            self.key().1,
            self.placement(),
            doc,
            id,
        )
    }

    fn build(self, answers: Answers) -> (r: Result<(Progress, usize, Prepared), BulkRun>)
        ensures
            match doc_of(self.item(), self.placement(), answers) {
                Ok(_) => {
                    &&& r is Ok
                    &&& r->Ok_0.0 == self.so_far()
                    &&& r->Ok_0.1 == self.ordinal()
                    &&& self.prepares(r->Ok_0.2, answers)
                    &&& r->Ok_0.1 < r->Ok_0.0.slots().len()
                    &&& r->Ok_0.0.settled_but(one(r->Ok_0.1))
                    &&& r->Ok_0.0.orderly_but(one(r->Ok_0.1))
                    &&& stands_for((r->Ok_0.1, r->Ok_0.2), r->Ok_0.0.ops())
                },
                Err(error) => {
                    &&& r is Err
                    &&& r->Err_0.so_far().keeps(self.so_far())
                    &&& r->Err_0.so_far().slots() == self.so_far().slots().update(
                        self.ordinal() as int,
                        Some(failure_item(self.item(), self.key().1, 400, error)),
                    )
                },
            },
    {
        proof {
            use_type_invariant(&self);
        }
        let built = match self.so_far.cache.get(self.partition.as_str(), self.index.as_str()) {
            Some(resolved) => build_op(resolved, &self.item, self.index.clone(), answers),
            None => Err(fail(&self.item, self.index.as_str(), 404, "placement_missing")),
        };
        match built {
            Ok(prepared) => Ok((self.so_far, self.ordinal, prepared)),
            Err(failure) => Err(answer(self.so_far, self.ordinal, failure.into_line())),
        }
    }

    /// Goes on with what the rewriting layer made of the operation: it waits in its
    /// target's sub-batch, which may be due now, or it is answered with why it cannot be
    /// written.
    pub fn rewritten(self, answers: Answers) -> (r: Step)
        ensures
            match doc_of(self.item(), self.placement(), answers) {
                Err(error) => {
                    &&& r is Next
                    &&& r->Next_0.so_far().keeps(self.so_far())
                    &&& r->Next_0.so_far().slots() == self.so_far().slots().update(
                        self.ordinal() as int,
                        Some(failure_item(self.item(), self.key().1, 400, error)),
                    )
                },
                Ok(_) => exists|p: Prepared| #[trigger]
                    self.prepares(p, answers) && buffered(
                        self.so_far(),
                        (self.ordinal(), p),
                        r,
                    ),
            },
    {
        let ghost me = self;
        match self.build(answers) {
            Err(run) => Step::Next(run),
            Ok((so_far, ordinal, prepared)) => {
                let ghost p = prepared;
                let ghost open = so_far.left_open@.union(one(ordinal));
                proof {
                    lemma_orderly_join(
                        so_far.slots(),
                        so_far.demux.buffers(),
                        so_far.ops@,
                        (ordinal, p),
                        place(p.op.target),
                    );
                }
                let (demux, flush) = so_far.demux.buffer_and_flush(ordinal, prepared);
                match flush {
                    None => {
                        proof {
                            lemma_buffer(so_far.demux, demux, open, ordinal, p);
                            lemma_weaken(
                                demux,
                                open.remove(ordinal as int),
                                so_far.left_open@.union(Set::empty()),
                            );
                        }
                        let r = Step::Next(
                            BulkRun {
                                so_far: Progress {
                                    demux,
                                    cache: so_far.cache,
                                    left_open: so_far.left_open,
                                    ops: so_far.ops,
                                },
                            },
                        );
                        assert(me.prepares(p, answers) && buffered(me.so_far(), (ordinal, p), r));
                        r
                    },
                    Some(entries) => {
                        proof {
                            lemma_flush(so_far.demux, demux, open, ordinal, p);
                            lemma_weaken(
                                demux,
                                open.remove(ordinal as int).union(ordinals(entries@)),
                                so_far.left_open@.union(ordinals(entries@)),
                            );
                        }
                        let r = Step::Gate(
                            Gating {
                                so_far: Progress {
                                    demux,
                                    cache: so_far.cache,
                                    left_open: so_far.left_open,
                                    ops: so_far.ops,
                                },
                                entries,
                            },
                        );
                        assert(me.prepares(p, answers) && buffered(me.so_far(), (ordinal, p), r));
                        r
                    },
                }
            },
        }
    }

    /// The same for an asynchronous bulk: the prepared operation is enqueued.
    pub fn rewritten_async(self, answers: Answers) -> (r: AsyncStep)
        ensures
            match doc_of(self.item(), self.placement(), answers) {
                Err(error) => {
                    &&& r is Next
                    &&& r->Next_0.so_far().keeps(self.so_far())
                    &&& r->Next_0.so_far().slots() == self.so_far().slots().update(
                        self.ordinal() as int,
                        Some(failure_item(self.item(), self.key().1, 400, error)),
                    )
                },
                Ok(_) => {
                    &&& r is Enqueue
                    &&& r->Enqueue_0.so_far() == self.so_far()
                    &&& r->Enqueue_0.ordinal() == self.ordinal()
                    &&& self.prepares(r->Enqueue_0.prepared(), answers)
                },
            },
    {
        match self.build(answers) {
            Err(run) => AsyncStep::Next(run),
            Ok((so_far, ordinal, prepared)) => AsyncStep::Enqueue(
                Enqueueing { so_far, ordinal, prepared },
            ),
        }
    }
}

/// A prepared operation is in its target's sub-batch: one that is due is handed out, any
/// other waits.
pub open spec fn buffered(before: Progress, entry: Entry, r: Step) -> bool {
    let at = place(entry.1.op.target);
    let grown = before.demux().waiting(at).push(entry);
    if due(grown) {
        &&& r is Gate
        &&& r->Gate_0.entries() == grown
        &&& r->Gate_0.so_far().slots() == before.slots()
        &&& r->Gate_0.so_far().demux().buffers() == before.demux().buffers().remove(at)
        &&& r->Gate_0.so_far().cache() == before.cache()
        &&& r->Gate_0.so_far().left_open() == before.left_open()
        &&& r->Gate_0.so_far().ops() == before.ops()
    } else {
        &&& r is Next
        &&& r->Next_0.so_far().slots() == before.slots()
        &&& r->Next_0.so_far().demux().buffers() == before.demux().buffers().insert(at, grown)
        &&& r->Next_0.so_far().cache() == before.cache()
        &&& r->Next_0.so_far().left_open() == before.left_open()
        &&& r->Next_0.so_far().ops() == before.ops()
    }
}

impl Gating {
    /// What the request has come to.
    pub closed spec fn so_far(self) -> Progress {
        self.so_far
    }

    /// The sub-batch.
    pub closed spec fn entries(self) -> Seq<Entry> {
        self.entries@
    }

    #[verifier::type_invariant]
    spec fn well_formed(self) -> bool {
        &&& in_range(self.entries@, self.so_far.slots().len() as int)
        &&& self.so_far.settled_but(ordinals(self.entries@))
        &&& self.so_far.orderly_but(ordinals(self.entries@))
        &&& apart(self.entries@)
        &&& all_stand(self.entries@, self.so_far.ops())
        &&& exists|p: Place| all_for(self.entries@, p)
    }

    /// The operations the migration gate is to be asked about.
    pub fn operations(&self) -> (r: &Vec<Entry>)
        ensures
            r@ == self.entries(),
            all_stand(r@, self.so_far().ops()),
            apart(r@),
    {
        proof {
            use_type_invariant(self);
        }
        &self.entries
    }

    /// Goes on with what the migration gate said of each operation: those it holds back are answered,
    /// the others are to be sent.
    pub fn gated(self, admits: &[bool]) -> (r: Writing)
        requires
            admits@.len() == self.entries().len(),
        ensures
            r.admitted() == picked(self.entries(), admits@, true),
            r.so_far().keeps(self.so_far()),
            r.so_far().slots() == set_lines(
                self.so_far().slots(),
                held_back(picked(self.entries(), admits@, false)),
            ),
            forall|j: int|
                0 <= j < self.entries().len() && !admits@[j] ==> r.so_far().slots()[(
                #[trigger] self.entries()[j]).0 as int] == Some(
                    item(self.entries()[j].1, 409, Report::Error("stale_epoch"@)),
                ),
            forall|k: int|
                0 <= k < self.so_far().slots().len() && !ordinals(
                    picked(self.entries(), admits@, false),
                ).contains(k) ==> #[trigger] r.so_far().slots()[k] == self.so_far().slots()[k],
    {
        proof {
            use_type_invariant(&self);
        }
        let before = self.so_far;
        let ghost all = self.entries@;
        let ghost slots = before.slots().len() as int;
        proof {
            lemma_split(all, admits@, slots);
            let p = choose|p: Place| all_for(all, p);
            lemma_picked_for(all, admits@, true, p);
            lemma_orderly_gate(before.slots(), before.demux.buffers(), before.ops@, all, admits@);
        }
        let (admitted, rejected) = gate(self.entries, admits);
        let demux = before.demux.apply_rejected(rejected.as_slice());
        proof {
            lemma_held_back(rejected@, slots);
            let open = before.left_open@.union(ordinals(all));
            lemma_writes(before.demux, demux, open, held_back(rejected@));
            lemma_weaken(
                demux,
                open.difference(written_to(held_back(rejected@))),
                before.left_open@.union(ordinals(admitted@)),
            );
        }
        Writing {
            so_far: Progress {
                demux,
                cache: before.cache,
                left_open: before.left_open,
                ops: before.ops,
            },
            admitted,
        }
    }
}

impl Writing {
    /// What the request has come to.
    pub closed spec fn so_far(self) -> Progress {
        self.so_far
    }

    /// The operations that passed the migration gate.
    pub closed spec fn admitted(self) -> Seq<Entry> {
        self.admitted@
    }

    #[verifier::type_invariant]
    spec fn well_formed(self) -> bool {
        &&& in_range(self.admitted@, self.so_far.slots().len() as int)
        &&& self.so_far.settled_but(ordinals(self.admitted@))
        &&& self.so_far.orderly_but(ordinals(self.admitted@))
        &&& apart(self.admitted@)
        &&& all_stand(self.admitted@, self.so_far.ops())
        &&& exists|p: Place| all_for(self.admitted@, p)
    }

    /// The batch to send: the operations that passed the migration gate, and no others. It
    /// is for one target.
    pub fn batch(&self) -> (r: Vec<WriteOp>)
        ensures
            is_batch_of(r@, self.admitted()),
            single_target(r@),
    {
        proof {
            use_type_invariant(self);
        }
        build_batch(self.admitted.as_slice())
    }

    /// Goes on with what the cluster answered.
    pub fn written(self, result: Result<WriteAck, SinkError>) -> (r: BulkRun)
        ensures
            r.so_far().demux().buffers() == self.so_far().demux().buffers(),
            r.so_far().cache() == self.so_far().cache(),
            r.so_far().left_open() == self.so_far().left_open().union(
                unanswered(self.admitted(), result),
            ),
            r.so_far().slots() == set_lines(
                self.so_far().slots(),
                answers(self.admitted(), result),
            ),
            r.so_far().ops() == self.so_far().ops(),
            forall|j: int|
                0 <= j < self.admitted().len() ==> r.so_far().slots()[(
                #[trigger] self.admitted()[j]).0 as int] == sent_answer(
                    self.admitted()[j].1,
                    result,
                    j,
                ),
            forall|k: int|
                0 <= k < self.so_far().slots().len() && !ordinals(self.admitted()).contains(k)
                    ==> #[trigger] r.so_far().slots()[k] == self.so_far().slots()[k],
    {
        proof {
            use_type_invariant(&self);
        }
        let before = self.so_far;
        let ghost slots = before.slots().len() as int;
        let ghost left = before.left_open@.union(unanswered(self.admitted@, result));
        let ghost writes = answers(self.admitted@, result);
        let demux = before.demux.apply_results(self.admitted.as_slice(), result);
        proof {
            lemma_answers(self.admitted@, result, slots);
            let open = before.left_open@.union(ordinals(self.admitted@));
            lemma_writes(before.demux, demux, open, writes);
            lemma_weaken(demux, open.difference(written_to(writes)), left.union(Set::empty()));
            lemma_orderly_sent(
                before.slots(),
                before.demux.buffers(),
                before.ops@,
                self.admitted@,
                result,
            );
        }
        BulkRun {
            so_far: Progress {
                demux,
                cache: before.cache,
                left_open: Ghost(left),
                ops: before.ops,
            },
        }
    }
}

/// A batch holds the operations of entries, in order.
pub open spec fn is_batch_of(batch: Seq<WriteOp>, entries: Seq<Entry>) -> bool {
    &&& batch.len() == entries.len()
    &&& forall|i: int|
        0 <= i < batch.len() ==> {
            &&& (#[trigger] batch[i]).target == entries[i].1.op.target
            &&& batch[i].doc@ == entries[i].1.op.doc@
            &&& batch[i].epoch == entries[i].1.op.epoch
            &&& batch[i].protocol == entries[i].1.op.protocol
        }
}

impl Enqueueing {
    /// What the request has come to.
    pub closed spec fn so_far(self) -> Progress {
        self.so_far
    }

    /// The position of the operation.
    pub closed spec fn ordinal(self) -> usize {
        self.ordinal
    }

    /// The prepared operation.
    pub closed spec fn prepared(self) -> Prepared {
        self.prepared
    }

    #[verifier::type_invariant]
    spec fn well_formed(self) -> bool {
        &&& self.ordinal < self.so_far.slots().len()
        &&& self.so_far.settled_but(one(self.ordinal))
        &&& self.so_far.orderly_but(one(self.ordinal))
        &&& stands_for((self.ordinal, self.prepared), self.so_far.ops())
    }

    /// What to enqueue.
    pub fn write(&self, ctx: &RequestCtx) -> (r: QueuedWrite)
        ensures
            r.op_id@ == item_op_id(op_id(*ctx), self.ordinal() as nat),
            r.partition_key@ == self.prepared().partition@,
            r.batch@.len() == 1,
            r.batch@[0].target == self.prepared().op.target,
            r.batch@[0].doc@ == self.prepared().op.doc@,
            r.batch@[0].epoch == self.prepared().op.epoch,
            r.batch@[0].protocol == self.prepared().op.protocol,
    {
        queue_item(ctx, self.ordinal, &self.prepared)
    }

    /// Goes on with what the queue said.
    pub fn enqueued(self, ctx: &RequestCtx, acknowledged: Result<(), QueueError>) -> (r: BulkRun)
        ensures
            r.so_far().keeps(self.so_far()),
            r.so_far().slots() == self.so_far().slots().update(
                self.ordinal() as int,
                Some(
                    match acknowledged {
                        Ok(()) => item(
                            self.prepared(),
                            202,
                            Report::Queued(item_op_id(op_id(*ctx), self.ordinal() as nat)),
                        ),
                        Err(_) => item(
                            self.prepared(),
                            503,
                            Report::Error("enqueue_failed"@),
                        ),
                    },
                ),
            ),
    {
        proof {
            use_type_invariant(&self);
        }
        let line = queued_line(ctx, self.ordinal, &self.prepared, acknowledged);
        answer(self.so_far, self.ordinal, line)
    }
}

impl BulkRun {
    /// Answers an operation that an asynchronous bulk cannot honour, or gives the run and
    /// the operation back.
    pub fn refuse(self, ctx: &RequestCtx, item: BulkItem) -> (r: Result<(Self, BulkItem), Self>)
        ensures
            if item.action is Update || item.concurrency_control {
                &&& r is Err
                &&& r->Err_0.so_far().takes_up(self.so_far(), asked(item, item_index(item, *ctx)))
                &&& r->Err_0.so_far().slots() == self.so_far().slots().push(
                    Some(failure_item(item, item_index(item, *ctx), 400, "unsupported_async"@)),
                )
            } else {
                r == Ok::<(Self, BulkItem), Self>((self, item))
            },
    {
        match refuse_item_async(&item, ctx) {
            None => Ok((self, item)),
            Some(line) => {
                proof {
                    use_type_invariant(&self);
                }
                let before = self.so_far;
                let ghost op = asked(item, item_index(item, *ctx));
                let (demux, ordinal) = before.demux.push_slot();
                proof {
                    lemma_orderly_push(before.slots(), before.demux.buffers(), before.ops@, op);
                    lemma_push(before.demux, demux, before.left_open@.union(Set::empty()));
                    lemma_weaken(
                        demux,
                        before.left_open@.union(Set::empty()).insert(ordinal as int),
                        before.left_open@.union(one(ordinal)),
                    );
                }
                let run = answer(
                    Progress {
                        demux,
                        cache: before.cache,
                        left_open: before.left_open,
                        ops: Ghost(before.ops@.push(op)),
                    },
                    ordinal,
                    line,
                );
                proof {
                    assert(run.so_far().slots() =~= before.slots().push(Some(line@)));
                }
                Err(run)
            },
        }
    }

    /// Ends the request: no operation is left to read. What still waits is handed out.
    pub fn finish(self) -> (r: Closing)
        ensures
            r.slots() == self.so_far().slots(),
            r.left_open() == self.so_far().left_open(),
            r.ops() == self.so_far().ops(),
            by_place(r.flushes(), self.so_far().demux().buffers()),
            forall|i: int| 0 <= i < r.flushes().len() ==> (#[trigger] r.flushes()[i]).len() > 0,
            forall|k: int|
                pending(self.so_far().demux(), k) <==> #[trigger] flushed_set(
                    r.flushes(),
                ).contains(k),
    {
        proof {
            use_type_invariant(&self);
        }
        let before = self.so_far;
        let (demux, subs) = before.demux.flush_remaining();
        let ghost all = subs@;
        let mut flushes: Vec<Vec<Entry>> = Vec::new();
        for sub in it: subs
            invariant
                it.seq() == all,
                flushes@.len() == it.index(),
                forall|i: int| 0 <= i < flushes@.len() ==> (#[trigger] flushes@[i])@ == all[i].held(),
        {
            flushes.push(sub.into_entries());
        }
        proof {
            lemma_by_target(all);
            let out = lists(flushes@);
            let d = before.demux;
            assert forall|k: int| #[trigger] flushed_set(out).contains(k) implies pending(d, k) by {
                let (i, j) = choose|i: int, j: int|
                    #![trigger out[i][j]]
                    0 <= i < out.len() && 0 <= j < out[i].len() && out[i][j].0 == k;
                let p = all[i].place();
                assert(d.buffers()[p] == all[i].held());
                assert(flushes@[i]@ == all[i].held());
                assert(d.buffers()[p][j].0 == k);
            }
            assert forall|k: int| pending(d, k) implies #[trigger] flushed_set(out).contains(k) by {
                let (p, j) = choose|p: Place, j: int|
                    #![trigger d.buffers()[p][j]]
                    d.buffers().dom().contains(p) && 0 <= j < d.buffers()[p].len()
                        && d.buffers()[p][j].0 == k;
                let i = choose|i: int| 0 <= i < all.len() && #[trigger] all[i].place() == p;
                assert(flushes@[i]@ == all[i].held());
                assert(out[i][j].0 == k);
            }
            let places = Seq::new(all.len(), |i: int| all[i].place());
            assert(lists_of(out, d.buffers(), places)) by {
                assert forall|i: int, j: int| 0 <= i < j < places.len() implies #[trigger] places[i]
                    != #[trigger] places[j] by {
                    assert(all[i].place() != all[j].place());
                }
                assert forall|i: int| 0 <= i < places.len() implies d.buffers().dom().contains(
                    #[trigger] places[i],
                ) && d.buffers()[places[i]] == out[i] by {
                    assert(d.buffers().dom().contains(all[i].place()));
                    assert(flushes@[i]@ == all[i].held());
                }
                assert forall|p: Place| #[trigger] d.buffers().dom().contains(p) implies exists|
                    i: int,
                |
                    0 <= i < places.len() && #[trigger] places[i] == p by {
                    let i = choose|i: int| 0 <= i < all.len() && #[trigger] all[i].place() == p;
                    assert(places[i] == p);
                }
            }
            assert forall|i: int| 0 <= i < flushes@.len() implies in_range(
                #[trigger] out[i],
                demux.slots().len() as int,
            ) && out[i].len() > 0 && exists|p: Place| all_for(out[i], p) by {
                assert(flushes@[i]@ == all[i].held());
                assert(all_for(out[i], all[i].place()));
            }
            let b = d.buffers();
            assert forall|i: int, j: int|
                #![trigger out[i][j]]
                0 <= i < out.len() && 0 <= j < out[i].len() implies waits(b, places[i], j)
                && b[places[i]][j] == out[i][j] && stands_for(out[i][j], before.ops@)
                && demux.slots()[out[i][j].0 as int] is None by {
                assert(b.dom().contains(places[i]) && b[places[i]] == out[i]);
                assert(waits(b, places[i], j));
                assert(b[places[i]][j] == out[i][j]);
            }
            assert forall|i: int| 0 <= i < out.len() implies all_stand(#[trigger] out[i], before.ops@) by {
                assert forall|j: int| 0 <= j < out[i].len() implies stands_for(
                    #[trigger] out[i][j],
                    before.ops@,
                ) by {}
            }
            assert(all_apart(out)) by {
                assert forall|a: int, b1: int, c: int, d1: int|
                    #![trigger out[a][b1], out[c][d1]]
                    0 <= a < out.len() && 0 <= b1 < out[a].len() && 0 <= c < out.len() && 0 <= d1
                        < out[c].len() && out[a][b1].0 == out[c][d1].0 implies a == c && b1 == d1 by {
                    assert(b[places[a]][b1].0 == b[places[c]][d1].0);
                    if a < c {
                        assert(places[a] != places[c]);
                    } else if c < a {
                        assert(places[c] != places[a]);
                    }
                }
            }
            assert forall|j: int| 0 <= j < demux.slots().len() implies (
            #[trigger] demux.slots()[j]) is Some || before.left_open@.union(
                flushed_set(out),
            ).contains(j) || pending(demux, j) by {
                assert(d.slots()[j] is Some || before.left_open@.union(Set::empty()).contains(j)
                    || pending(d, j));
            }
        }
        Closing { demux, flushes, left_open: before.left_open, ops: before.ops }
    }
}

/// One list for each target that anything waits for.
pub open spec fn by_place(flushes: Seq<Seq<Entry>>, buffers: Map<Place, Seq<Entry>>) -> bool {
    exists|places: Seq<Place>| #[trigger] lists_of(flushes, buffers, places)
}

/// The lists are what waits for these targets, which are all there are, each once.
pub open spec fn lists_of(
    flushes: Seq<Seq<Entry>>,
    buffers: Map<Place, Seq<Entry>>,
    places: Seq<Place>,
) -> bool {
    &&& places.len() == flushes.len()
    &&& forall|i: int, j: int|
        0 <= i < j < places.len() ==> #[trigger] places[i] != #[trigger] places[j]
    &&& forall|i: int|
        0 <= i < places.len() ==> buffers.dom().contains(#[trigger] places[i]) && buffers[places[i]]
            == flushes[i]
    &&& forall|p: Place| #[trigger]
        buffers.dom().contains(p) ==> exists|i: int| 0 <= i < places.len() && #[trigger] places[i] == p
}

/// The lists of entries.
pub open spec fn lists(flushes: Seq<Vec<Entry>>) -> Seq<Seq<Entry>> {
    flushes.map_values(|f: Vec<Entry>| f@)
}

/// The positions of the entries of several lists.
pub open spec fn flushed_set(flushes: Seq<Seq<Entry>>) -> Set<int> {
    Set::new(
        |k: int|
            exists|i: int, j: int|
                #![trigger flushes[i][j]]
                0 <= i < flushes.len() && 0 <= j < flushes[i].len() && flushes[i][j].0 == k,
    )
}

/// What came of one sub-batch: what the migration gate said of each of its operations, and what the
/// cluster answered for those that passed.
#[derive(Debug)]
pub struct Flushed {
    pub admits: Vec<bool>,
    pub result: Result<WriteAck, SinkError>,
}

/// The answers once every sub-batch is done.
pub open spec fn closed(
    slots: Seq<Option<Item>>,
    flushes: Seq<Seq<Entry>>,
    done: Seq<Flushed>,
) -> Seq<Option<Item>>
    decreases flushes.len(),
{
    if flushes.len() == 0 {
        slots
    } else {
        let n = flushes.len() - 1;
        settle(
            closed(slots, flushes.drop_last(), done),
            flushes[n],
            done[n].admits@,
            done[n].result,
        )
    }
}

/// Once every sub-batch is done, each of its operations has its own answer, and every other
/// slot is what it was.
proof fn lemma_closed(slots: Seq<Option<Item>>, flushes: Seq<Seq<Entry>>, done: Seq<Flushed>)
    requires
        done.len() >= flushes.len(),
        forall|i: int|
            0 <= i < flushes.len() ==> (#[trigger] done[i]).admits@.len() == flushes[i].len(),
        forall|i: int| 0 <= i < flushes.len() ==> in_range(#[trigger] flushes[i], slots.len() as int),
        all_apart(flushes),
        forall|i: int, j: int|
            #![trigger flushes[i][j]]
            0 <= i < flushes.len() && 0 <= j < flushes[i].len() ==> slots[flushes[i][j].0 as int] is None,
    ensures
        closed(slots, flushes, done).len() == slots.len(),
        forall|i: int, j: int|
            #![trigger flushes[i][j]]
            0 <= i < flushes.len() && 0 <= j < flushes[i].len() ==> closed(
                slots,
                flushes,
                done,
            )[flushes[i][j].0 as int] == entry_answer(
                flushes[i],
                done[i].admits@,
                done[i].result,
                j,
            ),
        forall|k: int|
            0 <= k < slots.len() && !flushed_set(flushes).contains(k) ==> #[trigger] closed(
                slots,
                flushes,
                done,
            )[k] == slots[k],
    decreases flushes.len(),
{
    if flushes.len() > 0 {
        let n = flushes.len() - 1;
        let init = flushes.drop_last();
        let here = flushes[n];
        assert forall|i: int| 0 <= i < init.len() implies in_range(
            #[trigger] init[i],
            slots.len() as int,
        ) by {
            assert(init[i] == flushes[i]);
        }
        assert forall|i: int| 0 <= i < init.len() implies (#[trigger] done[i]).admits@.len()
            == init[i].len() by {
            assert(init[i] == flushes[i]);
        }
        assert forall|a: int, b: int, c: int, d: int|
            #![trigger init[a][b], init[c][d]]
            0 <= a < init.len() && 0 <= b < init[a].len() && 0 <= c < init.len() && 0 <= d
                < init[c].len() && init[a][b].0 == init[c][d].0 implies a == c && b == d by {
            assert(flushes[a][b].0 == flushes[c][d].0);
        }
        assert forall|i: int, j: int|
            #![trigger init[i][j]]
            0 <= i < init.len() && 0 <= j < init[i].len() implies slots[init[i][j].0 as int] is None by {
            assert(init[i][j] == flushes[i][j]);
        }
        lemma_closed(slots, init, done);
        assert(apart(here)) by {
            assert forall|i: int, j: int| 0 <= i < j < here.len() implies (#[trigger] here[i]).0 != (
            #[trigger] here[j]).0 by {
                if flushes[n][i].0 == flushes[n][j].0 {
                    assert(i == j);
                }
            }
        }
        let before = closed(slots, init, done);
        assert(in_range(flushes[n], slots.len() as int));
        assert(done[n].admits@.len() == here.len());
        lemma_batch_in_place(before, here, done[n].admits@, done[n].result);
        let s = closed(slots, flushes, done);
        assert forall|i: int, j: int|
            #![trigger flushes[i][j]]
            0 <= i < flushes.len() && 0 <= j < flushes[i].len() implies s[flushes[i][j].0 as int]
            == entry_answer(flushes[i], done[i].admits@, done[i].result, j) by {
            let k = flushes[i][j].0 as int;
            assert(in_range(flushes[i], slots.len() as int));
            assert(k < slots.len());
            if i < n {
                assert(init[i][j] == flushes[i][j]);
                if ordinals(here).contains(k) {
                    let b = choose|b: int| 0 <= b < here.len() && (#[trigger] here[b]).0 == k;
                    assert(flushes[n][b].0 == flushes[i][j].0);
                }
                assert(s[k] == before[k]);
            } else {
                assert(here[j] == flushes[i][j]);
                if flushed_set(init).contains(k) {
                    let (a, b) = choose|a: int, b: int|
                        #![trigger init[a][b]]
                        0 <= a < init.len() && 0 <= b < init[a].len() && init[a][b].0 == k;
                    assert(flushes[a][b].0 == flushes[i][j].0);
                }
                assert(before[k] == slots[k]);
            }
        }
        assert forall|k: int|
            0 <= k < slots.len() && !flushed_set(flushes).contains(k) implies #[trigger] s[k]
            == slots[k] by {
            if ordinals(here).contains(k) {
                let b = choose|b: int| 0 <= b < here.len() && (#[trigger] here[b]).0 == k;
                assert(flushes[n][b].0 == k);
            }
            if flushed_set(init).contains(k) {
                let (a, b) = choose|a: int, b: int|
                    #![trigger init[a][b]]
                    0 <= a < init.len() && 0 <= b < init[a].len() && init[a][b].0 == k;
                assert(flushes[a][b].0 == k);
            }
            assert(s[k] == before[k]);
            assert(before[k] == slots[k]);
        }
    }
}

/// The operations that the clusters left unanswered.
pub open spec fn all_unanswered(flushes: Seq<Seq<Entry>>, done: Seq<Flushed>) -> Set<int>
    decreases flushes.len(),
{
    if flushes.len() == 0 {
        Set::empty()
    } else {
        let n = flushes.len() - 1;
        all_unanswered(flushes.drop_last(), done).union(
            unanswered(picked(flushes[n], done[n].admits@, true), done[n].result),
        )
    }
}

/// The failure of a cluster that is not to be asked again. It stands in the place of a
/// result that has been taken out.
fn lost() -> (r: SinkError)
    ensures
        r == (SinkError { code: ErrorCode::UpstreamFailed, retryable: false }),
{
    SinkError { code: ErrorCode::UpstreamFailed, retryable: false }
}

impl Closing {
    /// The answers so far.
    pub closed spec fn slots(self) -> Seq<Option<Item>> {
        self.demux.slots()
    }

    /// The sub-batches to send.
    pub closed spec fn flushes(self) -> Seq<Seq<Entry>> {
        lists(self.flushes@)
    }

    /// The operations that a cluster was sent and did not answer.
    pub closed spec fn left_open(self) -> Set<int> {
        self.left_open@
    }

    /// What each operation asks, in the order of the request.
    pub closed spec fn ops(self) -> Seq<Asked> {
        self.ops@
    }

    #[verifier::type_invariant]
    spec fn well_formed(self) -> bool {
        &&& in_place(self.demux.slots(), self.ops@)
        &&& all_apart(lists(self.flushes@))
        &&& forall|i: int|
            0 <= i < lists(self.flushes@).len() ==> all_stand(
                #[trigger] lists(self.flushes@)[i],
                self.ops@,
            )
        &&& forall|i: int, j: int|
            #![trigger lists(self.flushes@)[i][j]]
            0 <= i < lists(self.flushes@).len() && 0 <= j < lists(self.flushes@)[i].len()
                ==> self.demux.slots()[lists(self.flushes@)[i][j].0 as int] is None
        &&& settled(self.demux, self.left_open@.union(flushed_set(lists(self.flushes@))))
        &&& self.demux.buffers() == Map::<Place, Seq<Entry>>::empty()
        &&& forall|i: int|
            0 <= i < self.flushes@.len() ==> in_range(
                #[trigger] lists(self.flushes@)[i],
                self.demux.slots().len() as int,
            ) && exists|p: Place| all_for(lists(self.flushes@)[i], p)
    }

    /// The sub-batches to send. The migration gate is to be asked about each operation.
    pub fn sub_batches(&self) -> (r: &Vec<Vec<Entry>>)
        ensures
            lists(r@) == self.flushes(),
    {
        &self.flushes
    }

    /// The batch to send for the `i`-th sub-batch: the operations that passed the migration gate.
    pub fn batch(&self, i: usize, admits: &[bool]) -> (r: Vec<WriteOp>)
        requires
            i < self.flushes().len(),
            admits@.len() == self.flushes()[i as int].len(),
        ensures
            is_batch_of(r@, picked(self.flushes()[i as int], admits@, true)),
            single_target(r@),
    {
        proof {
            use_type_invariant(self);
        }
        let entries = &self.flushes[i];
        let mut batch: Vec<WriteOp> = Vec::new();
        let mut j: usize = 0;
        assert(entries@ == self.flushes()[i as int]);
        while j < entries.len()
            invariant
                0 <= j <= entries@.len(),
                admits@.len() == entries@.len(),
                is_batch_of(batch@, picked(entries@.take(j as int), admits@, true)),
            decreases entries@.len() - j,
        {
            proof {
                assert(entries@.take(j + 1).drop_last() =~= entries@.take(j as int));
                assert(entries@.take(j + 1).last() == entries@[j as int]);
            }
            if admits[j] {
                batch.push(clone_op(&entries[j].1.op));
            }
            j += 1;
        }
        proof {
            assert(entries@.take(j as int) =~= entries@);
            let p = choose|p: Place| all_for(lists(self.flushes@)[i as int], p);
            lemma_picked_for(entries@, admits@, true, p);
        }
        batch
    }

    /// The answer to the request, once every sub-batch is done. The order in which they
    /// were done does not matter: `done[i]` is what came of the `i`-th.
    pub fn response(self, done: Vec<Flushed>) -> (r: PipelineResponse)
        requires
            done@.len() == self.flushes().len(),
            forall|i: int|
                0 <= i < done@.len() ==> (#[trigger] done@[i]).admits@.len()
                    == self.flushes()[i].len(),
        ensures
            r.is_json(200, response_text(closed(self.slots(), self.flushes(), done@))),
            forall|k: int|
                0 <= k < self.slots().len() && !self.left_open().contains(k) && !all_unanswered(
                    self.flushes(),
                    done@,
                ).contains(k) ==> (#[trigger] closed(self.slots(), self.flushes(), done@)[k]) is Some,
            in_place(closed(self.slots(), self.flushes(), done@), self.ops()),
            forall|i: int, j: int|
                #![trigger self.flushes()[i][j]]
                0 <= i < self.flushes().len() && 0 <= j < self.flushes()[i].len() ==> closed(
                    self.slots(),
                    self.flushes(),
                    done@,
                )[self.flushes()[i][j].0 as int] == entry_answer(
                    self.flushes()[i],
                    done@[i].admits@,
                    done@[i].result,
                    j,
                ),
            forall|k: int|
                0 <= k < self.slots().len() && !flushed_set(self.flushes()).contains(k)
                    ==> #[trigger] closed(self.slots(), self.flushes(), done@)[k] == self.slots()[k],
    {
        proof {
            use_type_invariant(&self);
        }
        let ghost start = self.demux;
        let ghost all = lists(self.flushes@);
        let ghost outcomes = done@;
        let ghost left = self.left_open@;
        let ghost n = start.slots().len() as int;
        let flushes = self.flushes;
        let mut demux = self.demux;
        let mut i: usize = 0;
        let mut rest = flushes;
        let mut results = done;
        proof {
            assert(all.take(0) =~= Seq::empty());
            assert(all.skip(0) =~= all);
            lemma_closed(start.slots(), all, outcomes);
            let end = closed(start.slots(), all, outcomes);
            assert forall|k: int| 0 <= k < end.len() implies ((
            #[trigger] end[k]) matches Some(x) ==> echoes(x, self.ops@[k])) by {
                if flushed_set(all).contains(k) {
                    let (a, b) = choose|a: int, b: int|
                        #![trigger all[a][b]]
                        0 <= a < all.len() && 0 <= b < all[a].len() && all[a][b].0 == k;
                    assert(all_stand(all[a], self.ops@));
                    assert(stands_for(all[a][b], self.ops@));
                } else {
                    assert(end[k] == start.slots()[k]);
                }
            }
        }
        while i < rest.len()
            invariant
                all.len() == outcomes.len(),
                rest@.len() == all.len(),
                results@.len() == all.len(),
                0 <= i <= all.len(),
                n == start.slots().len(),
                forall|k: int| i <= k < all.len() ==> (#[trigger] rest@[k])@ == all[k],
                forall|k: int| i <= k < all.len() ==> #[trigger] results@[k] == outcomes[k],
                forall|k: int|
                    0 <= k < all.len() ==> (#[trigger] outcomes[k]).admits@.len() == all[k].len(),
                forall|k: int| 0 <= k < all.len() ==> in_range(#[trigger] all[k], n),
                demux.buffers() == Map::<Place, Seq<Entry>>::empty(),
                demux.slots().len() == n,
                demux.slots() == closed(start.slots(), all.take(i as int), outcomes),
                settled(
                    demux,
                    left.union(flushed_set(all.skip(i as int))).union(
                        all_unanswered(all.take(i as int), outcomes),
                    ),
                ),
            decreases all.len() - i,
        {
            let ghost before = demux;
            let mut entries: Vec<Entry> = Vec::new();
            std::mem::swap(&mut entries, &mut rest[i]);
            let mut outcome = Flushed { admits: Vec::new(), result: Err(lost()) };
            std::mem::swap(&mut outcome, &mut results[i]);
            let ghost here = all[i as int];
            proof {
                assert(entries@ == here);
                assert(outcome == outcomes[i as int]);
                lemma_split(here, outcome.admits@, n);
            }
            let (admitted, rejected) = gate(entries, outcome.admits.as_slice());
            let held = demux.apply_rejected(rejected.as_slice());
            proof {
                lemma_held_back(rejected@, n);
                lemma_writes(
                    before,
                    held,
                    left.union(flushed_set(all.skip(i as int))).union(
                        all_unanswered(all.take(i as int), outcomes),
                    ),
                    held_back(rejected@),
                );
            }
            let ghost result = outcome.result;
            demux = held.apply_results(admitted.as_slice(), outcome.result);
            proof {
                lemma_answers(admitted@, result, n);
                let open = left.union(flushed_set(all.skip(i as int))).union(
                    all_unanswered(all.take(i as int), outcomes),
                );
                let open2 = open.difference(written_to(held_back(rejected@)));
                lemma_writes(held, demux, open2, answers(admitted@, result));
                assert(all.take(i + 1).drop_last() =~= all.take(i as int));
                assert(all.take(i + 1)[i as int] == here);
                assert forall|k: int|
                    open2.difference(written_to(answers(admitted@, result))).contains(
                        k,
                    ) implies left.union(flushed_set(all.skip(i + 1))).union(
                    all_unanswered(all.take(i + 1), outcomes),
                ).contains(k) by {
                    if flushed_set(all.skip(i as int)).contains(k) && !left.contains(k) {
                        let s = all.skip(i as int);
                        let (a, b) = choose|a: int, b: int|
                            #![trigger s[a][b]]
                            0 <= a < s.len() && 0 <= b < s[a].len() && s[a][b].0 == k;
                        if a > 0 {
                            let t = all.skip(i + 1);
                            assert(t[a - 1] == s[a]);
                            assert(t[a - 1][b].0 == k);
                        } else {
                            assert(here[b].0 == k);
                            assert(ordinals(here).contains(k));
                        }
                    }
                }
                lemma_weaken(
                    demux,
                    open2.difference(written_to(answers(admitted@, result))),
                    left.union(flushed_set(all.skip(i + 1))).union(
                        all_unanswered(all.take(i + 1), outcomes),
                    ),
                );
            }
            i += 1;
        }
        proof {
            assert(all.take(i as int) =~= all);
            assert forall|k: int|
                0 <= k < n && !left.contains(k) && !all_unanswered(all, outcomes).contains(
                    k,
                ) implies (#[trigger] closed(start.slots(), all, outcomes)[k]) is Some by {
                assert(demux.slots()[k] is Some || left.union(
                    flushed_set(all.skip(i as int)),
                ).union(all_unanswered(all.take(i as int), outcomes)).contains(k) || pending(
                    demux,
                    k,
                ));
            }
        }
        demux.response()
    }
}

} // verus!
