//! The order of a bulk response: each answer stands in the place of its operation and
//! echoes it. What waits and what is under way is for operations that have no answer yet,
//! each once.

use crate::bulk::{
    answers, held_back, in_range, item, law_answers_stay_in_place, lemma_picked, outcome, picked, queue_of,
    set_lines, Entry, Place,
};
use crate::bulkline::{BulkAction, Item, Report};
use crate::bulkprep::{BulkItem, Prepared};
use crate::error::SinkError;
use crate::types::{opt, WriteAck};
use vstd::prelude::*;

verus! {

/// What an answer echoes of its operation.
pub ghost struct Asked {
    pub action: BulkAction,
    pub index: Seq<char>,
    /// The id that the operation names, if it names one.
    pub id: Option<Seq<char>>,
}

/// What is asked by an operation on `index`.
pub open spec fn asked(item: BulkItem, index: Seq<char>) -> Asked {
    Asked { action: item.action, index, id: opt(item.id) }
}

/// An answer echoes the operation: its verb, its index, and its id where it names one.
pub open spec fn echoes(x: Item, op: Asked) -> bool {
    &&& x.action == op.action
    &&& x.index == op.index
    &&& op.id is Some ==> x.id == op.id
}

/// One slot per operation, and every answer echoes the operation in its place.
pub open spec fn in_place(slots: Seq<Option<Item>>, ops: Seq<Asked>) -> bool {
    &&& slots.len() == ops.len()
    &&& forall|k: int|
        0 <= k < slots.len() ==> ((#[trigger] slots[k]) matches Some(x) ==> echoes(x, ops[k]))
}

/// A prepared operation is the one at its position.
pub open spec fn stands_for(e: Entry, ops: Seq<Asked>) -> bool {
    &&& e.0 < ops.len()
    &&& e.1.action == ops[e.0 as int].action
    &&& e.1.logical_index@ == ops[e.0 as int].index
    &&& ops[e.0 as int].id is Some ==> ops[e.0 as int].id == Some(e.1.logical_id@)
}

/// Every entry is the operation at its position.
pub open spec fn all_stand(entries: Seq<Entry>, ops: Seq<Asked>) -> bool {
    forall|i: int| 0 <= i < entries.len() ==> stands_for(#[trigger] entries[i], ops)
}

/// No two entries are for the same operation.
pub open spec fn apart(entries: Seq<Entry>) -> bool {
    forall|i: int, j: int|
        0 <= i < j < entries.len() ==> (#[trigger] entries[i]).0 != (#[trigger] entries[j]).0
}

/// No two entries of several lists are for the same operation.
pub open spec fn all_apart(lists: Seq<Seq<Entry>>) -> bool {
    forall|a: int, b: int, c: int, d: int|
        #![trigger lists[a][b], lists[c][d]]
        0 <= a < lists.len() && 0 <= b < lists[a].len() && 0 <= c < lists.len() && 0 <= d
            < lists[c].len() && lists[a][b].0 == lists[c][d].0 ==> a == c && b == d
}

/// There is an `i`-th entry that waits for `p`.
pub open spec fn waits(buffers: Map<Place, Seq<Entry>>, p: Place, i: int) -> bool {
    buffers.dom().contains(p) && 0 <= i < buffers[p].len()
}

/// The state of a bulk request is in order: the answers are in their places; what waits is
/// for operations without an answer, each once; and so are the open ones, which do not wait.
pub open spec fn orderly(
    slots: Seq<Option<Item>>,
    buffers: Map<Place, Seq<Entry>>,
    ops: Seq<Asked>,
    open: Set<int>,
) -> bool {
    &&& in_place(slots, ops)
    &&& forall|p: Place, i: int|
        #![trigger buffers[p][i]]
        waits(buffers, p, i) ==> stands_for(buffers[p][i], ops) && slots[buffers[p][i].0 as int] is None
            && !open.contains(buffers[p][i].0 as int)
    &&& forall|p: Place, i: int, q: Place, j: int|
        #![trigger buffers[p][i], buffers[q][j]]
        waits(buffers, p, i) && waits(buffers, q, j) && buffers[p][i].0 == buffers[q][j].0 ==> p == q && i
            == j
    &&& forall|k: int| #[trigger]
        open.contains(k) ==> 0 <= k < slots.len() && slots[k] is None
}

/// The answer that a cluster gave to the `m`-th operation it was sent; `None` where it gave
/// none.
pub open spec fn sent_answer(p: Prepared, result: Result<WriteAck, SinkError>, m: int) -> Option<Item> {
    match result {
        Ok(ack) => if m < ack.results@.len() {
            Some(outcome(p, ack.results@[m]))
        } else {
            None
        },
        Err(_) => Some(item(p, 502, Report::Error("upstream_failed"@))),
    }
}

/// How many of the entries before the `j`-th have this flag.
pub open spec fn rank(entries: Seq<Entry>, flags: Seq<bool>, want: bool, j: int) -> int {
    picked(entries.take(j), flags, want).len() as int
}

/// The answer of the `j`-th entry of a sub-batch: it was held back by the migration gate, or it was
/// sent after those before it that were admitted.
pub open spec fn entry_answer(
    entries: Seq<Entry>,
    admits: Seq<bool>,
    result: Result<WriteAck, SinkError>,
    j: int,
) -> Option<Item> {
    if admits[j] {
        sent_answer(entries[j].1, result, rank(entries, admits, true, j))
    } else {
        Some(item(entries[j].1, 409, Report::Error("stale_epoch"@)))
    }
}

/// An entry stands among those picked, at its rank.
pub proof fn lemma_rank(entries: Seq<Entry>, flags: Seq<bool>, want: bool, j: int)
    requires
        flags.len() >= entries.len(),
        0 <= j < entries.len(),
        flags[j] == want,
    ensures
        0 <= rank(entries, flags, want, j) < picked(entries, flags, want).len(),
        picked(entries, flags, want)[rank(entries, flags, want, j)] == entries[j],
    decreases entries.len(),
{
    let init = entries.drop_last();
    let last = entries.len() - 1;
    if j < last {
        lemma_rank(init, flags, want, j);
        assert(init.take(j) =~= entries.take(j));
    } else {
        assert(entries.take(j) =~= init);
    }
}

/// What is picked from entries for different operations is for different operations, and
/// so is what is left.
pub proof fn lemma_picked_apart(entries: Seq<Entry>, flags: Seq<bool>)
    requires
        flags.len() >= entries.len(),
        apart(entries),
    ensures
        apart(picked(entries, flags, true)),
        apart(picked(entries, flags, false)),
        forall|a: int, b: int|
            0 <= a < picked(entries, flags, true).len() && 0 <= b < picked(entries, flags, false).len()
                ==> (#[trigger] picked(entries, flags, true)[a]).0 != (#[trigger] picked(
                entries,
                flags,
                false,
            )[b]).0,
    decreases entries.len(),
{
    let yes = picked(entries, flags, true);
    let no = picked(entries, flags, false);
    if entries.len() > 0 {
        let init = entries.drop_last();
        let last = entries.len() - 1;
        assert(apart(init)) by {
            assert forall|i: int, j: int| 0 <= i < j < init.len() implies (#[trigger] init[i]).0 != (
            #[trigger] init[j]).0 by {
                assert(entries[i].0 != entries[j].0);
            }
        }
        lemma_picked_apart(init, flags);
        lemma_picked(init, flags);
        assert forall|k: int, want: bool| 0 <= k < picked(init, flags, want).len() implies (
        #[trigger] picked(init, flags, want)[k]).0 != entries[last].0 by {
            let e = picked(init, flags, want)[k];
            let i = choose|i: int| 0 <= i < init.len() && #[trigger] flags[i] == want && init[i] == e;
            assert(entries[i] == e);
            assert(entries[i].0 != entries[last].0);
        }
        let yes0 = picked(init, flags, true);
        let no0 = picked(init, flags, false);
        assert forall|i: int, j: int| 0 <= i < j < yes.len() implies (#[trigger] yes[i]).0 != (
        #[trigger] yes[j]).0 by {
            assert(yes[i] == yes0[i]);
            if j < yes0.len() {
                assert(yes[j] == yes0[j]);
            }
        }
        assert forall|i: int, j: int| 0 <= i < j < no.len() implies (#[trigger] no[i]).0 != (
        #[trigger] no[j]).0 by {
            assert(no[i] == no0[i]);
            if j < no0.len() {
                assert(no[j] == no0[j]);
            }
        }
        assert forall|a: int, b: int| 0 <= a < yes.len() && 0 <= b < no.len() implies (
        #[trigger] yes[a]).0 != (#[trigger] no[b]).0 by {
            if a < yes0.len() {
                assert(yes[a] == yes0[a]);
            }
            if b < no0.len() {
                assert(no[b] == no0[b]);
            }
        }
    }
}

/// What is picked was there.
pub proof fn lemma_picked_stand(entries: Seq<Entry>, flags: Seq<bool>, want: bool, ops: Seq<Asked>)
    requires
        flags.len() >= entries.len(),
        all_stand(entries, ops),
    ensures
        all_stand(picked(entries, flags, want), ops),
{
    lemma_picked(entries, flags);
    let out = picked(entries, flags, want);
    assert forall|k: int| 0 <= k < out.len() implies stands_for(#[trigger] out[k], ops) by {
        let i = choose|i: int| 0 <= i < entries.len() && #[trigger] flags[i] == want && entries[i]
            == out[k];
        assert(stands_for(entries[i], ops));
    }
}

/// The positions of entries.
pub open spec fn ordinals(entries: Seq<Entry>) -> Set<int> {
    Set::new(|k: int| exists|i: int| 0 <= i < entries.len() && (#[trigger] entries[i]).0 == k)
}

/// What the migration gate holds back is answered in its place, and nothing else is touched.
pub proof fn lemma_held_in_place(slots: Seq<Option<Item>>, rejected: Seq<Entry>)
    requires
        in_range(rejected, slots.len() as int),
        apart(rejected),
    ensures
        ({
            let s = set_lines(slots, held_back(rejected));
            &&& s.len() == slots.len()
            &&& forall|i: int|
                0 <= i < rejected.len() ==> s[(#[trigger] rejected[i]).0 as int] == Some(
                    item(rejected[i].1, 409, Report::Error("stale_epoch"@)),
                )
            &&& forall|k: int|
                0 <= k < slots.len() && !ordinals(rejected).contains(k) ==> #[trigger] s[k] == slots[k]
        }),
{
    let w = held_back(rejected);
    assert forall|i: int| 0 <= i < w.len() implies (#[trigger] w[i]).0 < slots.len() by {
        assert(rejected[i].0 < slots.len());
    }
    assert forall|i: int, j: int| 0 <= i < j < w.len() implies #[trigger] w[i].0 != #[trigger] w[j].0 by {
        assert(rejected[i].0 != rejected[j].0);
    }
    law_answers_stay_in_place(slots, w);
    let s = set_lines(slots, w);
    assert forall|i: int| 0 <= i < rejected.len() implies s[(#[trigger] rejected[i]).0 as int] == Some(
        item(rejected[i].1, 409, Report::Error("stale_epoch"@)),
    ) by {
        assert(s[w[i].0 as int] == Some(w[i].1));
    }
    assert forall|k: int|
        0 <= k < slots.len() && !ordinals(rejected).contains(k) implies #[trigger] s[k] == slots[k] by {
        assert forall|i: int| 0 <= i < w.len() implies w[i].0 != k by {
            assert(rejected[i].0 == w[i].0);
        }
    }
}

/// What a cluster answered stands in its place, and nothing else is touched.
pub proof fn lemma_sent_in_place(
    slots: Seq<Option<Item>>,
    admitted: Seq<Entry>,
    result: Result<WriteAck, SinkError>,
)
    requires
        in_range(admitted, slots.len() as int),
        apart(admitted),
    ensures
        ({
            let s = set_lines(slots, answers(admitted, result));
            &&& s.len() == slots.len()
            &&& forall|i: int|
                0 <= i < admitted.len() ==> s[(#[trigger] admitted[i]).0 as int] == match sent_answer(
                    admitted[i].1,
                    result,
                    i,
                ) {
                    Some(x) => Some(x),
                    None => slots[admitted[i].0 as int],
                }
            &&& forall|k: int|
                0 <= k < slots.len() && !ordinals(admitted).contains(k) ==> #[trigger] s[k] == slots[k]
        }),
{
    let w = answers(admitted, result);
    assert forall|i: int| 0 <= i < w.len() implies (#[trigger] w[i]).0 < slots.len() by {
        assert(admitted[i].0 < slots.len());
    }
    assert forall|i: int, j: int| 0 <= i < j < w.len() implies #[trigger] w[i].0 != #[trigger] w[j].0 by {
        assert(admitted[i].0 != admitted[j].0);
    }
    law_answers_stay_in_place(slots, w);
    let s = set_lines(slots, w);
    assert forall|i: int| 0 <= i < admitted.len() implies s[(#[trigger] admitted[i]).0 as int]
        == match sent_answer(admitted[i].1, result, i) {
        Some(x) => Some(x),
        None => slots[admitted[i].0 as int],
    } by {
        assert(admitted[i].0 < slots.len());
        if i < w.len() {
            assert(s[w[i].0 as int] == Some(w[i].1));
        } else {
            let k = admitted[i].0 as int;
            assert forall|j: int| 0 <= j < w.len() implies w[j].0 != k by {
                assert(admitted[j].0 != admitted[i].0);
            }
            assert(s[k] == slots[k]);
        }
    }
    assert forall|k: int|
        0 <= k < slots.len() && !ordinals(admitted).contains(k) implies #[trigger] s[k] == slots[k] by {
        assert forall|i: int| 0 <= i < w.len() implies w[i].0 != k by {
            assert(admitted[i].0 == w[i].0);
        }
    }
}

/// The answers once a sub-batch is done.
pub open spec fn settle(
    slots: Seq<Option<Item>>,
    entries: Seq<Entry>,
    admits: Seq<bool>,
    result: Result<WriteAck, SinkError>,
) -> Seq<Option<Item>> {
    set_lines(
        set_lines(slots, held_back(picked(entries, admits, false))),
        answers(picked(entries, admits, true), result),
    )
}

/// A sub-batch that is done has each of its answers in its place, and nothing else is
/// touched.
pub proof fn lemma_batch_in_place(
    slots: Seq<Option<Item>>,
    entries: Seq<Entry>,
    admits: Seq<bool>,
    result: Result<WriteAck, SinkError>,
)
    requires
        admits.len() == entries.len(),
        in_range(entries, slots.len() as int),
        apart(entries),
    ensures
        ({
            let s = settle(slots, entries, admits, result);
            &&& s.len() == slots.len()
            &&& forall|j: int|
                0 <= j < entries.len() ==> s[(#[trigger] entries[j]).0 as int] == match entry_answer(
                    entries,
                    admits,
                    result,
                    j,
                ) {
                    Some(x) => Some(x),
                    None => slots[entries[j].0 as int],
                }
            &&& forall|k: int|
                0 <= k < slots.len() && !ordinals(entries).contains(k) ==> #[trigger] s[k] == slots[k]
        }),
{
    let yes = picked(entries, admits, true);
    let no = picked(entries, admits, false);
    lemma_picked_apart(entries, admits);
    lemma_picked(entries, admits);
    lemma_picked_within(entries, admits, true, slots.len() as int);
    lemma_picked_within(entries, admits, false, slots.len() as int);
    lemma_held_in_place(slots, no);
    let mid = set_lines(slots, held_back(no));
    lemma_sent_in_place(mid, yes, result);
    let s = settle(slots, entries, admits, result);
    assert forall|j: int| 0 <= j < entries.len() implies s[(#[trigger] entries[j]).0 as int]
        == match entry_answer(entries, admits, result, j) {
        Some(x) => Some(x),
        None => slots[entries[j].0 as int],
    } by {
        let k = entries[j].0 as int;
        assert(entries[j].0 < slots.len());
        lemma_rank(entries, admits, admits[j], j);
        let m = rank(entries, admits, admits[j], j);
        if admits[j] {
            assert(yes[m] == entries[j]);
            if ordinals(no).contains(k) {
                let b = choose|b: int| 0 <= b < no.len() && (#[trigger] no[b]).0 == k;
                assert(yes[m].0 != no[b].0);
            }
            assert(mid[k] == slots[k]);
        } else {
            assert(no[m] == entries[j]);
            if ordinals(yes).contains(k) {
                let a = choose|a: int| 0 <= a < yes.len() && (#[trigger] yes[a]).0 == k;
                assert(yes[a].0 != no[m].0);
            }
            assert(s[k] == mid[k]);
        }
    }
    assert forall|k: int|
        0 <= k < slots.len() && !ordinals(entries).contains(k) implies #[trigger] s[k] == slots[k] by {
        if ordinals(yes).contains(k) {
            let a = choose|a: int| 0 <= a < yes.len() && (#[trigger] yes[a]).0 == k;
            let i = choose|i: int| 0 <= i < entries.len() && #[trigger] admits[i] == true && entries[i]
                == yes[a];
            assert(entries[i].0 == k);
        }
        if ordinals(no).contains(k) {
            let a = choose|a: int| 0 <= a < no.len() && (#[trigger] no[a]).0 == k;
            let i = choose|i: int| 0 <= i < entries.len() && #[trigger] admits[i] == false && entries[i]
                == no[a];
            assert(entries[i].0 == k);
        }
        assert(mid[k] == slots[k]);
    }
}

/// What is picked is in range.
proof fn lemma_picked_within(entries: Seq<Entry>, flags: Seq<bool>, want: bool, slots: int)
    requires
        flags.len() >= entries.len(),
        in_range(entries, slots),
    ensures
        in_range(picked(entries, flags, want), slots),
{
    lemma_picked(entries, flags);
    let out = picked(entries, flags, want);
    assert forall|k: int| 0 <= k < out.len() implies (#[trigger] out[k]).0 < slots by {
        let i = choose|i: int| 0 <= i < entries.len() && #[trigger] flags[i] == want && entries[i]
            == out[k];
        assert(entries[i].0 < slots);
    }
}

/// Sub-batches may be done in either order: the answers are the same.
pub proof fn law_sub_batches_may_finish_in_any_order(
    slots: Seq<Option<Item>>,
    a: Seq<Entry>,
    a_admits: Seq<bool>,
    a_result: Result<WriteAck, SinkError>,
    b: Seq<Entry>,
    b_admits: Seq<bool>,
    b_result: Result<WriteAck, SinkError>,
)
    requires
        a_admits.len() == a.len(),
        b_admits.len() == b.len(),
        in_range(a, slots.len() as int),
        in_range(b, slots.len() as int),
        all_apart(seq![a, b]),
    ensures
        settle(settle(slots, a, a_admits, a_result), b, b_admits, b_result) == settle(
            settle(slots, b, b_admits, b_result),
            a,
            a_admits,
            a_result,
        ),
{
    let both = seq![a, b];
    assert(both[0] == a && both[1] == b);
    assert forall|i: int, j: int| 0 <= i < j < a.len() implies (#[trigger] a[i]).0 != (
    #[trigger] a[j]).0 by {
        assert(both[0][i].0 != both[0][j].0);
    }
    assert forall|i: int, j: int| 0 <= i < j < b.len() implies (#[trigger] b[i]).0 != (
    #[trigger] b[j]).0 by {
        assert(both[1][i].0 != both[1][j].0);
    }
    assert forall|k: int| !(#[trigger] ordinals(a).contains(k) && ordinals(b).contains(k)) by {
        if ordinals(a).contains(k) && ordinals(b).contains(k) {
            let i = choose|i: int| 0 <= i < a.len() && (#[trigger] a[i]).0 == k;
            let j = choose|j: int| 0 <= j < b.len() && (#[trigger] b[j]).0 == k;
            assert(both[0][i].0 != both[1][j].0);
        }
    }
    let sa = settle(slots, a, a_admits, a_result);
    let sb = settle(slots, b, b_admits, b_result);
    lemma_batch_in_place(slots, a, a_admits, a_result);
    lemma_batch_in_place(slots, b, b_admits, b_result);
    lemma_batch_in_place(sa, b, b_admits, b_result);
    lemma_batch_in_place(sb, a, a_admits, a_result);
    let ab = settle(sa, b, b_admits, b_result);
    let ba = settle(sb, a, a_admits, a_result);
    assert forall|k: int| 0 <= k < slots.len() implies ab[k] == ba[k] by {
        if ordinals(a).contains(k) {
            let i = choose|i: int| 0 <= i < a.len() && (#[trigger] a[i]).0 == k;
            assert(!ordinals(b).contains(k));
            assert(ab[k] == sa[k]);
            assert(sb[k] == slots[k]);
            assert(ba[a[i].0 as int] == sa[a[i].0 as int]);
        } else if ordinals(b).contains(k) {
            let j = choose|j: int| 0 <= j < b.len() && (#[trigger] b[j]).0 == k;
            assert(ba[k] == sb[k]);
            assert(sa[k] == slots[k]);
            assert(ab[b[j].0 as int] == sb[b[j].0 as int]);
        } else {
            assert(ab[k] == sa[k] && sa[k] == slots[k]);
            assert(ba[k] == sb[k] && sb[k] == slots[k]);
        }
    }
    assert(ab =~= ba);
}

/// A new operation is open.
pub proof fn lemma_orderly_push(
    slots: Seq<Option<Item>>,
    buffers: Map<Place, Seq<Entry>>,
    ops: Seq<Asked>,
    op: Asked,
)
    requires
        orderly(slots, buffers, ops, Set::empty()),
    ensures
        orderly(slots.push(None), buffers, ops.push(op), Set::empty().insert(slots.len() as int)),
{
    let s = slots.push(None);
    let o = ops.push(op);
    assert forall|k: int| 0 <= k < s.len() implies ((#[trigger] s[k]) matches Some(x) ==> echoes(
        x,
        o[k],
    )) by {
        if k < slots.len() {
            assert(s[k] == slots[k]);
            assert(o[k] == ops[k]);
        }
    }
    assert forall|p: Place, i: int| #![trigger buffers[p][i]] waits(buffers, p, i) implies stands_for(
        buffers[p][i],
        o,
    ) && s[buffers[p][i].0 as int] is None && !Set::<int>::empty().insert(
        slots.len() as int,
    ).contains(buffers[p][i].0 as int) by {
        let k = buffers[p][i].0 as int;
        assert(stands_for(buffers[p][i], ops));
        assert(o[k] == ops[k]);
        assert(s[k] == slots[k]);
    }
}

/// The open operation is answered.
pub proof fn lemma_orderly_set(
    slots: Seq<Option<Item>>,
    buffers: Map<Place, Seq<Entry>>,
    ops: Seq<Asked>,
    k: int,
    x: Item,
)
    requires
        orderly(slots, buffers, ops, Set::empty().insert(k)),
        echoes(x, ops[k]),
    ensures
        orderly(slots.update(k, Some(x)), buffers, ops, Set::empty()),
{
    let open = Set::<int>::empty().insert(k);
    assert(open.contains(k));
    let s = slots.update(k, Some(x));
    assert forall|j: int| 0 <= j < s.len() implies ((#[trigger] s[j]) matches Some(y) ==> echoes(
        y,
        ops[j],
    )) by {
        if j != k {
            assert(s[j] == slots[j]);
        }
    }
    assert forall|p: Place, i: int| #![trigger buffers[p][i]] waits(buffers, p, i) implies stands_for(
        buffers[p][i],
        ops,
    ) && s[buffers[p][i].0 as int] is None by {
        assert(!open.contains(buffers[p][i].0 as int));
    }
}

/// The open operation, with what waits for its target: all are in order, and the others
/// still are without them.
pub proof fn lemma_orderly_join(
    slots: Seq<Option<Item>>,
    buffers: Map<Place, Seq<Entry>>,
    ops: Seq<Asked>,
    e: Entry,
    at: Place,
)
    requires
        orderly(slots, buffers, ops, Set::empty().insert(e.0 as int)),
        stands_for(e, ops),
    ensures
        apart(queue_of(buffers, at).push(e)),
        all_stand(queue_of(buffers, at).push(e), ops),
        orderly(slots, buffers.remove(at), ops, ordinals(queue_of(buffers, at).push(e))),
        orderly(
            slots,
            buffers.insert(at, queue_of(buffers, at).push(e)),
            ops,
            Set::empty(),
        ),
{
    let open = Set::<int>::empty().insert(e.0 as int);
    let before = queue_of(buffers, at);
    let grown = before.push(e);
    let n = before.len() as int;
    assert(open.contains(e.0 as int));
    assert forall|i: int| 0 <= i < n implies waits(buffers, at, i) && (#[trigger] grown[i])
        == buffers[at][i] && grown[i].0 != e.0 && stands_for(grown[i], ops) && slots[grown[i].0 as int] is None by {
        assert(waits(buffers, at, i));
        assert(grown[i] == buffers[at][i]);
        assert(!open.contains(buffers[at][i].0 as int));
    }
    assert forall|i: int| 0 <= i < grown.len() implies stands_for(#[trigger] grown[i], ops) by {
        if i == n {
            assert(grown[i] == e);
        }
    }
    assert forall|i: int, j: int| 0 <= i < j < grown.len() implies (#[trigger] grown[i]).0 != (
    #[trigger] grown[j]).0 by {
        if j < n {
            assert(grown[i] == buffers[at][i]);
            assert(grown[j] == buffers[at][j]);
            if buffers[at][i].0 == buffers[at][j].0 {
                assert(i == j);
            }
        } else {
            assert(grown[j] == e);
        }
    }
    let cut = buffers.remove(at);
    let out = ordinals(grown);
    assert(orderly(slots, cut, ops, out)) by {
        assert forall|p: Place, i: int| #![trigger cut[p][i]] waits(cut, p, i) implies stands_for(
            cut[p][i],
            ops,
        ) && slots[cut[p][i].0 as int] is None && !out.contains(cut[p][i].0 as int) by {
            assert(waits(buffers, p, i));
            assert(cut[p][i] == buffers[p][i]);
            assert(!open.contains(buffers[p][i].0 as int));
            let k = cut[p][i].0 as int;
            if out.contains(k) {
                let j = choose|j: int| 0 <= j < grown.len() && (#[trigger] grown[j]).0 == k;
                if j < n {
                    assert(grown[j] == buffers[at][j]);
                    assert(buffers[p][i].0 == buffers[at][j].0);
                } else {
                    assert(grown[j] == e);
                }
            }
        }
        assert forall|p: Place, i: int, q: Place, j: int|
            #![trigger cut[p][i], cut[q][j]]
            waits(cut, p, i) && waits(cut, q, j) && cut[p][i].0 == cut[q][j].0 implies p == q && i
            == j by {
            assert(waits(buffers, p, i) && waits(buffers, q, j));
            assert(cut[p][i] == buffers[p][i]);
            assert(cut[q][j] == buffers[q][j]);
        }
        assert forall|k: int| #[trigger] out.contains(k) implies 0 <= k < slots.len() && slots[k] is None by {
            let j = choose|j: int| 0 <= j < grown.len() && (#[trigger] grown[j]).0 == k;
            assert(stands_for(grown[j], ops));
            if j == n {
                assert(grown[j] == e);
            }
        }
    }
    let kept = buffers.insert(at, grown);
    assert(orderly(slots, kept, ops, Set::empty())) by {
        assert forall|p: Place, i: int| #![trigger kept[p][i]] waits(kept, p, i) implies stands_for(
            kept[p][i],
            ops,
        ) && slots[kept[p][i].0 as int] is None && !Set::<int>::empty().contains(
            kept[p][i].0 as int,
        ) by {
            if p == at {
                assert(kept[p][i] == grown[i]);
                assert(stands_for(grown[i], ops));
                if i == n {
                    assert(grown[i] == e);
                }
            } else {
                assert(waits(buffers, p, i));
                assert(kept[p][i] == buffers[p][i]);
            }
        }
        assert forall|p: Place, i: int, q: Place, j: int|
            #![trigger kept[p][i], kept[q][j]]
            waits(kept, p, i) && waits(kept, q, j) && kept[p][i].0 == kept[q][j].0 implies p == q && i
            == j by {
            if p == at && q == at {
                assert(kept[p][i] == grown[i] && kept[q][j] == grown[j]);
                if i < j {
                    assert(grown[i].0 != grown[j].0);
                } else if j < i {
                    assert(grown[j].0 != grown[i].0);
                }
            } else if p == at {
                assert(waits(cut, q, j));
                assert(kept[q][j] == cut[q][j]);
                assert(kept[p][i] == grown[i]);
                assert(out.contains(grown[i].0 as int));
                assert(!out.contains(cut[q][j].0 as int));
            } else if q == at {
                assert(waits(cut, p, i));
                assert(kept[p][i] == cut[p][i]);
                assert(kept[q][j] == grown[j]);
                assert(out.contains(grown[j].0 as int));
                assert(!out.contains(cut[p][i].0 as int));
            } else {
                assert(waits(buffers, p, i) && waits(buffers, q, j));
                assert(kept[p][i] == buffers[p][i]);
                assert(kept[q][j] == buffers[q][j]);
            }
        }
    }
}

/// Answers for open operations, each in its place, leave the others in order.
pub proof fn lemma_orderly_settle(
    before: Seq<Option<Item>>,
    after: Seq<Option<Item>>,
    buffers: Map<Place, Seq<Entry>>,
    ops: Seq<Asked>,
    open: Set<int>,
    left: Set<int>,
)
    requires
        orderly(before, buffers, ops, open),
        in_place(after, ops),
        left.subset_of(open),
        forall|k: int| 0 <= k < before.len() && !open.contains(k) ==> #[trigger] after[k] == before[k],
        forall|k: int| #[trigger] left.contains(k) ==> after[k] is None,
    ensures
        orderly(after, buffers, ops, left),
{
    assert forall|p: Place, i: int| #![trigger buffers[p][i]] waits(buffers, p, i) implies stands_for(
        buffers[p][i],
        ops,
    ) && after[buffers[p][i].0 as int] is None && !left.contains(buffers[p][i].0 as int) by {
        let k = buffers[p][i].0 as int;
        assert(!open.contains(k));
        assert(after[k] == before[k]);
    }
    assert forall|k: int| #[trigger] left.contains(k) implies 0 <= k < after.len() && after[k] is None by {
        assert(open.contains(k));
    }
}

/// Held back by the migration gate or not, a sub-batch stays in order: what was held back is
/// answered, and what was admitted is open.
pub proof fn lemma_orderly_gate(
    slots: Seq<Option<Item>>,
    buffers: Map<Place, Seq<Entry>>,
    ops: Seq<Asked>,
    entries: Seq<Entry>,
    admits: Seq<bool>,
)
    requires
        admits.len() == entries.len(),
        orderly(slots, buffers, ops, ordinals(entries)),
        apart(entries),
        all_stand(entries, ops),
    ensures
        ({
            let no = picked(entries, admits, false);
            let yes = picked(entries, admits, true);
            let s = set_lines(slots, held_back(no));
            &&& apart(yes)
            &&& all_stand(yes, ops)
            &&& orderly(s, buffers, ops, ordinals(yes))
            &&& forall|j: int|
                0 <= j < entries.len() && !admits[j] ==> s[(#[trigger] entries[j]).0 as int] == Some(
                    item(entries[j].1, 409, Report::Error("stale_epoch"@)),
                )
            &&& forall|k: int|
                0 <= k < slots.len() && !ordinals(no).contains(k) ==> #[trigger] s[k] == slots[k]
        }),
{
    let no = picked(entries, admits, false);
    let yes = picked(entries, admits, true);
    lemma_picked_apart(entries, admits);
    lemma_picked_stand(entries, admits, true, ops);
    lemma_picked_stand(entries, admits, false, ops);
    lemma_picked(entries, admits);
    assert forall|i: int| 0 <= i < no.len() implies (#[trigger] no[i]).0 < slots.len() by {
        assert(stands_for(no[i], ops));
    }
    lemma_held_in_place(slots, no);
    let s = set_lines(slots, held_back(no));
    assert forall|j: int| 0 <= j < entries.len() && !admits[j] implies s[(
    #[trigger] entries[j]).0 as int] == Some(item(entries[j].1, 409, Report::Error("stale_epoch"@))) by {
        lemma_rank(entries, admits, false, j);
        assert(no[rank(entries, admits, false, j)] == entries[j]);
    }
    assert(in_place(s, ops)) by {
        assert forall|k: int| 0 <= k < s.len() implies ((#[trigger] s[k]) matches Some(x) ==> echoes(
            x,
            ops[k],
        )) by {
            if ordinals(no).contains(k) {
                let i = choose|i: int| 0 <= i < no.len() && (#[trigger] no[i]).0 == k;
                assert(stands_for(no[i], ops));
                assert(s[no[i].0 as int] == Some(item(no[i].1, 409, Report::Error("stale_epoch"@))));
            } else {
                assert(s[k] == slots[k]);
            }
        }
    }
    let open = ordinals(entries);
    assert forall|k: int, want: bool| #[trigger] ordinals(picked(entries, admits, want)).contains(k)
        implies open.contains(k) by {
        let out = picked(entries, admits, want);
        let a = choose|a: int| 0 <= a < out.len() && (#[trigger] out[a]).0 == k;
        let i = choose|i: int| 0 <= i < entries.len() && #[trigger] admits[i] == want && entries[i]
            == out[a];
        assert(entries[i].0 == k);
    }
    assert forall|k: int| #[trigger] ordinals(yes).contains(k) implies s[k] is None by {
        assert(open.contains(k));
        if ordinals(no).contains(k) {
            let a = choose|a: int| 0 <= a < yes.len() && (#[trigger] yes[a]).0 == k;
            let b = choose|b: int| 0 <= b < no.len() && (#[trigger] no[b]).0 == k;
            assert(yes[a].0 != no[b].0);
        }
        assert(s[k] == slots[k]);
    }
    lemma_orderly_settle(slots, s, buffers, ops, open, ordinals(yes));
}

/// What a cluster answered is in place, and nothing is open.
pub proof fn lemma_orderly_sent(
    slots: Seq<Option<Item>>,
    buffers: Map<Place, Seq<Entry>>,
    ops: Seq<Asked>,
    admitted: Seq<Entry>,
    result: Result<WriteAck, SinkError>,
)
    requires
        orderly(slots, buffers, ops, ordinals(admitted)),
        apart(admitted),
        all_stand(admitted, ops),
    ensures
        ({
            let s = set_lines(slots, answers(admitted, result));
            &&& orderly(s, buffers, ops, Set::empty())
            &&& forall|i: int|
                0 <= i < admitted.len() ==> s[(#[trigger] admitted[i]).0 as int] == sent_answer(
                    admitted[i].1,
                    result,
                    i,
                )
            &&& forall|k: int|
                0 <= k < slots.len() && !ordinals(admitted).contains(k) ==> #[trigger] s[k] == slots[k]
        }),
{
    assert forall|i: int| 0 <= i < admitted.len() implies (#[trigger] admitted[i]).0 < slots.len() by {
        assert(stands_for(admitted[i], ops));
    }
    lemma_sent_in_place(slots, admitted, result);
    let s = set_lines(slots, answers(admitted, result));
    assert forall|i: int| 0 <= i < admitted.len() implies s[(#[trigger] admitted[i]).0 as int]
        == sent_answer(admitted[i].1, result, i) by {
        assert(ordinals(admitted).contains(admitted[i].0 as int));
    }
    assert(in_place(s, ops)) by {
        assert forall|k: int| 0 <= k < s.len() implies ((#[trigger] s[k]) matches Some(x) ==> echoes(
            x,
            ops[k],
        )) by {
            if ordinals(admitted).contains(k) {
                let i = choose|i: int| 0 <= i < admitted.len() && (#[trigger] admitted[i]).0 == k;
                assert(stands_for(admitted[i], ops));
                assert(s[admitted[i].0 as int] == sent_answer(admitted[i].1, result, i));
            } else {
                assert(s[k] == slots[k]);
            }
        }
    }
    lemma_orderly_settle(slots, s, buffers, ops, ordinals(admitted), Set::empty());
}

} // verus!
