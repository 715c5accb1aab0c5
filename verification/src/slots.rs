//! Answers that fill up in any order: each lands in the slot of what it answers.

use vstd::prelude::*;

verus! {

/// The slots once the answers have been noted, one after the other.
pub open spec fn noted<T>(slots: Seq<T>, answers: Seq<(int, T)>) -> Seq<T>
    decreases answers.len(),
{
    if answers.len() == 0 {
        slots
    } else {
        noted(slots, answers.drop_last()).update(answers.last().0, answers.last().1)
    }
}

/// Every answer is for a slot, and no two are for the same one.
pub open spec fn one_each<T>(answers: Seq<(int, T)>, slots: int) -> bool {
    &&& forall|i: int| 0 <= i < answers.len() ==> 0 <= (#[trigger] answers[i]).0 < slots
    &&& forall|i: int, j: int|
        0 <= i < j < answers.len() ==> (#[trigger] answers[i]).0 != (#[trigger] answers[j]).0
}

/// Each answer ends up in its own slot, and no other slot is touched.
pub proof fn law_each_in_its_place<T>(slots: Seq<T>, answers: Seq<(int, T)>)
    requires
        one_each(answers, slots.len() as int),
    ensures
        noted(slots, answers).len() == slots.len(),
        forall|i: int|
            0 <= i < answers.len() ==> noted(slots, answers)[(#[trigger] answers[i]).0] == answers[i].1,
        forall|k: int|
            0 <= k < slots.len() && (forall|i: int|
                0 <= i < answers.len() ==> (#[trigger] answers[i]).0 != k) ==> #[trigger] noted(
                slots,
                answers,
            )[k] == slots[k],
    decreases answers.len(),
{
    if answers.len() > 0 {
        let init = answers.drop_last();
        let last = answers.len() - 1;
        assert forall|i: int| 0 <= i < init.len() implies 0 <= (#[trigger] init[i]).0
            < slots.len() by {
            assert(init[i] == answers[i]);
        }
        assert forall|i: int, j: int| 0 <= i < j < init.len() implies (#[trigger] init[i]).0 != (
        #[trigger] init[j]).0 by {
            assert(answers[i].0 != answers[j].0);
        }
        law_each_in_its_place(slots, init);
        assert(0 <= answers[last].0 < slots.len());
        assert forall|i: int| 0 <= i < answers.len() implies noted(slots, answers)[(
        #[trigger] answers[i]).0] == answers[i].1 by {
            if i < last {
                assert(init[i] == answers[i]);
                assert(answers[i].0 != answers[last].0);
            }
        }
        assert forall|k: int|
            0 <= k < slots.len() && (forall|i: int|
                0 <= i < answers.len() ==> (#[trigger] answers[i]).0
                    != k) implies #[trigger] noted(slots, answers)[k] == slots[k] by {
            assert(answers[last].0 != k);
            assert forall|i: int| 0 <= i < init.len() implies (#[trigger] init[i]).0 != k by {
                assert(init[i] == answers[i]);
            }
        }
    }
}

/// The order in which answers are noted does not matter: the same answers give the same
/// slots.
pub proof fn law_order_is_free<T>(slots: Seq<T>, a: Seq<(int, T)>, b: Seq<(int, T)>)
    requires
        one_each(a, slots.len() as int),
        one_each(b, slots.len() as int),
        forall|x: (int, T)| #[trigger] a.contains(x) <==> b.contains(x),
    ensures
        noted(slots, a) == noted(slots, b),
{
    law_each_in_its_place(slots, a);
    law_each_in_its_place(slots, b);
    assert forall|k: int| 0 <= k < slots.len() implies noted(slots, a)[k] == noted(slots, b)[k] by {
        if exists|i: int| 0 <= i < a.len() && (#[trigger] a[i]).0 == k {
            let i = choose|i: int| 0 <= i < a.len() && (#[trigger] a[i]).0 == k;
            assert(a.contains(a[i]));
            assert(b.contains(a[i]));
            let j = choose|j: int| 0 <= j < b.len() && b[j] == a[i];
            assert(noted(slots, b)[b[j].0] == b[j].1);
            assert(noted(slots, a)[a[i].0] == a[i].1);
        } else {
            assert forall|j: int| 0 <= j < b.len() implies (#[trigger] b[j]).0 != k by {
                assert(b.contains(b[j]));
                if b[j].0 == k {
                    assert(a.contains(b[j]));
                    let i = choose|i: int| 0 <= i < a.len() && a[i] == b[j];
                    assert(a[i].0 == k);
                }
            }
        }
    }
    assert(noted(slots, a) =~= noted(slots, b));
}

} // verus!
