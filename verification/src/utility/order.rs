//! The sum of the workers' buffers does not depend on the order of the
//! workers, where addition is commutative and associative.

use std::ops::Add;
use vstd::prelude::*;
use vstd::std_specs::ops::AddSpec;

use crate::algebra::lemma_commutes;
use crate::algebra::lemma_gain_left;
use crate::algebra::monoid;
use crate::utility::add_arrays::zip_sum;
use crate::utility::thread_local_array::merged;
use crate::utility::thread_local_array::reduced;

verus! {

/// Every buffer that exists has `n` elements.
pub open spec fn sized<T>(slots: Seq<Option<Seq<T>>>, n: nat) -> bool {
    forall|w: int|
        0 <= w < slots.len() && (#[trigger] slots[w]) is Some ==> slots[w]->0.len() == n
}

/// The sum of the slots with one more at the end.
proof fn lemma_reduced_push<T: Add<T, Output = T>>(slots: Seq<Option<Seq<T>>>, slot: Option<Seq<T>>)
    ensures
        reduced(slots.push(slot)) == merged(reduced(slots), slot),
{
    assert(slots.push(slot).drop_last() =~= slots);
}

/// Buffers of one length sum to a buffer of that length.
proof fn lemma_reduced_sized<T: Add<T, Output = T>>(slots: Seq<Option<Seq<T>>>, n: nat)
    requires
        sized(slots, n),
    ensures
        reduced(slots) is Some ==> reduced(slots)->0.len() == n,
    decreases slots.len(),
{
    if slots.len() > 0 {
        lemma_reduced_sized(slots.drop_last(), n);
    }
}

/// The last two slots may change places.
proof fn lemma_swap_last_two<T: Add<T, Output = T>>(
    zero: T,
    slots: Seq<Option<Seq<T>>>,
    a: Option<Seq<T>>,
    b: Option<Seq<T>>,
    n: nat,
)
    requires
        monoid(zero),
        sized(slots, n),
        a is Some ==> a->0.len() == n,
        b is Some ==> b->0.len() == n,
    ensures
        reduced(slots.push(a).push(b)) == reduced(slots.push(b).push(a)),
{
    lemma_reduced_push(slots, a);
    lemma_reduced_push(slots, b);
    lemma_reduced_push(slots.push(a), b);
    lemma_reduced_push(slots.push(b), a);
    lemma_reduced_sized(slots, n);
    match (reduced(slots), a, b) {
        (Some(sum), Some(x), Some(y)) => {
            assert forall|i: int| 0 <= i < n implies sum[i].add_spec(x[i]).add_spec(y[i])
                == sum[i].add_spec(y[i]).add_spec(x[i]) by {
                lemma_gain_left(zero, sum[i], y[i], x[i]);
            }
            assert(zip_sum(zip_sum(sum, x), y) =~= zip_sum(zip_sum(sum, y), x));
        },
        (None, Some(x), Some(y)) => {
            assert forall|i: int| 0 <= i < n implies x[i].add_spec(y[i]) == y[i].add_spec(x[i]) by {
                lemma_commutes(zero, x[i], y[i]);
            }
            assert(zip_sum(x, y) =~= zip_sum(y, x));
        },
        _ => {},
    }
}

/// A slot may move to the end.
proof fn lemma_move_to_end<T: Add<T, Output = T>>(
    zero: T,
    slots: Seq<Option<Seq<T>>>,
    k: int,
    n: nat,
)
    requires
        monoid(zero),
        sized(slots, n),
        0 <= k < slots.len(),
    ensures
        reduced(slots) == reduced(slots.remove(k).push(slots[k])),
    decreases slots.len(),
{
    if k == slots.len() - 1 {
        assert(slots.remove(k).push(slots[k]) =~= slots);
    } else {
        let head = slots.drop_last();
        let last = slots.last();
        assert(slots =~= head.push(last));
        lemma_move_to_end(zero, head, k, n);
        lemma_reduced_push(head, last);
        lemma_reduced_push(head.remove(k).push(head[k]), last);
        lemma_swap_last_two(zero, head.remove(k), head[k], last, n);
        assert(head.remove(k).push(last) =~= slots.remove(k));
    }
}

/// Scheduling order independence: where addition is commutative and
/// associative, buffers of one length sum to the same, in whatever order the
/// workers stand.
pub proof fn lemma_sum_independent_of_order<T: Add<T, Output = T>>(
    zero: T,
    one: Seq<Option<Seq<T>>>,
    other: Seq<Option<Seq<T>>>,
    n: nat,
)
    requires
        monoid(zero),
        sized(one, n),
        one.to_multiset() == other.to_multiset(),
    ensures
        reduced(one) == reduced(other),
    decreases other.len(),
{
    vstd::seq_lib::to_multiset_len(one);
    vstd::seq_lib::to_multiset_len(other);
    if other.len() > 0 {
        let last = other.last();
        let head = other.drop_last();
        assert(other =~= head.push(last));
        vstd::seq_lib::to_multiset_build(head, last);
        vstd::seq_lib::to_multiset_contains(one, last);
        assert(one.to_multiset().count(last) > 0);
        let k = choose|k: int| 0 <= k < one.len() && one[k] == last;
        vstd::seq_lib::to_multiset_remove(one, k);
        assert(one.remove(k).to_multiset() =~= head.to_multiset());
        lemma_move_to_end(zero, one, k, n);
        lemma_sum_independent_of_order(zero, one.remove(k), head, n);
        lemma_reduced_push(one.remove(k), last);
        lemma_reduced_push(head, last);
    } else {
        assert(one =~= other);
    }
}

} // verus!
