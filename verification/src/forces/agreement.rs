//! Where sums and differences are exact, what the pair loop can end with is
//! what the model computes: the relations of the outcome pin the result down.

use std::ops::Add;
use std::ops::Sub;
use vstd::prelude::*;
use vstd::std_specs::ops::AddSpec;

use crate::forces::model::busy;
use crate::forces::model::is_exact;
use crate::forces::model::lemma_row_keeps_len;
use crate::forces::model::lemma_share_keeps_len;
use crate::forces::model::net_energy;
use crate::forces::model::net_forces;
use crate::forces::model::owns;
use crate::forces::model::pair_applied;
use crate::forces::model::row_energy;
use crate::forces::model::row_forces;
use crate::forces::model::share_energy;
use crate::forces::model::share_forces;
use crate::forces::model::shares;
use crate::forces::outcome::added;
use crate::forces::outcome::answered;
use crate::forces::outcome::counted;
use crate::forces::outcome::energy_found;
use crate::forces::outcome::exchanged;
use crate::forces::outcome::forces_found;
use crate::forces::outcome::row_counted;
use crate::forces::outcome::row_exchanged;
use crate::forces::outcome::row_passed;
use crate::forces::outcome::row_tallied;
use crate::forces::outcome::share_counted;
use crate::forces::outcome::share_exchanged;
use crate::forces::outcome::totalled;
use crate::utility::add_arrays::zip_sum;
use crate::utility::thread_local_array::fresh;
use crate::utility::thread_local_array::joined;
use crate::utility::thread_local_array::reduced;
use crate::utility::thread_local_array::summed;

verus! {

/// With exact sums and differences, a pair's exchange leaves one buffer.
pub proof fn lemma_exchange_is_exact<V: Add<V, Output = V> + Sub<V, Output = V>>(
    before: Seq<V>,
    after: Seq<V>,
    i: int,
    j: int,
    f: V,
)
    requires
        is_exact::<V>(),
        0 <= j < i < before.len(),
        exchanged(before, after, i, j, f),
    ensures
        after == pair_applied(before, i, j, f),
{
    assert(after =~= pair_applied(before, i, j, f));
}

/// With exact sums and differences, the pairs of a row leave one buffer.
pub proof fn lemma_row_forces_are_exact<V: Add<V, Output = V> + Sub<V, Output = V>, E>(
    buffer: Seq<V>,
    after: Seq<V>,
    i: int,
    row: Seq<Option<(V, E)>>,
    pairs: nat,
)
    requires
        is_exact::<V>(),
        pairs <= i < buffer.len(),
        row_exchanged(buffer, after, i, row, pairs),
    ensures
        after == row_forces(buffer, i, row, pairs),
    decreases pairs,
{
    if pairs > 0 {
        let fewer = (pairs - 1) as nat;
        let mid = choose|mid: Seq<V>|
            row_exchanged(buffer, mid, i, row, fewer) && #[trigger] answered(
                mid,
                after,
                i,
                pairs - 1,
                row[pairs - 1],
            );
        lemma_row_forces_are_exact(buffer, mid, i, row, fewer);
        lemma_row_keeps_len(buffer, i, row, fewer);
        match row[pairs - 1] {
            Some((f, _)) => {
                lemma_exchange_is_exact(mid, after, i, pairs - 1, f);
            },
            None => {},
        }
    }
}

/// With exact sums and differences, a worker leaves one buffer.
pub proof fn lemma_share_forces_are_exact<V: Add<V, Output = V> + Sub<V, Output = V>, E>(
    buffer: Seq<V>,
    after: Seq<V>,
    hits: Seq<Seq<Option<(V, E)>>>,
    worker: int,
    workers: int,
    rows: nat,
)
    requires
        is_exact::<V>(),
        rows <= buffer.len(),
        share_exchanged(buffer, after, hits, worker, workers, rows),
    ensures
        after == share_forces(buffer, hits, worker, workers, rows),
    decreases rows,
{
    if rows > 0 {
        let fewer = (rows - 1) as nat;
        let mid = choose|mid: Seq<V>|
            share_exchanged(buffer, mid, hits, worker, workers, fewer) && #[trigger] row_passed(
                mid,
                after,
                hits,
                worker,
                workers,
                rows - 1,
            );
        lemma_share_forces_are_exact(buffer, mid, hits, worker, workers, fewer);
        lemma_share_keeps_len(buffer, hits, worker, workers, fewer);
        if owns(worker, workers, rows - 1) {
            lemma_row_forces_are_exact(mid, after, rows - 1, hits[rows - 1], fewer);
        }
    }
}

/// With exact sums, the buffers add up to one sum.
pub proof fn lemma_sum_is_exact<T: Add<T, Output = T>>(
    slots: Seq<Option<Seq<T>>>,
    sum: Option<Seq<T>>,
)
    requires
        T::obeys_add_spec(),
        summed(slots, sum),
    ensures
        sum == reduced(slots),
    decreases slots.len(),
{
    if slots.len() > 0 {
        let before = choose|before: Option<Seq<T>>|
            summed(slots.drop_last(), before) && #[trigger] joined(before, slots.last(), sum);
        lemma_sum_is_exact(slots.drop_last(), before);
        match (before, slots.last()) {
            (Some(a), Some(b)) => {
                assert(sum->0 =~= zip_sum(a, b));
            },
            _ => {},
        }
    }
}

/// With exact sums and differences, the forces that the pair loop can find
/// are those of the model.
pub proof fn lemma_forces_are_exact<V: Add<V, Output = V> + Sub<V, Output = V>, E>(
    zero: V,
    hits: Seq<Seq<Option<(V, E)>>>,
    workers: int,
    found: Seq<V>,
)
    requires
        is_exact::<V>(),
        forces_found(zero, hits, workers, found),
    ensures
        found == net_forces(zero, hits, workers),
{
    let n = hits.len();
    if n == 0 {
        assert(found =~= Seq::<V>::empty());
    } else {
        let buffers = choose|buffers: Seq<Option<Seq<V>>>|
            {
                &&& buffers.len() == busy(workers, hits.len() as int)
                &&& forall|w: int|
                    0 <= w < buffers.len() ==> (#[trigger] buffers[w]) is Some && share_exchanged(
                        fresh(zero, hits.len()),
                        buffers[w]->0,
                        hits,
                        w,
                        workers,
                        hits.len(),
                    )
                &&& #[trigger] summed(buffers, Some(found))
            };
        assert(buffers =~= shares(zero, hits, workers)) by {
            assert forall|w: int| 0 <= w < buffers.len() implies #[trigger] buffers[w] == Some(
                share_forces(fresh(zero, n), hits, w, workers, n),
            ) by {
                lemma_share_forces_are_exact(fresh(zero, n), buffers[w]->0, hits, w, workers, n);
            }
        }
        lemma_sum_is_exact(buffers, Some(found));
    }
}

/// With exact sums, the pairs of a row leave one running energy.
pub proof fn lemma_row_energy_is_exact<V, E: Add<E, Output = E>>(
    energy: E,
    total: E,
    row: Seq<Option<(V, E)>>,
    pairs: nat,
)
    requires
        E::obeys_add_spec(),
        row_counted(energy, total, row, pairs),
    ensures
        total == row_energy(energy, row, pairs),
    decreases pairs,
{
    if pairs > 0 {
        let fewer = (pairs - 1) as nat;
        let mid = choose|mid: E|
            row_counted(energy, mid, row, fewer) && #[trigger] counted(mid, total, row[pairs - 1]);
        lemma_row_energy_is_exact(energy, mid, row, fewer);
    }
}

/// With exact sums, a worker holds one running energy at the end.
pub proof fn lemma_share_energy_is_exact<V, E: Add<E, Output = E>>(
    energy: E,
    total: E,
    hits: Seq<Seq<Option<(V, E)>>>,
    worker: int,
    workers: int,
    rows: nat,
)
    requires
        E::obeys_add_spec(),
        share_counted(energy, total, hits, worker, workers, rows),
    ensures
        total == share_energy(energy, hits, worker, workers, rows),
    decreases rows,
{
    if rows > 0 {
        let fewer = (rows - 1) as nat;
        let mid = choose|mid: E|
            share_counted(energy, mid, hits, worker, workers, fewer) && #[trigger] row_tallied(
                mid,
                total,
                hits,
                worker,
                workers,
                rows - 1,
            );
        lemma_share_energy_is_exact(energy, mid, hits, worker, workers, fewer);
        if owns(worker, workers, rows - 1) {
            lemma_row_energy_is_exact(mid, total, hits[rows - 1], fewer);
        }
    }
}

/// With exact sums, the running energies of the first workers add up to one
/// energy.
proof fn lemma_tally_is_exact<V, E: Add<E, Output = E>>(
    energy: E,
    hits: Seq<Seq<Option<(V, E)>>>,
    workers: int,
    terms: Seq<E>,
    done: nat,
    result: E,
)
    requires
        E::obeys_add_spec(),
        done <= terms.len(),
        forall|w: int|
            0 <= w < done ==> #[trigger] terms[w] == share_energy(
                energy,
                hits,
                w,
                workers,
                hits.len(),
            ),
        totalled(energy, terms.take(done as int), result),
    ensures
        result == net_energy(energy, hits, workers, done),
    decreases done,
{
    let taken = terms.take(done as int);
    if done > 0 {
        let mid = choose|mid: E|
            totalled(energy, taken.drop_last(), mid) && #[trigger] added(mid, taken.last(), result);
        assert(taken.drop_last() =~= terms.take(done - 1));
        lemma_tally_is_exact(energy, hits, workers, terms, (done - 1) as nat, mid);
        assert(taken.last() == terms[done - 1]);
    }
}

/// With exact sums, the potential energy that the pair loop can find is that
/// of the model.
pub proof fn lemma_energy_is_exact<V, E: Add<E, Output = E>>(
    energy: E,
    hits: Seq<Seq<Option<(V, E)>>>,
    workers: int,
    found: E,
)
    requires
        E::obeys_add_spec(),
        energy_found(energy, hits, workers, found),
    ensures
        found == net_energy(energy, hits, workers, busy(workers, hits.len() as int) as nat),
{
    let terms = choose|terms: Seq<E>|
        {
            &&& terms.len() == busy(workers, hits.len() as int)
            &&& forall|w: int|
                0 <= w < terms.len() ==> share_counted(
                    energy,
                    #[trigger] terms[w],
                    hits,
                    w,
                    workers,
                    hits.len(),
                )
            &&& #[trigger] totalled(energy, terms, found)
        };
    assert forall|w: int| 0 <= w < terms.len() implies #[trigger] terms[w] == share_energy(
        energy,
        hits,
        w,
        workers,
        hits.len(),
    ) by {
        lemma_share_energy_is_exact(energy, terms[w], hits, w, workers, hits.len());
    }
    assert(terms.take(terms.len() as int) =~= terms);
    lemma_tally_is_exact(energy, hits, workers, terms, terms.len(), found);
}

} // verus!
