//! What the pair loop computes where sums and differences are exact: the
//! buffers and energies as functions of the answers of the pair law.

use std::ops::Add;
use std::ops::Sub;
use vstd::prelude::*;
use vstd::std_specs::ops::AddSpec;
use vstd::std_specs::ops::SubSpec;

use crate::utility::thread_local_array::fresh;
use crate::utility::thread_local_array::reduced;

verus! {

/// `-` accepts every pair of values of `T`.
pub open spec fn total_sub<T: Sub<T, Output = T>>() -> bool {
    forall|x: T, y: T| #[trigger] call_requires(T::sub, (x, y))
}

/// Sums and differences of `T` are what its `add_spec` and `sub_spec` say.
pub open spec fn is_exact<T: Add<T, Output = T> + Sub<T, Output = T>>() -> bool {
    T::obeys_add_spec() && T::obeys_sub_spec()
}

/// The buffer after the pair `(i, j)` has exchanged the force `f`: slot `i`
/// loses `f`, slot `j` gains it, every other slot stays.
pub open spec fn pair_applied<V: Add<V, Output = V> + Sub<V, Output = V>>(
    buffer: Seq<V>,
    i: int,
    j: int,
    f: V,
) -> Seq<V> {
    buffer.update(i, buffer[i].sub_spec(f)).update(j, buffer[j].add_spec(f))
}

/// What the pairs of one row leave in a buffer: the first `pairs` answers of
/// the row of particle `i`, applied in the order of the partners `0, 1, ..`.
/// A pair without an answer leaves the buffer as it is.
pub open spec fn row_forces<V: Add<V, Output = V> + Sub<V, Output = V>, E>(
    buffer: Seq<V>,
    i: int,
    row: Seq<Option<(V, E)>>,
    pairs: nat,
) -> Seq<V>
    decreases pairs,
{
    if pairs == 0 {
        buffer
    } else {
        let before = row_forces(buffer, i, row, (pairs - 1) as nat);
        match row[pairs - 1] {
            Some((f, _)) => pair_applied(before, i, pairs - 1, f),
            None => before,
        }
    }
}

/// The running energy after the first `pairs` answers of a row: each answer
/// adds its energy, a pair without an answer adds nothing.
pub open spec fn row_energy<V, E: Add<E, Output = E>>(
    energy: E,
    row: Seq<Option<(V, E)>>,
    pairs: nat,
) -> E
    decreases pairs,
{
    if pairs == 0 {
        energy
    } else {
        let before = row_energy(energy, row, (pairs - 1) as nat);
        match row[pairs - 1] {
            Some((_, e)) => before.add_spec(e),
            None => before,
        }
    }
}

/// The rows of `worker` among `workers`: every row whose index leaves the
/// remainder `worker`.
pub open spec fn owns(worker: int, workers: int, row: int) -> bool {
    row % workers == worker
}

/// What a worker leaves in its buffer after the rows below `rows`: its own
/// rows, in rising order, each with all its pairs.
pub open spec fn share_forces<V: Add<V, Output = V> + Sub<V, Output = V>, E>(
    buffer: Seq<V>,
    hits: Seq<Seq<Option<(V, E)>>>,
    worker: int,
    workers: int,
    rows: nat,
) -> Seq<V>
    decreases rows,
{
    if rows == 0 {
        buffer
    } else {
        let before = share_forces(buffer, hits, worker, workers, (rows - 1) as nat);
        if owns(worker, workers, rows - 1) {
            row_forces(before, rows - 1, hits[rows - 1], (rows - 1) as nat)
        } else {
            before
        }
    }
}

/// The running energy of a worker after the rows below `rows`.
pub open spec fn share_energy<V, E: Add<E, Output = E>>(
    energy: E,
    hits: Seq<Seq<Option<(V, E)>>>,
    worker: int,
    workers: int,
    rows: nat,
) -> E
    decreases rows,
{
    if rows == 0 {
        energy
    } else {
        let before = share_energy(energy, hits, worker, workers, (rows - 1) as nat);
        if owns(worker, workers, rows - 1) {
            row_energy(before, hits[rows - 1], (rows - 1) as nat)
        } else {
            before
        }
    }
}

/// The number of workers that own at least one of `rows` rows.
pub open spec fn busy(workers: int, rows: int) -> int {
    if workers <= rows {
        workers
    } else {
        rows
    }
}

/// The buffers of the busy workers after the pair loop, each started from
/// `zero` in every slot.
pub open spec fn shares<V: Add<V, Output = V> + Sub<V, Output = V>, E>(
    zero: V,
    hits: Seq<Seq<Option<(V, E)>>>,
    workers: int,
) -> Seq<Option<Seq<V>>> {
    Seq::new(
        busy(workers, hits.len() as int) as nat,
        |w: int| Some(share_forces(fresh(zero, hits.len()), hits, w, workers, hits.len())),
    )
}

/// The force on each particle: the buffers of the busy workers, summed
/// element-wise in the order of the workers. Without particles there is no
/// force.
pub open spec fn net_forces<V: Add<V, Output = V> + Sub<V, Output = V>, E>(
    zero: V,
    hits: Seq<Seq<Option<(V, E)>>>,
    workers: int,
) -> Seq<V> {
    if hits.len() == 0 {
        Seq::empty()
    } else {
        reduced(shares(zero, hits, workers))->0
    }
}

/// The potential energy after the first `done` workers: `energy` plus the
/// running sum of each of them, which itself starts at `energy`.
pub open spec fn net_energy<V, E: Add<E, Output = E>>(
    energy: E,
    hits: Seq<Seq<Option<(V, E)>>>,
    workers: int,
    done: nat,
) -> E
    decreases done,
{
    if done == 0 {
        energy
    } else {
        net_energy(energy, hits, workers, (done - 1) as nat).add_spec(
            share_energy(energy, hits, done - 1, workers, hits.len()),
        )
    }
}

/// Every slot holds a buffer, and each buffer has `n` elements.
pub open spec fn uniform<T>(slots: Seq<Option<Seq<T>>>, n: nat) -> bool {
    forall|w: int| 0 <= w < slots.len() ==> (#[trigger] slots[w]) is Some && slots[w]->0.len() == n
}

/// No pair of the rows of `worker` below `rows` has an answer.
pub open spec fn silent<V, E>(
    hits: Seq<Seq<Option<(V, E)>>>,
    worker: int,
    workers: int,
    rows: nat,
) -> bool {
    forall|i: int, j: int|
        0 <= j < i < rows && owns(worker, workers, i) ==> (#[trigger] hits[i][j]) is None
}

/// Buffers of one length sum to a buffer of that length.
pub(crate) proof fn lemma_reduced_len<T: Add<T, Output = T>>(slots: Seq<Option<Seq<T>>>, n: nat)
    requires
        slots.len() > 0,
        uniform(slots, n),
    ensures
        reduced(slots) is Some,
        reduced(slots)->0.len() == n,
    decreases slots.len(),
{
    if slots.len() > 1 {
        lemma_reduced_len(slots.drop_last(), n);
    } else {
        assert(reduced(slots.drop_last()) is None);
    }
}

/// Cutoff exclusion: a pair without an answer leaves the buffer and the
/// running energy as the pairs before it left them.
pub proof fn lemma_excluded_pair_adds_nothing<
    V: Add<V, Output = V> + Sub<V, Output = V>,
    E: Add<E, Output = E>,
>(buffer: Seq<V>, energy: E, i: int, row: Seq<Option<(V, E)>>, j: nat)
    requires
        row[j as int] is None,
    ensures
        row_forces(buffer, i, row, j + 1) == row_forces(buffer, i, row, j),
        row_energy(energy, row, j + 1) == row_energy(energy, row, j),
{
}

/// Pairs without an answer leave nothing behind.
proof fn lemma_silent_row<V: Add<V, Output = V> + Sub<V, Output = V>, E: Add<E, Output = E>>(
    buffer: Seq<V>,
    energy: E,
    i: int,
    row: Seq<Option<(V, E)>>,
    pairs: nat,
)
    requires
        forall|j: int| 0 <= j < pairs ==> (#[trigger] row[j]) is None,
    ensures
        row_forces(buffer, i, row, pairs) == buffer,
        row_energy(energy, row, pairs) == energy,
    decreases pairs,
{
    if pairs > 0 {
        lemma_silent_row(buffer, energy, i, row, (pairs - 1) as nat);
    }
}

/// Cutoff exclusion: a worker none of whose pairs has an answer leaves its
/// buffer and its running energy as they were.
pub proof fn lemma_silent_rows_add_nothing<
    V: Add<V, Output = V> + Sub<V, Output = V>,
    E: Add<E, Output = E>,
>(
    buffer: Seq<V>,
    energy: E,
    hits: Seq<Seq<Option<(V, E)>>>,
    worker: int,
    workers: int,
    rows: nat,
)
    requires
        silent(hits, worker, workers, rows),
    ensures
        share_forces(buffer, hits, worker, workers, rows) == buffer,
        share_energy(energy, hits, worker, workers, rows) == energy,
    decreases rows,
{
    if rows > 0 {
        lemma_silent_rows_add_nothing(buffer, energy, hits, worker, workers, (rows - 1) as nat);
        if owns(worker, workers, rows - 1) {
            assert forall|j: int| 0 <= j < rows - 1 implies (#[trigger] hits[rows - 1][j]) is None by {}
            lemma_silent_row(buffer, energy, rows - 1, hits[rows - 1], (rows - 1) as nat);
        }
    }
}

/// The pairs of a row keep the length of the buffer.
pub(crate) proof fn lemma_row_keeps_len<V: Add<V, Output = V> + Sub<V, Output = V>, E>(
    buffer: Seq<V>,
    i: int,
    row: Seq<Option<(V, E)>>,
    pairs: nat,
)
    requires
        pairs <= i < buffer.len(),
    ensures
        row_forces(buffer, i, row, pairs).len() == buffer.len(),
    decreases pairs,
{
    if pairs > 0 {
        lemma_row_keeps_len(buffer, i, row, (pairs - 1) as nat);
    }
}

/// A worker's rows keep the length of its buffer.
pub(crate) proof fn lemma_share_keeps_len<V: Add<V, Output = V> + Sub<V, Output = V>, E>(
    buffer: Seq<V>,
    hits: Seq<Seq<Option<(V, E)>>>,
    worker: int,
    workers: int,
    rows: nat,
)
    requires
        rows <= buffer.len(),
    ensures
        share_forces(buffer, hits, worker, workers, rows).len() == buffer.len(),
    decreases rows,
{
    if rows > 0 {
        lemma_share_keeps_len(buffer, hits, worker, workers, (rows - 1) as nat);
        lemma_row_keeps_len(
            share_forces(buffer, hits, worker, workers, (rows - 1) as nat),
            rows - 1,
            hits[rows - 1],
            (rows - 1) as nat,
        );
    }
}

} // verus!
