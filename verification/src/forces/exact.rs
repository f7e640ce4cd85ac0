//! Laws of the pair loop where forces form a commutative group and energies a
//! commutative monoid: the result does not depend on the number of workers,
//! the forces cancel, and a pair that does not interact counts as nothing.

use std::ops::Add;
use std::ops::Sub;
use vstd::prelude::*;
use vstd::std_specs::ops::AddSpec;
use vstd::std_specs::ops::SubSpec;

use crate::algebra::monoid;
use crate::algebra::group;
use crate::algebra::lemma_commutes;
use crate::algebra::lemma_associates;
use crate::algebra::lemma_neutral;
use crate::algebra::lemma_group_is_monoid;
use crate::algebra::lemma_undo;
use crate::algebra::lemma_gain_left;
use crate::algebra::lemma_loss_left;
use crate::algebra::lemma_loss_right;
use crate::forces::model::busy;
use crate::forces::model::lemma_reduced_len;
use crate::forces::model::lemma_row_keeps_len;
use crate::forces::model::lemma_share_keeps_len;
use crate::forces::model::lemma_silent_rows_add_nothing;
use crate::forces::model::net_energy;
use crate::forces::model::net_forces;
use crate::forces::model::owns;
use crate::forces::model::pair_applied;
use crate::forces::model::row_energy;
use crate::forces::model::row_forces;
use crate::forces::model::share_energy;
use crate::forces::model::share_forces;
use crate::forces::model::shares;
use crate::forces::model::silent;
use crate::forces::model::uniform;
use crate::utility::add_arrays::zip_sum;
use crate::utility::thread_local_array::fresh;
use crate::utility::thread_local_array::reduced;

verus! {

/// Exchanging a force in the right operand of a sum is exchanging it in the sum.
proof fn lemma_sum_of_applied_right<V: Add<V, Output = V> + Sub<V, Output = V>>(
    zero: V,
    a: Seq<V>,
    b: Seq<V>,
    i: int,
    j: int,
    f: V,
)
    requires
        group(zero),
        a.len() == b.len(),
        0 <= i < a.len(),
        0 <= j < a.len(),
        i != j,
    ensures
        zip_sum(a, pair_applied(b, i, j, f)) == pair_applied(zip_sum(a, b), i, j, f),
{
    lemma_group_is_monoid(zero);
    lemma_loss_right(zero, a[i], b[i], f);
    lemma_associates(zero, a[j], b[j], f);
    assert(zip_sum(a, pair_applied(b, i, j, f)) =~= pair_applied(zip_sum(a, b), i, j, f));
}

/// Exchanging a force in the left operand of a sum is exchanging it in the sum.
proof fn lemma_sum_of_applied_left<V: Add<V, Output = V> + Sub<V, Output = V>>(
    zero: V,
    a: Seq<V>,
    b: Seq<V>,
    i: int,
    j: int,
    f: V,
)
    requires
        group(zero),
        a.len() == b.len(),
        0 <= i < a.len(),
        0 <= j < a.len(),
        i != j,
    ensures
        zip_sum(pair_applied(a, i, j, f), b) == pair_applied(zip_sum(a, b), i, j, f),
{
    lemma_group_is_monoid(zero);
    lemma_loss_left(zero, a[i], b[i], f);
    lemma_gain_left(zero, a[j], b[j], f);
    assert(zip_sum(pair_applied(a, i, j, f), b) =~= pair_applied(zip_sum(a, b), i, j, f));
}

/// Exchanging a force in the buffer of one worker is exchanging it in the sum
/// of all buffers.
proof fn lemma_reduced_of_applied<V: Add<V, Output = V> + Sub<V, Output = V>>(
    zero: V,
    slots: Seq<Option<Seq<V>>>,
    n: nat,
    o: int,
    i: int,
    j: int,
    f: V,
)
    requires
        group(zero),
        uniform(slots, n),
        0 <= o < slots.len(),
        0 <= i < n,
        0 <= j < n,
        i != j,
    ensures
        reduced(slots.update(o, Some(pair_applied(slots[o]->0, i, j, f)))) == Some(
            pair_applied(reduced(slots)->0, i, j, f),
        ),
    decreases slots.len(),
{
    let changed = slots.update(o, Some(pair_applied(slots[o]->0, i, j, f)));
    let head = slots.drop_last();
    if slots.len() == 1 {
        assert(reduced(head) is None);
        assert(reduced(changed.drop_last()) is None);
    } else {
        assert(uniform(head, n));
        lemma_reduced_len(head, n);
        if o == slots.len() - 1 {
            assert(changed.drop_last() =~= head);
            lemma_sum_of_applied_right(zero, reduced(head)->0, slots[o]->0, i, j, f);
        } else {
            assert(changed.drop_last() =~= head.update(o, Some(pair_applied(head[o]->0, i, j, f))));
            lemma_reduced_of_applied(zero, head, n, o, i, j, f);
            lemma_sum_of_applied_left(zero, reduced(head)->0, slots.last()->0, i, j, f);
        }
    }
}

/// Applying the pairs of a row to the buffer of one worker is applying them to
/// the sum of all buffers.
proof fn lemma_reduced_of_row<V: Add<V, Output = V> + Sub<V, Output = V>, E>(
    zero: V,
    slots: Seq<Option<Seq<V>>>,
    n: nat,
    o: int,
    i: int,
    row: Seq<Option<(V, E)>>,
    pairs: nat,
)
    requires
        group(zero),
        uniform(slots, n),
        0 <= o < slots.len(),
        pairs <= i < n,
    ensures
        reduced(slots.update(o, Some(row_forces(slots[o]->0, i, row, pairs)))) == Some(
            row_forces(reduced(slots)->0, i, row, pairs),
        ),
    decreases pairs,
{
    lemma_reduced_len(slots, n);
    if pairs == 0 {
        assert(slots.update(o, Some(slots[o]->0)) =~= slots);
    } else {
        let before = (pairs - 1) as nat;
        let earlier = slots.update(o, Some(row_forces(slots[o]->0, i, row, before)));
        lemma_reduced_of_row(zero, slots, n, o, i, row, before);
        lemma_row_keeps_len(slots[o]->0, i, row, before);
        match row[pairs - 1] {
            Some((f, _)) => {
                assert(uniform(earlier, n));
                lemma_reduced_of_applied(zero, earlier, n, o, i, pairs - 1, f);
                assert(earlier.update(o, Some(pair_applied(earlier[o]->0, i, pairs - 1, f)))
                    =~= slots.update(o, Some(row_forces(slots[o]->0, i, row, pairs))));
            },
            None => {},
        }
    }
}

/// What one worker that owns every row leaves in its buffer: each pair's
/// force, exchanged in the order of the rows.
pub open spec fn swept<V: Add<V, Output = V> + Sub<V, Output = V>, E>(
    zero: V,
    hits: Seq<Seq<Option<(V, E)>>>,
    rows: nat,
) -> Seq<V> {
    share_forces(fresh(zero, hits.len()), hits, 0, 1, rows)
}

/// The buffers of the busy workers after the rows below `rows`.
spec fn shares_so_far<V: Add<V, Output = V> + Sub<V, Output = V>, E>(
    zero: V,
    hits: Seq<Seq<Option<(V, E)>>>,
    workers: int,
    rows: nat,
) -> Seq<Option<Seq<V>>> {
    Seq::new(
        busy(workers, hits.len() as int) as nat,
        |w: int| Some(share_forces(fresh(zero, hits.len()), hits, w, workers, rows)),
    )
}

/// Buffers that hold `zero` in every slot sum to such a buffer.
proof fn lemma_reduced_of_fresh<V: Add<V, Output = V>>(zero: V, n: nat, slots: Seq<Option<Seq<V>>>)
    requires
        monoid(zero),
        slots.len() > 0,
        forall|w: int| 0 <= w < slots.len() ==> #[trigger] slots[w] == Some(fresh(zero, n)),
    ensures
        reduced(slots) == Some(fresh(zero, n)),
    decreases slots.len(),
{
    if slots.len() > 1 {
        lemma_reduced_of_fresh(zero, n, slots.drop_last());
        lemma_neutral(zero, zero);
        assert(zip_sum(fresh(zero, n), fresh(zero, n)) =~= fresh(zero, n));
    } else {
        assert(reduced(slots.drop_last()) is None);
    }
}

/// After any number of rows, the buffers of the workers sum to what a single
/// worker would hold.
proof fn lemma_shares_sum_to_sweep<V: Add<V, Output = V> + Sub<V, Output = V>, E>(
    zero: V,
    hits: Seq<Seq<Option<(V, E)>>>,
    workers: int,
    rows: nat,
)
    requires
        group(zero),
        workers >= 1,
        rows <= hits.len(),
        hits.len() > 0,
    ensures
        reduced(shares_so_far(zero, hits, workers, rows)) == Some(swept(zero, hits, rows)),
    decreases rows,
{
    let n = hits.len();
    let now = shares_so_far(zero, hits, workers, rows);
    lemma_group_is_monoid(zero);
    if rows == 0 {
        lemma_reduced_of_fresh(zero, n, now);
    } else {
        let row = rows - 1;
        let owner = row % workers;
        let before = shares_so_far(zero, hits, workers, row as nat);
        lemma_shares_sum_to_sweep(zero, hits, workers, row as nat);
        vstd::arithmetic::div_mod::lemma_mod_decreases(row as nat, workers as nat);
        assert(0 <= owner < before.len());
        assert(uniform(before, n)) by {
            assert forall|w: int| 0 <= w < before.len() implies (#[trigger] before[w]) is Some
                && before[w]->0.len() == n by {
                lemma_share_keeps_len(fresh(zero, n), hits, w, workers, row as nat);
            }
        }
        assert(now =~= before.update(
            owner,
            Some(row_forces(before[owner]->0, row, hits[row], row as nat)),
        )) by {
            assert forall|w: int| 0 <= w < now.len() implies #[trigger] now[w] == before.update(
                owner,
                Some(row_forces(before[owner]->0, row, hits[row], row as nat)),
            )[w] by {
                assert(owns(w, workers, row) <==> w == owner);
            }
        }
        lemma_reduced_of_row(zero, before, n, owner, row, hits[row], row as nat);
        assert(owns(0, 1, row));
    }
}

/// With exact arithmetic the forces do not depend on the number of workers:
/// they are what a single worker finds that sweeps all rows.
pub proof fn lemma_forces_are_swept<V: Add<V, Output = V> + Sub<V, Output = V>, E>(
    zero: V,
    hits: Seq<Seq<Option<(V, E)>>>,
    workers: int,
)
    requires
        group(zero),
        workers >= 1,
        hits.len() > 0,
    ensures
        net_forces(zero, hits, workers) == swept(zero, hits, hits.len()),
{
    lemma_shares_sum_to_sweep(zero, hits, workers, hits.len());
    assert(shares(zero, hits, workers) =~= shares_so_far(zero, hits, workers, hits.len()));
}

/// Reduction order independence: with exact arithmetic, any two numbers of
/// workers give the same forces.
pub proof fn lemma_forces_independent_of_workers<V: Add<V, Output = V> + Sub<V, Output = V>, E>(
    zero: V,
    hits: Seq<Seq<Option<(V, E)>>>,
    one: int,
    other: int,
)
    requires
        group(zero),
        one >= 1,
        other >= 1,
        hits.len() > 0,
    ensures
        net_forces(zero, hits, one) == net_forces(zero, hits, other),
{
    lemma_forces_are_swept(zero, hits, one);
    lemma_forces_are_swept(zero, hits, other);
}

/// The running energy of one worker that owns every row: each pair's energy,
/// added in the order of the rows.
pub open spec fn swept_energy<V, E: Add<E, Output = E>>(
    energy: E,
    hits: Seq<Seq<Option<(V, E)>>>,
    rows: nat,
) -> E {
    share_energy(energy, hits, 0, 1, rows)
}

/// `energy` plus the terms, added in order.
pub open spec fn total<E: Add<E, Output = E>>(energy: E, terms: Seq<E>) -> E
    decreases terms.len(),
{
    if terms.len() == 0 {
        energy
    } else {
        total(energy, terms.drop_last()).add_spec(terms.last())
    }
}

/// The running energies of the first `done` workers after the rows below `rows`.
spec fn energies_so_far<V, E: Add<E, Output = E>>(
    energy: E,
    hits: Seq<Seq<Option<(V, E)>>>,
    workers: int,
    done: nat,
    rows: nat,
) -> Seq<E> {
    Seq::new(done, |w: int| share_energy(energy, hits, w, workers, rows))
}

/// The potential energy is the total of the workers' running energies.
proof fn lemma_net_energy_is_total<V, E: Add<E, Output = E>>(
    energy: E,
    hits: Seq<Seq<Option<(V, E)>>>,
    workers: int,
    done: nat,
)
    ensures
        net_energy(energy, hits, workers, done) == total(
            energy,
            energies_so_far(energy, hits, workers, done, hits.len()),
        ),
    decreases done,
{
    if done > 0 {
        lemma_net_energy_is_total(energy, hits, workers, (done - 1) as nat);
        assert(energies_so_far(energy, hits, workers, done, hits.len()).drop_last()
            =~= energies_so_far(energy, hits, workers, (done - 1) as nat, hits.len()));
    }
}

/// Terms that all are `zero` leave the total at `zero`.
proof fn lemma_total_of_fresh<E: Add<E, Output = E>>(zero: E, terms: Seq<E>)
    requires
        monoid(zero),
        forall|w: int| 0 <= w < terms.len() ==> #[trigger] terms[w] == zero,
    ensures
        total(zero, terms) == zero,
    decreases terms.len(),
{
    if terms.len() > 0 {
        lemma_total_of_fresh(zero, terms.drop_last());
        lemma_neutral(zero, zero);
    }
}

/// An energy added to one term is added to the total.
proof fn lemma_total_of_gain<E: Add<E, Output = E>>(zero: E, terms: Seq<E>, o: int, e: E)
    requires
        monoid(zero),
        0 <= o < terms.len(),
    ensures
        total(zero, terms.update(o, terms[o].add_spec(e))) == total(zero, terms).add_spec(e),
    decreases terms.len(),
{
    let changed = terms.update(o, terms[o].add_spec(e));
    let head = terms.drop_last();
    if o == terms.len() - 1 {
        assert(changed.drop_last() =~= head);
        lemma_associates(zero, total(zero, head), terms[o], e);
    } else {
        assert(changed.drop_last() =~= head.update(o, head[o].add_spec(e)));
        lemma_total_of_gain(zero, head, o, e);
        lemma_gain_left(zero, total(zero, head), terms.last(), e);
    }
}

/// The energies of a row added to one term are added to the total.
proof fn lemma_total_of_row<V, E: Add<E, Output = E>>(
    zero: E,
    terms: Seq<E>,
    o: int,
    row: Seq<Option<(V, E)>>,
    pairs: nat,
)
    requires
        monoid(zero),
        0 <= o < terms.len(),
    ensures
        total(zero, terms.update(o, row_energy(terms[o], row, pairs))) == row_energy(
            total(zero, terms),
            row,
            pairs,
        ),
    decreases pairs,
{
    if pairs == 0 {
        assert(terms.update(o, terms[o]) =~= terms);
    } else {
        let before = (pairs - 1) as nat;
        let earlier = terms.update(o, row_energy(terms[o], row, before));
        lemma_total_of_row(zero, terms, o, row, before);
        match row[pairs - 1] {
            Some((_, e)) => {
                lemma_total_of_gain(zero, earlier, o, e);
                assert(earlier.update(o, earlier[o].add_spec(e)) =~= terms.update(
                    o,
                    row_energy(terms[o], row, pairs),
                ));
            },
            None => {},
        }
    }
}

/// After any number of rows, the running energies of the workers add up to
/// what a single worker would hold.
proof fn lemma_energies_sum_to_sweep<V, E: Add<E, Output = E>>(
    zero: E,
    hits: Seq<Seq<Option<(V, E)>>>,
    workers: int,
    rows: nat,
)
    requires
        monoid(zero),
        workers >= 1,
        rows <= hits.len(),
    ensures
        total(
            zero,
            energies_so_far(zero, hits, workers, busy(workers, hits.len() as int) as nat, rows),
        ) == swept_energy(zero, hits, rows),
    decreases rows,
{
    let done = busy(workers, hits.len() as int) as nat;
    let now = energies_so_far(zero, hits, workers, done, rows);
    if rows == 0 {
        lemma_total_of_fresh(zero, now);
    } else {
        let row = rows - 1;
        let owner = row % workers;
        let before = energies_so_far(zero, hits, workers, done, row as nat);
        lemma_energies_sum_to_sweep(zero, hits, workers, row as nat);
        vstd::arithmetic::div_mod::lemma_mod_decreases(row as nat, workers as nat);
        assert(0 <= owner < before.len());
        assert(now =~= before.update(owner, row_energy(before[owner], hits[row], row as nat))) by {
            assert forall|w: int| 0 <= w < now.len() implies #[trigger] now[w] == before.update(
                owner,
                row_energy(before[owner], hits[row], row as nat),
            )[w] by {
                assert(owns(w, workers, row) <==> w == owner);
            }
        }
        lemma_total_of_row(zero, before, owner, hits[row], row as nat);
        assert(owns(0, 1, row));
    }
}

/// With exact arithmetic the potential energy does not depend on the number of
/// workers: it is what a single worker finds that sweeps all rows.
pub proof fn lemma_energy_is_swept<V, E: Add<E, Output = E>>(
    zero: E,
    hits: Seq<Seq<Option<(V, E)>>>,
    workers: int,
)
    requires
        monoid(zero),
        workers >= 1,
    ensures
        net_energy(zero, hits, workers, busy(workers, hits.len() as int) as nat) == swept_energy(
            zero,
            hits,
            hits.len(),
        ),
{
    lemma_net_energy_is_total(zero, hits, workers, busy(workers, hits.len() as int) as nat);
    lemma_energies_sum_to_sweep(zero, hits, workers, hits.len());
}

/// Reduction order independence: with exact arithmetic, any two numbers of
/// workers give the same potential energy.
pub proof fn lemma_energy_independent_of_workers<V, E: Add<E, Output = E>>(
    zero: E,
    hits: Seq<Seq<Option<(V, E)>>>,
    one: int,
    other: int,
)
    requires
        monoid(zero),
        one >= 1,
        other >= 1,
    ensures
        net_energy(zero, hits, one, busy(one, hits.len() as int) as nat) == net_energy(
            zero,
            hits,
            other,
            busy(other, hits.len() as int) as nat,
        ),
{
    lemma_energy_is_swept(zero, hits, one);
    lemma_energy_is_swept(zero, hits, other);
}

/// A force taken from one term is taken from the total.
proof fn lemma_total_of_loss<V: Add<V, Output = V> + Sub<V, Output = V>>(
    zero: V,
    terms: Seq<V>,
    o: int,
    f: V,
)
    requires
        group(zero),
        0 <= o < terms.len(),
    ensures
        total(zero, terms.update(o, terms[o].sub_spec(f))) == total(zero, terms).sub_spec(f),
    decreases terms.len(),
{
    let changed = terms.update(o, terms[o].sub_spec(f));
    let head = terms.drop_last();
    if o == terms.len() - 1 {
        assert(changed.drop_last() =~= head);
        lemma_loss_right(zero, total(zero, head), terms[o], f);
    } else {
        assert(changed.drop_last() =~= head.update(o, head[o].sub_spec(f)));
        lemma_total_of_loss(zero, head, o, f);
        lemma_loss_left(zero, total(zero, head), terms.last(), f);
    }
}

/// A force that one particle loses and another gains leaves the total of the
/// forces as it was.
proof fn lemma_total_of_applied<V: Add<V, Output = V> + Sub<V, Output = V>>(
    zero: V,
    buffer: Seq<V>,
    i: int,
    j: int,
    f: V,
)
    requires
        group(zero),
        0 <= i < buffer.len(),
        0 <= j < buffer.len(),
        i != j,
    ensures
        total(zero, pair_applied(buffer, i, j, f)) == total(zero, buffer),
{
    lemma_group_is_monoid(zero);
    let taken = buffer.update(i, buffer[i].sub_spec(f));
    lemma_total_of_loss(zero, buffer, i, f);
    lemma_total_of_gain(zero, taken, j, f);
    lemma_undo(zero, total(zero, buffer), f);
    assert(pair_applied(buffer, i, j, f) =~= taken.update(j, taken[j].add_spec(f)));
}

/// The pairs of a row leave the total of the forces as it was.
proof fn lemma_total_of_row_forces<V: Add<V, Output = V> + Sub<V, Output = V>, E>(
    zero: V,
    buffer: Seq<V>,
    i: int,
    row: Seq<Option<(V, E)>>,
    pairs: nat,
)
    requires
        group(zero),
        pairs <= i < buffer.len(),
    ensures
        total(zero, row_forces(buffer, i, row, pairs)) == total(zero, buffer),
    decreases pairs,
{
    if pairs > 0 {
        let before = (pairs - 1) as nat;
        lemma_total_of_row_forces(zero, buffer, i, row, before);
        lemma_row_keeps_len(buffer, i, row, before);
        match row[pairs - 1] {
            Some((f, _)) => {
                lemma_total_of_applied(zero, row_forces(buffer, i, row, before), i, pairs - 1, f);
            },
            None => {},
        }
    }
}

/// The rows of a worker leave the total of the forces as it was.
proof fn lemma_total_of_share<V: Add<V, Output = V> + Sub<V, Output = V>, E>(
    zero: V,
    buffer: Seq<V>,
    hits: Seq<Seq<Option<(V, E)>>>,
    worker: int,
    workers: int,
    rows: nat,
)
    requires
        group(zero),
        rows <= buffer.len(),
    ensures
        total(zero, share_forces(buffer, hits, worker, workers, rows)) == total(zero, buffer),
    decreases rows,
{
    if rows > 0 {
        let before = share_forces(buffer, hits, worker, workers, (rows - 1) as nat);
        lemma_total_of_share(zero, buffer, hits, worker, workers, (rows - 1) as nat);
        lemma_share_keeps_len(buffer, hits, worker, workers, (rows - 1) as nat);
        lemma_total_of_row_forces(zero, before, rows - 1, hits[rows - 1], (rows - 1) as nat);
    }
}

/// Newton's third law: with exact arithmetic, the forces on all particles add
/// up to zero, whatever the pairs exchange and however many workers there are.
pub proof fn lemma_forces_cancel<V: Add<V, Output = V> + Sub<V, Output = V>, E>(
    zero: V,
    hits: Seq<Seq<Option<(V, E)>>>,
    workers: int,
)
    requires
        group(zero),
        workers >= 1,
        hits.len() > 0,
    ensures
        net_forces(zero, hits, workers).len() == hits.len(),
        total(zero, net_forces(zero, hits, workers)) == zero,
{
    lemma_group_is_monoid(zero);
    lemma_forces_are_swept(zero, hits, workers);
    lemma_share_keeps_len(fresh(zero, hits.len()), hits, 0, 1, hits.len());
    lemma_total_of_share(zero, fresh(zero, hits.len()), hits, 0, 1, hits.len());
    lemma_total_of_fresh(zero, fresh(zero, hits.len()));
}

/// Newton's third law for two particles: with exact arithmetic, the force on
/// the one is the opposite of the force on the other.
pub proof fn lemma_two_forces_are_opposite<V: Add<V, Output = V> + Sub<V, Output = V>, E>(
    zero: V,
    hits: Seq<Seq<Option<(V, E)>>>,
    workers: int,
)
    requires
        group(zero),
        workers >= 1,
        hits.len() == 2,
    ensures
        net_forces(zero, hits, workers).len() == 2,
        net_forces(zero, hits, workers)[0].add_spec(net_forces(zero, hits, workers)[1]) == zero,
        net_forces(zero, hits, workers)[0] == zero.sub_spec(net_forces(zero, hits, workers)[1]),
{
    let net = net_forces(zero, hits, workers);
    lemma_group_is_monoid(zero);
    lemma_forces_cancel(zero, hits, workers);
    assert(net.drop_last().len() == 1);
    assert(net.drop_last().drop_last().len() == 0);
    assert(total(zero, net.drop_last().drop_last()) == zero);
    assert(total(zero, net.drop_last()) == zero.add_spec(net[0]));
    assert(total(zero, net) == zero.add_spec(net[0]).add_spec(net[1]));
    lemma_neutral(zero, net[0]);
    lemma_undo(zero, net[0], net[1]);
}

/// Cutoff exclusion: with exact arithmetic, where no pair has an answer every
/// force is zero and so is the potential energy.
pub proof fn lemma_no_pair_no_force<
    V: Add<V, Output = V> + Sub<V, Output = V>,
    E: Add<E, Output = E>,
>(zero: V, no_energy: E, hits: Seq<Seq<Option<(V, E)>>>, workers: int)
    requires
        group(zero),
        monoid(no_energy),
        workers >= 1,
        hits.len() > 0,
        silent(hits, 0, 1, hits.len()),
    ensures
        net_forces(zero, hits, workers) == fresh(zero, hits.len()),
        net_energy(no_energy, hits, workers, busy(workers, hits.len() as int) as nat) == no_energy,
{
    lemma_forces_are_swept(zero, hits, workers);
    lemma_energy_is_swept(no_energy, hits, workers);
    lemma_silent_rows_add_nothing(fresh(zero, hits.len()), no_energy, hits, 0, 1, hits.len());
}

/// A zero force changes no buffer.
proof fn lemma_zero_force<V: Add<V, Output = V> + Sub<V, Output = V>>(
    zero: V,
    buffer: Seq<V>,
    i: int,
    j: int,
)
    requires
        group(zero),
        0 <= i < buffer.len(),
        0 <= j < buffer.len(),
    ensures
        pair_applied(buffer, i, j, zero) == buffer,
{
    lemma_group_is_monoid(zero);
    lemma_neutral(zero, buffer[i]);
    lemma_neutral(zero, buffer[j]);
    lemma_undo(zero, buffer[i], zero);
    assert(pair_applied(buffer, i, j, zero) =~= buffer);
}

/// In a row, a pair without an answer counts as a pair of zero force and zero
/// energy.
proof fn lemma_row_with_zero_pair<
    V: Add<V, Output = V> + Sub<V, Output = V>,
    E: Add<E, Output = E>,
>(
    zero: V,
    no_energy: E,
    buffer: Seq<V>,
    energy: E,
    i: int,
    row: Seq<Option<(V, E)>>,
    j: int,
    pairs: nat,
)
    requires
        group(zero),
        monoid(no_energy),
        0 <= j < row.len(),
        row[j] is None,
        pairs <= row.len(),
        pairs <= i < buffer.len(),
    ensures
        row_forces(buffer, i, row.update(j, Some((zero, no_energy))), pairs) == row_forces(
            buffer,
            i,
            row,
            pairs,
        ),
        row_energy(energy, row.update(j, Some((zero, no_energy))), pairs) == row_energy(
            energy,
            row,
            pairs,
        ),
    decreases pairs,
{
    if pairs > 0 {
        let before = (pairs - 1) as nat;
        lemma_row_with_zero_pair(zero, no_energy, buffer, energy, i, row, j, before);
        if pairs - 1 == j {
            lemma_row_keeps_len(buffer, i, row, before);
            lemma_zero_force(zero, row_forces(buffer, i, row, before), i, j);
            lemma_neutral(no_energy, row_energy(energy, row, before));
        }
    }
}

/// The table in which the pair `(i, j)` exchanges a zero force and adds a zero
/// energy.
pub open spec fn with_zero_pair<V, E>(
    zero: V,
    no_energy: E,
    hits: Seq<Seq<Option<(V, E)>>>,
    i: int,
    j: int,
) -> Seq<Seq<Option<(V, E)>>> {
    hits.update(i, hits[i].update(j, Some((zero, no_energy))))
}

/// For a worker, a pair without an answer counts as a pair of zero force and
/// zero energy.
proof fn lemma_share_with_zero_pair<
    V: Add<V, Output = V> + Sub<V, Output = V>,
    E: Add<E, Output = E>,
>(
    zero: V,
    no_energy: E,
    buffer: Seq<V>,
    energy: E,
    hits: Seq<Seq<Option<(V, E)>>>,
    i: int,
    j: int,
    worker: int,
    workers: int,
    rows: nat,
)
    requires
        group(zero),
        monoid(no_energy),
        0 <= j < i < hits.len(),
        hits[i].len() == i,
        hits[i][j] is None,
        rows <= hits.len(),
        rows <= buffer.len(),
    ensures
        share_forces(buffer, with_zero_pair(zero, no_energy, hits, i, j), worker, workers, rows)
            == share_forces(buffer, hits, worker, workers, rows),
        share_energy(energy, with_zero_pair(zero, no_energy, hits, i, j), worker, workers, rows)
            == share_energy(energy, hits, worker, workers, rows),
    decreases rows,
{
    if rows > 0 {
        let row = rows - 1;
        lemma_share_with_zero_pair(
            zero,
            no_energy,
            buffer,
            energy,
            hits,
            i,
            j,
            worker,
            workers,
            row as nat,
        );
        if row == i {
            lemma_share_keeps_len(buffer, hits, worker, workers, row as nat);
            lemma_row_with_zero_pair(
                zero,
                no_energy,
                share_forces(buffer, hits, worker, workers, row as nat),
                share_energy(energy, hits, worker, workers, row as nat),
                i,
                hits[i],
                j,
                row as nat,
            );
        }
    }
}

/// Cutoff exclusion: with exact arithmetic, a pair without an answer counts
/// exactly as a pair that exchanges a zero force and adds a zero energy.
pub proof fn lemma_excluded_pair_counts_as_zero<
    V: Add<V, Output = V> + Sub<V, Output = V>,
    E: Add<E, Output = E>,
>(zero: V, no_energy: E, hits: Seq<Seq<Option<(V, E)>>>, i: int, j: int, workers: int)
    requires
        group(zero),
        monoid(no_energy),
        workers >= 1,
        0 <= j < i < hits.len(),
        hits[i].len() == i,
        hits[i][j] is None,
    ensures
        net_forces(zero, with_zero_pair(zero, no_energy, hits, i, j), workers) == net_forces(
            zero,
            hits,
            workers,
        ),
        net_energy(
            no_energy,
            with_zero_pair(zero, no_energy, hits, i, j),
            workers,
            busy(workers, hits.len() as int) as nat,
        ) == net_energy(no_energy, hits, workers, busy(workers, hits.len() as int) as nat),
{
    let other = with_zero_pair(zero, no_energy, hits, i, j);
    let n = hits.len();
    assert(shares(zero, other, workers) =~= shares(zero, hits, workers)) by {
        assert forall|w: int| 0 <= w < busy(workers, n as int) implies share_forces(
            fresh(zero, n),
            other,
            w,
            workers,
            n,
        ) == share_forces(fresh(zero, n), hits, w, workers, n) by {
            lemma_share_with_zero_pair(
                zero,
                no_energy,
                fresh(zero, n),
                no_energy,
                hits,
                i,
                j,
                w,
                workers,
                n,
            );
        }
    }
    lemma_net_energy_is_total(no_energy, hits, workers, busy(workers, n as int) as nat);
    lemma_net_energy_is_total(no_energy, other, workers, busy(workers, n as int) as nat);
    assert(energies_so_far(no_energy, other, workers, busy(workers, n as int) as nat, n)
        =~= energies_so_far(no_energy, hits, workers, busy(workers, n as int) as nat, n)) by {
        assert forall|w: int| 0 <= w < busy(workers, n as int) implies share_energy(
            no_energy,
            other,
            w,
            workers,
            n,
        ) == share_energy(no_energy, hits, w, workers, n) by {
            lemma_share_with_zero_pair(
                zero,
                no_energy,
                fresh(zero, n),
                no_energy,
                hits,
                i,
                j,
                w,
                workers,
                n,
            );
        }
    }
}

} // verus!
