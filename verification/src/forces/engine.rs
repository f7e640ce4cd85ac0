//! The pair loop: one worker's share of it, and the whole of it with the
//! workers' buffers summed.

use std::ops::Add;
use std::ops::Sub;
use vstd::prelude::*;
use vstd::std_specs::ops::AddSpec;

use crate::forces::agreement::lemma_energy_is_exact;
use crate::forces::agreement::lemma_forces_are_exact;
use crate::forces::agreement::lemma_share_energy_is_exact;
use crate::forces::agreement::lemma_share_forces_are_exact;
use crate::forces::model::busy;
use crate::forces::model::is_exact;
use crate::forces::model::lemma_reduced_len;
use crate::forces::model::net_energy;
use crate::forces::model::net_forces;
use crate::forces::model::owns;
use crate::forces::model::pair_applied;
use crate::forces::model::share_energy;
use crate::forces::model::share_forces;
use crate::forces::model::total_sub;
use crate::forces::outcome::added;
use crate::forces::outcome::answered;
use crate::forces::outcome::counted;
use crate::forces::outcome::energy_found;
use crate::forces::outcome::exchanged;
use crate::forces::outcome::forces_found;
use crate::forces::outcome::lemma_row_relations_read_their_pairs;
use crate::forces::outcome::lemma_share_relations_read_own_rows;
use crate::forces::outcome::row_counted;
use crate::forces::outcome::row_exchanged;
use crate::forces::outcome::row_passed;
use crate::forces::outcome::row_tallied;
use crate::forces::outcome::share_counted;
use crate::forces::outcome::share_exchanged;
use crate::forces::outcome::totalled;
use crate::types::Particle;
use crate::types::forces;
use crate::types::positions;
use crate::utility::add_arrays::total_add;
use crate::utility::thread_local_array::ThreadLocalVec;
use crate::utility::thread_local_array::fresh;
use crate::utility::thread_local_array::reduced;
use crate::utility::thread_local_array::summed;

verus! {

/// The pair law accepts every pair of a row of `worker`.
pub open spec fn answers<P, V, E, F: Fn(&P, &P) -> Option<(V, E)>>(
    pair: F,
    positions: Seq<P>,
    worker: int,
    workers: int,
) -> bool {
    forall|i: int, j: int|
        0 <= j < i < positions.len() && owns(worker, workers, i) ==> call_requires(
            pair,
            (&#[trigger] positions[i], &#[trigger] positions[j]),
        )
}

/// `hits` is a triangular table, row `i` holding one entry for each partner
/// `j < i`, and in the rows of `worker` each entry is an answer that the pair
/// law can give for the pair `(i, j)`.
pub open spec fn heard<P, V, E, F: Fn(&P, &P) -> Option<(V, E)>>(
    pair: F,
    positions: Seq<P>,
    hits: Seq<Seq<Option<(V, E)>>>,
    worker: int,
    workers: int,
) -> bool {
    &&& hits.len() == positions.len()
    &&& forall|i: int| 0 <= i < hits.len() ==> (#[trigger] hits[i]).len() == i
    &&& forall|i: int, j: int|
        0 <= j < i < hits.len() && owns(worker, workers, i) ==> call_ensures(
            pair,
            (&positions[i], &positions[j]),
            #[trigger] hits[i][j],
        )
}

/// The pair law accepts every pair of particles.
pub open spec fn accepts<P, V, E, F: Fn(&P, &P) -> Option<(V, E)>>(
    pair: F,
    positions: Seq<P>,
) -> bool {
    forall|i: int, j: int|
        0 <= j < i < positions.len() ==> call_requires(
            pair,
            (&#[trigger] positions[i], &#[trigger] positions[j]),
        )
}

/// `hits` is a triangular table, row `i` holding one entry for each partner
/// `j < i`, and each entry is an answer that the pair law can give for the
/// pair `(i, j)`.
pub open spec fn witnessed<P, V, E, F: Fn(&P, &P) -> Option<(V, E)>>(
    pair: F,
    positions: Seq<P>,
    hits: Seq<Seq<Option<(V, E)>>>,
) -> bool {
    &&& hits.len() == positions.len()
    &&& forall|i: int| 0 <= i < hits.len() ==> (#[trigger] hits[i]).len() == i
    &&& forall|i: int, j: int|
        0 <= j < i < hits.len() ==> call_ensures(
            pair,
            (&positions[i], &positions[j]),
            #[trigger] hits[i][j],
        )
}

/// Records the force `f` that particle `j` exerts on particle `i`, and its
/// reaction: `f` is taken from slot `i` and added to slot `j`.
pub fn apply_pair_force<V: Copy + Add<V, Output = V> + Sub<V, Output = V>>(
    force: &mut Vec<V>,
    i: usize,
    j: usize,
    f: V,
)
    requires
        j < i < old(force)@.len(),
        call_requires(V::sub, (old(force)@[i as int], f)),
        call_requires(V::add, (old(force)@[j as int], f)),
    ensures
        exchanged(old(force)@, final(force)@, i as int, j as int, f),
        is_exact::<V>() ==> final(force)@ == pair_applied(old(force)@, i as int, j as int, f),
{
    force[i] = force[i] - f;
    force[j] = force[j] + f;
    assert(is_exact::<V>() ==> force@ =~= pair_applied(old(force)@, i as int, j as int, f));
}

/// One worker's share of the pair loop: for each of its rows `i` and each
/// partner `j < i`, asks the pair law for the interaction of the two
/// particles and, where there is one, records the force in `force` and adds
/// the energy to the running sum, which starts at `energy`.
pub fn accumulate_rows<P, V, E, F>(
    force: &mut Vec<V>,
    particles: &[Particle<P, V>],
    worker: usize,
    workers: usize,
    energy: E,
    pair: &F,
) -> (total: E) where
    V: Copy + Add<V, Output = V> + Sub<V, Output = V>,
    E: Add<E, Output = E>,
    F: Fn(&P, &P) -> Option<(V, E)>,
    requires
        worker < workers,
        old(force)@.len() == particles@.len(),
        answers(*pair, positions(particles@), worker as int, workers as int),
        total_add::<V>(),
        total_sub::<V>(),
        total_add::<E>(),
    ensures
        final(force)@.len() == old(force)@.len(),
        exists|hits: Seq<Seq<Option<(V, E)>>>|
            {
                &&& #[trigger] heard(
                    *pair,
                    positions(particles@),
                    hits,
                    worker as int,
                    workers as int,
                )
                &&& share_exchanged(
                    old(force)@,
                    final(force)@,
                    hits,
                    worker as int,
                    workers as int,
                    particles@.len(),
                )
                &&& share_counted(
                    energy,
                    total,
                    hits,
                    worker as int,
                    workers as int,
                    particles@.len(),
                )
                &&& is_exact::<V>() ==> final(force)@ == share_forces(
                    old(force)@,
                    hits,
                    worker as int,
                    workers as int,
                    particles@.len(),
                )
                &&& E::obeys_add_spec() ==> total == share_energy(
                    energy,
                    hits,
                    worker as int,
                    workers as int,
                    particles@.len(),
                )
            },
{
    let n = particles.len();
    let ghost places = positions(particles@);
    let ghost mut hits: Seq<Seq<Option<(V, E)>>> = Seq::new(
        n as nat,
        |i: int| Seq::new(i as nat, |j: int| None),
    );
    let mut total = energy;
    let mut i: usize = 0;
    while i < n
        invariant
            i <= n,
            n == particles@.len(),
            places == positions(particles@),
            worker < workers,
            force@.len() == n,
            answers(*pair, places, worker as int, workers as int),
            total_add::<V>(),
            total_sub::<V>(),
            total_add::<E>(),
            hits.len() == n,
            forall|r: int| 0 <= r < n ==> (#[trigger] hits[r]).len() == r,
            forall|r: int, j: int|
                0 <= j < r < i && owns(worker as int, workers as int, r) ==> call_ensures(
                    *pair,
                    (&places[r], &places[j]),
                    #[trigger] hits[r][j],
                ),
            share_exchanged(old(force)@, force@, hits, worker as int, workers as int, i as nat),
            share_counted(energy, total, hits, worker as int, workers as int, i as nat),
        decreases n - i,
    {
        let ghost buffer = force@;
        let ghost opening = total;
        if i % workers == worker {
            let ghost earlier = hits;
            let ghost mut row: Seq<Option<(V, E)>> = Seq::empty();
            let mut j: usize = 0;
            while j < i
                invariant
                    j <= i < n,
                    n == particles@.len(),
                    places == positions(particles@),
                    owns(worker as int, workers as int, i as int),
                    force@.len() == n,
                    answers(*pair, places, worker as int, workers as int),
                    total_add::<V>(),
                    total_sub::<V>(),
                    total_add::<E>(),
                    row.len() == j,
                    forall|k: int|
                        0 <= k < j ==> call_ensures(
                            *pair,
                            (&places[i as int], &places[k]),
                            #[trigger] row[k],
                        ),
                    row_exchanged(buffer, force@, i as int, row, j as nat),
                    row_counted(opening, total, row, j as nat),
                decreases i - j,
            {
                let ghost before = force@;
                let ghost sum = total;
                assert(particles@[i as int].position == places[i as int]);
                assert(particles@[j as int].position == places[j as int]);
                let hit = pair(&particles[i].position, &particles[j].position);
                proof {
                    lemma_row_relations_read_their_pairs(
                        buffer,
                        before,
                        opening,
                        sum,
                        i as int,
                        row,
                        row.push(hit),
                        j as nat,
                    );
                    row = row.push(hit);
                }
                match hit {
                    Some((f, e)) => {
                        apply_pair_force(force, i, j, f);
                        total = total + e;
                    },
                    None => {},
                }
                j += 1;
                assert(answered(before, force@, i as int, j - 1, row[j - 1]));
                assert(counted(sum, total, row[j - 1]));
            }
            proof {
                hits = hits.update(i as int, row);
                lemma_share_relations_read_own_rows(
                    old(force)@,
                    buffer,
                    energy,
                    opening,
                    earlier,
                    hits,
                    worker as int,
                    workers as int,
                    i as nat,
                );
            }
        }
        i += 1;
        assert(row_passed(buffer, force@, hits, worker as int, workers as int, i - 1));
        assert(row_tallied(opening, total, hits, worker as int, workers as int, i - 1));
    }
    proof {
        assert(heard(*pair, places, hits, worker as int, workers as int));
        if is_exact::<V>() {
            lemma_share_forces_are_exact(
                old(force)@,
                force@,
                hits,
                worker as int,
                workers as int,
                n as nat,
            );
        }
        if E::obeys_add_spec() {
            lemma_share_energy_is_exact(energy, total, hits, worker as int, workers as int, n as nat);
        }
    }
    total
}

/// Computes pair interactions: sets the force of each particle and returns
/// the total potential energy.
///
/// Every unordered pair `(i, j)`, `j < i`, is put to the pair law once. Row
/// `i` belongs to worker `i % workers`; each worker records the forces of its
/// rows in a buffer of its own, which starts at `zero`, and keeps a running
/// energy, which starts at `no_energy`. The buffers are then summed
/// element-wise and the energies added up.
/// * `particles` - slice of particles
/// * `workers` - number of workers that share the rows
/// * `pair` - the pair law: for the positions of `i` and `j`, `None` where the
///   two do not interact, else the force that `i` loses and `j` gains, and the
///   energy of the pair
pub fn compute_forces<P, V, E, F>(
    particles: &mut [Particle<P, V>],
    workers: usize,
    zero: V,
    no_energy: E,
    pair: &F,
) -> (potential: E) where
    V: Copy + Add<V, Output = V> + Sub<V, Output = V>,
    E: Copy + Add<E, Output = E>,
    F: Fn(&P, &P) -> Option<(V, E)>,
    requires
        workers > 0,
        accepts(*pair, positions(old(particles)@)),
        total_add::<V>(),
        total_sub::<V>(),
        total_add::<E>(),
    ensures
        final(particles)@.len() == old(particles)@.len(),
        forall|k: int|
            0 <= k < old(particles)@.len() ==> {
                &&& (#[trigger] final(particles)@[k]).old_position == old(particles)@[k].old_position
                &&& final(particles)@[k].position == old(particles)@[k].position
                &&& final(particles)@[k].velocity == old(particles)@[k].velocity
            },
        exists|hits: Seq<Seq<Option<(V, E)>>>|
            {
                &&& #[trigger] witnessed(*pair, positions(old(particles)@), hits)
                &&& forces_found(zero, hits, workers as int, forces(final(particles)@))
                &&& energy_found(no_energy, hits, workers as int, potential)
                &&& is_exact::<V>() ==> forces(final(particles)@) == net_forces(
                    zero,
                    hits,
                    workers as int,
                )
                &&& E::obeys_add_spec() ==> potential == net_energy(
                    no_energy,
                    hits,
                    workers as int,
                    busy(workers as int, hits.len() as int) as nat,
                )
            },
{
    let n = particles.len();
    let ghost places = positions(particles@);
    let ghost mut hits: Seq<Seq<Option<(V, E)>>> = Seq::new(
        n as nat,
        |i: int| Seq::new(i as nat, |j: int| None),
    );
    if n == 0 {
        proof {
            assert(witnessed(*pair, places, hits));
            assert(forces(particles@).len() == 0);
            assert(totalled(no_energy, Seq::<E>::empty(), no_energy));
            assert(energy_found(no_energy, hits, workers as int, no_energy));
            assert(is_exact::<V>() ==> forces(particles@) =~= net_forces(zero, hits, workers as int));
        }
        return no_energy;
    }
    // Thread-local force vectors, one per worker
    let mut tls: ThreadLocalVec<V> = ThreadLocalVec::new(zero, n);
    let mut potential = no_energy;
    let ghost mut terms: Seq<E> = Seq::empty();
    let mut worker: usize = 0;
    while worker < workers && worker < n
        invariant
            n == particles@.len(),
            particles@ == old(particles)@,
            places == positions(particles@),
            worker <= busy(workers as int, n as int),
            accepts(*pair, places),
            total_add::<V>(),
            total_sub::<V>(),
            total_add::<E>(),
            hits.len() == n,
            forall|i: int| 0 <= i < n ==> (#[trigger] hits[i]).len() == i,
            forall|i: int, j: int|
                0 <= j < i < n && i % (workers as int) < worker ==> call_ensures(
                    *pair,
                    (&places[i], &places[j]),
                    #[trigger] hits[i][j],
                ),
            tls@.len() == worker,
            tls.init() == zero,
            tls.len() == n,
            forall|w: int| 0 <= w < worker ==> (#[trigger] tls@[w]) is Some && tls@[w]->0.len() == n,
            forall|w: int|
                0 <= w < worker ==> share_exchanged(
                    fresh(zero, n as nat),
                    (#[trigger] tls@[w])->0,
                    hits,
                    w,
                    workers as int,
                    n as nat,
                ),
            terms.len() == worker,
            forall|w: int|
                0 <= w < worker ==> share_counted(
                    no_energy,
                    #[trigger] terms[w],
                    hits,
                    w,
                    workers as int,
                    n as nat,
                ),
            totalled(no_energy, terms, potential),
        decreases busy(workers as int, n as int) - worker,
    {
        let ghost earlier = hits;
        let force = tls.borrow_mut(worker);
        let energy = accumulate_rows(force, &*particles, worker, workers, no_energy, pair);
        let ghost filled = tls@[worker as int]->0;
        let ghost heard_now = choose|h: Seq<Seq<Option<(V, E)>>>|
            {
                &&& #[trigger] heard(*pair, places, h, worker as int, workers as int)
                &&& share_exchanged(
                    fresh(zero, n as nat),
                    filled,
                    h,
                    worker as int,
                    workers as int,
                    n as nat,
                )
                &&& share_counted(no_energy, energy, h, worker as int, workers as int, n as nat)
            };
        proof {
            hits = Seq::new(
                n as nat,
                |i: int|
                    if owns(worker as int, workers as int, i) {
                        heard_now[i]
                    } else {
                        earlier[i]
                    },
            );
            lemma_share_relations_read_own_rows(
                fresh(zero, n as nat),
                filled,
                no_energy,
                energy,
                heard_now,
                hits,
                worker as int,
                workers as int,
                n as nat,
            );
            assert forall|w: int| 0 <= w < worker implies share_exchanged(
                fresh(zero, n as nat),
                (#[trigger] tls@[w])->0,
                hits,
                w,
                workers as int,
                n as nat,
            ) by {
                lemma_share_relations_read_own_rows(
                    fresh(zero, n as nat),
                    tls@[w]->0,
                    no_energy,
                    terms[w],
                    earlier,
                    hits,
                    w,
                    workers as int,
                    n as nat,
                );
            }
        }
        let ghost tallied = potential;
        potential = potential + energy;
        proof {
            assert forall|w: int| 0 <= w <= worker implies share_counted(
                no_energy,
                #[trigger] terms.push(energy)[w],
                hits,
                w,
                workers as int,
                n as nat,
            ) by {
                if w < worker {
                    lemma_share_relations_read_own_rows(
                        fresh(zero, n as nat),
                        fresh(zero, n as nat),
                        no_energy,
                        terms[w],
                        earlier,
                        hits,
                        w,
                        workers as int,
                        n as nat,
                    );
                }
            }
            assert(terms.push(energy).drop_last() =~= terms);
            terms = terms.push(energy);
            assert(added(tallied, terms.last(), potential));
        }
        worker += 1;
    }
    proof {
        assert(worker == busy(workers as int, n as int));
        assert(reduced(tls@) is Some) by {
            assert(tls@.last() is Some);
        }
        lemma_reduced_len(tls@, n as nat);
        assert forall|i: int, j: int| 0 <= j < i < n implies call_ensures(
            *pair,
            (&places[i], &places[j]),
            #[trigger] hits[i][j],
        ) by {
            vstd::arithmetic::div_mod::lemma_mod_decreases(i as nat, workers as nat);
        }
        assert(witnessed(*pair, places, hits));
    }
    // Sum thread-local vectors element-wise
    let ghost tls_view = tls@;
    let sum = tls.into_sum();
    // Put forces in particle structs
    let mut k: usize = 0;
    while k < n
        invariant
            k <= n,
            n == particles@.len(),
            n == old(particles)@.len(),
            sum@.len() == n,
            forall|m: int|
                0 <= m < n ==> {
                    &&& (#[trigger] particles@[m]).old_position == old(particles)@[m].old_position
                    &&& particles@[m].position == old(particles)@[m].position
                    &&& particles@[m].velocity == old(particles)@[m].velocity
                },
            forall|m: int| 0 <= m < k ==> (#[trigger] particles@[m]).force == sum@[m],
        decreases n - k,
    {
        particles[k].force = sum[k];
        k += 1;
    }
    assert(forces(particles@) =~= sum@);
    assert(forces_found(zero, hits, workers as int, forces(particles@))) by {
        assert(summed(tls_view, Some(forces(particles@))));
    }
    assert(energy_found(no_energy, hits, workers as int, potential));
    proof {
        if is_exact::<V>() {
            lemma_forces_are_exact(zero, hits, workers as int, forces(particles@));
        }
        if E::obeys_add_spec() {
            lemma_energy_is_exact(no_energy, hits, workers as int, potential);
        }
    }
    potential
}

} // verus!
