//! What the pair loop computes whatever `+` and `-` give: the buffers and
//! energies that a run can end with, as relations over the answers of the
//! pair law.

use std::ops::Add;
use std::ops::Sub;
use vstd::prelude::*;

use crate::forces::model::busy;
use crate::forces::model::owns;
use crate::utility::add_arrays::sums_of;
use crate::utility::thread_local_array::fresh;
use crate::utility::thread_local_array::joined;
use crate::utility::thread_local_array::summed;

verus! {

/// `after` is `before` once the pair `(i, j)` has exchanged the force `f`,
/// whatever `-` and `+` give: slot `i` holds a difference of its old value and
/// `f`, slot `j` a sum of its old value and `f`, every other slot stays.
pub open spec fn exchanged<V: Add<V, Output = V> + Sub<V, Output = V>>(
    before: Seq<V>,
    after: Seq<V>,
    i: int,
    j: int,
    f: V,
) -> bool {
    &&& after.len() == before.len()
    &&& forall|k: int| 0 <= k < before.len() && k != i && k != j ==> after[k] == before[k]
    &&& call_ensures(V::sub, (before[i], f), after[i])
    &&& call_ensures(V::add, (before[j], f), after[j])
}

/// `after` is `before` once the pair `(i, j)` has given the answer `hit`.
pub open spec fn answered<V: Add<V, Output = V> + Sub<V, Output = V>, E>(
    before: Seq<V>,
    after: Seq<V>,
    i: int,
    j: int,
    hit: Option<(V, E)>,
) -> bool {
    match hit {
        Some((f, _)) => exchanged(before, after, i, j, f),
        None => after == before,
    }
}

/// `after` is a buffer that the first `pairs` answers of the row of particle
/// `i` can leave of `before`, whatever `-` and `+` give.
pub open spec fn row_exchanged<V: Add<V, Output = V> + Sub<V, Output = V>, E>(
    before: Seq<V>,
    after: Seq<V>,
    i: int,
    row: Seq<Option<(V, E)>>,
    pairs: nat,
) -> bool
    decreases pairs,
{
    if pairs == 0 {
        after == before
    } else {
        exists|mid: Seq<V>|
            row_exchanged(before, mid, i, row, (pairs - 1) as nat) && #[trigger] answered(
                mid,
                after,
                i,
                pairs - 1,
                row[pairs - 1],
            )
    }
}

/// `after` is the running energy `before` once a pair has given the answer
/// `hit`: a sum of `before` and the pair's energy, or `before` itself.
pub open spec fn counted<V, E: Add<E, Output = E>>(before: E, after: E, hit: Option<(V, E)>) -> bool {
    match hit {
        Some((_, e)) => call_ensures(E::add, (before, e), after),
        None => after == before,
    }
}

/// `after` is a running energy that the first `pairs` answers of a row can
/// leave of `before`, whatever `+` gives.
pub open spec fn row_counted<V, E: Add<E, Output = E>>(
    before: E,
    after: E,
    row: Seq<Option<(V, E)>>,
    pairs: nat,
) -> bool
    decreases pairs,
{
    if pairs == 0 {
        after == before
    } else {
        exists|mid: E|
            row_counted(before, mid, row, (pairs - 1) as nat) && #[trigger] counted(
                mid,
                after,
                row[pairs - 1],
            )
    }
}

/// `after` is `before` once `worker` has passed the row `row`: with all the
/// pairs of the row exchanged where the row is its own, else as it was.
pub open spec fn row_passed<V: Add<V, Output = V> + Sub<V, Output = V>, E>(
    before: Seq<V>,
    after: Seq<V>,
    hits: Seq<Seq<Option<(V, E)>>>,
    worker: int,
    workers: int,
    row: int,
) -> bool {
    if owns(worker, workers, row) {
        row_exchanged(before, after, row, hits[row], row as nat)
    } else {
        after == before
    }
}

/// `after` is a buffer that `worker` can leave of `before` after the rows
/// below `rows`, whatever `-` and `+` give.
pub open spec fn share_exchanged<V: Add<V, Output = V> + Sub<V, Output = V>, E>(
    before: Seq<V>,
    after: Seq<V>,
    hits: Seq<Seq<Option<(V, E)>>>,
    worker: int,
    workers: int,
    rows: nat,
) -> bool
    decreases rows,
{
    if rows == 0 {
        after == before
    } else {
        exists|mid: Seq<V>|
            share_exchanged(before, mid, hits, worker, workers, (rows - 1) as nat)
                && #[trigger] row_passed(mid, after, hits, worker, workers, rows - 1)
    }
}

/// `after` is the running energy `before` once `worker` has passed the row
/// `row`.
pub open spec fn row_tallied<V, E: Add<E, Output = E>>(
    before: E,
    after: E,
    hits: Seq<Seq<Option<(V, E)>>>,
    worker: int,
    workers: int,
    row: int,
) -> bool {
    if owns(worker, workers, row) {
        row_counted(before, after, hits[row], row as nat)
    } else {
        after == before
    }
}

/// `after` is a running energy that `worker` can hold after the rows below
/// `rows`, having started at `before`, whatever `+` gives.
pub open spec fn share_counted<V, E: Add<E, Output = E>>(
    before: E,
    after: E,
    hits: Seq<Seq<Option<(V, E)>>>,
    worker: int,
    workers: int,
    rows: nat,
) -> bool
    decreases rows,
{
    if rows == 0 {
        after == before
    } else {
        exists|mid: E|
            share_counted(before, mid, hits, worker, workers, (rows - 1) as nat)
                && #[trigger] row_tallied(mid, after, hits, worker, workers, rows - 1)
    }
}

/// `found` is what the buffers of the busy workers add up to, whatever `-`
/// and `+` give: each buffer is one that its worker can leave of a buffer of
/// `zero`, and `found` is a sum of them, element by element and in the order
/// of the workers. Without particles nothing is found.
pub open spec fn forces_found<V: Add<V, Output = V> + Sub<V, Output = V>, E>(
    zero: V,
    hits: Seq<Seq<Option<(V, E)>>>,
    workers: int,
    found: Seq<V>,
) -> bool {
    if hits.len() == 0 {
        found.len() == 0
    } else {
        exists|buffers: Seq<Option<Seq<V>>>|
            {
                &&& buffers.len() == busy(workers, hits.len() as int)
                &&& forall|w: int|
                    0 <= w < buffers.len() ==> (#[trigger] buffers[w]) is Some && share_exchanged(
                        fresh(zero, hits.len()),
                        buffers[w]->0,
                        hits,
                        w,
                        workers,
                        hits.len(),
                    )
                &&& #[trigger] summed(buffers, Some(found))
            }
    }
}

/// `after` is a sum of `before` and `term`.
pub open spec fn added<E: Add<E, Output = E>>(before: E, term: E, after: E) -> bool {
    call_ensures(E::add, (before, term), after)
}

/// `result` is `energy` with the terms added to it in order, whatever `+`
/// gives.
pub open spec fn totalled<E: Add<E, Output = E>>(energy: E, terms: Seq<E>, result: E) -> bool
    decreases terms.len(),
{
    if terms.len() == 0 {
        result == energy
    } else {
        exists|mid: E|
            totalled(energy, terms.drop_last(), mid) && #[trigger] added(mid, terms.last(), result)
    }
}

/// `found` is what the running energies of the busy workers add up to,
/// whatever `+` gives: each is one that its worker can hold at the end,
/// having started at `energy`, and `found` is `energy` with all of them added
/// in the order of the workers.
pub open spec fn energy_found<V, E: Add<E, Output = E>>(
    energy: E,
    hits: Seq<Seq<Option<(V, E)>>>,
    workers: int,
    found: E,
) -> bool {
    exists|terms: Seq<E>|
        {
            &&& terms.len() == busy(workers, hits.len() as int)
            &&& forall|w: int|
                0 <= w < terms.len() ==> share_counted(
                    energy,
                    #[trigger] terms[w],
                    hits,
                    w,
                    workers,
                    hits.len(),
                )
            &&& #[trigger] totalled(energy, terms, found)
        }
}

/// What the first pairs of a row can leave depends on their answers, and on
/// no other.
pub(crate) proof fn lemma_row_relations_read_their_pairs<
    V: Add<V, Output = V> + Sub<V, Output = V>,
    E: Add<E, Output = E>,
>(
    buffer: Seq<V>,
    after: Seq<V>,
    energy: E,
    total: E,
    i: int,
    one: Seq<Option<(V, E)>>,
    other: Seq<Option<(V, E)>>,
    pairs: nat,
)
    requires
        forall|k: int| 0 <= k < pairs ==> one[k] == other[k],
    ensures
        row_exchanged(buffer, after, i, one, pairs) ==> row_exchanged(buffer, after, i, other, pairs),
        row_counted(energy, total, one, pairs) ==> row_counted(energy, total, other, pairs),
    decreases pairs,
{
    if pairs > 0 {
        let fewer = (pairs - 1) as nat;
        if row_exchanged(buffer, after, i, one, pairs) {
            let mid = choose|mid: Seq<V>|
                row_exchanged(buffer, mid, i, one, fewer) && #[trigger] answered(
                    mid,
                    after,
                    i,
                    pairs - 1,
                    one[pairs - 1],
                );
            lemma_row_relations_read_their_pairs(buffer, mid, energy, total, i, one, other, fewer);
            assert(answered(mid, after, i, pairs - 1, other[pairs - 1]));
        }
        if row_counted(energy, total, one, pairs) {
            let mid = choose|mid: E|
                row_counted(energy, mid, one, fewer) && #[trigger] counted(mid, total, one[pairs - 1]);
            lemma_row_relations_read_their_pairs(buffer, after, energy, mid, i, one, other, fewer);
            assert(counted(mid, total, other[pairs - 1]));
        }
    }
}

/// What a worker can leave depends on the rows that the worker owns, and on
/// no other.
pub(crate) proof fn lemma_share_relations_read_own_rows<
    V: Add<V, Output = V> + Sub<V, Output = V>,
    E: Add<E, Output = E>,
>(
    buffer: Seq<V>,
    after: Seq<V>,
    energy: E,
    total: E,
    one: Seq<Seq<Option<(V, E)>>>,
    other: Seq<Seq<Option<(V, E)>>>,
    worker: int,
    workers: int,
    rows: nat,
)
    requires
        rows <= one.len(),
        rows <= other.len(),
        forall|r: int| 0 <= r < rows && owns(worker, workers, r) ==> one[r] == other[r],
    ensures
        share_exchanged(buffer, after, one, worker, workers, rows) ==> share_exchanged(
            buffer,
            after,
            other,
            worker,
            workers,
            rows,
        ),
        share_counted(energy, total, one, worker, workers, rows) ==> share_counted(
            energy,
            total,
            other,
            worker,
            workers,
            rows,
        ),
    decreases rows,
{
    if rows > 0 {
        let fewer = (rows - 1) as nat;
        if share_exchanged(buffer, after, one, worker, workers, rows) {
            let mid = choose|mid: Seq<V>|
                share_exchanged(buffer, mid, one, worker, workers, fewer) && #[trigger] row_passed(
                    mid,
                    after,
                    one,
                    worker,
                    workers,
                    rows - 1,
                );
            lemma_share_relations_read_own_rows(
                buffer,
                mid,
                energy,
                total,
                one,
                other,
                worker,
                workers,
                fewer,
            );
            assert(row_passed(mid, after, other, worker, workers, rows - 1));
        }
        if share_counted(energy, total, one, worker, workers, rows) {
            let mid = choose|mid: E|
                share_counted(energy, mid, one, worker, workers, fewer) && #[trigger] row_tallied(
                    mid,
                    total,
                    one,
                    worker,
                    workers,
                    rows - 1,
                );
            lemma_share_relations_read_own_rows(
                buffer,
                after,
                energy,
                mid,
                one,
                other,
                worker,
                workers,
                fewer,
            );
            assert(row_tallied(mid, total, other, worker, workers, rows - 1));
        }
    }
}

/// Cutoff exclusion, whatever `+` and `-` give: a pair without an answer
/// changes nothing in what a row can leave, neither in the buffer nor in the
/// running energy.
pub proof fn lemma_excluded_pair_leaves_no_trace<
    V: Add<V, Output = V> + Sub<V, Output = V>,
    E: Add<E, Output = E>,
>(buffer: Seq<V>, after: Seq<V>, energy: E, total: E, i: int, row: Seq<Option<(V, E)>>, j: nat)
    requires
        row[j as int] is None,
    ensures
        row_exchanged(buffer, after, i, row, j + 1) <==> row_exchanged(buffer, after, i, row, j),
        row_counted(energy, total, row, j + 1) <==> row_counted(energy, total, row, j),
{
    // The witnesses are written as the definitions write them, with the
    // number of pairs less one.
    if row_exchanged(buffer, after, i, row, j) {
        assert(answered(after, after, i, j + 1 - 1, row[j + 1 - 1]));
    }
    if row_counted(energy, total, row, j) {
        assert(counted(total, total, row[j + 1 - 1]));
    }
}

/// The buffers that a worker can leave after its first two rows, the second
/// of which has a single pair: where the worker owns the second row, that
/// pair's force is exchanged, else the buffer is as it was.
proof fn lemma_two_rows<V: Add<V, Output = V> + Sub<V, Output = V>, E>(
    before: Seq<V>,
    after: Seq<V>,
    hits: Seq<Seq<Option<(V, E)>>>,
    worker: int,
    workers: int,
)
    requires
        share_exchanged(before, after, hits, worker, workers, 2),
    ensures
        if owns(worker, workers, 1) {
            answered(before, after, 1, 0, hits[1][0])
        } else {
            after == before
        },
{
    let first = choose|mid: Seq<V>|
        share_exchanged(before, mid, hits, worker, workers, 1) && #[trigger] row_passed(
            mid,
            after,
            hits,
            worker,
            workers,
            1,
        );
    let start = choose|mid: Seq<V>|
        share_exchanged(before, mid, hits, worker, workers, 0) && #[trigger] row_passed(
            mid,
            first,
            hits,
            worker,
            workers,
            0,
        );
    assert(start == before);
    assert(first == before);
    if owns(worker, workers, 1) {
        let opened = choose|mid: Seq<V>|
            row_exchanged(first, mid, 1, hits[1], 0) && #[trigger] answered(
                mid,
                after,
                1,
                0,
                hits[1][0],
            );
        assert(opened == first);
    }
}

/// What one pair leaves two particles with that started at `zero`: `gained`
/// is a sum of `zero` and the pair's force, `lost` a difference of `zero` and
/// that force; where the pair has no answer, both are `zero`.
pub open spec fn pair_outcome<V: Add<V, Output = V> + Sub<V, Output = V>, E>(
    zero: V,
    hit: Option<(V, E)>,
    gained: V,
    lost: V,
) -> bool {
    match hit {
        Some((f, _)) => call_ensures(V::add, (zero, f), gained) && call_ensures(
            V::sub,
            (zero, f),
            lost,
        ),
        None => gained == zero && lost == zero,
    }
}

/// Newton's third law and cutoff exclusion for two particles, whatever `+`
/// and `-` give. With one worker, the force on the first particle is a sum of
/// `zero` and the force `f` of the pair, and the force on the second is a
/// difference of `zero` and `f`; where the pair has no answer, both are
/// `zero`. With more workers, `zero` is added to each of these once more.
pub proof fn lemma_two_particles<V: Add<V, Output = V> + Sub<V, Output = V>, E>(
    zero: V,
    hits: Seq<Seq<Option<(V, E)>>>,
    workers: int,
    found: Seq<V>,
)
    requires
        workers >= 1,
        hits.len() == 2,
        forces_found(zero, hits, workers, found),
    ensures
        found.len() == 2,
        exists|gained: V, lost: V|
            {
                &&& #[trigger] pair_outcome(zero, hits[1][0], gained, lost)
                &&& if workers == 1 {
                    found[0] == gained && found[1] == lost
                } else {
                    call_ensures(V::add, (zero, gained), found[0]) && call_ensures(
                        V::add,
                        (zero, lost),
                        found[1],
                    )
                }
            },
{
    let start = fresh(zero, 2);
    let buffers = choose|buffers: Seq<Option<Seq<V>>>|
        {
            &&& buffers.len() == busy(workers, hits.len() as int)
            &&& forall|w: int|
                0 <= w < buffers.len() ==> (#[trigger] buffers[w]) is Some && share_exchanged(
                    fresh(zero, hits.len()),
                    buffers[w]->0,
                    hits,
                    w,
                    workers,
                    hits.len(),
                )
            &&& #[trigger] summed(buffers, Some(found))
        };
    let head = buffers.drop_last();
    let before = choose|before: Option<Seq<V>>|
        summed(head, before) && #[trigger] joined(before, buffers.last(), Some(found));
    if workers == 1 {
        assert(buffers[0] is Some);
        lemma_two_rows(start, buffers[0]->0, hits, 0, 1);
        assert(owns(0, 1, 1));
        assert(head.len() == 0);
        assert(before is None);
        assert(found == buffers[0]->0);
        assert(pair_outcome(zero, hits[1][0], found[0], found[1]));
    } else {
        assert(buffers[0] is Some && buffers[1] is Some);
        lemma_two_rows(start, buffers[0]->0, hits, 0, workers);
        lemma_two_rows(start, buffers[1]->0, hits, 1, workers);
        assert(owns(1, workers, 1) && !owns(0, workers, 1)) by {
            assert(1int % workers == 1) by (nonlinear_arith)
                requires
                    workers >= 2,
            ;
        }
        assert(head.len() == 1);
        let nothing = choose|nothing: Option<Seq<V>>|
            summed(head.drop_last(), nothing) && #[trigger] joined(
                nothing,
                head.last(),
                before,
            );
        assert(head.drop_last().len() == 0);
        assert(nothing is None);
        assert(before == buffers[0]);
        assert(sums_of(found, buffers[0]->0, buffers[1]->0));
        let gained = (buffers[1]->0)[0];
        let lost = (buffers[1]->0)[1];
        assert(call_ensures(V::add, (start[0], gained), found[0]));
        assert(call_ensures(V::add, (start[1], lost), found[1]));
        assert(pair_outcome(zero, hits[1][0], gained, lost));
    }
}

} // verus!
