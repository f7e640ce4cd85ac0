//! The force accumulator of a data-parallel pair loop: each worker writes
//! into a buffer of its own, and the buffers are summed when all are done.

use std::ops::Add;
use vstd::prelude::*;
use vstd::std_specs::iter::IteratorSpec;
use vstd::std_specs::ops::AddSpec;

use crate::utility::add_arrays::add_vecs_into;
use crate::utility::add_arrays::addable;
use crate::utility::add_arrays::sums_of;
use crate::utility::add_arrays::take_next;
use crate::utility::add_arrays::total_add;
use crate::utility::add_arrays::zip_len;
use crate::utility::add_arrays::zip_sum;

verus! {

/// A buffer as a worker first sees it: `n` copies of `init`.
pub open spec fn fresh<T>(init: T, n: nat) -> Seq<T> {
    Seq::new(n, |i: int| init)
}

/// The slots after making room for `worker`: unchanged where the worker
/// already has a slot, else padded with empty slots up to and including it.
pub open spec fn grown<T>(slots: Seq<Option<Seq<T>>>, worker: int) -> Seq<Option<Seq<T>>> {
    if worker < slots.len() {
        slots
    } else {
        slots + Seq::new((worker + 1 - slots.len()) as nat, |k: int| None::<Seq<T>>)
    }
}

/// The buffer that `worker` works on: its own where it has one, else a fresh one.
pub open spec fn local<T>(slots: Seq<Option<Seq<T>>>, worker: int, init: T, n: nat) -> Seq<T> {
    if worker < slots.len() && slots[worker] is Some {
        slots[worker]->0
    } else {
        fresh(init, n)
    }
}

/// The sum so far with one more slot taken in: the element-wise sum of the
/// two where both hold a buffer, else the one that does.
pub open spec fn merged<T: Add<T, Output = T>>(
    sum: Option<Seq<T>>,
    slot: Option<Seq<T>>,
) -> Option<Seq<T>> {
    match (sum, slot) {
        (Some(sum), Some(buffer)) => Some(zip_sum(sum, buffer)),
        (Some(sum), None) => Some(sum),
        (None, slot) => slot,
    }
}

/// The element-wise sum of the buffers that exist, taken in the order of the
/// workers; `None` where no worker has a buffer.
pub open spec fn reduced<T: Add<T, Output = T>>(slots: Seq<Option<Seq<T>>>) -> Option<Seq<T>>
    decreases slots.len(),
{
    if slots.len() == 0 {
        None
    } else {
        merged(reduced(slots.drop_last()), slots.last())
    }
}

/// `sum` is what the buffers that exist add up to, element by element and in
/// the order of the workers, whatever `+` gives; `None` where no worker has a
/// buffer.
pub open spec fn summed<T: Add<T, Output = T>>(
    slots: Seq<Option<Seq<T>>>,
    sum: Option<Seq<T>>,
) -> bool
    decreases slots.len(),
{
    if slots.len() == 0 {
        sum is None
    } else {
        exists|before: Option<Seq<T>>|
            summed(slots.drop_last(), before) && #[trigger] joined(before, slots.last(), sum)
    }
}

/// `sum` is `before` with the buffer `last` added to it, if there is one.
pub open spec fn joined<T: Add<T, Output = T>>(
    before: Option<Seq<T>>,
    last: Option<Seq<T>>,
    sum: Option<Seq<T>>,
) -> bool {
    match (before, last) {
        (Some(a), Some(b)) => {
            &&& sum is Some
            &&& sum->0.len() == zip_len(a, b)
            &&& sums_of(sum->0, a, b)
        },
        (Some(a), None) => sum == before,
        (None, _) => sum == last,
    }
}

/// What a slot holds, as a sequence.
pub open spec fn shown<T>(slot: Option<Vec<T>>) -> Option<Seq<T>> {
    match slot {
        Some(buffer) => Some(buffer@),
        None => None,
    }
}

/// Every addition that the reduction of the slots makes is permitted.
pub open spec fn summable<T: Add<T, Output = T>>(slots: Seq<Option<Seq<T>>>) -> bool
    decreases slots.len(),
{
    slots.len() == 0 || {
        &&& summable(slots.drop_last())
        &&& match (reduced(slots.drop_last()), slots.last()) {
            (Some(sum), Some(buffer)) => addable(sum, buffer),
            _ => true,
        }
    }
}

/// One scratch vector per worker, created when the worker first asks for it,
/// and summed element-wise over all workers at the end. Workers are known by
/// their index; a slot is kept for every index up to the largest seen.
pub struct ThreadLocalVec<T> {
    inner: Vec<Option<Vec<T>>>,
    init: T,
    n: usize,
}

impl<T> View for ThreadLocalVec<T> {
    type V = Seq<Option<Seq<T>>>;

    /// One slot per worker index seen so far: the worker's buffer, or `None`
    /// where the worker has not asked for one.
    closed spec fn view(&self) -> Seq<Option<Seq<T>>> {
        Seq::new(self.inner@.len(), |w: int| shown(self.inner@[w]))
    }
}

impl<T> ThreadLocalVec<T> {
    /// The value that fresh buffers are filled with.
    pub closed spec fn init(&self) -> T {
        self.init
    }

    /// The length of fresh buffers.
    pub closed spec fn len(&self) -> nat {
        self.n as nat
    }
}

impl<T: Copy> ThreadLocalVec<T> {
    /// Constructs a new `ThreadLocalVec` in which no worker has a buffer yet.
    /// * `init` - value that the elements of each buffer start with
    /// * `n` - length of each buffer
    pub fn new(init: T, n: usize) -> (tls: Self)
        ensures
            tls@ == Seq::<Option<Seq<T>>>::empty(),
            tls.init() == init,
            tls.len() == n,
    {
        let tls = Self { inner: Vec::new(), init, n };
        assert(tls@ =~= Seq::<Option<Seq<T>>>::empty());
        tls
    }

    /// Mutably borrows the buffer of `worker`, creating it if necessary.
    pub fn borrow_mut(&mut self, worker: usize) -> (buffer: &mut Vec<T>)
        ensures
            buffer@ == local(old(self)@, worker as int, old(self).init(), old(self).len()),
            final(self)@ == grown(old(self)@, worker as int).update(
                worker as int,
                Some(final(buffer)@),
            ),
            final(self).init() == old(self).init(),
            final(self).len() == old(self).len(),
    {
        while self.inner.len() <= worker
            invariant
                self.init == old(self).init,
                self.n == old(self).n,
                old(self).inner@.len() <= self.inner@.len(),
                self.inner@.len() <= old(self).inner@.len() || self.inner@.len() <= worker + 1,
                forall|w: int| 0 <= w < old(self).inner@.len() ==> self.inner@[w] == old(self).inner@[w],
                forall|w: int| old(self).inner@.len() <= w < self.inner@.len() ==> self.inner@[w] is None,
            decreases worker + 1 - self.inner@.len(),
        {
            self.inner.push(None);
        }
        assert(self@ =~= grown(old(self)@, worker as int));
        if self.inner[worker].is_none() {
            let mut buffer: Vec<T> = Vec::new();
            let mut k: usize = 0;
            while k < self.n
                invariant
                    k <= self.n,
                    buffer@ == fresh(self.init, k as nat),
                decreases self.n - k,
            {
                buffer.push(self.init);
                k += 1;
                assert(buffer@ =~= fresh(self.init, k as nat));
            }
            self.inner[worker] = Some(buffer);
        }
        let ghost before = self@;
        assert(before =~= grown(old(self)@, worker as int).update(
            worker as int,
            Some(local(old(self)@, worker as int, old(self).init(), old(self).len())),
        ));
        match &mut self.inner[worker] {
            Some(buffer) => buffer,
            None => vstd::pervasive::unreached(),
        }
    }
}

impl<T: Add<T, Output = T>> ThreadLocalVec<T> {
    /// Sums the buffers of all workers together element-wise, consuming the
    /// `ThreadLocalVec`. At least one worker must have borrowed a buffer.
    pub fn into_sum(self) -> (sum: Vec<T>)
        requires
            reduced(self@) is Some,
            total_add::<T>() || (T::obeys_add_spec() && summable(self@)),
        ensures
            summed(self@, Some(sum@)),
            sum@.len() == reduced(self@)->0.len(),
            T::obeys_add_spec() ==> sum@ == reduced(self@)->0,
    {
        let ghost slots = self@;
        let ghost held = self.inner@;
        let mut sum: Option<Vec<T>> = None;
        let mut rest = self.inner.into_iter();
        let ghost mut k: int = 0;
        loop
            invariant_except_break
                rest.remaining() == held.skip(k),
            invariant
                0 <= k <= held.len(),
                slots.len() == held.len(),
                forall|w: int| 0 <= w < held.len() ==> #[trigger] slots[w] == shown(held[w]),
                total_add::<T>() || (T::obeys_add_spec() && summable(slots)),
                summed(slots.take(k), shown(sum)),
                sum is Some <==> reduced(slots.take(k)) is Some,
                sum is Some ==> sum->0@.len() == reduced(slots.take(k))->0.len(),
                T::obeys_add_spec() && sum is Some ==> sum->0@ == reduced(slots.take(k))->0,
            ensures
                k == held.len(),
            decreases held.len() - k,
        {
            let ghost before = shown(sum);
            match take_next(&mut rest) {
                None => {
                    break ;
                },
                Some(slot) => {
                    proof {
                        assert(held.skip(k).drop_first() == held.skip(k + 1));
                        assert(slots.take(k + 1).drop_last() == slots.take(k));
                        assert(slots.take(k + 1).last() == slots[k]);
                        if T::obeys_add_spec() && summable(slots) {
                            lemma_summable_prefix(slots, k + 1);
                        }
                    }
                    sum = match (sum, slot) {
                        (Some(a), Some(b)) => Some(add_vecs_into(a, b)),
                        (Some(a), None) => Some(a),
                        (None, slot) => slot,
                    };
                    proof {
                        k = k + 1;
                        assert(summed(slots.take(k).drop_last(), before));
                        assert(joined(before, slots.take(k).last(), shown(sum)));
                    }
                },
            }
        }
        assert(slots.take(k) == slots);
        match sum {
            Some(sum) => sum,
            None => vstd::pervasive::unreached(),
        }
    }
}

/// The slots of a summable accumulator are summable up to any worker.
proof fn lemma_summable_prefix<T: Add<T, Output = T>>(slots: Seq<Option<Seq<T>>>, k: int)
    requires
        summable(slots),
        0 <= k <= slots.len(),
    ensures
        summable(slots.take(k)),
    decreases slots.len(),
{
    if k < slots.len() {
        lemma_summable_prefix(slots.drop_last(), k);
        assert(slots.drop_last().take(k) == slots.take(k));
    } else {
        assert(slots.take(k) == slots);
    }
}

} // verus!
