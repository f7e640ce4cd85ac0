//! Element-wise addition of vectors, slices and arrays, the per-worker
//! accumulator that is reduced with it, and points on a hypersphere.

pub mod add_arrays;
pub mod hypersphere;
pub mod order;
pub mod thread_local_array;

pub use add_arrays::add_arrays_into;
pub use add_arrays::add_vecs_into;
pub use hypersphere::hyperspherical_to_cartesian;
pub use thread_local_array::ThreadLocalVec;

use std::ops::Add;
use vstd::prelude::*;
use vstd::std_specs::ops::AddSpec;

use add_arrays::addable;
use add_arrays::sums_of;
use add_arrays::zip_len;
use add_arrays::zip_sum;

verus! {

/// Adds two slices element-wise.
///
/// The sum is as long as the shorter slice.
pub fn add_arrays<T: Copy + Add<T, Output = T>>(a: &[T], b: &[T]) -> (c: Vec<T>)
    requires
        addable(a@, b@),
    ensures
        c@.len() == zip_len(a@, b@),
        sums_of(c@, a@, b@),
        T::obeys_add_spec() ==> c@ == zip_sum(a@, b@),
{
    let mut c: Vec<T> = Vec::new();
    let mut i: usize = 0;
    while i < a.len() && i < b.len()
        invariant
            i <= zip_len(a@, b@),
            addable(a@, b@),
            c@.len() == i,
            sums_of(c@, a@, b@),
            T::obeys_add_spec() ==> c@ == zip_sum(a@, b@).take(i as int),
        decreases zip_len(a@, b@) - i,
    {
        c.push(a[i] + b[i]);
        i += 1;
        assert(T::obeys_add_spec() ==> c@ =~= zip_sum(a@, b@).take(i as int));
    }
    assert(T::obeys_add_spec() ==> c@ =~= zip_sum(a@, b@));
    c
}

} // verus!
