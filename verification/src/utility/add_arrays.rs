//! Element-wise sums of two vectors or two arrays.

use arrayvec::ArrayVec;
use std::ops::Add;
use vstd::prelude::*;
use vstd::std_specs::iter::IteratorSpec;
use vstd::std_specs::ops::AddSpec;

verus! {

/// Length of the element-wise sum of two sequences: the shorter of the two.
pub open spec fn zip_len<T>(a: Seq<T>, b: Seq<T>) -> nat {
    if a.len() <= b.len() {
        a.len()
    } else {
        b.len()
    }
}

/// `+` accepts every pair of values of `T`.
pub open spec fn total_add<T: Add<T, Output = T>>() -> bool {
    forall|x: T, y: T| #[trigger] call_requires(T::add, (x, y))
}

/// `+` accepts every pair of elements at a common index.
pub open spec fn addable<T: Add<T, Output = T>>(a: Seq<T>, b: Seq<T>) -> bool {
    forall|i: int| 0 <= i < zip_len(a, b) ==> call_requires(T::add, (#[trigger] a[i], b[i]))
}

/// Each element of `c` is a sum that `+` can give for the elements of `a` and
/// `b` at its index.
pub open spec fn sums_of<T: Add<T, Output = T>>(c: Seq<T>, a: Seq<T>, b: Seq<T>) -> bool {
    forall|i: int| 0 <= i < c.len() ==> call_ensures(T::add, (a[i], b[i]), #[trigger] c[i])
}

/// The element-wise sum of two sequences, cut to the shorter one.
pub open spec fn zip_sum<T: Add<T, Output = T>>(a: Seq<T>, b: Seq<T>) -> Seq<T> {
    Seq::new(zip_len(a, b), |i: int| a[i].add_spec(b[i]))
}

/// `Vec::from` on an array: the vector holds the array's elements, in order.
#[verifier::external_body]
fn array_into_vec<T, const N: usize>(array: [T; N]) -> (items: Vec<T>)
    ensures
        items@ == array@,
{
    Vec::from(array)
}

/// Collects the items into an `arrayvec::ArrayVec` of capacity `N`
/// (`FromIterator::from_iter`) and asks it for its inner array
/// (`ArrayVec::into_inner`).
///
/// `from_iter` panics where `N` is above `u32::MAX` or there are more than `N`
/// items, so both are ruled out. `into_inner` gives the array of the items, in
/// order, where the vector is full, and an error where it is not.
#[verifier::external_body]
fn collect_array<T, const N: usize>(items: Vec<T>) -> (array: Option<[T; N]>)
    requires
        N <= u32::MAX,
        items@.len() <= N,
    ensures
        array is Some <==> items@.len() == N,
        array is Some ==> array->0@ == items@,
{
    let collected: ArrayVec<T, N> = items.into_iter().collect();
    collected.into_inner().ok()
}

/// Takes the next item off an iterator.
pub(crate) fn take_next<I: Iterator>(it: &mut I) -> (item: Option<I::Item>)
    ensures
        (*final(it)).obeys_prophetic_iter_laws() == (*old(it)).obeys_prophetic_iter_laws(),
        (*final(it)).obeys_prophetic_iter_laws() ==> if (*old(it)).remaining().len() > 0 {
            &&& (*final(it)).remaining() == (*old(it)).remaining().drop_first()
            &&& item == Some((*old(it)).remaining()[0])
        } else {
            &&& (*final(it)).remaining() == (*old(it)).remaining()
            &&& item is None
        },
{
    it.next()
}

/// Adds two arrays element-wise.
/// * `a`, `b` - Two arrays (equally-sized), of at most `u32::MAX` elements
pub fn add_arrays_into<T: Add<T, Output = T>, const N: usize>(a: [T; N], b: [T; N]) -> (c: [T; N])
    requires
        N <= u32::MAX,
        addable(a@, b@),
    ensures
        sums_of(c@, a@, b@),
        T::obeys_add_spec() ==> c@ == zip_sum(a@, b@),
{
    let sums = add_vecs_into(array_into_vec(a), array_into_vec(b));
    match collect_array(sums) {
        Some(c) => c,
        None => vstd::pervasive::unreached(),
    }
}

/// Adds two vectors element-wise.
///
/// The sum is as long as the shorter argument; the surplus of the longer one
/// is dropped.
pub fn add_vecs_into<T: Add<T, Output = T>>(a: Vec<T>, b: Vec<T>) -> (c: Vec<T>)
    requires
        addable(a@, b@),
    ensures
        c@.len() == zip_len(a@, b@),
        sums_of(c@, a@, b@),
        T::obeys_add_spec() ==> c@ == zip_sum(a@, b@),
{
    let ghost n = zip_len(a@, b@);
    let mut c: Vec<T> = Vec::new();
    let mut left = a.into_iter();
    let mut right = b.into_iter();
    loop
        invariant_except_break
            left.remaining() == a@.skip(c@.len() as int),
            right.remaining() == b@.skip(c@.len() as int),
        invariant
            n == zip_len(a@, b@),
            addable(a@, b@),
            c@.len() <= n,
            sums_of(c@, a@, b@),
            T::obeys_add_spec() ==> c@ == zip_sum(a@, b@).take(c@.len() as int),
        ensures
            c@.len() == n,
            sums_of(c@, a@, b@),
            T::obeys_add_spec() ==> c@ == zip_sum(a@, b@),
        decreases n - c@.len(),
    {
        let ghost k = c@.len() as int;
        match take_next(&mut left) {
            None => {
                break ;
            },
            Some(x) => match take_next(&mut right) {
                None => {
                    break ;
                },
                Some(y) => {
                    assert(x == a@[k] && y == b@[k]);
                    assert(a@.skip(k).drop_first() == a@.skip(k + 1));
                    assert(b@.skip(k).drop_first() == b@.skip(k + 1));
                    let s = x + y;
                    c.push(s);
                    assert(T::obeys_add_spec() ==> c@ == zip_sum(a@, b@).take(k + 1));
                },
            },
        }
    }
    c
}

} // verus!
