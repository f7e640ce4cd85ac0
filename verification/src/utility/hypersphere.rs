//! Points on a hypersphere, from the sines and cosines of their angles.

use std::ops::Mul;
use vstd::prelude::*;
use vstd::std_specs::ops::MulSpec;

verus! {

/// `*` accepts every pair of values of `S`.
pub open spec fn total_mul<S: Mul<S, Output = S>>() -> bool {
    forall|x: S, y: S| #[trigger] call_requires(S::mul, (x, y))
}

/// The product of the sines of the first `count` angles, multiplied onto
/// `one` in order. An angle is given by its sine and its cosine.
pub open spec fn sine_product<S: Mul<S, Output = S>>(one: S, angles: Seq<(S, S)>, count: nat) -> S
    decreases count,
{
    if count == 0 {
        one
    } else {
        sine_product(one, angles, (count - 1) as nat).mul_spec(angles[count - 1].0)
    }
}

/// The cartesian coordinate with index `i` of the point with radius `r`: the
/// radius times the sines of the angles before the `i`-th, times the cosine
/// of the `i`-th angle where there is one.
pub open spec fn coordinate<S: Mul<S, Output = S>>(angles: Seq<(S, S)>, r: S, one: S, i: int) -> S {
    let reach = r.mul_spec(sine_product(one, angles, i as nat));
    if i < angles.len() {
        reach.mul_spec(angles[i].1)
    } else {
        reach
    }
}

/// `a * b` can give `product`.
pub open spec fn multiplied<S: Mul<S, Output = S>>(a: S, b: S, product: S) -> bool {
    call_ensures(S::mul, (a, b), product)
}

/// The coordinates are what the multiplications can give, whatever `*`
/// gives: `products[i]` is a product of `one` and the sines of the first `i`
/// angles in order, `reaches[i]` a product of `r` and `products[i]`, and the
/// coordinate `i` a product of `reaches[i]` and the cosine of the `i`-th
/// angle, or `reaches[i]` itself for the last coordinate.
pub open spec fn converted<S: Mul<S, Output = S>>(
    angles: Seq<(S, S)>,
    r: S,
    one: S,
    products: Seq<S>,
    reaches: Seq<S>,
    coordinates: Seq<S>,
) -> bool {
    &&& products.len() == angles.len() + 1
    &&& reaches.len() == angles.len() + 1
    &&& coordinates.len() == angles.len() + 1
    &&& products[0] == one
    &&& forall|i: int|
        0 <= i < angles.len() ==> multiplied(products[i], angles[i].0, #[trigger] products[i + 1])
    &&& forall|i: int| 0 <= i <= angles.len() ==> multiplied(r, products[i], #[trigger] reaches[i])
    &&& forall|i: int|
        0 <= i < angles.len() ==> multiplied(reaches[i], angles[i].1, #[trigger] coordinates[i])
    &&& coordinates[angles.len() as int] == reaches[angles.len() as int]
}

/// Converts hyperspherical coordinates to cartesian coordinates.
/// * `angles` - sine and cosine of each angular coordinate
/// * `r` - radial coordinate
/// * `one` - the unit of multiplication
pub fn hyperspherical_to_cartesian<S: Copy + Mul<S, Output = S>>(
    angles: &[(S, S)],
    r: S,
    one: S,
) -> (x: Vec<S>)
    requires
        total_mul::<S>(),
    ensures
        x@.len() == angles@.len() + 1,
        exists|products: Seq<S>, reaches: Seq<S>|
            #[trigger] converted(angles@, r, one, products, reaches, x@),
        S::obeys_mul_spec() ==> forall|i: int|
            0 <= i <= angles@.len() ==> #[trigger] x@[i] == coordinate(angles@, r, one, i),
{
    let n = angles.len();
    let mut x: Vec<S> = Vec::new();
    // Product of the sines of the angles seen so far
    let mut product = one;
    let ghost mut products: Seq<S> = seq![one];
    let ghost mut reaches: Seq<S> = Seq::empty();
    let mut i: usize = 0;
    while i < n
        invariant
            i <= n,
            n == angles@.len(),
            total_mul::<S>(),
            x@.len() == i,
            reaches.len() == i,
            products.len() == i + 1,
            products[0] == one,
            product == products[i as int],
            forall|k: int|
                0 <= k < i ==> multiplied(products[k], angles@[k].0, #[trigger] products[k + 1]),
            forall|k: int| 0 <= k < i ==> multiplied(r, products[k], #[trigger] reaches[k]),
            forall|k: int| 0 <= k < i ==> multiplied(reaches[k], angles@[k].1, #[trigger] x@[k]),
            S::obeys_mul_spec() ==> product == sine_product(one, angles@, i as nat),
            S::obeys_mul_spec() ==> forall|k: int|
                0 <= k < i ==> #[trigger] x@[k] == coordinate(angles@, r, one, k),
        decreases n - i,
    {
        let (sine, cosine) = angles[i];
        let reach = r * product;
        x.push(reach * cosine);
        let next = product * sine;
        proof {
            reaches = reaches.push(reach);
            products = products.push(next);
        }
        product = next;
        i += 1;
    }
    let reach = r * product;
    x.push(reach);
    proof {
        reaches = reaches.push(reach);
        assert(converted(angles@, r, one, products, reaches, x@));
    }
    x
}

} // verus!
