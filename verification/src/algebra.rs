//! The laws of arithmetic under which sums do not depend on their order.

use std::ops::Add;
use std::ops::Sub;
use vstd::prelude::*;
use vstd::std_specs::ops::AddSpec;
use vstd::std_specs::ops::SubSpec;

verus! {

/// Addition of `T` is commutative and associative, and `zero` changes nothing
/// that it is added to.
#[verifier::opaque]
pub open spec fn monoid<T: Add<T, Output = T>>(zero: T) -> bool {
    &&& forall|a: T, b: T| #[trigger] a.add_spec(b) == b.add_spec(a)
    &&& forall|a: T, b: T, c: T| #[trigger] a.add_spec(b).add_spec(c) == a.add_spec(b.add_spec(c))
    &&& forall|a: T| #[trigger] a.add_spec(zero) == a
}

/// `T` is a commutative group: a monoid in which subtraction undoes addition
/// and addition undoes subtraction.
#[verifier::opaque]
pub open spec fn group<T: Add<T, Output = T> + Sub<T, Output = T>>(zero: T) -> bool {
    &&& monoid(zero)
    &&& forall|a: T, b: T| #[trigger] a.sub_spec(b).add_spec(b) == a
    &&& forall|a: T, b: T| #[trigger] a.add_spec(b).sub_spec(b) == a
}

/// `a + b == b + a`
pub(crate) proof fn lemma_commutes<T: Add<T, Output = T>>(zero: T, a: T, b: T)
    requires
        monoid(zero),
    ensures
        a.add_spec(b) == b.add_spec(a),
{
    reveal(monoid);
}

/// `(a + b) + c == a + (b + c)`
pub(crate) proof fn lemma_associates<T: Add<T, Output = T>>(zero: T, a: T, b: T, c: T)
    requires
        monoid(zero),
    ensures
        a.add_spec(b).add_spec(c) == a.add_spec(b.add_spec(c)),
{
    reveal(monoid);
}

/// `a + zero == a` and `zero + a == a`
pub(crate) proof fn lemma_neutral<T: Add<T, Output = T>>(zero: T, a: T)
    requires
        monoid(zero),
    ensures
        a.add_spec(zero) == a,
        zero.add_spec(a) == a,
{
    reveal(monoid);
}

/// A commutative group is a commutative monoid.
pub(crate) proof fn lemma_group_is_monoid<T: Add<T, Output = T> + Sub<T, Output = T>>(zero: T)
    requires
        group(zero),
    ensures
        monoid(zero),
{
    reveal(group);
}

/// `(a - b) + b == a` and `(a + b) - b == a`
pub(crate) proof fn lemma_undo<T: Add<T, Output = T> + Sub<T, Output = T>>(zero: T, a: T, b: T)
    requires
        group(zero),
    ensures
        a.sub_spec(b).add_spec(b) == a,
        a.add_spec(b).sub_spec(b) == a,
{
    reveal(group);
}

/// `(x + f) + y == (x + y) + f`
pub(crate) proof fn lemma_gain_left<T: Add<T, Output = T>>(zero: T, x: T, y: T, f: T)
    requires
        monoid(zero),
    ensures
        x.add_spec(f).add_spec(y) == x.add_spec(y).add_spec(f),
{
    lemma_associates(zero, x, f, y);
    lemma_commutes(zero, f, y);
    lemma_associates(zero, x, y, f);
}

/// `(x - f) + y == (x + y) - f`
pub(crate) proof fn lemma_loss_left<T: Add<T, Output = T> + Sub<T, Output = T>>(zero: T, x: T, y: T, f: T)
    requires
        group(zero),
    ensures
        x.sub_spec(f).add_spec(y) == x.add_spec(y).sub_spec(f),
{
    lemma_group_is_monoid(zero);
    let d = x.sub_spec(f);
    lemma_undo(zero, x, f);
    lemma_gain_left(zero, d, y, f);
    assert(d.add_spec(y).add_spec(f) == x.add_spec(y));
    lemma_undo(zero, d.add_spec(y), f);
}

/// `x + (y - f) == (x + y) - f`
pub(crate) proof fn lemma_loss_right<T: Add<T, Output = T> + Sub<T, Output = T>>(zero: T, x: T, y: T, f: T)
    requires
        group(zero),
    ensures
        x.add_spec(y.sub_spec(f)) == x.add_spec(y).sub_spec(f),
{
    lemma_group_is_monoid(zero);
    lemma_commutes(zero, x, y.sub_spec(f));
    lemma_loss_left(zero, y, x, f);
    lemma_commutes(zero, y, x);
}

} // verus!
