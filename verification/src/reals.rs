//! A reading of the scalars as real numbers.
//!
//! Laws about what the solvers compute, rather than about which operations they
//! perform, are stated over such a reading. [`Reading::sound`] asks nothing of an
//! operation but that its result is the number that it should be wherever that
//! number is one that the scalars can hold, and that comparisons and conversions
//! go by the numbers. Floats meet this, with the finite ones as the numbers. A law
//! then says which numbers must be held for it to hold exactly;
//! [`Reading::never_rounds`] says that all are.

use crate::scalar::Scalar;
#[allow(unused_imports)]
use crate::scalar::{
    ceiling, clamped, count, diff, eq, exponential, ge, greater, index, lesser, lit, lt, magnitude, neg, octet,
    power, prod, quot, root, sum, whole,
};
#[allow(unused_imports)]
use crate::vec2::Vec2;
use vstd::prelude::*;

verus! {

/// Which scalars are numbers, which numbers they are, and which numbers the scalars
/// can hold.
#[verifier::reject_recursive_types(T)]
pub struct Reading<T> {
    pub number: spec_fn(T) -> bool,
    pub value: spec_fn(T) -> real,
    pub plain: spec_fn(real) -> bool,
}

/// The greater of two numbers.
pub open spec fn larger(x: real, y: real) -> real {
    if x < y {
        y
    } else {
        x
    }
}

/// The smaller of two numbers.
pub open spec fn smaller(x: real, y: real) -> real {
    if y < x {
        y
    } else {
        x
    }
}

impl<T: Scalar> Reading<T> {
    /// `a` is a number.
    pub open spec fn is(self, a: T) -> bool {
        (self.number)(a)
    }

    /// The number that `a` is.
    pub open spec fn at(self, a: T) -> real {
        (self.value)(a)
    }

    /// The scalars can hold `x`.
    pub open spec fn fits(self, x: real) -> bool {
        (self.plain)(x)
    }

    /// `a` is the number `x`.
    pub open spec fn means(self, a: T, x: real) -> bool {
        self.is(a) && self.at(a) == x
    }

    /// Both components of `v` are numbers.
    pub open spec fn is_vec(self, v: Vec2<T>) -> bool {
        self.is(v.x) && self.is(v.y)
    }

    /// Sums, differences, products and quotients are what they should be.
    pub open spec fn computes(self) -> bool {
        &&& forall|a: T| #[trigger] self.is(a) ==> self.fits(self.at(a))
        &&& forall|num: i32, den: i32|
            den != 0 && self.fits(num as real / den as real) ==> self.means(
                #[trigger] lit::<T>(num, den),
                num as real / den as real,
            )
        &&& forall|n: usize|
            self.fits(n as real) ==> self.means(#[trigger] count::<T>(n), n as real)
        &&& forall|a: T, b: T|
            self.is(a) && self.is(b) && self.fits(self.at(a) + self.at(b)) ==> self.means(
                #[trigger] sum(a, b),
                self.at(a) + self.at(b),
            )
        &&& forall|a: T, b: T|
            self.is(a) && self.is(b) && self.fits(self.at(a) - self.at(b)) ==> self.means(
                #[trigger] diff(a, b),
                self.at(a) - self.at(b),
            )
        &&& forall|a: T, b: T|
            self.is(a) && self.is(b) && self.fits(self.at(a) * self.at(b)) ==> self.means(
                #[trigger] prod(a, b),
                self.at(a) * self.at(b),
            )
        &&& forall|a: T, b: T|
            self.is(a) && self.is(b) && self.at(b) != 0real && self.fits(self.at(a) / self.at(b))
                ==> self.means(#[trigger] quot(a, b), self.at(a) / self.at(b))
        &&& forall|a: T| self.is(a) ==> self.means(#[trigger] neg(a), 0real - self.at(a))
    }

    /// Comparisons go by the numbers.
    pub open spec fn compares(self) -> bool {
        &&& forall|a: T, b: T|
            self.is(a) && self.is(b) ==> (#[trigger] lt(a, b) <==> self.at(a) < self.at(b))
        &&& forall|a: T, b: T|
            self.is(a) && self.is(b) ==> (#[trigger] ge(a, b) <==> self.at(a) >= self.at(b))
        &&& forall|a: T, b: T|
            self.is(a) && self.is(b) ==> (#[trigger] eq(a, b) <==> self.at(a) == self.at(b))
        &&& forall|a: T, b: T|
            self.is(a) && self.is(b) ==> self.means(
                #[trigger] greater(a, b),
                larger(self.at(a), self.at(b)),
            )
        &&& forall|a: T, b: T|
            self.is(a) && self.is(b) ==> self.means(
                #[trigger] lesser(a, b),
                smaller(self.at(a), self.at(b)),
            )
        &&& forall|a: T, lo: T, hi: T|
            self.is(a) && self.is(lo) && self.is(hi) && self.at(lo) <= self.at(hi) ==> self.means(
                #[trigger] clamped(a, lo, hi),
                smaller(larger(self.at(a), self.at(lo)), self.at(hi)),
            )
        &&& forall|a: T|
            self.is(a) ==> self.means(
                #[trigger] magnitude(a),
                larger(self.at(a), 0real - self.at(a)),
            )
    }

    /// Conversions give the whole part, and rounding up goes up by less than one.
    pub open spec fn counts(self) -> bool {
        &&& forall|a: T|
            self.is(a) && 0real <= self.at(a) < usize::MAX as real ==> #[trigger] index(a) as real
                <= self.at(a) < index(a) as real + 1real
        &&& forall|a: T|
            self.is(a) && 0real <= self.at(a) < i32::MAX as real ==> #[trigger] whole(a) as real
                <= self.at(a) < whole(a) as real + 1real
        &&& forall|a: T|
            self.is(a) && 0real <= self.at(a) < 256real ==> #[trigger] octet(a) as real <= self.at(
                a,
            ) < octet(a) as real + 1real
        &&& forall|a: T|
            self.is(a) ==> self.is(#[trigger] ceiling(a)) && self.at(a) <= self.at(ceiling(a))
                < self.at(a) + 1real
    }

    /// The scalars compute, compare and count as the numbers do that they hold.
    pub open spec fn sound(self) -> bool {
        self.computes() && self.compares() && self.counts()
    }

    /// The scalars can hold every number.
    pub open spec fn never_rounds(self) -> bool {
        forall|x: real| #[trigger] self.fits(x)
    }

    /// Square roots are what they should be.
    pub open spec fn takes_roots(self) -> bool {
        forall|a: T|
            self.is(a) && self.at(a) >= 0real ==> self.is(#[trigger] root(a)) && self.at(root(a))
                >= 0real && self.at(root(a)) * self.at(root(a)) == self.at(a)
    }

    /// The exponential grows with its operand, and is one at zero.
    pub open spec fn takes_exponentials(self) -> bool {
        &&& forall|a: T|
            self.is(a) ==> self.is(#[trigger] exponential(a)) && self.at(exponential(a)) > 0real
        &&& forall|a: T, b: T|
            self.is(a) && self.is(b) && self.at(a) <= self.at(b) ==> self.at(
                #[trigger] exponential(a),
            ) <= self.at(#[trigger] exponential(b))
        &&& forall|a: T| self.means(a, 0real) ==> self.at(#[trigger] exponential(a)) == 1real
    }

    /// Squares and cubes are what they should be.
    pub open spec fn takes_powers(self) -> bool {
        &&& forall|a: T|
            self.is(a) ==> self.means(#[trigger] power(a, 2), self.at(a) * self.at(a))
        &&& forall|a: T|
            self.is(a) ==> self.means(
                #[trigger] power(a, 3),
                self.at(a) * self.at(a) * self.at(a),
            )
    }
}

/// A literal that the scalars can hold is the number that it says.
pub proof fn lemma_literal<T: Scalar>(r: Reading<T>, num: i32, den: i32)
    requires
        r.computes(),
        den != 0,
        r.fits(num as real / den as real),
    ensures
        r.means(lit::<T>(num, den), num as real / den as real),
{
}

/// A product with a sum is the sum of the products, and so for a difference.
pub proof fn lemma_spread(x: real, y: real, z: real)
    ensures
        x * (y + z) == x * y + x * z,
        x * (y - z) == x * y - x * z,
        (y + z) * x == y * x + z * x,
        (y - z) * x == y * x - z * x,
{
    assert(x * (y + z) == x * y + x * z) by (nonlinear_arith);
    assert(x * (y - z) == x * y - x * z) by (nonlinear_arith);
    assert((y + z) * x == y * x + z * x) by (nonlinear_arith);
    assert((y - z) * x == y * x - z * x) by (nonlinear_arith);
}

/// Nothing and one as factors.
pub proof fn lemma_units(x: real)
    ensures
        0real * x == 0real,
        x * 0real == 0real,
        1real * x == x,
        x * 1real == x,
{
    assert(0real * x == 0real && x * 0real == 0real) by (nonlinear_arith);
    assert(1real * x == x && x * 1real == x) by (nonlinear_arith);
}

/// A quotient times its divisor.
pub proof fn lemma_over(a: real, b: real)
    requires
        b > 0real,
    ensures
        a / b * b == a,
{
    assert(a / b * b == a) by (nonlinear_arith)
        requires
            b > 0real,
    ;
}

/// Factors may be swapped.
pub proof fn lemma_swap(a: real, b: real)
    ensures
        a * b == b * a,
{
    assert(a * b == b * a) by (nonlinear_arith);
}

/// Factors may be grouped as one likes.
pub proof fn lemma_regroup(x: real, y: real, z: real)
    ensures
        (x * y) * z == x * (y * z),
        (x * y) * z == (x * z) * y,
{
    assert((x * y) * z == x * (y * z)) by (nonlinear_arith);
    assert((x * z) * y == x * (z * y)) by (nonlinear_arith);
    assert(y * z == z * y) by (nonlinear_arith);
}

/// Four factors may be paired the other way.
pub proof fn lemma_repair(a: real, b: real, c: real, d: real)
    ensures
        (a * b) * (c * d) == (a * c) * (b * d),
{
    lemma_regroup(a, b, c * d);
    lemma_regroup(b, c, d);
    lemma_regroup(c, b, d);
    lemma_regroup(a, c, b * d);
    assert(b * c == c * b) by (nonlinear_arith);
}

/// Four values at the corners of a unit square that grow evenly, by `b` to the right and
/// by `c` upward, mixed by how far a point is from each side.
pub proof fn lemma_mixture(x: real, y: real, p: real, b: real, c: real)
    ensures
        ((1real - x) * (1real - y)) * p + (x * (1real - y)) * (p + b) + ((1real - x) * y) * (p + c)
            + (x * y) * (p + b + c) == p + x * b + y * c,
        (1real - x) * (1real - y) + x * (1real - y) + (1real - x) * y + x * y == 1real,
        x * (1real - y) + x * y == x,
        (1real - x) * y + x * y == y,
{
    let (ox, oy) = (1real - x, 1real - y);
    let (s0, s1, s2, s3) = (ox * oy, x * oy, ox * y, x * y);
    lemma_spread(oy, ox, x);
    lemma_spread(y, ox, x);
    lemma_spread(x, oy, y);
    lemma_units(oy);
    lemma_units(x);
    lemma_units(y);
    assert(ox * oy + x * oy == oy);
    assert(ox * y + x * y == y);
    assert(x * oy + x * y == x);
    lemma_spread(s1, p, b);
    lemma_spread(s2, p, c);
    lemma_spread(s3, p + b, c);
    lemma_spread(s3, p, b);
    lemma_spread(p, s0, s1);
    lemma_spread(p, s2, s3);
    lemma_spread(p, s0 + s1, s2 + s3);
    lemma_spread(b, s1, s3);
    lemma_spread(c, s2, s3);
    lemma_units(p);
    assert(s0 * p + s1 * p + s2 * p + s3 * p == p);
    assert(s1 * b + s3 * b == x * b);
    assert(s2 * c + s3 * c == y * c);
}

} // verus!
