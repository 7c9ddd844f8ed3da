//! The number type that the solvers compute with.
//!
//! The solvers are written over an abstract [`Scalar`], so that the verified
//! code holds no floating-point numbers of its own. The application supplies a
//! type whose operations are those of single-precision floats.
//!
//! Nothing is claimed of what an operation computes. Each operation has a spec
//! function beside it, which stands for the value that the operation gives.
//! [`exact`] says that every call gives that value, and [`exact_powi`] and
//! [`exact_exp`] say so of the two operations that floats are less strict about.
//! Contracts are stated over these spec functions: they fix which operations a
//! solver performs, on which operands, and where it puts the results.

use vstd::prelude::*;

verus! {

/// A number type with the operations that the solvers need.
pub trait Scalar: Copy + Send + Sync {
    /// The constant `num / den`.
    fn ratio(num: i32, den: i32) -> Self;

    /// The ratio of a circle's circumference to its diameter.
    fn pi() -> Self;

    /// The scalar nearest to `n`.
    fn of_count(n: usize) -> Self;

    /// `self + other`.
    fn plus(self, other: Self) -> Self;

    /// `self - other`.
    fn minus(self, other: Self) -> Self;

    /// `self * other`.
    fn times(self, other: Self) -> Self;

    /// `self / other`.
    fn over(self, other: Self) -> Self;

    /// `-self`.
    fn negate(self) -> Self;

    /// `self` to the power of `e`.
    fn powi(self, e: i32) -> Self;

    /// The square root.
    fn sqrt(self) -> Self;

    /// The absolute value.
    fn abs(self) -> Self;

    /// Euler's number to the power of `self`.
    fn exp(self) -> Self;

    /// The least whole number that is not below `self`.
    fn ceil(self) -> Self;

    /// The smaller of the two.
    fn lower(self, other: Self) -> Self;

    /// The larger of the two.
    fn upper(self, other: Self) -> Self;

    /// `self` held to the range from `lo` to `hi`.
    fn clamp(self, lo: Self, hi: Self) -> Self;

    /// `self < other`.
    fn below(self, other: Self) -> bool;

    /// `self >= other`.
    fn at_least(self, other: Self) -> bool;

    /// `self == other`.
    fn same(self, other: Self) -> bool;

    /// The whole part as an index, held to the range of `usize`.
    fn to_index(self) -> usize;

    /// The whole part, held to the range of `i32`.
    fn to_i32(self) -> i32;

    /// The whole part, held to the range of `u32`.
    fn to_u32(self) -> u32;

    /// The whole part, held to the range of `u8`.
    fn to_u8(self) -> u8;
}

/// The constant `num / den`.
#[verifier::opaque]
pub open spec fn lit<T: Scalar>(num: i32, den: i32) -> T {
    choose|r: T| call_ensures(T::ratio, (num, den), r)
}

/// The constant that [`Scalar::pi`] gives.
#[verifier::opaque]
pub open spec fn pi<T: Scalar>() -> T {
    choose|r: T| call_ensures(T::pi, (), r)
}

/// The scalar nearest to `n`.
#[verifier::opaque]
pub open spec fn count<T: Scalar>(n: usize) -> T {
    choose|r: T| call_ensures(T::of_count, (n,), r)
}

/// `a + b`.
#[verifier::opaque]
pub open spec fn sum<T: Scalar>(a: T, b: T) -> T {
    choose|r: T| call_ensures(T::plus, (a, b), r)
}

/// `a - b`.
#[verifier::opaque]
pub open spec fn diff<T: Scalar>(a: T, b: T) -> T {
    choose|r: T| call_ensures(T::minus, (a, b), r)
}

/// `a * b`.
#[verifier::opaque]
pub open spec fn prod<T: Scalar>(a: T, b: T) -> T {
    choose|r: T| call_ensures(T::times, (a, b), r)
}

/// `a / b`.
#[verifier::opaque]
pub open spec fn quot<T: Scalar>(a: T, b: T) -> T {
    choose|r: T| call_ensures(T::over, (a, b), r)
}

/// `-a`.
#[verifier::opaque]
pub open spec fn neg<T: Scalar>(a: T) -> T {
    choose|r: T| call_ensures(T::negate, (a,), r)
}

/// `a` to the power of `e`.
#[verifier::opaque]
pub open spec fn power<T: Scalar>(a: T, e: i32) -> T {
    choose|r: T| call_ensures(T::powi, (a, e), r)
}

/// The square root of `a`.
#[verifier::opaque]
pub open spec fn root<T: Scalar>(a: T) -> T {
    choose|r: T| call_ensures(T::sqrt, (a,), r)
}

/// The absolute value of `a`.
#[verifier::opaque]
pub open spec fn magnitude<T: Scalar>(a: T) -> T {
    choose|r: T| call_ensures(T::abs, (a,), r)
}

/// Euler's number to the power of `a`.
#[verifier::opaque]
pub open spec fn exponential<T: Scalar>(a: T) -> T {
    choose|r: T| call_ensures(T::exp, (a,), r)
}

/// The least whole number that is not below `a`.
#[verifier::opaque]
pub open spec fn ceiling<T: Scalar>(a: T) -> T {
    choose|r: T| call_ensures(T::ceil, (a,), r)
}

/// The smaller of `a` and `b`.
#[verifier::opaque]
pub open spec fn lesser<T: Scalar>(a: T, b: T) -> T {
    choose|r: T| call_ensures(T::lower, (a, b), r)
}

/// The larger of `a` and `b`.
#[verifier::opaque]
pub open spec fn greater<T: Scalar>(a: T, b: T) -> T {
    choose|r: T| call_ensures(T::upper, (a, b), r)
}

/// `a` held to the range from `lo` to `hi`.
#[verifier::opaque]
pub open spec fn clamped<T: Scalar>(a: T, lo: T, hi: T) -> T {
    choose|r: T| call_ensures(T::clamp, (a, lo, hi), r)
}

/// `a < b`.
#[verifier::opaque]
pub open spec fn lt<T: Scalar>(a: T, b: T) -> bool {
    choose|r: bool| call_ensures(T::below, (a, b), r)
}

/// `a >= b`.
#[verifier::opaque]
pub open spec fn ge<T: Scalar>(a: T, b: T) -> bool {
    choose|r: bool| call_ensures(T::at_least, (a, b), r)
}

/// `a == b`.
#[verifier::opaque]
pub open spec fn eq<T: Scalar>(a: T, b: T) -> bool {
    choose|r: bool| call_ensures(T::same, (a, b), r)
}

/// The whole part of `a` as an index.
#[verifier::opaque]
pub open spec fn index<T: Scalar>(a: T) -> usize {
    choose|r: usize| call_ensures(T::to_index, (a,), r)
}

/// The whole part of `a`.
#[verifier::opaque]
pub open spec fn whole<T: Scalar>(a: T) -> i32 {
    choose|r: i32| call_ensures(T::to_i32, (a,), r)
}

/// The whole part of `a` as a word.
#[verifier::opaque]
pub open spec fn word<T: Scalar>(a: T) -> u32 {
    choose|r: u32| call_ensures(T::to_u32, (a,), r)
}

/// The whole part of `a` as a byte.
#[verifier::opaque]
pub open spec fn octet<T: Scalar>(a: T) -> u8 {
    choose|r: u8| call_ensures(T::to_u8, (a,), r)
}

/// `a` is zero, of either sign.
pub open spec fn nil<T: Scalar>(a: T) -> bool {
    eq(a, lit(0, 1))
}

/// The operations of `T`, but for powers and the exponential, are functions of
/// their operands: a call never gives anything but the value that the spec function
/// of the operation stands for.
///
/// The standard library documents this of single-precision floats wherever the
/// result is a number. Of a result that is not a number it leaves the bits open:
/// two calls on the same operands may differ in them, so what is stated of such a
/// result holds up to its bits.
pub open spec fn exact<T: Scalar>() -> bool {
    &&& forall|num: i32, den: i32, r: T| #[trigger]
        call_ensures(T::ratio, (num, den), r) ==> r == lit::<T>(num, den)
    &&& forall|r: T| #[trigger]
        call_ensures(T::pi, (), r) ==> r == pi::<T>()
    &&& forall|n: usize, r: T| #[trigger]
        call_ensures(T::of_count, (n,), r) ==> r == count::<T>(n)
    &&& forall|a: T, b: T, r: T| #[trigger]
        call_ensures(T::plus, (a, b), r) ==> r == sum(a, b)
    &&& forall|a: T, b: T, r: T| #[trigger]
        call_ensures(T::minus, (a, b), r) ==> r == diff(a, b)
    &&& forall|a: T, b: T, r: T| #[trigger]
        call_ensures(T::times, (a, b), r) ==> r == prod(a, b)
    &&& forall|a: T, b: T, r: T| #[trigger]
        call_ensures(T::over, (a, b), r) ==> r == quot(a, b)
    &&& forall|a: T, r: T| #[trigger]
        call_ensures(T::negate, (a,), r) ==> r == neg(a)
    &&& forall|a: T, r: T| #[trigger]
        call_ensures(T::sqrt, (a,), r) ==> r == root(a)
    &&& forall|a: T, r: T| #[trigger]
        call_ensures(T::abs, (a,), r) ==> r == magnitude(a)
    &&& forall|a: T, r: T| #[trigger]
        call_ensures(T::ceil, (a,), r) ==> r == ceiling(a)
    &&& forall|a: T, b: T, r: T| #[trigger]
        call_ensures(T::lower, (a, b), r) ==> r == lesser(a, b)
    &&& forall|a: T, b: T, r: T| #[trigger]
        call_ensures(T::upper, (a, b), r) ==> r == greater(a, b)
    &&& forall|a: T, lo: T, hi: T, r: T| #[trigger]
        call_ensures(T::clamp, (a, lo, hi), r) ==> r == clamped(a, lo, hi)
    &&& forall|a: T, b: T, r: bool| #[trigger]
        call_ensures(T::below, (a, b), r) ==> r == lt(a, b)
    &&& forall|a: T, b: T, r: bool| #[trigger]
        call_ensures(T::at_least, (a, b), r) ==> r == ge(a, b)
    &&& forall|a: T, b: T, r: bool| #[trigger]
        call_ensures(T::same, (a, b), r) ==> r == eq(a, b)
    &&& forall|a: T, r: usize| #[trigger]
        call_ensures(T::to_index, (a,), r) ==> r == index(a)
    &&& forall|a: T, r: i32| #[trigger]
        call_ensures(T::to_i32, (a,), r) ==> r == whole(a)
    &&& forall|a: T, r: u32| #[trigger]
        call_ensures(T::to_u32, (a,), r) ==> r == word(a)
    &&& forall|a: T, r: u8| #[trigger]
        call_ensures(T::to_u8, (a,), r) ==> r == octet(a)
}

/// Powers are functions of their operands.
///
/// Of single-precision floats this asks more than the standard library documents:
/// it calls the precision of `powi` non-deterministic, so that two calls on the
/// same operands may differ in the last places. Where they do, the results that
/// powers flow into are only known up to that.
pub open spec fn exact_powi<T: Scalar>() -> bool {
    forall|a: T, e: i32, r: T| #[trigger] call_ensures(T::powi, (a, e), r) ==> r == power(a, e)
}

/// The exponential is a function of its operand.
///
/// As with [`exact_powi`], the standard library calls the precision of `exp`
/// non-deterministic, and the results that it flows into are only known up to that.
pub open spec fn exact_exp<T: Scalar>() -> bool {
    forall|a: T, r: T| #[trigger] call_ensures(T::exp, (a,), r) ==> r == exponential(a)
}

} // verus!
