//! Vectors in the plane.

use crate::scalar::Scalar;
#[allow(unused_imports)]
use crate::scalar::{diff, exact, lit, neg, prod, quot, root, sum};
use vstd::prelude::*;

verus! {

/// A point or a velocity in the plane.
#[derive(Clone, Copy, Debug)]
pub struct Vec2<T> {
    pub x: T,
    pub y: T,
}

/// Vector with the given components.
pub fn vec2<T>(x: T, y: T) -> (v: Vec2<T>)
    ensures
        v == (Vec2 { x, y }),
{
    Vec2 { x, y }
}

/// Pairs of components as vectors.
pub open spec fn as_vectors<T>(pairs: Seq<[T; 2]>) -> Seq<Vec2<T>> {
    Seq::new(pairs.len(), |i: int| Vec2 { x: pairs[i][0], y: pairs[i][1] })
}

/// The components of vectors as pairs.
pub fn pairs<T: Copy>(list: &Vec<Vec2<T>>) -> (xy: Vec<[T; 2]>)
    ensures
        as_vectors(xy@) == list@,
{
    let mut xy: Vec<[T; 2]> = Vec::new();
    let mut i: usize = 0;
    while i < list.len()
        invariant
            i <= list@.len(),
            xy@.len() == i,
            forall|k: int|
                0 <= k < i ==> #[trigger] xy@[k][0] == list@[k].x && xy@[k][1] == list@[k].y,
        decreases list.len() - i,
    {
        let pair: [T; 2] = [list[i].x, list[i].y];
        xy.push(pair);
        i = i + 1;
    }
    assert(as_vectors(xy@) =~= list@);
    xy
}

impl<T: Scalar> Vec2<T> {
    /// The vector without length.
    pub open spec fn origin() -> Vec2<T> {
        Vec2 { x: lit(0, 1), y: lit(0, 1) }
    }

    /// `self + other`.
    pub open spec fn add_of(self, other: Vec2<T>) -> Vec2<T> {
        Vec2 { x: sum(self.x, other.x), y: sum(self.y, other.y) }
    }

    /// `self - other`.
    pub open spec fn sub_of(self, other: Vec2<T>) -> Vec2<T> {
        Vec2 { x: diff(self.x, other.x), y: diff(self.y, other.y) }
    }

    /// `self * k`.
    pub open spec fn mul_of(self, k: T) -> Vec2<T> {
        Vec2 { x: prod(self.x, k), y: prod(self.y, k) }
    }

    /// `k * self`.
    pub open spec fn mul_by(self, k: T) -> Vec2<T> {
        Vec2 { x: prod(k, self.x), y: prod(k, self.y) }
    }

    /// `self / k`.
    pub open spec fn div_of(self, k: T) -> Vec2<T> {
        Vec2 { x: quot(self.x, k), y: quot(self.y, k) }
    }

    /// `-self`.
    pub open spec fn neg_of(self) -> Vec2<T> {
        Vec2 { x: neg(self.x), y: neg(self.y) }
    }

    /// Scalar product.
    pub open spec fn dot_of(self, other: Vec2<T>) -> T {
        sum(prod(self.x, other.x), prod(self.y, other.y))
    }

    /// Length.
    pub open spec fn norm(self) -> T {
        root(self.dot_of(self))
    }

    /// The vector without length.
    pub fn zero() -> (v: Self)
        requires
            exact::<T>(),
        ensures
            v == Self::origin(),
    {
        Vec2 { x: T::ratio(0, 1), y: T::ratio(0, 1) }
    }

    /// `self + other`.
    pub fn plus(self, other: Self) -> (v: Self)
        requires
            exact::<T>(),
        ensures
            v == self.add_of(other),
    {
        Vec2 { x: self.x.plus(other.x), y: self.y.plus(other.y) }
    }

    /// `self - other`.
    pub fn minus(self, other: Self) -> (v: Self)
        requires
            exact::<T>(),
        ensures
            v == self.sub_of(other),
    {
        Vec2 { x: self.x.minus(other.x), y: self.y.minus(other.y) }
    }

    /// `self * k`.
    pub fn times(self, k: T) -> (v: Self)
        requires
            exact::<T>(),
        ensures
            v == self.mul_of(k),
    {
        Vec2 { x: self.x.times(k), y: self.y.times(k) }
    }

    /// `k * self`.
    pub fn scaled(self, k: T) -> (v: Self)
        requires
            exact::<T>(),
        ensures
            v == self.mul_by(k),
    {
        Vec2 { x: k.times(self.x), y: k.times(self.y) }
    }

    /// `self / k`.
    pub fn over(self, k: T) -> (v: Self)
        requires
            exact::<T>(),
        ensures
            v == self.div_of(k),
    {
        Vec2 { x: self.x.over(k), y: self.y.over(k) }
    }

    /// `-self`.
    pub fn negate(self) -> (v: Self)
        requires
            exact::<T>(),
        ensures
            v == self.neg_of(),
    {
        Vec2 { x: self.x.negate(), y: self.y.negate() }
    }

    /// Scalar product.
    pub fn dot(self, other: Self) -> (d: T)
        requires
            exact::<T>(),
        ensures
            d == self.dot_of(other),
    {
        self.x.times(other.x).plus(self.y.times(other.y))
    }

    /// Square of the length.
    pub fn length_squared(self) -> (d: T)
        requires
            exact::<T>(),
        ensures
            d == self.dot_of(self),
    {
        self.dot(self)
    }

    /// Length.
    pub fn length(self) -> (d: T)
        requires
            exact::<T>(),
        ensures
            d == self.norm(),
    {
        self.dot(self).sqrt()
    }
}

} // verus!
