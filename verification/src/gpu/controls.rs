//! Controls that several backends share.

use crate::gpu::backend::{Input, Key};
use crate::scalar::Scalar;
#[allow(unused_imports)]
use crate::gpu::backend::InputModel;
#[allow(unused_imports)]
use crate::scalar::{diff, exact, greater, lesser, lit, prod, sum};
use vstd::prelude::*;

verus! {

/// The strength of gravity after a frame of `dt` seconds: it falls as long as the
/// up key is held, but not below zero, and rises as long as the down key is, but
/// not above two and a half times what it is at first.
pub open spec fn pulled<T: Scalar>(scale: T, dt: T, input: InputModel<T>) -> T {
    let lower = if input.held.contains(Key::ArrowUp) {
        greater(diff(scale, prod(lit(12, 10), dt)), lit(0, 1))
    } else {
        scale
    };
    if input.held.contains(Key::ArrowDown) {
        lesser(sum(lower, prod(lit(12, 10), dt)), lit(25, 10))
    } else {
        lower
    }
}

/// The strength of gravity after a frame of `dt` seconds.
pub fn pull<T: Scalar>(scale: T, dt: T, input: &Input<T>) -> (r: T)
    requires
        exact::<T>(),
    ensures
        r == pulled(scale, dt, input@),
{
    let mut g: T = scale;
    if input.held(Key::ArrowUp) {
        g = g.minus(T::ratio(12, 10).times(dt)).upper(T::ratio(0, 1));
    }
    if input.held(Key::ArrowDown) {
        g = g.plus(T::ratio(12, 10).times(dt)).lower(T::ratio(25, 10));
    }
    g
}

/// How particles are drawn: how many at most, where, how large, and what speed is
/// drawn as the fastest.
#[derive(Clone, Copy)]
pub struct DotParams<T> {
    pub capacity: u32,
    pub domain_w: T,
    pub domain_h: T,
    pub radius: T,
    pub max_speed: T,
}

/// How a solver puts its particles back: what the buffer of the positions is filled
/// with, and the buffer that is filled with that many bytes of zeros.
pub struct Restart<'a, T, B> {
    pub start: &'a Vec<[T; 2]>,
    pub into: B,
    pub zeroed: B,
    pub bytes: u64,
}

/// Without either key the strength of gravity stays what it is.
pub proof fn law_gravity_is_left_alone<T: Scalar>(scale: T, dt: T, input: InputModel<T>)
    requires
        !input.held.contains(Key::ArrowUp),
        !input.held.contains(Key::ArrowDown),
    ensures
        pulled(scale, dt, input) == scale,
{
}

} // verus!
