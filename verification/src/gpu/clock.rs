//! Real time cut into steps of a fixed length.

use crate::scalar::Scalar;
#[allow(unused_imports)]
use crate::scalar::{diff, exact, ge, lesser, lit, sum};
use vstd::prelude::*;

verus! {

/// Steps of length `dt` that the time `saved` holds, at most `limit`.
pub open spec fn steps_in<T: Scalar>(saved: T, dt: T, limit: nat) -> nat
    decreases limit,
{
    if limit == 0 || !ge(saved, dt) {
        0
    } else {
        1 + steps_in(diff(saved, dt), dt, (limit - 1) as nat)
    }
}

/// The time `saved` after `steps` steps of length `dt`.
pub open spec fn after_steps<T: Scalar>(saved: T, dt: T, steps: nat) -> T
    decreases steps,
{
    if steps == 0 {
        saved
    } else {
        after_steps(diff(saved, dt), dt, (steps - 1) as nat)
    }
}

/// What is left of the time `saved` once its steps are taken. Where the limit is
/// reached the rest is forgotten, so that a slow machine does not fall ever
/// further behind.
pub open spec fn rest_of<T: Scalar>(saved: T, dt: T, limit: nat) -> T {
    if steps_in(saved, dt, limit) == limit {
        lit(0, 1)
    } else {
        after_steps(saved, dt, steps_in(saved, dt, limit))
    }
}

/// The time saved up with that of a frame, of which no more than a twentieth of a
/// second counts.
pub open spec fn saved_up<T: Scalar>(accum: T, frame: T) -> T {
    sum(accum, lesser(frame, lit(5, 100)))
}

/// The number of steps of length `dt` that the time `saved` holds, at most
/// `limit`, and what is left of it.
pub fn drain<T: Scalar>(saved: T, dt: T, limit: usize) -> (r: (usize, T))
    requires
        exact::<T>(),
    ensures
        r.0 == steps_in(saved, dt, limit as nat),
        r.1 == rest_of(saved, dt, limit as nat),
        r.0 <= limit,
{
    let mut rest: T = saved;
    let mut steps: usize = 0;
    while steps < limit && rest.at_least(dt)
        invariant
            exact::<T>(),
            steps <= limit,
            steps + steps_in(rest, dt, (limit - steps) as nat) == steps_in(saved, dt, limit as nat),
            after_steps(saved, dt, steps as nat) == rest,
        ensures
            steps == steps_in(saved, dt, limit as nat),
            after_steps(saved, dt, steps as nat) == rest,
        decreases limit - steps,
    {
        proof {
            lemma_one_more_step(saved, dt, steps as nat);
        }
        rest = rest.minus(dt);
        steps = steps + 1;
    }
    if steps == limit {
        rest = T::ratio(0, 1);
    }
    (steps, rest)
}

/// A step is taken off what the steps before it left.
proof fn lemma_one_more_step<T: Scalar>(saved: T, dt: T, steps: nat)
    ensures
        after_steps(saved, dt, steps + 1) == diff(after_steps(saved, dt, steps), dt),
    decreases steps,
{
    if steps > 0 {
        lemma_one_more_step(diff(saved, dt), dt, (steps - 1) as nat);
    } else {
        assert(after_steps(diff(saved, dt), dt, 0) == diff(saved, dt));
    }
}

/// No frame takes more steps than the limit. Below the limit all steps are taken
/// that the time holds, and what is left is too short for another; at the limit
/// nothing is left.
pub proof fn law_no_time_piles_up<T: Scalar>(saved: T, dt: T, limit: nat)
    ensures
        steps_in(saved, dt, limit) <= limit,
        steps_in(saved, dt, limit) < limit ==> !ge(rest_of(saved, dt, limit), dt),
        steps_in(saved, dt, limit) == limit ==> rest_of(saved, dt, limit) == lit::<T>(0, 1),
    decreases limit,
{
    if limit > 0 && ge(saved, dt) {
        law_no_time_piles_up(diff(saved, dt), dt, (limit - 1) as nat);
    }
}

} // verus!
