//! Loops whose rounds run on the threads of a pool.

use rayon::prelude::{IndexedParallelIterator, IntoParallelRefMutIterator, ParallelIterator};
use vstd::prelude::*;

verus! {

/// Replace every element of `out` by what `f` gives for its index and its
/// value, the elements being handed out to threads.
///
/// The loop is `rayon`'s `par_iter_mut`, `enumerate` and `for_each`. It is taken
/// from there that `for_each` calls `f` once for every element with the
/// element's own index, and that it returns once all calls have returned.
#[verifier::external_body]
pub(crate) fn par_update<A: Copy + Send, F: Fn(usize, A) -> A + Sync + Send>(
    out: &mut Vec<A>,
    f: F,
)
    requires
        forall|i: usize, a: A| i < old(out)@.len() ==> #[trigger] call_requires(f, (i, a)),
    ensures
        final(out)@.len() == old(out)@.len(),
        forall|i: int|
            0 <= i < old(out)@.len() ==> call_ensures(
                f,
                (i as usize, old(out)@[i]),
                #[trigger] final(out)@[i],
            ),
{
    out.par_iter_mut().enumerate().for_each(|(i, a)| *a = f(i, *a));
}

/// Replace every pair of elements of `left` and `right` by what `f` gives for
/// their index and their values, the pairs being handed out to threads.
///
/// The loop is `rayon`'s `par_iter_mut`, `zip`, `enumerate` and `for_each`. It is
/// taken from there that `zip` pairs the elements that have the same index, and
/// that `for_each` calls `f` once for every pair and returns once all calls have
/// returned.
#[verifier::external_body]
pub(crate) fn par_update_pairs<
    A: Copy + Send,
    B: Copy + Send,
    F: Fn(usize, A, B) -> (A, B) + Sync + Send,
>(left: &mut Vec<A>, right: &mut Vec<B>, f: F)
    requires
        old(left)@.len() == old(right)@.len(),
        forall|i: usize, a: A, b: B|
            i < old(left)@.len() ==> #[trigger] call_requires(f, (i, a, b)),
    ensures
        final(left)@.len() == old(left)@.len(),
        final(right)@.len() == old(right)@.len(),
        forall|i: int|
            #![trigger final(left)@[i]]
            #![trigger final(right)@[i]]
            0 <= i < old(left)@.len() ==> call_ensures(
                f,
                (i as usize, old(left)@[i], old(right)@[i]),
                (final(left)@[i], final(right)@[i]),
            ),
{
    left.par_iter_mut().zip(right.par_iter_mut()).enumerate().for_each(
        |(i, (a, b))| (*a, *b) = f(i, *a, *b),
    );
}

} // verus!
