//! How many workgroups a pass takes.

use vstd::prelude::*;

verus! {

/// `n / size`, rounded up.
pub open spec fn groups_for(n: int, size: int) -> int {
    (n + size - 1) / size
}

/// Workgroups of `size` threads that give each of `n` items a thread.
pub fn cover(n: u32, size: u32) -> (groups: u32)
    requires
        size >= 1,
    ensures
        groups == groups_for(n as int, size as int),
{
    proof {
        lemma_rounding_up(n as int, size as int);
    }
    if n % size == 0 {
        n / size
    } else {
        n / size + 1
    }
}

/// Rounding up adds one to the quotient where there is a rest.
proof fn lemma_rounding_up(n: int, size: int)
    requires
        n >= 0,
        size >= 1,
    ensures
        groups_for(n, size) == if n % size == 0 {
            n / size
        } else {
            n / size + 1
        },
        n / size <= n,
        n % size != 0 ==> n / size < n,
        n / size >= 0,
{
    let (q, r) = (n / size, n % size);
    assert(n == size * q + r && 0 <= r < size && q >= 0 && q <= n) by (nonlinear_arith)
        requires
            n >= 0,
            size >= 1,
            q == n / size,
            r == n % size,
    ;
    if r == 0 {
        vstd::arithmetic::div_mod::lemma_fundamental_div_mod_converse(
            n + size - 1,
            size,
            q,
            size - 1,
        );
        assert(n + size - 1 == q * size + (size - 1)) by (nonlinear_arith)
            requires
                n == size * q,
        ;
    } else {
        assert(n + size - 1 == (q + 1) * size + (r - 1)) by (nonlinear_arith)
            requires
                n == size * q + r,
        ;
        vstd::arithmetic::div_mod::lemma_fundamental_div_mod_converse(
            n + size - 1,
            size,
            q + 1,
            r - 1,
        );
        assert(q < n) by (nonlinear_arith)
            requires
                n == size * q + r,
                size >= 1,
                r >= 1,
                q >= 0,
        ;
    }
}

/// The workgroups of a pass have a thread for each item, and none of them has
/// nothing to do.
pub proof fn law_groups_cover_the_items(n: int, size: int)
    requires
        n >= 0,
        size >= 1,
    ensures
        groups_for(n, size) * size >= n,
        n > 0 ==> (groups_for(n, size) - 1) * size < n,
        groups_for(n, size) >= 0,
        n == 0 ==> groups_for(n, size) == 0,
{
    let m = n + size - 1;
    let (g, r) = (m / size, m % size);
    assert(m == size * g + r && 0 <= r < size && g >= 0) by (nonlinear_arith)
        requires
            m >= 0,
            size >= 1,
            g == m / size,
            r == m % size,
    ;
    assert(g * size == size * g && (g - 1) * size == size * g - size) by (nonlinear_arith);
    if n == 0 {
        assert(g == 0) by (nonlinear_arith)
            requires
                size - 1 == size * g + r,
                0 <= r,
                g >= 0,
                size >= 1,
        ;
    }
}

} // verus!
