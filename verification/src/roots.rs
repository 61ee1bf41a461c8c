//! Whole square roots.
use vstd::prelude::*;

verus! {

/// The largest number whose square is no larger than a number.
pub open spec fn root(n: nat) -> nat
    decreases n,
{
    if n == 0 {
        0
    } else {
        let r = root((n - 1) as nat);
        if (r + 1) * (r + 1) <= n {
            r + 1
        } else {
            r
        }
    }
}

/// A number lies between the square of its root and the next square.
pub proof fn law_root(n: nat)
    ensures
        root(n) * root(n) <= n < (root(n) + 1) * (root(n) + 1),
    decreases n,
{
    if n > 0 {
        law_root((n - 1) as nat);
        let r = root((n - 1) as nat);
        let q = root(n);
        assert((q + 1) * (q + 1) == q * q + 2 * q + 1) by (nonlinear_arith);
        if (r + 1) * (r + 1) <= n {
            assert(q == r + 1);
        } else {
            assert(q == r);
        }
        assert(r + 1 == q ==> (r + 1) * (r + 1) == q * q);
    } else {
        let q = root(n);
        assert(q * q <= n < (q + 1) * (q + 1)) by (nonlinear_arith)
            requires
                q == 0,
                n == 0,
        ;
    }
}

/// No other number has the square of the root below it and the next one above.
pub proof fn lemma_only_root(n: nat, r: nat)
    requires
        r * r <= n < (r + 1) * (r + 1),
    ensures
        r == root(n),
{
    law_root(n);
    let q = root(n);
    if r < q {
        assert((r + 1) * (r + 1) <= q * q) by (nonlinear_arith)
            requires
                r + 1 <= q,
        ;
    } else if q < r {
        assert((q + 1) * (q + 1) <= r * r) by (nonlinear_arith)
            requires
                q + 1 <= r,
        ;
    }
}

/// The root of a number.
pub fn floor_root(n: u128) -> (out: u128)
    requires
        n < 0x400_0000_0000_0000_0000_0000_0000,
    ensures
        out == root(n as nat),
        out < 0x20_0000_0000_0000,
{
    let mut low: u128 = 0;
    let mut high: u128 = 0x20_0000_0000_0000;
    assert(0x20_0000_0000_0000u128 * 0x20_0000_0000_0000u128 == 0x400_0000_0000_0000_0000_0000_0000)
        by (nonlinear_arith);
    while high - low > 1
        invariant
            low < high <= 0x20_0000_0000_0000,
            low * low <= n < high * high,
        decreases high - low,
    {
        let middle: u128 = low + (high - low) / 2;
        assert(middle * middle <= 0x400_0000_0000_0000_0000_0000_0000) by (nonlinear_arith)
            requires
                0 <= middle <= 0x20_0000_0000_0000,
        ;
        if middle * middle <= n {
            low = middle;
        } else {
            high = middle;
        }
    }
    proof {
        assert(high == low + 1);
        lemma_only_root(n as nat, low as nat);
    }
    low
}

} // verus!
