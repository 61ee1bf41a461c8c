//! What a double- or single-precision number keeps of an integer, so that
//! quantities shown or scaled in floating point come out the same in integers.
use vstd::prelude::*;

verus! {

/// How many integers a significand can tell apart.
pub const SIGNIFICAND: u64 = 0x20_0000_0000_0000;

/// How many integers the significand of a single-precision number can tell apart.
pub const SHORT_SIGNIFICAND: u64 = 0x100_0000;

/// The quotient rounded to the nearest integer, halves to the even one.
pub open spec fn rounded_even(n: nat, d: nat) -> nat {
    let q = n / d;
    let r = n % d;
    if 2 * r > d || (2 * r == d && q % 2 == 1) {
        q + 1
    } else {
        q
    }
}

/// The quotient rounded to the nearest integer, halves up.
pub open spec fn rounded_up(n: nat, d: nat) -> nat {
    (2 * n + d) / (2 * d)
}

/// The number rounded to a multiple of the smallest power of two, from `unit`
/// on, at which the quotient stays below a limit.
pub open spec fn nearest_from(n: nat, unit: nat, limit: nat) -> nat
    decreases n / unit,
{
    if unit == 0 || limit == 0 || n / unit < limit {
        rounded_even(n, unit) * unit
    } else {
        proof {
            lemma_halving(n, unit);
        }
        nearest_from(n, 2 * unit, limit)
    }
}

/// The double-precision number nearest to a natural number.
pub open spec fn nearest_double(n: nat) -> nat {
    nearest_from(n, 1, SIGNIFICAND as nat)
}

/// The single-precision number nearest to a natural number.
pub open spec fn nearest_single(n: nat) -> nat {
    nearest_from(n, 1, SHORT_SIGNIFICAND as nat)
}

proof fn lemma_even_rises(a: nat, b: nat, d: nat)
    requires
        d > 0,
        a <= b,
    ensures
        rounded_even(a, d) <= rounded_even(b, d),
{
    let (p, q) = (a / d, b / d);
    let (r, s) = (a % d, b % d);
    assert(p <= q && (p == q ==> r <= s)) by (nonlinear_arith)
        requires
            d > 0,
            a <= b,
            p == a / d,
            q == b / d,
            r == a % d,
            s == b % d,
    ;
}

proof fn lemma_from_at_least(n: nat, unit: nat, limit: nat)
    requires
        unit > 0,
        limit > 0,
        limit % 2 == 0,
        n / unit >= limit,
    ensures
        nearest_from(n, 2 * unit, limit) >= limit * unit,
    decreases n / unit,
{
    lemma_halving(n, unit);
    let wide = 2 * unit;
    if n / wide < limit {
        let half = limit / 2;
        assert(n / wide >= half) by (nonlinear_arith)
            requires
                n / unit >= limit,
                wide == 2 * unit,
                unit > 0,
                limit == 2 * half,
        ;
        assert(rounded_even(n, wide) * wide >= limit * unit) by (nonlinear_arith)
            requires
                rounded_even(n, wide) >= half,
                wide == 2 * unit,
                limit == 2 * half,
        ;
    } else {
        lemma_from_at_least(n, wide, limit);
        assert(limit * wide >= limit * unit) by (nonlinear_arith)
            requires
                wide == 2 * unit,
        ;
    }
}

proof fn lemma_from_rises(a: nat, b: nat, unit: nat, limit: nat)
    requires
        a <= b,
        unit > 0,
        limit > 0,
        limit % 2 == 0,
    ensures
        nearest_from(a, unit, limit) <= nearest_from(b, unit, limit),
    decreases b / unit,
{
    assert(a / unit <= b / unit) by (nonlinear_arith)
        requires
            a <= b,
            unit > 0,
    ;
    if b / unit < limit {
        lemma_even_rises(a, b, unit);
        assert(rounded_even(a, unit) * unit <= rounded_even(b, unit) * unit) by (nonlinear_arith)
            requires
                rounded_even(a, unit) <= rounded_even(b, unit),
        ;
    } else if a / unit < limit {
        lemma_from_at_least(b, unit, limit);
        assert(rounded_even(a, unit) * unit <= limit * unit) by (nonlinear_arith)
            requires
                rounded_even(a, unit) <= limit,
        ;
    } else {
        lemma_halving(b, unit);
        lemma_from_rises(a, b, 2 * unit, limit);
    }
}

/// A larger number is not rounded to less in single precision.
pub proof fn lemma_single_rises(a: nat, b: nat)
    requires
        a <= b,
    ensures
        nearest_single(a) <= nearest_single(b),
{
    lemma_from_rises(a, b, 1, SHORT_SIGNIFICAND as nat);
}

/// Doubling the unit makes a quotient that is not zero smaller.
pub proof fn lemma_halving(n: nat, unit: nat)
    requires
        unit > 0,
        n / unit >= 1,
    ensures
        n / (2 * unit) < n / unit,
{
    assert(n / (2 * unit) < n / unit) by (nonlinear_arith)
        requires
            unit > 0,
            n / unit >= 1,
    ;
}

/// The quotient rounded to the nearest integer, halves to the even one.
pub fn divide_even(n: u128, d: u128) -> (out: u128)
    requires
        0 < d <= u128::MAX / 2,
    ensures
        out == rounded_even(n as nat, d as nat),
{
    let q: u128 = n / d;
    let r: u128 = n % d;
    if 2 * r > d || (2 * r == d && q % 2 == 1) {
        assert(q < u128::MAX) by (nonlinear_arith)
            requires
                q == n / d,
                r == n % d,
                d > 0,
                2 * r >= d,
                n <= u128::MAX,
        ;
        q + 1
    } else {
        q
    }
}

/// The double-precision number nearest to a natural number below 2^120.
pub fn to_double(n: u128) -> (out: u128)
    requires
        n < 0x100_0000_0000_0000_0000_0000_0000_0000,
    ensures
        out == nearest_double(n as nat),
        out <= 2 * n,
{
    round_to(n, SIGNIFICAND as u128)
}

/// The single-precision number nearest to a natural number below 2^120.
pub fn to_single(n: u128) -> (out: u128)
    requires
        n < 0x100_0000_0000_0000_0000_0000_0000_0000,
    ensures
        out == nearest_single(n as nat),
        out <= 2 * n,
{
    round_to(n, SHORT_SIGNIFICAND as u128)
}

fn round_to(n: u128, limit: u128) -> (out: u128)
    requires
        n < 0x100_0000_0000_0000_0000_0000_0000_0000,
        limit >= 2,
    ensures
        out == nearest_from(n as nat, 1, limit as nat),
        out <= 2 * n,
{
    let mut unit: u128 = 1;
    while n / unit >= limit
        invariant
            n < 0x100_0000_0000_0000_0000_0000_0000_0000,
            limit >= 2,
            1 <= unit,
            unit <= 0x100_0000_0000_0000_0000_0000_0000_0000,
            unit == 1 || unit <= n,
            nearest_from(n as nat, 1, limit as nat) == nearest_from(
                n as nat,
                unit as nat,
                limit as nat,
            ),
        decreases n / unit,
    {
        proof {
            lemma_halving(n as nat, unit as nat);
            assert(2 * unit <= n) by (nonlinear_arith)
                requires
                    unit >= 1,
                    n / unit >= 2,
            ;
        }
        unit = 2 * unit;
    }
    let q: u128 = divide_even(n, unit);
    proof {
        if unit == 1 {
            assert(n / unit == n && n % unit == 0) by (nonlinear_arith)
                requires
                    unit == 1,
            ;
            assert(q == n);
            assert(q * unit == n) by (nonlinear_arith)
                requires
                    unit == 1,
                    q == n,
            ;
        }
        let quotient = n / unit;
        assert(q <= quotient + 1);
        assert(quotient * unit <= n) by (nonlinear_arith)
            requires
                unit >= 1,
                quotient == n / unit,
        ;
        assert(q * unit <= n + unit) by (nonlinear_arith)
            requires
                q <= quotient + 1,
                quotient * unit <= n,
                unit >= 1,
        ;
    }
    q * unit
}

/// A number doubled until its quotient by another fills a significand.
pub open spec fn widened(n: nat, d: nat) -> nat
    decreases
            (if n < d * 0x10_0000_0000_0000 {
                d * 0x10_0000_0000_0000 - n
            } else {
                0
            }),
{
    if n == 0 || n >= d * 0x10_0000_0000_0000 {
        n
    } else {
        widened(2 * n, d)
    }
}

/// The double-precision number nearest to a large quotient.
pub open spec fn nearest_quotient(n: nat, d: nat, unit: nat) -> nat
    decreases n / (d * unit),
{
    if d * unit == 0 || n / (d * unit) < SIGNIFICAND {
        rounded_even(n, d * unit) * unit
    } else {
        proof {
            lemma_halving(n, d * unit);
            assert(d * (2 * unit) == 2 * (d * unit)) by (nonlinear_arith);
        }
        nearest_quotient(n, d, 2 * unit)
    }
}

/// The tenths with which a quotient is shown, held as the double-precision number
/// nearest to it: rounded to the nearest, and where the quotient lies halfway, to
/// the side on which that number lies; to the even one where it is the quotient
/// itself.
pub open spec fn shown_tenths(n: nat, d: nat) -> nat {
    let q = 10 * n / d;
    let r = 10 * n % d;
    let wide = widened(n, d);
    let kept = rounded_even(wide, d) * d;
    if n / d >= 0x10_0000_0000_0000 {
        10 * nearest_quotient(n, d, 1)
    } else if 2 * r > d || (2 * r == d && (kept > wide || (kept == wide && q % 2 == 1))) {
        q + 1
    } else {
        q
    }
}

fn widen(n: u128, d: u128) -> (out: u128)
    requires
        0 < d <= 1000,
        n < d * 0x10_0000_0000_0000,
    ensures
        out == widened(n as nat, d as nat),
        out < d * 0x20_0000_0000_0000,
{
    let limit: u128 = d * 0x10_0000_0000_0000;
    let mut wide: u128 = n;
    while wide > 0 && wide < limit
        invariant
            0 < d <= 1000,
            limit == d * 0x10_0000_0000_0000,
            wide < 2 * limit,
            widened(wide as nat, d as nat) == widened(n as nat, d as nat),
        decreases
                (if wide < limit {
                    limit - wide
                } else {
                    0
                }),
    {
        wide = 2 * wide;
    }
    wide
}

fn near_quotient(n: u128, d: u128) -> (out: u128)
    requires
        0 < d <= 1000,
        n <= 0xffff_ffff_ffff_ffff,
    ensures
        out == nearest_quotient(n as nat, d as nat, 1),
        out <= 0x1_ffff_ffff_ffff_ffff,
{
    let mut unit: u128 = 1;
    let mut step: u128 = d;
    while n / step >= SIGNIFICAND as u128
        invariant
            0 < d <= 1000,
            n <= 0xffff_ffff_ffff_ffff,
            1 <= unit <= step,
            step == d * unit,
            step <= 1000 || step <= n,
            nearest_quotient(n as nat, d as nat, unit as nat) == nearest_quotient(
                n as nat,
                d as nat,
                1,
            ),
        decreases n / step,
    {
        proof {
            lemma_halving(n as nat, step as nat);
            assert(d * (2 * unit) == 2 * (d * unit)) by (nonlinear_arith);
            assert(2 * step <= n) by (nonlinear_arith)
                requires
                    n / step >= 0x20_0000_0000_0000,
                    step > 0,
            ;
        }
        unit = 2 * unit;
        step = 2 * step;
    }
    let whole: u128 = divide_even(n, step);
    proof {
        assert(whole <= n / step + 1);
        assert(whole * step <= n + step) by (nonlinear_arith)
            requires
                whole <= n / step + 1,
                step > 0,
        ;
        assert(whole * unit <= whole * step) by (nonlinear_arith)
            requires
                unit <= step,
        ;
        assert(0 <= whole * unit) by (nonlinear_arith);
    }
    whole * unit
}

/// The tenths with which a quotient is shown.
pub fn show_tenths(n: u64, d: u64) -> (out: u128)
    requires
        0 < d <= 1000,
    ensures
        out == shown_tenths(n as nat, d as nat),
        out <= 0x13_ffff_ffff_ffff_fff6,
{
    let value: u128 = n as u128;
    let by: u128 = d as u128;
    if value / by >= 0x10_0000_0000_0000 {
        return 10 * near_quotient(value, by);
    }
    proof {
        assert(value < by * 0x10_0000_0000_0000) by (nonlinear_arith)
            requires
                value / by < 0x10_0000_0000_0000,
                by > 0,
        ;
    }
    let wide = widen(value, by);
    let quotient: u128 = divide_even(wide, by);
    proof {
        assert(quotient <= wide / by + 1);
        assert(quotient * by <= wide + by) by (nonlinear_arith)
            requires
                quotient <= wide / by + 1,
                by > 0,
        ;
        assert(0 <= quotient * by) by (nonlinear_arith);
    }
    let kept: u128 = quotient * by;
    let q: u128 = 10 * value / by;
    let r: u128 = 10 * value % by;
    proof {
        assert(q <= 10 * value) by (nonlinear_arith)
            requires
                q == 10 * value / (by as int),
                by > 0,
        ;
    }
    if 2 * r > by || (2 * r == by && (kept > wide || (kept == wide && q % 2 == 1))) {
        q + 1
    } else {
        q
    }
}

} // verus!
