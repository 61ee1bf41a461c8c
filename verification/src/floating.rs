//! Double-precision numbers. Each is a whole multiple of the smallest one, so its
//! value is held as that many; an operation gives the number nearest to the exact
//! result, and of two that are equally near the even one.
use vstd::arithmetic::div_mod::{lemma_fundamental_div_mod, lemma_fundamental_div_mod_converse};
use vstd::arithmetic::power2::{
    lemma2_to64, lemma2_to64_rest, lemma_pow2_adds, lemma_pow2_pos, lemma_pow2_strictly_increases,
    lemma_pow2_unfold, pow2,
};
use vstd::prelude::*;
use crate::double::{divide_even, nearest_quotient, rounded_even, rounded_up, SIGNIFICAND};
use crate::roots::{floor_root, law_root, lemma_only_root, root};

verus! {

// ---------------------------------------------------------------------------
// Values
// ---------------------------------------------------------------------------

/// The value of one.
pub open spec fn one() -> nat {
    pow2(1074)
}

/// The value from which on a number counts as infinite.
pub open spec fn endless() -> nat {
    pow2(2098)
}

/// The number nearest to a quotient of values.
#[verifier::opaque]
pub open spec fn near(n: nat, d: nat) -> nat {
    let v = nearest_quotient(n, d, 1);
    if v < endless() {
        v
    } else {
        endless()
    }
}

/// The number nearest to a quotient, on either side of zero.
pub open spec fn near_signed(n: int, d: nat) -> int {
    if n < 0 {
        -near((-n) as nat, d)
    } else {
        near(n as nat, d) as int
    }
}

/// The number nearest to a fraction.
pub open spec fn fraction(n: nat, d: nat) -> nat {
    near(n * one(), d)
}

/// The number nearest to a natural number.
pub open spec fn natural(n: nat) -> nat {
    fraction(n, 1)
}

/// The number nearest to an integer.
pub open spec fn integer(n: int) -> int {
    near_signed(n * one(), 1)
}

/// The number nearest to a sum.
pub open spec fn sum(a: int, b: int) -> int {
    near_signed(a + b, 1)
}

/// The number nearest to a difference.
pub open spec fn difference(a: int, b: int) -> int {
    near_signed(a - b, 1)
}

/// The number nearest to a product.
pub open spec fn product(a: int, b: int) -> int {
    near_signed(a * b, one())
}

/// The number nearest to a quotient.
pub open spec fn quotient(a: nat, b: nat) -> nat {
    near(a * one(), b)
}

/// The least whole number that is not below a value, as far as 64 bits hold it.
pub open spec fn ceiling(v: nat) -> int {
    let whole = (v + one() - 1) / one() as int;
    if whole > u64::MAX {
        u64::MAX as int
    } else {
        whole
    }
}

/// The whole number nearest to a value, halves up, as far as 64 bits hold it.
pub open spec fn rounded(v: nat) -> int {
    let whole = rounded_up(v, one());
    if whole > u64::MAX {
        u64::MAX as int
    } else {
        whole as int
    }
}

/// The most tenths that are shown.
pub const SHOWN_LIMIT: u128 = 0x20_0000_0000_0000_0000_0000_0000_0000;

/// The tenths with which a value is shown: the nearest whole number of them, of two
/// the even one.
pub open spec fn tenths(v: nat) -> nat {
    let all = rounded_even(10 * v, one());
    if all > SHOWN_LIMIT {
        SHOWN_LIMIT as nat
    } else {
        all
    }
}

/// The multiple of a power of two, the least from `unit` on at which a significand
/// suffices, that is nearest to the square root of a number.
pub open spec fn root_from(x: nat, unit: nat) -> nat
    decreases root(x) / unit,
{
    let q = root(x) / unit;
    if unit == 0 || q < SIGNIFICAND {
        let half = (2 * q + 1) * unit;
        if 4 * x > half * half || (4 * x == half * half && q % 2 == 1) {
            (q + 1) * unit
        } else {
            q * unit
        }
    } else {
        proof {
            crate::double::lemma_halving(root(x), unit);
        }
        root_from(x, 2 * unit)
    }
}

/// The number nearest to the square root.
#[verifier::opaque]
pub open spec fn square_root(v: nat) -> nat {
    root_from(v * one(), 1)
}

// ---------------------------------------------------------------------------
// Rounding
// ---------------------------------------------------------------------------

proof fn lemma_same_quotient(n: nat, d: nat, k: nat)
    requires
        d > 0,
        k > 0,
    ensures
        (n * k) / (d * k) == n / d,
        (n * k) % (d * k) == (n % d) * k,
        rounded_even(n * k, d * k) == rounded_even(n, d),
        d * k > 0,
{
    let q = n / d;
    let r = n % d;
    lemma_fundamental_div_mod(n as int, d as int);
    assert(n * k == q * (d * k) + r * k && 0 <= r * k < d * k && d * k > 0) by (nonlinear_arith)
        requires
            n == d * q + r,
            0 <= r < d,
            k > 0,
    ;
    lemma_fundamental_div_mod_converse((n * k) as int, (d * k) as int, q as int, (r * k) as int);
    assert(2 * (r * k) > d * k <==> 2 * r > d) by (nonlinear_arith)
        requires
            k > 0,
    ;
    assert(2 * (r * k) == d * k <==> 2 * r == d) by (nonlinear_arith)
        requires
            k > 0,
    ;
}

proof fn lemma_scaled(n: nat, d: nat, unit: nat, k: nat)
    requires
        d > 0,
        unit > 0,
        k > 0,
    ensures
        nearest_quotient(n * k, d, unit * k) == nearest_quotient(n, d, unit) * k,
    decreases n / (d * unit),
{
    assert(d * unit > 0 && d * (unit * k) == (d * unit) * k && d * (2 * unit) == 2 * (d * unit)
        && 2 * (unit * k) == (2 * unit) * k && unit * k > 0) by (nonlinear_arith)
        requires
            d > 0,
            unit > 0,
            k > 0,
    ;
    lemma_same_quotient(n, d * unit, k);
    if n / (d * unit) < SIGNIFICAND {
        let m = rounded_even(n, d * unit);
        assert(m * (unit * k) == (m * unit) * k) by (nonlinear_arith);
    } else {
        crate::double::lemma_halving(n, d * unit);
        lemma_scaled(n, d, 2 * unit, k);
    }
}

proof fn lemma_common(n: nat, d: nat, unit: nat, k: nat)
    requires
        d > 0,
        unit > 0,
        k > 0,
    ensures
        nearest_quotient(n * k, d * k, unit) == nearest_quotient(n, d, unit),
    decreases n / (d * unit),
{
    assert(d * unit > 0 && (d * k) * unit == (d * unit) * k && d * (2 * unit) == 2 * (d * unit)
        && d * k > 0) by (nonlinear_arith)
        requires
            d > 0,
            unit > 0,
            k > 0,
    ;
    lemma_same_quotient(n, d * unit, k);
    if n / (d * unit) >= SIGNIFICAND {
        crate::double::lemma_halving(n, d * unit);
        lemma_common(n, d, 2 * unit, k);
    }
}

proof fn lemma_skip(n: nat, d: nat, j: nat)
    requires
        d > 0,
        n / (d * pow2(j)) >= 0x10_0000_0000_0000,
    ensures
        nearest_quotient(n, d, 1) == nearest_quotient(n, d, pow2(j)),
    decreases j,
{
    lemma_pow2_pos(j);
    if j == 0 {
        lemma2_to64();
    } else {
        let k = (j - 1) as nat;
        lemma_pow2_pos(k);
        lemma_pow2_unfold(j);
        let low = d * pow2(k);
        assert(d * pow2(j) == 2 * low && low > 0) by (nonlinear_arith)
            requires
                pow2(j) == 2 * pow2(k),
                low == d * pow2(k),
                d > 0,
                pow2(k) > 0,
        ;
        assert(n / low >= 0x20_0000_0000_0000) by (nonlinear_arith)
            requires
                low > 0,
                n / (2 * low) >= 0x10_0000_0000_0000,
        ;
        lemma_skip(n, d, k);
    }
}

/// The number nearest to a fraction times a power of two.
spec fn scaled(n: nat, d: nat, e: int) -> nat {
    if e >= 0 {
        near(n * pow2(e as nat), d)
    } else {
        near(n, d * pow2((-e) as nat))
    }
}

proof fn lemma_raised(n: nat, d: nat, e: int)
    requires
        d > 0,
    ensures
        scaled(n, 2 * d, e + 1) == scaled(n, d, e),
{
    if e >= 0 {
        let p = pow2(e as nat);
        lemma_pow2_unfold((e + 1) as nat);
        assert(n * (2 * p) == (n * p) * 2) by (nonlinear_arith);
        lemma_common(n * p, d, 1, 2);
        reveal(near);
        assert(d * 2 == 2 * d);
    } else {
        let p = pow2((-e - 1) as nat);
        lemma_pow2_unfold((-e) as nat);
        assert((2 * d) * p == d * (2 * p)) by (nonlinear_arith);
        if e == -1 {
            lemma2_to64();
            assert(n * 1 == n);
        }
    }
}

proof fn lemma_lowered(n: nat, d: nat, e: int)
    requires
        e > 0,
    ensures
        scaled(2 * n, d, e - 1) == scaled(n, d, e),
{
    let p = pow2((e - 1) as nat);
    lemma_pow2_unfold(e as nat);
    assert((2 * n) * p == n * (2 * p)) by (nonlinear_arith);
}

proof fn lemma_vanishes(n: nat, d: nat, e: int)
    requires
        d > 2 * n,
        e < 0,
    ensures
        scaled(n, d, e) == 0,
{
    let p = pow2((-e) as nat);
    lemma_pow2_pos((-e) as nat);
    assert(d * p >= d) by (nonlinear_arith)
        requires
            p >= 1,
            d >= 0,
    ;
    lemma_nothing(n, d * p);
}

proof fn lemma_nothing(n: nat, d: nat)
    requires
        d > 2 * n,
    ensures
        near(n, d) == 0,
{
    reveal(near);
    lemma_pow2_pos(2098);
    assert(n / d == 0 && n % d == n) by (nonlinear_arith)
        requires
            0 <= n < d,
    ;
    assert(d * 1 == d);
}

proof fn lemma_settled(n: nat, d: nat, e: nat)
    requires
        d > 0,
        n / d < 0x20_0000_0000_0000,
        e == 0 || n / d >= 0x10_0000_0000_0000,
    ensures
        nearest_quotient(n * pow2(e), d, 1) == rounded_even(n, d) * pow2(e),
{
    let p = pow2(e);
    lemma_pow2_pos(e);
    lemma_same_quotient(n, d, p);
    if e == 0 {
        lemma2_to64();
        assert(n * p == n);
    } else {
        lemma_skip(n * p, d, e);
    }
    lemma_scaled(n, d, 1, p);
    assert(1 * p == p);
    assert(d * 1 == d);
    assert(nearest_quotient(n, d, 1) == rounded_even(n, d) * 1);
}

proof fn lemma_settled_near(n: nat, d: nat, e: nat, m: nat)
    requires
        d > 0,
        n / d < 0x20_0000_0000_0000,
        e == 0 || n / d >= 0x10_0000_0000_0000,
        m == rounded_even(n, d),
    ensures
        m <= 0x20_0000_0000_0000,
        e > 0 ==> m >= 0x10_0000_0000_0000,
        m == 0x20_0000_0000_0000 ==> m * pow2(e) == 0x10_0000_0000_0000 * pow2(e + 1),
        scaled(n, d, e as int) == (if e >= 2046 || (e == 2045 && m == 0x20_0000_0000_0000) {
            endless()
        } else {
            m * pow2(e)
        }),
        endless() == 0x10_0000_0000_0000 * pow2(2046),
{
    lemma_settled(n, d, e);
    reveal(near);
    lemma_pow2_unfold(e + 1);
    let p = pow2(e);
    assert(0x20_0000_0000_0000 * p == 0x10_0000_0000_0000 * (2 * p)) by (nonlinear_arith);
    lemma2_to64_rest();
    lemma_pow2_adds(52, 2046);
    lemma_pow2_adds(53, 2045);
    lemma_pow2_pos(e);
    if e >= 2046 {
        if e > 2046 {
            lemma_pow2_strictly_increases(2046, e);
        }
        assert(m * p >= 0x10_0000_0000_0000 * pow2(2046)) by (nonlinear_arith)
            requires
                m >= 0x10_0000_0000_0000,
                p >= pow2(2046),
        ;
    } else {
        if e < 2045 {
            lemma_pow2_strictly_increases(e, 2045);
        }
        if m < 0x20_0000_0000_0000 {
            assert(m * p < 0x20_0000_0000_0000 * pow2(2045)) by (nonlinear_arith)
                requires
                    0 <= m < 0x20_0000_0000_0000,
                    0 < p <= pow2(2045),
            ;
        } else if e < 2045 {
            assert(m * p < 0x20_0000_0000_0000 * pow2(2045)) by (nonlinear_arith)
                requires
                    m == 0x20_0000_0000_0000,
                    0 < p < pow2(2045),
            ;
        }
    }
}

// ---------------------------------------------------------------------------
// Numbers
// ---------------------------------------------------------------------------

/// Whether a significand and an exponent are those of a number: the significand
/// is full wherever the exponent is not the least.
spec fn canonical(significand: u64, exponent: u16) -> bool {
    &&& significand < 0x20_0000_0000_0000
    &&& exponent == 0 || significand >= 0x10_0000_0000_0000
    &&& exponent < 2046 || (exponent == 2046 && significand == 0x10_0000_0000_0000)
}

proof fn lemma_halved(n: nat, d: nat)
    requires
        d > 0,
    ensures
        n / d > 0 ==> n / (2 * d) < n / d,
        n / d >= 0x20_0000_0000_0000 ==> n / (2 * d) >= 0x10_0000_0000_0000,
        n / d <= n,
{
    assert(n / d > 0 ==> n / (2 * d) < n / d) by (nonlinear_arith)
        requires
            d > 0,
    ;
    assert(n / d >= 0x20_0000_0000_0000 ==> n / (2 * d) >= 0x10_0000_0000_0000)
        by (nonlinear_arith)
        requires
            d > 0,
    ;
    assert(n / d <= n) by (nonlinear_arith)
        requires
            d > 0,
    ;
}

fn assemble(numerator: u128, denominator: u128, power: i32) -> (out: (u64, u16))
    requires
        numerator < 0x100_0000_0000_0000_0000_0000_0000_0000,
        0 < denominator <= 0x1_0000_0000_0000_0000,
        -4096 <= power <= 4096,
    ensures
        canonical(out.0, out.1),
        out.0 * pow2(out.1 as nat) == scaled(numerator as nat, denominator as nat, power as int),
{
    let mut n: u128 = numerator;
    let mut d: u128 = denominator;
    let mut e: i128 = power as i128;
    if n == 0 {
        proof {
            let p = pow2(e as nat);
            assert(0 * p == 0) by (nonlinear_arith);
            if e >= 0 {
                lemma_nothing(0, d as nat);
            } else {
                lemma_vanishes(0, d as nat, e as int);
            }
            lemma2_to64();
        }
        return (0, 0);
    }
    while e > 0 && n / d < 0x10_0000_0000_0000
        invariant
            0 < n < 0x100_0000_0000_0000_0000_0000_0000_0000,
            d == denominator,
            0 < d <= 0x1_0000_0000_0000_0000,
            -4096 <= e <= 4096,
            scaled(n as nat, d as nat, e as int) == scaled(
                numerator as nat,
                denominator as nat,
                power as int,
            ),
        decreases e + 4096,
    {
        proof {
            assert(n < 0x10_0000_0000_0000 * 0x1_0000_0000_0000_0000) by (nonlinear_arith)
                requires
                    n / d < 0x10_0000_0000_0000,
                    0 < d <= 0x1_0000_0000_0000_0000,
            ;
            lemma_lowered(n as nat, d as nat, e as int);
        }
        n = 2 * n;
        e = e - 1;
    }
    proof {
        lemma_halved(n as nat, d as nat);
    }
    while e < 0 || n / d >= 0x20_0000_0000_0000
        invariant
            0 < n < 0x100_0000_0000_0000_0000_0000_0000_0000,
            0 < d <= 0x1000_0000_0000_0000_0000_0000_0000_0000,
            -4096 <= e,
            e <= 0 || n / d >= 0x10_0000_0000_0000,
            e <= 0 || e + n / d <= 4097 + 0x100_0000_0000_0000_0000_0000_0000_0000,
            scaled(n as nat, d as nat, e as int) == scaled(
                numerator as nat,
                denominator as nat,
                power as int,
            ),
        decreases
                (if e < 0 {
                    -e
                } else {
                    0
                }),
                n / d,
    {
        if d > 2 * n {
            proof {
                assert(n / d == 0) by (nonlinear_arith)
                    requires
                        0 <= n < d,
                ;
                lemma_vanishes(n as nat, d as nat, e as int);
                lemma2_to64();
            }
            return (0, 0);
        }
        proof {
            lemma_raised(n as nat, d as nat, e as int);
            lemma_halved(n as nat, d as nat);
        }
        d = 2 * d;
        e = e + 1;
    }
    let m: u128 = divide_even(n, d);
    proof {
        lemma_settled_near(n as nat, d as nat, e as nat, m as nat);
    }
    if e >= 2046 || (e == 2045 && m == 0x20_0000_0000_0000) {
        return (0x10_0000_0000_0000, 2046);
    }
    if m == 0x20_0000_0000_0000 {
        return (0x10_0000_0000_0000, (e + 1) as u16);
    }
    (m as u64, e as u16)
}

proof fn lemma_endless(significand: u64, exponent: u16)
    requires
        canonical(significand, exponent),
    ensures
        significand * pow2(exponent as nat) >= endless() <==> exponent == 2046,
{
    let m = significand as int;
    let p = pow2(exponent as nat);
    lemma2_to64_rest();
    lemma_pow2_adds(52, 2046);
    lemma_pow2_adds(53, 2045);
    lemma_pow2_pos(exponent as nat);
    if exponent < 2046 {
        if exponent < 2045 {
            lemma_pow2_strictly_increases(exponent as nat, 2045);
        }
        assert(m * p < 0x20_0000_0000_0000 * pow2(2045)) by (nonlinear_arith)
            requires
                0 <= m < 0x20_0000_0000_0000,
                0 < p <= pow2(2045),
        ;
    }
}

proof fn lemma_nothing_signed()
    ensures
        near(0, one()) == 0,
        near(0, 1) == 0,
{
    lemma_pow2_pos(1074);
    lemma_nothing(0, one());
    lemma_nothing(0, 1);
}

proof fn lemma_product(a: nat, x: nat, b: nat, y: nat)
    ensures
        near((a * pow2(x)) * (b * pow2(y)), one()) == scaled(a * b, 1, x + y - 1074),
{
    let p = pow2(x);
    let q = pow2(y);
    let n = a * b;
    lemma_pow2_adds(x, y);
    lemma_pow2_pos(1074);
    assert((a * p) * (b * q) == n * (p * q)) by (nonlinear_arith)
        requires
            n == a * b,
    ;
    if x + y >= 1074 {
        let e = (x + y - 1074) as nat;
        let k = pow2(e);
        lemma_pow2_adds(e, 1074);
        assert(n * (k * one()) == (n * k) * one()) by (nonlinear_arith);
        lemma_common(n * k, 1, 1, one());
        assert(1 * one() == one());
    } else {
        let e = (1074 - (x + y)) as nat;
        let k = pow2(e);
        lemma_pow2_adds(e, x + y);
        lemma_pow2_pos(x + y);
        lemma_pow2_pos(e);
        lemma_common(n, k, 1, pow2(x + y));
        assert(1 * k == k);
    }
    reveal(near);
}

proof fn lemma_quotient(a: nat, x: nat, b: nat, y: nat)
    requires
        b > 0,
    ensures
        near((a * pow2(x)) * one(), b * pow2(y)) == scaled(a, b, x - y + 1074),
{
    let p = pow2(x);
    let q = pow2(y);
    lemma_pow2_pos(y);
    lemma_pow2_adds(x, 1074);
    assert((a * p) * one() == a * (p * one())) by (nonlinear_arith);
    assert(b * q > 0) by (nonlinear_arith)
        requires
            b > 0,
            q > 0,
    ;
    if x + 1074 >= y {
        let e = (x + 1074 - y) as nat;
        let k = pow2(e);
        lemma_pow2_adds(e, y);
        assert(a * (k * q) == (a * k) * q) by (nonlinear_arith);
        lemma_common(a * k, b, 1, q);
    } else {
        let e = (y - x - 1074) as nat;
        let k = pow2(e);
        let w = pow2(x + 1074);
        lemma_pow2_adds(e, x + 1074);
        lemma_pow2_pos(e);
        lemma_pow2_pos(x + 1074);
        assert(b * (k * w) == (b * k) * w) by (nonlinear_arith);
        assert(b * k > 0) by (nonlinear_arith)
            requires
                b > 0,
                k > 0,
        ;
        lemma_common(a, b * k, 1, w);
    }
    reveal(near);
}

proof fn lemma_at_least(n: nat, d: nat, unit: nat, k: nat)
    requires
        d > 0,
        unit > 0,
        k <= 0x10_0000_0000_0000,
        n / (d * unit) >= k,
    ensures
        nearest_quotient(n, d, unit) >= k * unit,
    decreases n / (d * unit),
{
    assert(d * unit > 0 && d * (2 * unit) == 2 * (d * unit)) by (nonlinear_arith)
        requires
            d > 0,
            unit > 0,
    ;
    if n / (d * unit) < SIGNIFICAND {
        let m = rounded_even(n, d * unit);
        assert(m * unit >= k * unit) by (nonlinear_arith)
            requires
                m >= k,
        ;
    } else {
        crate::double::lemma_halving(n, d * unit);
        lemma_halved(n, d * unit);
        lemma_at_least(n, d, 2 * unit, k);
        assert(k * (2 * unit) >= k * unit) by (nonlinear_arith);
    }
}

/// The number nearest to a quotient of at least one is not zero.
pub proof fn lemma_near_positive(n: nat, d: nat)
    requires
        0 < d <= n,
    ensures
        near(n, d) > 0,
{
    assert(n / d >= 1) by (nonlinear_arith)
        requires
            0 < d <= n,
    ;
    assert(d * 1 == d);
    lemma_at_least(n, d, 1, 1);
    lemma_pow2_pos(2098);
    reveal(near);
}

/// The value of one is not zero.
pub proof fn lemma_one_positive()
    ensures
        one() > 0,
        natural(1) > 0,
{
    lemma_pow2_pos(1074);
    assert(1 * one() == one());
    lemma_near_positive(one(), 1);
}

/// The number nearest to zero is zero.
pub proof fn lemma_zero()
    ensures
        near(0, 1) == 0,
        near(0, one()) == 0,
        forall|a: int| #[trigger] difference(a, a) == 0,
{
    lemma_nothing_signed();
}

/// The number nearest to a natural number is not zero unless that is.
pub proof fn lemma_natural_positive(n: nat)
    requires
        n > 0,
    ensures
        natural(n) > 0,
{
    lemma_fraction_positive(n, 1);
}

/// One is a number itself.
pub proof fn lemma_own_value()
    ensures
        natural(1) == one(),
        near(one(), 1) == one(),
{
    lemma2_to64_rest();
    lemma_pow2_adds(52, 1022);
    lemma_settled_near(0x10_0000_0000_0000, 1, 1022, 0x10_0000_0000_0000);
    assert(1 * one() == one());
}

proof fn lemma_fraction_positive(n: nat, d: nat)
    requires
        n > 0,
        0 < d <= u64::MAX,
    ensures
        fraction(n, d) > 0,
{
    lemma_power_order(64, 1074);
    lemma2_to64_rest();
    assert(n * one() >= d) by (nonlinear_arith)
        requires
            n >= 1,
            one() >= d,
    ;
    lemma_near_positive(n * one(), d);
}

proof fn lemma_nearest_rises(a: nat, b: nat, d: nat, unit: nat)
    requires
        d > 0,
        unit > 0,
        a <= b,
    ensures
        nearest_quotient(a, d, unit) <= nearest_quotient(b, d, unit),
    decreases b / (d * unit),
{
    let step = d * unit;
    assert(step > 0 && d * (2 * unit) == 2 * step) by (nonlinear_arith)
        requires
            d > 0,
            unit > 0,
            step == d * unit,
    ;
    let p = a / step;
    let q = b / step;
    lemma_fundamental_div_mod(a as int, step as int);
    lemma_fundamental_div_mod(b as int, step as int);
    let r = a % step;
    let t = b % step;
    assert(p <= q) by (nonlinear_arith)
        requires
            a == step * p + r,
            b == step * q + t,
            0 <= r < step,
            0 <= t < step,
            a <= b,
            step > 0,
    ;
    if q < SIGNIFICAND {
        let m = rounded_even(a, step);
        let n = rounded_even(b, step);
        if p == q {
            assert(r <= t) by (nonlinear_arith)
                requires
                    a == step * p + r,
                    b == step * q + t,
                    a <= b,
                    p == q,
            ;
        }
        assert(m * unit <= n * unit) by (nonlinear_arith)
            requires
                m <= n,
        ;
    } else if p < SIGNIFICAND {
        let m = rounded_even(a, step);
        lemma_halved(b, step);
        lemma_at_least(b, d, 2 * unit, 0x10_0000_0000_0000);
        assert(m * unit <= 0x10_0000_0000_0000 * (2 * unit)) by (nonlinear_arith)
            requires
                m <= 0x20_0000_0000_0000,
        ;
    } else {
        crate::double::lemma_halving(b, step);
        lemma_nearest_rises(a, b, d, 2 * unit);
    }
}

/// A larger quotient is never nearer to a smaller number.
pub proof fn lemma_near_rises(a: nat, b: nat, d: nat)
    requires
        d > 0,
        a <= b,
    ensures
        near(a, d) <= near(b, d),
{
    lemma_nearest_rises(a, b, d, 1);
    reveal(near);
}

/// Greater naturals have greater numbers nearest to them.
pub proof fn lemma_natural_rises(a: nat, b: nat)
    requires
        a <= b,
    ensures
        natural(a) <= natural(b),
{
    lemma_one_positive();
    assert(a * one() <= b * one()) by (nonlinear_arith)
        requires
            a <= b,
    ;
    lemma_near_rises(a * one(), b * one(), 1);
}

/// The number nearest to a difference rises with it.
pub proof fn lemma_difference_rises(a: int, b: int)
    requires
        a <= b,
    ensures
        near_signed(a, 1) <= near_signed(b, 1),
{
    if a >= 0 {
        lemma_near_rises(a as nat, b as nat, 1);
    } else if b <= 0 {
        lemma_near_rises((-b) as nat, (-a) as nat, 1);
    }
}

proof fn lemma_absorbed(m: nat, e: nat, s: nat)
    requires
        0x10_0000_0000_0000 <= m < 0x20_0000_0000_0000,
        e > 0,
        4 * s < pow2(e),
    ensures
        nearest_quotient(m * pow2(e) + s, 1, 1) == m * pow2(e),
        m * pow2(e) > s,
        nearest_quotient((m * pow2(e) - s) as nat, 1, 1) == m * pow2(e),
{
    let p = pow2(e);
    let above = m * p + s;
    assert(m * p >= p) by (nonlinear_arith)
        requires
            m >= 1,
            p >= 0,
    ;
    lemma_fundamental_div_mod_converse(above as int, p as int, m as int, s as int);
    assert(1 * p == p);
    lemma_skip(above, 1, e);
    if s > 0 {
        let below = (m * p - s) as nat;
        if m > 0x10_0000_0000_0000 {
            assert(below == (m - 1) * p + (p - s)) by (nonlinear_arith)
                requires
                    below == m * p - s,
            ;
            lemma_fundamental_div_mod_converse(below as int, p as int, m - 1, p - s);
            lemma_skip(below, 1, e);
        } else {
            let k = (e - 1) as nat;
            let h = pow2(k);
            lemma_pow2_unfold(e);
            assert(below == 0x1f_ffff_ffff_ffff * h + (h - s)) by (nonlinear_arith)
                requires
                    below == m * p - s,
                    p == 2 * h,
                    m == 0x10_0000_0000_0000,
            ;
            lemma_fundamental_div_mod_converse(
                below as int,
                h as int,
                0x1f_ffff_ffff_ffff,
                h - s,
            );
            assert(1 * h == h);
            lemma_skip(below, 1, k);
            assert(0x20_0000_0000_0000 * h == m * p) by (nonlinear_arith)
                requires
                    p == 2 * h,
                    m == 0x10_0000_0000_0000,
            ;
        }
    }
}

proof fn lemma_absorbed_near(m: u64, e: u16, s: nat)
    requires
        canonical(m, e),
        e > 0,
        4 * s < pow2(e as nat),
    ensures
        near((m * pow2(e as nat) + s) as nat, 1) == m * pow2(e as nat),
        m * pow2(e as nat) > s,
        near((m * pow2(e as nat) - s) as nat, 1) == m * pow2(e as nat),
{
    lemma_absorbed(m as nat, e as nat, s);
    lemma_endless(m, e);
    lemma2_to64_rest();
    lemma_pow2_adds(52, 2046);
    reveal(near);
}

proof fn lemma_below(m: u64, e: u16)
    requires
        m < 0x20_0000_0000_0000,
    ensures
        m * pow2(e as nat) < pow2((e + 53) as nat),
        pow2((e + 53) as nat) == 0x20_0000_0000_0000 * pow2(e as nat),
{
    let p = pow2(e as nat);
    lemma_pow2_pos(e as nat);
    lemma2_to64_rest();
    lemma_pow2_adds(53, e as nat);
    assert(m * p < 0x20_0000_0000_0000 * p) by (nonlinear_arith)
        requires
            0 <= m < 0x20_0000_0000_0000,
            p > 0,
    ;
}

proof fn lemma_power_order(a: nat, b: nat)
    requires
        a <= b,
    ensures
        pow2(a) <= pow2(b),
{
    if a < b {
        lemma_pow2_strictly_increases(a, b);
    }
}

proof fn lemma_ordered(m: u64, e: u16, n: u64, f: u16)
    requires
        canonical(m, e),
        canonical(n, f),
        e < f || (e == f && m < n),
    ensures
        m * pow2(e as nat) < n * pow2(f as nat),
{
    let p = pow2(e as nat);
    let q = pow2(f as nat);
    lemma_pow2_pos(e as nat);
    if e == f {
        assert(m * p < n * p) by (nonlinear_arith)
            requires
                m < n,
                p > 0,
        ;
    } else {
        lemma_pow2_unfold((e + 1) as nat);
        lemma_power_order((e + 1) as nat, f as nat);
        assert(m * p < n * q) by (nonlinear_arith)
            requires
                0 <= m < 0x20_0000_0000_0000,
                n >= 0x10_0000_0000_0000,
                q >= 2 * p,
                p > 0,
        ;
    }
}

fn power_of_two(e: u16) -> (out: u128)
    requires
        e <= 64,
    ensures
        out == pow2(e as nat),
        1 <= out <= 0x1_0000_0000_0000_0000,
{
    let mut out: u128 = 1;
    let mut i: u16 = 0;
    proof {
        lemma2_to64();
    }
    while i < e
        invariant
            i <= e <= 64,
            out == pow2(i as nat),
            1 <= out <= 0x1_0000_0000_0000_0000,
        decreases e - i,
    {
        proof {
            lemma2_to64_rest();
            lemma_pow2_unfold((i + 1) as nat);
            lemma_power_order((i + 1) as nat, 64);
        }
        out = 2 * out;
        i += 1;
    }
    out
}

proof fn lemma_skip_root(x: nat, j: nat)
    requires
        root(x) / pow2(j) >= 0x10_0000_0000_0000,
    ensures
        root_from(x, 1) == root_from(x, pow2(j)),
    decreases j,
{
    lemma_pow2_pos(j);
    if j == 0 {
        lemma2_to64();
    } else {
        let k = (j - 1) as nat;
        let low = pow2(k);
        lemma_pow2_pos(k);
        lemma_pow2_unfold(j);
        let r = root(x);
        assert(r / low >= 0x20_0000_0000_0000) by (nonlinear_arith)
            requires
                low > 0,
                r / (2 * low) >= 0x10_0000_0000_0000,
        ;
        lemma_skip_root(x, k);
    }
}

proof fn lemma_root_scaled(n: nat, h: nat)
    requires
        0x10_0000_0000_0000 <= root(n) < 0x20_0000_0000_0000,
    ensures
        root_from(n * pow2(h + h), 1) == (if n - root(n) * root(n) > root(n) {
            root(n) + 1
        } else {
            root(n)
        }) * pow2(h),
{
    let k = pow2(h);
    let x = n * pow2(h + h);
    let big = root(x);
    let q = big / k;
    let r = root(n);
    lemma_pow2_pos(h);
    lemma_pow2_adds(h, h);
    law_root(x);
    law_root(n);
    lemma_fundamental_div_mod(big as int, k as int);
    let rest = big % k;
    assert(q * q <= n < (q + 1) * (q + 1)) by {
        assert(q * q * (k * k) <= n * (k * k)) by (nonlinear_arith)
            requires
                big == k * q + rest,
                rest >= 0,
                big * big <= n * (k * k),
        ;
        assert(n * (k * k) < (q + 1) * (q + 1) * (k * k)) by (nonlinear_arith)
            requires
                big == k * q + rest,
                rest < k,
                n * (k * k) < (big + 1) * (big + 1),
        ;
        assert(k * k > 0) by (nonlinear_arith)
            requires
                k > 0,
        ;
        let w = k * k;
        let a = q * q;
        let b = (q + 1) * (q + 1);
        assert(a <= n) by (nonlinear_arith)
            requires
                a * w <= n * w,
                w > 0,
        ;
        assert(n < b) by (nonlinear_arith)
            requires
                n * w < b * w,
                w > 0,
        ;
    }
    lemma_only_root(n, q);
    lemma_skip_root(x, h);
    let odd = 2 * r + 1;
    let half = odd * k;
    assert(half * half == (odd * odd) * (k * k)) by (nonlinear_arith)
        requires
            half == odd * k,
    ;
    assert(odd * odd == 4 * (r * r) + 4 * r + 1) by (nonlinear_arith)
        requires
            odd == 2 * r + 1,
    ;
    let w = k * k;
    let o = odd * odd;
    assert(w > 0) by (nonlinear_arith)
        requires
            w == k * k,
            k > 0,
    ;
    assert(4 * (n * w) == (4 * n) * w) by (nonlinear_arith);
    assert((4 * n) * w > o * w <==> 4 * n > o) by (nonlinear_arith)
        requires
            w > 0,
    ;
    assert((4 * n) * w == o * w <==> 4 * n == o) by (nonlinear_arith)
        requires
            w > 0,
    ;
}

proof fn lemma_ceiling_cancels(n: nat, d: nat, k: nat)
    requires
        d > 0,
        k > 0,
    ensures
        (n * k + d * k - 1) / (d * k) as int == (n + d - 1) / d as int,
        d * k > 0,
{
    let q = (n + d - 1) / d as int;
    let r = (n + d - 1) % d as int;
    lemma_fundamental_div_mod(n + d - 1, d as int);
    assert(n * k + d * k - 1 == q * (d * k) + (r * k + k - 1) && 0 <= r * k + k - 1 < d * k && d * k
        > 0) by (nonlinear_arith)
        requires
            n + d - 1 == d * q + r,
            0 <= r < d,
            k > 0,
    ;
    lemma_fundamental_div_mod_converse(n * k + d * k - 1, (d * k) as int, q, r * k + k - 1);
}

/// A double-precision number.
#[derive(Clone, Copy, Debug, PartialEq, Eq, Structural)]
pub struct Double {
    negative: bool,
    significand: u64,
    exponent: u16,
}

/// The value that 64 bits stand for; none where they stand for no finite number.
pub open spec fn bits_value(bits: u64) -> Option<int> {
    let exponent = bits / 0x10_0000_0000_0000 % 2048;
    let fraction = bits % 0x10_0000_0000_0000;
    let size = if exponent == 0 {
        fraction as int
    } else {
        (0x10_0000_0000_0000 + fraction) * pow2((exponent - 1) as nat)
    };
    if exponent == 2047 {
        None
    } else if bits >= 0x8000_0000_0000_0000 {
        Some(-size)
    } else {
        Some(size)
    }
}

impl Double {
    #[verifier::type_invariant]
    spec fn well_formed(self) -> bool {
        &&& canonical(self.significand, self.exponent)
        &&& self.significand == 0 ==> !self.negative
    }

    /// How far the number is from zero.
    pub closed spec fn size(self) -> nat {
        (self.significand * pow2(self.exponent as nat)) as nat
    }

    /// The value of the number.
    pub closed spec fn value(self) -> int {
        if self.negative {
            -self.size()
        } else {
            self.size() as int
        }
    }

    proof fn lemma_sign(self)
        requires
            self.well_formed(),
        ensures
            self.value() < 0 <==> self.negative,
            self.value() == 0 <==> self.significand == 0,
            self.size() >= 0,
    {
        let m = self.significand;
        let p = pow2(self.exponent as nat);
        lemma_pow2_pos(self.exponent as nat);
        assert(m * p >= 0) by (nonlinear_arith);
        assert(m > 0 ==> m * p > 0) by (nonlinear_arith)
            requires
                p > 0,
        ;
        assert(m == 0 ==> m * p == 0) by (nonlinear_arith);
    }

    /// Zero.
    pub fn zero() -> (out: Double)
        ensures
            out.value() == 0,
    {
        proof {
            let p = pow2(0);
            assert(0 * p == 0) by (nonlinear_arith);
        }
        Double { negative: false, significand: 0, exponent: 0 }
    }

    fn build(negative: bool, numerator: u128, denominator: u128, power: i32) -> (out: Double)
        requires
            numerator < 0x100_0000_0000_0000_0000_0000_0000_0000,
            0 < denominator <= 0x1_0000_0000_0000_0000,
            -4096 <= power <= 4096,
        ensures
            out.value() == (if negative {
                -scaled(numerator as nat, denominator as nat, power as int)
            } else {
                scaled(numerator as nat, denominator as nat, power as int) as int
            }),
    {
        let (significand, exponent) = assemble(numerator, denominator, power);
        proof {
            let p = pow2(exponent as nat);
            assert(significand == 0 ==> significand * p == 0) by (nonlinear_arith);
        }
        Double { negative: negative && significand > 0, significand, exponent }
    }

    /// The number that 64 bits stand for; none where it is not finite.
    pub fn from_bits(bits: u64) -> (out: Option<Double>)
        ensures
            match out {
                Some(number) => bits_value(bits) == Some(number.value()),
                None => bits_value(bits) is None,
            },
    {
        let exponent: u64 = bits / 0x10_0000_0000_0000 % 2048;
        let fraction: u64 = bits % 0x10_0000_0000_0000;
        if exponent == 2047 {
            return None;
        }
        proof {
            lemma2_to64();
            let p = pow2(0);
            assert(fraction * p == fraction) by (nonlinear_arith)
                requires
                    p == 1,
            ;
        }
        let negative = bits >= 0x8000_0000_0000_0000;
        if exponent == 0 {
            Some(Double { negative: negative && fraction > 0, significand: fraction, exponent: 0 })
        } else {
            Some(
                Double {
                    negative,
                    significand: 0x10_0000_0000_0000 + fraction,
                    exponent: (exponent - 1) as u16,
                },
            )
        }
    }

    /// The bits that stand for the number; those of an infinite one where it is
    /// too large.
    pub fn to_bits(self) -> (out: u64)
        ensures
            bits_value(out) == (if self.size() >= endless() {
                None
            } else {
                Some(self.value())
            }),
    {
        proof {
            use_type_invariant(&self);
            lemma_endless(self.significand, self.exponent);
            lemma2_to64();
            let f = self.significand;
            let p = pow2(0);
            assert(f * p == f) by (nonlinear_arith)
                requires
                    p == 1,
            ;
        }
        let sign: u64 = if self.negative {
            0x8000_0000_0000_0000
        } else {
            0
        };
        if self.significand >= 0x10_0000_0000_0000 {
            let out: u64 = sign + (self.exponent as u64 + 1) * 0x10_0000_0000_0000 + (
            self.significand - 0x10_0000_0000_0000);
            assert(out / 0x10_0000_0000_0000 % 2048 == self.exponent + 1);
            assert(out % 0x10_0000_0000_0000 == self.significand - 0x10_0000_0000_0000);
            out
        } else {
            let out: u64 = sign + self.significand;
            assert(out / 0x10_0000_0000_0000 % 2048 == 0);
            assert(out % 0x10_0000_0000_0000 == self.significand);
            out
        }
    }

    /// The number nearest to a fraction.
    pub fn fraction(n: u64, d: u64) -> (out: Double)
        requires
            d > 0,
        ensures
            out.value() == fraction(n as nat, d as nat),
            n > 0 ==> out.value() > 0,
    {
        proof {
            if n > 0 {
                lemma_fraction_positive(n as nat, d as nat);
            }
        }
        Double::build(false, n as u128, d as u128, 1074)
    }

    /// The number nearest to a natural number.
    pub fn natural(n: u64) -> (out: Double)
        ensures
            out.value() == natural(n as nat),
            n > 0 ==> out.value() > 0,
    {
        proof {
            if n > 0 {
                lemma_fraction_positive(n as nat, 1);
            }
        }
        Double::build(false, n as u128, 1, 1074)
    }

    /// The number nearest to an integer.
    pub fn integer(n: i64) -> (out: Double)
        ensures
            out.value() == integer(n as int),
    {
        let size: u128 = if n < 0 {
            (-(n as i128)) as u128
        } else {
            n as u128
        };
        proof {
            lemma_pow2_pos(1074);
            let p = one();
            assert(n < 0 ==> n * p < 0 && -(n * p) == (-n) * p) by (nonlinear_arith)
                requires
                    p > 0,
            ;
            assert(n >= 0 ==> n * p >= 0) by (nonlinear_arith)
                requires
                    p > 0,
            ;
        }
        Double::build(n < 0, size, 1, 1074)
    }

    /// Whether the number is finite.
    pub fn is_finite(self) -> (r: bool)
        ensures
            r == (self.size() < endless()),
            self.value() >= 0 ==> self.size() == self.value(),
    {
        proof {
            use_type_invariant(&self);
            self.lemma_sign();
            lemma_endless(self.significand, self.exponent);
        }
        self.exponent < 2046
    }

    /// The number without its sign.
    pub fn without_sign(self) -> (out: Double)
        ensures
            out.value() == (if self.value() < 0 {
                -self.value()
            } else {
                self.value()
            }),
            out.value() >= 0,
    {
        proof {
            use_type_invariant(&self);
            let m = self.significand;
            let p = pow2(self.exponent as nat);
            lemma_pow2_pos(self.exponent as nat);
            assert(m * p >= 0) by (nonlinear_arith);
            assert(m > 0 ==> m * p > 0) by (nonlinear_arith)
                requires
                    p > 0,
            ;
        }
        Double { negative: false, significand: self.significand, exponent: self.exponent }
    }

    /// The product.
    pub fn times(self, other: Double) -> (out: Double)
        ensures
            out.value() == product(self.value(), other.value()),
            self.value() >= 0 && other.value() >= 0 ==> out.value() >= 0,
    {
        proof {
            use_type_invariant(&self);
            use_type_invariant(&other);
        }
        let a: u128 = self.significand as u128;
        let b: u128 = other.significand as u128;
        proof {
            assert(a * b < 0x20_0000_0000_0000 * 0x20_0000_0000_0000) by (nonlinear_arith)
                requires
                    a < 0x20_0000_0000_0000,
                    b < 0x20_0000_0000_0000,
            ;
            assert(0 <= a * b) by (nonlinear_arith);
            lemma_product(a as nat, self.exponent as nat, b as nat, other.exponent as nat);
            let x = self.size() as int;
            let y = other.size() as int;
            assert((-x) * y == -(x * y) && x * (-y) == -(x * y) && (-x) * (-y) == x * y && (x >= 0
                && y >= 0 ==> x * y >= 0)) by (nonlinear_arith);
            lemma_nothing_signed();
        }
        let power: i32 = self.exponent as i32 + other.exponent as i32 - 1074;
        Double::build(self.negative != other.negative, a * b, 1, power)
    }

    /// The square.
    pub fn squared(self) -> (out: Double)
        ensures
            out.value() == product(self.value(), self.value()),
            out.value() >= 0,
    {
        proof {
            let v = self.value();
            assert(v * v >= 0) by (nonlinear_arith);
        }
        self.times(self)
    }

    /// The quotient of numbers that are not below zero.
    pub fn over(self, other: Double) -> (out: Double)
        requires
            self.value() >= 0,
            other.value() > 0,
        ensures
            out.value() == quotient(self.value() as nat, other.value() as nat),
    {
        proof {
            use_type_invariant(&self);
            use_type_invariant(&other);
            self.lemma_sign();
            other.lemma_sign();
            let m = other.significand;
            let p = pow2(other.exponent as nat);
            assert(m == 0 ==> m * p == 0) by (nonlinear_arith);
            lemma_quotient(
                self.significand as nat,
                self.exponent as nat,
                other.significand as nat,
                other.exponent as nat,
            );
        }
        let power: i32 = self.exponent as i32 - other.exponent as i32 + 1074;
        Double::build(false, self.significand as u128, other.significand as u128, power)
    }

    fn gather(self, other: Double) -> (out: Double)
        requires
            self.exponent >= other.exponent,
        ensures
            out.value() == sum(self.value(), other.value()),
    {
        proof {
            use_type_invariant(&self);
            use_type_invariant(&other);
            self.lemma_sign();
            other.lemma_sign();
        }
        let gap: u16 = self.exponent - other.exponent;
        if gap > 64 {
            proof {
                lemma_below(other.significand, other.exponent);
                lemma_power_order((other.exponent + 55) as nat, self.exponent as nat);
                lemma_pow2_unfold((other.exponent + 55) as nat);
                lemma_pow2_unfold((other.exponent + 54) as nat);
                let x = self.size();
                let y = other.size();
                lemma_absorbed_near(self.significand, self.exponent, y);
                assert(near(x + y, 1) == x && near((x - y) as nat, 1) == x && x > y);
            }
            return self;
        }
        let scale = power_of_two(gap);
        let a: u128 = self.significand as u128;
        let b: u128 = other.significand as u128;
        proof {
            assert(a * scale < 0x20_0000_0000_0000 * 0x1_0000_0000_0000_0000) by (nonlinear_arith)
                requires
                    a < 0x20_0000_0000_0000,
                    1 <= scale <= 0x1_0000_0000_0000_0000,
            ;
            assert(0 <= a * scale) by (nonlinear_arith);
        }
        let wide: u128 = a * scale;
        proof {
            let p = pow2(other.exponent as nat);
            lemma_pow2_adds(gap as nat, other.exponent as nat);
            lemma_pow2_pos(other.exponent as nat);
            assert(wide * p == a * (scale * p)) by (nonlinear_arith)
                requires
                    wide == a * scale,
            ;
            assert((wide + b) * p == wide * p + b * p && (wide - b) * p == wide * p - b * p && (b
                - wide) * p == b * p - wide * p) by (nonlinear_arith);
            assert(wide >= b ==> (wide - b) * p >= 0) by (nonlinear_arith)
                requires
                    p > 0,
            ;
            assert(b > wide ==> (b - wide) * p > 0) by (nonlinear_arith)
                requires
                    p > 0,
            ;
            assert(wide == b ==> (wide - b) * p == 0) by (nonlinear_arith);
            assert(wide > b ==> (wide - b) * p > 0) by (nonlinear_arith)
                requires
                    p > 0,
            ;
            lemma_nothing_signed();
        }
        let power: i32 = other.exponent as i32;
        if self.negative == other.negative {
            Double::build(self.negative, wide + b, 1, power)
        } else if wide >= b {
            Double::build(self.negative, wide - b, 1, power)
        } else {
            Double::build(other.negative, b - wide, 1, power)
        }
    }

    /// The sum.
    pub fn plus(self, other: Double) -> (out: Double)
        ensures
            out.value() == sum(self.value(), other.value()),
            self.value() >= 0 && other.value() >= 0 ==> out.value() >= 0,
            self.value() > 0 && other.value() >= 0 ==> out.value() > 0,
    {
        proof {
            if self.value() > 0 && other.value() >= 0 {
                lemma_near_positive((self.value() + other.value()) as nat, 1);
            }
        }
        if self.exponent >= other.exponent {
            self.gather(other)
        } else {
            other.gather(self)
        }
    }

    /// The difference.
    pub fn minus(self, other: Double) -> (out: Double)
        ensures
            out.value() == difference(self.value(), other.value()),
    {
        proof {
            use_type_invariant(&other);
            other.lemma_sign();
        }
        let turned = Double {
            negative: !other.negative && other.significand > 0,
            significand: other.significand,
            exponent: other.exponent,
        };
        self.plus(turned)
    }

    /// Whether the number is less than another.
    pub fn less(self, other: Double) -> (r: bool)
        ensures
            r == (self.value() < other.value()),
    {
        proof {
            use_type_invariant(&self);
            use_type_invariant(&other);
            self.lemma_sign();
            other.lemma_sign();
            let (m, e) = (self.significand, self.exponent);
            let (n, f) = (other.significand, other.exponent);
            if e < f || (e == f && m < n) {
                lemma_ordered(m, e, n, f);
            } else if f < e || (e == f && n < m) {
                lemma_ordered(n, f, m, e);
            }
        }
        if self.negative != other.negative {
            return self.negative;
        }
        if self.exponent == other.exponent && self.significand == other.significand {
            return false;
        }
        let smaller = self.exponent < other.exponent || (self.exponent == other.exponent
            && self.significand < other.significand);
        smaller != self.negative
    }

    /// The least whole number that is not below the number.
    pub fn ceiling(self) -> (out: u64)
        requires
            self.value() >= 0,
        ensures
            out == ceiling(self.value() as nat),
    {
        proof {
            use_type_invariant(&self);
            self.lemma_sign();
        }
        let m: u128 = self.significand as u128;
        if self.exponent >= 1074 {
            let gap: u16 = self.exponent - 1074;
            proof {
                let k = pow2(gap as nat);
                lemma_pow2_pos(gap as nat);
                lemma_pow2_pos(1074);
                lemma_pow2_adds(gap as nat, 1074);
                assert(m * (k * one()) == (m * k) * one()) by (nonlinear_arith);
                lemma_ceiling_cancels((m * k) as nat, 1, one());
                assert(1 * one() == one());
            }
            if gap >= 12 {
                proof {
                    let k = pow2(gap as nat);
                    lemma_power_order(12, gap as nat);
                    lemma2_to64();
                    assert(m * k >= 0x10_0000_0000_0000 * 4096) by (nonlinear_arith)
                        requires
                            m >= 0x10_0000_0000_0000,
                            k >= 4096,
                    ;
                }
                return u64::MAX;
            }
            let scale = power_of_two(gap);
            proof {
                lemma_power_order(gap as nat, 11);
                lemma2_to64();
                assert(m * scale <= 0x1f_ffff_ffff_ffff * 2048) by (nonlinear_arith)
                    requires
                        m <= 0x1f_ffff_ffff_ffff,
                        scale <= 2048,
                ;
            }
            (m * scale) as u64
        } else {
            let gap: u16 = 1074 - self.exponent;
            proof {
                let p = pow2(self.exponent as nat);
                lemma_pow2_pos(self.exponent as nat);
                lemma_pow2_pos(gap as nat);
                lemma_pow2_adds(gap as nat, self.exponent as nat);
                lemma_ceiling_cancels(m as nat, pow2(gap as nat), p);
            }
            if gap > 64 {
                proof {
                    let d = pow2(gap as nat) as int;
                    lemma_power_order(64, gap as nat);
                    lemma2_to64_rest();
                    if m > 0 {
                        lemma_fundamental_div_mod_converse(m + d - 1, d, 1, m - 1);
                    } else {
                        lemma_fundamental_div_mod_converse(m + d - 1, d, 0, d - 1);
                    }
                }
                return if m > 0 {
                    1
                } else {
                    0
                };
            }
            let scale = power_of_two(gap);
            let out: u128 = (m + (scale - 1)) / scale;
            proof {
                assert(out <= m + scale - 1) by (nonlinear_arith)
                    requires
                        out == (m + (scale - 1)) / (scale as int),
                        scale >= 1,
                ;
                assert(scale >= 2 ==> out <= (m + scale - 1) / 2 + 1) by (nonlinear_arith)
                    requires
                        out == (m + (scale - 1)) / (scale as int),
                ;
                lemma_pow2_unfold(gap as nat);
                lemma_pow2_pos((gap - 1) as nat);
                assert(out <= 0xffff_ffff_ffff_ffff);
            }
            out as u64
        }
    }

    /// The whole number nearest to the number, halves up.
    pub fn rounded(self) -> (out: u64)
        requires
            self.value() >= 0,
        ensures
            out == rounded(self.value() as nat),
    {
        proof {
            use_type_invariant(&self);
            self.lemma_sign();
        }
        let m: u128 = self.significand as u128;
        if self.exponent >= 1074 {
            let gap: u16 = self.exponent - 1074;
            proof {
                let k = pow2(gap as nat);
                lemma_pow2_pos(gap as nat);
                lemma_pow2_pos(1074);
                lemma_pow2_adds(gap as nat, 1074);
                let w = (m * k) as nat;
                assert(m * (k * one()) == w * one()) by (nonlinear_arith)
                    requires
                        w == m * k,
                ;
                assert(2 * (w * one()) + one() == w * (2 * one()) + one()) by (nonlinear_arith);
                lemma_fundamental_div_mod_converse(
                    (2 * (w * one()) + one()) as int,
                    (2 * one()) as int,
                    w as int,
                    one() as int,
                );
            }
            if gap >= 12 {
                proof {
                    let k = pow2(gap as nat);
                    lemma_power_order(12, gap as nat);
                    lemma2_to64();
                    assert(m * k >= 0x10_0000_0000_0000 * 4096) by (nonlinear_arith)
                        requires
                            m >= 0x10_0000_0000_0000,
                            k >= 4096,
                    ;
                }
                return u64::MAX;
            }
            let scale = power_of_two(gap);
            proof {
                lemma_power_order(gap as nat, 11);
                lemma2_to64();
                assert(m * scale <= 0x1f_ffff_ffff_ffff * 2048) by (nonlinear_arith)
                    requires
                        m <= 0x1f_ffff_ffff_ffff,
                        scale <= 2048,
                ;
            }
            (m * scale) as u64
        } else {
            let gap: u16 = 1074 - self.exponent;
            proof {
                let p = pow2(self.exponent as nat);
                let d = pow2(gap as nat);
                lemma_pow2_pos(self.exponent as nat);
                lemma_pow2_pos(gap as nat);
                lemma_pow2_adds(gap as nat, self.exponent as nat);
                lemma_same_quotient((2 * m + d) as nat, 2 * d, p);
                assert((2 * m + d) * p == 2 * (m * p) + d * p && (2 * d) * p == 2 * (d * p))
                    by (nonlinear_arith);
            }
            if gap > 64 {
                proof {
                    let d = pow2(gap as nat) as int;
                    lemma_power_order(64, gap as nat);
                    lemma2_to64_rest();
                    lemma_fundamental_div_mod_converse(2 * m + d, 2 * d, 0, 2 * m + d);
                }
                return 0;
            }
            let scale = power_of_two(gap);
            let out: u128 = (2 * m + scale) / (2 * scale);
            proof {
                assert(out <= m + 1) by (nonlinear_arith)
                    requires
                        out == (2 * m + scale) / (2 * scale as int),
                        scale >= 1,
                ;
            }
            out as u64
        }
    }

    /// The tenths with which the number is shown.
    pub fn tenths(self) -> (out: u128)
        requires
            self.value() >= 0,
        ensures
            out == tenths(self.value() as nat),
            out <= SHOWN_LIMIT,
    {
        proof {
            use_type_invariant(&self);
            self.lemma_sign();
        }
        let m: u128 = self.significand as u128;
        if self.exponent >= 1074 {
            let gap: u16 = self.exponent - 1074;
            proof {
                let k = pow2(gap as nat);
                lemma_pow2_pos(gap as nat);
                lemma_pow2_pos(1074);
                lemma_pow2_adds(gap as nat, 1074);
                let w = (10 * (m * k)) as nat;
                assert(10 * (m * (k * one())) == w * one()) by (nonlinear_arith)
                    requires
                        w == 10 * (m * k),
                ;
                lemma_same_quotient(w, 1, one());
                assert(1 * one() == one());
                assert(rounded_even(w, 1) == w);
            }
            if gap > 64 {
                proof {
                    let k = pow2(gap as nat);
                    lemma_power_order(64, gap as nat);
                    lemma2_to64_rest();
                    assert(m * k >= 0x10_0000_0000_0000 * 0x1_0000_0000_0000_0000)
                        by (nonlinear_arith)
                        requires
                            m >= 0x10_0000_0000_0000,
                            k >= 0x1_0000_0000_0000_0000,
                    ;
                    assert(10 * (0x10_0000_0000_0000 * 0x1_0000_0000_0000_0000) > SHOWN_LIMIT);
                }
                return SHOWN_LIMIT;
            }
            let scale = power_of_two(gap);
            proof {
                assert(m * scale <= 0x1f_ffff_ffff_ffff * 0x1_0000_0000_0000_0000)
                    by (nonlinear_arith)
                    requires
                        m <= 0x1f_ffff_ffff_ffff,
                        scale <= 0x1_0000_0000_0000_0000,
                ;
            }
            let all: u128 = 10 * (m * scale);
            if all > SHOWN_LIMIT {
                SHOWN_LIMIT
            } else {
                all
            }
        } else {
            let gap: u16 = 1074 - self.exponent;
            proof {
                let p = pow2(self.exponent as nat);
                let d = pow2(gap as nat);
                lemma_pow2_pos(self.exponent as nat);
                lemma_pow2_pos(gap as nat);
                lemma_pow2_adds(gap as nat, self.exponent as nat);
                lemma_same_quotient((10 * m) as nat, d, p);
                assert((10 * m) * p == 10 * (m * p)) by (nonlinear_arith);
            }
            if gap > 64 {
                proof {
                    let d = pow2(gap as nat) as int;
                    lemma_power_order(64, gap as nat);
                    lemma2_to64_rest();
                    lemma_fundamental_div_mod_converse(10 * m, d, 0, 10 * m);
                }
                return 0;
            }
            let scale = power_of_two(gap);
            let out = divide_even(10 * m, scale);
            proof {
                assert(10 * m / (scale as int) <= 10 * m) by (nonlinear_arith)
                    requires
                        scale >= 1,
                        m >= 0,
                ;
            }
            out
        }
    }

    /// The square root of a number that is not below zero.
    pub fn root(self) -> (out: Double)
        requires
            self.value() >= 0,
        ensures
            out.value() == square_root(self.value() as nat),
    {
        proof {
            use_type_invariant(&self);
            self.lemma_sign();
        }
        if self.significand == 0 {
            proof {
                reveal(square_root);
                assert(0 * one() == 0);
                assert(root(0) == 0);
            }
            return Double::zero();
        }
        let mut n: u128 = self.significand as u128;
        let mut e: u16 = self.exponent + 1074;
        let ghost all = self.size() * one();
        proof {
            let m = self.significand;
            let p = pow2(self.exponent as nat);
            lemma_pow2_adds(self.exponent as nat, 1074);
            assert((m * p) * one() == m * (p * one())) by (nonlinear_arith);
        }
        let ghost top = e;
        proof {
            lemma2_to64();
        }
        while n < 0x100_0000_0000_0000_0000_0000_0000
            invariant
                1 <= n < 0x200_0000_0000_0000_0000_0000_0000,
                all == n * pow2(e as nat),
                e <= top <= 3120,
                top >= 1074,
                top - e <= 104,
                n >= pow2((top - e) as nat),
            decreases e,
        {
            proof {
                let p = pow2((e - 1) as nat);
                lemma_pow2_unfold(e as nat);
                assert(n * (2 * p) == (2 * n) * p) by (nonlinear_arith);
                lemma_pow2_unfold((top - e + 1) as nat);
                if top - e >= 104 {
                    lemma_power_order(104, (top - e) as nat);
                    lemma_pow2_adds(52, 52);
                    lemma2_to64_rest();
                    assert(0x10_0000_0000_0000int * 0x10_0000_0000_0000int
                        == 0x100_0000_0000_0000_0000_0000_0000int) by (nonlinear_arith);
                }
            }
            n = 2 * n;
            e = e - 1;
        }
        if e % 2 == 1 {
            proof {
                let p = pow2((e - 1) as nat);
                lemma_pow2_unfold(e as nat);
                assert(n * (2 * p) == (2 * n) * p) by (nonlinear_arith);
            }
            n = 2 * n;
            e = e - 1;
        }
        let half: u16 = e / 2;
        let r: u128 = floor_root(n);
        proof {
            law_root(n as nat);
            let k = pow2(half as nat);
            lemma_pow2_pos(half as nat);
            lemma_pow2_adds(half as nat, half as nat);
            assert(r >= 0x10_0000_0000_0000) by (nonlinear_arith)
                requires
                    n < (r + 1) * (r + 1),
                    n >= 0x100_0000_0000_0000_0000_0000_0000,
            ;
            lemma_root_scaled(n as nat, half as nat);
            reveal(square_root);
            assert(0 <= r * r <= n);
        }
        let m: u64 = if n - r * r > r {
            (r + 1) as u64
        } else {
            r as u64
        };
        if m == 0x20_0000_0000_0000 {
            proof {
                lemma_pow2_unfold((half + 1) as nat);
                let k = pow2(half as nat);
                assert(square_root(self.value() as nat) == m * k);
                assert(m * k == 0x10_0000_0000_0000 * (2 * k)) by (nonlinear_arith)
                    requires
                        m == 0x20_0000_0000_0000,
                ;
            }
            return Double {
                negative: false,
                significand: 0x10_0000_0000_0000,
                exponent: half + 1,
            };
        }
        Double { negative: false, significand: m, exponent: half }
    }
}

} // verus!
