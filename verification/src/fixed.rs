//! Fixed-point scalars.
//!
//! A scalar is an `i64` holding `SCALE` times its mathematical value.
//! Multiplication and division round toward zero; `dtr` is the spec-level
//! statement of that rounding, and every executable operation here is
//! proved to return exactly the `dtr` value.

use vstd::prelude::*;
use vstd::arithmetic::div_mod::{lemma_fundamental_div_mod, lemma_mod_bound};

verus! {

/// Fractional steps per unit: a raw value `v` stands for `v / SCALE`.
pub const SCALE: i64 = 65536;

/// Largest raw coordinate magnitude the geometry accepts (2048 world units).
/// Keeping coordinates within this bound lets every intersection polynomial
/// be evaluated exactly in `i128`.
pub const MAX_COORD: i64 = 134217728;

/// Division rounded toward zero, for a positive divisor: the rounding every
/// fixed-point operation in this crate uses.
pub open spec fn dtr(a: int, b: int) -> int
    recommends
        b > 0,
{
    if a >= 0 {
        a / b
    } else {
        -((-a) / b)
    }
}

/// `dtr(a, b)` differs from the exact quotient by less than one step of `b`,
/// and never on the far side of zero.
pub proof fn lemma_dtr(a: int, b: int)
    requires
        b > 0,
    ensures
        a >= 0 ==> b * dtr(a, b) <= a < b * dtr(a, b) + b,
        a < 0 ==> b * dtr(a, b) - b < a <= b * dtr(a, b),
{
    if a >= 0 {
        lemma_fundamental_div_mod(a, b);
        lemma_mod_bound(a, b);
    } else {
        lemma_fundamental_div_mod(-a, b);
        lemma_mod_bound(-a, b);
        let q = (-a) / b;
        assert(b * -q == -(b * q)) by (nonlinear_arith);
    }
}

/// If `|a| <= b * m` then `|dtr(a, b)| <= m`: the workhorse bound for
/// showing that a rounded quotient fits its target range.
pub proof fn lemma_dtr_div_bound(a: int, b: int, m: int)
    requires
        b > 0,
        m >= 0,
        -(b * m) <= a <= b * m,
    ensures
        -m <= dtr(a, b) <= m,
{
    lemma_dtr(a, b);
    if a >= 0 {
        assert(dtr(a, b) <= m) by (nonlinear_arith)
            requires
                b > 0,
                b * dtr(a, b) <= a,
                a <= b * m,
        ;
        assert(dtr(a, b) >= 0);
    } else {
        assert(dtr(a, b) >= -m) by (nonlinear_arith)
            requires
                b > 0,
                a <= b * dtr(a, b),
                -(b * m) <= a,
        ;
        assert(dtr(a, b) <= 0);
    }
}

/// A quotient of a nonnegative dividend strictly below `b * m` stays
/// strictly below `m`.
pub proof fn lemma_dtr_lt(a: int, b: int, m: int)
    requires
        b > 0,
        0 <= a,
        a < b * m,
    ensures
        0 <= dtr(a, b) < m,
{
    lemma_dtr(a, b);
    assert(dtr(a, b) < m) by (nonlinear_arith)
        requires
            b > 0,
            b * dtr(a, b) <= a,
            a < b * m,
    ;
}

/// A quotient of a dividend at least `b * m` (with `m >= 0`) is at least `m`.
pub proof fn lemma_dtr_ge(a: int, b: int, m: int)
    requires
        b > 0,
        m >= 0,
        a >= b * m,
    ensures
        dtr(a, b) >= m,
{
    lemma_dtr(a, b);
    assert(a >= 0) by (nonlinear_arith)
        requires
            b > 0,
            m >= 0,
            a >= b * m,
    ;
    assert(dtr(a, b) >= m) by (nonlinear_arith)
        requires
            b > 0,
            a < b * dtr(a, b) + b,
            a >= b * m,
    ;
}

/// A product of bounded factors is bounded by the product of the bounds.
pub proof fn lemma_mul_bound(a: int, b: int, m: int, n: int)
    by (nonlinear_arith)
    requires
        0 <= m,
        0 <= n,
        -m <= a <= m,
        -n <= b <= n,
    ensures
        -(m * n) <= a * b <= m * n,
{
}

/// Truncating division on wide integers, the executable form of `dtr`.
pub fn div_trunc(a: i128, b: i128) -> (r: i128)
    requires
        b > 0,
        a > i128::MIN,
    ensures
        r == dtr(a as int, b as int),
{
    if a >= 0 {
        proof {
            lemma_dtr(a as int, b as int);
            assert(dtr(a as int, b as int) <= a) by (nonlinear_arith)
                requires
                    b as int >= 1,
                    dtr(a as int, b as int) >= 0,
                    (b as int) * dtr(a as int, b as int) <= a as int,
            ;
        }
        ((a as u128) / (b as u128)) as i128
    } else {
        proof {
            lemma_dtr(-(a as int), b as int);
            assert(dtr(-(a as int), b as int) <= -(a as int)) by (nonlinear_arith)
                requires
                    b as int >= 1,
                    dtr(-(a as int), b as int) >= 0,
                    (b as int) * dtr(-(a as int), b as int) <= -(a as int),
            ;
        }
        let na: u128 = (-a) as u128;
        -((na / (b as u128)) as i128)
    }
}

/// Fixed-point product: `a * b / SCALE`, rounded toward zero.
pub fn fxmul(a: i64, b: i64) -> (r: i64)
    requires
        -0x7fff_ffff_ffff_ffff * (SCALE as int) <= a as int * b as int,
        a as int * b as int <= 0x7fff_ffff_ffff_ffff * (SCALE as int),
    ensures
        r == dtr(a as int * b as int, SCALE as int),
{
    proof {
        lemma_dtr_div_bound(a as int * b as int, SCALE as int, 0x7fff_ffff_ffff_ffff);
    }
    let p: i128 = (a as i128) * (b as i128);
    let q: i128 = div_trunc(p, SCALE as i128);
    q as i64
}

/// Fixed-point quotient: `a * SCALE / b`, rounded toward zero, for `b > 0`.
pub fn fxdiv(a: i64, b: i64) -> (r: i64)
    requires
        b > 0,
        -0x7fff_ffff_ffff_ffff * (b as int) <= a as int * (SCALE as int),
        a as int * (SCALE as int) <= 0x7fff_ffff_ffff_ffff * (b as int),
    ensures
        r == dtr(a as int * SCALE as int, b as int),
{
    proof {
        lemma_dtr_div_bound(a as int * SCALE as int, b as int, 0x7fff_ffff_ffff_ffff);
        assert((a as i128) * (SCALE as i128) > i128::MIN) by (nonlinear_arith)
            requires
                -0x8000_0000_0000_0000 <= a as int <= 0x7fff_ffff_ffff_ffff,
                SCALE as int == 0x1_0000,
        ;
    }
    let p: i128 = (a as i128) * (SCALE as i128);
    let q: i128 = div_trunc(p, b as i128);
    q as i64
}

/// The floor of the square root of a nonnegative integer, characterized by
/// `sqrt_floor(n)^2 <= n < (sqrt_floor(n)+1)^2` (see `lemma_sqrt_floor`).
pub open spec fn sqrt_floor(n: int) -> int
    recommends
        n >= 0,
{
    choose|r: int| 0 <= r && #[trigger] (r * r) <= n && n < (r + 1) * (r + 1)
}

/// A root with the `sqrt_floor` property exists for every nonnegative `n`.
pub proof fn lemma_sqrt_floor_exists(n: nat)
    ensures
        exists|r: int| 0 <= r && #[trigger] (r * r) <= n && n < (r + 1) * (r + 1),
    decreases n,
{
    if n == 0 {
        let w: int = 0;
        assert(w * w == 0) by (nonlinear_arith)
            requires
                w == 0,
        ;
        assert((w + 1) * (w + 1) == 1) by (nonlinear_arith)
            requires
                w == 0,
        ;
        assert(0 <= w && w * w <= n && n < (w + 1) * (w + 1));
    } else {
        lemma_sqrt_floor_exists((n - 1) as nat);
        let r = choose|r: int| 0 <= r && #[trigger] (r * r) <= n - 1 && n - 1 < (r + 1) * (r + 1);
        if (r + 1) * (r + 1) <= n {
            assert(n == (r + 1) * (r + 1));
            assert((r + 2) * (r + 2) > (r + 1) * (r + 1)) by (nonlinear_arith)
                requires
                    r >= 0,
            ;
            assert(0 <= r + 1 && (r + 1) * (r + 1) <= n && n < (r + 2) * (r + 2));
        } else {
            assert(0 <= r && r * r <= n && n < (r + 1) * (r + 1));
        }
    }
}

/// There is only one such root, so `sqrt_floor` itself satisfies the bounds.
pub proof fn lemma_sqrt_floor(n: int)
    requires
        n >= 0,
    ensures
        0 <= sqrt_floor(n),
        sqrt_floor(n) * sqrt_floor(n) <= n,
        n < (sqrt_floor(n) + 1) * (sqrt_floor(n) + 1),
{
    lemma_sqrt_floor_exists(n as nat);
    let r = choose|r: int| 0 <= r && #[trigger] (r * r) <= n && n < (r + 1) * (r + 1);
    assert(0 <= sqrt_floor(n) && sqrt_floor(n) * sqrt_floor(n) <= n
        && n < (sqrt_floor(n) + 1) * (sqrt_floor(n) + 1));
}

/// Two integers both satisfying the root bounds for `n` are equal.
pub proof fn lemma_sqrt_floor_unique(n: int, r: int)
    requires
        0 <= r,
        r * r <= n,
        n < (r + 1) * (r + 1),
    ensures
        r == sqrt_floor(n),
{
    lemma_sqrt_floor(n);
    let s = sqrt_floor(n);
    if r < s {
        assert((r + 1) * (r + 1) <= s * s) by (nonlinear_arith)
            requires
                0 <= r,
                r < s,
        ;
    }
    if s < r {
        assert((s + 1) * (s + 1) <= r * r) by (nonlinear_arith)
            requires
                0 <= s,
                s < r,
        ;
    }
}

/// Integer square root: the unique `r` with `r^2 <= n < (r+1)^2`.
pub fn isqrt(n: u128) -> (r: u128)
    requires
        n < 0x4000_0000_0000_0000_0000_0000_0000_0000,
    ensures
        r * r <= n,
        n < (r + 1) * (r + 1),
        r < 0x8000_0000_0000_0000,
        r == sqrt_floor(n as int),
{
    let mut lo: u128 = 0;
    let mut hi: u128 = 0x8000_0000_0000_0000;
    proof {
        assert(hi * hi == 0x4000_0000_0000_0000_0000_0000_0000_0000) by (nonlinear_arith)
            requires
                hi == 0x8000_0000_0000_0000,
        ;
    }
    while lo + 1 < hi
        invariant
            lo < hi <= 0x8000_0000_0000_0000,
            lo * lo <= n,
            n < hi * hi,
        decreases hi - lo,
    {
        let mid: u128 = lo + (hi - lo) / 2;
        assert(lo < mid < hi);
        proof {
            assert(mid * mid < 0x8000_0000_0000_0000 * 0x8000_0000_0000_0000)
                by (nonlinear_arith)
                requires
                    0 <= mid < 0x8000_0000_0000_0000,
            ;
        }
        if mid * mid <= n {
            lo = mid;
        } else {
            hi = mid;
        }
    }
    proof {
        lemma_sqrt_floor_unique(n as int, lo as int);
    }
    lo
}

} // verus!
