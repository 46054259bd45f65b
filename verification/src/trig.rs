//! Fixed-point trigonometry on angles in raw degrees.
//!
//! An angle is a raw fixed-point number of degrees (`SCALE` times the
//! degree value). The sine is Bhaskara's classical rational approximation
//! `4a(180-a) / (40500 - a(180-a))` on a half turn, extended to all angles
//! by periodic reduction; the cosine is the sine a quarter turn ahead.
//! Every function's contract states the exact rational value it returns.

use vstd::prelude::*;
use vstd::arithmetic::div_mod::{lemma_fundamental_div_mod, lemma_mod_bound};
use crate::fixed::{SCALE, dtr, div_trunc, lemma_dtr, lemma_dtr_div_bound, lemma_mul_bound};

verus! {

/// One full turn, in raw degrees.
pub const TURN: i64 = 23592960;

/// Half a turn, in raw degrees.
pub const HALF_TURN: i64 = 11796480;

/// A quarter turn, in raw degrees.
pub const QUARTER_TURN: i64 = 5898240;

/// Largest angle magnitude the trigonometric entry points accept.
pub const ANGLE_MAX: i64 = 0x1000_0000_0000;

/// Bhaskara's sine on a half turn: for `a` in `[0, HALF_TURN]`, the raw
/// sine `4 p SCALE / (40500 SCALE^2 - p)` with `p = a (HALF_TURN - a)`.
pub open spec fn sin_half(a: int) -> int
    recommends
        0 <= a <= HALF_TURN as int,
{
    let p = a * (HALF_TURN as int - a);
    dtr(4 * p * SCALE as int, 40500 * SCALE as int * SCALE as int - p)
}

/// The sine of any angle: reduce to one turn, use the half-turn formula
/// directly on the first half and negated on the second.
pub open spec fn sin_deg_spec(a: int) -> int {
    let m = a % (TURN as int);
    if m <= HALF_TURN as int {
        sin_half(m)
    } else {
        -sin_half(m - HALF_TURN as int)
    }
}

/// The cosine: the sine a quarter turn ahead.
pub open spec fn cos_deg_spec(a: int) -> int {
    sin_deg_spec(a + QUARTER_TURN as int)
}

/// The half-turn product `p = a (HALF_TURN - a)` stays within
/// `[0, 8100 SCALE^2]`, which keeps the Bhaskara denominator positive.
proof fn lemma_half_product(a: int)
    requires
        0 <= a <= HALF_TURN as int,
    ensures
        0 <= a * (HALF_TURN as int - a),
        a * (HALF_TURN as int - a) <= 8100 * SCALE as int * SCALE as int,
{
    let h = HALF_TURN as int;
    assert(0 <= a * (h - a) && 4 * (a * (h - a)) <= h * h) by (nonlinear_arith)
        requires
            0 <= a <= h,
    ;
}

/// The Bhaskara sine lies in `[0, SCALE]` on the half turn.
pub proof fn lemma_sin_half_bounds(a: int)
    requires
        0 <= a <= HALF_TURN as int,
    ensures
        0 <= sin_half(a) <= SCALE as int,
{
    let p = a * (HALF_TURN as int - a);
    let den = 40500 * SCALE as int * SCALE as int - p;
    lemma_half_product(a);
    lemma_mul_bound(4 * p, SCALE as int, 4 * 8100 * SCALE as int * SCALE as int, SCALE as int);
    assert(4 * p * SCALE as int <= den * SCALE as int) by (nonlinear_arith)
        requires
            0 <= p <= 8100 * SCALE as int * SCALE as int,
            den == 40500 * SCALE as int * SCALE as int - p,
    ;
    lemma_dtr_div_bound(4 * p * SCALE as int, den, SCALE as int);
    lemma_dtr(4 * p * SCALE as int, den);
}

/// On `[SCALE, 179 * SCALE]` (one degree away from flat) the Bhaskara sine
/// is at least one raw step, hence strictly positive.
pub proof fn lemma_sin_half_pos(a: int)
    requires
        SCALE as int <= a <= 179 * SCALE as int,
    ensures
        sin_half(a) >= 1,
{
    let p = a * (HALF_TURN as int - a);
    let den = 40500 * SCALE as int * SCALE as int - p;
    lemma_half_product(a);
    assert(p >= 179 * SCALE as int * SCALE as int) by (nonlinear_arith)
        requires
            SCALE as int <= a <= 179 * SCALE as int,
            p == a * (HALF_TURN as int - a),
            HALF_TURN as int == 180 * SCALE as int,
    ;
    assert(4 * p * SCALE as int >= den) by (nonlinear_arith)
        requires
            p >= 179 * SCALE as int * SCALE as int,
            den == 40500 * SCALE as int * SCALE as int - p,
            SCALE as int == 65536,
    ;
    lemma_dtr(4 * p * SCALE as int, den);
    assert(dtr(4 * p * SCALE as int, den) >= 1) by (nonlinear_arith)
        requires
            den >= 1,
            4 * p * SCALE as int >= den,
            den * dtr(4 * p * SCALE as int, den) <= 4 * p * SCALE as int,
            4 * p * (SCALE as int) < den * dtr(4 * p * SCALE as int, den) + den,
            dtr(4 * p * SCALE as int, den) >= 0,
    ;
}

/// A value in `[0, t)` congruent to `a` modulo `t` is `a % t`.
proof fn lemma_mod_rep(a: int, t: int, m: int, k: int)
    requires
        t > 0,
        0 <= m < t,
        a - m == t * k,
    ensures
        m == a % t,
{
    lemma_fundamental_div_mod(a, t);
    lemma_mod_bound(a, t);
    let q = a / t;
    assert(m - a % t == t * (q - k)) by (nonlinear_arith)
        requires
            a - m == t * k,
            a == t * q + a % t,
    ;
    assert(m == a % t) by (nonlinear_arith)
        requires
            t > 0,
            m - a % t == t * (q - k),
            -t < m - a % t < t,
    ;
}

/// Bhaskara's sine, executable, on the first half turn.
fn bhaskara_half(a: i64) -> (r: i64)
    requires
        0 <= a <= HALF_TURN,
    ensures
        r as int == sin_half(a as int),
        0 <= r <= SCALE,
{
    proof {
        lemma_half_product(a as int);
        lemma_sin_half_bounds(a as int);
    }
    let p: i128 = (a as i128) * ((HALF_TURN - a) as i128);
    let den: i128 = 40500 * (SCALE as i128) * (SCALE as i128) - p;
    let num: i128 = 4 * p * (SCALE as i128);
    div_trunc(num, den) as i64
}

/// The sine of an arbitrary angle in raw degrees.
pub fn sin_deg(a: i64) -> (r: i64)
    ensures
        r as int == sin_deg_spec(a as int),
        -SCALE <= r <= SCALE,
{
    let q128: i128 = div_trunc(a as i128, TURN as i128);
    proof {
        lemma_dtr(a as int, TURN as int);
    }
    let m0: i128 = (a as i128) - q128 * (TURN as i128);
    let m: i64 = if m0 < 0 {
        (m0 + TURN as i128) as i64
    } else {
        m0 as i64
    };
    proof {
        if m0 < 0 {
            lemma_mod_rep(a as int, TURN as int, m as int, dtr(a as int, TURN as int) - 1);
        } else {
            lemma_mod_rep(a as int, TURN as int, m as int, dtr(a as int, TURN as int));
        }
        if a as int % (TURN as int) <= HALF_TURN as int {
            lemma_sin_half_bounds(a as int % TURN as int);
        } else {
            lemma_sin_half_bounds(a as int % TURN as int - HALF_TURN as int);
        }
    }
    if m <= HALF_TURN {
        bhaskara_half(m)
    } else {
        -bhaskara_half(m - HALF_TURN)
    }
}

/// The cosine of an arbitrary angle in raw degrees.
pub fn cos_deg(a: i64) -> (r: i64)
    requires
        -ANGLE_MAX <= a <= ANGLE_MAX,
    ensures
        r as int == cos_deg_spec(a as int),
        -SCALE <= r <= SCALE,
{
    sin_deg(a + QUARTER_TURN)
}

/// The tangent on `[1, 89]` degrees, where sine and cosine are both
/// positive: `sin * SCALE / cos`, rounded toward zero. Used to focus the
/// camera; always at least one raw step.
pub fn tan_deg(a: i64) -> (r: i64)
    requires
        SCALE <= a <= 89 * SCALE,
    ensures
        r as int == dtr(sin_deg_spec(a as int) * SCALE as int, cos_deg_spec(a as int)),
        1 <= r <= SCALE as int * SCALE as int,
{
    let s = sin_deg(a);
    let c = cos_deg(a);
    proof {
        let ai = a as int;
        let t = TURN as int;
        // both reductions are identities: the angles already lie in [0, t)
        lemma_mod_rep(ai, t, ai, 0);
        assert(t * 0 == 0) by (nonlinear_arith);
        lemma_mod_rep(ai + QUARTER_TURN as int, t, ai + QUARTER_TURN as int, 0);
        lemma_sin_half_pos(ai);
        lemma_sin_half_pos(ai + QUARTER_TURN as int);
        lemma_sin_half_bounds(ai);
        lemma_sin_half_bounds(ai + QUARTER_TURN as int);
        lemma_mul_bound(sin_deg_spec(ai), SCALE as int, SCALE as int, SCALE as int);
        lemma_dtr_div_bound(
            sin_deg_spec(ai) * SCALE as int,
            cos_deg_spec(ai),
            SCALE as int * SCALE as int,
        );
        assert(cos_deg_spec(ai) * (SCALE as int * SCALE as int) >= SCALE as int * SCALE as int)
            by (nonlinear_arith)
            requires
                cos_deg_spec(ai) >= 1,
        ;
        lemma_dtr(sin_deg_spec(ai) * SCALE as int, cos_deg_spec(ai));
        assert(dtr(sin_deg_spec(ai) * SCALE as int, cos_deg_spec(ai)) >= 1) by (nonlinear_arith)
            requires
                cos_deg_spec(ai) >= 1,
                sin_deg_spec(ai) >= 1,
                SCALE as int == 65536,
                cos_deg_spec(ai) * dtr(sin_deg_spec(ai) * SCALE as int, cos_deg_spec(ai))
                    <= sin_deg_spec(ai) * SCALE as int,
                sin_deg_spec(ai) * (SCALE as int)
                    < cos_deg_spec(ai) * dtr(sin_deg_spec(ai) * SCALE as int, cos_deg_spec(ai))
                        + cos_deg_spec(ai),
                dtr(sin_deg_spec(ai) * SCALE as int, cos_deg_spec(ai)) >= 0,
                cos_deg_spec(ai) <= SCALE as int,
        ;
    }
    proof {
        lemma_mul_bound(s as int, SCALE as int, SCALE as int, SCALE as int);
    }
    let num: i128 = (s as i128) * (SCALE as i128);
    div_trunc(num, c as i128) as i64
}

/// The gain applied to the mirror direction when biasing glossy samples:
/// the cotangent of `89.9 * roughness` degrees, computed as
/// `cos * SCALE / (sin + 1)` so that a roughness of zero (a perfect
/// mirror, where the cotangent diverges) yields the finite gain
/// `SCALE * SCALE`.
pub fn glossy_gain(roughness: i64) -> (r: i64)
    requires
        0 <= roughness <= SCALE,
    ensures
        ({
            let a = dtr(899 * roughness as int, 10);
            r as int == dtr(cos_deg_spec(a) * SCALE as int, sin_deg_spec(a) + 1)
        }),
        0 <= r <= SCALE as int * SCALE as int,
{
    let a: i64 = div_trunc(899 * (roughness as i128), 10) as i64;
    proof {
        lemma_dtr_div_bound(899 * roughness as int, 10, 90 * SCALE as int);
        lemma_dtr(899 * roughness as int, 10);
    }
    let s = sin_deg(a);
    let c = cos_deg(a);
    proof {
        let ai = a as int;
        let t = TURN as int;
        lemma_mod_rep(ai, t, ai, 0);
        assert(t * 0 == 0) by (nonlinear_arith);
        lemma_mod_rep(ai + QUARTER_TURN as int, t, ai + QUARTER_TURN as int, 0);
        lemma_sin_half_bounds(ai);
        lemma_sin_half_bounds(ai + QUARTER_TURN as int);
        lemma_mul_bound(cos_deg_spec(ai), SCALE as int, SCALE as int, SCALE as int);
        lemma_dtr_div_bound(
            cos_deg_spec(ai) * SCALE as int,
            sin_deg_spec(ai) + 1,
            SCALE as int * SCALE as int,
        );
        assert((sin_deg_spec(ai) + 1) * (SCALE as int * SCALE as int)
            >= cos_deg_spec(ai) * SCALE as int) by (nonlinear_arith)
            requires
                0 <= sin_deg_spec(ai),
                cos_deg_spec(ai) <= SCALE as int,
                SCALE as int == 65536,
        ;
        // the cosine of an angle in [0, 89.9] degrees is nonnegative
        let m = ai + QUARTER_TURN as int;
        lemma_half_product(m);
        lemma_dtr(
            4 * (m * (HALF_TURN as int - m)) * SCALE as int,
            40500 * SCALE as int * SCALE as int - m * (HALF_TURN as int - m),
        );
    }
    let num: i128 = (c as i128) * (SCALE as i128);
    div_trunc(num, (s as i128) + 1) as i64
}

} // verus!
