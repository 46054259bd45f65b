//! Mesh-building helpers: rotation, scaling and translation of one
//! three-entry coordinate list, as used when importing geometry.

use vstd::prelude::*;
use crate::fixed::{SCALE, MAX_COORD, dtr, fxmul, lemma_mul_bound};
use crate::trig::ANGLE_MAX;
use crate::vector::{V3, Vector3};

verus! {

/// The list rotated by the Euler angles `(a, b, c)`, with the same
/// convention and rounding as `Vector3::rotate`: the angles are raw
/// fixed-point degrees, the one angular unit used throughout this crate.
pub fn rotate(v: &Vec<i64>, a: i64, b: i64, c: i64) -> (r: Vec<i64>)
    requires
        v@.len() == 3,
        -MAX_COORD <= v@[0] <= MAX_COORD,
        -MAX_COORD <= v@[1] <= MAX_COORD,
        -MAX_COORD <= v@[2] <= MAX_COORD,
        -ANGLE_MAX <= a <= ANGLE_MAX,
        -ANGLE_MAX <= b <= ANGLE_MAX,
        -ANGLE_MAX <= c <= ANGLE_MAX,
    ensures
        r@.len() == 3,
        ({
            let w = (V3 { x: v@[0] as int, y: v@[1] as int, z: v@[2] as int }).vrotate(
                V3 { x: a as int, y: b as int, z: c as int },
            );
            r@[0] == w.x && r@[1] == w.y && r@[2] == w.z
        }),
{
    let vec = Vector3::new(v[0], v[1], v[2]);
    let rot = vec.rotate(&Vector3::new(a, b, c));
    let mut out: Vec<i64> = Vec::new();
    out.push(rot.x);
    out.push(rot.y);
    out.push(rot.z);
    out
}

/// The list scaled componentwise by `(a, b, c)` in fixed point.
pub fn scale(v: &Vec<i64>, a: i64, b: i64, c: i64) -> (r: Vec<i64>)
    requires
        v@.len() == 3,
        -MAX_COORD <= v@[0] <= MAX_COORD,
        -MAX_COORD <= v@[1] <= MAX_COORD,
        -MAX_COORD <= v@[2] <= MAX_COORD,
        -MAX_COORD <= a <= MAX_COORD,
        -MAX_COORD <= b <= MAX_COORD,
        -MAX_COORD <= c <= MAX_COORD,
    ensures
        r@.len() == 3,
        r@[0] == dtr(a * v@[0], SCALE as int),
        r@[1] == dtr(b * v@[1], SCALE as int),
        r@[2] == dtr(c * v@[2], SCALE as int),
{
    proof {
        lemma_mul_bound(a as int, v@[0] as int, MAX_COORD as int, MAX_COORD as int);
        lemma_mul_bound(b as int, v@[1] as int, MAX_COORD as int, MAX_COORD as int);
        lemma_mul_bound(c as int, v@[2] as int, MAX_COORD as int, MAX_COORD as int);
    }
    let mut out: Vec<i64> = Vec::new();
    out.push(fxmul(a, v[0]));
    out.push(fxmul(b, v[1]));
    out.push(fxmul(c, v[2]));
    out
}

/// The list translated by `(a, b, c)`.
pub fn tranlate(v: &Vec<i64>, a: i64, b: i64, c: i64) -> (r: Vec<i64>)
    requires
        v@.len() == 3,
        -MAX_COORD <= v@[0] <= MAX_COORD,
        -MAX_COORD <= v@[1] <= MAX_COORD,
        -MAX_COORD <= v@[2] <= MAX_COORD,
        -MAX_COORD <= a <= MAX_COORD,
        -MAX_COORD <= b <= MAX_COORD,
        -MAX_COORD <= c <= MAX_COORD,
    ensures
        r@.len() == 3,
        r@[0] == v@[0] + a,
        r@[1] == v@[1] + b,
        r@[2] == v@[2] + c,
{
    let mut out: Vec<i64> = Vec::new();
    out.push(v[0] + a);
    out.push(v[1] + b);
    out.push(v[2] + c);
    out
}

} // verus!
