//! Vector algebra over fixed-point scalars.
//!
//! `Vector3` and `Vector2` hold raw fixed-point components (`i64`, `SCALE`
//! times the mathematical value). The ghost types `V3` and `V2` are their
//! mathematical models: the same components as unbounded integers. Every
//! operation's contract states the exact raw value it returns, using the
//! truncating division `dtr`.

use vstd::prelude::*;
use crate::fixed::{
    SCALE, MAX_COORD, dtr, div_trunc, fxmul, fxdiv, isqrt, sqrt_floor, lemma_dtr,
    lemma_dtr_div_bound, lemma_mul_bound, lemma_sqrt_floor,
};
use crate::trig::{ANGLE_MAX, sin_deg, cos_deg, sin_deg_spec, cos_deg_spec};

verus! {

/// Fixed-point product of two raw scalars, as a spec value.
pub open spec fn tm(a: int, b: int) -> int {
    dtr(a * b, SCALE as int)
}

/// Fixed-point product of two trigonometric values (within one unit each).
fn tmul(a: i64, b: i64) -> (r: i64)
    requires
        -SCALE <= a <= SCALE,
        -SCALE <= b <= SCALE,
    ensures
        r as int == tm(a as int, b as int),
        -SCALE <= r <= SCALE,
{
    proof {
        lemma_mul_bound(a as int, b as int, SCALE as int, SCALE as int);
        lemma_dtr_div_bound(a as int * b as int, SCALE as int, SCALE as int);
    }
    fxmul(a, b)
}

/// Fixed-point product of a coordinate and a rotation coefficient.
fn cmul(a: i64, b: i64) -> (r: i64)
    requires
        -MAX_COORD <= a <= MAX_COORD,
        -2 * SCALE <= b <= 2 * SCALE,
    ensures
        r as int == tm(a as int, b as int),
        -2 * MAX_COORD <= r <= 2 * MAX_COORD,
{
    proof {
        lemma_mul_bound(a as int, b as int, MAX_COORD as int, 2 * SCALE as int);
        lemma_dtr_div_bound(a as int * b as int, SCALE as int, 2 * MAX_COORD as int);
    }
    fxmul(a, b)
}

/// Bound accepted by the binary fixed-point vector operations; wide enough
/// for every quantity the tracer forms from in-range scene coordinates.
pub const VB: i64 = 0x40_0000_0000;

/// Bound on the components of a direction-like vector (a few units long).
pub const DB: i64 = 262144;

/// Bound accepted for the scalar of a fixed-point scalar multiplication.
pub const KB: i64 = 0x100_0000_0000;

/// Mathematical model of a `Vector3`: its raw components as integers.
pub ghost struct V3 {
    pub x: int,
    pub y: int,
    pub z: int,
}

impl V3 {
    /// All components within `[-b, b]`.
    pub open spec fn bounded(self, b: int) -> bool {
        &&& -b <= self.x <= b
        &&& -b <= self.y <= b
        &&& -b <= self.z <= b
    }

    pub open spec fn vadd(self, o: V3) -> V3 {
        V3 { x: self.x + o.x, y: self.y + o.y, z: self.z + o.z }
    }

    pub open spec fn vsub(self, o: V3) -> V3 {
        V3 { x: self.x - o.x, y: self.y - o.y, z: self.z - o.z }
    }

    pub open spec fn vneg(self) -> V3 {
        V3 { x: -self.x, y: -self.y, z: -self.z }
    }

    /// Raw dot product: `SCALE^2` times the mathematical dot product.
    pub open spec fn rdot(self, o: V3) -> int {
        self.x * o.x + self.y * o.y + self.z * o.z
    }

    /// Raw cross product, exact (components are raw products, not descaled).
    pub open spec fn rcross(self, o: V3) -> V3 {
        V3 {
            x: self.y * o.z - self.z * o.y,
            y: self.z * o.x - self.x * o.z,
            z: self.x * o.y - self.y * o.x,
        }
    }

    /// Exact integer scaling (no descaling).
    pub open spec fn smul(self, k: int) -> V3 {
        V3 { x: k * self.x, y: k * self.y, z: k * self.z }
    }

    /// Fixed-point dot product: the raw dot product scaled back down.
    pub open spec fn fdot(self, o: V3) -> int {
        dtr(self.rdot(o), SCALE as int)
    }

    /// Fixed-point multiplication by the raw scalar `k`.
    pub open spec fn fxs(self, k: int) -> V3 {
        V3 {
            x: dtr(self.x * k, SCALE as int),
            y: dtr(self.y * k, SCALE as int),
            z: dtr(self.z * k, SCALE as int),
        }
    }

    /// Componentwise fixed-point product.
    pub open spec fn fmul(self, o: V3) -> V3 {
        V3 {
            x: dtr(self.x * o.x, SCALE as int),
            y: dtr(self.y * o.y, SCALE as int),
            z: dtr(self.z * o.z, SCALE as int),
        }
    }

    /// Fixed-point cross product: each component descaled separately,
    /// exactly as the executable `cross` computes it.
    pub open spec fn fcross(self, o: V3) -> V3 {
        V3 {
            x: dtr(self.y * o.z, SCALE as int) - dtr(self.z * o.y, SCALE as int),
            y: dtr(self.z * o.x, SCALE as int) - dtr(self.x * o.z, SCALE as int),
            z: dtr(self.x * o.y, SCALE as int) - dtr(self.y * o.x, SCALE as int),
        }
    }

    /// The raw norm: `SCALE` times the Euclidean length, rounded down.
    pub open spec fn rnorm(self) -> int {
        sqrt_floor(self.rdot(self))
    }

    /// The normalized vector: each component divided by the raw norm.
    pub open spec fn vnormalize(self) -> V3 {
        V3 {
            x: dtr(self.x * SCALE as int, self.rnorm()),
            y: dtr(self.y * SCALE as int, self.rnorm()),
            z: dtr(self.z * SCALE as int, self.rnorm()),
        }
    }

    /// Mirror reflection about the plane normal to `n`:
    /// `v + n * 2 * -(v . n)`.
    pub open spec fn vreflect(self, n: V3) -> V3 {
        self.vadd(n.fxs(-2 * self.fdot(n)))
    }

    /// Refraction at a surface with normal `n` and index of refraction
    /// `od`: the incident/transmitted ordering of the indices follows the
    /// sign of the incidence dot product, and the radical term reduces to
    /// the absolute value of that dot product.
    pub open spec fn vrefract(self, n: V3, od: int) -> V3 {
        let n0 = n.vneg();
        let flip = self.fdot(n0) < 0;
        let n1 = if flip {
            n0.vneg()
        } else {
            n0
        };
        let ni = if flip {
            od
        } else {
            SCALE as int
        };
        let no = if flip {
            SCALE as int
        } else {
            od
        };
        let d = self.fdot(n1);
        let ad = if d < 0 {
            -d
        } else {
            d
        };
        let k = tm(no, no) - tm(ni, ni) + ad - d;
        self.vadd(n1.fxs(k))
    }

    /// Rotation by the Euler angles `r` (raw degrees about x, y, z), with
    /// every product rounded exactly as the executable `rotate` rounds it.
    pub open spec fn vrotate(self, r: V3) -> V3 {
        let cx = cos_deg_spec(r.x);
        let sx = sin_deg_spec(r.x);
        let cy = cos_deg_spec(r.y);
        let sy = sin_deg_spec(r.y);
        let cz = cos_deg_spec(r.z);
        let sz = sin_deg_spec(r.z);
        let m11 = tm(tm(cx, cy), cz) - tm(sx, sz);
        let m12 = -tm(tm(cx, cy), sz) + tm(sx, cz);
        let m13 = tm(cx, sy);
        let m21 = tm(tm(sx, cy), cz) + tm(cx, sz);
        let m22 = -tm(tm(sx, cy), sz) + tm(cx, cz);
        let m23 = tm(sx, sy);
        let m31 = -tm(sy, cz);
        let m32 = tm(sy, sz);
        let m33 = cy;
        V3 {
            x: tm(self.x, m11) + tm(self.y, m12) + tm(self.z, m13),
            y: tm(self.x, m21) + tm(self.y, m22) + tm(self.z, m23),
            z: tm(self.x, m31) + tm(self.y, m32) + tm(self.z, m33),
        }
    }
}

/// A three-component fixed-point vector.
#[derive(Clone, Copy, Debug, PartialEq, Eq, Structural)]
pub struct Vector3 {
    pub x: i64,
    pub y: i64,
    pub z: i64,
}

impl View for Vector3 {
    type V = V3;

    open spec fn view(&self) -> V3 {
        V3 { x: self.x as int, y: self.y as int, z: self.z as int }
    }
}

impl Vector3 {
    pub fn new(x: i64, y: i64, z: i64) -> (r: Vector3)
        ensures
            r@ == (V3 { x: x as int, y: y as int, z: z as int }),
    {
        Vector3 { x, y, z }
    }

    /// Componentwise sum.
    pub fn add(&self, o: &Vector3) -> (r: Vector3)
        requires
            self@.bounded(0x1000_0000_0000_0000),
            o@.bounded(0x1000_0000_0000_0000),
        ensures
            r@ == self@.vadd(o@),
    {
        Vector3 { x: self.x + o.x, y: self.y + o.y, z: self.z + o.z }
    }

    /// Componentwise difference.
    pub fn sub(&self, o: &Vector3) -> (r: Vector3)
        requires
            self@.bounded(0x1000_0000_0000_0000),
            o@.bounded(0x1000_0000_0000_0000),
        ensures
            r@ == self@.vsub(o@),
    {
        Vector3 { x: self.x - o.x, y: self.y - o.y, z: self.z - o.z }
    }

    /// Componentwise negation.
    pub fn neg(&self) -> (r: Vector3)
        requires
            self@.bounded(0x1000_0000_0000_0000),
        ensures
            r@ == self@.vneg(),
    {
        Vector3 { x: -self.x, y: -self.y, z: -self.z }
    }

    /// The vector translated by `t`: the same as `add`, under the name the
    /// scene-building code uses.
    pub fn translate(&self, t: &Vector3) -> (r: Vector3)
        requires
            self@.bounded(0x1000_0000_0000_0000),
            t@.bounded(0x1000_0000_0000_0000),
        ensures
            r@ == self@.vadd(t@),
    {
        self.add(t)
    }

    /// Fixed-point multiplication by the scalar `k`.
    pub fn muls(&self, k: i64) -> (r: Vector3)
        requires
            self@.bounded(VB as int),
            -KB <= k <= KB,
        ensures
            r@ == self@.fxs(k as int),
    {
        proof {
            lemma_mul_bound(self@.x, k as int, VB as int, KB as int);
            lemma_mul_bound(self@.y, k as int, VB as int, KB as int);
            lemma_mul_bound(self@.z, k as int, VB as int, KB as int);
        }
        Vector3 { x: fxmul(self.x, k), y: fxmul(self.y, k), z: fxmul(self.z, k) }
    }

    /// Fixed-point division by the positive scalar `k`.
    pub fn divs(&self, k: i64) -> (r: Vector3)
        requires
            self@.bounded(VB as int),
            k > 0,
        ensures
            r@ == (V3 {
                x: dtr(self@.x * SCALE as int, k as int),
                y: dtr(self@.y * SCALE as int, k as int),
                z: dtr(self@.z * SCALE as int, k as int),
            }),
    {
        proof {
            lemma_mul_bound(self@.x, SCALE as int, VB as int, SCALE as int);
            lemma_mul_bound(self@.y, SCALE as int, VB as int, SCALE as int);
            lemma_mul_bound(self@.z, SCALE as int, VB as int, SCALE as int);
        }
        Vector3 { x: fxdiv(self.x, k), y: fxdiv(self.y, k), z: fxdiv(self.z, k) }
    }

    /// Componentwise fixed-point product.
    pub fn scale(&self, v: &Vector3) -> (r: Vector3)
        requires
            self@.bounded(VB as int),
            v@.bounded(VB as int),
        ensures
            r@ == self@.fmul(v@),
    {
        proof {
            lemma_mul_bound(self@.x, v@.x, VB as int, VB as int);
            lemma_mul_bound(self@.y, v@.y, VB as int, VB as int);
            lemma_mul_bound(self@.z, v@.z, VB as int, VB as int);
        }
        Vector3 { x: fxmul(self.x, v.x), y: fxmul(self.y, v.y), z: fxmul(self.z, v.z) }
    }

    /// Fixed-point dot product.
    pub fn inner(&self, b: &Vector3) -> (r: i64)
        requires
            self@.bounded(VB as int),
            b@.bounded(VB as int),
        ensures
            r as int == self@.fdot(b@),
    {
        proof {
            lemma_mul_bound(self@.x, b@.x, VB as int, VB as int);
            lemma_mul_bound(self@.y, b@.y, VB as int, VB as int);
            lemma_mul_bound(self@.z, b@.z, VB as int, VB as int);
            lemma_dtr_div_bound(self@.rdot(b@), SCALE as int, 0x4000_0000_0000_0000);
        }
        let p: i128 = (self.x as i128) * (b.x as i128) + (self.y as i128) * (b.y as i128)
            + (self.z as i128) * (b.z as i128);
        let q: i128 = div_trunc(p, SCALE as i128);
        q as i64
    }

    /// Fixed-point cross product.
    pub fn cross(&self, b: &Vector3) -> (r: Vector3)
        requires
            self@.bounded(VB as int),
            b@.bounded(VB as int),
        ensures
            r@ == self@.fcross(b@),
    {
        proof {
            lemma_mul_bound(self@.x, b@.y, VB as int, VB as int);
            lemma_mul_bound(self@.x, b@.z, VB as int, VB as int);
            lemma_mul_bound(self@.y, b@.x, VB as int, VB as int);
            lemma_mul_bound(self@.y, b@.z, VB as int, VB as int);
            lemma_mul_bound(self@.z, b@.x, VB as int, VB as int);
            lemma_mul_bound(self@.z, b@.y, VB as int, VB as int);
            lemma_dtr_div_bound(self@.y * b@.z, SCALE as int, 0x4000_0000_0000_0000);
            lemma_dtr_div_bound(self@.z * b@.y, SCALE as int, 0x4000_0000_0000_0000);
            lemma_dtr_div_bound(self@.z * b@.x, SCALE as int, 0x4000_0000_0000_0000);
            lemma_dtr_div_bound(self@.x * b@.z, SCALE as int, 0x4000_0000_0000_0000);
            lemma_dtr_div_bound(self@.x * b@.y, SCALE as int, 0x4000_0000_0000_0000);
            lemma_dtr_div_bound(self@.y * b@.x, SCALE as int, 0x4000_0000_0000_0000);
        }
        Vector3 {
            x: fxmul(self.y, b.z) - fxmul(self.z, b.y),
            y: fxmul(self.z, b.x) - fxmul(self.x, b.z),
            z: fxmul(self.x, b.y) - fxmul(self.y, b.x),
        }
    }

    /// The vector scaled to unit length: each component is divided by the
    /// raw Euclidean norm. The zero vector has no direction and is refused.
    pub fn normalize(&self) -> (r: Vector3)
        requires
            self@.bounded(VB as int),
            !(self.x == 0 && self.y == 0 && self.z == 0),
        ensures
            r@ == self@.vnormalize(),
            self@.rnorm() >= 1,
            r@.bounded(SCALE as int),
    {
        proof {
            lemma_mul_bound(self@.x, self@.x, VB as int, VB as int);
            lemma_mul_bound(self@.y, self@.y, VB as int, VB as int);
            lemma_mul_bound(self@.z, self@.z, VB as int, VB as int);
            assert(self@.x * self@.x >= 0) by (nonlinear_arith);
            assert(self@.y * self@.y >= 0) by (nonlinear_arith);
            assert(self@.z * self@.z >= 0) by (nonlinear_arith);
            assert(self@.x != 0 ==> self@.x * self@.x >= 1) by (nonlinear_arith);
            assert(self@.y != 0 ==> self@.y * self@.y >= 1) by (nonlinear_arith);
            assert(self@.z != 0 ==> self@.z * self@.z >= 1) by (nonlinear_arith);
        }
        let p: i128 = (self.x as i128) * (self.x as i128) + (self.y as i128) * (self.y as i128)
            + (self.z as i128) * (self.z as i128);
        let n128: u128 = isqrt(p as u128);
        proof {
            let nsq = self@.rdot(self@);
            let m = sqrt_floor(nsq);
            lemma_sqrt_floor(nsq);
            assert(m >= 1) by (nonlinear_arith)
                requires
                    m >= 0,
                    nsq >= 1,
                    nsq < (m + 1) * (m + 1),
            ;
            // each |component| <= the norm, so the scaled quotients fit
            assert(self@.x <= m && -m <= self@.x) by (nonlinear_arith)
                requires
                    m >= 0,
                    self@.x * self@.x <= nsq,
                    0 <= self@.y * self@.y,
                    0 <= self@.z * self@.z,
                    nsq == self@.x * self@.x + self@.y * self@.y + self@.z * self@.z,
                    nsq < (m + 1) * (m + 1),
            ;
            assert(self@.y <= m && -m <= self@.y) by (nonlinear_arith)
                requires
                    m >= 0,
                    self@.y * self@.y <= nsq,
                    0 <= self@.x * self@.x,
                    0 <= self@.z * self@.z,
                    nsq == self@.x * self@.x + self@.y * self@.y + self@.z * self@.z,
                    nsq < (m + 1) * (m + 1),
            ;
            assert(self@.z <= m && -m <= self@.z) by (nonlinear_arith)
                requires
                    m >= 0,
                    self@.z * self@.z <= nsq,
                    0 <= self@.x * self@.x,
                    0 <= self@.y * self@.y,
                    nsq == self@.x * self@.x + self@.y * self@.y + self@.z * self@.z,
                    nsq < (m + 1) * (m + 1),
            ;
            lemma_mul_bound(self@.x, SCALE as int, m, SCALE as int);
            lemma_mul_bound(self@.y, SCALE as int, m, SCALE as int);
            lemma_mul_bound(self@.z, SCALE as int, m, SCALE as int);
            lemma_dtr_div_bound(self@.x * SCALE as int, m, SCALE as int);
            lemma_dtr_div_bound(self@.y * SCALE as int, m, SCALE as int);
            lemma_dtr_div_bound(self@.z * SCALE as int, m, SCALE as int);
        }
        let n: i64 = n128 as i64;
        Vector3 { x: fxdiv(self.x, n), y: fxdiv(self.y, n), z: fxdiv(self.z, n) }
    }

    /// Mirror reflection about the plane normal to `norm`.
    pub fn reflection(&self, norm: &Vector3) -> (r: Vector3)
        requires
            self@.bounded(DB as int),
            norm@.bounded(DB as int),
        ensures
            r@ == self@.vreflect(norm@),
            r@.bounded(0x1900_0000),
    {
        let d: i64 = self.inner(norm);
        proof {
            lemma_mul_bound(self@.x, norm@.x, DB as int, DB as int);
            lemma_mul_bound(self@.y, norm@.y, DB as int, DB as int);
            lemma_mul_bound(self@.z, norm@.z, DB as int, DB as int);
            lemma_dtr_div_bound(self@.rdot(norm@), SCALE as int, 48 * (SCALE as int));
            assert(-3145728 <= d as int <= 3145728);
        }
        let k: i64 = -(d + d);
        assert(k as int == -2 * self@.fdot(norm@));
        let m = norm.muls(k);
        proof {
            lemma_mul_bound(norm@.x, k as int, DB as int, 6291456);
            lemma_mul_bound(norm@.y, k as int, DB as int, 6291456);
            lemma_mul_bound(norm@.z, k as int, DB as int, 6291456);
            lemma_dtr_div_bound(norm@.x * k as int, SCALE as int, 25165824);
            lemma_dtr_div_bound(norm@.y * k as int, SCALE as int, 25165824);
            lemma_dtr_div_bound(norm@.z * k as int, SCALE as int, 25165824);
        }
        self.add(&m)
    }

    /// Refraction of `self` at a surface with normal `norm` and index of
    /// refraction `optical_density` (a raw fixed-point scalar).
    pub fn refraction(&self, norm: &Vector3, optical_density: i64) -> (r: Vector3)
        requires
            self@.bounded(DB as int),
            norm@.bounded(DB as int),
            0 <= optical_density <= 16 * SCALE,
        ensures
            r@ == self@.vrefract(norm@, optical_density as int),
            r@.bounded(0x1100_0000),
    {
        let mut n1 = norm.neg();
        let mut ni: i64 = SCALE;
        let mut no: i64 = optical_density;
        let d0 = self.inner(&n1);
        proof {
            lemma_mul_bound(self@.x, n1@.x, DB as int, DB as int);
            lemma_mul_bound(self@.y, n1@.y, DB as int, DB as int);
            lemma_mul_bound(self@.z, n1@.z, DB as int, DB as int);
            lemma_dtr_div_bound(self@.rdot(n1@), SCALE as int, 48 * (SCALE as int));
        }
        if d0 < 0 {
            ni = optical_density;
            no = SCALE;
            n1 = n1.neg();
        }
        let d = self.inner(&n1);
        proof {
            lemma_mul_bound(self@.x, n1@.x, DB as int, DB as int);
            lemma_mul_bound(self@.y, n1@.y, DB as int, DB as int);
            lemma_mul_bound(self@.z, n1@.z, DB as int, DB as int);
            lemma_dtr_div_bound(self@.rdot(n1@), SCALE as int, 48 * (SCALE as int));
            lemma_mul_bound(no as int, no as int, 1048576, 1048576);
            lemma_mul_bound(ni as int, ni as int, 1048576, 1048576);
            lemma_dtr_div_bound(no as int * no as int, SCALE as int, 16777216);
            lemma_dtr_div_bound(ni as int * ni as int, SCALE as int, 16777216);
        }
        let ad = if d < 0 {
            -d
        } else {
            d
        };
        let k: i64 = fxmul(no, no) - fxmul(ni, ni) + ad - d;
        let m = n1.muls(k);
        proof {
            lemma_mul_bound(n1@.x, k as int, 262144, 46137344);
            lemma_mul_bound(n1@.y, k as int, 262144, 46137344);
            lemma_mul_bound(n1@.z, k as int, 262144, 46137344);
            lemma_dtr_div_bound(n1@.x * k as int, SCALE as int, 184549376);
            lemma_dtr_div_bound(n1@.y * k as int, SCALE as int, 184549376);
            lemma_dtr_div_bound(n1@.z * k as int, SCALE as int, 184549376);
        }
        self.add(&m)
    }

    /// Rotation by the Euler angles `r`, in raw fixed-point degrees about
    /// the x, y and z axes, in the renderer's (hand-rolled) convention.
    pub fn rotate(&self, r: &Vector3) -> (out: Vector3)
        requires
            self@.bounded(MAX_COORD as int),
            r@.bounded(ANGLE_MAX as int),
        ensures
            out@ == self@.vrotate(r@),
            out@.bounded(6 * MAX_COORD as int),
    {
        let cx = cos_deg(r.x);
        let sx = sin_deg(r.x);
        let cy = cos_deg(r.y);
        let sy = sin_deg(r.y);
        let cz = cos_deg(r.z);
        let sz = sin_deg(r.z);
        let m11 = tmul(tmul(cx, cy), cz) - tmul(sx, sz);
        let m12 = -tmul(tmul(cx, cy), sz) + tmul(sx, cz);
        let m13 = tmul(cx, sy);
        let m21 = tmul(tmul(sx, cy), cz) + tmul(cx, sz);
        let m22 = -tmul(tmul(sx, cy), sz) + tmul(cx, cz);
        let m23 = tmul(sx, sy);
        let m31 = -tmul(sy, cz);
        let m32 = tmul(sy, sz);
        let m33 = cy;
        let x = cmul(self.x, m11) + cmul(self.y, m12) + cmul(self.z, m13);
        let y = cmul(self.x, m21) + cmul(self.y, m22) + cmul(self.z, m23);
        let z = cmul(self.x, m31) + cmul(self.y, m32) + cmul(self.z, m33);
        Vector3 { x, y, z }
    }
}

/// One coordinate's rounding error when dividing by the norm: the scaled
/// coordinate splits into `m` times the rounded quotient plus a remainder
/// smaller than `m`, and the square expands accordingly.
proof fn lemma_normalize_coord(c: int, m: int, q: int)
    requires
        m >= 1,
        c * c <= q,
        q < (m + 1) * (m + 1),
    ensures
        ({
            let nc = dtr(c * SCALE as int, m);
            let e = c * SCALE as int - m * nc;
            &&& (m * nc) * (m * nc) == SCALE as int * SCALE as int * (c * c) - 2 * SCALE as int
                * (c * e) + e * e
            &&& -(m * m) <= c * e <= m * m
            &&& 0 <= e * e <= m * m
        }),
{
    let s = SCALE as int;
    let nc = dtr(c * s, m);
    let e = c * s - m * nc;
    lemma_dtr(c * s, m);
    assert(c * s >= 0 ==> c >= 0) by (nonlinear_arith)
        requires
            s == 65536,
    ;
    assert(-m < e < m || e == 0) by (nonlinear_arith)
        requires
            e == c * s - m * nc,
            (c * s >= 0 ==> m * nc <= c * s < m * nc + m),
            (c * s < 0 ==> m * nc - m < c * s <= m * nc),
    ;
    assert(-m <= c <= m) by (nonlinear_arith)
        requires
            m >= 1,
            c * c <= q,
            q < (m + 1) * (m + 1),
    ;
    lemma_mul_bound(c, e, m, m);
    lemma_mul_bound(e, e, m, m);
    assert(e * e >= 0) by (nonlinear_arith);
    let p = c * s;
    assert((p - e) * (p - e) == p * p - 2 * (p * e) + e * e) by (nonlinear_arith);
    assert(p * p == s * s * (c * c)) by (nonlinear_arith)
        requires
            p == c * s,
    ;
    assert(p * e == s * (c * e)) by (nonlinear_arith)
        requires
            p == c * s,
    ;
    assert(m * nc == p - e);
    assert(2 * (p * e) == 2 * s * (c * e)) by (nonlinear_arith)
        requires
            p * e == s * (c * e),
    ;
}

/// Negation commutes with normalization: the negated vector has the same
/// raw norm, and every rounded quotient negates with its dividend.
pub proof fn lemma_normalize_neg(v: V3)
    requires
        !(v == (V3 { x: 0, y: 0, z: 0 })),
    ensures
        v.vneg().vnormalize() == v.vnormalize().vneg(),
{
    assert(v.vneg().rdot(v.vneg()) == v.rdot(v)) by (nonlinear_arith);
    let m = v.rnorm();
    assert(v.vneg().rnorm() == m);
    assert(v.x * v.x >= 0 && v.y * v.y >= 0 && v.z * v.z >= 0) by (nonlinear_arith);
    assert(v.x != 0 ==> v.x * v.x >= 1) by (nonlinear_arith);
    assert(v.y != 0 ==> v.y * v.y >= 1) by (nonlinear_arith);
    assert(v.z != 0 ==> v.z * v.z >= 1) by (nonlinear_arith);
    lemma_sqrt_floor(v.rdot(v));
    assert(m >= 1) by (nonlinear_arith)
        requires
            m >= 0,
            v.rdot(v) >= 1,
            v.rdot(v) < (m + 1) * (m + 1),
    ;
    assert(-v.x * SCALE as int == -(v.x * SCALE as int)) by (nonlinear_arith);
    assert(-v.y * SCALE as int == -(v.y * SCALE as int)) by (nonlinear_arith);
    assert(-v.z * SCALE as int == -(v.z * SCALE as int)) by (nonlinear_arith);
    assert(dtr(-(v.x * SCALE as int), m) == -dtr(v.x * SCALE as int, m));
    assert(dtr(-(v.y * SCALE as int), m) == -dtr(v.y * SCALE as int, m));
    assert(dtr(-(v.z * SCALE as int), m) == -dtr(v.z * SCALE as int, m));
}

/// Law: normalizing a vector at least one unit long and re-querying its
/// squared norm returns one, within a tolerance of a few raw steps:
/// the raw squared norm of the normalized vector differs from
/// `SCALE * SCALE` (the raw form of one) by at most `16 * SCALE`.
pub proof fn lemma_normalize_unit(v: V3)
    requires
        v.rnorm() >= SCALE as int,
    ensures
        SCALE as int * SCALE as int - 16 * SCALE as int <= v.vnormalize().rdot(v.vnormalize()),
        v.vnormalize().rdot(v.vnormalize()) <= SCALE as int * SCALE as int + 16 * SCALE as int,
{
    let s = SCALE as int;
    let q = v.rdot(v);
    assert(v.x * v.x >= 0 && v.y * v.y >= 0 && v.z * v.z >= 0) by (nonlinear_arith);
    crate::fixed::lemma_sqrt_floor(q);
    let m = v.rnorm();
    let n = v.vnormalize();
    assert(v.x * v.x <= q && v.y * v.y <= q && v.z * v.z <= q);
    lemma_normalize_coord(v.x, m, q);
    lemma_normalize_coord(v.y, m, q);
    lemma_normalize_coord(v.z, m, q);
    let ex = v.x * s - m * n.x;
    let ey = v.y * s - m * n.y;
    let ez = v.z * s - m * n.z;
    assert(n.x == dtr(v.x * s, m));
    assert(n.y == dtr(v.y * s, m));
    assert(n.z == dtr(v.z * s, m));
    assert(-(m * m) <= v.x * ex <= m * m);
    assert(-(m * m) <= v.y * ey <= m * m);
    assert(-(m * m) <= v.z * ez <= m * m);
    assert(0 <= ex * ex <= m * m);
    assert(0 <= ey * ey <= m * m);
    assert(0 <= ez * ez <= m * m);
    // the scaled components square to the exact expansion
    assert((m * n.x) * (m * n.x) == (m * m) * (n.x * n.x)) by (nonlinear_arith);
    assert((m * n.y) * (m * n.y) == (m * m) * (n.y * n.y)) by (nonlinear_arith);
    assert((m * n.z) * (m * n.z) == (m * m) * (n.z * n.z)) by (nonlinear_arith);
    assert((m * m) * (n.x * n.x + n.y * n.y + n.z * n.z) == (m * m) * (n.x * n.x) + (m * m) * (
    n.y * n.y) + (m * m) * (n.z * n.z)) by (nonlinear_arith);
    assert(s * s * (v.x * v.x + v.y * v.y + v.z * v.z) == s * s * (v.x * v.x) + s * s * (v.y
        * v.y) + s * s * (v.z * v.z)) by (nonlinear_arith);
    let ee = v.x * ex + v.y * ey + v.z * ez;
    assert(2 * s * (v.x * ex) + 2 * s * (v.y * ey) + 2 * s * (v.z * ez) == 2 * s * ee)
        by (nonlinear_arith)
        requires
            ee == v.x * ex + v.y * ey + v.z * ez,
    ;
    let ff = ex * ex + ey * ey + ez * ez;
    // sum: (m^2) |n|^2 == s^2 q - 2 s E + F, with E and F bounded by 3 m^2
    assert((m * m) * n.rdot(n) == s * s * q - 2 * s * ee + ff);
    assert(-3 * (m * m) <= ee && ee <= 3 * (m * m)) by (nonlinear_arith)
        requires
            ee == v.x * ex + v.y * ey + v.z * ez,
            -(m * m) <= v.x * ex <= m * m,
            -(m * m) <= v.y * ey <= m * m,
            -(m * m) <= v.z * ez <= m * m,
    ;
    assert(0 <= ff && ff <= 3 * (m * m)) by (nonlinear_arith)
        requires
            ff == ex * ex + ey * ey + ez * ez,
            0 <= ex * ex <= m * m,
            0 <= ey * ey <= m * m,
            0 <= ez * ez <= m * m,
    ;
    // squeeze against the sqrt_floor bracket
    assert((m * m) * n.rdot(n) >= (m * m) * (s * s - 16 * s)) by (nonlinear_arith)
        requires
            (m * m) * n.rdot(n) == s * s * q - 2 * s * ee + ff,
            m * m <= q,
            ee <= 3 * (m * m),
            ff >= 0,
            s == 65536,
    ;
    assert((m * m) * n.rdot(n) <= (m * m) * (s * s + 16 * s)) by (nonlinear_arith)
        requires
            (m * m) * n.rdot(n) == s * s * q - 2 * s * ee + ff,
            q < (m + 1) * (m + 1),
            -3 * (m * m) <= ee,
            ff <= 3 * (m * m),
            m >= s,
            s == 65536,
    ;
    assert(n.rdot(n) <= s * s + 16 * s && n.rdot(n) >= s * s - 16 * s) by (nonlinear_arith)
        requires
            m >= 1,
            (m * m) * n.rdot(n) <= (m * m) * (s * s + 16 * s),
            (m * m) * n.rdot(n) >= (m * m) * (s * s - 16 * s),
    ;
}

/// Law: normalizing a two-component vector at least one unit long and
/// re-querying its squared norm returns one, within the same tolerance
/// as for three components: the raw squared norm of the normalized
/// vector differs from `SCALE * SCALE` by at most `16 * SCALE`.
pub proof fn lemma_normalize_unit_v2(v: V2)
    requires
        v.rnorm() >= SCALE as int,
    ensures
        ({
            let n = v.vnormalize();
            SCALE as int * SCALE as int - 16 * SCALE as int <= n.x * n.x + n.y * n.y
                && n.x * n.x + n.y * n.y <= SCALE as int * SCALE as int + 16 * SCALE as int
        }),
{
    let s = SCALE as int;
    let q = v.x * v.x + v.y * v.y;
    assert(v.x * v.x >= 0 && v.y * v.y >= 0) by (nonlinear_arith);
    lemma_sqrt_floor(q);
    let m = v.rnorm();
    let n = v.vnormalize();
    assert(v.x * v.x <= q && v.y * v.y <= q);
    lemma_normalize_coord(v.x, m, q);
    lemma_normalize_coord(v.y, m, q);
    let ex = v.x * s - m * n.x;
    let ey = v.y * s - m * n.y;
    assert(n.x == dtr(v.x * s, m));
    assert(n.y == dtr(v.y * s, m));
    assert(-(m * m) <= v.x * ex <= m * m);
    assert(-(m * m) <= v.y * ey <= m * m);
    assert(0 <= ex * ex <= m * m);
    assert(0 <= ey * ey <= m * m);
    assert((m * n.x) * (m * n.x) == (m * m) * (n.x * n.x)) by (nonlinear_arith);
    assert((m * n.y) * (m * n.y) == (m * m) * (n.y * n.y)) by (nonlinear_arith);
    assert((m * m) * (n.x * n.x + n.y * n.y) == (m * m) * (n.x * n.x) + (m * m) * (n.y * n.y))
        by (nonlinear_arith);
    assert(s * s * (v.x * v.x + v.y * v.y) == s * s * (v.x * v.x) + s * s * (v.y * v.y))
        by (nonlinear_arith);
    let ee = v.x * ex + v.y * ey;
    assert(2 * s * (v.x * ex) + 2 * s * (v.y * ey) == 2 * s * ee) by (nonlinear_arith)
        requires
            ee == v.x * ex + v.y * ey,
    ;
    let ff = ex * ex + ey * ey;
    assert((m * m) * (n.x * n.x + n.y * n.y) == s * s * q - 2 * s * ee + ff);
    assert(-2 * (m * m) <= ee && ee <= 2 * (m * m)) by (nonlinear_arith)
        requires
            ee == v.x * ex + v.y * ey,
            -(m * m) <= v.x * ex <= m * m,
            -(m * m) <= v.y * ey <= m * m,
    ;
    assert(0 <= ff && ff <= 2 * (m * m)) by (nonlinear_arith)
        requires
            ff == ex * ex + ey * ey,
            0 <= ex * ex <= m * m,
            0 <= ey * ey <= m * m,
    ;
    assert((m * m) * (n.x * n.x + n.y * n.y) >= (m * m) * (s * s - 16 * s)) by (nonlinear_arith)
        requires
            (m * m) * (n.x * n.x + n.y * n.y) == s * s * q - 2 * s * ee + ff,
            m * m <= q,
            ee <= 2 * (m * m),
            ff >= 0,
            s == 65536,
    ;
    assert((m * m) * (n.x * n.x + n.y * n.y) <= (m * m) * (s * s + 16 * s)) by (nonlinear_arith)
        requires
            (m * m) * (n.x * n.x + n.y * n.y) == s * s * q - 2 * s * ee + ff,
            q < (m + 1) * (m + 1),
            -2 * (m * m) <= ee,
            ff <= 2 * (m * m),
            m >= s,
            s == 65536,
    ;
    assert(n.x * n.x + n.y * n.y <= s * s + 16 * s && n.x * n.x + n.y * n.y >= s * s - 16 * s)
        by (nonlinear_arith)
        requires
            m >= 1,
            (m * m) * (n.x * n.x + n.y * n.y) <= (m * m) * (s * s + 16 * s),
            (m * m) * (n.x * n.x + n.y * n.y) >= (m * m) * (s * s - 16 * s),
    ;
}

/// Mathematical model of a `Vector2`.
pub ghost struct V2 {
    pub x: int,
    pub y: int,
}

impl V2 {
    pub open spec fn bounded(self, b: int) -> bool {
        &&& -b <= self.x <= b
        &&& -b <= self.y <= b
    }

    pub open spec fn vadd(self, o: V2) -> V2 {
        V2 { x: self.x + o.x, y: self.y + o.y }
    }

    pub open spec fn vsub(self, o: V2) -> V2 {
        V2 { x: self.x - o.x, y: self.y - o.y }
    }

    /// Fixed-point multiplication by the raw scalar `k`.
    pub open spec fn fxs(self, k: int) -> V2 {
        V2 { x: dtr(self.x * k, SCALE as int), y: dtr(self.y * k, SCALE as int) }
    }

    /// The raw norm: `SCALE` times the Euclidean length, rounded down.
    pub open spec fn rnorm(self) -> int {
        sqrt_floor(self.x * self.x + self.y * self.y)
    }

    /// The normalized vector: each component divided by the raw norm.
    pub open spec fn vnormalize(self) -> V2 {
        V2 {
            x: dtr(self.x * SCALE as int, self.rnorm()),
            y: dtr(self.y * SCALE as int, self.rnorm()),
        }
    }
}

/// A two-component fixed-point vector (texture coordinates).
#[derive(Clone, Copy, Debug, PartialEq, Eq, Structural)]
pub struct Vector2 {
    pub x: i64,
    pub y: i64,
}

impl View for Vector2 {
    type V = V2;

    open spec fn view(&self) -> V2 {
        V2 { x: self.x as int, y: self.y as int }
    }
}

impl Vector2 {
    pub fn new(x: i64, y: i64) -> (r: Vector2)
        ensures
            r@ == (V2 { x: x as int, y: y as int }),
    {
        Vector2 { x, y }
    }

    pub fn add(&self, o: &Vector2) -> (r: Vector2)
        requires
            self@.bounded(0x1000_0000_0000_0000),
            o@.bounded(0x1000_0000_0000_0000),
        ensures
            r@ == self@.vadd(o@),
    {
        Vector2 { x: self.x + o.x, y: self.y + o.y }
    }

    pub fn sub(&self, o: &Vector2) -> (r: Vector2)
        requires
            self@.bounded(0x1000_0000_0000_0000),
            o@.bounded(0x1000_0000_0000_0000),
        ensures
            r@ == self@.vsub(o@),
    {
        Vector2 { x: self.x - o.x, y: self.y - o.y }
    }

    /// Fixed-point multiplication by the scalar `k`.
    pub fn muls(&self, k: i64) -> (r: Vector2)
        requires
            self@.bounded(VB as int),
            -KB <= k <= KB,
        ensures
            r@ == self@.fxs(k as int),
    {
        proof {
            lemma_mul_bound(self@.x, k as int, VB as int, KB as int);
            lemma_mul_bound(self@.y, k as int, VB as int, KB as int);
        }
        Vector2 { x: fxmul(self.x, k), y: fxmul(self.y, k) }
    }

    /// The vector scaled to unit length, as for `Vector3`.
    pub fn normalize(&self) -> (r: Vector2)
        requires
            self@.bounded(VB as int),
            !(self.x == 0 && self.y == 0),
        ensures
            r@ == self@.vnormalize(),
    {
        proof {
            lemma_mul_bound(self@.x, self@.x, VB as int, VB as int);
            lemma_mul_bound(self@.y, self@.y, VB as int, VB as int);
            assert(self@.x * self@.x >= 0) by (nonlinear_arith);
            assert(self@.y * self@.y >= 0) by (nonlinear_arith);
            assert(self@.x != 0 ==> self@.x * self@.x >= 1) by (nonlinear_arith);
            assert(self@.y != 0 ==> self@.y * self@.y >= 1) by (nonlinear_arith);
        }
        let p: i128 = (self.x as i128) * (self.x as i128) + (self.y as i128) * (self.y as i128);
        let n128: u128 = isqrt(p as u128);
        proof {
            let nsq = self@.x * self@.x + self@.y * self@.y;
            let m = sqrt_floor(nsq);
            lemma_sqrt_floor(nsq);
            assert(m >= 1) by (nonlinear_arith)
                requires
                    m >= 0,
                    nsq >= 1,
                    nsq < (m + 1) * (m + 1),
            ;
            assert(-m <= self@.x <= m && -m <= self@.y <= m) by (nonlinear_arith)
                requires
                    m >= 0,
                    0 <= self@.x * self@.x,
                    0 <= self@.y * self@.y,
                    nsq == self@.x * self@.x + self@.y * self@.y,
                    nsq < (m + 1) * (m + 1),
            ;
            lemma_mul_bound(self@.x, SCALE as int, m, SCALE as int);
            lemma_mul_bound(self@.y, SCALE as int, m, SCALE as int);
            lemma_dtr_div_bound(self@.x * SCALE as int, m, SCALE as int);
            lemma_dtr_div_bound(self@.y * SCALE as int, m, SCALE as int);
        }
        let n: i64 = n128 as i64;
        Vector2 { x: fxdiv(self.x, n), y: fxdiv(self.y, n) }
    }
}

} // verus!
