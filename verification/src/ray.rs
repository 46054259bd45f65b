//! Rays and stochastic direction generation.
//!
//! A ray is an origin and a direction stored normalized. `rnd_dirgen`
//! draws a bundle of random directions, biases them toward a preferred
//! direction by a roughness-controlled gain, and flips any that end up
//! under the surface: every direction it returns lies in the hemisphere
//! of the given normal, exactly.

use vstd::prelude::*;
use crate::fixed::{SCALE, lemma_mul_bound, lemma_dtr_div_bound};
use crate::trig::glossy_gain;
use crate::vector::{V3, Vector3, VB, lemma_normalize_neg};

verus! {

/// Largest raw coordinate magnitude of a ray origin: an in-range scene
/// point plus a full hit range of travel stays inside it.
pub const MAX_ORIG: i64 = 0x4000_0000;

/// A handle to rand's thread-local generator, opaque to verification.
#[verifier::external_type_specification]
#[verifier::external_body]
pub struct ExThreadRng(rand::rngs::ThreadRng);

/// Relies on rand::thread_rng: a fresh handle to the thread-local
/// generator. Nothing is promised of it.
#[verifier::external_body]
fn fresh_rng() -> rand::rngs::ThreadRng {
    rand::thread_rng()
}

/// Relies on rand::Rng::gen_range: a uniform draw from a non-empty
/// half-open range, always within it; panics on an empty range, which the
/// precondition rules out. Nothing else can be promised of a random draw.
#[verifier::external_body]
fn rand_i64(rng: &mut rand::rngs::ThreadRng, lo: i64, hi: i64) -> (r: i64)
    requires
        lo < hi,
    ensures
        lo <= r < hi,
{
    rand::Rng::gen_range(rng, lo..hi)
}

/// A direction that came out of normalization: the normalization of some
/// nonzero vector, hence of unit scale up to fixed-point rounding.
pub open spec fn is_unit_dir(d: V3) -> bool {
    exists|wv: V3| !(wv == (V3 { x: 0, y: 0, z: 0 })) && d == #[trigger] wv.vnormalize()
}

/// A ray: an origin and a normalized direction.
#[derive(Clone, Copy, Debug, PartialEq, Eq, Structural)]
pub struct Ray {
    pub origin: Vector3,
    pub direction: Vector3,
}

impl Ray {
    /// A ray is well formed when its origin is an in-range scene point and
    /// its direction is direction-sized.
    pub open spec fn wf(self) -> bool {
        &&& self.origin@.bounded(MAX_ORIG as int)
        &&& self.direction@.bounded(SCALE as int)
    }

    /// A ray toward `direction`, which is stored normalized.
    pub fn new(origin: Vector3, direction: Vector3) -> (r: Ray)
        requires
            origin@.bounded(MAX_ORIG as int),
            direction@.bounded(VB as int),
            !(direction.x == 0 && direction.y == 0 && direction.z == 0),
        ensures
            r.origin == origin,
            r.direction@ == direction@.vnormalize(),
            is_unit_dir(r.direction@),
            r.wf(),
    {
        Ray { origin, direction: direction.normalize() }
    }

    /// A bundle of `num` random rays from `origin`, each drawn from the
    /// cube, biased toward `dir` by the glossy gain of `roughness`,
    /// normalized, and flipped into the hemisphere of `norm` if needed.
    /// Every returned ray starts at `origin` and its direction `v`
    /// satisfies `v . norm >= 0` (against the normalized normal, in
    /// fixed-point arithmetic).
    pub fn rnd_dirgen(
        origin: &Vector3,
        norm: &Vector3,
        dir: &Vector3,
        num: usize,
        roughness: i64,
    ) -> (rays: Vec<Ray>)
        requires
            origin@.bounded(MAX_ORIG as int),
            norm@.bounded(VB as int),
            !(norm.x == 0 && norm.y == 0 && norm.z == 0),
            dir@.bounded(VB as int),
            !(dir.x == 0 && dir.y == 0 && dir.z == 0),
            0 <= roughness <= SCALE,
        ensures
            rays@.len() == num as int,
            forall|i: int| 0 <= i < num as int ==> (#[trigger] rays@[i]).origin == *origin,
            forall|i: int|
                0 <= i < num as int ==> (#[trigger] rays@[i]).direction@.fdot(
                    norm@.vnormalize(),
                ) >= 0,
            forall|i: int| 0 <= i < num as int ==> is_unit_dir((#[trigger] rays@[i]).direction@),
            forall|i: int| 0 <= i < num as int ==> (#[trigger] rays@[i]).wf(),
    {
        let nn = norm.normalize();
        let nd = dir.normalize();
        let gain = glossy_gain(roughness);
        let bias = nd.muls(gain);
        proof {
            lemma_mul_bound(nd@.x, gain as int, SCALE as int, 0x1_0000_0000);
            lemma_mul_bound(nd@.y, gain as int, SCALE as int, 0x1_0000_0000);
            lemma_mul_bound(nd@.z, gain as int, SCALE as int, 0x1_0000_0000);
            lemma_dtr_div_bound(nd@.x * gain as int, SCALE as int, 0x1_0000_0000);
            lemma_dtr_div_bound(nd@.y * gain as int, SCALE as int, 0x1_0000_0000);
            lemma_dtr_div_bound(nd@.z * gain as int, SCALE as int, 0x1_0000_0000);
        }
        let mut rng = fresh_rng();
        let mut rays: Vec<Ray> = Vec::new();
        let mut made: usize = 0;
        while made < num
            invariant
                made <= num,
                rays@.len() == made as int,
                nn@ == norm@.vnormalize(),
                nn@.bounded(SCALE as int),
                bias@.bounded(0x1_0000_0000),
                origin@.bounded(MAX_ORIG as int),
                forall|i: int| 0 <= i < made as int ==> (#[trigger] rays@[i]).origin == *origin,
                forall|i: int|
                    0 <= i < made as int ==> (#[trigger] rays@[i]).direction@.fdot(nn@) >= 0,
                forall|i: int|
                    0 <= i < made as int ==> is_unit_dir((#[trigger] rays@[i]).direction@),
                forall|i: int| 0 <= i < made as int ==> (#[trigger] rays@[i]).wf(),
            decreases num - made,
        {
            let rx = rand_i64(&mut rng, -SCALE, SCALE + 1);
            let ry = rand_i64(&mut rng, -SCALE, SCALE + 1);
            let rz = rand_i64(&mut rng, -SCALE, SCALE + 1);
            let v = Vector3::new(rx, ry, rz);
            let mut w = v.add(&bias);
            if w.x == 0 && w.y == 0 && w.z == 0 {
                w = Vector3::new(0, 0, SCALE);
            }
            let mut d0 = w.normalize();
            if d0.inner(&nn) < 0 {
                proof {
                    assert(d0@.vneg().rdot(nn@) == -d0@.rdot(nn@)) by (nonlinear_arith);
                    assert(crate::fixed::dtr(-d0@.rdot(nn@), SCALE as int)
                        == -crate::fixed::dtr(d0@.rdot(nn@), SCALE as int));
                    lemma_normalize_neg(w@);
                }
                d0 = d0.neg();
                proof {
                    assert(d0@ == w@.vneg().vnormalize());
                    assert(is_unit_dir(d0@));
                }
            }
            let ray = Ray { origin: *origin, direction: d0 };
            rays.push(ray);
            made = made + 1;
        }
        rays
    }
}

} // verus!
