//! Soundness of bounding-sphere culling.
//!
//! The law proved here: culling never rejects a ray that the triangle scan
//! would have accepted. If a ray hits a triangle whose vertices all lie in
//! an object's bounding sphere, the culling discriminant for that sphere
//! is nonnegative, so the object is never skipped while one of its
//! triangles has a valid hit. The proof goes through the Cramer identity
//! (the hit point is a convex combination of the vertices, by two uses of
//! the vector triple-product expansion), convexity of the ball, and the
//! sign of the sphere quadratic at the hit parameter.

use vstd::prelude::*;
use crate::vector::V3;
use crate::object::{
    sgn, tri_den, tri_nt, tri_nb, tri_ng, tri_hits, in_sphere, cull_disc,
};

verus! {

/// One coordinate of the vector triple-product expansion
/// `u x (v x w) == v (u . w) - w (u . v)`; the others follow by cycling.
proof fn lemma_bac_cab_x(
    ux: int, uy: int, uz: int,
    vx: int, vy: int, vz: int,
    wx: int, wy: int, wz: int,
)
    ensures
        uy * (vx * wy - vy * wx) - uz * (vz * wx - vx * wz)
            == (ux * wx + uy * wy + uz * wz) * vx - (ux * vx + uy * vy + uz * vz) * wx,
{
    let m1 = vx * wy;
    let m2 = vy * wx;
    let m3 = vz * wx;
    let m4 = vx * wz;
    assert(uy * (m1 - m2) == uy * m1 - uy * m2) by (nonlinear_arith);
    assert(uz * (m3 - m4) == uz * m3 - uz * m4) by (nonlinear_arith);
    let s1 = ux * wx;
    let s2 = uy * wy;
    let s3 = uz * wz;
    let t1 = ux * vx;
    let t2 = uy * vy;
    let t3 = uz * vz;
    assert((s1 + s2 + s3) * vx == s1 * vx + s2 * vx + s3 * vx) by (nonlinear_arith);
    assert((t1 + t2 + t3) * wx == t1 * wx + t2 * wx + t3 * wx) by (nonlinear_arith);
    assert(uy * m1 == s2 * vx) by (nonlinear_arith)
        requires
            m1 == vx * wy,
            s2 == uy * wy,
    ;
    assert(uz * m4 == s3 * vx) by (nonlinear_arith)
        requires
            m4 == vx * wz,
            s3 == uz * wz,
    ;
    assert(uy * m2 == t2 * wx) by (nonlinear_arith)
        requires
            m2 == vy * wx,
            t2 == uy * vy,
    ;
    assert(uz * m3 == t3 * wx) by (nonlinear_arith)
        requires
            m3 == vz * wx,
            t3 == uz * vz,
    ;
    assert(s1 * vx == t1 * wx) by (nonlinear_arith)
        requires
            s1 == ux * wx,
            t1 == ux * vx,
    ;
}

/// The triple-product expansion over vectors.
proof fn lemma_bac_cab(u: V3, v: V3, w: V3)
    ensures
        u.rcross(v.rcross(w)) == v.smul(u.rdot(w)).vsub(w.smul(u.rdot(v))),
{
    lemma_bac_cab_x(u.x, u.y, u.z, v.x, v.y, v.z, w.x, w.y, w.z);
    lemma_bac_cab_x(u.y, u.z, u.x, v.y, v.z, v.x, w.y, w.z, w.x);
    lemma_bac_cab_x(u.z, u.x, u.y, v.z, v.x, v.y, w.z, w.x, w.y);
}

/// The cross product anticommutes.
proof fn lemma_cross_anti(u: V3, v: V3)
    ensures
        u.rcross(v) == v.rcross(u).vneg(),
{
    assert(u.y * v.z - u.z * v.y == -(v.y * u.z - v.z * u.y) && u.z * v.x - u.x * v.z == -(v.z
        * u.x - v.x * u.z) && u.x * v.y - u.y * v.x == -(v.x * u.y - v.y * u.x))
        by (nonlinear_arith);
}

/// The Cramer identity for the intersection system:
/// `den * rv == -nt * d + nb * e1 + ng * e2`, componentwise.
proof fn lemma_tri_cramer(v1: V3, v2: V3, v3: V3, o: V3, d: V3)
    ensures
        ({
            let e1 = v2.vsub(v1);
            let e2 = v3.vsub(v1);
            let rv = o.vsub(v1);
            let den = tri_den(v1, v2, v3, o, d);
            let nt = tri_nt(v1, v2, v3, o, d);
            let nb = tri_nb(v1, v2, v3, o, d);
            let ng = tri_ng(v1, v2, v3, o, d);
            &&& den * rv.x - nb * e1.x == -(nt * d.x - ng * e2.x)
            &&& den * rv.y - nb * e1.y == -(nt * d.y - ng * e2.y)
            &&& den * rv.z - nb * e1.z == -(nt * d.z - ng * e2.z)
        }),
{
    let e1 = v2.vsub(v1);
    let e2 = v3.vsub(v1);
    let rv = o.vsub(v1);
    let xx = d.rcross(e2);
    let c1 = rv.rcross(e1);
    lemma_bac_cab(xx, rv, e1);
    lemma_bac_cab(c1, d, e2);
    lemma_cross_anti(xx, c1);
}

/// Twice a dot product is at most the sum of the squared norms
/// (from `(u - v) . (u - v) >= 0`).
proof fn lemma_pair_dot(u: V3, v: V3)
    ensures
        2 * u.rdot(v) <= u.rdot(u) + v.rdot(v),
{
    assert(2 * (u.x * v.x + u.y * v.y + u.z * v.z) <= (u.x * u.x + u.y * u.y + u.z * u.z) + (v.x
        * v.x + v.y * v.y + v.z * v.z)) by (nonlinear_arith);
}

/// A squared norm is never negative.
proof fn lemma_dot_nonneg(u: V3)
    ensures
        u.rdot(u) >= 0,
{
    assert(u.x * u.x + u.y * u.y + u.z * u.z >= 0) by (nonlinear_arith);
}

/// The square of a weighted trinomial, expanded.
proof fn lemma_trinom_sq(p: int, q: int, r: int, w1: int, w2: int, w3: int)
    ensures
        (w1 * p + w2 * q + w3 * r) * (w1 * p + w2 * q + w3 * r) == w1 * w1 * (p * p) + w2 * w2
            * (q * q) + w3 * w3 * (r * r) + 2 * (w1 * w2) * (p * q) + 2 * (w1 * w3) * (p * r) + 2
            * (w2 * w3) * (q * r),
{
    let a = w1 * p;
    let b = w2 * q;
    let c = w3 * r;
    assert((a + b + c) * (a + b + c) == a * a + b * b + c * c + 2 * (a * b) + 2 * (a * c) + 2 * (
    b * c)) by (nonlinear_arith);
    assert(a * a == w1 * w1 * (p * p)) by (nonlinear_arith)
        requires
            a == w1 * p,
    ;
    assert(b * b == w2 * w2 * (q * q)) by (nonlinear_arith)
        requires
            b == w2 * q,
    ;
    assert(c * c == w3 * w3 * (r * r)) by (nonlinear_arith)
        requires
            c == w3 * r,
    ;
    assert(a * b == (w1 * w2) * (p * q)) by (nonlinear_arith)
        requires
            a == w1 * p,
            b == w2 * q,
    ;
    assert(a * c == (w1 * w3) * (p * r)) by (nonlinear_arith)
        requires
            a == w1 * p,
            c == w3 * r,
    ;
    assert(b * c == (w2 * w3) * (q * r)) by (nonlinear_arith)
        requires
            b == w2 * q,
            c == w3 * r,
    ;
    assert(2 * (w1 * w2) * (p * q) == 2 * ((w1 * w2) * (p * q))) by (nonlinear_arith);
    assert(2 * (w1 * w3) * (p * r) == 2 * ((w1 * w3) * (p * r))) by (nonlinear_arith);
    assert(2 * (w2 * w3) * (q * r) == 2 * ((w2 * w3) * (q * r))) by (nonlinear_arith);
}

/// A factor distributes over a three-term sum.
proof fn lemma_distrib3(k: int, a: int, b: int, c: int)
    by (nonlinear_arith)
    ensures
        k * (a + b + c) == k * a + k * b + k * c,
{
}

/// A nonnegative factor preserves an upper bound.
proof fn lemma_prod_mono(k: int, d: int, rr: int)
    by (nonlinear_arith)
    requires
        k >= 0,
        d <= rr,
    ensures
        k * d <= k * rr,
{
}

/// A nonnegative combination of points of a ball stays in the scaled
/// ball: if each `u_i` has squared norm at most `rr`, the weighted sum
/// with weights `w_i >= 0` has squared norm at most `(w1+w2+w3)^2 * rr`.
proof fn lemma_convex_ball(u1: V3, u2: V3, u3: V3, w1: int, w2: int, w3: int, rr: int)
    requires
        w1 >= 0,
        w2 >= 0,
        w3 >= 0,
        rr >= 0,
        u1.rdot(u1) <= rr,
        u2.rdot(u2) <= rr,
        u3.rdot(u3) <= rr,
    ensures
        ({
            let s = u1.smul(w1).vadd(u2.smul(w2)).vadd(u3.smul(w3));
            s.rdot(s) <= (w1 + w2 + w3) * (w1 + w2 + w3) * rr
        }),
{
    let s = u1.smul(w1).vadd(u2.smul(w2)).vadd(u3.smul(w3));
    lemma_trinom_sq(u1.x, u2.x, u3.x, w1, w2, w3);
    lemma_trinom_sq(u1.y, u2.y, u3.y, w1, w2, w3);
    lemma_trinom_sq(u1.z, u2.z, u3.z, w1, w2, w3);
    let d11 = u1.rdot(u1);
    let d22 = u2.rdot(u2);
    let d33 = u3.rdot(u3);
    let d12 = u1.rdot(u2);
    let d13 = u1.rdot(u3);
    let d23 = u2.rdot(u3);
    lemma_distrib3(w1 * w1, u1.x * u1.x, u1.y * u1.y, u1.z * u1.z);
    lemma_distrib3(w2 * w2, u2.x * u2.x, u2.y * u2.y, u2.z * u2.z);
    lemma_distrib3(w3 * w3, u3.x * u3.x, u3.y * u3.y, u3.z * u3.z);
    lemma_distrib3(2 * (w1 * w2), u1.x * u2.x, u1.y * u2.y, u1.z * u2.z);
    lemma_distrib3(2 * (w1 * w3), u1.x * u3.x, u1.y * u3.y, u1.z * u3.z);
    lemma_distrib3(2 * (w2 * w3), u2.x * u3.x, u2.y * u3.y, u2.z * u3.z);
    assert(s.rdot(s) == w1 * w1 * d11 + w2 * w2 * d22 + w3 * w3 * d33 + 2 * (w1 * w2) * d12 + 2
        * (w1 * w3) * d13 + 2 * (w2 * w3) * d23);
    lemma_pair_dot(u1, u2);
    lemma_pair_dot(u1, u3);
    lemma_pair_dot(u2, u3);
    assert(w1 * w1 >= 0 && w2 * w2 >= 0 && w3 * w3 >= 0 && w1 * w2 >= 0 && w1 * w3 >= 0 && w2
        * w3 >= 0) by (nonlinear_arith)
        requires
            w1 >= 0,
            w2 >= 0,
            w3 >= 0,
    ;
    lemma_prod_mono(w1 * w1, d11, rr);
    lemma_prod_mono(w2 * w2, d22, rr);
    lemma_prod_mono(w3 * w3, d33, rr);
    lemma_prod_mono(2 * (w1 * w2), d12, rr);
    lemma_prod_mono(2 * (w1 * w3), d13, rr);
    lemma_prod_mono(2 * (w2 * w3), d23, rr);
    assert((w1 + w2 + w3) * (w1 + w2 + w3) * rr == w1 * w1 * rr + w2 * w2 * rr + w3 * w3 * rr
        + 2 * (w1 * w2) * rr + 2 * (w1 * w3) * rr + 2 * (w2 * w3) * rr) by (nonlinear_arith);
}

/// Re-centering one coordinate of the Cramer identity on the sphere
/// center: the scaled hit point is the same weighted sum of the
/// re-centered vertices.
proof fn lemma_recenter(
    adv: int, ntv: int, nbv: int, ngv: int, w1v: int,
    ox: int, v1x: int, v2x: int, v3x: int, cx: int, dx: int,
)
    by (nonlinear_arith)
    requires
        adv * (ox - v1x) - nbv * (v2x - v1x) == -(ntv * dx - ngv * (v3x - v1x)),
        w1v == adv - nbv - ngv,
    ensures
        adv * (ox - cx) + ntv * dx == w1v * (v1x - cx) + nbv * (v2x - cx) + ngv * (v3x - cx),
{
}

/// The square of a two-term sum, expanded.
proof fn lemma_binom_sq(p: int, q: int, w1: int, w2: int)
    ensures
        (w1 * p + w2 * q) * (w1 * p + w2 * q) == w1 * w1 * (p * p) + 2 * (w1 * w2) * (p * q) + w2
            * w2 * (q * q),
{
    let a = w1 * p;
    let b = w2 * q;
    assert((a + b) * (a + b) == a * a + 2 * (a * b) + b * b) by (nonlinear_arith);
    assert(a * a == w1 * w1 * (p * p)) by (nonlinear_arith)
        requires
            a == w1 * p,
    ;
    assert(a * b == (w1 * w2) * (p * q)) by (nonlinear_arith)
        requires
            a == w1 * p,
            b == w2 * q,
    ;
    assert(b * b == w2 * w2 * (q * q)) by (nonlinear_arith)
        requires
            b == w2 * q,
    ;
    assert(2 * (w1 * w2) * (p * q) == 2 * ((w1 * w2) * (p * q))) by (nonlinear_arith);
}

/// Culling is sound: a ray that hits a triangle whose vertices lie in a
/// sphere has a nonnegative culling discriminant for that sphere. In other
/// words, bounding-sphere rejection never discards a triangle hit.
pub proof fn lemma_cull_no_false_negative(
    v1: V3, v2: V3, v3: V3, o: V3, d: V3, c: V3, r: int,
)
    requires
        r >= 0,
        in_sphere(v1, c, r),
        in_sphere(v2, c, r),
        in_sphere(v3, c, r),
        tri_hits(v1, v2, v3, o, d),
    ensures
        cull_disc(o, d, c, r) >= 0,
{
    let e1 = v2.vsub(v1);
    let e2 = v3.vsub(v1);
    let rv = o.vsub(v1);
    let den = tri_den(v1, v2, v3, o, d);
    let s = sgn(den);
    let ad = s * den;
    let nt = s * tri_nt(v1, v2, v3, o, d);
    let nb = s * tri_nb(v1, v2, v3, o, d);
    let ng = s * tri_ng(v1, v2, v3, o, d);
    let w1 = ad - nb - ng;
    let oc = o.vsub(c);
    let a = d.rdot(d);
    let bb = d.rdot(oc);
    let rr = r * r;
    let occ = oc.rdot(oc);

    lemma_tri_cramer(v1, v2, v3, o, d);
    // sign-adjusted Cramer identity
    assert(ad * rv.x - nb * e1.x == -(nt * d.x - ng * e2.x) && ad * rv.y - nb * e1.y == -(nt
        * d.y - ng * e2.y) && ad * rv.z - nb * e1.z == -(nt * d.z - ng * e2.z))
        by (nonlinear_arith)
        requires
            s == 1 || s == -1,
            ad == s * den,
            nt == s * tri_nt(v1, v2, v3, o, d),
            nb == s * tri_nb(v1, v2, v3, o, d),
            ng == s * tri_ng(v1, v2, v3, o, d),
            den * rv.x - tri_nb(v1, v2, v3, o, d) * e1.x == -(tri_nt(v1, v2, v3, o, d) * d.x
                - tri_ng(v1, v2, v3, o, d) * e2.x),
            den * rv.y - tri_nb(v1, v2, v3, o, d) * e1.y == -(tri_nt(v1, v2, v3, o, d) * d.y
                - tri_ng(v1, v2, v3, o, d) * e2.y),
            den * rv.z - tri_nb(v1, v2, v3, o, d) * e1.z == -(tri_nt(v1, v2, v3, o, d) * d.z
                - tri_ng(v1, v2, v3, o, d) * e2.z),
    ;
    // the scaled hit point as a weighted sum of the re-centered vertices
    let u1 = v1.vsub(c);
    let u2 = v2.vsub(c);
    let u3 = v3.vsub(c);
    let uu = u1.smul(w1).vadd(u2.smul(nb)).vadd(u3.smul(ng));
    lemma_recenter(ad, nt, nb, ng, w1, o.x, v1.x, v2.x, v3.x, c.x, d.x);
    lemma_recenter(ad, nt, nb, ng, w1, o.y, v1.y, v2.y, v3.y, c.y, d.y);
    lemma_recenter(ad, nt, nb, ng, w1, o.z, v1.z, v2.z, v3.z, c.z, d.z);
    assert(uu.x == ad * oc.x + nt * d.x);
    assert(uu.y == ad * oc.y + nt * d.y);
    assert(uu.z == ad * oc.z + nt * d.z);
    // hit conditions give nonnegative weights summing to ad
    assert(ad >= 1 && nt >= 1 && nb >= 0 && ng >= 0 && w1 >= 0);
    lemma_convex_ball(u1, u2, u3, w1, nb, ng, rr);
    assert(uu.rdot(uu) <= ad * ad * rr) by (nonlinear_arith)
        requires
            uu.rdot(uu) <= (w1 + nb + ng) * (w1 + nb + ng) * rr,
            w1 + nb + ng == ad,
    ;
    // expand the same squared norm in the (oc, d) basis
    lemma_binom_sq(oc.x, d.x, ad, nt);
    lemma_binom_sq(oc.y, d.y, ad, nt);
    lemma_binom_sq(oc.z, d.z, ad, nt);
    lemma_distrib3(ad * ad, oc.x * oc.x, oc.y * oc.y, oc.z * oc.z);
    lemma_distrib3(nt * nt, d.x * d.x, d.y * d.y, d.z * d.z);
    lemma_distrib3(2 * (ad * nt), oc.x * d.x, oc.y * d.y, oc.z * d.z);
    assert(oc.rdot(d) == oc.x * d.x + oc.y * d.y + oc.z * d.z);
    assert(bb == d.x * oc.x + d.y * oc.y + d.z * oc.z);
    assert(oc.x * d.x == d.x * oc.x && oc.y * d.y == d.y * oc.y && oc.z * d.z == d.z * oc.z)
        by (nonlinear_arith);
    assert(uu.rdot(uu) == ad * ad * occ + 2 * (ad * nt) * bb + nt * nt * a);
    let cc = occ - rr;
    let ee = a * (nt * nt) + 2 * bb * (nt * ad) + cc * (ad * ad);
    assert(ee <= 0) by (nonlinear_arith)
        requires
            ad * ad * occ + 2 * (ad * nt) * bb + nt * nt * a <= ad * ad * rr,
            cc == occ - rr,
            ee == a * (nt * nt) + 2 * bb * (nt * ad) + cc * (ad * ad),
    ;
    lemma_dot_nonneg(d);
    if a == 0 {
        // a zero direction makes the system degenerate, against den != 0
        assert(d.x == 0 && d.y == 0 && d.z == 0) by (nonlinear_arith)
            requires
                d.x * d.x + d.y * d.y + d.z * d.z == 0,
        ;
        assert(den == (d.y * e2.z - d.z * e2.y) * e1.x + (d.z * e2.x - d.x * e2.z) * e1.y + (d.x
            * e2.y - d.y * e2.x) * e1.z);
        assert(den == 0) by (nonlinear_arith)
            requires
                den == (d.y * e2.z - d.z * e2.y) * e1.x + (d.z * e2.x - d.x * e2.z) * e1.y + (d.x
                    * e2.y - d.y * e2.x) * e1.z,
                d.x == 0,
                d.y == 0,
                d.z == 0,
    ;
        assert(false);
    }
    // complete the square: ad^2 disc == (a nt + bb ad)^2 - a ee
    let pp = a * nt;
    let qq = bb * ad;
    assert((pp + qq) * (pp + qq) == pp * pp + 2 * (pp * qq) + qq * qq) by (nonlinear_arith);
    assert(pp * pp == a * (a * (nt * nt))) by (nonlinear_arith)
        requires
            pp == a * nt,
    ;
    assert(2 * (pp * qq) == a * (2 * bb * (nt * ad))) by (nonlinear_arith)
        requires
            pp == a * nt,
            qq == bb * ad,
    ;
    assert(qq * qq - a * (cc * (ad * ad)) == ad * ad * (bb * bb - a * cc)) by (nonlinear_arith)
        requires
            qq == bb * ad,
    ;
    lemma_distrib3(a, a * (nt * nt), 2 * bb * (nt * ad), cc * (ad * ad));
    assert(ad * ad * (bb * bb - a * cc) == (pp + qq) * (pp + qq) - a * ee);
    assert((pp + qq) * (pp + qq) >= 0) by (nonlinear_arith);
    assert(a * ee <= 0) by (nonlinear_arith)
        requires
            a >= 0,
            ee <= 0,
    ;
    assert(bb * bb - a * cc >= 0) by (nonlinear_arith)
        requires
            ad >= 1,
            ad * ad * (bb * bb - a * cc) >= 0,
    ;
    assert(cull_disc(o, d, c, r) == bb * bb - a * cc);
}

} // verus!
