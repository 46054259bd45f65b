use pathtrace::color::{Color, CHAN_MAX};
use pathtrace::fixed::{fxdiv, fxmul, isqrt, SCALE};
use pathtrace::operation::{rotate, scale, tranlate};
use pathtrace::trig::{cos_deg, glossy_gain, sin_deg, tan_deg};
use pathtrace::vector::{Vector2, Vector3};

#[test]
fn fixed_point_products_round_toward_zero() {
    assert_eq!(fxmul(98304, 131072), 196608); // 1.5 * 2.0 == 3.0
    assert_eq!(fxmul(-98304, 131072), -196608);
    assert_eq!(fxmul(1, 1), 0); // underflow truncates to zero
    assert_eq!(fxdiv(196608, 131072), 98304); // 3.0 / 2.0 == 1.5
    assert_eq!(fxdiv(-196608, 131072), -98304);
}

#[test]
fn integer_square_root_brackets() {
    assert_eq!(isqrt(0), 0);
    assert_eq!(isqrt(1), 1);
    assert_eq!(isqrt(24), 4);
    assert_eq!(isqrt(25), 5);
    assert_eq!(isqrt((1u128 << 60) - 1), (1u128 << 30) - 1);
}

#[test]
fn bhaskara_sine_hits_the_exact_points() {
    assert_eq!(sin_deg(0), 0);
    assert_eq!(sin_deg(30 * SCALE), 32768);
    assert_eq!(sin_deg(90 * SCALE), SCALE);
    assert_eq!(sin_deg(-90 * SCALE), -SCALE);
    assert_eq!(cos_deg(60 * SCALE), 32768);
    assert_eq!(tan_deg(45 * SCALE), SCALE);
}

#[test]
fn glossy_gain_spans_mirror_to_diffuse() {
    assert_eq!(glossy_gain(0), SCALE * SCALE); // a perfect mirror
    assert_eq!(glossy_gain(SCALE), 116); // nearly flat bias at full roughness
}

#[test]
fn reform_clamps_and_is_idempotent() {
    let c = Color::new(-5 * SCALE, 100 * SCALE, 300 * SCALE);
    let r = c.reform();
    assert_eq!((r.r, r.g, r.b), (0, 100 * SCALE, CHAN_MAX));
    let rr = r.reform();
    assert_eq!((rr.r, rr.g, rr.b), (r.r, r.g, r.b));
    let in_range = Color::new(0, 12345, CHAN_MAX);
    let k = in_range.reform();
    assert_eq!((k.r, k.g, k.b), (0, 12345, CHAN_MAX));
}

#[test]
fn color_arithmetic_is_fixed_point() {
    let a = Color::new(2 * SCALE, 3 * SCALE, 4 * SCALE);
    let b = Color::new(SCALE / 2, SCALE, 2 * SCALE);
    let m = a.mul(&b);
    assert_eq!((m.r, m.g, m.b), (SCALE, 3 * SCALE, 8 * SCALE));
    let s = a.add(&b);
    assert_eq!((s.r, s.g, s.b), (5 * SCALE / 2, 4 * SCALE, 6 * SCALE));
    let d = a.divs(2 * SCALE);
    assert_eq!((d.r, d.g, d.b), (SCALE, 3 * SCALE / 2, 2 * SCALE));
    let q = a.div(&b);
    assert_eq!((q.r, q.g, q.b), (4 * SCALE, 3 * SCALE, 2 * SCALE));
    let z = Color::zeros();
    assert_eq!((z.r, z.g, z.b), (0, 0, 0));
    let o = Color::ones();
    assert_eq!((o.r, o.g, o.b), (SCALE, SCALE, SCALE));
    let fl = Color::from_list([1, 2, 3]);
    assert_eq!((fl.r, fl.g, fl.b), (1, 2, 3));
    let fv = Color::from_vector(&vec![4, 5, 6]);
    assert_eq!((fv.r, fv.g, fv.b), (4, 5, 6));
    let fp = Color::from_pixel(&[255, 0, 128]);
    assert_eq!((fp.r, fp.g, fp.b), (255 * SCALE, 0, 128 * SCALE));
}

#[test]
fn normalize_returns_a_unit_vector() {
    let v = Vector3::new(3 * SCALE, 4 * SCALE, 0);
    let n = v.normalize();
    assert_eq!((n.x, n.y, n.z), (39321, 52428, 0));
    let norm_sq = n.x * n.x + n.y * n.y + n.z * n.z;
    assert!((norm_sq - SCALE * SCALE).abs() <= 16 * SCALE);
    let w = Vector2::new(3 * SCALE, 4 * SCALE).normalize();
    assert_eq!((w.x, w.y), (39321, 52428));
}

#[test]
fn vector_algebra_matches_the_formulas() {
    let a = Vector3::new(SCALE, 2 * SCALE, 3 * SCALE);
    let b = Vector3::new(4 * SCALE, 5 * SCALE, 6 * SCALE);
    assert_eq!(a.inner(&b), 32 * SCALE);
    let c = a.cross(&b);
    assert_eq!((c.x, c.y, c.z), (-3 * SCALE, 6 * SCALE, -3 * SCALE));
    let s = a.sub(&b);
    assert_eq!((s.x, s.y, s.z), (-3 * SCALE, -3 * SCALE, -3 * SCALE));
    let t = a.translate(&b);
    assert_eq!((t.x, t.y, t.z), (5 * SCALE, 7 * SCALE, 9 * SCALE));
    let sc = a.scale(&b);
    assert_eq!((sc.x, sc.y, sc.z), (4 * SCALE, 10 * SCALE, 18 * SCALE));
}

#[test]
fn rotation_about_z_turns_x_into_y() {
    // rotating (1, 0, 0) by 90 degrees about the z axis, in the
    // renderer's hand-rolled convention, lands on (0, -1, 0)
    let v = Vector3::new(SCALE, 0, 0);
    let r = v.rotate(&Vector3::new(0, 0, 90 * SCALE));
    assert_eq!(r.x, 0);
    assert_eq!(r.y.abs(), SCALE);
    assert_eq!(r.z, 0);
}

#[test]
fn operation_helpers_transform_triples() {
    let v = vec![SCALE, 2 * SCALE, 3 * SCALE];
    let t = tranlate(&v, 10, 20, 30);
    assert_eq!(t, vec![SCALE + 10, 2 * SCALE + 20, 3 * SCALE + 30]);
    let s = scale(&v, 2 * SCALE, 3 * SCALE, SCALE / 2);
    assert_eq!(s, vec![2 * SCALE, 6 * SCALE, 3 * SCALE / 2]);
    let r = rotate(&v, 0, 0, 0);
    assert_eq!(r, vec![SCALE, 2 * SCALE, 3 * SCALE]);
}
