//! Geometry: triangles, objects, and intersection.
//!
//! A triangle (`Plane`) is intersected with a ray by the determinant
//! (Cramer) formulation: the hit parameters are ratios of four scalar
//! triple products, and the hit test is carried out exactly on those
//! integer numerators, so the contract states precisely which rays hit.
//! An `Object` groups triangles, caches a bounding sphere for cheap
//! rejection, and owns its material table and decoded textures.

use vstd::prelude::*;
use crate::fixed::{
    SCALE, MAX_COORD, dtr, div_trunc, isqrt, sqrt_floor,
    lemma_dtr, lemma_dtr_div_bound, lemma_dtr_ge, lemma_dtr_lt, lemma_mul_bound,
};
use crate::vector::{V3, Vector3, Vector2, DB};
use crate::color::{Color, C3};
use crate::ray::Ray;

verus! {

/// Farthest distance (in whole units) at which a hit is accepted.
pub const MAX_RANGE: i64 = 10000;

/// `MAX_RANGE` as a raw fixed-point distance.
pub const MAX_RANGE_RAW: i64 = 655360000;

/// The scalar triple product `a . (b x c)`, written `(a x b) . c`.
pub open spec fn det3(a: V3, b: V3, c: V3) -> int {
    a.rcross(b).rdot(c)
}

/// The sign of an integer.
pub open spec fn sgn(x: int) -> int {
    if x > 0 {
        1
    } else if x < 0 {
        -1
    } else {
        0
    }
}

/// Denominator of the intersection parameters: `(d x e2) . e1`.
pub open spec fn tri_den(v1: V3, v2: V3, v3: V3, o: V3, d: V3) -> int {
    det3(d, v3.vsub(v1), v2.vsub(v1))
}

/// Numerator of the hit distance: `(rv x e1) . e2`.
pub open spec fn tri_nt(v1: V3, v2: V3, v3: V3, o: V3, d: V3) -> int {
    det3(o.vsub(v1), v2.vsub(v1), v3.vsub(v1))
}

/// Numerator of the first barycentric coordinate: `(d x e2) . rv`.
pub open spec fn tri_nb(v1: V3, v2: V3, v3: V3, o: V3, d: V3) -> int {
    det3(d, v3.vsub(v1), o.vsub(v1))
}

/// Numerator of the second barycentric coordinate: `(rv x e1) . d`.
pub open spec fn tri_ng(v1: V3, v2: V3, v3: V3, o: V3, d: V3) -> int {
    det3(o.vsub(v1), v2.vsub(v1), d)
}

/// Whether the ray `(o, d)` hits the triangle `(v1, v2, v3)`: with the
/// hit parameters `t = nt/den`, `beta = nb/den`, `gamma = ng/den`, the
/// exact rational conditions `1/1000 < t < MAX_RANGE`, `beta >= 0`,
/// `gamma >= 0` and `beta + gamma <= 1`, stated over the sign-adjusted
/// numerators. A degenerate system (`den == 0`) never hits.
pub open spec fn tri_hits(v1: V3, v2: V3, v3: V3, o: V3, d: V3) -> bool {
    let den = tri_den(v1, v2, v3, o, d);
    let s = sgn(den);
    let ad = s * den;
    let nt = s * tri_nt(v1, v2, v3, o, d);
    let nb = s * tri_nb(v1, v2, v3, o, d);
    let ng = s * tri_ng(v1, v2, v3, o, d);
    &&& den != 0
    &&& 1000 * nt > ad
    &&& nb >= 0
    &&& ng >= 0
    &&& nb + ng <= ad
    &&& nt < 10000 * ad
}

/// The hit triple `(t, beta, gamma)` as raw fixed-point values: each
/// rational parameter scaled by `SCALE` and rounded toward zero.
pub open spec fn tri_hit_vec(v1: V3, v2: V3, v3: V3, o: V3, d: V3) -> V3 {
    let den = tri_den(v1, v2, v3, o, d);
    let s = sgn(den);
    let ad = s * den;
    let nt = s * tri_nt(v1, v2, v3, o, d);
    let nb = s * tri_nb(v1, v2, v3, o, d);
    let ng = s * tri_ng(v1, v2, v3, o, d);
    V3 {
        x: dtr(nt * SCALE as int, ad),
        y: dtr(nb * SCALE as int, ad),
        z: dtr(ng * SCALE as int, ad),
    }
}

/// The raw hit distance of a hitting triangle.
pub open spec fn tri_hit_t(v1: V3, v2: V3, v3: V3, o: V3, d: V3) -> int {
    tri_hit_vec(v1, v2, v3, o, d).x
}

/// Whether `v` lies within the sphere of center `c` and radius `r`.
pub open spec fn in_sphere(v: V3, c: V3, r: int) -> bool {
    v.vsub(c).rdot(v.vsub(c)) <= r * r
}

/// The bounding-sphere discriminant for the ray `(o, d)` against the
/// sphere `(c, r)`: `(d . (o-c))^2 - (d . d) ((o-c).(o-c) - r^2)`. The ray
/// meets the sphere exactly when this is nonnegative, so a negative value
/// rejects the whole object.
pub open spec fn cull_disc(o: V3, d: V3, c: V3, r: int) -> int {
    let oc = o.vsub(c);
    d.rdot(oc) * d.rdot(oc) - d.rdot(d) * (oc.rdot(oc) - r * r)
}

/// Per-vertex texture coordinates of a triangle.
#[derive(Clone, Copy, Debug)]
pub struct Texcoord {
    pub v1: Vector2,
    pub v2: Vector2,
    pub v3: Vector2,
}

impl Texcoord {
    pub fn new(v1: Vector2, v2: Vector2, v3: Vector2) -> (r: Texcoord)
        ensures
            r.v1 == v1,
            r.v2 == v2,
            r.v3 == v3,
    {
        Texcoord { v1, v2, v3 }
    }
}

/// Per-vertex normals of a triangle.
#[derive(Clone, Copy, Debug)]
pub struct Normcoord {
    pub v1: Vector3,
    pub v2: Vector3,
    pub v3: Vector3,
}

impl Normcoord {
    pub fn new(v1: Vector3, v2: Vector3, v3: Vector3) -> (r: Normcoord)
        ensures
            r.v1 == v1,
            r.v2 == v2,
            r.v3 == v3,
    {
        Normcoord { v1, v2, v3 }
    }
}

/// A triangle: three world-space vertices, optional per-vertex normals
/// and texture coordinates, and the index of its material.
#[derive(Debug)]
pub struct Plane {
    pub v1: Vector3,
    pub v2: Vector3,
    pub v3: Vector3,
    pub vn: Option<Normcoord>,
    pub vt: Option<Texcoord>,
    pub material_id: Option<usize>,
}

impl Plane {
    /// In-range vertices, direction-sized normals, in-range texture
    /// coordinates.
    pub open spec fn wf(self) -> bool {
        &&& self.v1@.bounded(MAX_COORD as int)
        &&& self.v2@.bounded(MAX_COORD as int)
        &&& self.v3@.bounded(MAX_COORD as int)
        &&& match self.vn {
            Some(n) => n.v1@.bounded(DB as int) && n.v2@.bounded(DB as int) && n.v3@.bounded(
                DB as int,
            ) && !(n.v1@ == (V3 { x: 0, y: 0, z: 0 })),
            None => true,
        }
        &&& match self.vt {
            Some(t) => t.v1@.bounded(0x10_0000_0000) && t.v2@.bounded(0x10_0000_0000)
                && t.v3@.bounded(0x10_0000_0000),
            None => true,
        }
    }

    pub fn new(
        v1: Vector3,
        v2: Vector3,
        v3: Vector3,
        vn: Option<Normcoord>,
        vt: Option<Texcoord>,
        material_id: Option<usize>,
    ) -> (r: Plane)
        ensures
            r == (Plane { v1, v2, v3, vn, vt, material_id }),
    {
        Plane { v1, v2, v3, vn, vt, material_id }
    }

    /// The intersection of `ray` with this triangle: `Some` exactly when
    /// the rational hit conditions hold, and then the raw fixed-point hit
    /// triple `(t, beta, gamma)`, with `t` positive and below range and
    /// the barycentric pair nonnegative with sum at most one.
    pub fn intersection(&self, ray: &Ray) -> (r: Option<Vector3>)
        requires
            self.wf(),
            ray.wf(),
        ensures
            r.is_some() <==> tri_hits(self.v1@, self.v2@, self.v3@, ray.origin@, ray.direction@),
            match r {
                Some(v) => {
                    &&& v@ == tri_hit_vec(self.v1@, self.v2@, self.v3@, ray.origin@, ray.direction@)
                    &&& 65 <= v@.x < MAX_RANGE_RAW as int
                    &&& 0 <= v@.y <= SCALE as int
                    &&& 0 <= v@.z <= SCALE as int
                    &&& v@.y + v@.z <= SCALE as int
                },
                None => true,
            },
    {
        let e1 = self.v2.sub(&self.v1);
        let e2 = self.v3.sub(&self.v1);
        let rv = ray.origin.sub(&self.v1);
        let c1 = cross_wide(&rv, &e1);
        let c2 = cross_wide(&ray.direction, &e2);
        let num_t = dot_wide(c1.0, c1.1, c1.2, &e2);
        let num_b = dot_wide(c2.0, c2.1, c2.2, &rv);
        let num_g = dot_wide(c1.0, c1.1, c1.2, &ray.direction);
        let den = dot_wide(c2.0, c2.1, c2.2, &e1);
        proof {
            // the wide integer results are exactly the spec determinants
            let gv1 = self.v1@;
            let gv2 = self.v2@;
            let gv3 = self.v3@;
            let go = ray.origin@;
            let gd = ray.direction@;
            assert(num_t as int == tri_nt(gv1, gv2, gv3, go, gd));
            assert(num_b as int == tri_nb(gv1, gv2, gv3, go, gd));
            assert(num_g as int == tri_ng(gv1, gv2, gv3, go, gd));
            assert(den as int == tri_den(gv1, gv2, gv3, go, gd));
        }
        if den == 0 {
            return None;
        }
        let (ad, nt, nb, ng) = if den > 0 {
            (den, num_t, num_b, num_g)
        } else {
            (-den, -num_t, -num_b, -num_g)
        };
        proof {
            // and the sign-adjusted values match the spec's adjustment
            let gv1 = self.v1@;
            let gv2 = self.v2@;
            let gv3 = self.v3@;
            let go = ray.origin@;
            let gd = ray.direction@;
            let s = sgn(tri_den(gv1, gv2, gv3, go, gd));
            assert(ad as int == s * tri_den(gv1, gv2, gv3, go, gd));
            assert(nt as int == s * tri_nt(gv1, gv2, gv3, go, gd));
            assert(nb as int == s * tri_nb(gv1, gv2, gv3, go, gd));
            assert(ng as int == s * tri_ng(gv1, gv2, gv3, go, gd));
        }
        if 1000 * nt > ad && nb >= 0 && ng >= 0 && nb + ng <= ad && nt < 10000 * ad {
            proof {
                let nti = nt as int;
                let nbi = nb as int;
                let ngi = ng as int;
                let adi = ad as int;
                // the scaled quotients fit their ranges
                assert(nti * 65536 >= adi * 65) by (nonlinear_arith)
                    requires
                        1000 * nti > adi,
                        adi >= 1,
                ;
                lemma_dtr_ge(nti * (SCALE as int), adi, 65);
                assert(nti * 65536 < adi * 655360000) by (nonlinear_arith)
                    requires
                        nti < 10000 * adi,
                        adi >= 1,
                ;
                lemma_dtr_lt(nti * (SCALE as int), adi, MAX_RANGE_RAW as int);
                assert(0 <= nbi * 65536 <= adi * 65536) by (nonlinear_arith)
                    requires
                        0 <= nbi,
                        nbi + ngi <= adi,
                        0 <= ngi,
                ;
                assert(0 <= ngi * 65536 <= adi * 65536) by (nonlinear_arith)
                    requires
                        0 <= ngi,
                        nbi + ngi <= adi,
                        0 <= nbi,
                ;
                lemma_dtr_div_bound(nbi * (SCALE as int), adi, SCALE as int);
                lemma_dtr_div_bound(ngi * (SCALE as int), adi, SCALE as int);
                lemma_dtr(nbi * (SCALE as int), adi);
                lemma_dtr(ngi * (SCALE as int), adi);
                // the rounded barycentric pair still sums to at most one
                assert(dtr(nbi * (SCALE as int), adi) + dtr(ngi * (SCALE as int), adi)
                    <= SCALE as int) by (nonlinear_arith)
                    requires
                        adi >= 1,
                        0 <= nbi,
                        0 <= ngi,
                        nbi + ngi <= adi,
                        dtr(nbi * (SCALE as int), adi) >= 0,
                        dtr(ngi * (SCALE as int), adi) >= 0,
                        adi * dtr(nbi * (SCALE as int), adi) <= nbi * (SCALE as int),
                        adi * dtr(ngi * (SCALE as int), adi) <= ngi * (SCALE as int),
                        SCALE as int == 65536,
                ;
                lemma_mul_bound(nti, SCALE as int, 0x1_0000_0000_0000_0000_0000_0000, 65536);
                lemma_mul_bound(nbi, SCALE as int, 0x1_0000_0000_0000_0000_0000_0000, 65536);
                lemma_mul_bound(ngi, SCALE as int, 0x1_0000_0000_0000_0000_0000_0000, 65536);
            }
            let t = div_trunc(nt * (SCALE as i128), ad);
            let b = div_trunc(nb * (SCALE as i128), ad);
            let g = div_trunc(ng * (SCALE as i128), ad);
            Some(Vector3::new(t as i64, b as i64, g as i64))
        } else {
            None
        }
    }
}

/// A surface material: constant or texture-driven parameters, already
/// decoded into plain fixed-point values. A texture reference is an index
/// into the owning object's texture table.
#[derive(Debug)]
pub struct Material {
    pub diffuse: Color,
    pub diffuse_texture: Option<usize>,
    pub roughness: Option<i64>,
    pub roughness_texture: Option<usize>,
    pub metallic: Option<i64>,
    pub metallic_texture: Option<usize>,
    pub transmittance: i64,
    pub optical_density: i64,
    pub emission: Color,
}

impl Material {
    /// Scalar parameters in range, texture references into the table of
    /// `ntex` textures, no negative light or reflectance.
    pub open spec fn wf(self, ntex: int) -> bool {
        &&& self.diffuse@.nonneg()
        &&& match self.diffuse_texture {
            Some(t) => t < ntex,
            None => true,
        }
        &&& match self.roughness {
            Some(v) => 0 <= v <= SCALE,
            None => true,
        }
        &&& match self.roughness_texture {
            Some(t) => t < ntex,
            None => true,
        }
        &&& match self.metallic {
            Some(v) => 0 <= v <= SCALE,
            None => true,
        }
        &&& match self.metallic_texture {
            Some(t) => t < ntex,
            None => true,
        }
        &&& 0 <= self.transmittance <= SCALE
        &&& 0 <= self.optical_density <= 16 * SCALE
        &&& self.emission@.nonneg()
        &&& self.emission.r <= crate::color::CMAX
        &&& self.emission.g <= crate::color::CMAX
        &&& self.emission.b <= crate::color::CMAX
    }

    /// Whether this material emits any light.
    pub open spec fn emissive(self) -> bool {
        self.emission@ != (C3 { r: 0, g: 0, b: 0 })
    }
}

/// A decoded texture image: row-major 8-bit RGB pixels.
#[derive(Debug)]
pub struct Texture {
    pub width: usize,
    pub height: usize,
    pub pixels: Vec<[u8; 3]>,
}

impl Texture {
    /// A nonempty image of moderate size whose pixel buffer matches its
    /// dimensions.
    pub open spec fn wf(self) -> bool {
        &&& 1 <= self.width <= 32768
        &&& 1 <= self.height <= 32768
        &&& self.pixels@.len() == self.width * self.height
    }

    /// The pixel in column `x` of row `y`.
    pub fn pixel(&self, x: usize, y: usize) -> (p: [u8; 3])
        requires
            self.wf(),
            x < self.width,
            y < self.height,
        ensures
            p == self.pixels@[y * self.width + x],
    {
        proof {
            assert(y * self.width + x < self.width * self.height && y * self.width
                <= 32768 * 32768) by (nonlinear_arith)
                requires
                    x < self.width,
                    y < self.height,
                    self.width <= 32768,
                    self.height <= 32768,
            ;
        }
        self.pixels[y * self.width + x]
    }
}

/// The squared distance between two points, exactly.
pub open spec fn dist_sq(v: V3, c: V3) -> int {
    v.vsub(c).rdot(v.vsub(c))
}

/// The larger of two integers.
pub open spec fn imax(a: int, b: int) -> int {
    if a < b {
        b
    } else {
        a
    }
}

/// The largest squared vertex distance from `c` over all triangles
/// (zero for none).
pub open spec fn max_vertex_dist_sq(planes: Seq<Plane>, c: V3) -> int
    decreases planes.len(),
{
    if planes.len() == 0 {
        0
    } else {
        let p = planes.last();
        imax(
            imax(
                imax(max_vertex_dist_sq(planes.drop_last(), c), dist_sq(p.v1@, c)),
                dist_sq(p.v2@, c),
            ),
            dist_sq(p.v3@, c),
        )
    }
}

/// A group of triangles sharing one coordinate frame, its cached bounding
/// sphere, its material table and its decoded textures.
#[derive(Debug)]
pub struct Object {
    pub planes: Vec<Plane>,
    pub origin: Vector3,
    pub radius: i64,
    pub materials: Vec<Material>,
    pub textures: Vec<Texture>,
    pub is_ec: bool,
}

/// What `Object::new` accepts: well-formed triangles whose material
/// indices point into the material table, well-formed materials and
/// textures, and an in-range origin.
pub open spec fn object_input_ok(
    planes: Seq<Plane>,
    origin: Vector3,
    materials: Seq<Material>,
    textures: Seq<Texture>,
) -> bool {
    &&& origin@.bounded(MAX_COORD as int)
    &&& forall|i: int| 0 <= i < planes.len() ==> (#[trigger] planes[i]).wf()
    &&& forall|i: int|
        0 <= i < planes.len() ==> match (#[trigger] planes[i]).material_id {
            Some(id) => id < materials.len(),
            None => true,
        }
    &&& forall|i: int|
        0 <= i < materials.len() ==> (#[trigger] materials[i]).wf(textures.len() as int)
    &&& forall|i: int| 0 <= i < textures.len() ==> (#[trigger] textures[i]).wf()
}

impl Object {
    /// The object's invariant: valid input data, a bounding sphere that
    /// really contains every vertex, and an emissive flag that is set
    /// exactly when some material emits light.
    pub open spec fn wf(self) -> bool {
        &&& object_input_ok(self.planes@, self.origin, self.materials@, self.textures@)
        &&& 0 <= self.radius <= 0x2000_0000
        &&& forall|i: int|
            0 <= i < self.planes@.len() ==> {
                let p = #[trigger] self.planes@[i];
                in_sphere(p.v1@, self.origin@, self.radius as int) && in_sphere(
                    p.v2@,
                    self.origin@,
                    self.radius as int,
                ) && in_sphere(p.v3@, self.origin@, self.radius as int)
            }
        &&& self.is_ec == exists|i: int|
            0 <= i < self.materials@.len() && (#[trigger] self.materials@[i]).emissive()
    }

    /// Whether some triangle of the object is hit by the ray `(o, d)`.
    pub open spec fn hit_by(self, o: V3, d: V3) -> bool {
        exists|j: int|
            0 <= j < self.planes@.len() && tri_hits(
                (#[trigger] self.planes@[j]).v1@,
                self.planes@[j].v2@,
                self.planes@[j].v3@,
                o,
                d,
            )
    }

    /// The raw hit distance of triangle `j` for the ray `(o, d)`.
    pub open spec fn hit_t_of(self, j: int, o: V3, d: V3) -> int {
        tri_hit_t(self.planes@[j].v1@, self.planes@[j].v2@, self.planes@[j].v3@, o, d)
    }

    /// An object from its parts. The bounding sphere radius and the
    /// emissive flag are computed here, so the result always satisfies the
    /// object invariant; invalid parts are refused, exactly when
    /// `object_input_ok` fails.
    pub fn new(
        planes: Vec<Plane>,
        origin: Vector3,
        materials: Vec<Material>,
        textures: Vec<Texture>,
    ) -> (r: Option<Object>)
        ensures
            r.is_some() <==> object_input_ok(planes@, origin, materials@, textures@),
            match r {
                Some(o) => {
                    &&& o.wf()
                    &&& o.planes@ == planes@
                    &&& o.origin == origin
                    &&& o.materials@ == materials@
                    &&& o.textures@ == textures@
                    &&& sqrt_floor(max_vertex_dist_sq(planes@, origin@)) <= o.radius
                        <= sqrt_floor(max_vertex_dist_sq(planes@, origin@)) + 1
                },
                None => true,
            },
    {
        if !(-MAX_COORD <= origin.x && origin.x <= MAX_COORD && -MAX_COORD <= origin.y && origin.y
            <= MAX_COORD && -MAX_COORD <= origin.z && origin.z <= MAX_COORD) {
            return None;
        }
        let mut i: usize = 0;
        while i < planes.len()
            invariant
                i <= planes@.len(),
                forall|j: int| 0 <= j < i as int ==> (#[trigger] planes@[j]).wf(),
                forall|j: int|
                    0 <= j < i as int ==> match (#[trigger] planes@[j]).material_id {
                        Some(id) => id < materials@.len(),
                        None => true,
                    },
            decreases planes@.len() - i as int,
        {
            if !plane_ok(&planes[i]) {
                return None;
            }
            match planes[i].material_id {
                Some(id) => if id >= materials.len() {
                    return None;
                },
                None => {},
            }
            i = i + 1;
        }
        let mut i: usize = 0;
        while i < materials.len()
            invariant
                i <= materials@.len(),
                forall|j: int|
                    0 <= j < i as int ==> (#[trigger] materials@[j]).wf(textures@.len() as int),
            decreases materials@.len() - i as int,
        {
            if !material_ok(&materials[i], textures.len()) {
                return None;
            }
            i = i + 1;
        }
        let mut i: usize = 0;
        while i < textures.len()
            invariant
                i <= textures@.len(),
                forall|j: int| 0 <= j < i as int ==> (#[trigger] textures@[j]).wf(),
            decreases textures@.len() - i as int,
        {
            let t = &textures[i];
            if !(1 <= t.width && t.width <= 32768 && 1 <= t.height && t.height <= 32768) {
                return None;
            }
            proof {
                assert(t.width * t.height <= 32768 * 32768) by (nonlinear_arith)
                    requires
                        t.width <= 32768,
                        t.height <= 32768,
                ;
            }
            if t.pixels.len() != t.width * t.height {
                return None;
            }
            i = i + 1;
        }
        // the bounding sphere: the largest vertex distance, rounded up
        let mut maxd: i128 = 0;
        let mut i: usize = 0;
        while i < planes.len()
            invariant
                i <= planes@.len(),
                forall|j: int| 0 <= j < planes@.len() ==> (#[trigger] planes@[j]).wf(),
                origin@.bounded(MAX_COORD as int),
                0 <= maxd <= 0x300_0000_0000_0000,
                maxd as int == max_vertex_dist_sq(planes@.take(i as int), origin@),
                forall|j: int|
                    0 <= j < i as int ==> {
                        let p = #[trigger] planes@[j];
                        dist_sq(p.v1@, origin@) <= maxd as int && dist_sq(p.v2@, origin@)
                            <= maxd as int && dist_sq(p.v3@, origin@) <= maxd as int
                    },
            decreases planes@.len() - i as int,
        {
            proof {
                assert(planes@.take(i as int + 1).drop_last() =~= planes@.take(i as int));
                assert(planes@.take(i as int + 1).last() == planes@[i as int]);
            }
            let d1 = vertex_dist_sq(&planes[i].v1, &origin);
            let d2 = vertex_dist_sq(&planes[i].v2, &origin);
            let d3 = vertex_dist_sq(&planes[i].v3, &origin);
            if maxd < d1 {
                maxd = d1;
            }
            if maxd < d2 {
                maxd = d2;
            }
            if maxd < d3 {
                maxd = d3;
            }
            i = i + 1;
        }
        proof {
            assert(planes@.take(planes@.len() as int) =~= planes@);
        }
        let m = isqrt(maxd as u128);
        proof {
            assert((m as int) < 0x2000_0000) by (nonlinear_arith)
                requires
                    (m as int) * (m as int) <= maxd as int,
                    maxd as int <= 0x300_0000_0000_0000,
                    m as int >= 0,
            ;
            lemma_mul_bound(m as int, m as int, 0x2000_0000, 0x2000_0000);
        }
        let radius: i64 = if m * m == maxd as u128 {
            m as i64
        } else {
            (m as i64) + 1
        };
        proof {
            assert(radius as int * radius as int >= maxd as int) by (nonlinear_arith)
                requires
                    radius as int == m as int + 1 || (radius as int == m as int && m as int
                        * m as int == maxd as int),
                    (maxd as int) < (m as int + 1) * (m as int + 1),
                    m >= 0,
            ;
            assert(m as int == sqrt_floor(max_vertex_dist_sq(planes@, origin@)));
        }
        // the emissive flag
        let mut is_ec = false;
        let mut i: usize = 0;
        let black = Color::zeros();
        while i < materials.len()
            invariant
                i <= materials@.len(),
                black@ == (C3 { r: 0, g: 0, b: 0 }),
                is_ec == exists|j: int|
                    0 <= j < i as int && (#[trigger] materials@[j]).emissive(),
            decreases materials@.len() - i as int,
        {
            if !(materials[i].emission == black) {
                is_ec = true;
            }
            i = i + 1;
        }
        Some(Object { planes, origin, radius, materials, textures, is_ec })
    }
}

impl Object {
    /// The nearest triangle hit of `ray` on this object, after the
    /// bounding-sphere test: `Some` exactly when the discriminant admits
    /// the ray and some triangle hits; then the hit triple and the index
    /// of the earliest nearest triangle.
    fn intersection(&self, ray: &Ray) -> (r: Option<(Vector3, usize)>)
        requires
            self.wf(),
            ray.wf(),
        ensures
            r.is_some() <==> (cull_disc(ray.origin@, ray.direction@, self.origin@,
                self.radius as int) >= 0 && self.hit_by(ray.origin@, ray.direction@)),
            match r {
                Some((v, j)) => {
                    &&& 0 <= j < self.planes@.len()
                    &&& tri_hits(
                        self.planes@[j as int].v1@,
                        self.planes@[j as int].v2@,
                        self.planes@[j as int].v3@,
                        ray.origin@,
                        ray.direction@,
                    )
                    &&& v@ == tri_hit_vec(
                        self.planes@[j as int].v1@,
                        self.planes@[j as int].v2@,
                        self.planes@[j as int].v3@,
                        ray.origin@,
                        ray.direction@,
                    )
                    &&& 65 <= v@.x < MAX_RANGE_RAW as int
                    &&& 0 <= v@.y <= SCALE as int
                    &&& 0 <= v@.z <= SCALE as int
                    &&& forall|k: int|
                        0 <= k < self.planes@.len() && tri_hits(
                            (#[trigger] self.planes@[k]).v1@,
                            self.planes@[k].v2@,
                            self.planes@[k].v3@,
                            ray.origin@,
                            ray.direction@,
                        ) ==> self.hit_t_of(k, ray.origin@, ray.direction@) >= v@.x
                    &&& forall|k: int|
                        0 <= k < j && tri_hits(
                            (#[trigger] self.planes@[k]).v1@,
                            self.planes@[k].v2@,
                            self.planes@[k].v3@,
                            ray.origin@,
                            ray.direction@,
                        ) ==> self.hit_t_of(k, ray.origin@, ray.direction@) > v@.x
                },
                None => true,
            },
    {
        let oc = ray.origin.sub(&self.origin);
        proof {
            lemma_mul_bound(ray.direction@.x, oc@.x, 65536, 0x8000_0000);
            lemma_mul_bound(ray.direction@.y, oc@.y, 65536, 0x8000_0000);
            lemma_mul_bound(ray.direction@.z, oc@.z, 65536, 0x8000_0000);
            lemma_mul_bound(ray.direction@.x, ray.direction@.x, 65536, 65536);
            lemma_mul_bound(ray.direction@.y, ray.direction@.y, 65536, 65536);
            lemma_mul_bound(ray.direction@.z, ray.direction@.z, 65536, 65536);
            lemma_mul_bound(oc@.x, oc@.x, 0x8000_0000, 0x8000_0000);
            lemma_mul_bound(oc@.y, oc@.y, 0x8000_0000, 0x8000_0000);
            lemma_mul_bound(oc@.z, oc@.z, 0x8000_0000, 0x8000_0000);
            lemma_mul_bound(self.radius as int, self.radius as int, 0x2000_0000, 0x2000_0000);
        }
        let dxv = ray.direction.x as i128;
        let dyv = ray.direction.y as i128;
        let dzv = ray.direction.z as i128;
        let bq: i128 = dxv * (oc.x as i128) + dyv * (oc.y as i128) + dzv * (oc.z as i128);
        let aq: i128 = dxv * dxv + dyv * dyv + dzv * dzv;
        let ocq: i128 = (oc.x as i128) * (oc.x as i128) + (oc.y as i128) * (oc.y as i128) + (
        oc.z as i128) * (oc.z as i128);
        let cq: i128 = ocq - (self.radius as i128) * (self.radius as i128);
        proof {
            lemma_mul_bound(bq as int, bq as int, 0x8_0000_0000_0000, 0x8_0000_0000_0000);
            lemma_mul_bound(aq as int, cq as int, 0x40_0000_0000, 0x1_0000_0000_0000_0000);
            assert(bq as int == ray.direction@.rdot(oc@));
            assert(aq as int == ray.direction@.rdot(ray.direction@));
            assert(ocq as int == oc@.rdot(oc@));
        }
        let disc: i128 = bq * bq - aq * cq;
        proof {
            assert(disc as int == cull_disc(ray.origin@, ray.direction@, self.origin@,
                self.radius as int));
        }
        if disc < 0 {
            return None;
        }
        let mut best: Option<(Vector3, usize)> = None;
        let mut i: usize = 0;
        while i < self.planes.len()
            invariant
                i <= self.planes@.len(),
                self.wf(),
                ray.wf(),
                match best {
                    None => forall|k: int|
                        0 <= k < i as int ==> !tri_hits(
                            (#[trigger] self.planes@[k]).v1@,
                            self.planes@[k].v2@,
                            self.planes@[k].v3@,
                            ray.origin@,
                            ray.direction@,
                        ),
                    Some((v, j)) => {
                        &&& 0 <= j < i as int
                        &&& tri_hits(
                            self.planes@[j as int].v1@,
                            self.planes@[j as int].v2@,
                            self.planes@[j as int].v3@,
                            ray.origin@,
                            ray.direction@,
                        )
                        &&& v@ == tri_hit_vec(
                            self.planes@[j as int].v1@,
                            self.planes@[j as int].v2@,
                            self.planes@[j as int].v3@,
                            ray.origin@,
                            ray.direction@,
                        )
                        &&& 65 <= v@.x < MAX_RANGE_RAW as int
                        &&& 0 <= v@.y <= SCALE as int
                        &&& 0 <= v@.z <= SCALE as int
                        &&& forall|k: int|
                            0 <= k < i as int && tri_hits(
                                (#[trigger] self.planes@[k]).v1@,
                                self.planes@[k].v2@,
                                self.planes@[k].v3@,
                                ray.origin@,
                                ray.direction@,
                            ) ==> self.hit_t_of(k, ray.origin@, ray.direction@) >= v@.x
                        &&& forall|k: int|
                            0 <= k < j && tri_hits(
                                (#[trigger] self.planes@[k]).v1@,
                                self.planes@[k].v2@,
                                self.planes@[k].v3@,
                                ray.origin@,
                                ray.direction@,
                            ) ==> self.hit_t_of(k, ray.origin@, ray.direction@) > v@.x
                    },
                },
            decreases self.planes@.len() - i as int,
        {
            match self.planes[i].intersection(ray) {
                Some(v) => {
                    match best {
                        Some((bv, _)) => {
                            if v.x < bv.x {
                                best = Some((v, i));
                            }
                        },
                        None => {
                            best = Some((v, i));
                        },
                    }
                },
                None => {},
            }
            i = i + 1;
        }
        best
    }

    /// The nearest hit of `ray` across all objects: `Some` exactly when
    /// some triangle of some object is hit (culling loses nothing, by
    /// `lemma_cull_no_false_negative`), and then the hit triple, the index
    /// of the triangle within its object, and the index of the object,
    /// choosing the earliest nearest object and its earliest nearest
    /// triangle.
    pub fn crossjudge(objs: &Vec<Object>, ray: &Ray) -> (r: Option<(Vector3, usize, usize)>)
        requires
            forall|i: int| 0 <= i < objs@.len() ==> (#[trigger] objs@[i]).wf(),
            ray.wf(),
        ensures
            r.is_some() <==> exists|i: int|
                0 <= i < objs@.len() && (#[trigger] objs@[i]).hit_by(ray.origin@, ray.direction@),
            match r {
                Some((v, pi, oi)) => {
                    &&& 0 <= oi < objs@.len()
                    &&& 0 <= pi < objs@[oi as int].planes@.len()
                    &&& tri_hits(
                        objs@[oi as int].planes@[pi as int].v1@,
                        objs@[oi as int].planes@[pi as int].v2@,
                        objs@[oi as int].planes@[pi as int].v3@,
                        ray.origin@,
                        ray.direction@,
                    )
                    &&& v@ == tri_hit_vec(
                        objs@[oi as int].planes@[pi as int].v1@,
                        objs@[oi as int].planes@[pi as int].v2@,
                        objs@[oi as int].planes@[pi as int].v3@,
                        ray.origin@,
                        ray.direction@,
                    )
                    &&& 65 <= v@.x < MAX_RANGE_RAW as int
                    &&& 0 <= v@.y <= SCALE as int
                    &&& 0 <= v@.z <= SCALE as int
                    &&& forall|i: int, k: int|
                        0 <= i < objs@.len() && 0 <= k < (#[trigger] objs@[i]).planes@.len()
                            && tri_hits(
                            (#[trigger] objs@[i].planes@[k]).v1@,
                            objs@[i].planes@[k].v2@,
                            objs@[i].planes@[k].v3@,
                            ray.origin@,
                            ray.direction@,
                        ) ==> objs@[i].hit_t_of(k, ray.origin@, ray.direction@) >= v@.x
                    &&& forall|i: int, k: int|
                        0 <= i < oi as int && 0 <= k < (#[trigger] objs@[i]).planes@.len()
                            && tri_hits(
                            (#[trigger] objs@[i].planes@[k]).v1@,
                            objs@[i].planes@[k].v2@,
                            objs@[i].planes@[k].v3@,
                            ray.origin@,
                            ray.direction@,
                        ) ==> objs@[i].hit_t_of(k, ray.origin@, ray.direction@) > v@.x
                },
                None => true,
            },
    {
        let mut best: Option<(Vector3, usize, usize)> = None;
        let mut i: usize = 0;
        while i < objs.len()
            invariant
                i <= objs@.len(),
                forall|k: int| 0 <= k < objs@.len() ==> (#[trigger] objs@[k]).wf(),
                ray.wf(),
                match best {
                    None => forall|k: int|
                        0 <= k < i as int ==> !(#[trigger] objs@[k]).hit_by(
                            ray.origin@,
                            ray.direction@,
                        ),
                    Some((v, pi, oi)) => {
                        &&& 0 <= oi < i as int
                        &&& 0 <= pi < objs@[oi as int].planes@.len()
                        &&& tri_hits(
                            objs@[oi as int].planes@[pi as int].v1@,
                            objs@[oi as int].planes@[pi as int].v2@,
                            objs@[oi as int].planes@[pi as int].v3@,
                            ray.origin@,
                            ray.direction@,
                        )
                        &&& v@ == tri_hit_vec(
                            objs@[oi as int].planes@[pi as int].v1@,
                            objs@[oi as int].planes@[pi as int].v2@,
                            objs@[oi as int].planes@[pi as int].v3@,
                            ray.origin@,
                            ray.direction@,
                        )
                        &&& 65 <= v@.x < MAX_RANGE_RAW as int
                        &&& 0 <= v@.y <= SCALE as int
                        &&& 0 <= v@.z <= SCALE as int
                        &&& forall|b: int, k: int|
                            0 <= b < i as int && 0 <= k < (#[trigger] objs@[b]).planes@.len()
                                && tri_hits(
                                (#[trigger] objs@[b].planes@[k]).v1@,
                                objs@[b].planes@[k].v2@,
                                objs@[b].planes@[k].v3@,
                                ray.origin@,
                                ray.direction@,
                            ) ==> objs@[b].hit_t_of(k, ray.origin@, ray.direction@) >= v@.x
                        &&& forall|b: int, k: int|
                            0 <= b < oi as int && 0 <= k < (#[trigger] objs@[b]).planes@.len()
                                && tri_hits(
                                (#[trigger] objs@[b].planes@[k]).v1@,
                                objs@[b].planes@[k].v2@,
                                objs@[b].planes@[k].v3@,
                                ray.origin@,
                                ray.direction@,
                            ) ==> objs@[b].hit_t_of(k, ray.origin@, ray.direction@) > v@.x
                    },
                },
            decreases objs@.len() - i as int,
        {
            let got = objs[i].intersection(ray);
            proof {
                // a culled object has no triangle hits at all
                if cull_disc(ray.origin@, ray.direction@, objs@[i as int].origin@,
                    objs@[i as int].radius as int) < 0 {
                    assert forall|k: int|
                        0 <= k < objs@[i as int].planes@.len() implies !tri_hits(
                        (#[trigger] objs@[i as int].planes@[k]).v1@,
                        objs@[i as int].planes@[k].v2@,
                        objs@[i as int].planes@[k].v3@,
                        ray.origin@,
                        ray.direction@,
                    ) by {
                        if tri_hits(
                            objs@[i as int].planes@[k].v1@,
                            objs@[i as int].planes@[k].v2@,
                            objs@[i as int].planes@[k].v3@,
                            ray.origin@,
                            ray.direction@,
                        ) {
                            crate::culling::lemma_cull_no_false_negative(
                                objs@[i as int].planes@[k].v1@,
                                objs@[i as int].planes@[k].v2@,
                                objs@[i as int].planes@[k].v3@,
                                ray.origin@,
                                ray.direction@,
                                objs@[i as int].origin@,
                                objs@[i as int].radius as int,
                            );
                        }
                    }
                }
            }
            match got {
                Some((v, pn)) => {
                    match best {
                        Some((bv, _, _)) => {
                            if v.x < bv.x {
                                best = Some((v, pn, i));
                            }
                        },
                        None => {
                            best = Some((v, pn, i));
                        },
                    }
                },
                None => {},
            }
            i = i + 1;
        }
        best
    }
}

/// The exact squared distance from a vertex to the object origin.
fn vertex_dist_sq(v: &Vector3, c: &Vector3) -> (r: i128)
    requires
        v@.bounded(MAX_COORD as int),
        c@.bounded(MAX_COORD as int),
    ensures
        r as int == dist_sq(v@, c@),
        0 <= r <= 0x300_0000_0000_0000,
{
    let dv = v.sub(c);
    proof {
        lemma_mul_bound(dv@.x, dv@.x, 0x1000_0000, 0x1000_0000);
        lemma_mul_bound(dv@.y, dv@.y, 0x1000_0000, 0x1000_0000);
        lemma_mul_bound(dv@.z, dv@.z, 0x1000_0000, 0x1000_0000);
        assert(dv@.x * dv@.x >= 0) by (nonlinear_arith);
        assert(dv@.y * dv@.y >= 0) by (nonlinear_arith);
        assert(dv@.z * dv@.z >= 0) by (nonlinear_arith);
    }
    (dv.x as i128) * (dv.x as i128) + (dv.y as i128) * (dv.y as i128) + (dv.z as i128) * (
    dv.z as i128)
}

/// Whether a triangle satisfies its well-formedness conditions.
fn plane_ok(p: &Plane) -> (b: bool)
    ensures
        b == p.wf(),
{
    let vs = -MAX_COORD <= p.v1.x && p.v1.x <= MAX_COORD && -MAX_COORD <= p.v1.y && p.v1.y
        <= MAX_COORD && -MAX_COORD <= p.v1.z && p.v1.z <= MAX_COORD && -MAX_COORD <= p.v2.x
        && p.v2.x <= MAX_COORD && -MAX_COORD <= p.v2.y && p.v2.y <= MAX_COORD && -MAX_COORD
        <= p.v2.z && p.v2.z <= MAX_COORD && -MAX_COORD <= p.v3.x && p.v3.x <= MAX_COORD
        && -MAX_COORD <= p.v3.y && p.v3.y <= MAX_COORD && -MAX_COORD <= p.v3.z && p.v3.z
        <= MAX_COORD;
    if !vs {
        return false;
    }
    match &p.vn {
        Some(n) => {
            let nb = -DB <= n.v1.x && n.v1.x <= DB && -DB <= n.v1.y && n.v1.y <= DB && -DB
                <= n.v1.z && n.v1.z <= DB && -DB <= n.v2.x && n.v2.x <= DB && -DB <= n.v2.y
                && n.v2.y <= DB && -DB <= n.v2.z && n.v2.z <= DB && -DB <= n.v3.x && n.v3.x <= DB
                && -DB <= n.v3.y && n.v3.y <= DB && -DB <= n.v3.z && n.v3.z <= DB;
            if !nb {
                return false;
            }
            if n.v1.x == 0 && n.v1.y == 0 && n.v1.z == 0 {
                return false;
            }
        },
        None => {},
    }
    match &p.vt {
        Some(t) => {
            let tb = -0x10_0000_0000 <= t.v1.x && t.v1.x <= 0x10_0000_0000 && -0x10_0000_0000
                <= t.v1.y && t.v1.y <= 0x10_0000_0000 && -0x10_0000_0000 <= t.v2.x && t.v2.x
                <= 0x10_0000_0000 && -0x10_0000_0000 <= t.v2.y && t.v2.y <= 0x10_0000_0000
                && -0x10_0000_0000 <= t.v3.x && t.v3.x <= 0x10_0000_0000 && -0x10_0000_0000
                <= t.v3.y && t.v3.y <= 0x10_0000_0000;
            if !tb {
                return false;
            }
        },
        None => {},
    }
    true
}

/// Whether a material satisfies its well-formedness conditions.
fn material_ok(m: &Material, ntex: usize) -> (b: bool)
    ensures
        b == m.wf(ntex as int),
{
    if !(0 <= m.diffuse.r && 0 <= m.diffuse.g && 0 <= m.diffuse.b) {
        return false;
    }
    match m.diffuse_texture {
        Some(t) => if t >= ntex {
            return false;
        },
        None => {},
    }
    match m.roughness {
        Some(v) => if !(0 <= v && v <= SCALE) {
            return false;
        },
        None => {},
    }
    match m.roughness_texture {
        Some(t) => if t >= ntex {
            return false;
        },
        None => {},
    }
    match m.metallic {
        Some(v) => if !(0 <= v && v <= SCALE) {
            return false;
        },
        None => {},
    }
    match m.metallic_texture {
        Some(t) => if t >= ntex {
            return false;
        },
        None => {},
    }
    if !(0 <= m.transmittance && m.transmittance <= SCALE) {
        return false;
    }
    if !(0 <= m.optical_density && m.optical_density <= 16 * SCALE) {
        return false;
    }
    if !(0 <= m.emission.r && m.emission.r <= crate::color::CMAX && 0 <= m.emission.g
        && m.emission.g <= crate::color::CMAX && 0 <= m.emission.b && m.emission.b
        <= crate::color::CMAX) {
        return false;
    }
    true
}

/// The exact cross product of two small vectors, in wide integers.
fn cross_wide(a: &Vector3, b: &Vector3) -> (r: (i128, i128, i128))
    requires
        a@.bounded(0x8000_0000),
        b@.bounded(0x8000_0000),
    ensures
        r.0 as int == a@.rcross(b@).x,
        r.1 as int == a@.rcross(b@).y,
        r.2 as int == a@.rcross(b@).z,
        -0x8000_0000_0000_0000 <= r.0 as int <= 0x8000_0000_0000_0000,
        -0x8000_0000_0000_0000 <= r.1 as int <= 0x8000_0000_0000_0000,
        -0x8000_0000_0000_0000 <= r.2 as int <= 0x8000_0000_0000_0000,
{
    proof {
        lemma_mul_bound(a@.x, b@.y, 0x8000_0000, 0x8000_0000);
        lemma_mul_bound(a@.x, b@.z, 0x8000_0000, 0x8000_0000);
        lemma_mul_bound(a@.y, b@.x, 0x8000_0000, 0x8000_0000);
        lemma_mul_bound(a@.y, b@.z, 0x8000_0000, 0x8000_0000);
        lemma_mul_bound(a@.z, b@.x, 0x8000_0000, 0x8000_0000);
        lemma_mul_bound(a@.z, b@.y, 0x8000_0000, 0x8000_0000);
    }
    (
        (a.y as i128) * (b.z as i128) - (a.z as i128) * (b.y as i128),
        (a.z as i128) * (b.x as i128) - (a.x as i128) * (b.z as i128),
        (a.x as i128) * (b.y as i128) - (a.y as i128) * (b.x as i128),
    )
}

/// The exact dot product of a wide vector with a small one.
fn dot_wide(ax: i128, ay: i128, az: i128, b: &Vector3) -> (r: i128)
    requires
        -0x8000_0000_0000_0000 <= ax as int <= 0x8000_0000_0000_0000,
        -0x8000_0000_0000_0000 <= ay as int <= 0x8000_0000_0000_0000,
        -0x8000_0000_0000_0000 <= az as int <= 0x8000_0000_0000_0000,
        b@.bounded(0x8000_0000),
    ensures
        r as int == (V3 { x: ax as int, y: ay as int, z: az as int }).rdot(b@),
        -0x1_0000_0000_0000_0000_0000_0000 <= r as int <= 0x1_0000_0000_0000_0000_0000_0000,
{
    proof {
        lemma_mul_bound(ax as int, b@.x, 0x8000_0000_0000_0000, 0x8000_0000);
        lemma_mul_bound(ay as int, b@.y, 0x8000_0000_0000_0000, 0x8000_0000);
        lemma_mul_bound(az as int, b@.z, 0x8000_0000_0000_0000, 0x8000_0000);
    }
    ax * (b.x as i128) + ay * (b.y as i128) + az * (b.z as i128)
}

} // verus!
