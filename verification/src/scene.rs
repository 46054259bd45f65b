//! The scene, the camera, and the recursive light-transport integrator.
//!
//! The integrator composes, per hit, a diffuse, a transmissive and a
//! metallic contribution plus the material's emission; every stochastic
//! sub-result is divided by the distance its path terminated at. The
//! composition arithmetic is pinned exactly; of the stochastic branch
//! colors the contract states what holds of every random outcome.

use vstd::prelude::*;
use crate::fixed::{SCALE, MAX_COORD, dtr, div_trunc, lemma_dtr_div_bound, lemma_mul_bound};
use crate::vector::{V3, Vector3, VB, DB};
use crate::color::{Color, C3, CMAX, chan_clamp, sat_clamp};
use crate::object::{Object, Plane, MAX_RANGE_RAW, tri_hits};
use crate::ray::{Ray, MAX_ORIG};
use crate::trig::{cos_deg_spec, sin_deg_spec, tan_deg};

verus! {

/// The pinhole camera: position, orthonormal-ish basis, field of view in
/// raw degrees, output size in pixels.
#[derive(Debug)]
pub struct Camera {
    pub position: Vector3,
    pub top: Vector3,
    pub forward: Vector3,
    pub fov: i64,
    pub right: Vector3,
    pub image_size: (u32, u32),
}

impl Camera {
    /// In-range position, direction-sized basis vectors, a field of view
    /// whose half-angle the fixed-point tangent accepts, and a modest
    /// output resolution.
    pub open spec fn wf(self) -> bool {
        &&& self.position@.bounded(MAX_COORD as int)
        &&& self.top@.bounded(DB as int)
        &&& self.forward@.bounded(DB as int)
        &&& !(self.forward@ == (V3 { x: 0, y: 0, z: 0 }))
        &&& self.right@.bounded(DB as int)
        &&& 2 * SCALE <= self.fov <= 178 * SCALE
        &&& 1 <= self.image_size.0 <= 16384
        &&& 1 <= self.image_size.1 <= 16384
    }

    pub fn new(
        position: Vector3,
        top: Vector3,
        forward: Vector3,
        right: Vector3,
        fov: i64,
        image_size: (u32, u32),
    ) -> (r: Camera)
        ensures
            r == (Camera { position, top, forward, fov, right, image_size }),
    {
        Camera { position, top, forward, fov, right, image_size }
    }
}

/// The scene: a camera and the objects to render.
#[derive(Debug)]
pub struct Scene {
    pub camera: Camera,
    pub objs: Vec<Object>,
}

/// One pixel coordinate of a texture sample: the raw coordinate `v` is
/// wrapped into the unit interval when negative, scaled by the dimension
/// `n`, and truncated.
pub open spec fn wrap_px(v: int, n: int) -> int {
    if v >= 0 {
        dtr(v * n, SCALE as int)
    } else {
        dtr((SCALE as int + v) * n, SCALE as int)
    }
}

/// A pixel coordinate clamped into `[0, limit)`.
pub open spec fn clamp_px(w: int, limit: int) -> int {
    if w < 0 {
        0
    } else if w >= limit {
        limit - 1
    } else {
        w
    }
}

/// The texture sample for texture `tex` of `obj` at a hit with
/// barycentric pair `(hit.y, hit.z)` and texture coordinates `vt`: the
/// interpolated coordinates, wrapped, scaled per axis, clamped, and read
/// as a display-range color.
pub open spec fn tex_sample(obj: Object, vt: crate::object::Texcoord, tex: int, hit: V3) -> C3 {
    let uv = vt.v2@.vsub(vt.v1@).fxs(hit.y).vadd(vt.v3@.vsub(vt.v1@).fxs(hit.z));
    let t = obj.textures@[tex];
    let xpx = clamp_px(wrap_px(uv.x, t.width as int), t.width as int);
    let ypx = clamp_px(wrap_px(uv.y, t.height as int), t.height as int);
    let px = t.pixels@[ypx * t.width + xpx];
    C3 { r: px[0] * SCALE as int, g: px[1] * SCALE as int, b: px[2] * SCALE as int }
}

/// The diffuse reflectance resolved at a hit: the texture sample if a
/// texture is referenced and the triangle has texture coordinates, one
/// whole unit if referenced without coordinates, else the constant color.
pub open spec fn resolved_diffuse(obj: Object, plane: Plane, m: crate::object::Material, hit: V3) -> C3 {
    match m.diffuse_texture {
        Some(t) => match plane.vt {
            Some(vt) => tex_sample(obj, vt, t as int, hit),
            None => C3 { r: SCALE as int, g: SCALE as int, b: SCALE as int },
        },
        None => m.diffuse@,
    }
}

/// A scalar material channel resolved at a hit: the referenced texture's
/// red channel as a unit-range value, unless an explicit scalar is
/// present, which wins last; absent both, zero.
pub open spec fn resolved_scalar(
    obj: Object,
    plane: Plane,
    texref: Option<usize>,
    explicit: Option<i64>,
    hit: V3,
) -> int {
    match explicit {
        Some(v) => v as int,
        None => match texref {
            Some(t) => match plane.vt {
                Some(vt) => dtr(tex_sample(obj, vt, t as int, hit).r, 255),
                None => 0,
            },
            None => 0,
        },
    }
}

/// Whether direct-light sampling owes a ray for `obj` at the shading
/// point `origin` with surface normal `norm`: the object is flagged
/// emissive, its origin is distinct from the shading point, and it lies
/// in the normal's hemisphere.
pub open spec fn nee_wanted(obj: Object, origin: Vector3, norm: Vector3) -> bool {
    &&& obj.is_ec
    &&& !(obj.origin@.vsub(origin@) == (V3 { x: 0, y: 0, z: 0 }))
    &&& norm@.fdot(obj.origin@.vsub(origin@)) > 0
}

/// The direct-light ray directions owed for `objs`, in scene order: for
/// each owed object, the normalized direction toward its origin.
pub open spec fn nee_dirs(objs: Seq<Object>, origin: Vector3, norm: Vector3) -> Seq<V3>
    decreases objs.len(),
{
    if objs.len() == 0 {
        Seq::<V3>::empty()
    } else {
        let prefix = nee_dirs(objs.drop_last(), origin, norm);
        if nee_wanted(objs.last(), origin, norm) {
            prefix.push(objs.last().origin@.vsub(origin@).vnormalize())
        } else {
            prefix
        }
    }
}

/// The number of emissive objects among `objs`.
pub open spec fn ec_count(objs: Seq<Object>) -> int
    decreases objs.len(),
{
    if objs.len() == 0 {
        0
    } else {
        ec_count(objs.drop_last()) + if objs.last().is_ec {
            1int
        } else {
            0int
        }
    }
}

/// The un-normalized primary direction for the device coordinates
/// `(w, h)`: `forward / tan(fov/2) + right * w - top * h`, in the exact
/// fixed-point arithmetic the camera uses.
pub open spec fn primary_dir(cam: Camera, w: int, h: int) -> V3 {
    let t = dtr(
        sin_deg_spec(dtr(cam.fov as int, 2)) * SCALE as int,
        cos_deg_spec(dtr(cam.fov as int, 2)),
    );
    (V3 {
        x: dtr(cam.forward@.x * SCALE as int, t),
        y: dtr(cam.forward@.y * SCALE as int, t),
        z: dtr(cam.forward@.z * SCALE as int, t),
    }).vadd(cam.right@.fxs(w)).vsub(cam.top@.fxs(h))
}

/// The direction actually traced for `(w, h)`: the primary direction
/// normalized, with `forward` standing in when it degenerates to zero.
pub open spec fn traced_dir(cam: Camera, w: int, h: int) -> V3 {
    let dir = primary_dir(cam, w, h);
    if dir == (V3 { x: 0, y: 0, z: 0 }) {
        cam.forward@.vnormalize()
    } else {
        dir.vnormalize()
    }
}

/// The horizontal device coordinate of pixel column `px`: offset from the
/// image center and normalized by the half-width.
pub open spec fn device_w(cam: Camera, px: int) -> int {
    dtr((2 * px - cam.image_size.0 as int) * SCALE as int, cam.image_size.0 as int)
}

/// The vertical device coordinate of pixel row `py`: offset from the
/// image center and, like the horizontal one, normalized by the
/// half-width.
pub open spec fn device_h(cam: Camera, py: int) -> int {
    dtr((2 * py - cam.image_size.1 as int) * SCALE as int, cam.image_size.0 as int)
}

/// At most one direct-light ray is owed per emissive object.
pub proof fn lemma_nee_dirs_len(objs: Seq<Object>, origin: Vector3, norm: Vector3)
    ensures
        0 <= ec_count(objs) <= objs.len(),
        nee_dirs(objs, origin, norm).len() <= ec_count(objs),
    decreases objs.len(),
{
    if objs.len() > 0 {
        lemma_nee_dirs_len(objs.drop_last(), origin, norm);
    }
}

impl Scene {
    /// A well-formed camera and well-formed objects.
    pub open spec fn wf(self) -> bool {
        &&& self.camera.wf()
        &&& forall|i: int| 0 <= i < self.objs@.len() ==> (#[trigger] self.objs@[i]).wf()
    }

    /// Whether any triangle of any object is hit by the ray `(o, d)`.
    pub open spec fn scene_hit(self, o: V3, d: V3) -> bool {
        exists|i: int| 0 <= i < self.objs@.len() && (#[trigger] self.objs@[i]).hit_by(o, d)
    }

    /// Triangle `pi` of object `oi` is hit and no triangle of any object
    /// is hit nearer.
    pub open spec fn is_nearest_hit(self, o: V3, d: V3, oi: int, pi: int) -> bool {
        &&& 0 <= oi < self.objs@.len()
        &&& 0 <= pi < self.objs@[oi].planes@.len()
        &&& tri_hits(
            self.objs@[oi].planes@[pi].v1@,
            self.objs@[oi].planes@[pi].v2@,
            self.objs@[oi].planes@[pi].v3@,
            o,
            d,
        )
        &&& forall|i: int, k: int|
            0 <= i < self.objs@.len() && 0 <= k < (#[trigger] self.objs@[i]).planes@.len()
                && tri_hits(
                (#[trigger] self.objs@[i].planes@[k]).v1@,
                self.objs@[i].planes@[k].v2@,
                self.objs@[i].planes@[k].v3@,
                o,
                d,
            ) ==> self.objs@[i].hit_t_of(k, o, d) >= self.objs@[oi].hit_t_of(pi, o, d)
    }

    pub fn new(camera: Camera, objs: Vec<Object>) -> (r: Scene)
        ensures
            r.camera == camera,
            r.objs@ == objs@,
    {
        Scene { camera, objs }
    }

    /// The texture sample for a hit: the texture coordinates interpolated
    /// by the barycentric pair `(vec.y, vec.z)`; each axis is wrapped,
    /// scaled by its own image dimension, and clamped to that dimension's
    /// last valid index, so the read never leaves the image. `None`
    /// exactly when the triangle carries no texture coordinates.
    pub fn tex_calc(&self, vec: &Vector3, plane: &Plane, obj: &Object, tex: usize) -> (r: Option<
        Color,
    >)
        requires
            plane.wf(),
            obj.wf(),
            tex < obj.textures@.len(),
            0 <= vec.y <= SCALE,
            0 <= vec.z <= SCALE,
        ensures
            r.is_some() <==> plane.vt.is_some(),
            match (r, plane.vt) {
                (Some(c), Some(vt)) => {
                    &&& c@ == tex_sample(*obj, vt, tex as int, vec@)
                    &&& c@.displayable()
                },
                (None, None) => true,
                _ => false,
            },
    {
        let vt = match &plane.vt {
            Some(vt) => vt,
            None => { return None; },
        };
        let v1 = vt.v2.sub(&vt.v1);
        let v2 = vt.v3.sub(&vt.v1);
        proof {
            lemma_mul_bound(v1@.x, vec.y as int, 0x20_0000_0000, 65536);
            lemma_mul_bound(v1@.y, vec.y as int, 0x20_0000_0000, 65536);
            lemma_mul_bound(v2@.x, vec.z as int, 0x20_0000_0000, 65536);
            lemma_mul_bound(v2@.y, vec.z as int, 0x20_0000_0000, 65536);
            lemma_dtr_div_bound(v1@.x * vec.y as int, SCALE as int, 0x20_0000_0000);
            lemma_dtr_div_bound(v1@.y * vec.y as int, SCALE as int, 0x20_0000_0000);
            lemma_dtr_div_bound(v2@.x * vec.z as int, SCALE as int, 0x20_0000_0000);
            lemma_dtr_div_bound(v2@.y * vec.z as int, SCALE as int, 0x20_0000_0000);
        }
        let v = v1.muls(vec.y).add(&v2.muls(vec.z));
        let image = &obj.textures[tex];
        let x = sample_px(v.x, image.width, image.width);
        let y = sample_px(v.y, image.height, image.height);
        let px = image.pixel(x, y);
        Some(Color::from_pixel(&px))
    }

    /// Everything `calc` promises of one radiance evaluation of the ray
    /// `(o, d)` under the given budgets: the distance is in range, light
    /// is never negative, an exhausted budget or a miss yields black at
    /// the sentinel distance, and a hit satisfies `radiance_hit_post` at
    /// some nearest triangle.
    pub open spec fn radiance_post(
        self,
        o: V3,
        d: V3,
        col: C3,
        t: int,
        bounce: int,
        diffuse_budget: int,
    ) -> bool {
        &&& 65 <= t <= MAX_RANGE_RAW as int
        &&& col.nonneg()
        &&& (bounce == 0 ==> col == (C3 { r: 0, g: 0, b: 0 }) && t == SCALE as int)
        &&& (bounce > 0 && !self.scene_hit(o, d) ==> col == (C3 { r: 0, g: 0, b: 0 }) && t
            == SCALE as int)
        &&& (bounce > 0 && self.scene_hit(o, d) ==> exists|a: int, b: int|
            #[trigger] self.is_nearest_hit(o, d, a, b) && self.radiance_hit_post(
                o,
                d,
                a,
                b,
                col,
                t,
                diffuse_budget,
            ))
    }

    /// What `calc` guarantees at a hit through triangle `pi` of object
    /// `oi`: a triangle without a material contributes black at the
    /// sentinel distance; otherwise the returned distance is exactly the
    /// hit distance, the color is the exact composition of the resolved
    /// material parameters with some nonnegative branch radiances (each
    /// black where its branch is off), and with no transmittance and no
    /// diffuse budget it reduces to the material's emission exactly.
    pub open spec fn radiance_hit_post(
        self,
        o: V3,
        d: V3,
        oi: int,
        pi: int,
        col: C3,
        t: int,
        diffuse_budget: int,
    ) -> bool {
        let obj = self.objs@[oi];
        let plane = self.objs@[oi].planes@[pi];
        match plane.material_id {
            None => col == (C3 { r: 0, g: 0, b: 0 }) && t == SCALE,
            Some(mid) => {
                let m = obj.materials@[mid as int];
                let hit = crate::object::tri_hit_vec(plane.v1@, plane.v2@, plane.v3@, o, d);
                &&& t == self.objs@[oi].hit_t_of(pi, o, d)
                &&& exists|dc: C3, trc: C3, pmc: C3|
                    {
                        &&& dc.nonneg()
                        &&& trc.nonneg()
                        &&& pmc.nonneg()
                        &&& (m.transmittance == 0 ==> trc == (C3 { r: 0, g: 0, b: 0 }))
                        &&& (diffuse_budget == 0 ==> dc == (C3 { r: 0, g: 0, b: 0 }) && pmc == (
                        C3 { r: 0, g: 0, b: 0 }))
                        &&& col == #[trigger] compose_spec(
                            resolved_diffuse(obj, plane, m, hit),
                            dc,
                            trc,
                            pmc,
                            resolved_scalar(obj, plane, m.metallic_texture, m.metallic, hit),
                            m.transmittance as int,
                            m.emission@,
                        )
                    }
                &&& (m.transmittance == 0 && diffuse_budget == 0 ==> col == m.emission@)
            },
        }
    }

    /// The recursive radiance estimate for `ray`: the accumulated color
    /// and the raw distance of the path-terminating intersection. An
    /// exhausted bounce budget, a miss, and a hit without a material all
    /// return black at the sentinel distance of one unit; a material hit
    /// returns its exact hit distance, light is never negative, and the
    /// stochastic branches are composed by `compose_spec`.
    #[verifier::rlimit(50)]
    pub fn calc(&self, ray: &Ray, num_of_bounce: usize, sampling: usize, num_of_diffuse: usize)
        -> (r: (Color, i64))
        requires
            self.wf(),
            ray.wf(),
            1 <= sampling <= 1048576,
            ec_count(self.objs@) <= sampling as int,
        ensures
            self.radiance_post(
                ray.origin@,
                ray.direction@,
                r.0@,
                r.1 as int,
                num_of_bounce as int,
                num_of_diffuse as int,
            ),
        decreases num_of_bounce,
    {
        let black = Color::zeros();
        if num_of_bounce == 0 {
            return (black, SCALE);
        }
        let nb = num_of_bounce - 1;
        let (intersect, pi, oi) = match Object::crossjudge(&self.objs, ray) {
            Some(x) => x,
            None => { return (black, SCALE); },
        };
        let obj = &self.objs[oi];
        let plane = &obj.planes[pi];
        let mid = match plane.material_id {
            Some(m) => m,
            None => {
                proof {
                    assert(self.is_nearest_hit(ray.origin@, ray.direction@, oi as int, pi as int));
                }
                return (black, SCALE);
            },
        };
        let material = &obj.materials[mid];
        // diffuse reflectance: the texture sample if one is referenced,
        // else the constant color
        let mut diffuse = Color::ones();
        match material.diffuse_texture {
            Some(t) => {
                match self.tex_calc(&intersect, plane, obj, t) {
                    Some(c) => {
                        diffuse = c;
                    },
                    None => {},
                }
            },
            None => {
                diffuse = material.diffuse;
            },
        }
        // roughness and metallic: texture red channel, then the explicit
        // scalar, which wins last
        let mut pr: i64 = 0;
        match material.roughness_texture {
            Some(t) => {
                match self.tex_calc(&intersect, plane, obj, t) {
                    Some(c) => {
                        pr = chan_unit(c.r);
                    },
                    None => {},
                }
            },
            None => {},
        }
        match material.roughness {
            Some(v) => {
                pr = v;
            },
            None => {},
        }
        let mut pm: i64 = 0;
        match material.metallic_texture {
            Some(t) => {
                match self.tex_calc(&intersect, plane, obj, t) {
                    Some(c) => {
                        pm = chan_unit(c.r);
                    },
                    None => {},
                }
            },
            None => {},
        }
        match material.metallic {
            Some(v) => {
                pm = v;
            },
            None => {},
        }
        let tr = material.transmittance;
        let ni = material.optical_density;
        let ec = material.emission;
        // the hit point and the shading normal
        proof {
            lemma_mul_bound(ray.direction@.x, intersect@.x, 65536, 655360000);
            lemma_mul_bound(ray.direction@.y, intersect@.x, 65536, 655360000);
            lemma_mul_bound(ray.direction@.z, intersect@.x, 65536, 655360000);
            lemma_dtr_div_bound(ray.direction@.x * intersect@.x, SCALE as int, 655360000);
            lemma_dtr_div_bound(ray.direction@.y * intersect@.x, SCALE as int, 655360000);
            lemma_dtr_div_bound(ray.direction@.z * intersect@.x, SCALE as int, 655360000);
        }
        let new_origin = clamp_origin(&ray.direction.muls(intersect.x).add(&ray.origin));
        let norm = match &plane.vn {
            Some(vn) => vn.v1,
            None => Vector3::new(SCALE, 0, 0),
        };
        // transmissive branch
        let mut tr_color = black;
        if 0 < tr {
            let refr = ray.direction.refraction(&norm, ni);
            if !(refr.x == 0 && refr.y == 0 && refr.z == 0) {
                let tr_ray = Ray::new(new_origin, refr);
                let (c, dist) = self.calc(&tr_ray, nb, sampling, num_of_diffuse);
                tr_color = div_dist(&c, dist);
            }
        }
        let mut pm_color = black;
        let mut diffuse_color = black;
        if 0 < num_of_diffuse {
            let ndf = num_of_diffuse - 1;
            // metallic branch: a glossy bundle around the mirror direction
            if 0 < pm {
                let refl = ray.direction.reflection(&norm);
                let dir = if refl.x == 0 && refl.y == 0 && refl.z == 0 {
                    norm
                } else {
                    refl
                };
                let rays = Ray::rnd_dirgen(&new_origin, &norm, &dir, sampling, pr);
                let mut acc = black;
                let mut k: usize = 0;
                while k < rays.len()
                    invariant
                        self.wf(),
                        1 <= sampling <= 1048576,
                        ec_count(self.objs@) <= sampling as int,
                        nb < num_of_bounce,
                        acc@.nonneg(),
                        forall|q: int| 0 <= q < rays@.len() ==> (#[trigger] rays@[q]).wf(),
                    decreases rays@.len() - k as int,
                {
                    let (c, dist) = self.calc(&rays[k], nb, sampling, ndf);
                    acc = acc.add(&div_dist(&c, dist));
                    k = k + 1;
                }
                pm_color = div_count(&acc, sampling);
            }
            // direct light: one ray per visible emissive object
            let nee_rays = self.next_event_estimation(&new_origin, &norm);
            let mut nee_color = black;
            let mut k: usize = 0;
            while k < nee_rays.len()
                invariant
                    self.wf(),
                    1 <= sampling <= 1048576,
                    ec_count(self.objs@) <= sampling as int,
                    nb < num_of_bounce,
                    nee_color@.nonneg(),
                    forall|q: int| 0 <= q < nee_rays@.len() ==> (#[trigger] nee_rays@[q]).wf(),
                decreases nee_rays@.len() - k as int,
            {
                let (c, dist) = self.calc(&nee_rays[k], nb, sampling, 0);
                nee_color = nee_color.add(&div_dist(&c, dist));
                k = k + 1;
            }
            // indirect light: hemisphere samples filling the quota
            proof {
                lemma_nee_dirs_len(self.objs@, new_origin, norm);
            }
            let fill = sampling - nee_rays.len();
            let rays = Ray::rnd_dirgen(&new_origin, &norm, &norm, fill, SCALE);
            let mut acc = black;
            let mut k: usize = 0;
            while k < rays.len()
                invariant
                    self.wf(),
                    1 <= sampling <= 1048576,
                    ec_count(self.objs@) <= sampling as int,
                    nb < num_of_bounce,
                    acc@.nonneg(),
                    forall|q: int| 0 <= q < rays@.len() ==> (#[trigger] rays@[q]).wf(),
                decreases rays@.len() - k as int,
            {
                let (c, dist) = self.calc(&rays[k], nb, sampling, ndf);
                acc = acc.add(&div_dist(&c, dist));
                k = k + 1;
            }
            diffuse_color = div_count(&acc.add(&nee_color), sampling);
        }
        let out = compose_radiance(&diffuse, &diffuse_color, &tr_color, &pm_color, pm, tr, &ec);
        proof {
            if material.transmittance == 0 && num_of_diffuse == 0 {
                lemma_compose_zero(diffuse@, pm as int, ec@);
            }
            let gobj = self.objs@[oi as int];
            let gplane = self.objs@[oi as int].planes@[pi as int];
            let gm = gobj.materials@[mid as int];
            let hit = crate::object::tri_hit_vec(
                gplane.v1@,
                gplane.v2@,
                gplane.v3@,
                ray.origin@,
                ray.direction@,
            );
            assert(intersect@ == hit);
            assert(diffuse@ == resolved_diffuse(gobj, gplane, gm, hit));
            assert(pm as int == resolved_scalar(gobj, gplane, gm.metallic_texture, gm.metallic,
                hit));
            assert(gm.transmittance == 0 ==> tr_color@ == (C3 { r: 0, g: 0, b: 0 }));
            assert(num_of_diffuse == 0 ==> diffuse_color@ == (C3 { r: 0, g: 0, b: 0 })
                && pm_color@ == (C3 { r: 0, g: 0, b: 0 }));
            assert(out@ == compose_spec(
                resolved_diffuse(gobj, gplane, gm, hit),
                diffuse_color@,
                tr_color@,
                pm_color@,
                resolved_scalar(gobj, gplane, gm.metallic_texture, gm.metallic, hit),
                gm.transmittance as int,
                gm.emission@,
            ));
            assert(self.is_nearest_hit(ray.origin@, ray.direction@, oi as int, pi as int));
            assert(self.radiance_hit_post(
                ray.origin@,
                ray.direction@,
                oi as int,
                pi as int,
                out@,
                intersect@.x,
                num_of_diffuse as int,
            ));
        }
        (out, intersect.x)
    }

    /// The primary ray of the device coordinates `(w, h)` (raw fixed-point
    /// offsets from the image center): from the camera position along
    /// `forward / tan(fov/2) + right * w - top * h`, normalized. A
    /// degenerate zero direction falls back to `forward`.
    pub fn primary_ray(&self, w: i64, h: i64) -> (r: Ray)
        requires
            self.camera.wf(),
            -SCALE <= w <= SCALE,
            -0x4000_0000 <= h <= 0x4000_0000,
        ensures
            r.origin == self.camera.position,
            r.direction@ == traced_dir(self.camera, w as int, h as int),
            r.wf(),
    {
        let half = div_trunc(self.camera.fov as i128, 2) as i64;
        let t = tan_deg(half);
        proof {
            lemma_mul_bound(self.camera.forward@.x, SCALE as int, 262144, 65536);
            lemma_mul_bound(self.camera.forward@.y, SCALE as int, 262144, 65536);
            lemma_mul_bound(self.camera.forward@.z, SCALE as int, 262144, 65536);
            lemma_dtr_div_bound(self.camera.forward@.x * SCALE as int, t as int, 0x4_0000_0000);
            lemma_dtr_div_bound(self.camera.forward@.y * SCALE as int, t as int, 0x4_0000_0000);
            lemma_dtr_div_bound(self.camera.forward@.z * SCALE as int, t as int, 0x4_0000_0000);
            lemma_mul_bound(self.camera.right@.x, w as int, 262144, 65536);
            lemma_mul_bound(self.camera.right@.y, w as int, 262144, 65536);
            lemma_mul_bound(self.camera.right@.z, w as int, 262144, 65536);
            lemma_dtr_div_bound(self.camera.right@.x * w as int, SCALE as int, 262144);
            lemma_dtr_div_bound(self.camera.right@.y * w as int, SCALE as int, 262144);
            lemma_dtr_div_bound(self.camera.right@.z * w as int, SCALE as int, 262144);
            lemma_mul_bound(self.camera.top@.x, h as int, 262144, 0x4000_0000);
            lemma_mul_bound(self.camera.top@.y, h as int, 262144, 0x4000_0000);
            lemma_mul_bound(self.camera.top@.z, h as int, 262144, 0x4000_0000);
            lemma_dtr_div_bound(self.camera.top@.x * h as int, SCALE as int, 0x1_0000_0000_0000);
            lemma_dtr_div_bound(self.camera.top@.y * h as int, SCALE as int, 0x1_0000_0000_0000);
            lemma_dtr_div_bound(self.camera.top@.z * h as int, SCALE as int, 0x1_0000_0000_0000);
        }
        let focus = self.camera.forward.divs(t);
        let dir = focus.add(&self.camera.right.muls(w)).sub(&self.camera.top.muls(h));
        proof {
            assert(dir@ == primary_dir(self.camera, w as int, h as int));
        }
        if dir.x == 0 && dir.y == 0 && dir.z == 0 {
            Ray::new(self.camera.position, self.camera.forward)
        } else {
            Ray::new(self.camera.position, dir)
        }
    }

    /// The color of pixel `(px, py)`: device coordinates are both
    /// normalized by the half-width, the primary ray is traced with the
    /// given budgets, and the result is clamped to the display range.
    pub fn render_pixel(
        &self,
        px: u32,
        py: u32,
        num_of_bounce: usize,
        sampling: usize,
        num_of_diffuse: usize,
    ) -> (r: Color)
        requires
            self.wf(),
            px < self.camera.image_size.0,
            py < self.camera.image_size.1,
            1 <= sampling <= 1048576,
            ec_count(self.objs@) <= sampling as int,
        ensures
            r@.displayable(),
            num_of_bounce == 0 ==> r@ == (C3 { r: 0, g: 0, b: 0 }),
            exists|col: C3, t: int|
                #[trigger] self.radiance_post(
                    self.camera.position@,
                    traced_dir(
                        self.camera,
                        device_w(self.camera, px as int),
                        device_h(self.camera, py as int),
                    ),
                    col,
                    t,
                    num_of_bounce as int,
                    num_of_diffuse as int,
                ) && r@ == col.creform(),
    {
        let width = self.camera.image_size.0;
        let height = self.camera.image_size.1;
        proof {
            lemma_mul_bound(2 * px as int - width as int, SCALE as int, 16384, 65536);
            lemma_dtr_div_bound((2 * px as int - width as int) * SCALE as int, width as int,
                SCALE as int);
            lemma_mul_bound(2 * py as int - height as int, SCALE as int, 16384, 65536);
            lemma_dtr_div_bound((2 * py as int - height as int) * SCALE as int, width as int,
                0x4000_0000);
        }
        let w = div_trunc(
            ((2 * (px as i128)) - (width as i128)) * (SCALE as i128),
            width as i128,
        ) as i64;
        let h = div_trunc(
            ((2 * (py as i128)) - (height as i128)) * (SCALE as i128),
            width as i128,
        ) as i64;
        let ray = self.primary_ray(w, h);
        let (color, dist) = self.calc(&ray, num_of_bounce, sampling, num_of_diffuse);
        proof {
            assert(w as int == device_w(self.camera, px as int));
            assert(h as int == device_h(self.camera, py as int));
            assert(self.radiance_post(
                self.camera.position@,
                traced_dir(self.camera, w as int, h as int),
                color@,
                dist as int,
                num_of_bounce as int,
                num_of_diffuse as int,
            ));
        }
        color.reform()
    }

    /// What three adjacent output bytes promise for pixel `(px, py)`:
    /// some radiance evaluation of the pixel's primary ray produced them,
    /// each byte the display-clamped channel quantized to whole units.
    pub open spec fn pixel_post(
        self,
        px: int,
        py: int,
        b0: u8,
        b1: u8,
        b2: u8,
        bounce: int,
        diffuse_budget: int,
    ) -> bool {
        exists|col: C3, t: int|
            #[trigger] self.radiance_post(
                self.camera.position@,
                traced_dir(self.camera, device_w(self.camera, px), device_h(self.camera, py)),
                col,
                t,
                bounce,
                diffuse_budget,
            ) && b0 == dtr(chan_clamp(col.r), SCALE as int) && b1 == dtr(
                chan_clamp(col.g),
                SCALE as int,
            ) && b2 == dtr(chan_clamp(col.b), SCALE as int)
    }

    /// The whole image as packed 8-bit RGB rows, top to bottom: each
    /// pixel's three bytes are the quantized, display-clamped channels of
    /// a radiance evaluation of that pixel's primary ray; with no bounce
    /// budget the image is entirely black.
    pub fn render(&self, num_of_bounce: usize, sampling: usize, num_of_diffuse: usize) -> (r: Vec<
        u8,
    >)
        requires
            self.wf(),
            1 <= sampling <= 1048576,
            ec_count(self.objs@) <= sampling as int,
        ensures
            r@.len() == 3 * self.camera.image_size.0 * self.camera.image_size.1,
            forall|px: int, py: int|
                0 <= px < self.camera.image_size.0 && 0 <= py < self.camera.image_size.1
                    ==> #[trigger] self.pixel_post(
                    px,
                    py,
                    r@[3 * (py * self.camera.image_size.0 + px)],
                    r@[3 * (py * self.camera.image_size.0 + px) + 1],
                    r@[3 * (py * self.camera.image_size.0 + px) + 2],
                    num_of_bounce as int,
                    num_of_diffuse as int,
                ),
            num_of_bounce == 0 ==> forall|j: int| 0 <= j < r@.len() ==> r@[j] == 0,
    {
        let width = self.camera.image_size.0;
        let height = self.camera.image_size.1;
        let mut buf: Vec<u8> = Vec::new();
        let mut py: u32 = 0;
        while py < height
            invariant
                self.wf(),
                1 <= sampling <= 1048576,
                ec_count(self.objs@) <= sampling as int,
                width == self.camera.image_size.0,
                height == self.camera.image_size.1,
                py <= height,
                buf@.len() == 3 * width as int * py as int,
                forall|qx: int, qy: int|
                    0 <= qx < width as int && 0 <= qy < py as int ==> #[trigger] self.pixel_post(
                        qx,
                        qy,
                        buf@[3 * (qy * width as int + qx)],
                        buf@[3 * (qy * width as int + qx) + 1],
                        buf@[3 * (qy * width as int + qx) + 2],
                        num_of_bounce as int,
                        num_of_diffuse as int,
                    ),
                num_of_bounce == 0 ==> forall|j: int| 0 <= j < buf@.len() ==> buf@[j] == 0,
            decreases height as int - py as int,
        {
            let mut px: u32 = 0;
            while px < width
                invariant
                    self.wf(),
                    1 <= sampling <= 1048576,
                    ec_count(self.objs@) <= sampling as int,
                    width == self.camera.image_size.0,
                    height == self.camera.image_size.1,
                    py < height,
                    px <= width,
                    buf@.len() == 3 * width as int * py as int + 3 * px as int,
                    forall|qx: int, qy: int|
                        0 <= qx < width as int && 0 <= qy < py as int ==> #[trigger] self.pixel_post(
                            qx,
                            qy,
                            buf@[3 * (qy * width as int + qx)],
                            buf@[3 * (qy * width as int + qx) + 1],
                            buf@[3 * (qy * width as int + qx) + 2],
                            num_of_bounce as int,
                            num_of_diffuse as int,
                        ),
                    forall|qx: int|
                        0 <= qx < px as int ==> #[trigger] self.pixel_post(
                            qx,
                            py as int,
                            buf@[3 * (py as int * width as int + qx)],
                            buf@[3 * (py as int * width as int + qx) + 1],
                            buf@[3 * (py as int * width as int + qx) + 2],
                            num_of_bounce as int,
                            num_of_diffuse as int,
                        ),
                    num_of_bounce == 0 ==> forall|j: int| 0 <= j < buf@.len() ==> buf@[j] == 0,
                decreases width as int - px as int,
            {
                let c = self.render_pixel(px, py, num_of_bounce, sampling, num_of_diffuse);
                proof {
                    crate::fixed::lemma_dtr_div_bound(c@.r, SCALE as int, 255);
                    crate::fixed::lemma_dtr_div_bound(c@.g, SCALE as int, 255);
                    crate::fixed::lemma_dtr_div_bound(c@.b, SCALE as int, 255);
                }
                let ghost buf0 = buf@;
                buf.push(div_trunc(c.r as i128, SCALE as i128) as u8);
                buf.push(div_trunc(c.g as i128, SCALE as i128) as u8);
                buf.push(div_trunc(c.b as i128, SCALE as i128) as u8);
                proof {
                    assert(3 * (py as int * width as int + px as int) == 3 * width as int
                        * py as int + 3 * px as int) by (nonlinear_arith);
                    let (col, t) = choose|col: C3, t: int|
                        #[trigger] self.radiance_post(
                            self.camera.position@,
                            traced_dir(
                                self.camera,
                                device_w(self.camera, px as int),
                                device_h(self.camera, py as int),
                            ),
                            col,
                            t,
                            num_of_bounce as int,
                            num_of_diffuse as int,
                        ) && c@ == col.creform();
                    assert(self.pixel_post(
                        px as int,
                        py as int,
                        buf@[3 * (py as int * width as int + px as int)],
                        buf@[3 * (py as int * width as int + px as int) + 1],
                        buf@[3 * (py as int * width as int + px as int) + 2],
                        num_of_bounce as int,
                        num_of_diffuse as int,
                    ));
                    assert forall|qx: int, qy: int|
                        0 <= qx < width as int && 0 <= qy < py as int implies #[trigger] self.pixel_post(
                        qx,
                        qy,
                        buf@[3 * (qy * width as int + qx)],
                        buf@[3 * (qy * width as int + qx) + 1],
                        buf@[3 * (qy * width as int + qx) + 2],
                        num_of_bounce as int,
                        num_of_diffuse as int,
                    ) by {
                        lemma_pixel_row_index(qx, qy, width as int, py as int, px as int);
                        assert(buf@[3 * (qy * width as int + qx)] == buf0[3 * (qy * width as int
                            + qx)]);
                        assert(buf@[3 * (qy * width as int + qx) + 1] == buf0[3 * (qy
                            * width as int + qx) + 1]);
                        assert(buf@[3 * (qy * width as int + qx) + 2] == buf0[3 * (qy
                            * width as int + qx) + 2]);
                    }
                    assert forall|qx: int| 0 <= qx < px as int implies #[trigger] self.pixel_post(
                        qx,
                        py as int,
                        buf@[3 * (py as int * width as int + qx)],
                        buf@[3 * (py as int * width as int + qx) + 1],
                        buf@[3 * (py as int * width as int + qx) + 2],
                        num_of_bounce as int,
                        num_of_diffuse as int,
                    ) by {
                        lemma_pixel_col_index(qx, py as int, width as int, px as int);
                        assert(buf@[3 * (py as int * width as int + qx)] == buf0[3 * (
                        py as int * width as int + qx)]);
                        assert(buf@[3 * (py as int * width as int + qx) + 1] == buf0[3 * (
                        py as int * width as int + qx) + 1]);
                        assert(buf@[3 * (py as int * width as int + qx) + 2] == buf0[3 * (
                        py as int * width as int + qx) + 2]);
                    }
                }
                px = px + 1;
            }
            proof {
                assert(3 * width as int * (py as int + 1) == 3 * width as int * py as int + 3
                    * width as int) by (nonlinear_arith);
            }
            py = py + 1;
        }
        proof {
            assert(3 * width as int * py as int == 3 * self.camera.image_size.0
                * self.camera.image_size.1);
        }
        buf
    }

    /// Exactly one direct ray per emissive object whose origin lies in
    /// the hemisphere of `norm`, in scene order: each starts at `origin`
    /// and aims at that object's origin (normalized). No other rays come
    /// back; the returned directions are `nee_dirs` exactly.
    pub fn next_event_estimation(&self, origin: &Vector3, norm: &Vector3) -> (rays: Vec<Ray>)
        requires
            self.wf(),
            origin@.bounded(MAX_ORIG as int),
            norm@.bounded(VB as int),
        ensures
            rays@.len() == nee_dirs(self.objs@, *origin, *norm).len(),
            forall|k: int|
                0 <= k < rays@.len() ==> (#[trigger] rays@[k]).direction@ == nee_dirs(
                    self.objs@,
                    *origin,
                    *norm,
                )[k],
            forall|k: int| 0 <= k < rays@.len() ==> (#[trigger] rays@[k]).origin == *origin,
            forall|k: int| 0 <= k < rays@.len() ==> (#[trigger] rays@[k]).wf(),
            rays@.len() <= self.objs@.len(),
    {
        let mut rays: Vec<Ray> = Vec::new();
        let mut i: usize = 0;
        while i < self.objs.len()
            invariant
                i <= self.objs@.len(),
                self.wf(),
                origin@.bounded(MAX_ORIG as int),
                norm@.bounded(VB as int),
                rays@.len() == nee_dirs(self.objs@.take(i as int), *origin, *norm).len(),
                rays@.len() <= i as int,
                forall|k: int|
                    0 <= k < rays@.len() ==> (#[trigger] rays@[k]).direction@ == nee_dirs(
                        self.objs@.take(i as int),
                        *origin,
                        *norm,
                    )[k],
                forall|k: int| 0 <= k < rays@.len() ==> (#[trigger] rays@[k]).origin == *origin,
                forall|k: int| 0 <= k < rays@.len() ==> (#[trigger] rays@[k]).wf(),
            decreases self.objs@.len() - i as int,
        {
            let obj = &self.objs[i];
            proof {
                assert(self.objs@.take(i as int + 1).drop_last() =~= self.objs@.take(i as int));
                assert(self.objs@.take(i as int + 1).last() == self.objs@[i as int]);
            }
            if obj.is_ec {
                let toward = obj.origin.sub(origin);
                if !(toward.x == 0 && toward.y == 0 && toward.z == 0) {
                    if 0 < norm.inner(&toward) {
                        rays.push(Ray::new(*origin, toward));
                    }
                }
            }
            i = i + 1;
        }
        proof {
            assert(self.objs@.take(self.objs@.len() as int) =~= self.objs@);
            lemma_nee_dirs_len(self.objs@, *origin, *norm);
        }
        rays
    }
}

/// A byte index of a completed row stays below the bytes written so far.
proof fn lemma_pixel_row_index(qx: int, qy: int, width: int, py: int, px: int)
    by (nonlinear_arith)
    requires
        0 <= qx < width,
        0 <= qy < py,
        0 <= px,
    ensures
        0 <= 3 * (qy * width + qx),
        3 * (qy * width + qx) + 2 < 3 * width * py + 3 * px,
{
}

/// A byte index of the current row's prefix stays below the bytes
/// written so far.
proof fn lemma_pixel_col_index(qx: int, py: int, width: int, px: int)
    by (nonlinear_arith)
    requires
        0 <= qx < px,
        0 <= py,
        0 <= width,
    ensures
        0 <= 3 * (py * width + qx),
        3 * (py * width + qx) + 2 < 3 * width * py + 3 * px,
{
}

/// One pixel coordinate from a raw texture coordinate: wrapped, scaled by
/// `n`, clamped into `[0, limit)`.
fn sample_px(v: i64, n: usize, limit: usize) -> (r: usize)
    requires
        1 <= n <= 32768,
        1 <= limit <= 32768,
        -0x80_0000_0000 <= v <= 0x80_0000_0000,
    ensures
        r as int == clamp_px(wrap_px(v as int, n as int), limit as int),
{
    proof {
        lemma_mul_bound(v as int, n as int, 0x80_0000_0000, 32768);
        lemma_mul_bound(SCALE as int + v as int, n as int, 0x81_0000_0000, 32768);
        lemma_dtr_div_bound(v as int * n as int, SCALE as int, 0x8000_0000_0000);
        lemma_dtr_div_bound((SCALE as int + v as int) * n as int, SCALE as int, 0x8100_0000_0000);
    }
    let w: i128 = if v >= 0 {
        div_trunc((v as i128) * (n as i128), SCALE as i128)
    } else {
        div_trunc((SCALE as i128 + v as i128) * (n as i128), SCALE as i128)
    };
    if w < 0 {
        0
    } else if w >= limit as i128 {
        limit - 1
    } else {
        w as usize
    }
}

/// A texture channel (0 to 255 whole units) as a unit-range scalar.
fn chan_unit(v: i64) -> (r: i64)
    requires
        0 <= v <= 16711680,
    ensures
        r as int == dtr(v as int, 255),
        0 <= r <= SCALE,
{
    proof {
        crate::fixed::lemma_dtr_div_bound(v as int, 255, SCALE as int);
    }
    div_trunc(v as i128, 255) as i64
}

/// A raw coordinate clamped into the ray-origin range.
pub open spec fn clamp_orig(v: int) -> int {
    if v > MAX_ORIG as int {
        MAX_ORIG as int
    } else if v < -(MAX_ORIG as int) {
        -(MAX_ORIG as int)
    } else {
        v
    }
}

/// A secondary ray origin kept inside the ray-origin range; a hit point
/// within range is unchanged.
fn clamp_origin(v: &Vector3) -> (r: Vector3)
    ensures
        r@ == (V3 { x: clamp_orig(v@.x), y: clamp_orig(v@.y), z: clamp_orig(v@.z) }),
        r@.bounded(MAX_ORIG as int),
{
    let x = if v.x > MAX_ORIG {
        MAX_ORIG
    } else if v.x < -MAX_ORIG {
        -MAX_ORIG
    } else {
        v.x
    };
    let y = if v.y > MAX_ORIG {
        MAX_ORIG
    } else if v.y < -MAX_ORIG {
        -MAX_ORIG
    } else {
        v.y
    };
    let z = if v.z > MAX_ORIG {
        MAX_ORIG
    } else if v.z < -MAX_ORIG {
        -MAX_ORIG
    } else {
        v.z
    };
    Vector3 { x, y, z }
}

/// A branch sample weighted by its own terminating distance.
fn div_dist(c: &Color, dist: i64) -> (r: Color)
    requires
        dist > 0,
    ensures
        r@ == c@.cdivs(dist as int),
        c@.nonneg() ==> r@.nonneg(),
{
    proof {
        if c@.nonneg() {
            lemma_chan_div_nonneg(c@.r, dist as int);
            lemma_chan_div_nonneg(c@.g, dist as int);
            lemma_chan_div_nonneg(c@.b, dist as int);
        }
    }
    c.divs(dist)
}

/// An accumulated bundle averaged over the sample quota.
fn div_count(c: &Color, sampling: usize) -> (r: Color)
    requires
        1 <= sampling <= 1048576,
    ensures
        r@ == c@.cdivs(sampling as int * SCALE as int),
        c@.nonneg() ==> r@.nonneg(),
{
    proof {
        if c@.nonneg() {
            lemma_chan_div_nonneg(c@.r, sampling as int * SCALE as int);
            lemma_chan_div_nonneg(c@.g, sampling as int * SCALE as int);
            lemma_chan_div_nonneg(c@.b, sampling as int * SCALE as int);
        }
        lemma_mul_bound(sampling as int, SCALE as int, 1048576, 65536);
        assert(sampling as int * SCALE as int >= 1 * 1) by (nonlinear_arith)
            requires
                sampling as int >= 1,
                SCALE as int >= 1,
        ;
    }
    c.divs((sampling as i64) * SCALE)
}

/// With no transmitted, metallic or diffuse light gathered, the
/// composition reduces to the emission alone.
proof fn lemma_compose_zero(diffuse: C3, pm: int, ec: C3)
    requires
        0 <= pm <= SCALE as int,
        ec.nonneg(),
        ec.r <= CMAX as int,
        ec.g <= CMAX as int,
        ec.b <= CMAX as int,
    ensures
        compose_spec(
            diffuse,
            C3 { r: 0, g: 0, b: 0 },
            C3 { r: 0, g: 0, b: 0 },
            C3 { r: 0, g: 0, b: 0 },
            pm,
            0,
            ec,
        ) == ec,
{
    let z = C3 { r: 0, g: 0, b: 0 };
    assert(diffuse.r * 0 == 0) by (nonlinear_arith);
    assert(diffuse.g * 0 == 0) by (nonlinear_arith);
    assert(diffuse.b * 0 == 0) by (nonlinear_arith);
    assert(dtr(0, SCALE as int) == 0);
    assert(diffuse.cmul(z) == z);
    assert(0 * (SCALE as int - pm) == 0) by (nonlinear_arith);
    assert(0 * (SCALE as int - 0) == 0) by (nonlinear_arith);
    assert(0 * pm == 0) by (nonlinear_arith);
    assert(0 * SCALE as int == 0) by (nonlinear_arith);
    assert(z.cmuls(SCALE as int - pm) == z);
    assert(z.cmuls(SCALE as int - 0) == z);
    assert(z.cmuls(0) == z);
    assert(z.cmuls(pm) == z);
    assert(dtr(0, 2 * SCALE as int) == 0);
    assert(z.cdivs(2 * SCALE as int) == z);
    assert(z.cadd(z) == z);
    assert(sat_clamp(0 + ec.r) == ec.r);
    assert(sat_clamp(0 + ec.g) == ec.g);
    assert(sat_clamp(0 + ec.b) == ec.b);
    assert(z.cadd(ec) == ec);
}

/// The outgoing radiance composed from the three branch contributions and
/// the emission, exactly as the integrator weighs them:
/// `diffuse * diffuse_color * (1 - pm) * (1 - tr) / 2
///  + tr_color * tr * (1 - pm) + pm_color * pm + ec`.
pub open spec fn compose_spec(
    diffuse: C3,
    diffuse_color: C3,
    tr_color: C3,
    pm_color: C3,
    pm: int,
    tr: int,
    ec: C3,
) -> C3 {
    diffuse.cmul(diffuse_color).cmuls(SCALE as int - pm).cmuls(SCALE as int - tr).cdivs(
        2 * SCALE as int,
    ).cadd(tr_color.cmuls(tr).cmuls(SCALE as int - pm)).cadd(pm_color.cmuls(pm)).cadd(ec)
}

/// The executable radiance composition; its result is exactly
/// `compose_spec`, and no light is negative if none came in negative.
pub fn compose_radiance(
    diffuse: &Color,
    diffuse_color: &Color,
    tr_color: &Color,
    pm_color: &Color,
    pm: i64,
    tr: i64,
    ec: &Color,
) -> (r: Color)
    requires
        0 <= pm <= SCALE,
        0 <= tr <= SCALE,
    ensures
        r@ == compose_spec(diffuse@, diffuse_color@, tr_color@, pm_color@, pm as int, tr as int, ec@),
        diffuse@.nonneg() && diffuse_color@.nonneg() && tr_color@.nonneg() && pm_color@.nonneg()
            && ec@.nonneg() ==> r@.nonneg(),
{
    proof {
        lemma_compose_nonneg(
            diffuse@,
            diffuse_color@,
            tr_color@,
            pm_color@,
            pm as int,
            tr as int,
            ec@,
        );
    }
    let a = diffuse.mul(diffuse_color).muls(SCALE - pm).muls(SCALE - tr).divs(2 * SCALE);
    let b = tr_color.muls(tr).muls(SCALE - pm);
    let c = pm_color.muls(pm);
    a.add(&b).add(&c).add(ec)
}

/// Saturated fixed-point scaling by a nonnegative factor keeps a channel
/// nonnegative.
proof fn lemma_chan_nonneg(v: int, k: int)
    requires
        v >= 0,
        k >= 0,
    ensures
        sat_clamp(dtr(v * k, SCALE as int)) >= 0,
{
    assert(v * k >= 0) by (nonlinear_arith)
        requires
            v >= 0,
            k >= 0,
    ;
    crate::fixed::lemma_dtr_ge(v * k, SCALE as int, 0);
}

/// Saturated fixed-point division by a positive factor keeps a channel
/// nonnegative.
proof fn lemma_chan_div_nonneg(v: int, k: int)
    requires
        v >= 0,
        k > 0,
    ensures
        sat_clamp(dtr(v * SCALE as int, k)) >= 0,
{
    assert(v * SCALE as int >= 0) by (nonlinear_arith)
        requires
            v >= 0,
    ;
    crate::fixed::lemma_dtr_ge(v * SCALE as int, k, 0);
}

/// The composition of nonnegative contributions is nonnegative.
proof fn lemma_compose_nonneg(
    diffuse: C3,
    diffuse_color: C3,
    tr_color: C3,
    pm_color: C3,
    pm: int,
    tr: int,
    ec: C3,
)
    requires
        0 <= pm <= SCALE as int,
        0 <= tr <= SCALE as int,
    ensures
        diffuse.nonneg() && diffuse_color.nonneg() && tr_color.nonneg() && pm_color.nonneg()
            && ec.nonneg() ==> compose_spec(diffuse, diffuse_color, tr_color, pm_color, pm, tr,
        ec).nonneg(),
{
    if diffuse.nonneg() && diffuse_color.nonneg() && tr_color.nonneg() && pm_color.nonneg()
        && ec.nonneg() {
        lemma_chan_nonneg(diffuse.r, diffuse_color.r);
        lemma_chan_nonneg(diffuse.g, diffuse_color.g);
        lemma_chan_nonneg(diffuse.b, diffuse_color.b);
        let m0 = diffuse.cmul(diffuse_color);
        lemma_chan_nonneg(m0.r, SCALE as int - pm);
        lemma_chan_nonneg(m0.g, SCALE as int - pm);
        lemma_chan_nonneg(m0.b, SCALE as int - pm);
        let m1 = m0.cmuls(SCALE as int - pm);
        lemma_chan_nonneg(m1.r, SCALE as int - tr);
        lemma_chan_nonneg(m1.g, SCALE as int - tr);
        lemma_chan_nonneg(m1.b, SCALE as int - tr);
        let m2 = m1.cmuls(SCALE as int - tr);
        lemma_chan_div_nonneg(m2.r, 2 * SCALE as int);
        lemma_chan_div_nonneg(m2.g, 2 * SCALE as int);
        lemma_chan_div_nonneg(m2.b, 2 * SCALE as int);
        lemma_chan_nonneg(tr_color.r, tr);
        lemma_chan_nonneg(tr_color.g, tr);
        lemma_chan_nonneg(tr_color.b, tr);
        let t0 = tr_color.cmuls(tr);
        lemma_chan_nonneg(t0.r, SCALE as int - pm);
        lemma_chan_nonneg(t0.g, SCALE as int - pm);
        lemma_chan_nonneg(t0.b, SCALE as int - pm);
        lemma_chan_nonneg(pm_color.r, pm);
        lemma_chan_nonneg(pm_color.g, pm);
        lemma_chan_nonneg(pm_color.b, pm);
    }
}

} // verus!
