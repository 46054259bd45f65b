use pathtrace::color::{Color, CHAN_MAX};
use pathtrace::fixed::SCALE;
use pathtrace::object::{Material, Normcoord, Object, Plane, Texcoord, Texture};
use pathtrace::ray::Ray;
use pathtrace::scene::{Camera, Scene};
use pathtrace::vector::{Vector2, Vector3};

fn x_plane_triangle(material_id: Option<usize>) -> Plane {
    Plane::new(
        Vector3::new(5 * SCALE, -SCALE, -SCALE),
        Vector3::new(5 * SCALE, SCALE, -SCALE),
        Vector3::new(5 * SCALE, 0, 2 * SCALE),
        None,
        None,
        material_id,
    )
}

fn plain_material(emission: Color) -> Material {
    Material {
        diffuse: Color::zeros(),
        diffuse_texture: None,
        roughness: None,
        roughness_texture: None,
        metallic: None,
        metallic_texture: None,
        transmittance: 0,
        optical_density: SCALE,
        emission,
    }
}

fn emissive_scene(emission: Color, diffuse: Color) -> Scene {
    let mut material = plain_material(emission);
    material.diffuse = diffuse;
    let obj = Object::new(
        vec![x_plane_triangle(Some(0))],
        Vector3::new(5 * SCALE, 0, 0),
        vec![material],
        vec![],
    )
    .unwrap();
    let camera = Camera::new(
        Vector3::new(0, 0, 0),
        Vector3::new(0, 0, SCALE),
        Vector3::new(SCALE, 0, 0),
        Vector3::new(0, SCALE, 0),
        90 * SCALE,
        (4, 4),
    );
    Scene::new(camera, vec![obj])
}

#[test]
fn triangle_hit_at_distance_five() {
    // a ray down the x axis meets a triangle lying at x == 5 exactly
    let plane = x_plane_triangle(None);
    let ray = Ray::new(Vector3::new(0, 0, 0), Vector3::new(SCALE, 0, 0));
    let hit = plane.intersection(&ray).unwrap();
    assert_eq!(hit.x, 5 * SCALE);
    assert_eq!((hit.y, hit.z), (21845, 21845));
}

#[test]
fn centroid_ray_yields_barycentric_interior() {
    let plane = x_plane_triangle(None);
    let ray = Ray::new(Vector3::new(0, 0, 0), Vector3::new(SCALE, 0, 0));
    let hit = plane.intersection(&ray).unwrap();
    assert!(hit.x > 0);
    assert!(hit.y >= 0 && hit.z >= 0);
    assert!(hit.y + hit.z <= SCALE);
}

#[test]
fn misses_return_none() {
    let plane = x_plane_triangle(None);
    // pointing away from the triangle
    let away = Ray::new(Vector3::new(0, 0, 0), Vector3::new(-SCALE, 0, 0));
    assert!(plane.intersection(&away).is_none());
    // parallel to the triangle's plane
    let parallel = Ray::new(Vector3::new(0, 0, 0), Vector3::new(0, SCALE, 0));
    assert!(plane.intersection(&parallel).is_none());
}

#[test]
fn culling_agrees_with_the_unculled_scan() {
    // pseudo-random rays and triangles: the culled object traversal and a
    // direct triangle scan must agree on hit/no-hit
    let mut seed: i64 = 12345;
    let mut next = move || {
        seed = (seed.wrapping_mul(1103515245).wrapping_add(12347)) % (8 * SCALE);
        seed
    };
    for _ in 0..60 {
        let tri = Plane::new(
            Vector3::new(next(), next(), next()),
            Vector3::new(next(), next(), next()),
            Vector3::new(next(), next(), next()),
            None,
            None,
            None,
        );
        let scan = Plane::new(tri.v1, tri.v2, tri.v3, None, None, None);
        let obj = Object::new(
            vec![tri],
            Vector3::new(next(), next(), next()),
            vec![],
            vec![],
        )
        .unwrap();
        let dir = Vector3::new(next().abs() / 8 + SCALE, next() / 8, next() / 8);
        let ray = Ray::new(Vector3::new(next(), next(), next()), dir);
        let culled = Object::crossjudge(&vec![obj], &ray);
        let direct = scan.intersection(&ray);
        assert_eq!(culled.is_some(), direct.is_some());
        if let (Some((v, pi, oi)), Some(w)) = (culled, direct) {
            assert_eq!((v.x, v.y, v.z), (w.x, w.y, w.z));
            assert_eq!((pi, oi), (0, 0));
        }
    }
}

#[test]
fn object_new_refuses_out_of_range_input() {
    let bad = Plane::new(
        Vector3::new(i64::MAX / 2, 0, 0),
        Vector3::new(0, SCALE, 0),
        Vector3::new(0, 0, SCALE),
        None,
        None,
        None,
    );
    assert!(Object::new(vec![bad], Vector3::new(0, 0, 0), vec![], vec![]).is_none());
    let dangling = x_plane_triangle(Some(3));
    assert!(Object::new(vec![dangling], Vector3::new(0, 0, 0), vec![], vec![]).is_none());
    let ok = x_plane_triangle(None);
    let obj = Object::new(vec![ok], Vector3::new(5 * SCALE, 0, 0), vec![], vec![]).unwrap();
    assert!(!obj.is_ec);
    assert!(obj.radius >= SCALE); // vertices up to ~1.41 units from the origin
}

#[test]
fn emissive_flag_follows_the_materials() {
    let lit = plain_material(Color::new(255 * SCALE, 255 * SCALE, 255 * SCALE));
    let dark = plain_material(Color::zeros());
    let obj = Object::new(
        vec![x_plane_triangle(Some(0))],
        Vector3::new(5 * SCALE, 0, 0),
        vec![dark, lit],
        vec![],
    )
    .unwrap();
    assert!(obj.is_ec);
    let dark2 = plain_material(Color::zeros());
    let obj2 = Object::new(
        vec![x_plane_triangle(Some(0))],
        Vector3::new(5 * SCALE, 0, 0),
        vec![dark2],
        vec![],
    )
    .unwrap();
    assert!(!obj2.is_ec);
}

#[test]
fn single_emissive_triangle_renders_its_emission() {
    // an emissive triangle straight ahead: the central pixel shows the
    // emission color, a corner pixel stays black
    let scene = emissive_scene(
        Color::new(255 * SCALE, 255 * SCALE, 255 * SCALE),
        Color::zeros(),
    );
    let center = scene.render_pixel(2, 2, 1, 4, 0);
    assert_eq!((center.r, center.g, center.b), (CHAN_MAX, CHAN_MAX, CHAN_MAX));
    let corner = scene.render_pixel(0, 0, 1, 4, 0);
    assert_eq!((corner.r, corner.g, corner.b), (0, 0, 0));
    let buf = scene.render(1, 4, 0);
    assert_eq!(buf.len(), 48);
    let px = 3 * (2 * 4 + 2);
    assert_eq!(&buf[px..px + 3], &[255, 255, 255]);
    assert_eq!(&buf[0..3], &[0, 0, 0]);
}

#[test]
fn portrait_images_render_too() {
    // an image taller than wide: both axes still normalize by half-width
    let mut scene = emissive_scene(
        Color::new(255 * SCALE, 255 * SCALE, 255 * SCALE),
        Color::zeros(),
    );
    scene.camera.image_size = (2, 4);
    let buf = scene.render(1, 4, 0);
    assert_eq!(buf.len(), 24);
    let center = scene.render_pixel(1, 2, 1, 4, 0);
    assert_eq!((center.r, center.g, center.b), (CHAN_MAX, CHAN_MAX, CHAN_MAX));
}

#[test]
fn texture_axes_scale_by_their_own_dimension() {
    // a 4x2 texture: the x coordinate scales and clamps by the width, the
    // y coordinate by the height
    let tex = Texture {
        width: 4,
        height: 2,
        pixels: vec![
            [1, 1, 1],
            [2, 2, 2],
            [3, 3, 3],
            [4, 4, 4],
            [5, 5, 5],
            [6, 6, 6],
            [7, 7, 7],
            [8, 8, 8],
        ],
    };
    let mut plane = x_plane_triangle(Some(0));
    plane.vt = Some(Texcoord::new(
        Vector2::new(0, 0),
        Vector2::new(SCALE / 4, 0),
        Vector2::new(0, SCALE / 2),
    ));
    let mut material = plain_material(Color::zeros());
    material.diffuse_texture = Some(0);
    let obj = Object::new(
        vec![plane],
        Vector3::new(5 * SCALE, 0, 0),
        vec![material],
        vec![tex],
    )
    .unwrap();
    let camera = Camera::new(
        Vector3::new(0, 0, 0),
        Vector3::new(0, 0, SCALE),
        Vector3::new(SCALE, 0, 0),
        Vector3::new(0, SCALE, 0),
        90 * SCALE,
        (4, 4),
    );
    let scene = Scene::new(camera, vec![obj]);
    // uv == (1/4, 1/2) lands on column 1 of row 1
    let c = scene
        .tex_calc(
            &Vector3::new(5 * SCALE, SCALE, SCALE),
            &scene.objs[0].planes[0],
            &scene.objs[0],
            0,
        )
        .unwrap();
    assert_eq!((c.r, c.g, c.b), (6 * SCALE, 6 * SCALE, 6 * SCALE));
}

#[test]
fn diffuse_triangle_with_no_light_renders_black() {
    // a perfectly diffuse, non-emissive triangle with nothing around it:
    // one bounce gathers no light at all
    let scene = emissive_scene(Color::zeros(), Color::new(SCALE, SCALE, SCALE));
    let center = scene.render_pixel(2, 2, 1, 4, 2);
    assert_eq!((center.r, center.g, center.b), (0, 0, 0));
}

#[test]
fn texture_sampling_reads_the_expected_pixel() {
    let tex = Texture {
        width: 2,
        height: 2,
        pixels: vec![[10, 20, 30], [40, 50, 60], [70, 80, 90], [100, 110, 120]],
    };
    let mut plane = x_plane_triangle(Some(0));
    plane.vt = Some(Texcoord::new(
        Vector2::new(0, 0),
        Vector2::new(SCALE, 0),
        Vector2::new(0, SCALE),
    ));
    let mut material = plain_material(Color::zeros());
    material.diffuse_texture = Some(0);
    let obj = Object::new(
        vec![plane],
        Vector3::new(5 * SCALE, 0, 0),
        vec![material],
        vec![tex],
    )
    .unwrap();
    let camera = Camera::new(
        Vector3::new(0, 0, 0),
        Vector3::new(0, 0, SCALE),
        Vector3::new(SCALE, 0, 0),
        Vector3::new(0, SCALE, 0),
        90 * SCALE,
        (4, 4),
    );
    let scene = Scene::new(camera, vec![obj]);
    // a hit with beta = gamma = 0 samples the first texel
    let c = scene
        .tex_calc(
            &Vector3::new(5 * SCALE, 0, 0),
            &scene.objs[0].planes[0],
            &scene.objs[0],
            0,
        )
        .unwrap();
    assert_eq!((c.r, c.g, c.b), (10 * SCALE, 20 * SCALE, 30 * SCALE));
    // beta = 1 moves a full texture unit and clamps to the last column
    let c2 = scene
        .tex_calc(
            &Vector3::new(5 * SCALE, SCALE, 0),
            &scene.objs[0].planes[0],
            &scene.objs[0],
            0,
        )
        .unwrap();
    assert_eq!((c2.r, c2.g, c2.b), (40 * SCALE, 50 * SCALE, 60 * SCALE));
    // a triangle without texture coordinates yields no sample
    let bare = x_plane_triangle(Some(0));
    assert!(scene
        .tex_calc(&Vector3::new(5 * SCALE, 0, 0), &bare, &scene.objs[0], 0)
        .is_none());
}

#[test]
fn next_event_estimation_targets_emissive_objects() {
    let scene = emissive_scene(
        Color::new(255 * SCALE, 255 * SCALE, 255 * SCALE),
        Color::zeros(),
    );
    let origin = Vector3::new(0, 0, 0);
    let norm = Vector3::new(SCALE, 0, 0);
    let rays = scene.next_event_estimation(&origin, &norm);
    assert_eq!(rays.len(), 1);
    assert_eq!(rays[0].direction.x, SCALE);
    // facing away from the light, no ray is generated
    let away = Vector3::new(-SCALE, 0, 0);
    assert_eq!(scene.next_event_estimation(&origin, &away).len(), 0);
}

#[test]
fn it_works() {
    let origin = Vector3::new(0, 0, 0);
    let norm = Vector3::new(SCALE, 0, 0);
    let rays = Ray::rnd_dirgen(&origin, &norm, &norm, 100, SCALE);
    assert_eq!(rays.len(), 100);
    for ray in rays {
        if norm.inner(&ray.direction) < 0 {
            panic!("STOP");
        }
    }
}

#[test]
fn refract() {
    let norm = Vector3::new(SCALE, 0, 0);
    let vec = Vector3::new(SCALE, SCALE, SCALE);
    let r = vec.refraction(&norm, 78643); // an index of refraction of 1.2
    assert_eq!((r.x, r.y, r.z), (36701, SCALE, SCALE));
}

#[test]
fn reflect() {
    let norm = Vector3::new(SCALE, SCALE, SCALE);
    let vec = Vector3::new(SCALE, SCALE, SCALE);
    let r = vec.reflection(&norm);
    assert_eq!((r.x, r.y, r.z), (-5 * SCALE, -5 * SCALE, -5 * SCALE));
}
