//! The BVH, materials, tiling, tonemap and the integrator.

use pathtracer::camera::Camera;
use pathtracer::fixed::SCALE;
use pathtracer::material::{refract, schlick, AnyMaterial, Glass, Lambertian, Material, Metal, Null};
use pathtracer::primitive::{InfinitePlane, PrimitiveList, Sphere};
use pathtracer::primitive_traits::Primitive;
use pathtracer::ray::{Hit, Ray};
use pathtracer::raw::{RawImage, RawImageView};
use pathtracer::scene::Scene;
use pathtracer::texture::{AnyTexture, Checker, Constant, Texture};
use pathtracer::tile::TiledCanvas;
use pathtracer::tracer::{render, renderRay, renderTile};
use pathtracer::vec3::Vec3;
use pathtracer::{ref_scene_0, ref_scene_1};

const S: i64 = SCALE;

fn v(x: i64, y: i64, z: i64) -> Vec3 {
    Vec3::new(x, y, z)
}

fn axis_camera() -> Camera {
    Camera {
        lower_left: v(-2 * S, -S, -S),
        hori: v(4 * S, 0, 0),
        vert: v(0, 2 * S, 0),
        origin: v(0, 0, 0),
        lens_radius: 0,
        u: v(S, 0, 0),
        v: v(0, S, 0),
        w: v(0, 0, S),
    }
}

fn grid_spheres() -> Vec<Sphere> {
    let mut spheres = Vec::new();
    for i in 0..4i64 {
        for j in 0..4i64 {
            spheres.push(Sphere {
                center: v(4 * S * i, 2 * S * j, -4 * S * (i + j + 1)),
                radius: S,
                material: ((i * 4 + j) % 3) as usize,
            });
        }
    }
    spheres
}

#[test]
fn bvh_matches_linear_scan() {
    // The core equivalence, checked on rays through and beside every
    // primitive: the tree traversal and the exhaustive scan agree.
    let spheres = grid_spheres();
    let list = PrimitiveList::new(spheres.clone(), vec![]);
    let mut rays = Vec::new();
    for s in &spheres {
        rays.push(Ray {
            origin: v(s.center.x, s.center.y, s.center.z + 10 * S),
            dir: v(0, 0, -S),
        });
        rays.push(Ray {
            origin: v(s.center.x + 32768, s.center.y - 16384, s.center.z + 10 * S),
            dir: v(0, 0, -S),
        });
        rays.push(Ray {
            origin: v(s.center.x + 5 * S, s.center.y, s.center.z + 10 * S),
            dir: v(0, 0, -S),
        });
    }
    rays.push(Ray { origin: v(0, 0, 20 * S), dir: v(-3, 5, -S) });
    for r in &rays {
        let linear = list.intersect(r, 7, 1000 * S);
        let tree = list.intersect_bvh(r, 7, 1000 * S);
        match (linear, tree) {
            (None, None) => {}
            (Some(a), Some(b)) => {
                assert_eq!(a.t, b.t);
                assert_eq!(a.material, b.material);
                assert_eq!((a.p.x, a.p.y, a.p.z), (b.p.x, b.p.y, b.p.z));
            }
            _ => panic!("tree and scan disagree on whether the ray hits"),
        }
    }
}

#[test]
fn bvh_traversal_prunes_to_the_same_closest_hit() {
    let spheres = vec![
        Sphere { center: v(0, 0, -2 * S), radius: S, material: 0 },
        Sphere { center: v(0, 0, -6 * S), radius: S, material: 1 },
        Sphere { center: v(6 * S, 0, -2 * S), radius: S, material: 2 },
    ];
    let list = PrimitiveList::new(spheres, vec![]);
    let r = Ray { origin: v(0, 0, 3 * S), dir: v(0, 0, -S) };
    let hit = list.bvh_tree.intersect(&r, 7, 1000 * S).expect("must hit");
    assert_eq!(hit.t, 4 * S);
    assert_eq!(hit.material, 0);
}

#[test]
fn tile_partition_of_uneven_canvas() {
    // 800 x 500 with tile edge 64: a 13 x 8 grid whose last column is
    // 32 wide and whose last row is 52 tall.
    let c = TiledCanvas::new(800, 500, 64);
    assert_eq!(c.tile_count_x, 13);
    assert_eq!(c.tile_count_y, 8);
    let t = c.at(12).expect("tile");
    assert_eq!(t.xrange, (768, 800));
    assert_eq!(t.yrange, (0, 64));
    let last = c.at(103).expect("tile");
    assert_eq!(last.xrange, (768, 800));
    assert_eq!(last.yrange, (448, 500));
    assert!(c.at(104).is_none());
}

#[test]
fn tiles_cover_canvas_exactly_once() {
    let c = TiledCanvas::new(800, 500, 64);
    let mut seen = vec![0u8; 800 * 500];
    let mut i = 0u32;
    while let Some(t) = c.at(i) {
        for y in t.yrange.0..t.yrange.1 {
            for x in t.xrange.0..t.xrange.1 {
                seen[(y * 800 + x) as usize] += 1;
            }
        }
        i += 1;
    }
    assert_eq!(i, 104);
    assert!(seen.iter().all(|&n| n == 1));
}

#[test]
fn tile_partition_of_even_canvas() {
    let c = TiledCanvas::new(128, 64, 32);
    assert_eq!(c.tile_count_x, 4);
    assert_eq!(c.tile_count_y, 2);
    let t = c.at(7).expect("tile");
    assert_eq!(t.xrange, (96, 128));
    assert_eq!(t.yrange, (32, 64));
}

#[test]
fn next_tile_walks_the_grid_once() {
    let mut c = TiledCanvas::new(64, 64, 32);
    let mut n = 0;
    while let Some(_) = c.nextTile() {
        n += 1;
    }
    assert_eq!(n, 4);
    assert!(c.nextTile().is_none());
}

#[test]
fn canvas_views_match_their_tiles() {
    let c = TiledCanvas::new(100, 40, 32);
    let views = c.tiles();
    assert_eq!(views.len(), (c.tile_count_x * c.tile_count_y) as usize);
    let t = c.at(3).expect("tile");
    let view = &views[3];
    assert_eq!(view.offset_x, t.xrange.0);
    assert_eq!(view.offset_y, t.yrange.0);
    assert_eq!(view.width, t.xrange.1 - t.xrange.0);
    assert_eq!(view.height, t.yrange.1 - t.yrange.0);
}

#[test]
fn image_view_set_and_merge() {
    let mut img = RawImage::new(4, 4);
    let mut view = img.view(1, 1, 2, 2);
    let red = v(S, 0, 0);
    view.set(0, 0, red);
    view.set(1, 1, v(0, S, 0));
    assert_eq!(view.index(0, 0).x, S);
    img.merge(&view);
    assert_eq!(img.data[img.xy2Index(1, 1)].x, S);
    assert_eq!(img.data[img.xy2Index(2, 2)].y, S);
    assert_eq!(img.data[img.xy2Index(0, 0)].x, 0);
    assert_eq!(img.data[img.xy2Index(3, 3)].x, 0);
}

#[test]
fn tonemap_applies_gamma_and_quantises() {
    let mut img = RawImage::new(2, 1);
    img.data[0] = v(32768, 0, S);
    img.data[1] = v(6554, 16384, 100000);
    let bytes = img.tonemap();
    assert_eq!(bytes, vec![186, 0, 255, 89, 136, 255]);
}

#[test]
fn schlick_reflectance_at_normal_incidence_is_base_squared() {
    // At cosine one the Schlick probability collapses to
    // ((1 - n) / (1 + n))^2; for glass of index 1.5 that is 0.04.
    assert_eq!(schlick(S, 98304), 2621);
    // Away from normal incidence the probability only grows.
    assert!(schlick(0, 98304) >= 2621);
}

#[test]
fn refraction_at_normal_incidence_never_reflects_totally() {
    let straight_in = refract(&v(0, 0, -S), &v(0, 0, S), 43690);
    assert!(straight_in.is_some());
    let glancing = refract(&v(S, 0, 0), &v(0, 0, S), 98304);
    assert!(glancing.is_none()); // total internal reflection
}

fn head_on_hit() -> (Ray, Hit) {
    let r = Ray { origin: v(0, 0, 3 * S), dir: v(0, 0, -S) };
    let hit = Hit { t: 2 * S, p: v(0, 0, S), normal: v(0, 0, S), material: 0 };
    (r, hit)
}

#[test]
fn lambertian_scatters_from_the_hit_point() {
    let m = Lambertian { albedo: AnyTexture::Constant(Constant::new(v(45875, 45875, 13107))) };
    let (r, hit) = head_on_hit();
    let (out, att) = m.scatter_diffuse(&r, &hit);
    assert_eq!((out.origin.x, out.origin.y, out.origin.z), (0, 0, S));
    assert_eq!((att.x, att.y, att.z), (45875, 45875, 13107));
    // The direction is the normal plus a point inside the unit
    // sphere.
    let q = out.dir.sub(&hit.normal);
    assert!(q.normSquared() < S);
}

#[test]
fn smooth_metal_mirrors_exactly() {
    let m = Metal { albedo: v(32768, 32768, 32768), roughness: 0 };
    let (r, hit) = head_on_hit();
    let (out, att) = m.scatter_metal(&r, &hit).expect("reflects");
    assert_eq!((out.dir.x, out.dir.y, out.dir.z), (0, 0, S));
    assert_eq!((out.origin.x, out.origin.y, out.origin.z), (0, 0, S));
    assert_eq!(att.x, 32768);
}

#[test]
fn metal_absorbs_reflections_into_the_surface() {
    let m = Metal { albedo: v(32768, 32768, 32768), roughness: 0 };
    let r = Ray { origin: v(0, 0, 0), dir: v(0, 0, S) };
    // A backface hit: the normal points along the incoming ray, so
    // the mirrored direction dives into the surface.
    let hit = Hit { t: S, p: v(0, 0, S), normal: v(0, 0, S), material: 0 };
    assert!(m.scatter_metal(&r, &hit).is_none());
}

#[test]
fn glass_always_scatters_with_neutral_attenuation() {
    let m = Glass { ref_index: 98304 };
    let (r, hit) = head_on_hit();
    for _ in 0..16 {
        let (out, att) = m.scatter_glass(&r, &hit).expect("never absorbs");
        assert_eq!((att.x, att.y, att.z), (S, S, S));
        assert_eq!((out.origin.x, out.origin.y, out.origin.z), (0, 0, S));
    }
}

#[test]
fn random_colour_material_stays_in_its_band() {
    // The colour is drawn once at construction, each channel within
    // [0.1, 0.7], and scatter attenuates by exactly that colour.
    let m = pathtracer::material::LambertianRandomColor::new();
    let c = m.albedo.color;
    for ch in [c.x, c.y, c.z] {
        assert!((6554..=45876).contains(&ch));
    }
    let (r, hit) = head_on_hit();
    let (out, att) = m.scatter(&r, &hit).expect("diffuse never absorbs");
    assert_eq!((att.x, att.y, att.z), (c.x, c.y, c.z));
    assert_eq!((out.origin.x, out.origin.y, out.origin.z), (0, 0, S));
}

#[test]
fn material_dispatch_keeps_each_law() {
    let (r, hit) = head_on_hit();
    let glass = AnyMaterial::Glass(Glass { ref_index: 98304 });
    let (out, att) = glass.scatter(&r, &hit).expect("glass never absorbs");
    assert_eq!((att.x, att.y, att.z), (S, S, S));
    assert_eq!((out.origin.x, out.origin.y, out.origin.z), (0, 0, S));
    let null = AnyMaterial::Null(Null {});
    assert!(null.scatter(&r, &hit).is_none());
    let mirror = AnyMaterial::Metal(Metal { albedo: v(S, S, S), roughness: 0 });
    let (out2, _) = mirror.scatter(&r, &hit).expect("head-on reflection leaves the surface");
    assert_eq!((out2.dir.x, out2.dir.y, out2.dir.z), (0, 0, S));
}

#[test]
fn null_material_absorbs_everything() {
    let m = Null {};
    let (r, hit) = head_on_hit();
    assert!(m.scatter(&r, &hit).is_none());
}

#[test]
fn checker_texture_alternates_cells() {
    let even = v(S, S, S);
    let odd = v(0, 0, 0);
    let t = Checker::new(even, odd, S);
    assert_eq!(t.value(0, 0, &v(0, 0, 0)).x, S);
    assert_eq!(t.value(0, 0, &v(S, 0, 0)).x, 0);
    assert_eq!(t.value(0, 0, &v(S, S, 0)).x, S);
    assert_eq!(t.value(0, 0, &v(-1, 0, 0)).x, 0);
    let c = Constant::new(v(1, 2, 3));
    assert_eq!(c.value(0, 0, &v(9, 9, 9)).y, 2);
}

fn mirror_box_scene() -> Scene {
    // Two parallel mirrors facing each other; a ray bouncing between
    // them can never escape and must be cut off by the depth cap.
    let far_sphere = Sphere { center: v(800 * S, 0, 0), radius: S, material: 0 };
    let mirror_a = InfinitePlane { origin: v(0, 0, S), normal: v(0, 0, -S), material: 0 };
    let mirror_b = InfinitePlane { origin: v(0, 0, -S), normal: v(0, 0, S), material: 0 };
    Scene {
        width: 16,
        height: 16,
        camera: axis_camera(),
        primitives: PrimitiveList::new(vec![far_sphere], vec![mirror_a, mirror_b]),
        materials: vec![AnyMaterial::Metal(Metal { albedo: v(S, S, S), roughness: 0 })],
    }
}

#[test]
fn facing_mirrors_terminate_black_at_the_depth_cap() {
    let scene = mirror_box_scene();
    let trapped = Ray { origin: v(0, 0, 0), dir: v(0, 0, S) };
    let c = renderRay(&trapped, &scene, 0);
    assert_eq!((c.x, c.y, c.z), (0, 0, 0));
}

#[test]
fn depth_cap_returns_black_immediately() {
    let scene = mirror_box_scene();
    let r = Ray { origin: v(0, 0, 0), dir: v(0, S, 0) };
    let c = renderRay(&r, &scene, 33);
    assert_eq!((c.x, c.y, c.z), (0, 0, 0));
}

#[test]
fn absorbing_material_renders_black() {
    let ball = Sphere { center: v(0, 0, -4 * S), radius: S, material: 0 };
    let scene = Scene {
        width: 16,
        height: 16,
        camera: axis_camera(),
        primitives: PrimitiveList::new(vec![ball], vec![]),
        materials: vec![AnyMaterial::Null(Null {})],
    };
    let r = Ray { origin: v(0, 0, 0), dir: v(0, 0, -S) };
    let c = renderRay(&r, &scene, 0);
    assert_eq!((c.x, c.y, c.z), (0, 0, 0));
}

#[test]
fn missed_rays_see_the_sky_gradient() {
    let scene = mirror_box_scene();
    // Straight along x: parallel to both mirrors, missing the far
    // sphere (it sits 800 units along positive x only).
    let r = Ray { origin: v(0, 2 * S, 0), dir: v(-S, 0, 0) };
    let c = renderRay(&r, &scene, 0);
    // The horizontal background blend: halfway between white and the
    // sky colour.
    assert_eq!((c.x, c.y, c.z), (49152, 55705, 65536));
}

#[test]
fn camera_with_closed_lens_is_deterministic() {
    let cam = axis_camera();
    let r = cam.ray(0, 0);
    assert_eq!((r.origin.x, r.origin.y, r.origin.z), (0, 0, 0));
    assert_eq!((r.dir.x, r.dir.y, r.dir.z), (-2 * S, -S, -S));
    let r2 = cam.ray(S, S);
    assert_eq!((r2.dir.x, r2.dir.y, r2.dir.z), (2 * S, S, -S));
}

#[test]
fn render_tile_fills_its_buffer() {
    let scene = mirror_box_scene();
    let mut tile = RawImageView::new(0, 0, 4, 4);
    renderTile(&scene, 2, &mut tile);
    assert_eq!(tile.width, 4);
    assert_eq!(tile.height, 4);
    assert_eq!(tile.data.len(), 16);
}

#[test]
fn reference_scenes_are_fully_populated() {
    let s = ref_scene_1::buildScene(800, 500);
    assert_eq!(s.materials.len(), 17);
    assert_eq!(s.primitives.bounded.len(), 403);
    assert_eq!(s.primitives.unbounded.len(), 1);
    assert_eq!((s.width, s.height), (800, 500));
    let s0 = ref_scene_0::buildScene(64, 64);
    assert_eq!(s0.materials.len(), 17);
    assert_eq!(s0.primitives.bounded.len(), 303);
    let sp = ref_scene_0::randomSphere();
    assert!(sp.radius >= 5898 && sp.radius <= 7209 && sp.material < 17);
    let sm = ref_scene_0::randomSmallSphere();
    assert!(sm.radius >= 1311 && sm.radius <= 1639 && sm.material < 17);
}

#[test]
fn rendered_sky_is_bright_in_every_pixel() {
    // Nothing sits in front of this camera, so every sample sees the
    // sky gradient, whose channels never drop below half intensity;
    // a render that left its tiles blank would come out black.
    let far_sphere = Sphere { center: v(800 * S, 0, 0), radius: S, material: 0 };
    let scene = Scene {
        width: 8,
        height: 8,
        camera: axis_camera(),
        primitives: PrimitiveList::new(vec![far_sphere], vec![]),
        materials: vec![AnyMaterial::Metal(Metal { albedo: v(S, S, S), roughness: 0 })],
    };
    let img = render(&scene, 2, 4);
    let bytes = img.tonemap();
    assert_eq!(bytes.len(), 8 * 8 * 3);
    assert!(bytes.iter().all(|&b| b >= 100));
}

#[test]
fn render_produces_an_image_of_the_canvas_size() {
    let scene = ref_scene_1::buildScene(24, 16);
    let img = render(&scene, 2, 8);
    assert_eq!(img.width(), 24);
    assert_eq!(img.height(), 16);
    let bytes = img.tonemap();
    assert_eq!(bytes.len(), 24 * 16 * 3);
}
