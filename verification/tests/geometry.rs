//! Fixed-point arithmetic, vectors, boxes and primitive intersections.

use pathtracer::fixed::{fx_div, fx_mul, fx_sqrt, tdiv_i128, SCALE};
use pathtracer::primitive::{InfinitePlane, PrimitiveList, Sphere};
use pathtracer::primitive_traits::{BBox, BoundedPrimitive, Primitive};
use pathtracer::ray::Ray;
use pathtracer::vec3::{cross, dot, Vec3};

const S: i64 = SCALE;

fn v(x: i64, y: i64, z: i64) -> Vec3 {
    Vec3::new(x, y, z)
}

#[test]
fn fixed_point_products_truncate_toward_zero() {
    assert_eq!(fx_mul(98304, 32768), 49152); // 1.5 * 0.5 == 0.75
    assert_eq!(fx_mul(-98304, 32768), -49152);
    assert_eq!(fx_mul(3, 3), 0); // tiny product rounds to zero
    assert_eq!(fx_div(65536, 131072), 32768); // 1 / 2 == 0.5
    assert_eq!(fx_div(-98304, 65536), -98304);
    assert_eq!(fx_div(98304, -65536), -98304);
    assert_eq!(tdiv_i128(-7, 2), -3); // toward zero, not floor
    assert_eq!(fx_sqrt(262144), 131072); // sqrt 4 == 2
    assert_eq!(fx_sqrt(0), 0);
    assert_eq!(fx_sqrt(S), S); // sqrt 1 == 1
}

#[test]
fn vector_componentwise_operations() {
    let a = v(S, 2 * S, 3 * S);
    let b = v(S, S, S);
    let sum = a.add(&b);
    assert_eq!((sum.x, sum.y, sum.z), (2 * S, 3 * S, 4 * S));
    let diff = a.sub(&b);
    assert_eq!((diff.x, diff.y, diff.z), (0, S, 2 * S));
    let half = a.scale(32768);
    assert_eq!((half.x, half.y, half.z), (32768, S, 98304));
    assert_eq!(dot(&v(S, 0, 0), &v(S, 0, 0)), S);
    assert_eq!(dot(&v(S, 2 * S, 0), &v(3 * S, S, 0)), 5 * S);
    let c = cross(&v(S, 0, 0), &v(0, S, 0));
    assert_eq!((c.x, c.y, c.z), (0, 0, S));
}

#[test]
fn vector_norms_and_unit() {
    let a = v(0, 3 * S, 0);
    assert_eq!(a.normSquared(), 9 * S);
    assert_eq!(a.norm(), 3 * S);
    let u = Vec3::unit(&a);
    assert_eq!((u.x, u.y, u.z), (0, S, 0));
    assert_eq!(Vec3::unit(&v(0, 0, 0)).x, 0);
}

#[test]
fn random_point_lies_inside_unit_sphere() {
    for _ in 0..32 {
        let p = Vec3::randInUnitSphere();
        assert!(p.normSquared() < S);
        let d = Vec3::randInUnitDisk();
        assert!(d.normSquared() < S);
        assert_eq!(d.z, 0);
    }
}

fn unit_box() -> BBox {
    BBox { lower: v(-S, -S, -S), higher: v(S, S, S) }
}

#[test]
fn box_hit_straight_on() {
    let r = Ray { origin: v(0, 0, -3 * S), dir: v(0, 0, S) };
    assert!(unit_box().hit(&r, 7, 100 * S));
}

#[test]
fn box_hit_rejects_offset_parallel_ray() {
    // The x slab is degenerate (zero direction component) and the
    // origin sits outside it.
    let r = Ray { origin: v(3 * S, 0, -3 * S), dir: v(0, 0, S) };
    assert!(!unit_box().hit(&r, 7, 100 * S));
}

#[test]
fn box_hit_rejects_empty_window() {
    // An empty query window never passes, even when every axis slab
    // is degenerate (a zero direction component with the origin
    // between the planes).
    let still = Ray { origin: v(0, 0, 0), dir: v(0, 0, 0) };
    assert!(!unit_box().hit(&still, 0, 0));
    assert!(!unit_box().hit(&still, 5 * S, 5 * S));
    assert!(!unit_box().hit(&still, 5 * S, -5 * S));
    // With a nonempty window the degenerate slabs accept a ray that
    // starts inside the box.
    assert!(unit_box().hit(&still, 7, S));
}

#[test]
fn box_hit_respects_window() {
    let r = Ray { origin: v(0, 0, -3 * S), dir: v(0, 0, S) };
    // The box spans parameters [2, 4] along this ray.
    assert!(!unit_box().hit(&r, 7, S)); // window ends before the box
    assert!(!unit_box().hit(&r, 5 * S, 100 * S)); // window starts past it
    assert!(unit_box().hit(&r, 3 * S, 100 * S)); // window overlaps it
}

#[test]
fn box_hit_agrees_with_per_axis_intervals() {
    // A diagonal ray: per axis the slab windows are [1,3] on x and
    // [2,4] on z; their intersection [2,3] is nonempty.
    let b = BBox { lower: v(S, -S, 2 * S), higher: v(3 * S, S, 4 * S) };
    let r = Ray { origin: v(0, 0, 0), dir: v(S, 0, S) };
    assert!(b.hit(&r, 7, 100 * S));
    // Shift the x slab to [5,7]: each axis interval still meets the
    // window on its own, but their intersection is empty.
    let b2 = BBox { lower: v(5 * S, -S, 2 * S), higher: v(7 * S, S, 4 * S) };
    assert!(!b2.hit(&r, 7, 100 * S));
}

#[test]
fn box_union_takes_componentwise_extremes() {
    let a = BBox { lower: v(-S, 0, 0), higher: v(S, S, S) };
    let b = BBox { lower: v(0, -S, 0), higher: v(2 * S, S, S) };
    let u = a.union(&b);
    assert_eq!((u.lower.x, u.lower.y, u.lower.z), (-S, -S, 0));
    assert_eq!((u.higher.x, u.higher.y, u.higher.z), (2 * S, S, S));
}

#[test]
fn sphere_hit_round_trip() {
    // A ray fired straight at a unit sphere from three units away
    // meets the surface after exactly two units; the normal there is
    // parallel to the point minus the centre.
    let s = Sphere { center: v(0, 0, 0), radius: S, material: 5 };
    let r = Ray { origin: v(0, 0, 3 * S), dir: v(0, 0, -S) };
    let hit = s.intersect(&r, 7, 1000 * S).expect("must hit");
    assert_eq!(hit.t, 2 * S);
    assert_eq!((hit.p.x, hit.p.y, hit.p.z), (0, 0, S));
    assert_eq!((hit.normal.x, hit.normal.y, hit.normal.z), (0, 0, S));
    assert_eq!(hit.material, 5);
}

#[test]
fn sphere_miss_and_window() {
    let s = Sphere { center: v(0, 0, 0), radius: S, material: 0 };
    let miss = Ray { origin: v(0, 3 * S, 3 * S), dir: v(0, 0, -S) };
    assert!(s.intersect(&miss, 7, 1000 * S).is_none());
    let r = Ray { origin: v(0, 0, 3 * S), dir: v(0, 0, -S) };
    // Window past the whole sphere: the near root is at 2, the far
    // root at 4.
    assert!(s.intersect(&r, 5 * S, 1000 * S).is_none());
    // Window starting inside the sphere picks the far root.
    let inside = s.intersect(&r, 3 * S, 1000 * S).expect("far root");
    assert_eq!(inside.t, 4 * S);
}

#[test]
fn plane_hit_and_parallel_miss() {
    let p = InfinitePlane {
        origin: v(0, -32768, 0),
        normal: v(0, S, 0),
        material: 2,
    };
    let down = Ray { origin: v(0, S, 0), dir: v(0, -S, 0) };
    let hit = p.intersect(&down, 7, 1000 * S).expect("must hit");
    assert_eq!(hit.t, 98304); // down 1.5 units to y == -0.5
    assert_eq!((hit.p.x, hit.p.y, hit.p.z), (0, -32768, 0));
    assert_eq!(hit.material, 2);
    let level = Ray { origin: v(0, S, 0), dir: v(S, 0, 0) };
    assert!(p.intersect(&level, 7, 1000 * S).is_none());
}

#[test]
fn aggregate_returns_closest_hit() {
    let near = Sphere { center: v(0, 0, 0), radius: S, material: 0 };
    let far = Sphere { center: v(0, 0, -5 * S), radius: S, material: 1 };
    let list = PrimitiveList::new(vec![far, near], vec![]);
    let r = Ray { origin: v(0, 0, 3 * S), dir: v(0, 0, -S) };
    let hit = list.intersect(&r, 7, 1000 * S).expect("must hit");
    assert_eq!(hit.t, 2 * S);
    assert_eq!(hit.material, 0);
}

#[test]
fn aggregate_consults_unbounded_primitives() {
    let s = Sphere { center: v(10 * S, 0, 0), radius: S, material: 0 };
    let ground = InfinitePlane {
        origin: v(0, -32768, 0),
        normal: v(0, S, 0),
        material: 2,
    };
    let list = PrimitiveList::new(vec![s], vec![ground]);
    let down = Ray { origin: v(0, S, 0), dir: v(0, -S, 0) };
    let hit = list.intersect(&down, 7, 1000 * S).expect("must hit plane");
    assert_eq!(hit.material, 2);
    assert_eq!(hit.t, 98304);
}

#[test]
fn aggregate_box_spans_all_bounded_primitives() {
    let a = Sphere { center: v(0, 0, 0), radius: S, material: 0 };
    let b = Sphere { center: v(4 * S, 0, 0), radius: S, material: 0 };
    let list = PrimitiveList::new(vec![a, b], vec![]);
    let bb = list.bbox();
    assert_eq!(bb.lower.x, -S);
    assert_eq!(bb.higher.x, 5 * S);
}
