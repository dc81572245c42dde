//! Geometric primitives: spheres, infinite planes, and the aggregate
//! that couples a BVH over the bounded primitives with a flat list of
//! unbounded ones.

use vstd::prelude::*;
use crate::fixed::{
    absi, fx_div, fx_div_spec, fx_mul, fx_mul_spec, fx_sqrt, fx_sqrt_spec, lemma_fx_div_in,
    lemma_fx_mul_in, lemma_tdiv_mono, COORD_MAX, DIR_MAX, NORMAL_MAX, SCALE,
};
use crate::ray::{ray_at_spec, ray_wf, Hit, Ray};
use crate::primitive_traits::{bbox_union_spec, bbox_wf, BBox, BoundedPrimitive, Primitive};
use crate::vec3::{
    dot, dot_spec, lemma_dot_bound, sub_spec, vec_bounded, Vec3,
};

verus! {

/// A sphere, hit by a ray where the quadratic
/// `|o + t*d - c|^2 = r^2` has a root.
#[derive(Clone, Copy, Debug, PartialEq, Eq, Structural)]
pub struct Sphere {
    pub center: Vec3,
    pub radius: i64,
    pub material: usize,
}

/// Centre in coordinate range and a positive radius.
pub open spec fn sphere_wf(s: Sphere) -> bool {
    vec_bounded(s.center, COORD_MAX as int) && 0 < s.radius <= COORD_MAX
}

/// Coefficient `a` of the sphere quadratic: the squared length of the
/// ray direction.
pub open spec fn sph_a(s: Sphere, r: Ray) -> int {
    dot_spec(r.dir, r.dir)
}

/// Coefficient `b`: the dot product of centre-to-origin with the
/// direction.
pub open spec fn sph_b(s: Sphere, r: Ray) -> int {
    dot_spec(sub_spec(r.origin, s.center), r.dir)
}

/// Coefficient `c`: squared distance of the origin from the centre,
/// less the squared radius.
pub open spec fn sph_c(s: Sphere, r: Ray) -> int {
    let oc = sub_spec(r.origin, s.center);
    dot_spec(oc, oc) - fx_mul_spec(s.radius as int, s.radius as int)
}

/// The discriminant `b*b - a*c` of the sphere quadratic.
pub open spec fn sph_disc(s: Sphere, r: Ray) -> int {
    fx_mul_spec(sph_b(s, r), sph_b(s, r)) - fx_mul_spec(sph_a(s, r), sph_c(s, r))
}

/// The smaller root of the quadratic.
pub open spec fn sph_t0(s: Sphere, r: Ray) -> int {
    fx_div_spec(-sph_b(s, r) - fx_sqrt_spec(sph_disc(s, r)), sph_a(s, r))
}

/// The larger root of the quadratic.
pub open spec fn sph_t1(s: Sphere, r: Ray) -> int {
    fx_div_spec(-sph_b(s, r) + fx_sqrt_spec(sph_disc(s, r)), sph_a(s, r))
}

/// The hit record for the sphere at parameter `t`: position on the
/// ray, normal pointing away from the centre, the sphere's material.
pub open spec fn sphere_mk_hit(s: Sphere, r: Ray, t: int) -> Hit {
    let p = ray_at_spec(r, t);
    Hit {
        t: t as i64,
        p,
        normal: Vec3 {
            x: fx_div_spec(p.x - s.center.x, s.radius as int) as i64,
            y: fx_div_spec(p.y - s.center.y, s.radius as int) as i64,
            z: fx_div_spec(p.z - s.center.z, s.radius as int) as i64,
        },
        material: s.material,
    }
}

/// The closest sphere intersection strictly inside `(tmin, tmax)`:
/// the smaller root if it lies in the window, else the larger root if
/// it does, else nothing.  A nonpositive discriminant or a degenerate
/// direction (`a == 0`) yields nothing.
pub open spec fn sphere_hit_spec(s: Sphere, r: Ray, tmin: int, tmax: int) -> Option<Hit> {
    if sph_disc(s, r) > 0 && sph_a(s, r) > 0 {
        let t0 = sph_t0(s, r);
        let t1 = sph_t1(s, r);
        if tmin < t0 < tmax {
            Some(sphere_mk_hit(s, r, t0))
        } else if tmin < t1 < tmax {
            Some(sphere_mk_hit(s, r, t1))
        } else {
            None
        }
    } else {
        None
    }
}

/// The two roots are ordered.
pub proof fn lemma_sph_roots_ordered(s: Sphere, r: Ray)
    requires
        sph_disc(s, r) > 0,
        sph_a(s, r) > 0,
    ensures
        sph_t0(s, r) <= sph_t1(s, r),
{
    let b = sph_b(s, r);
    let sq = fx_sqrt_spec(sph_disc(s, r));
    crate::fixed::lemma_isqrt(sph_disc(s, r) * SCALE as int);
    assert((-b - sq) * SCALE <= (-b + sq) * SCALE) by (nonlinear_arith)
        requires sq >= 0;
    lemma_tdiv_mono((-b - sq) * SCALE, (-b + sq) * SCALE, sph_a(s, r));
}

/// Shrinking the far end of the window keeps a hit exactly when the
/// hit was closer than the new end, and never creates one.
pub proof fn lemma_sphere_hit_shrink(s: Sphere, r: Ray, tmin: int, t_big: int, t_small: int)
    requires
        t_small <= t_big,
        -0x8000000000000000 <= tmin,
        t_big <= 0x7fffffffffffffff,
    ensures
        match sphere_hit_spec(s, r, tmin, t_big) {
            Some(h) => sphere_hit_spec(s, r, tmin, t_small) == if h.t < t_small {
                Some(h)
            } else {
                None::<Hit>
            },
            None => sphere_hit_spec(s, r, tmin, t_small) is None,
        },
{
    if sph_disc(s, r) > 0 && sph_a(s, r) > 0 {
        lemma_sph_roots_ordered(s, r);
    }
}

/// A sphere hit's parameter lies strictly inside the window.
pub proof fn lemma_sphere_hit_in_window(s: Sphere, r: Ray, tmin: int, tmax: int)
    requires
        -0x8000000000000000 <= tmin,
        tmax <= 0x7fffffffffffffff,
    ensures
        match sphere_hit_spec(s, r, tmin, tmax) {
            Some(h) => tmin < h.t < tmax,
            None => true,
        },
{
}

impl Primitive for Sphere {
    open spec fn wf(&self) -> bool {
        sphere_wf(*self)
    }

    open spec fn hit_spec(&self, r: Ray, tmin: int, tmax: int) -> Option<Hit> {
        sphere_hit_spec(*self, r, tmin, tmax)
    }

    fn intersect(&self, r: &Ray, t_min: i64, t_max: i64) -> (res: Option<Hit>) {
        let oc = r.origin.sub(&self.center);
        proof {
            lemma_dot_bound(r.dir, r.dir, DIR_MAX as int, DIR_MAX as int);
            lemma_dot_bound(oc, r.dir, 0x8000000, DIR_MAX as int);
            lemma_dot_bound(oc, oc, 0x8000000, 0x8000000);
            lemma_fx_mul_in(self.radius as int, self.radius as int, COORD_MAX as int,
                COORD_MAX as int);
        }
        let a = dot(&r.dir, &r.dir);
        let b = dot(&oc, &r.dir);
        let c = dot(&oc, &oc) - fx_mul(self.radius, self.radius);
        proof {
            lemma_fx_mul_in(b as int, b as int, 0x4000000000, 0x4000000000);
            lemma_fx_mul_in(a as int, c as int, 0x1000000000, 0x20000000000);
        }
        let discriminant = fx_mul(b, b) - fx_mul(a, c);

        if discriminant > 0 && a > 0 {
            let sq = fx_sqrt(discriminant);
            proof {
                assert(sq * sq <= discriminant * SCALE < 0x80000000000000000000)
                    by (nonlinear_arith)
                    requires
                        crate::fixed::is_isqrt(discriminant as int * SCALE as int, sq as int),
                        0 < discriminant < 0x8000000000000000,
                        SCALE == 0x10000;
                assert(sq < 0x10000000000) by (nonlinear_arith)
                    requires
                        sq >= 0,
                        sq * sq < 0x80000000000000000000int;
                lemma_fx_div_in(-b - sq, a as int, 0x20000000000);
                lemma_fx_div_in(-b + sq, a as int, 0x20000000000);
            }
            let mut temp = fx_div(-b - sq, a);
            if !(temp < t_max && temp > t_min) {
                temp = fx_div(-b + sq, a);
                if !(temp < t_max && temp > t_min) {
                    return None;
                }
            }
            proof {
                lemma_sphere_fit_hit(*self, *r, temp as int);
            }
            let p = r.at(temp);
            return Some(
                Hit {
                    t: temp,
                    p,
                    normal: Vec3 {
                        x: fx_div(p.x - self.center.x, self.radius),
                        y: fx_div(p.y - self.center.y, self.radius),
                        z: fx_div(p.z - self.center.z, self.radius),
                    },
                    material: self.material,
                },
            );
        }
        None
    }
}

/// At an accepted parameter the hit-record arithmetic stays in range.
proof fn lemma_sphere_fit_hit(s: Sphere, r: Ray, t: int)
    requires
        sphere_wf(s),
        ray_wf(r),
        absi(t) <= COORD_MAX as int,
    ensures
        absi(fx_mul_spec(r.dir.x as int, t)) <= 0x100000000000,
        absi(fx_mul_spec(r.dir.y as int, t)) <= 0x100000000000,
        absi(fx_mul_spec(r.dir.z as int, t)) <= 0x100000000000,
        fx_div_fits_point(s, ray_at_spec(r, t)),
{
    lemma_fx_mul_in(r.dir.x as int, t, DIR_MAX as int, COORD_MAX as int);
    lemma_fx_mul_in(r.dir.y as int, t, DIR_MAX as int, COORD_MAX as int);
    lemma_fx_mul_in(r.dir.z as int, t, DIR_MAX as int, COORD_MAX as int);
    let p = ray_at_spec(r, t);
    lemma_fx_div_in(p.x - s.center.x, s.radius as int, 0x200000000000);
    lemma_fx_div_in(p.y - s.center.y, s.radius as int, 0x200000000000);
    lemma_fx_div_in(p.z - s.center.z, s.radius as int, 0x200000000000);
}

/// The normal's divisions at point `p` are representable.
pub open spec fn fx_div_fits_point(s: Sphere, p: Vec3) -> bool {
    &&& crate::fixed::fx_div_fits(p.x - s.center.x, s.radius as int)
    &&& crate::fixed::fx_div_fits(p.y - s.center.y, s.radius as int)
    &&& crate::fixed::fx_div_fits(p.z - s.center.z, s.radius as int)
}

impl BoundedPrimitive for Sphere {
    open spec fn bbox_spec(&self) -> BBox {
        BBox {
            lower: Vec3 {
                x: (self.center.x - self.radius) as i64,
                y: (self.center.y - self.radius) as i64,
                z: (self.center.z - self.radius) as i64,
            },
            higher: Vec3 {
                x: (self.center.x + self.radius) as i64,
                y: (self.center.y + self.radius) as i64,
                z: (self.center.z + self.radius) as i64,
            },
        }
    }

    /// The axis-aligned cube of side `2 * radius` around the centre.
    fn bbox(&self) -> (b: BBox) {
        BBox {
            lower: Vec3 {
                x: self.center.x - self.radius,
                y: self.center.y - self.radius,
                z: self.center.z - self.radius,
            },
            higher: Vec3 {
                x: self.center.x + self.radius,
                y: self.center.y + self.radius,
                z: self.center.z + self.radius,
            },
        }
    }
}

/// An unbounded plane through `origin` with the given normal.
#[derive(Clone, Copy, Debug, PartialEq, Eq, Structural)]
pub struct InfinitePlane {
    pub origin: Vec3,
    pub normal: Vec3,
    pub material: usize,
}

/// Origin in coordinate range; the normal is direction-like.
pub open spec fn plane_wf(p: InfinitePlane) -> bool {
    vec_bounded(p.origin, COORD_MAX as int) && vec_bounded(p.normal, NORMAL_MAX as int)
}

/// The parameter where the ray meets the plane.
pub open spec fn plane_t(p: InfinitePlane, r: Ray) -> int {
    fx_div_spec(dot_spec(sub_spec(p.origin, r.origin), p.normal), dot_spec(p.normal, r.dir))
}

/// The plane intersection strictly inside `(tmin, tmax)`: nothing for
/// a ray parallel to the plane, else the single crossing if it lies
/// inside the window.
pub open spec fn plane_hit_spec(p: InfinitePlane, r: Ray, tmin: int, tmax: int) -> Option<Hit> {
    if dot_spec(p.normal, r.dir) == 0 {
        None
    } else {
        let t = plane_t(p, r);
        if tmin < t < tmax {
            Some(Hit { t: t as i64, p: ray_at_spec(r, t), normal: p.normal, material: p.material })
        } else {
            None
        }
    }
}

/// The shrink property of `lemma_sphere_hit_shrink`, for planes.
pub proof fn lemma_plane_hit_shrink(p: InfinitePlane, r: Ray, tmin: int, t_big: int, t_small: int)
    requires
        t_small <= t_big,
        -0x8000000000000000 <= tmin,
        t_big <= 0x7fffffffffffffff,
    ensures
        match plane_hit_spec(p, r, tmin, t_big) {
            Some(h) => plane_hit_spec(p, r, tmin, t_small) == if h.t < t_small {
                Some(h)
            } else {
                None::<Hit>
            },
            None => plane_hit_spec(p, r, tmin, t_small) is None,
        },
{
}

impl Primitive for InfinitePlane {
    open spec fn wf(&self) -> bool {
        plane_wf(*self)
    }

    open spec fn hit_spec(&self, r: Ray, tmin: int, tmax: int) -> Option<Hit> {
        plane_hit_spec(*self, r, tmin, tmax)
    }

    fn intersect(&self, r: &Ray, t_min: i64, t_max: i64) -> (res: Option<Hit>) {
        proof {
            lemma_dot_bound(self.normal, r.dir, NORMAL_MAX as int, DIR_MAX as int);
            lemma_dot_bound(
                sub_spec(self.origin, r.origin),
                self.normal,
                0x8000000,
                NORMAL_MAX as int,
            );
        }
        let denomi = dot(&self.normal, &r.dir);
        if denomi == 0 {
            // Ray is parallel to the plane.
            return None;
        }
        let po = self.origin.sub(&r.origin);
        let num = dot(&po, &self.normal);
        proof {
            lemma_fx_div_in(num as int, denomi as int, 0x100000000000);
        }
        let t = fx_div(num, denomi);
        if t < t_max && t > t_min {
            proof {
                lemma_fx_mul_in(r.dir.x as int, t as int, DIR_MAX as int, COORD_MAX as int);
                lemma_fx_mul_in(r.dir.y as int, t as int, DIR_MAX as int, COORD_MAX as int);
                lemma_fx_mul_in(r.dir.z as int, t as int, DIR_MAX as int, COORD_MAX as int);
            }
            Some(Hit { t, p: r.at(t), normal: self.normal, material: self.material })
        } else {
            None
        }
    }
}

/// The window a running scan still searches: up to the closest hit
/// found so far, or the full window end.
pub open spec fn scan_window(acc: Option<Hit>, tmax: int) -> int {
    match acc {
        Some(h) => h.t as int,
        None => tmax,
    }
}

/// A linear scan over spheres: intersect each with the window
/// narrowed to the closest hit so far, keeping any closer hit.
pub open spec fn scan_spheres_spec(
    s: Seq<Sphere>,
    r: Ray,
    tmin: int,
    tmax: int,
    acc: Option<Hit>,
) -> Option<Hit>
    decreases s.len(),
{
    if s.len() == 0 {
        acc
    } else {
        let first = sphere_hit_spec(s[0], r, tmin, scan_window(acc, tmax));
        scan_spheres_spec(
            s.drop_first(),
            r,
            tmin,
            tmax,
            if first is Some {
                first
            } else {
                acc
            },
        )
    }
}

/// A linear scan over planes, continuing to narrow the same window.
pub open spec fn scan_planes_spec(
    s: Seq<InfinitePlane>,
    r: Ray,
    tmin: int,
    tmax: int,
    acc: Option<Hit>,
) -> Option<Hit>
    decreases s.len(),
{
    if s.len() == 0 {
        acc
    } else {
        let first = plane_hit_spec(s[0], r, tmin, scan_window(acc, tmax));
        scan_planes_spec(
            s.drop_first(),
            r,
            tmin,
            tmax,
            if first is Some {
                first
            } else {
                acc
            },
        )
    }
}

/// What the aggregate's linear scan returns: all bounded primitives,
/// then all unbounded ones, with the shrinking window.
pub open spec fn list_hit_spec(
    spheres: Seq<Sphere>,
    planes: Seq<InfinitePlane>,
    r: Ray,
    tmin: int,
    tmax: int,
) -> Option<Hit> {
    scan_planes_spec(planes, r, tmin, tmax, scan_spheres_spec(spheres, r, tmin, tmax, None))
}

/// `res` is a correct answer for "closest hit among these spheres and
/// planes in the window": nothing exactly when nothing is hit, else a
/// hit of one of them with the least parameter among all their hits.
pub open spec fn aggregate_agrees(
    spheres: Seq<Sphere>,
    planes: Seq<InfinitePlane>,
    r: Ray,
    tmin: int,
    tmax: int,
    res: Option<Hit>,
) -> bool {
    match res {
        None => {
            &&& forall|i: int|
                0 <= i < spheres.len() ==> sphere_hit_spec(
                    #[trigger] spheres[i],
                    r,
                    tmin,
                    tmax,
                ) is None
            &&& forall|j: int|
                0 <= j < planes.len() ==> plane_hit_spec(#[trigger] planes[j], r, tmin, tmax) is None
        },
        Some(h) => {
            &&& tmin < h.t < tmax
            &&& (exists|i: int|
                0 <= i < spheres.len() && sphere_hit_spec(#[trigger] spheres[i], r, tmin, tmax)
                    == Some(h)) || (exists|j: int|
                0 <= j < planes.len() && plane_hit_spec(#[trigger] planes[j], r, tmin, tmax)
                    == Some(h))
            &&& forall|i: int|
                0 <= i < spheres.len() ==> match sphere_hit_spec(
                    #[trigger] spheres[i],
                    r,
                    tmin,
                    tmax,
                ) {
                    Some(hi) => h.t <= hi.t,
                    None => true,
                }
            &&& forall|j: int|
                0 <= j < planes.len() ==> match plane_hit_spec(#[trigger] planes[j], r, tmin, tmax) {
                    Some(hj) => h.t <= hj.t,
                    None => true,
                }
        },
    }
}

/// The sphere scan computes a closest hit: whatever it returns beats
/// every sphere's full-window hit, and is itself such a hit (or the
/// hit it started from).
pub proof fn lemma_scan_spheres_agrees(s: Seq<Sphere>, r: Ray, tmin: int, tmax: int, acc: Option<
    Hit>)
    requires
        -0x8000000000000000 <= tmin,
        tmax <= 0x7fffffffffffffff,
        acc is Some ==> tmin < acc.unwrap().t <= tmax,
    ensures
        ({
            let res = scan_spheres_spec(s, r, tmin, tmax, acc);
            &&& res is None ==> acc is None && (forall|i: int|
                0 <= i < s.len() ==> sphere_hit_spec(#[trigger] s[i], r, tmin, tmax) is None)
            &&& res is Some ==> {
                let h = res.unwrap();
                &&& tmin < h.t <= tmax
                &&& acc == Some(h) || (exists|i: int|
                    0 <= i < s.len() && sphere_hit_spec(#[trigger] s[i], r, tmin, tmax) == Some(h))
                &&& acc is Some ==> h.t <= acc.unwrap().t
                &&& forall|i: int|
                    0 <= i < s.len() ==> match sphere_hit_spec(#[trigger] s[i], r, tmin, tmax) {
                        Some(hi) => h.t <= hi.t,
                        None => true,
                    }
            }
        }),
    decreases s.len(),
{
    if s.len() == 0 {
    } else {
        let w = scan_window(acc, tmax);
        let first = sphere_hit_spec(s[0], r, tmin, w);
        let full = sphere_hit_spec(s[0], r, tmin, tmax);
        lemma_sphere_hit_shrink(s[0], r, tmin, tmax, w);
        lemma_sphere_hit_in_window(s[0], r, tmin, tmax);
        let acc2 = if first is Some {
            first
        } else {
            acc
        };
        lemma_scan_spheres_agrees(s.drop_first(), r, tmin, tmax, acc2);
        let res = scan_spheres_spec(s, r, tmin, tmax, acc);
        assert(res == scan_spheres_spec(s.drop_first(), r, tmin, tmax, acc2));
        assert forall|i: int| 1 <= i < s.len() implies s[i] == s.drop_first()[i - 1] by {}
        if res is Some {
            let h = res.unwrap();
            if acc2 == Some(h) && first is Some {
                assert(sphere_hit_spec(s[0], r, tmin, tmax) == Some(h));
            }
            match full {
                Some(hf) => {
                    assert(h.t <= hf.t);
                },
                None => {},
            }
        }
    }
}

/// The plane scan computes a closest hit, in the same sense.
proof fn lemma_scan_planes_agrees(
    s: Seq<InfinitePlane>,
    r: Ray,
    tmin: int,
    tmax: int,
    acc: Option<Hit>,
)
    requires
        -0x8000000000000000 <= tmin,
        tmax <= 0x7fffffffffffffff,
        acc is Some ==> tmin < acc.unwrap().t <= tmax,
    ensures
        ({
            let res = scan_planes_spec(s, r, tmin, tmax, acc);
            &&& res is None ==> acc is None && (forall|i: int|
                0 <= i < s.len() ==> plane_hit_spec(#[trigger] s[i], r, tmin, tmax) is None)
            &&& res is Some ==> {
                let h = res.unwrap();
                &&& tmin < h.t <= tmax
                &&& acc == Some(h) || (exists|i: int|
                    0 <= i < s.len() && plane_hit_spec(#[trigger] s[i], r, tmin, tmax) == Some(h))
                &&& acc is Some ==> h.t <= acc.unwrap().t
                &&& forall|i: int|
                    0 <= i < s.len() ==> match plane_hit_spec(#[trigger] s[i], r, tmin, tmax) {
                        Some(hi) => h.t <= hi.t,
                        None => true,
                    }
            }
        }),
    decreases s.len(),
{
    if s.len() == 0 {
    } else {
        let w = scan_window(acc, tmax);
        let first = plane_hit_spec(s[0], r, tmin, w);
        let full = plane_hit_spec(s[0], r, tmin, tmax);
        lemma_plane_hit_shrink(s[0], r, tmin, tmax, w);
        let acc2 = if first is Some {
            first
        } else {
            acc
        };
        lemma_scan_planes_agrees(s.drop_first(), r, tmin, tmax, acc2);
        let res = scan_planes_spec(s, r, tmin, tmax, acc);
        assert forall|i: int| 1 <= i < s.len() implies s[i] == s.drop_first()[i - 1] by {}
        if res is Some {
            let h = res.unwrap();
            if acc2 == Some(h) && first is Some {
                assert(plane_hit_spec(s[0], r, tmin, tmax) == Some(h));
            }
            match full {
                Some(hf) => {
                    assert(h.t <= hf.t);
                },
                None => {},
            }
        }
    }
}

/// The aggregate's linear scan returns the closest hit over all its
/// primitives, bounded and unbounded together, or nothing when no
/// primitive is hit in the window.
pub proof fn lemma_list_hit_agrees(
    spheres: Seq<Sphere>,
    planes: Seq<InfinitePlane>,
    r: Ray,
    tmin: int,
    tmax: int,
)
    requires
        -0x8000000000000000 <= tmin,
        tmax <= 0x7fffffffffffffff,
    ensures
        aggregate_agrees(
            spheres,
            planes,
            r,
            tmin,
            tmax,
            list_hit_spec(spheres, planes, r, tmin, tmax),
        ),
{
    let mid = scan_spheres_spec(spheres, r, tmin, tmax, None);
    lemma_scan_spheres_agrees(spheres, r, tmin, tmax, None);
    lemma_scan_planes_agrees(planes, r, tmin, tmax, mid);
    let res = list_hit_spec(spheres, planes, r, tmin, tmax);
    if res is Some {
        let h = res.unwrap();
        if exists|j: int|
            0 <= j < planes.len() && plane_hit_spec(#[trigger] planes[j], r, tmin, tmax)
                == Some(h) {
        } else {
            assert(mid == Some(h));
            let i = choose|i: int|
                0 <= i < spheres.len() && sphere_hit_spec(#[trigger] spheres[i], r, tmin, tmax)
                    == Some(h);
            lemma_sphere_hit_in_window(spheres[i], r, tmin, tmax);
        }
    }
}

/// Linear scan over spheres with the shrinking window.
fn scan_spheres(spheres: &Vec<Sphere>, r: &Ray, t_min: i64, t_max: i64, acc: Option<Hit>) -> (res:
    Option<Hit>)
    requires
        forall|i: int| 0 <= i < spheres@.len() ==> sphere_wf(#[trigger] spheres@[i]),
        ray_wf(*r),
        absi(t_min as int) <= COORD_MAX as int,
        absi(t_max as int) <= COORD_MAX as int,
        acc is Some ==> t_min < acc.unwrap().t < t_max,
    ensures
        res == scan_spheres_spec(spheres@, *r, t_min as int, t_max as int, acc),
        res is Some ==> t_min < res.unwrap().t < t_max,
{
    let ghost whole = scan_spheres_spec(spheres@, *r, t_min as int, t_max as int, acc);
    proof {
        assert(spheres@.skip(0) =~= spheres@);
    }
    let mut the_hit = acc;
    let mut i: usize = 0;
    while i < spheres.len()
        invariant
            0 <= i <= spheres@.len(),
            forall|k: int| 0 <= k < spheres@.len() ==> sphere_wf(#[trigger] spheres@[k]),
            ray_wf(*r),
            absi(t_min as int) <= COORD_MAX as int,
            absi(t_max as int) <= COORD_MAX as int,
            the_hit is Some ==> t_min < the_hit.unwrap().t < t_max,
            scan_spheres_spec(spheres@.skip(i as int), *r, t_min as int, t_max as int, the_hit)
                == whole,
        decreases spheres@.len() - i,
    {
        let closest = match the_hit {
            Some(h) => h.t,
            None => t_max,
        };
        let ghost prev = the_hit;
        let res_i = spheres[i].intersect(r, t_min, closest);
        proof {
            assert(spheres@.skip(i as int)[0] == spheres@[i as int]);
            assert(spheres@.skip(i as int).drop_first() =~= spheres@.skip(i as int + 1));
            lemma_sphere_hit_in_window(spheres@[i as int], *r, t_min as int, closest as int);
        }
        if res_i.is_some() {
            the_hit = res_i;
        }
        i = i + 1;
    }
    proof {
        assert(spheres@.skip(spheres@.len() as int) =~= Seq::<Sphere>::empty());
    }
    the_hit
}

/// Linear scan over planes with the shrinking window.
fn scan_planes(
    planes: &Vec<InfinitePlane>,
    r: &Ray,
    t_min: i64,
    t_max: i64,
    acc: Option<Hit>,
) -> (res: Option<Hit>)
    requires
        forall|i: int| 0 <= i < planes@.len() ==> plane_wf(#[trigger] planes@[i]),
        ray_wf(*r),
        absi(t_min as int) <= COORD_MAX as int,
        absi(t_max as int) <= COORD_MAX as int,
        acc is Some ==> t_min < acc.unwrap().t < t_max,
    ensures
        res == scan_planes_spec(planes@, *r, t_min as int, t_max as int, acc),
        res is Some ==> t_min < res.unwrap().t < t_max,
{
    let ghost whole = scan_planes_spec(planes@, *r, t_min as int, t_max as int, acc);
    proof {
        assert(planes@.skip(0) =~= planes@);
    }
    let mut the_hit = acc;
    let mut i: usize = 0;
    while i < planes.len()
        invariant
            0 <= i <= planes@.len(),
            forall|k: int| 0 <= k < planes@.len() ==> plane_wf(#[trigger] planes@[k]),
            ray_wf(*r),
            absi(t_min as int) <= COORD_MAX as int,
            absi(t_max as int) <= COORD_MAX as int,
            the_hit is Some ==> t_min < the_hit.unwrap().t < t_max,
            scan_planes_spec(planes@.skip(i as int), *r, t_min as int, t_max as int, the_hit)
                == whole,
        decreases planes@.len() - i,
    {
        let closest = match the_hit {
            Some(h) => h.t,
            None => t_max,
        };
        let res_i = planes[i].intersect(r, t_min, closest);
        proof {
            assert(planes@.skip(i as int)[0] == planes@[i as int]);
            assert(planes@.skip(i as int).drop_first() =~= planes@.skip(i as int + 1));
        }
        if res_i.is_some() {
            the_hit = res_i;
        }
        i = i + 1;
    }
    proof {
        assert(planes@.skip(planes@.len() as int) =~= Seq::<InfinitePlane>::empty());
    }
    the_hit
}

/// The aggregate of a scene's primitives: the bounded ones (backing
/// both the flat list and the BVH built over them) and the unbounded
/// ones, which no spatial structure can prune.
pub struct PrimitiveList {
    pub bounded: Vec<Sphere>,
    pub unbounded: Vec<InfinitePlane>,
    pub bvh_tree: crate::bvh::BvhNode,
}

/// All primitives well formed, at least one bounded primitive, and
/// the BVH spanning exactly the bounded collection.
pub open spec fn list_wf(l: PrimitiveList) -> bool {
    &&& l.bounded@.len() >= 1
    &&& forall|i: int| 0 <= i < l.bounded@.len() ==> sphere_wf(#[trigger] l.bounded@[i])
    &&& forall|i: int| 0 <= i < l.unbounded@.len() ==> plane_wf(#[trigger] l.unbounded@[i])
    &&& crate::bvh::bvh_wf(l.bvh_tree)
    &&& crate::bvh::bvh_prims(l.bvh_tree).to_multiset() == l.bounded@.to_multiset()
}

/// The union of the boxes of the first `i` bounded primitives,
/// seeded, as construction is, with the first primitive's box.
pub open spec fn bbox_fold(s: Seq<Sphere>, i: int) -> BBox
    decreases i,
{
    if i <= 0 {
        s[0].bbox_spec()
    } else {
        bbox_union_spec(bbox_fold(s, i - 1), s[i - 1].bbox_spec())
    }
}

impl PrimitiveList {
    /// Make the aggregate: keep both collections and build the BVH
    /// over a copy of the bounded one.
    pub fn new(bounded: Vec<Sphere>, unbounded: Vec<InfinitePlane>) -> (l: PrimitiveList)
        requires
            bounded@.len() >= 1,
            forall|i: int| 0 <= i < bounded@.len() ==> sphere_wf(#[trigger] bounded@[i]),
            forall|i: int| 0 <= i < unbounded@.len() ==> plane_wf(#[trigger] unbounded@[i]),
        ensures
            list_wf(l),
            l.bounded == bounded,
            l.unbounded == unbounded,
    {
        let mut for_tree: Vec<Sphere> = Vec::new();
        let mut i: usize = 0;
        while i < bounded.len()
            invariant
                0 <= i <= bounded@.len(),
                for_tree@ == bounded@.take(i as int),
            decreases bounded@.len() - i,
        {
            for_tree.push(bounded[i]);
            proof {
                assert(for_tree@ =~= bounded@.take(i as int + 1));
            }
            i = i + 1;
        }
        proof {
            assert(for_tree@ =~= bounded@);
        }
        let tree = crate::bvh::BvhNode::new(for_tree);
        PrimitiveList { bounded, unbounded, bvh_tree: tree }
    }

    /// Intersection through the BVH: traverse the tree over the
    /// bounded primitives, then scan the unbounded ones with the
    /// narrowed window.
    pub fn intersect_bvh(&self, r: &Ray, t_min: i64, t_max: i64) -> (res: Option<Hit>)
        requires
            list_wf(*self),
            ray_wf(*r),
            absi(t_min as int) <= COORD_MAX as int,
            absi(t_max as int) <= COORD_MAX as int,
        ensures
            res == scan_planes_spec(
                self.unbounded@,
                *r,
                t_min as int,
                t_max as int,
                crate::bvh::bvh_hit_spec(self.bvh_tree, *r, t_min as int, t_max as int),
            ),
    {
        let first = self.bvh_tree.intersect(r, t_min, t_max);
        proof {
            lemma_bvh_hit_in_window(self.bvh_tree, *r, t_min as int, t_max as int);
        }
        scan_planes(&self.unbounded, r, t_min, t_max, first)
    }
}

/// A hit the traversal returns lies strictly inside the window.
pub proof fn lemma_bvh_hit_in_window(n: crate::bvh::BvhNode, r: Ray, tmin: int, tmax: int)
    requires
        -0x8000000000000000 <= tmin,
        tmax <= 0x7fffffffffffffff,
    ensures
        match crate::bvh::bvh_hit_spec(n, r, tmin, tmax) {
            Some(h) => tmin < h.t < tmax,
            None => true,
        },
    decreases n,
{
    if crate::primitive_traits::bbox_hit_spec(n.bounding_box, r, tmin, tmax) {
        match n.data {
            crate::bvh::BvhData::Leaf(s) => {
                lemma_sphere_hit_in_window(s, r, tmin, tmax);
            },
            crate::bvh::BvhData::Branch(l, rt) => {
                lemma_bvh_hit_in_window(*l, r, tmin, tmax);
                lemma_bvh_hit_in_window(*rt, r, tmin, tmax);
            },
        }
    }
}

impl Primitive for PrimitiveList {
    open spec fn wf(&self) -> bool {
        list_wf(*self)
    }

    open spec fn hit_spec(&self, r: Ray, tmin: int, tmax: int) -> Option<Hit> {
        list_hit_spec(self.bounded@, self.unbounded@, r, tmin, tmax)
    }

    /// The ground-truth path: a linear scan over every bounded
    /// primitive, then every unbounded one, narrowing the window to
    /// the closest hit found so far.
    fn intersect(&self, r: &Ray, t_min: i64, t_max: i64) -> (res: Option<Hit>) {
        let mid = scan_spheres(&self.bounded, r, t_min, t_max, None);
        scan_planes(&self.unbounded, r, t_min, t_max, mid)
    }
}

impl BoundedPrimitive for PrimitiveList {
    open spec fn bbox_spec(&self) -> BBox {
        bbox_fold(self.bounded@, self.bounded@.len() as int)
    }

    /// The union of every bounded primitive's box.
    fn bbox(&self) -> (b: BBox) {
        let mut bb = self.bounded[0].bbox();
        let mut i: usize = 0;
        while i < self.bounded.len()
            invariant
                list_wf(*self),
                0 <= i <= self.bounded@.len(),
                bb == bbox_fold(self.bounded@, i as int),
                bbox_wf(bb),
            decreases self.bounded@.len() - i,
        {
            let other = self.bounded[i].bbox();
            bb = bb.union(&other);
            i = i + 1;
        }
        bb
    }
}

} // verus!
