//! The camera: produces a ray for normalised screen coordinates,
//! with an optional thin-lens aperture for depth of field.

use vstd::prelude::*;
use crate::fixed::{fx_mul_spec, lemma_fx_mul_in, SCALE};
use crate::ray::{ray_wf, Ray};
use crate::vec3::{
    add_spec, cross, cross_spec, lemma_unit_bounded, norm_sq_spec, scale_spec, sub_spec, unit_spec,
    vec_bounded, Vec3,
};

verus! {

/// Largest magnitude of a camera position component (value 8).
pub const CAM_POS_MAX: i64 = 524288;

/// Largest focus distance (value 8).
pub const CAM_FOCUS_MAX: i64 = 524288;

pub struct Camera {
    pub lower_left: Vec3,
    pub hori: Vec3,
    pub vert: Vec3,
    pub origin: Vec3,
    pub lens_radius: i64,
    pub u: Vec3,
    pub v: Vec3,
    pub w: Vec3,
}

/// Field bounds under which `ray` produces a well-formed ray.
pub open spec fn camera_wf(c: Camera) -> bool {
    &&& vec_bounded(c.lower_left, 0x800000)
    &&& vec_bounded(c.hori, 0x400000)
    &&& vec_bounded(c.vert, 0x800000)
    &&& vec_bounded(c.origin, CAM_POS_MAX as int)
    &&& 0 <= c.lens_radius <= SCALE
    &&& vec_bounded(c.u, SCALE + 4int)
    &&& vec_bounded(c.v, 0x30000)
}

/// The camera basis vector pointing away from the target.
pub open spec fn cam_w_spec(look_from: Vec3, look_at: Vec3) -> Vec3 {
    unit_spec(sub_spec(look_from, look_at))
}

/// The basis vector pointing right in the film frame.
pub open spec fn cam_u_spec(look_from: Vec3, look_at: Vec3, vup: Vec3) -> Vec3 {
    unit_spec(cross_spec(vup, cam_w_spec(look_from, look_at)))
}

/// The basis vector pointing up in the film frame.
pub open spec fn cam_v_spec(look_from: Vec3, look_at: Vec3, vup: Vec3) -> Vec3 {
    cross_spec(cam_w_spec(look_from, look_at), cam_u_spec(look_from, look_at, vup))
}

/// The ray of screen coordinates `(s, t)` for a lens-disk sample.
pub open spec fn cam_ray_spec(c: Camera, s: int, t: int, disk: Vec3) -> Ray {
    let rd = scale_spec(disk, c.lens_radius as int);
    let offset = add_spec(scale_spec(c.u, rd.x as int), scale_spec(c.v, rd.y as int));
    Ray {
        origin: add_spec(c.origin, offset),
        dir: sub_spec(
            sub_spec(
                add_spec(add_spec(c.lower_left, scale_spec(c.hori, s)), scale_spec(c.vert, t)),
                c.origin,
            ),
            offset,
        ),
    }
}

impl Camera {
    /// Set up the camera frame.  `half_width` and `half_height` are
    /// the half extents of the viewport at distance one (for a field
    /// of view `f`, the tangent of `f / 2` and its aspect-scaled
    /// mate); the viewing direction must have length at least one
    /// and `vup` must not be parallel to it.
    pub fn new(
        look_from: Vec3,
        look_at: Vec3,
        vup: Vec3,
        half_width: i64,
        half_height: i64,
        aperture: i64,
        focus_distance: i64,
    ) -> (c: Camera)
        requires
            vec_bounded(look_from, CAM_POS_MAX as int),
            vec_bounded(look_at, CAM_POS_MAX as int),
            vec_bounded(vup, 2 * SCALE),
            0 <= half_width <= 2 * SCALE,
            0 <= half_height <= 2 * SCALE,
            0 <= aperture <= 2 * SCALE,
            1 <= focus_distance <= CAM_FOCUS_MAX,
            norm_sq_spec(sub_spec(look_from, look_at)) >= 16384,
            norm_sq_spec(cross_spec(vup, cam_w_spec(look_from, look_at))) >= 16384,
        ensures
            camera_wf(c),
            c.w == cam_w_spec(look_from, look_at),
            c.u == cam_u_spec(look_from, look_at, vup),
            c.v == cam_v_spec(look_from, look_at, vup),
            c.origin == look_from,
            c.lens_radius == aperture / 2,
            c.hori == scale_spec(
                scale_spec(cam_u_spec(look_from, look_at, vup), 2 * half_width as int),
                focus_distance as int,
            ),
            c.vert == scale_spec(
                scale_spec(cam_v_spec(look_from, look_at, vup), 2 * half_height as int),
                focus_distance as int,
            ),
            c.lower_left == sub_spec(
                sub_spec(
                    sub_spec(
                        look_from,
                        scale_spec(
                            scale_spec(cam_u_spec(look_from, look_at, vup), half_width as int),
                            focus_distance as int,
                        ),
                    ),
                    scale_spec(
                        scale_spec(cam_v_spec(look_from, look_at, vup), half_height as int),
                        focus_distance as int,
                    ),
                ),
                scale_spec(cam_w_spec(look_from, look_at), focus_distance as int),
            ),
    {
        let dir = look_from.sub(&look_at);
        let w = Vec3::unit(&dir);
        proof {
            lemma_unit_bounded(sub_spec(look_from, look_at));
        }
        let uc = cross(&vup, &w);
        proof {
            lemma_cross_coarse_bounded(vup, w);
        }
        let u = Vec3::unit(&uc);
        proof {
            lemma_unit_bounded(cross_spec(vup, cam_w_spec(look_from, look_at)));
        }
        let v = cross(&w, &u);
        proof {
            lemma_cross_of_units_bounded(w, u);
            lemma_scale_chain(u, half_width as int, focus_distance as int, SCALE + 4int,
                2 * SCALE as int);
            lemma_scale_chain(u, 2 * half_width as int, focus_distance as int, SCALE + 4int,
                4 * SCALE as int);
            lemma_scale_chain(v, half_height as int, focus_distance as int, 0x30000,
                2 * SCALE as int);
            lemma_scale_chain(v, 2 * half_height as int, focus_distance as int, 0x30000,
                4 * SCALE as int);
            lemma_scale_chain(w, SCALE as int, focus_distance as int, SCALE + 4int, SCALE as int);
            lemma_fx_mul_in(w.x as int, focus_distance as int, SCALE + 4int, CAM_FOCUS_MAX as int);
            lemma_fx_mul_in(w.y as int, focus_distance as int, SCALE + 4int, CAM_FOCUS_MAX as int);
            lemma_fx_mul_in(w.z as int, focus_distance as int, SCALE + 4int, CAM_FOCUS_MAX as int);
        }
        let hw_u = u.scale(half_width).scale(focus_distance);
        let hh_v = v.scale(half_height).scale(focus_distance);
        let w_f = w.scale(focus_distance);
        let lower_left = look_from.sub(&hw_u).sub(&hh_v).sub(&w_f);
        let hori = u.scale(2 * half_width).scale(focus_distance);
        let vert = v.scale(2 * half_height).scale(focus_distance);
        Camera {
            lower_left,
            hori,
            vert,
            origin: look_from,
            lens_radius: aperture / 2,
            u,
            v,
            w,
        }
    }

    /// The ray of normalised screen coordinates `(s, t)`, its origin
    /// perturbed over the lens disk.  With a zero lens radius the ray
    /// is exact.
    #[verifier::rlimit(80)]
    pub fn ray(&self, s: i64, t: i64) -> (r: Ray)
        requires
            camera_wf(*self),
            0 <= s <= SCALE,
            0 <= t <= SCALE,
        ensures
            ray_wf(r),
            exists|disk: Vec3|
                vec_bounded(disk, SCALE as int) && norm_sq_spec(disk) < SCALE && disk.z == 0 && r
                    == cam_ray_spec(*self, s as int, t as int, disk),
            self.lens_radius == 0 ==> r == cam_ray_spec(
                *self,
                s as int,
                t as int,
                Vec3 { x: 0, y: 0, z: 0 },
            ),
    {
        let disk = Vec3::randInUnitDisk();
        proof {
            lemma_fx_mul_in(disk.x as int, self.lens_radius as int, SCALE as int, SCALE as int);
            lemma_fx_mul_in(disk.y as int, self.lens_radius as int, SCALE as int, SCALE as int);
            lemma_fx_mul_in(disk.z as int, self.lens_radius as int, SCALE as int, SCALE as int);
        }
        let rd = disk.scale(self.lens_radius);
        proof {
            lemma_fx_mul_in(self.u.x as int, rd.x as int, SCALE + 4int, 0x10000);
            lemma_fx_mul_in(self.u.y as int, rd.x as int, SCALE + 4int, 0x10000);
            lemma_fx_mul_in(self.u.z as int, rd.x as int, SCALE + 4int, 0x10000);
            lemma_fx_mul_in(self.v.x as int, rd.y as int, 0x30000, 0x10000);
            lemma_fx_mul_in(self.v.y as int, rd.y as int, 0x30000, 0x10000);
            lemma_fx_mul_in(self.v.z as int, rd.y as int, 0x30000, 0x10000);
        }
        let offset = self.u.scale(rd.x).add(&self.v.scale(rd.y));
        proof {
            lemma_fx_mul_in(self.hori.x as int, s as int, 0x400000, 0x10000);
            lemma_fx_mul_in(self.hori.y as int, s as int, 0x400000, 0x10000);
            lemma_fx_mul_in(self.hori.z as int, s as int, 0x400000, 0x10000);
            lemma_fx_mul_in(self.vert.x as int, t as int, 0x800000, 0x10000);
            lemma_fx_mul_in(self.vert.y as int, t as int, 0x800000, 0x10000);
            lemma_fx_mul_in(self.vert.z as int, t as int, 0x800000, 0x10000);
        }
        let sh = self.hori.scale(s);
        let tv = self.vert.scale(t);
        let dir = self.lower_left.add(&sh).add(&tv).sub(&self.origin).sub(&offset);
        let r = Ray { origin: self.origin.add(&offset), dir };
        proof {
            if self.lens_radius == 0 {
                lemma_zero_disk(*self, s as int, t as int, disk);
            }
            assert(vec_bounded(disk, SCALE as int) && norm_sq_spec(disk) < SCALE && disk.z == 0
                && r == cam_ray_spec(*self, s as int, t as int, disk));
        }
        r
    }
}

/// The cross product of two direction-like vectors stays far from
/// overflow.
proof fn lemma_cross_coarse_bounded(a: Vec3, b: Vec3)
    requires
        vec_bounded(a, 0x100000),
        vec_bounded(b, 0x100000),
    ensures
        vec_bounded(cross_spec(a, b), 0x40000000),
{
    lemma_fx_mul_in(a.y as int, b.z as int, 0x100000, 0x100000);
    lemma_fx_mul_in(a.z as int, b.y as int, 0x100000, 0x100000);
    lemma_fx_mul_in(a.z as int, b.x as int, 0x100000, 0x100000);
    lemma_fx_mul_in(a.x as int, b.z as int, 0x100000, 0x100000);
    lemma_fx_mul_in(a.x as int, b.y as int, 0x100000, 0x100000);
    lemma_fx_mul_in(a.y as int, b.x as int, 0x100000, 0x100000);
}

/// The cross product of two near-unit vectors is modest in size.
proof fn lemma_cross_of_units_bounded(a: Vec3, b: Vec3)
    requires
        vec_bounded(a, SCALE + 4int),
        vec_bounded(b, SCALE + 4int),
    ensures
        vec_bounded(cross_spec(a, b), 0x30000),
{
    assert((SCALE + 4int) * (SCALE + 4int) <= 0x200000000 && ((SCALE + 4int) * (SCALE + 4int))
        / 0x10000 <= 0x18000) by (nonlinear_arith)
        requires SCALE == 0x10000;
    lemma_fx_mul_in(a.y as int, b.z as int, SCALE + 4int, SCALE + 4int);
    lemma_fx_mul_in(a.z as int, b.y as int, SCALE + 4int, SCALE + 4int);
    lemma_fx_mul_in(a.z as int, b.x as int, SCALE + 4int, SCALE + 4int);
    lemma_fx_mul_in(a.x as int, b.z as int, SCALE + 4int, SCALE + 4int);
    lemma_fx_mul_in(a.x as int, b.y as int, SCALE + 4int, SCALE + 4int);
    lemma_fx_mul_in(a.y as int, b.x as int, SCALE + 4int, SCALE + 4int);
}

/// Fitting facts for scaling a basis vector by an extent and a
/// focus distance.
proof fn lemma_scale_chain(base: Vec3, ext: int, fd: int, cb: int, ce: int)
    requires
        vec_bounded(base, cb),
        crate::fixed::absi(ext) <= ce,
        0 <= fd <= CAM_FOCUS_MAX,
        0 <= cb <= 0x40000,
        0 <= ce <= 0x40000,
    ensures
        crate::fixed::fx_mul_fits(base.x as int, ext),
        crate::fixed::fx_mul_fits(base.y as int, ext),
        crate::fixed::fx_mul_fits(base.z as int, ext),
        vec_bounded(scale_spec(base, ext), (cb * ce) / 0x10000),
        crate::fixed::fx_mul_fits(fx_mul_spec(base.x as int, ext), fd),
        crate::fixed::fx_mul_fits(fx_mul_spec(base.y as int, ext), fd),
        crate::fixed::fx_mul_fits(fx_mul_spec(base.z as int, ext), fd),
        vec_bounded(
            scale_spec(scale_spec(base, ext), fd),
            (((cb * ce) / 0x10000) * CAM_FOCUS_MAX) / 0x10000,
        ),
{
    assert(0 <= cb * ce <= 0x1000000000 && cb * ce <= 0x7fffffffffffffff * 0x10000)
        by (nonlinear_arith)
        requires 0 <= cb <= 0x40000 && 0 <= ce <= 0x40000;
    lemma_fx_mul_in(base.x as int, ext, cb, ce);
    lemma_fx_mul_in(base.y as int, ext, cb, ce);
    lemma_fx_mul_in(base.z as int, ext, cb, ce);
    assert(0 <= (cb * ce) / 0x10000 <= 0x100000000) by (nonlinear_arith)
        requires 0 <= cb * ce <= 0x1000000000;
    assert(((cb * ce) / 0x10000) * CAM_FOCUS_MAX <= 0x7fffffffffffffff * 0x10000)
        by (nonlinear_arith)
        requires 0 <= (cb * ce) / 0x10000 <= 0x100000000 && CAM_FOCUS_MAX == 0x80000;
    lemma_fx_mul_in(fx_mul_spec(base.x as int, ext), fd, (cb * ce) / 0x10000,
        CAM_FOCUS_MAX as int);
    lemma_fx_mul_in(fx_mul_spec(base.y as int, ext), fd, (cb * ce) / 0x10000,
        CAM_FOCUS_MAX as int);
    lemma_fx_mul_in(fx_mul_spec(base.z as int, ext), fd, (cb * ce) / 0x10000,
        CAM_FOCUS_MAX as int);
}

/// With a zero lens radius the disk sample does not move the ray.
proof fn lemma_zero_disk(c: Camera, s: int, t: int, disk: Vec3)
    requires
        c.lens_radius == 0,
    ensures
        cam_ray_spec(c, s, t, disk) == cam_ray_spec(c, s, t, Vec3 { x: 0, y: 0, z: 0 }),
{
    assert(disk.x as int * 0 == 0) by (nonlinear_arith);
    assert(disk.y as int * 0 == 0) by (nonlinear_arith);
    assert(disk.z as int * 0 == 0) by (nonlinear_arith);
    assert(c.u.x as int * 0 == 0 && c.u.y as int * 0 == 0 && c.u.z as int * 0 == 0)
        by (nonlinear_arith);
    assert(c.v.x as int * 0 == 0 && c.v.y as int * 0 == 0 && c.v.z as int * 0 == 0)
        by (nonlinear_arith);
}

} // verus!
