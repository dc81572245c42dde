//! Rays and hit records.

use vstd::prelude::*;
use crate::fixed::{absi, fx_mul_spec, COORD_MAX, DIR_MAX, NORMAL_MAX};
use crate::vec3::{add_spec, scale_spec, vec_bounded, Vec3};

verus! {

/// A ray `origin + dir * t`.
#[derive(Clone, Copy, Debug, PartialEq, Eq, Structural)]
pub struct Ray {
    pub origin: Vec3,
    pub dir: Vec3,
}

/// The result of a successful ray/primitive intersection: distance
/// along the ray, world position, surface normal and the index of the
/// material in the scene's material table.
#[derive(Clone, Copy, Debug, PartialEq, Eq, Structural)]
pub struct Hit {
    pub t: i64,
    pub p: Vec3,
    pub normal: Vec3,
    pub material: usize,
}

/// A ray whose components are small enough for the intersection
/// arithmetic: coordinates of at most `COORD_MAX`, direction
/// components of at most `DIR_MAX`.
pub open spec fn ray_wf(r: Ray) -> bool {
    vec_bounded(r.origin, COORD_MAX as int) && vec_bounded(r.dir, DIR_MAX as int)
}

/// The point a ray reaches at parameter `t`.
pub open spec fn ray_at_spec(r: Ray, t: int) -> Vec3 {
    add_spec(r.origin, scale_spec(r.dir, t))
}

/// A hit record whose position is in coordinate range and whose
/// normal is direction-like.  Extremely thin spheres or near-parallel
/// rays can round to records outside these bounds; the integrator
/// treats such a record as a degenerate no-result.
pub open spec fn hit_wf(h: Hit) -> bool {
    vec_bounded(h.p, COORD_MAX as int) && vec_bounded(h.normal, NORMAL_MAX as int)
}

impl Ray {
    /// The point the ray reaches at parameter `t`.
    pub fn at(&self, t: i64) -> (p: Vec3)
        requires
            vec_bounded(self.origin, 0x3fffffffffffffff),
            absi(fx_mul_spec(self.dir.x as int, t as int)) <= 0x3fffffffffffffff,
            absi(fx_mul_spec(self.dir.y as int, t as int)) <= 0x3fffffffffffffff,
            absi(fx_mul_spec(self.dir.z as int, t as int)) <= 0x3fffffffffffffff,
        ensures
            p == ray_at_spec(*self, t as int),
    {
        let d = self.dir.scale(t);
        self.origin.add(&d)
    }
}

} // verus!
