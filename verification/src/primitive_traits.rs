//! Axis-aligned bounding boxes and the primitive capabilities.

use vstd::prelude::*;
use crate::fixed::{absi, fx_div, fx_div_spec, lemma_fx_div_in, COORD_MAX};
use crate::ray::{ray_wf, Hit, Ray};
use crate::vec3::{axis_spec, vec_bounded, Vec3};

verus! {

/// Largest magnitude of a bounding-box corner component: a box may
/// reach one `COORD_MAX` beyond the farthest scene coordinate.
pub const BOX_MAX: i64 = 134217728;

/// Sentinel standing for an unbounded slab endpoint; larger than any
/// parameter value the slab arithmetic can produce.
pub const T_INF: i64 = 0x4000000000000000;

/// An axis-aligned box given by its two extreme corners.
#[derive(Clone, Copy, Debug, PartialEq, Eq, Structural)]
pub struct BBox {
    pub lower: Vec3,
    pub higher: Vec3,
}

/// The lower corner is below the higher corner on every axis, and the
/// corners are in coordinate range.
pub open spec fn bbox_wf(b: BBox) -> bool {
    &&& b.lower.x <= b.higher.x
    &&& b.lower.y <= b.higher.y
    &&& b.lower.z <= b.higher.z
    &&& vec_bounded(b.lower, BOX_MAX as int)
    &&& vec_bounded(b.higher, BOX_MAX as int)
}

pub open spec fn maxi(a: int, b: int) -> int {
    if a >= b {
        a
    } else {
        b
    }
}

pub open spec fn mini(a: int, b: int) -> int {
    if a <= b {
        a
    } else {
        b
    }
}

/// Entry parameter of the slab of axis `i`: where the ray crosses into
/// the two planes' gap, or a sentinel when the ray runs parallel to
/// the slab (then the slab is everything or nothing).
pub open spec fn axis_lo(b: BBox, r: Ray, i: int) -> int {
    let d = axis_spec(r.dir, i);
    let o = axis_spec(r.origin, i);
    let lo = axis_spec(b.lower, i);
    let hi = axis_spec(b.higher, i);
    if d == 0 {
        if lo <= o <= hi {
            -(T_INF as int)
        } else {
            T_INF as int
        }
    } else {
        mini(fx_div_spec(lo - o, d), fx_div_spec(hi - o, d))
    }
}

/// Exit parameter of the slab of axis `i`; the mirror of `axis_lo`.
pub open spec fn axis_hi(b: BBox, r: Ray, i: int) -> int {
    let d = axis_spec(r.dir, i);
    let o = axis_spec(r.origin, i);
    let lo = axis_spec(b.lower, i);
    let hi = axis_spec(b.higher, i);
    if d == 0 {
        if lo <= o <= hi {
            T_INF as int
        } else {
            -(T_INF as int)
        }
    } else {
        maxi(fx_div_spec(lo - o, d), fx_div_spec(hi - o, d))
    }
}

/// The slab test from axis `i` on: narrow the window by each axis's
/// slab in turn and reject as soon as it empties.
pub open spec fn hit_from_axis(b: BBox, r: Ray, i: int, wmin: int, wmax: int) -> bool
    decreases 3 - i,
{
    if i >= 3 {
        true
    } else {
        let d = axis_spec(r.dir, i);
        if d == 0 {
            let o = axis_spec(r.origin, i);
            if axis_spec(b.lower, i) <= o <= axis_spec(b.higher, i) {
                hit_from_axis(b, r, i + 1, wmin, wmax)
            } else {
                false
            }
        } else {
            let t0 = axis_lo(b, r, i);
            let t1 = axis_hi(b, r, i);
            let nmin = maxi(wmin, t0);
            let nmax = mini(wmax, t1);
            if nmax <= nmin {
                false
            } else {
                hit_from_axis(b, r, i + 1, nmin, nmax)
            }
        }
    }
}

/// Whether the ray segment over `[tmin, tmax]` passes through the
/// box: an empty query window is rejected outright, else each axis's
/// slab narrows the window in turn.
pub open spec fn bbox_hit_spec(b: BBox, r: Ray, tmin: int, tmax: int) -> bool {
    tmin < tmax && hit_from_axis(b, r, 0, tmin, tmax)
}

/// The brute-force form of the slab test: intersect the three axis
/// intervals, computed independently, with the window, and ask whether
/// anything is left.
pub open spec fn slab_brute_spec(b: BBox, r: Ray, tmin: int, tmax: int) -> bool {
    let l = maxi(maxi(axis_lo(b, r, 0), axis_lo(b, r, 1)), maxi(axis_lo(b, r, 2), tmin));
    let h = mini(mini(axis_hi(b, r, 0), axis_hi(b, r, 1)), mini(axis_hi(b, r, 2), tmax));
    l < h
}

/// The componentwise union of two boxes.
pub open spec fn bbox_union_spec(a: BBox, o: BBox) -> BBox {
    BBox {
        lower: Vec3 {
            x: mini(a.lower.x as int, o.lower.x as int) as i64,
            y: mini(a.lower.y as int, o.lower.y as int) as i64,
            z: mini(a.lower.z as int, o.lower.z as int) as i64,
        },
        higher: Vec3 {
            x: maxi(a.higher.x as int, o.higher.x as int) as i64,
            y: maxi(a.higher.y as int, o.higher.y as int) as i64,
            z: maxi(a.higher.z as int, o.higher.z as int) as i64,
        },
    }
}

impl BBox {
    /// Slab test: whether the ray segment over `[tmin, tmax]` passes
    /// through the box.  A zero direction component is the degenerate
    /// slab: it accepts exactly the rays that start between the two
    /// planes of that axis.
    pub fn hit(&self, r: &Ray, tmin: i64, tmax: i64) -> (res: bool)
        requires
            bbox_wf(*self),
            ray_wf(*r),
        ensures
            res == bbox_hit_spec(*self, *r, tmin as int, tmax as int),
    {
        if tmax <= tmin {
            return false;
        }
        let mut cur_min = tmin;
        let mut cur_max = tmax;
        let mut i: usize = 0;
        while i < 3
            invariant
                i <= 3,
                bbox_wf(*self),
                ray_wf(*r),
                hit_from_axis(*self, *r, i as int, cur_min as int, cur_max as int)
                    == bbox_hit_spec(*self, *r, tmin as int, tmax as int),
            decreases 3 - i,
        {
            let d = r.dir.axis(i);
            let o = r.origin.axis(i);
            let lo = self.lower.axis(i);
            let hi = self.higher.axis(i);
            if d == 0 {
                if !(lo <= o && o <= hi) {
                    return false;
                }
            } else {
                proof {
                    lemma_fx_div_in(lo - o as int, d as int, 0x20000000);
                    lemma_fx_div_in(hi - o as int, d as int, 0x20000000);
                }
                let mut t0 = fx_div(lo - o, d);
                let mut t1 = fx_div(hi - o, d);
                if t0 > t1 {
                    let tmp = t0;
                    t0 = t1;
                    t1 = tmp;
                }
                let nmin = if t0 > cur_min {
                    t0
                } else {
                    cur_min
                };
                let nmax = if t1 < cur_max {
                    t1
                } else {
                    cur_max
                };
                if nmax <= nmin {
                    return false;
                }
                cur_min = nmin;
                cur_max = nmax;
            }
            i = i + 1;
        }
        true
    }

    /// Union of two boxes: componentwise extremes.
    pub fn union(&self, rhs: &BBox) -> (r: BBox)
        requires
            bbox_wf(*self),
            bbox_wf(*rhs),
        ensures
            r == bbox_union_spec(*self, *rhs),
            bbox_wf(r),
    {
        BBox {
            lower: Vec3 {
                x: if self.lower.x < rhs.lower.x {
                    self.lower.x
                } else {
                    rhs.lower.x
                },
                y: if self.lower.y < rhs.lower.y {
                    self.lower.y
                } else {
                    rhs.lower.y
                },
                z: if self.lower.z < rhs.lower.z {
                    self.lower.z
                } else {
                    rhs.lower.z
                },
            },
            higher: Vec3 {
                x: if self.higher.x < rhs.higher.x {
                    rhs.higher.x
                } else {
                    self.higher.x
                },
                y: if self.higher.y < rhs.higher.y {
                    rhs.higher.y
                } else {
                    self.higher.y
                },
                z: if self.higher.z < rhs.higher.z {
                    rhs.higher.z
                } else {
                    self.higher.z
                },
            },
        }
    }
}

/// The incremental slab test of `BBox::hit` agrees with the
/// brute-force test that intersects the three per-axis intervals with
/// the window independently.  (The magnitude bounds keep the window
/// clear of the slab sentinels; they admit every parameter the ray
/// arithmetic can produce.)
pub proof fn lemma_box_hit_brute(b: BBox, r: Ray, tmin: int, tmax: int)
    requires
        bbox_wf(b),
        ray_wf(r),
        absi(tmin) < T_INF as int,
        absi(tmax) < T_INF as int,
    ensures
        bbox_hit_spec(b, r, tmin, tmax) == slab_brute_spec(b, r, tmin, tmax),
{
    if tmin < tmax {
        lemma_axis_div_bounds(b, r, 0);
        lemma_axis_div_bounds(b, r, 1);
        lemma_axis_div_bounds(b, r, 2);
        reveal_with_fuel(hit_from_axis, 5);
    }
}

/// For a non-parallel axis the slab endpoints are far from the
/// sentinels.
proof fn lemma_axis_div_bounds(b: BBox, r: Ray, i: int)
    requires
        bbox_wf(b),
        ray_wf(r),
        0 <= i < 3,
    ensures
        axis_spec(r.dir, i) != 0 ==> absi(axis_lo(b, r, i)) < T_INF as int / 2,
        axis_spec(r.dir, i) != 0 ==> absi(axis_hi(b, r, i)) < T_INF as int / 2,
{
    let d = axis_spec(r.dir, i);
    if d != 0 {
        let o = axis_spec(r.origin, i);
        let lo = axis_spec(b.lower, i);
        let hi = axis_spec(b.higher, i);
        lemma_fx_div_in(lo - o, d, 0x20000000);
        lemma_fx_div_in(hi - o, d, 0x20000000);
    }
}

/// Anything that a ray can hit.
pub trait Primitive: Sized {
    /// The well-formedness each method relies on.
    spec fn wf(&self) -> bool;

    /// What `intersect` returns.
    spec fn hit_spec(&self, r: Ray, tmin: int, tmax: int) -> Option<Hit>;

    /// The closest intersection of the ray with this primitive whose
    /// parameter lies strictly inside `(t_min, t_max)`, if any.
    fn intersect(&self, r: &Ray, t_min: i64, t_max: i64) -> (res: Option<Hit>)
        requires
            self.wf(),
            ray_wf(*r),
            absi(t_min as int) <= COORD_MAX as int,
            absi(t_max as int) <= COORD_MAX as int,
        ensures
            res == self.hit_spec(*r, t_min as int, t_max as int),
    ;
}

/// A primitive of finite extent, which can report a box around itself.
pub trait BoundedPrimitive: Primitive {
    /// What `bbox` returns.
    spec fn bbox_spec(&self) -> BBox;

    /// A box containing the whole primitive.
    fn bbox(&self) -> (b: BBox)
        requires
            self.wf(),
        ensures
            b == self.bbox_spec(),
            bbox_wf(b),
    ;
}

} // verus!
