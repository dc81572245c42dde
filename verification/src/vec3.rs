//! Three-component vectors over fixed-point scalars.

#![allow(non_snake_case)]

use vstd::prelude::*;
use crate::fixed::{
    absi, fx_div, fx_div_spec, fx_mul, fx_mul_fits, fx_mul_spec, fx_sqrt, fx_sqrt_spec,
    lemma_abs_mul, lemma_fx_div_in, lemma_fx_mul_in, lemma_tdiv_bound, tdiv, SCALE,
};

verus! {

/// A point, direction or colour; each component is a fixed-point scalar.
#[derive(Clone, Copy, Debug, PartialEq, Eq, Structural)]
pub struct Vec3 {
    pub x: i64,
    pub y: i64,
    pub z: i64,
}

/// Colours are vectors whose components are the three channels.
pub type Color = Vec3;

/// Every component of `v` has magnitude at most `cap`.
pub open spec fn vec_bounded(v: Vec3, cap: int) -> bool {
    absi(v.x as int) <= cap && absi(v.y as int) <= cap && absi(v.z as int) <= cap
}

/// Component `i` of `v`, for axis indices 0, 1, 2.
pub open spec fn axis_spec(v: Vec3, i: int) -> int {
    if i == 0 {
        v.x as int
    } else if i == 1 {
        v.y as int
    } else {
        v.z as int
    }
}

/// The fixed-point dot product: the scaled-down sum of the
/// componentwise products.
pub open spec fn dot_spec(a: Vec3, b: Vec3) -> int {
    tdiv(a.x * b.x + a.y * b.y + a.z * b.z, SCALE as int)
}

/// The squared length of `v` as a fixed-point value.
pub open spec fn norm_sq_spec(v: Vec3) -> int {
    dot_spec(v, v)
}

/// The length of `v` as a fixed-point value, rounded down.
pub open spec fn norm_spec(v: Vec3) -> int {
    fx_sqrt_spec(norm_sq_spec(v))
}

/// Componentwise sum.
pub open spec fn add_spec(a: Vec3, b: Vec3) -> Vec3 {
    Vec3 { x: (a.x + b.x) as i64, y: (a.y + b.y) as i64, z: (a.z + b.z) as i64 }
}

/// Componentwise difference.
pub open spec fn sub_spec(a: Vec3, b: Vec3) -> Vec3 {
    Vec3 { x: (a.x - b.x) as i64, y: (a.y - b.y) as i64, z: (a.z - b.z) as i64 }
}

/// The vector scaled by the fixed-point scalar `s`.
pub open spec fn scale_spec(v: Vec3, s: int) -> Vec3 {
    Vec3 {
        x: fx_mul_spec(v.x as int, s) as i64,
        y: fx_mul_spec(v.y as int, s) as i64,
        z: fx_mul_spec(v.z as int, s) as i64,
    }
}

/// Componentwise fixed-point product, used for colour attenuation.
pub open spec fn hadamard_spec(a: Vec3, b: Vec3) -> Vec3 {
    Vec3 {
        x: fx_mul_spec(a.x as int, b.x as int) as i64,
        y: fx_mul_spec(a.y as int, b.y as int) as i64,
        z: fx_mul_spec(a.z as int, b.z as int) as i64,
    }
}

/// The unit vector along `v`, or the origin when `v` is too short to
/// carry a direction (a degenerate input).
pub open spec fn unit_spec(v: Vec3) -> Vec3 {
    let n = norm_spec(v);
    if n == 0 {
        Vec3 { x: 0, y: 0, z: 0 }
    } else {
        Vec3 {
            x: fx_div_spec(v.x as int, n) as i64,
            y: fx_div_spec(v.y as int, n) as i64,
            z: fx_div_spec(v.z as int, n) as i64,
        }
    }
}

/// The fixed-point cross product.
pub open spec fn cross_spec(a: Vec3, b: Vec3) -> Vec3 {
    Vec3 {
        x: (fx_mul_spec(a.y as int, b.z as int) - fx_mul_spec(a.z as int, b.y as int)) as i64,
        y: (fx_mul_spec(a.z as int, b.x as int) - fx_mul_spec(a.x as int, b.z as int)) as i64,
        z: (fx_mul_spec(a.x as int, b.y as int) - fx_mul_spec(a.y as int, b.x as int)) as i64,
    }
}

/// Cap under which the dot and cross products neither overflow their
/// `i128` intermediates nor their `i64` result.
pub const VEC_OP_MAX: i64 = 0x4000000000;

impl Vec3 {
    pub fn new(x: i64, y: i64, z: i64) -> (v: Vec3)
        ensures
            v == (Vec3 { x, y, z }),
    {
        Vec3 { x, y, z }
    }

    pub fn origin() -> (v: Vec3)
        ensures
            v == (Vec3 { x: 0, y: 0, z: 0 }),
    {
        Vec3 { x: 0, y: 0, z: 0 }
    }

    /// Component along axis `i`.
    pub fn axis(&self, i: usize) -> (r: i64)
        requires
            i < 3,
        ensures
            r == axis_spec(*self, i as int),
    {
        if i == 0 {
            self.x
        } else if i == 1 {
            self.y
        } else {
            self.z
        }
    }

    pub fn add(&self, o: &Vec3) -> (r: Vec3)
        requires
            vec_bounded(*self, 0x3fffffffffffffff),
            vec_bounded(*o, 0x3fffffffffffffff),
        ensures
            r == add_spec(*self, *o),
            r.x == self.x + o.x && r.y == self.y + o.y && r.z == self.z + o.z,
    {
        Vec3 { x: self.x + o.x, y: self.y + o.y, z: self.z + o.z }
    }

    pub fn sub(&self, o: &Vec3) -> (r: Vec3)
        requires
            vec_bounded(*self, 0x3fffffffffffffff),
            vec_bounded(*o, 0x3fffffffffffffff),
        ensures
            r == sub_spec(*self, *o),
            r.x == self.x - o.x && r.y == self.y - o.y && r.z == self.z - o.z,
    {
        Vec3 { x: self.x - o.x, y: self.y - o.y, z: self.z - o.z }
    }

    pub fn neg(&self) -> (r: Vec3)
        requires
            vec_bounded(*self, 0x7ffffffffffffffe),
        ensures
            r.x == -self.x && r.y == -self.y && r.z == -self.z,
    {
        Vec3 { x: -self.x, y: -self.y, z: -self.z }
    }

    /// The vector scaled by the fixed-point scalar `s`.
    pub fn scale(&self, s: i64) -> (r: Vec3)
        requires
            fx_mul_fits(self.x as int, s as int),
            fx_mul_fits(self.y as int, s as int),
            fx_mul_fits(self.z as int, s as int),
        ensures
            r == scale_spec(*self, s as int),
    {
        Vec3 { x: fx_mul(self.x, s), y: fx_mul(self.y, s), z: fx_mul(self.z, s) }
    }

    /// Componentwise product, used for colour attenuation.
    pub fn hadamard(&self, o: &Vec3) -> (r: Vec3)
        requires
            fx_mul_fits(self.x as int, o.x as int),
            fx_mul_fits(self.y as int, o.y as int),
            fx_mul_fits(self.z as int, o.z as int),
        ensures
            r == hadamard_spec(*self, *o),
    {
        Vec3 { x: fx_mul(self.x, o.x), y: fx_mul(self.y, o.y), z: fx_mul(self.z, o.z) }
    }

    /// Squared length; always nonnegative.
    pub fn normSquared(&self) -> (r: i64)
        requires
            vec_bounded(*self, VEC_OP_MAX as int),
        ensures
            r == norm_sq_spec(*self),
            r >= 0,
    {
        let r = dot(self, self);
        proof {
            assert(self.x * self.x + self.y * self.y + self.z * self.z >= 0)
                by (nonlinear_arith);
            lemma_tdiv_sign(self.x * self.x + self.y * self.y + self.z * self.z);
        }
        r
    }

    /// Length, rounded down; always nonnegative.
    pub fn norm(&self) -> (r: i64)
        requires
            vec_bounded(*self, VEC_OP_MAX as int),
        ensures
            r == norm_spec(*self),
            r >= 0,
    {
        let ns = self.normSquared();
        fx_sqrt(ns)
    }

    /// A pseudo-random point strictly inside the unit sphere, found
    /// by rejection sampling over the cube `[-1, 1]^3`; after a
    /// bounded number of rejected draws the centre is used, so the
    /// sampler always terminates.
    pub fn randInUnitSphere() -> (r: Vec3)
        ensures
            vec_bounded(r, SCALE as int),
            norm_sq_spec(r) < SCALE,
    {
        let mut tries: usize = 0;
        while tries < 64
            invariant
                tries <= 64,
            decreases 64 - tries,
        {
            let p = Vec3 {
                x: crate::rng::rand_symmetric(),
                y: crate::rng::rand_symmetric(),
                z: crate::rng::rand_symmetric(),
            };
            if p.normSquared() < SCALE {
                return p;
            }
            tries = tries + 1;
        }
        Vec3::origin()
    }

    /// A pseudo-random point strictly inside the unit disk of the
    /// x/y plane, sampled like `randInUnitSphere`.
    pub fn randInUnitDisk() -> (r: Vec3)
        ensures
            vec_bounded(r, SCALE as int),
            norm_sq_spec(r) < SCALE,
            r.z == 0,
    {
        let mut tries: usize = 0;
        while tries < 64
            invariant
                tries <= 64,
            decreases 64 - tries,
        {
            let p = Vec3 { x: crate::rng::rand_symmetric(), y: crate::rng::rand_symmetric(), z: 0 };
            if p.normSquared() < SCALE {
                return p;
            }
            tries = tries + 1;
        }
        Vec3::origin()
    }

    /// The unit vector along `v`, or the origin for a degenerate `v`
    /// whose rounded length is zero.
    pub fn unit(v: &Vec3) -> (r: Vec3)
        requires
            vec_bounded(*v, 0x40000000),
        ensures
            r == unit_spec(*v),
    {
        let n = v.norm();
        if n == 0 {
            Vec3::origin()
        } else {
            proof {
                lemma_fx_div_in(v.x as int, n as int, 0x40000000);
                lemma_fx_div_in(v.y as int, n as int, 0x40000000);
                lemma_fx_div_in(v.z as int, n as int, 0x40000000);
            }
            Vec3 { x: fx_div(v.x, n), y: fx_div(v.y, n), z: fx_div(v.z, n) }
        }
    }
}

/// A nonnegative dividend has a nonnegative truncating quotient.
proof fn lemma_tdiv_sign(a: int)
    requires
        a >= 0,
    ensures
        tdiv(a, SCALE as int) >= 0,
{
    lemma_tdiv_bound(a, SCALE as int, absi(a));
}

/// Fixed-point dot product.
pub fn dot(lhs: &Vec3, rhs: &Vec3) -> (r: i64)
    requires
        vec_bounded(*lhs, VEC_OP_MAX as int),
        vec_bounded(*rhs, VEC_OP_MAX as int),
    ensures
        r == dot_spec(*lhs, *rhs),
{
    proof {
        lemma_abs_mul(lhs.x as int, rhs.x as int, 0x4000000000, 0x4000000000);
        lemma_abs_mul(lhs.y as int, rhs.y as int, 0x4000000000, 0x4000000000);
        lemma_abs_mul(lhs.z as int, rhs.z as int, 0x4000000000, 0x4000000000);
        lemma_tdiv_bound(
            lhs.x * rhs.x + lhs.y * rhs.y + lhs.z * rhs.z,
            SCALE as int,
            3int * 0x4000000000 * 0x4000000000,
        );
    }
    let p: i128 = (lhs.x as i128) * (rhs.x as i128) + (lhs.y as i128) * (rhs.y as i128)
        + (lhs.z as i128) * (rhs.z as i128);
    crate::fixed::tdiv_i128(p, SCALE as i128) as i64
}

/// Fixed-point cross product.
pub fn cross(lhs: &Vec3, rhs: &Vec3) -> (r: Vec3)
    requires
        vec_bounded(*lhs, VEC_OP_MAX as int),
        vec_bounded(*rhs, VEC_OP_MAX as int),
    ensures
        r == cross_spec(*lhs, *rhs),
        vec_bounded(r, 2int * ((0x4000000000 * 0x4000000000) / 0x10000)),
{
    proof {
        lemma_fx_mul_in(lhs.y as int, rhs.z as int, 0x4000000000, 0x4000000000);
        lemma_fx_mul_in(lhs.z as int, rhs.y as int, 0x4000000000, 0x4000000000);
        lemma_fx_mul_in(lhs.z as int, rhs.x as int, 0x4000000000, 0x4000000000);
        lemma_fx_mul_in(lhs.x as int, rhs.z as int, 0x4000000000, 0x4000000000);
        lemma_fx_mul_in(lhs.x as int, rhs.y as int, 0x4000000000, 0x4000000000);
        lemma_fx_mul_in(lhs.y as int, rhs.x as int, 0x4000000000, 0x4000000000);
    }
    Vec3 {
        x: fx_mul(lhs.y, rhs.z) - fx_mul(lhs.z, rhs.y),
        y: fx_mul(lhs.z, rhs.x) - fx_mul(lhs.x, rhs.z),
        z: fx_mul(lhs.x, rhs.y) - fx_mul(lhs.y, rhs.x),
    }
}

/// A vector of length at least one normalises to components of at
/// most one, up to rounding.
pub proof fn lemma_unit_bounded(v: Vec3)
    requires
        vec_bounded(v, 0x40000000),
        norm_sq_spec(v) >= 16384,
    ensures
        vec_bounded(unit_spec(v), SCALE + 4int),
{
    let total = v.x * v.x + v.y * v.y + v.z * v.z;
    let ns = norm_sq_spec(v);
    let n = norm_spec(v);
    crate::fixed::lemma_isqrt(ns * SCALE);
    assert(n * n <= ns * SCALE < (n + 1) * (n + 1));
    assert(ns * SCALE >= 16384 * (SCALE as int)) by (nonlinear_arith)
        requires ns >= 16384 && SCALE >= 1;
    assert(n + 1 > 32768) by (nonlinear_arith)
        requires
            (n + 1) * (n + 1) > 16384 * (SCALE as int),
            n >= 0,
            SCALE == 0x10000;
    assert(v.x * v.x >= 0 && v.y * v.y >= 0 && v.z * v.z >= 0) by (nonlinear_arith);
    assert(total >= 0);
    assert(ns == total / (SCALE as int)) by {
        assert(absi(total) == total);
        assert(absi(SCALE as int) == SCALE as int);
    }
    vstd::arithmetic::div_mod::lemma_fundamental_div_mod(total, SCALE as int);
    vstd::arithmetic::div_mod::lemma_mod_pos_bound(total, SCALE as int);
    assert(total < SCALE * ns + SCALE);
    lemma_unit_component(v.x as int, total, ns, n);
    lemma_unit_component(v.y as int, total, ns, n);
    lemma_unit_component(v.z as int, total, ns, n);
}

/// One component of the normalised vector is at most one, up to
/// rounding.
proof fn lemma_unit_component(x: int, total: int, ns: int, n: int)
    requires
        x * x <= total,
        total < SCALE * ns + SCALE,
        ns * SCALE < (n + 1) * (n + 1),
        n >= 32768,
        SCALE == 0x10000,
    ensures
        absi(fx_div_spec(x, n)) <= SCALE + 4int,
{
    assert(absi(x) <= n + 1) by (nonlinear_arith)
        requires
            x * x <= total,
            total < SCALE * ns + SCALE,
            ns * SCALE < (n + 1) * (n + 1),
            n >= 32768,
            SCALE == 0x10000;
    lemma_abs_mul(x, SCALE as int, n + 1, SCALE as int);
    lemma_tdiv_bound(x * SCALE, n, (n + 1) * SCALE);
    assert(((n + 1) * (SCALE as int)) / n <= SCALE + 4) by (nonlinear_arith)
        requires n >= 32768 && SCALE == 0x10000;
}

/// Bounded vectors have a bounded dot product.
pub proof fn lemma_dot_bound(a: Vec3, b: Vec3, ca: int, cb: int)
    requires
        vec_bounded(a, ca),
        vec_bounded(b, cb),
        ca >= 0,
        cb >= 0,
    ensures
        absi(dot_spec(a, b)) <= (3int * ca * cb) / 0x10000,
        absi(a.x * b.x + a.y * b.y + a.z * b.z) <= 3int * ca * cb,
{
    lemma_abs_mul(a.x as int, b.x as int, ca, cb);
    lemma_abs_mul(a.y as int, b.y as int, ca, cb);
    lemma_abs_mul(a.z as int, b.z as int, ca, cb);
    assert(3int * ca * cb == ca * cb + ca * cb + ca * cb) by (nonlinear_arith);
    lemma_tdiv_bound(a.x * b.x + a.y * b.y + a.z * b.z, SCALE as int, 3int * ca * cb);
}

} // verus!
