//! Material scattering: diffuse, metallic, dielectric, and absorbing
//! behaviours, each mapping an incoming ray and a hit to an outgoing
//! ray and an attenuation colour, or to absorption.

use vstd::prelude::*;
use crate::fixed::{
    absi, fx_div, fx_div_spec, fx_mul, fx_mul_spec, fx_sqrt, fx_sqrt_spec, lemma_fx_div_in,
    lemma_fx_mul_in, lemma_tdiv_bound, DIR_MAX, NORMAL_MAX, SCALE,
};
use crate::ray::{hit_wf, ray_wf, Hit, Ray};
use crate::rng::rand_unit;
use crate::texture::{color_wf, AnyTexture, Constant, Texture};
use crate::vec3::{
    add_spec, dot, dot_spec, lemma_dot_bound, norm_sq_spec, norm_spec, scale_spec, sub_spec,
    unit_spec, vec_bounded, Color, Vec3,
};

verus! {

/// The mirror reflection of `v` about `n`: `v - 2 (v . n) n`.
pub open spec fn reflect_spec(v: Vec3, n: Vec3) -> Vec3 {
    sub_spec(v, scale_spec(n, 2 * dot_spec(v, n)))
}

/// Mirror reflection about a surface normal.
pub fn reflect(v_in: &Vec3, normal: &Vec3) -> (r: Vec3)
    requires
        vec_bounded(*v_in, DIR_MAX as int),
        vec_bounded(*normal, NORMAL_MAX as int),
    ensures
        r == reflect_spec(*v_in, *normal),
        vec_bounded(r, 0x80000000),
{
    proof {
        lemma_dot_bound(*v_in, *normal, DIR_MAX as int, NORMAL_MAX as int);
        lemma_fx_mul_in(normal.x as int, 2 * dot_spec(*v_in, *normal), NORMAL_MAX as int,
            0x20000000);
        lemma_fx_mul_in(normal.y as int, 2 * dot_spec(*v_in, *normal), NORMAL_MAX as int,
            0x20000000);
        lemma_fx_mul_in(normal.z as int, 2 * dot_spec(*v_in, *normal), NORMAL_MAX as int,
            0x20000000);
    }
    let d = dot(v_in, normal);
    let twice = normal.scale(2 * d);
    v_in.sub(&twice)
}

/// The refraction discriminant: negative or zero under total internal
/// reflection.
pub open spec fn refract_disc_spec(v: Vec3, n: Vec3, ni_over_nt: int) -> int {
    let uv = unit_spec(v);
    let dt = dot_spec(uv, n);
    SCALE - fx_mul_spec(
        fx_mul_spec(ni_over_nt, ni_over_nt),
        SCALE - fx_mul_spec(dt, dt),
    )
}

/// Snell's-law refraction of `v` through a surface with normal `n`
/// and relative index ratio `ni_over_nt`: nothing under total
/// internal reflection, and nothing for a direction too degenerate to
/// normalise.
pub open spec fn refract_spec(v: Vec3, n: Vec3, ni_over_nt: int) -> Option<Vec3> {
    let uv = unit_spec(v);
    if !vec_bounded(uv, 2 * SCALE) {
        None
    } else {
        let dt = dot_spec(uv, n);
        let disc = refract_disc_spec(v, n, ni_over_nt);
        if disc > 0 {
            Some(
                sub_spec(
                    scale_spec(sub_spec(uv, scale_spec(n, dt)), ni_over_nt),
                    scale_spec(n, fx_sqrt_spec(disc)),
                ),
            )
        } else {
            None
        }
    }
}

/// Snell's-law refraction; `None` signals total internal reflection
/// (or a degenerate incoming direction).
pub fn refract(v_in: &Vec3, normal: &Vec3, ni_over_nt: i64) -> (res: Option<Vec3>)
    requires
        vec_bounded(*v_in, 0x40000000),
        vec_bounded(*normal, NORMAL_MAX as int),
        0 < ni_over_nt <= 4 * SCALE,
    ensures
        res == refract_spec(*v_in, *normal, ni_over_nt as int),
        res is Some ==> vec_bounded(res.unwrap(), DIR_MAX as int),
{
    let uv = Vec3::unit(v_in);
    if uv.x > 2 * SCALE || uv.x < -2 * SCALE || uv.y > 2 * SCALE || uv.y < -2 * SCALE || uv.z > 2
        * SCALE || uv.z < -2 * SCALE {
        return None;
    }
    proof {
        lemma_dot_bound(uv, *normal, 2 * SCALE as int, NORMAL_MAX as int);
        lemma_fx_mul_in(dot_spec(uv, *normal), dot_spec(uv, *normal), 0x100000, 0x100000);
        lemma_fx_mul_in(ni_over_nt as int, ni_over_nt as int, 0x40000, 0x40000);
    }
    let dt = dot(&uv, normal);
    let dt2 = fx_mul(dt, dt);
    let ni2 = fx_mul(ni_over_nt, ni_over_nt);
    proof {
        lemma_fx_mul_in(ni2 as int, SCALE - dt2 as int, 0x100000, 0x2000000);
    }
    let discriminant = SCALE - fx_mul(ni2, SCALE - dt2);
    if discriminant > 0 {
        let sq = fx_sqrt(discriminant);
        proof {
            lemma_sqrt_small(discriminant as int, sq as int);
            lemma_fx_mul_in(normal.x as int, dt as int, NORMAL_MAX as int, 0x100000);
            lemma_fx_mul_in(normal.y as int, dt as int, NORMAL_MAX as int, 0x100000);
            lemma_fx_mul_in(normal.z as int, dt as int, NORMAL_MAX as int, 0x100000);
        }
        let ndt = normal.scale(dt);
        let base = uv.sub(&ndt);
        proof {
            lemma_fx_mul_in(base.x as int, ni_over_nt as int, 0x400000, 0x40000);
            lemma_fx_mul_in(base.y as int, ni_over_nt as int, 0x400000, 0x40000);
            lemma_fx_mul_in(base.z as int, ni_over_nt as int, 0x400000, 0x40000);
            lemma_fx_mul_in(normal.x as int, sq as int, NORMAL_MAX as int, 0x800000);
            lemma_fx_mul_in(normal.y as int, sq as int, NORMAL_MAX as int, 0x800000);
            lemma_fx_mul_in(normal.z as int, sq as int, NORMAL_MAX as int, 0x800000);
        }
        let scaled = base.scale(ni_over_nt);
        let nsq = normal.scale(sq);
        Some(scaled.sub(&nsq))
    } else {
        None
    }
}

/// A square root of a small number is small.
proof fn lemma_sqrt_small(x: int, sq: int)
    requires
        0 <= x <= 0x40000000,
        sq == fx_sqrt_spec(x),
    ensures
        0 <= sq <= 0x800000,
{
    crate::fixed::lemma_isqrt(x * SCALE);
    assert(sq <= 0x800000) by (nonlinear_arith)
        requires
            sq * sq <= x * (SCALE as int),
            0 <= x <= 0x40000000,
            SCALE == 0x10000,
            sq >= 0;
}

/// The base reflectance of the Schlick approximation:
/// `(1 - n) / (1 + n)`.
pub open spec fn schlick_r0(ref_idx: int) -> int {
    fx_div_spec(SCALE - ref_idx, SCALE + ref_idx)
}

/// The fifth power of `x`, as the scattering arithmetic computes it.
pub open spec fn fx_pow5_spec(x: int) -> int {
    let x2 = fx_mul_spec(x, x);
    let x4 = fx_mul_spec(x2, x2);
    fx_mul_spec(x4, x)
}

/// The Schlick approximation of Fresnel reflectance:
/// `r0^2 + (1 - r0^2) (1 - cos)^5`.
pub open spec fn schlick_spec(cos: int, ref_idx: int) -> int {
    let r0 = schlick_r0(ref_idx);
    let r02 = fx_mul_spec(r0, r0);
    r02 + fx_mul_spec(SCALE - r02, fx_pow5_spec(SCALE - cos))
}

/// Schlick's reflectance, used as a reflection probability.
pub fn schlick(cos: i64, ref_idx: i64) -> (r: i64)
    requires
        -2 * SCALE <= cos <= 2 * SCALE,
        0 < ref_idx <= 4 * SCALE,
    ensures
        r == schlick_spec(cos as int, ref_idx as int),
{
    proof {
        lemma_abs_r0(ref_idx as int);
    }
    let r0 = fx_div(SCALE - ref_idx, SCALE + ref_idx);
    proof {
        lemma_fx_mul_in(r0 as int, r0 as int, 0x30000, 0x30000);
        lemma_fx_mul_in(SCALE - cos as int, SCALE - cos as int, 0x30000, 0x30000);
    }
    let r02 = fx_mul(r0, r0);
    let x = SCALE - cos;
    let x2 = fx_mul(x, x);
    proof {
        lemma_fx_mul_in(x2 as int, x2 as int, 0x90000, 0x90000);
        lemma_fx_mul_in(fx_mul_spec(x2 as int, x2 as int), x as int, 0x510000, 0x30000);
        lemma_fx_mul_in(
            SCALE - fx_mul_spec(r0 as int, r0 as int),
            fx_pow5_spec(SCALE - cos as int),
            0xa0000,
            0x10000000,
        );
    }
    let x4 = fx_mul(x2, x2);
    let x5 = fx_mul(x4, x);
    r02 + fx_mul(SCALE - r02, x5)
}

/// The Schlick base term is small and its divisions representable.
proof fn lemma_abs_r0(ref_idx: int)
    requires
        0 < ref_idx <= 4 * SCALE,
    ensures
        crate::fixed::fx_div_fits(SCALE - ref_idx, SCALE + ref_idx),
        absi(schlick_r0(ref_idx)) <= 3 * SCALE,
{
    lemma_fx_div_in(SCALE - ref_idx, SCALE + ref_idx, 3 * SCALE as int);
    crate::fixed::lemma_abs_mul(SCALE - ref_idx, SCALE as int, 3 * SCALE as int, SCALE as int);
    lemma_tdiv_bound((SCALE - ref_idx) * SCALE, SCALE + ref_idx, 3 * SCALE * SCALE);
    assert((3 * (SCALE as int) * (SCALE as int)) / (SCALE + ref_idx) <= 3 * SCALE)
        by (nonlinear_arith)
        requires 0 < ref_idx && SCALE == 0x10000;
}

/// At head-on incidence (`cos == 1`) the `(1 - cos)^5` term vanishes
/// and Schlick's reflectance is exactly the squared base term
/// `((1 - n) / (1 + n))^2`.
pub proof fn lemma_schlick_at_normal_incidence(ref_idx: int)
    requires
        0 < ref_idx <= 4 * SCALE,
    ensures
        schlick_spec(SCALE as int, ref_idx) == fx_mul_spec(schlick_r0(ref_idx), schlick_r0(ref_idx)),
{
    lemma_fx_mul_zero(0);
    assert(fx_pow5_spec(0) == 0);
    lemma_fx_mul_zero(SCALE - fx_mul_spec(schlick_r0(ref_idx), schlick_r0(ref_idx)));
}

/// Anything times zero is zero, through the fixed-point product.
proof fn lemma_fx_mul_zero(a: int)
    ensures
        fx_mul_spec(a, 0) == 0,
        fx_mul_spec(0, a) == 0,
{
    assert(a * 0 == 0) by (nonlinear_arith);
    assert(0 * a == 0) by (nonlinear_arith);
}

/// At head-on incidence the refraction discriminant is exactly one:
/// a ray meeting the surface along the normal always refracts, for
/// every index ratio; total internal reflection cannot occur there.
pub proof fn lemma_refract_at_normal_incidence(v: Vec3, n: Vec3, ni_over_nt: int)
    requires
        dot_spec(unit_spec(v), n) == SCALE || dot_spec(unit_spec(v), n) == -SCALE,
        vec_bounded(unit_spec(v), 2 * SCALE),
    ensures
        refract_disc_spec(v, n, ni_over_nt) == SCALE,
        refract_spec(v, n, ni_over_nt) is Some,
{
    let dt = dot_spec(unit_spec(v), n);
    assert(dt * dt == (SCALE as int) * (SCALE as int)) by (nonlinear_arith)
        requires dt == SCALE as int || dt == -(SCALE as int);
    assert(fx_mul_spec(dt, dt) == SCALE);
    lemma_fx_mul_zero(fx_mul_spec(ni_over_nt, ni_over_nt));
}

/// The diffuse scattering law: never absorbs; the outgoing ray
/// starts at the hit point in the direction of the normal plus a
/// point inside the unit sphere, attenuated by the given colour.
pub open spec fn diffuse_scatter_ok(albedo: Color, hit: Hit, res: Option<(Ray, Vec3)>) -> bool {
    match res {
        Some((sc, att)) => {
            &&& sc.origin == hit.p
            &&& ray_wf(sc)
            &&& att == albedo
            &&& color_wf(att)
            &&& exists|q: Vec3|
                vec_bounded(q, SCALE as int) && norm_sq_spec(q) < SCALE && sc.dir == add_spec(
                    hit.normal,
                    q,
                )
        },
        None => false,
    }
}

/// The metallic scattering law.  A scattered ray starts at the hit
/// point along the roughness-perturbed mirror reflection and leaves
/// the surface; absorption happens only for a direction too
/// degenerate to normalise, or because the drawn perturbation pushed
/// the reflection into the surface (so it cannot happen at all when
/// no admissible perturbation points inward).  With zero roughness
/// the outcome is the exact mirror reflection, deterministically.
pub open spec fn metal_scatter_ok(m: Metal, r_in: Ray, hit: Hit, res: Option<(Ray, Vec3)>) -> bool {
    let refl = reflect_spec(unit_spec(r_in.dir), hit.normal);
    &&& match res {
        Some((sc, att)) => {
            &&& sc.origin == hit.p
            &&& att == m.albedo
            &&& color_wf(att)
            &&& ray_wf(sc)
            &&& dot_spec(sc.dir, hit.normal) > 0
            &&& exists|q: Vec3|
                vec_bounded(q, SCALE as int) && norm_sq_spec(q) < SCALE && sc.dir == add_spec(
                    scale_spec(q, m.roughness as int),
                    refl,
                )
        },
        None => !vec_bounded(unit_spec(r_in.dir), 2 * SCALE) || (exists|q: Vec3|
            vec_bounded(q, SCALE as int) && norm_sq_spec(q) < SCALE && dot_spec(
                add_spec(scale_spec(q, m.roughness as int), refl),
                hit.normal,
            ) <= 0),
    }
    &&& (m.roughness == 0 && vec_bounded(unit_spec(r_in.dir), 2 * SCALE)) ==> res == (
    if dot_spec(refl, hit.normal) > 0 {
        Some((Ray { origin: hit.p, dir: refl }, m.albedo))
    } else {
        None::<(Ray, Vec3)>
    })
}

/// The dielectric scattering law: only a direction of rounded length
/// zero is absorbed; otherwise the ray leaves the hit point with
/// neutral attenuation, either mirrored or refracted, and must be
/// mirrored under total internal reflection.
pub open spec fn glass_scatter_ok(g: Glass, r_in: Ray, hit: Hit, res: Option<(Ray, Vec3)>) -> bool {
    &&& (norm_spec(r_in.dir) == 0 <==> res is None)
    &&& match res {
        Some((sc, att)) => {
            &&& sc.origin == hit.p
            &&& att == (Vec3 { x: SCALE, y: SCALE, z: SCALE })
            &&& {
                let refr = refract_spec(
                    r_in.dir,
                    glass_ref_normal(r_in, hit),
                    glass_ni_over_nt(g, r_in, hit),
                );
                &&& (sc.dir == reflect_spec(r_in.dir, hit.normal) || refr == Some(sc.dir))
                &&& (refr is None ==> sc.dir == reflect_spec(r_in.dir, hit.normal))
            }
        },
        None => true,
    }
}

/// Polymorphic scattering behaviour: produce an outgoing ray starting
/// at the hit point and an attenuation colour, or absorb the ray.
pub trait Material: Sized {
    /// The well-formedness `scatter` relies on.
    spec fn wf(&self) -> bool;

    /// Scatter the incoming ray at the hit: an outgoing ray starting
    /// at the hit point with an attenuation colour, or absorption.
    fn scatter(&self, r_in: &Ray, hit: &Hit) -> (res: Option<(Ray, Vec3)>)
        requires
            self.wf(),
            ray_wf(*r_in),
            hit_wf(*hit),
        ensures
            res is Some ==> res.unwrap().0.origin == hit.p && color_wf(res.unwrap().1),
    ;
}

/// A diffuse surface: scatter toward the normal perturbed by a random
/// point in the unit sphere, attenuated by the surface texture.
pub struct Lambertian {
    pub albedo: AnyTexture,
}

impl Lambertian {
    /// Diffuse scattering never absorbs; the outgoing direction is
    /// the normal plus a random point inside the unit sphere.
    pub fn scatter_diffuse(&self, r_in: &Ray, hit: &Hit) -> (res: (Ray, Vec3))
        requires
            self.albedo.wf(),
            hit_wf(*hit),
        ensures
            res.0.origin == hit.p,
            ray_wf(res.0),
            res.1 == self.albedo.value_spec(0, 0, hit.p),
            color_wf(res.1),
            exists|q: Vec3|
                vec_bounded(q, SCALE as int) && norm_sq_spec(q) < SCALE && res.0.dir == add_spec(
                    hit.normal,
                    q,
                ),
    {
        let q = Vec3::randInUnitSphere();
        let dir = hit.normal.add(&q);
        let att = self.albedo.value(0, 0, &hit.p);
        proof {
            assert(vec_bounded(q, SCALE as int) && norm_sq_spec(q) < SCALE && dir == add_spec(
                hit.normal,
                q,
            ));
        }
        (Ray { origin: hit.p, dir }, att)
    }
}

impl Material for Lambertian {
    open spec fn wf(&self) -> bool {
        self.albedo.wf()
    }

    fn scatter(&self, r_in: &Ray, hit: &Hit) -> (res: Option<(Ray, Vec3)>)
        ensures
            diffuse_scatter_ok(self.albedo.value_spec(0, 0, hit.p), *hit, res),
    {
        Some(self.scatter_diffuse(r_in, hit))
    }
}

/// A diffuse surface with a colour drawn at random when it is made.
pub struct LambertianRandomColor {
    pub albedo: Constant,
}

impl LambertianRandomColor {
    /// A random colour with every channel in `[0.1, 0.7]`.
    pub fn randomColor() -> (c: Color)
        ensures
            color_wf(c),
            6554 <= c.x <= 45876 && 6554 <= c.y <= 45876 && 6554 <= c.z <= 45876,
    {
        Color { x: rand_channel(), y: rand_channel(), z: rand_channel() }
    }

    /// A diffuse material whose colour is drawn once, here, and then
    /// fixed for the material's lifetime.
    pub fn new() -> (m: LambertianRandomColor)
        ensures
            m.albedo.wf(),
            6554 <= m.albedo.color.x <= 45876 && 6554 <= m.albedo.color.y <= 45876 && 6554
                <= m.albedo.color.z <= 45876,
    {
        LambertianRandomColor { albedo: Constant::new(Self::randomColor()) }
    }
}

/// A random channel value in `[0.1, 0.7)`.
fn rand_channel() -> (c: i64)
    ensures
        6554 <= c <= 45876,
{
    let r = rand_unit();
    proof {
        lemma_fx_mul_in(r as int, 39322, 0x10000, 39322);
        lemma_tdiv_bound(r as int * 39322, SCALE as int, 0x10000int * 39322);
    }
    fx_mul(r, 39322) + 6554
}

impl Material for LambertianRandomColor {
    open spec fn wf(&self) -> bool {
        self.albedo.wf()
    }

    fn scatter(&self, r_in: &Ray, hit: &Hit) -> (res: Option<(Ray, Vec3)>)
        ensures
            diffuse_scatter_ok(self.albedo.color, *hit, res),
    {
        let q = Vec3::randInUnitSphere();
        let dir = hit.normal.add(&q);
        let att = self.albedo.value(0, 0, &hit.p);
        proof {
            assert(vec_bounded(q, SCALE as int) && norm_sq_spec(q) < SCALE && dir == add_spec(
                hit.normal,
                q,
            ));
        }
        Some((Ray { origin: hit.p, dir }, att))
    }
}

/// A reflective surface with an optional roughness perturbation.
pub struct Metal {
    pub albedo: Vec3,
    pub roughness: i64,
}

/// A metal's colour is a colour and its roughness lies in `[0, 1]`.
pub open spec fn metal_wf(m: Metal) -> bool {
    color_wf(m.albedo) && 0 <= m.roughness <= SCALE
}

impl Metal {
    /// Metallic scattering: mirror reflection of the normalised
    /// incoming direction, perturbed by roughness; rays whose
    /// perturbed reflection would point into the surface are
    /// absorbed, as are directions too degenerate to normalise.
    /// With zero roughness the behaviour is exact mirror reflection.
    pub fn scatter_metal(&self, r_in: &Ray, hit: &Hit) -> (res: Option<(Ray, Vec3)>)
        requires
            metal_wf(*self),
            ray_wf(*r_in),
            hit_wf(*hit),
        ensures
            metal_scatter_ok(*self, *r_in, *hit, res),
    {
        let u = Vec3::unit(&r_in.dir);
        if u.x > 2 * SCALE || u.x < -2 * SCALE || u.y > 2 * SCALE || u.y < -2 * SCALE || u.z > 2
            * SCALE || u.z < -2 * SCALE {
            return None;
        }
        let reflected = reflect(&u, &hit.normal);
        proof {
            lemma_reflect_of_unit_bounded(unit_spec(r_in.dir), hit.normal);
        }
        let q = Vec3::randInUnitSphere();
        proof {
            lemma_fx_mul_in(q.x as int, self.roughness as int, 0x10000, 0x10000);
            lemma_fx_mul_in(q.y as int, self.roughness as int, 0x10000, 0x10000);
            lemma_fx_mul_in(q.z as int, self.roughness as int, 0x10000, 0x10000);
        }
        let fuzz = q.scale(self.roughness);
        let dir = fuzz.add(&reflected);
        proof {
            lemma_dot_bound(dir, hit.normal, 0x1000000, NORMAL_MAX as int);
            if self.roughness == 0 {
                lemma_fx_mul_zero(q.x as int);
                lemma_fx_mul_zero(q.y as int);
                lemma_fx_mul_zero(q.z as int);
                assert(fuzz.x == 0 && fuzz.y == 0 && fuzz.z == 0);
                assert(dir == reflect_spec(unit_spec(r_in.dir), hit.normal));
            }
        }
        let scattered = Ray { origin: hit.p, dir };
        if dot(&dir, &hit.normal) > 0 {
            Some((scattered, self.albedo))
        } else {
            proof {
                assert(vec_bounded(q, SCALE as int) && norm_sq_spec(q) < SCALE && dot_spec(
                    add_spec(
                        scale_spec(q, self.roughness as int),
                        reflect_spec(unit_spec(r_in.dir), hit.normal),
                    ),
                    hit.normal,
                ) <= 0);
            }
            None
        }
    }
}

/// The reflection of a direction-like vector is modest in size.
proof fn lemma_reflect_of_unit_bounded(u: Vec3, n: Vec3)
    requires
        vec_bounded(u, 2 * SCALE),
        vec_bounded(n, NORMAL_MAX as int),
    ensures
        vec_bounded(reflect_spec(u, n), 0x800000),
{
    lemma_dot_bound(u, n, 2 * SCALE as int, NORMAL_MAX as int);
    lemma_fx_mul_in(n.x as int, 2 * dot_spec(u, n), NORMAL_MAX as int, 0x200000);
    lemma_fx_mul_in(n.y as int, 2 * dot_spec(u, n), NORMAL_MAX as int, 0x200000);
    lemma_fx_mul_in(n.z as int, 2 * dot_spec(u, n), NORMAL_MAX as int, 0x200000);
}

impl Material for Metal {
    open spec fn wf(&self) -> bool {
        metal_wf(*self)
    }

    fn scatter(&self, r_in: &Ray, hit: &Hit) -> (res: Option<(Ray, Vec3)>)
        ensures
            metal_scatter_ok(*self, *r_in, *hit, res),
    {
        self.scatter_metal(r_in, hit)
    }
}

/// A clear dielectric (glass) with a refractive index.
pub struct Glass {
    pub ref_index: i64,
}

/// Glass is denser than vacuum and no denser than index 4.
pub open spec fn glass_wf(g: Glass) -> bool {
    SCALE <= g.ref_index <= 4 * SCALE
}

/// The possibly flipped normal refraction works against: flipped when
/// the ray leaves the medium.
pub open spec fn glass_ref_normal(r: Ray, hit: Hit) -> Vec3 {
    if dot_spec(r.dir, hit.normal) > 0 {
        Vec3 { x: (-hit.normal.x) as i64, y: (-hit.normal.y) as i64, z: (-hit.normal.z) as i64 }
    } else {
        hit.normal
    }
}

/// The relative index ratio for the crossing direction.
pub open spec fn glass_ni_over_nt(g: Glass, r: Ray, hit: Hit) -> int {
    if dot_spec(r.dir, hit.normal) > 0 {
        g.ref_index as int
    } else {
        fx_div_spec(SCALE as int, g.ref_index as int)
    }
}

impl Glass {
    /// Dielectric scattering: choose the crossing direction from the
    /// sign of the incoming direction against the normal, attempt
    /// refraction, and where refraction is possible choose between
    /// reflection and refraction with Schlick's reflectance as the
    /// probability.  Attenuation is always neutral white.  Only a
    /// direction of rounded length zero is absorbed (a degenerate
    /// input).
    pub fn scatter_glass(&self, r_in: &Ray, hit: &Hit) -> (res: Option<(Ray, Vec3)>)
        requires
            glass_wf(*self),
            ray_wf(*r_in),
            hit_wf(*hit),
        ensures
            glass_scatter_ok(*self, *r_in, *hit, res),
    {
        let attenuation = Vec3 { x: SCALE, y: SCALE, z: SCALE };
        proof {
            lemma_dot_bound(r_in.dir, hit.normal, DIR_MAX as int, NORMAL_MAX as int);
        }
        let d_dot_n = dot(&r_in.dir, &hit.normal);
        let nrm = r_in.dir.norm();
        if nrm == 0 {
            return None;
        }
        let ref_normal: Vec3;
        let ni_over_nt: i64;
        let cos_raw: i64;
        if d_dot_n > 0 {
            ref_normal = hit.normal.neg();
            ni_over_nt = self.ref_index;
            proof {
                lemma_fx_mul_in(self.ref_index as int, d_dot_n as int, 0x40000, 0x10000000);
                lemma_fx_div_in(
                    fx_mul_spec(self.ref_index as int, d_dot_n as int),
                    nrm as int,
                    0x40000000000,
                );
            }
            cos_raw = fx_div(fx_mul(self.ref_index, d_dot_n), nrm);
        } else {
            ref_normal = hit.normal;
            proof {
                lemma_fx_div_in(SCALE as int, self.ref_index as int, 0x10000);
                lemma_glass_ratio_positive(self.ref_index as int);
                lemma_fx_div_in(-d_dot_n as int, nrm as int, 0x10000000);
            }
            ni_over_nt = fx_div(SCALE, self.ref_index);
            cos_raw = fx_div(-d_dot_n, nrm);
        }
        let cos = if cos_raw > 2 * SCALE {
            2 * SCALE
        } else if cos_raw < -2 * SCALE {
            -2 * SCALE
        } else {
            cos_raw
        };
        let reflect_prob = schlick(cos, self.ref_index);
        if let Some(refracted) = refract(&r_in.dir, &ref_normal, ni_over_nt) {
            if rand_unit() < reflect_prob {
                let reflected = reflect(&r_in.dir, &hit.normal);
                Some((Ray { origin: hit.p, dir: reflected }, attenuation))
            } else {
                Some((Ray { origin: hit.p, dir: refracted }, attenuation))
            }
        } else {
            let reflected = reflect(&r_in.dir, &hit.normal);
            Some((Ray { origin: hit.p, dir: reflected }, attenuation))
        }
    }
}

/// The inverse of a glass index is a positive fraction.
proof fn lemma_glass_ratio_positive(ref_idx: int)
    requires
        SCALE <= ref_idx <= 4 * SCALE,
    ensures
        0 < fx_div_spec(SCALE as int, ref_idx) <= SCALE,
{
    assert(0 < (SCALE as int * SCALE as int) / ref_idx <= SCALE) by (nonlinear_arith)
        requires SCALE == 0x10000 && SCALE <= ref_idx <= 4 * SCALE;
}

impl Material for Glass {
    open spec fn wf(&self) -> bool {
        glass_wf(*self)
    }

    fn scatter(&self, r_in: &Ray, hit: &Hit) -> (res: Option<(Ray, Vec3)>)
        ensures
            glass_scatter_ok(*self, *r_in, *hit, res),
    {
        self.scatter_glass(r_in, hit)
    }
}

/// A material that absorbs every ray.
pub struct Null {}

impl Material for Null {
    open spec fn wf(&self) -> bool {
        true
    }

    fn scatter(&self, r_in: &Ray, hit: &Hit) -> (res: Option<(Ray, Vec3)>)
        ensures
            res is None,
    {
        None
    }
}

/// Any material a scene's table can hold.
pub enum AnyMaterial {
    Lambertian(Lambertian),
    LambertianRandomColor(LambertianRandomColor),
    Metal(Metal),
    Glass(Glass),
    Null(Null),
}

/// Well-formedness of whichever material this is.
pub open spec fn any_material_wf(m: AnyMaterial) -> bool {
    match m {
        AnyMaterial::Lambertian(x) => x.wf(),
        AnyMaterial::LambertianRandomColor(x) => x.wf(),
        AnyMaterial::Metal(x) => x.wf(),
        AnyMaterial::Glass(x) => x.wf(),
        AnyMaterial::Null(x) => x.wf(),
    }
}

/// The scattering law of whichever material this is: what `res` may
/// be for the incoming ray and hit.
pub open spec fn scatter_law(m: AnyMaterial, r_in: Ray, hit: Hit, res: Option<(Ray, Vec3)>) -> bool {
    match m {
        AnyMaterial::Lambertian(x) => diffuse_scatter_ok(x.albedo.value_spec(0, 0, hit.p), hit, res),
        AnyMaterial::LambertianRandomColor(x) => diffuse_scatter_ok(x.albedo.color, hit, res),
        AnyMaterial::Metal(x) => metal_scatter_ok(x, r_in, hit, res),
        AnyMaterial::Glass(x) => glass_scatter_ok(x, r_in, hit, res),
        AnyMaterial::Null(_) => res is None,
    }
}

impl AnyMaterial {
    /// Dispatch to the held material's scattering rule.
    pub fn scatter(&self, r_in: &Ray, hit: &Hit) -> (res: Option<(Ray, Vec3)>)
        requires
            any_material_wf(*self),
            ray_wf(*r_in),
            hit_wf(*hit),
        ensures
            res is Some ==> res.unwrap().0.origin == hit.p && color_wf(res.unwrap().1),
            scatter_law(*self, *r_in, *hit, res),
    {
        match self {
            AnyMaterial::Lambertian(x) => x.scatter(r_in, hit),
            AnyMaterial::LambertianRandomColor(x) => x.scatter(r_in, hit),
            AnyMaterial::Metal(x) => x.scatter(r_in, hit),
            AnyMaterial::Glass(x) => x.scatter(r_in, hit),
            AnyMaterial::Null(x) => x.scatter(r_in, hit),
        }
    }
}

} // verus!
