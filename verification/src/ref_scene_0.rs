//! A reference scene: three large spheres over a field of randomly
//! placed small ones, resting on an infinite ground plane.

#![allow(non_snake_case)]

use vstd::prelude::*;
use crate::fixed::{fx_mul, lemma_fx_mul_in};
use crate::primitive::{sphere_wf, InfinitePlane, PrimitiveList, Sphere};
use crate::rng::{rand_below, rand_unit};
use crate::scene::{scene_wf, Scene};
use crate::vec3::Vec3;

verus! {

/// A sphere of radius about a tenth, dropped at a random spot on the
/// ground plane with a random material.
pub fn randomSphere() -> (s: Sphere)
    ensures
        sphere_wf(s),
        s.material < 17,
{
    proof {
        lemma_rand_scale_bounds();
    }
    let x = fx_mul(rand_unit(), 655360) - 327680;
    let z = fx_mul(rand_unit(), 655360) - 393216;
    let r = fx_mul(rand_unit(), 1311) + 5898;
    Sphere { center: Vec3 { x, y: -32768 + r, z }, radius: r, material: rand_below(17) }
}

/// A smaller random sphere, for dusting the ground more finely.
pub fn randomSmallSphere() -> (s: Sphere)
    ensures
        sphere_wf(s),
        s.material < 17,
{
    proof {
        lemma_rand_scale_bounds();
    }
    let x = fx_mul(rand_unit(), 655360) - 327680;
    let z = fx_mul(rand_unit(), 655360) - 393216;
    let r = fx_mul(rand_unit(), 328) + 1311;
    Sphere { center: Vec3 { x, y: -32768 + r, z }, radius: r, material: rand_below(17) }
}

/// Products of a unit random draw with the placement extents fit.
proof fn lemma_rand_scale_bounds()
    ensures
        forall|r: int|
            0 <= r < 0x10000 ==> crate::fixed::fx_mul_fits(r, 655360) && 0 <= #[trigger]
                crate::fixed::fx_mul_spec(r, 655360) <= 655360,
        forall|r: int|
            0 <= r < 0x10000 ==> crate::fixed::fx_mul_fits(r, 1311) && 0 <= #[trigger]
                crate::fixed::fx_mul_spec(r, 1311) <= 1311,
        forall|r: int|
            0 <= r < 0x10000 ==> crate::fixed::fx_mul_fits(r, 328) && 0 <= #[trigger]
                crate::fixed::fx_mul_spec(r, 328) <= 328,
{
    assert forall|r: int| 0 <= r < 0x10000 implies crate::fixed::fx_mul_fits(r, 655360) && 0
        <= #[trigger] crate::fixed::fx_mul_spec(r, 655360) <= 655360 by {
        lemma_fx_mul_in(r, 655360, 0x10000, 655360);
        crate::fixed::lemma_tdiv_bound(655360 * r, 0x10000, 0x10000 * 655360int);
        assert(r * 655360 >= 0) by (nonlinear_arith)
            requires r >= 0;
    }
    assert forall|r: int| 0 <= r < 0x10000 implies crate::fixed::fx_mul_fits(r, 1311) && 0
        <= #[trigger] crate::fixed::fx_mul_spec(r, 1311) <= 1311 by {
        lemma_fx_mul_in(r, 1311, 0x10000, 1311);
        assert(r * 1311 >= 0) by (nonlinear_arith)
            requires r >= 0;
    }
    assert forall|r: int| 0 <= r < 0x10000 implies crate::fixed::fx_mul_fits(r, 328) && 0
        <= #[trigger] crate::fixed::fx_mul_spec(r, 328) <= 328 by {
        lemma_fx_mul_in(r, 328, 0x10000, 328);
        assert(r * 328 >= 0) by (nonlinear_arith)
            requires r >= 0;
    }
}

/// The aggregate of the scene's primitives; every material index
/// points into the seventeen-entry table of `buildScene`.
pub fn buildPrimitives() -> (l: PrimitiveList)
    ensures
        crate::primitive::list_wf(l),
        forall|i: int| 0 <= i < l.bounded@.len() ==> (#[trigger] l.bounded@[i]).material < 17,
        forall|i: int| 0 <= i < l.unbounded@.len() ==> (#[trigger] l.unbounded@[i]).material < 17,
{
    let mut stuff: Vec<Sphere> = Vec::new();
    stuff.push(Sphere { center: Vec3 { x: 0, y: 0, z: -65536 }, radius: 32768, material: 0 });
    stuff.push(Sphere { center: Vec3 { x: 65536, y: 0, z: -65536 }, radius: 32768, material: 3 });
    stuff.push(
        Sphere { center: Vec3 { x: -65536, y: 0, z: -65536 }, radius: 32768, material: 1 },
    );
    let mut i: usize = 0;
    while i < 300
        invariant
            0 <= i <= 300,
            forall|k: int|
                0 <= k < stuff@.len() ==> sphere_wf(#[trigger] stuff@[k]) && stuff@[k].material
                    < 17,
            stuff@.len() >= 3,
        decreases 300 - i,
    {
        let s = randomSphere();
        stuff.push(s);
        i = i + 1;
    }
    let mut unbounded: Vec<InfinitePlane> = Vec::new();
    unbounded.push(
        InfinitePlane {
            origin: Vec3 { x: 0, y: -32768, z: 0 },
            normal: Vec3 { x: 0, y: 65536, z: 0 },
            material: 2,
        },
    );
    PrimitiveList::new(stuff, unbounded)
}

/// The whole reference scene for a canvas of the given size.  The
/// aspect cap keeps the camera's half-width within the fixed-point
/// viewport range (the tangent half-extents must stay at most two).
pub fn buildScene(width: u32, height: u32) -> (s: Scene)
    requires
        1 <= width <= 0x4000,
        1 <= height <= 0x4000,
        width <= 4 * height,
    ensures
        scene_wf(s),
        s.width == width,
        s.height == height,
{
    let camera = crate::ref_scene_1::sceneCamera(width, height);
    let primitives = buildPrimitives();
    let materials = crate::ref_scene_1::buildMaterials();
    Scene { width, height, camera, primitives, materials }
}

} // verus!
