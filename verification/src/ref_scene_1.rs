//! A reference scene: three large spheres over a regular grid of
//! small ones, resting on an infinite ground plane.

#![allow(non_snake_case)]

use vstd::prelude::*;
use crate::camera::{camera_wf, Camera, CAM_FOCUS_MAX};
use crate::fixed::{fx_div, fx_div_spec, fx_mul, lemma_fx_div_in, lemma_fx_mul_in, SCALE};
use crate::material::{AnyMaterial, Glass, Lambertian, LambertianRandomColor, Metal};
use crate::primitive::{sphere_wf, InfinitePlane, PrimitiveList, Sphere};
use crate::scene::{scene_wf, Scene};
use crate::texture::{AnyTexture, Constant};
use crate::vec3::{cross, sub_spec, Vec3};

verus! {

/// The aggregate of the scene's primitives; every material index
/// points into the seventeen-entry table `buildScene` installs.
pub fn buildPrimitives() -> (l: PrimitiveList)
    ensures
        crate::primitive::list_wf(l),
        forall|i: int| 0 <= i < l.bounded@.len() ==> (#[trigger] l.bounded@[i]).material < 17,
        forall|i: int| 0 <= i < l.unbounded@.len() ==> (#[trigger] l.unbounded@[i]).material < 17,
{
    let mut stuff: Vec<Sphere> = Vec::new();
    stuff.push(Sphere { center: Vec3 { x: 0, y: 0, z: -65536 }, radius: 32768, material: 0 });
    stuff.push(Sphere { center: Vec3 { x: 65536, y: 0, z: -65536 }, radius: 32768, material: 3 });
    stuff.push(
        Sphere { center: Vec3 { x: -65536, y: 0, z: -65536 }, radius: 32768, material: 1 },
    );
    let mut i: usize = 0;
    while i < 20
        invariant
            0 <= i <= 20,
            forall|k: int|
                0 <= k < stuff@.len() ==> sphere_wf(#[trigger] stuff@[k]) && stuff@[k].material
                    < 17,
            stuff@.len() >= 3,
        decreases 20 - i,
    {
        let x: i64 = -327680 + 32768 * (i as i64);
        let mut j: usize = 0;
        while j < 20
            invariant
                0 <= i < 20,
                0 <= j <= 20,
                -327680 <= x <= 327680,
                forall|k: int|
                    0 <= k < stuff@.len() ==> sphere_wf(#[trigger] stuff@[k]) && stuff@[k].material
                        < 17,
                stuff@.len() >= 3,
            decreases 20 - j,
        {
            let z: i64 = -327680 + 32768 * (j as i64);
            stuff.push(
                Sphere {
                    center: Vec3 { x, y: -26214, z },
                    radius: 6554,
                    material: (i * 20 + j) % 17,
                },
            );
            j = j + 1;
        }
        i = i + 1;
    }
    let mut unbounded: Vec<InfinitePlane> = Vec::new();
    unbounded.push(
        InfinitePlane {
            origin: Vec3 { x: 0, y: -32768, z: 0 },
            normal: Vec3 { x: 0, y: 65536, z: 0 },
            material: 2,
        },
    );
    PrimitiveList::new(stuff, unbounded)
}

/// The table of seventeen materials the primitives refer to.
pub fn buildMaterials() -> (mats: Vec<AnyMaterial>)
    ensures
        mats@.len() == 17,
        forall|i: int|
            0 <= i < mats@.len() ==> crate::material::any_material_wf(#[trigger] mats@[i]),
{
    let mut mats: Vec<AnyMaterial> = Vec::new();
    mats.push(
        AnyMaterial::Metal(
            Metal { albedo: Vec3 { x: 32768, y: 32768, z: 32768 }, roughness: 0 },
        ),
    );
    mats.push(
        AnyMaterial::Lambertian(
            Lambertian {
                albedo: AnyTexture::Constant(
                    Constant::new(Vec3 { x: 45875, y: 45875, z: 13107 }),
                ),
            },
        ),
    );
    mats.push(
        AnyMaterial::Lambertian(
            Lambertian {
                albedo: AnyTexture::Constant(
                    Constant::new(Vec3 { x: 32768, y: 32768, z: 32768 }),
                ),
            },
        ),
    );
    mats.push(AnyMaterial::Glass(Glass { ref_index: 98304 }));
    mats.push(AnyMaterial::Glass(Glass { ref_index: 111411 }));
    mats.push(AnyMaterial::Glass(Glass { ref_index: 111411 }));
    mats.push(
        AnyMaterial::Metal(
            Metal { albedo: Vec3 { x: 26214, y: 32768, z: 39322 }, roughness: 6554 },
        ),
    );
    let mut k: usize = 0;
    while k < 10
        invariant
            0 <= k <= 10,
            mats@.len() == 7 + k,
            forall|i: int|
                0 <= i < mats@.len() ==> crate::material::any_material_wf(#[trigger] mats@[i]),
        decreases 10 - k,
    {
        mats.push(AnyMaterial::LambertianRandomColor(LambertianRandomColor::new()));
        k = k + 1;
    }
    mats
}

/// The camera of the reference scenes: set at the configured pose
/// when the pose is usable, else a plain axis-aligned fallback.  The
/// aspect cap keeps the derived half-width within the camera's
/// fixed-point viewport range.
pub fn sceneCamera(width: u32, height: u32) -> (c: Camera)
    requires
        1 <= width <= 0x4000,
        1 <= height <= 0x4000,
        width <= 4 * height,
    ensures
        camera_wf(c),
{
    let camera_pos = Vec3 { x: 229376, y: 22938, z: 65536 };
    let camera_lookat = Vec3 { x: 0, y: -26214, z: -65536 };
    let vup = Vec3 { x: 0, y: 65536, z: 0 };
    let dir = camera_pos.sub(&camera_lookat);
    if dir.normSquared() < 16384 {
        return fallbackCamera();
    }
    let w = Vec3::unit(&dir);
    proof {
        crate::vec3::lemma_unit_bounded(sub_spec(camera_pos, camera_lookat));
    }
    let uc = cross(&vup, &w);
    if uc.normSquared() < 16384 {
        return fallbackCamera();
    }
    let back = camera_lookat.sub(&camera_pos);
    let mut fd = back.norm() - 32768;
    if fd < 1 {
        fd = 1;
    }
    if fd > CAM_FOCUS_MAX {
        fd = CAM_FOCUS_MAX;
    }
    let wfx: i64 = (width as i64) * SCALE;
    let hfx: i64 = (height as i64) * SCALE;
    proof {
        lemma_aspect(width as int, height as int);
    }
    let aspect = fx_div(wfx, hfx);
    proof {
        lemma_fx_mul_in(aspect as int, 23855, 0x40000, 23855);
    }
    let half_width = fx_mul(aspect, 23855);
    Camera::new(camera_pos, camera_lookat, vup, half_width, 23855, 3932, fd)
}

/// The aspect ratio of a canvas at most four times as wide as tall
/// lies in `[0, 4]`.
proof fn lemma_aspect(w: int, h: int)
    requires
        1 <= h <= 0x4000,
        1 <= w <= 0x4000,
        w <= 4 * h,
    ensures
        crate::fixed::fx_div_fits(w * SCALE, h * SCALE),
        0 <= fx_div_spec(w * SCALE, h * SCALE) <= 4 * SCALE,
{
    crate::fixed::lemma_abs_mul(w, SCALE as int, 0x4000, SCALE as int);
    lemma_fx_div_in(w * SCALE, h * SCALE, 0x40000000);
    assert(absi_eq_self(w * SCALE) && absi_eq_self(h * SCALE) && (w * SCALE) * SCALE >= 0)
        by (nonlinear_arith)
        requires 1 <= w && 1 <= h && SCALE >= 1;
    assert(((w * SCALE) * SCALE) / (h * SCALE) <= 4 * SCALE && ((w * SCALE) * SCALE) / (h * SCALE)
        >= 0) by (nonlinear_arith)
        requires 1 <= h && w <= 4 * h && SCALE >= 1 && w >= 1;
}

/// The argument equals its own absolute value (it is nonnegative).
spec fn absi_eq_self(a: int) -> bool {
    crate::fixed::absi(a) == a
}

/// A plain axis-aligned camera used when the configured pose is
/// degenerate.
fn fallbackCamera() -> (c: Camera)
    ensures
        camera_wf(c),
{
    Camera {
        lower_left: Vec3 { x: -131072, y: -65536, z: -65536 },
        hori: Vec3 { x: 262144, y: 0, z: 0 },
        vert: Vec3 { x: 0, y: 131072, z: 0 },
        origin: Vec3 { x: 0, y: 0, z: 0 },
        lens_radius: 0,
        u: Vec3 { x: 65536, y: 0, z: 0 },
        v: Vec3 { x: 0, y: 65536, z: 0 },
        w: Vec3 { x: 0, y: 0, z: 65536 },
    }
}

/// The whole reference scene for a canvas of the given size.  The
/// aspect cap keeps the camera's half-width within the fixed-point
/// viewport range (the tangent half-extents must stay at most two).
pub fn buildScene(width: u32, height: u32) -> (s: Scene)
    requires
        1 <= width <= 0x4000,
        1 <= height <= 0x4000,
        width <= 4 * height,
    ensures
        scene_wf(s),
        s.width == width,
        s.height == height,
{
    let camera = sceneCamera(width, height);
    let primitives = buildPrimitives();
    let materials = buildMaterials();
    Scene { width, height, camera, primitives, materials }
}

} // verus!
