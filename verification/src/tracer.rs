//! The integrator and the tile scheduler: trace rays recursively
//! through the scene, accumulate samples per pixel, and distribute
//! tiles over a worker pool.

#![allow(non_snake_case)]

use vstd::prelude::*;
use rayon::iter::{IntoParallelIterator, ParallelIterator};
use crate::fixed::{
    absi, fx_div, fx_div_spec, fx_mul, fx_mul_spec, lemma_fx_div_in, lemma_fx_mul_in,
    lemma_tdiv_bound, tdiv, tdiv_i128, COORD_MAX, DIR_MAX, NORMAL_MAX, SCALE,
};
use crate::camera::cam_ray_spec;
use crate::material::scatter_law;
use crate::primitive::{lemma_list_hit_agrees, list_hit_spec, plane_hit_spec, sphere_hit_spec};
use crate::primitive_traits::Primitive;
use crate::raw::{image_wf, view_wf, RawImage, RawImageView};
use crate::ray::{hit_wf, ray_wf, Hit, Ray};
use crate::rng::rand_unit;
use crate::scene::{scene_wf, Scene};
use crate::tile::{
    canvas_wf, lemma_counts_in_range, lemma_tile_rect_sane, lemma_tiles_cover,
    lemma_tiles_disjoint, tile_at_spec, TiledCanvas,
};
use crate::vec3::{
    add_spec, hadamard_spec, norm_sq_spec, scale_spec, unit_spec, vec_bounded, Color, Vec3,
};

verus! {

/// The near end of every primary and secondary ray's window: a small
/// positive distance, so a bounced ray cannot immediately re-hit its
/// own origin surface (shadow acne).
pub const TRACE_EPS: i64 = 7;

/// The far end of the ray window.
pub const TRACE_FAR: i64 = 65536000;

/// Deepest recursion of the integrator before a path is cut off.
pub const MAX_DEPTH: u32 = 32;

/// Bound on the magnitude of any colour component the integrator
/// returns.
pub const RADIANCE_MAX: i64 = 0x40000000000;

/// The sky gradient seen by a ray that escapes the scene: a blend of
/// white and sky blue by the upward component of the unit direction.
pub open spec fn background_spec(r: Ray) -> Color {
    let u = unit_spec(r.dir);
    let t = fx_mul_spec(u.y + SCALE, 32768);
    add_spec(
        scale_spec(Vec3 { x: SCALE, y: SCALE, z: SCALE }, SCALE - t),
        scale_spec(Vec3 { x: 32768, y: 45875, z: 65536 }, t),
    )
}

/// The sky gradient for a ray that hits nothing.
fn background(r: &Ray) -> (c: Color)
    requires
        ray_wf(*r),
    ensures
        c == background_spec(*r),
        vec_bounded(c, RADIANCE_MAX as int),
{
    let u = Vec3::unit(&r.dir);
    proof {
        lemma_fx_div_in(r.dir.x as int, 1, DIR_MAX as int);
        lemma_background_bounds(*r);
    }
    let t = fx_mul(u.y + SCALE, 32768);
    let white = Vec3 { x: SCALE, y: SCALE, z: SCALE };
    let blue = Vec3 { x: 32768, y: 45875, z: 65536 };
    white.scale(SCALE - t).add(&blue.scale(t))
}

/// The background arithmetic stays within the radiance bound.
proof fn lemma_background_bounds(r: Ray)
    requires
        ray_wf(r),
    ensures
        ({
            let u = unit_spec(r.dir);
            let t = fx_mul_spec(u.y + SCALE, 32768);
            &&& crate::fixed::fx_mul_fits(u.y + SCALE, 32768)
            &&& absi(t) <= 0x40000000000
            &&& crate::fixed::fx_mul_fits(SCALE as int, SCALE - t)
            &&& absi(SCALE - t) <= 0x20010000000
            &&& crate::fixed::fx_mul_fits(32768, t)
            &&& crate::fixed::fx_mul_fits(45875, t)
            &&& crate::fixed::fx_mul_fits(65536, t)
            &&& vec_bounded(background_spec(r), RADIANCE_MAX as int)
        }),
{
    let u = unit_spec(r.dir);
    lemma_unit_coarse(r.dir);
    lemma_fx_mul_in(u.y + SCALE, 32768, 0x40000000000, 32768);
    let t = fx_mul_spec(u.y + SCALE, 32768);
    lemma_fx_mul_in(SCALE as int, SCALE - t, 0x10000, 0x20010000000);
    lemma_fx_mul_in(32768, t, 32768, 0x20000000000);
    lemma_fx_mul_in(45875, t, 45875, 0x20000000000);
    lemma_fx_mul_in(65536, t, 65536, 0x20000000000);
}

/// Whatever the direction, the normalised vector's components are
/// coarsely bounded by the direction scaled up.
proof fn lemma_unit_coarse(v: Vec3)
    requires
        vec_bounded(v, DIR_MAX as int),
    ensures
        vec_bounded(unit_spec(v), 0x20000000000),
{
    let n = crate::vec3::norm_spec(v);
    if n != 0 {
        crate::fixed::lemma_isqrt(crate::vec3::norm_sq_spec(v) * SCALE);
        lemma_fx_div_in(v.x as int, n, DIR_MAX as int);
        lemma_fx_div_in(v.y as int, n, DIR_MAX as int);
        lemma_fx_div_in(v.z as int, n, DIR_MAX as int);
    }
}

/// `c` is an admissible radiance estimate for the ray at this
/// recursion depth: bounded; black above the depth cap; the exact sky
/// gradient on a miss; and on a hit either an attenuated admissible
/// estimate along a ray the hit material's scattering law admits, or
/// black where black is forced — a record or bounce outside the
/// integrator's numeric range, or an absorption the law admits.
pub open spec fn radiance_ok(scene: Scene, r: Ray, count: u32, c: Color) -> bool
    decreases (if count > MAX_DEPTH {
        0int
    } else {
        MAX_DEPTH + 1 - count
    }),
{
    &&& vec_bounded(c, RADIANCE_MAX as int)
    &&& (count > MAX_DEPTH ==> c == (Vec3 { x: 0, y: 0, z: 0 }))
    &&& (count <= MAX_DEPTH ==> match list_hit_spec(
        scene.primitives.bounded@,
        scene.primitives.unbounded@,
        r,
        TRACE_EPS as int,
        TRACE_FAR as int,
    ) {
        None => c == background_spec(r),
        Some(h) => {
            ||| (h.material < scene.materials@.len() && (exists|sc: Ray, att: Color, rec: Color|
                #![trigger scatter_law(scene.materials@[h.material as int], r, h, Some((sc, att))),
                    hadamard_spec(att, rec)]
                scatter_law(scene.materials@[h.material as int], r, h, Some((sc, att)))
                    && vec_bounded(sc.dir, DIR_MAX as int) && radiance_ok(
                    scene,
                    sc,
                    (count + 1) as u32,
                    rec,
                ) && c == hadamard_spec(att, rec)))
            ||| (!hit_wf(h) && c == (Vec3 { x: 0, y: 0, z: 0 }))
            ||| (h.material < scene.materials@.len() && scatter_law(
                scene.materials@[h.material as int],
                r,
                h,
                None::<(Ray, Vec3)>,
            ) && c == (Vec3 { x: 0, y: 0, z: 0 }))
            ||| (h.material < scene.materials@.len() && (exists|sc: Ray, att: Color|
                #[trigger] scatter_law(scene.materials@[h.material as int], r, h, Some((sc, att)))
                    && !vec_bounded(sc.dir, DIR_MAX as int)) && c == (Vec3 { x: 0, y: 0, z: 0 }))
        },
    })
}

/// One radiance estimate for a ray: intersect the scene, scatter at
/// the closest hit and recurse, weighting by the attenuation; cut the
/// path off black beyond the depth cap; and return the sky gradient
/// on a miss.  Hit records or scattered rays that round outside the
/// integrator's numeric range are treated as absorbed.
pub fn renderRay(r: &Ray, scene: &Scene, count: u32) -> (c: Color)
    requires
        scene_wf(*scene),
        ray_wf(*r),
    ensures
        vec_bounded(c, RADIANCE_MAX as int),
        count > MAX_DEPTH ==> c == (Vec3 { x: 0, y: 0, z: 0 }),
        count <= MAX_DEPTH && list_hit_spec(
            scene.primitives.bounded@,
            scene.primitives.unbounded@,
            *r,
            TRACE_EPS as int,
            TRACE_FAR as int,
        ) is None ==> c == background_spec(*r),
        count <= MAX_DEPTH && (match list_hit_spec(
            scene.primitives.bounded@,
            scene.primitives.unbounded@,
            *r,
            TRACE_EPS as int,
            TRACE_FAR as int,
        ) {
            Some(h) => h.material < scene.materials@.len()
                && scene.materials@[h.material as int] is Null,
            None => false,
        }) ==> c == (Vec3 { x: 0, y: 0, z: 0 }),
        radiance_ok(*scene, *r, count, c),
    decreases (if count > MAX_DEPTH {
        0int
    } else {
        MAX_DEPTH + 1 - count
    }),
{
    if count > MAX_DEPTH {
        return Vec3 { x: 0, y: 0, z: 0 };
    }
    let hit_maybe = scene.primitives.intersect(r, TRACE_EPS, TRACE_FAR);
    match hit_maybe {
        Some(hit) => {
            proof {
                lemma_hit_material_in_table(*scene, *r, hit);
            }
            if hit.p.x > COORD_MAX || hit.p.x < -COORD_MAX || hit.p.y > COORD_MAX || hit.p.y
                < -COORD_MAX || hit.p.z > COORD_MAX || hit.p.z < -COORD_MAX || hit.normal.x
                > NORMAL_MAX || hit.normal.x < -NORMAL_MAX || hit.normal.y > NORMAL_MAX
                || hit.normal.y < -NORMAL_MAX || hit.normal.z > NORMAL_MAX || hit.normal.z
                < -NORMAL_MAX {
                // A degenerate record from heavy rounding; absorb.
                proof {
                    assert(!hit_wf(hit));
                }
                return Vec3 { x: 0, y: 0, z: 0 };
            }
            match scene.materials[hit.material].scatter(r, &hit) {
                Some((scattered, att)) => {
                    let ghost m = scene.materials@[hit.material as int];
                    if scattered.dir.x > DIR_MAX || scattered.dir.x < -DIR_MAX || scattered.dir.y
                        > DIR_MAX || scattered.dir.y < -DIR_MAX || scattered.dir.z > DIR_MAX
                        || scattered.dir.z < -DIR_MAX {
                        // A degenerate bounce; absorb.
                        proof {
                            assert(scatter_law(m, *r, hit, Some((scattered, att)))
                                && !vec_bounded(scattered.dir, DIR_MAX as int));
                        }
                        return Vec3 { x: 0, y: 0, z: 0 };
                    }
                    let rec = renderRay(&scattered, scene, count + 1);
                    proof {
                        lemma_fx_mul_in(att.x as int, rec.x as int, 0x10000, RADIANCE_MAX as int);
                        lemma_fx_mul_in(att.y as int, rec.y as int, 0x10000, RADIANCE_MAX as int);
                        lemma_fx_mul_in(att.z as int, rec.z as int, 0x10000, RADIANCE_MAX as int);
                    }
                    let out = att.hadamard(&rec);
                    proof {
                        assert(scatter_law(
                            scene.materials@[hit.material as int],
                            *r,
                            hit,
                            Some((scattered, att)),
                        ) && vec_bounded(scattered.dir, DIR_MAX as int) && radiance_ok(
                            *scene,
                            scattered,
                            (count + 1) as u32,
                            rec,
                        ) && out == hadamard_spec(att, rec));
                        assert(radiance_ok(*scene, *r, count, out));
                    }
                    out
                },
                None => {
                    proof {
                        assert(scatter_law(
                            scene.materials@[hit.material as int],
                            *r,
                            hit,
                            None::<(Ray, Vec3)>,
                        ));
                        assert(radiance_ok(*scene, *r, count, Vec3 { x: 0, y: 0, z: 0 }));
                    }
                    Vec3 { x: 0, y: 0, z: 0 }
                },
            }
        },
        None => background(r),
    }
}

/// The closest hit the aggregate returns carries the material index
/// of one of the scene's primitives, so the index is in the table.
proof fn lemma_hit_material_in_table(scene: Scene, r: Ray, hit: Hit)
    requires
        scene_wf(scene),
        list_hit_spec(
            scene.primitives.bounded@,
            scene.primitives.unbounded@,
            r,
            TRACE_EPS as int,
            TRACE_FAR as int,
        ) == Some(hit),
    ensures
        hit.material < scene.materials@.len(),
{
    let spheres = scene.primitives.bounded@;
    let planes = scene.primitives.unbounded@;
    lemma_list_hit_agrees(spheres, planes, r, TRACE_EPS as int, TRACE_FAR as int);
    if exists|j: int|
        0 <= j < planes.len() && plane_hit_spec(#[trigger] planes[j], r, TRACE_EPS as int,
            TRACE_FAR as int) == Some(hit) {
        let j = choose|j: int|
            0 <= j < planes.len() && plane_hit_spec(#[trigger] planes[j], r, TRACE_EPS as int,
                TRACE_FAR as int) == Some(hit);
        assert(hit.material == planes[j].material);
    } else {
        let i = choose|i: int|
            0 <= i < spheres.len() && sphere_hit_spec(#[trigger] spheres[i], r, TRACE_EPS as int,
                TRACE_FAR as int) == Some(hit);
        assert(hit.material == spheres[i].material);
    }
}

/// A normalised sub-pixel sample coordinate lies in `[0, 1]`.
proof fn lemma_sample_coord(xr: int, wfx: int)
    requires
        0 <= xr < wfx,
        1 <= wfx <= 0x40000000,
    ensures
        crate::fixed::fx_div_fits(xr, wfx),
        0 <= fx_div_spec(xr, wfx) <= SCALE,
{
    lemma_fx_div_in(xr, wfx, 0x40000000);
    assert(absi(xr * SCALE) == xr * SCALE && absi(wfx) == wfx) by (nonlinear_arith)
        requires 0 <= xr && SCALE >= 1 && wfx >= 1;
    assert((xr * SCALE) / wfx <= SCALE && (xr * SCALE) / wfx >= 0) by (nonlinear_arith)
        requires 0 <= xr < wfx && wfx >= 1 && SCALE >= 1;
}

/// Divide every component by a sample count.
fn div_components(c: &Color, n: i64) -> (r: Color)
    requires
        n >= 1,
        vec_bounded(*c, 0x4000000000000000),
    ensures
        r.x == tdiv(c.x as int, n as int),
        r.y == tdiv(c.y as int, n as int),
        r.z == tdiv(c.z as int, n as int),
    {
    proof {
        lemma_tdiv_bound(c.x as int, n as int, 0x4000000000000000);
        lemma_tdiv_bound(c.y as int, n as int, 0x4000000000000000);
        lemma_tdiv_bound(c.z as int, n as int, 0x4000000000000000);
    }
    Vec3 {
        x: tdiv_i128(c.x as i128, n as i128) as i64,
        y: tdiv_i128(c.y as i128, n as i128) as i64,
        z: tdiv_i128(c.z as i128, n as i128) as i64,
    }
}

/// The red channels of the samples, summed.
pub open spec fn sum_x(s: Seq<Color>) -> int
    decreases s.len(),
{
    if s.len() == 0 {
        0
    } else {
        sum_x(s.drop_last()) + s.last().x
    }
}

/// The green channels of the samples, summed.
pub open spec fn sum_y(s: Seq<Color>) -> int
    decreases s.len(),
{
    if s.len() == 0 {
        0
    } else {
        sum_y(s.drop_last()) + s.last().y
    }
}

/// The blue channels of the samples, summed.
pub open spec fn sum_z(s: Seq<Color>) -> int
    decreases s.len(),
{
    if s.len() == 0 {
        0
    } else {
        sum_z(s.drop_last()) + s.last().z
    }
}

/// `s` is a radiance estimate some camera ray of pixel `(x, y)`
/// admits: there are jitter offsets inside the pixel's sub-ranges and
/// a lens-disk point whose camera ray makes `s` an admissible
/// integrator result at depth zero.
pub open spec fn pixel_sample_ok(scene: Scene, x: int, y: int, s: Color) -> bool {
    exists|jx: int, jy: int, disk: Vec3|
        #![trigger cam_ray_spec(
            scene.camera,
            fx_div_spec(x * SCALE + jx, scene.width * SCALE),
            fx_div_spec((scene.height - y - 1) * SCALE + jy, scene.height * SCALE),
            disk,
        )]
        0 <= jx < SCALE && 0 <= jy < SCALE && vec_bounded(disk, SCALE as int) && norm_sq_spec(disk)
            < SCALE && disk.z == 0 && radiance_ok(
            scene,
            cam_ray_spec(
                scene.camera,
                fx_div_spec(x * SCALE + jx, scene.width * SCALE),
                fx_div_spec((scene.height - y - 1) * SCALE + jy, scene.height * SCALE),
                disk,
            ),
            0,
            s,
        )
}

/// The pixel value at image coordinates `(x, y)` is the truncating
/// per-component average of `ns` samples, each admitted by some
/// jittered camera ray of that pixel.
pub open spec fn pixel_rendered(scene: Scene, x: int, y: int, ns: int, c: Color) -> bool {
    exists|samples: Seq<Color>|
        #![trigger samples.len()]
        samples.len() == ns && (forall|k: int|
            0 <= k < samples.len() ==> pixel_sample_ok(scene, x, y, #[trigger] samples[k]))
            && (forall|k: int|
            0 <= k < samples.len() ==> vec_bounded(#[trigger] samples[k], RADIANCE_MAX as int))
            && c.x == tdiv(sum_x(samples), ns) && c.y == tdiv(sum_y(samples), ns) && c.z == tdiv(
            sum_z(samples),
            ns,
        )
}

/// The average of `ns` bounded samples is bounded.
proof fn lemma_avg_bounded(acc: Vec3, ns: int)
    requires
        1 <= ns <= 0x80000,
        vec_bounded(acc, ns * (RADIANCE_MAX as int)),
    ensures
        absi(tdiv(acc.x as int, ns)) <= RADIANCE_MAX as int,
        absi(tdiv(acc.y as int, ns)) <= RADIANCE_MAX as int,
        absi(tdiv(acc.z as int, ns)) <= RADIANCE_MAX as int,
{
    assert(ns * (RADIANCE_MAX as int) >= 0) by (nonlinear_arith)
        requires ns >= 1 && RADIANCE_MAX == 0x40000000000;
    lemma_tdiv_bound(acc.x as int, ns, ns * (RADIANCE_MAX as int));
    lemma_tdiv_bound(acc.y as int, ns, ns * (RADIANCE_MAX as int));
    lemma_tdiv_bound(acc.z as int, ns, ns * (RADIANCE_MAX as int));
    assert((ns * (RADIANCE_MAX as int)) / ns == RADIANCE_MAX) by (nonlinear_arith)
        requires 1 <= ns <= 0x80000 && RADIANCE_MAX == 0x40000000000;
}

/// Pixel `(px, py)` of a tile buffer lies in the part the rendering
/// loop has already filled: a full row strictly before `dy`, or the
/// first `dx` columns of row `dy`.
pub open spec fn fill_covered(px: int, py: int, dy: int, dx: int) -> bool {
    py < dy || (py == dy && px < dx)
}

/// Render one tile to completion: for each of its pixels, average
/// `ns` jittered camera samples traced through the scene, and store
/// the result in the tile's buffer.  Every pixel of the finished
/// buffer is the truncating average of `ns` samples admitted by
/// jittered camera rays of that pixel.
pub fn renderTile(scene: &Scene, ns: u32, tile: &mut RawImageView)
    requires
        scene_wf(*scene),
        view_wf(*old(tile)),
        1 <= ns <= 0x80000,
        old(tile).offset_x + old(tile).width <= scene.width,
        old(tile).offset_y + old(tile).height <= scene.height,
    ensures
        view_wf(*final(tile)),
        final(tile).width == old(tile).width,
        final(tile).height == old(tile).height,
        final(tile).offset_x == old(tile).offset_x,
        final(tile).offset_y == old(tile).offset_y,
        forall|px: int, py: int|
            0 <= px < old(tile).width && 0 <= py < old(tile).height ==> pixel_rendered(
                *scene,
                old(tile).offset_x + px,
                old(tile).offset_y + py,
                ns as int,
                #[trigger] final(tile).data@[py * old(tile).width + px],
            ) && vec_bounded(final(tile).data@[py * old(tile).width + px], RADIANCE_MAX as int),
{
    let ghost w = tile.width as int;
    let ghost h = tile.height as int;
    let mut dy: u32 = 0;
    while dy < tile.height
        invariant
            scene_wf(*scene),
            view_wf(*tile),
            1 <= ns <= 0x80000,
            tile.width == old(tile).width,
            tile.height == old(tile).height,
            tile.offset_x == old(tile).offset_x,
            tile.offset_y == old(tile).offset_y,
            tile.offset_x + tile.width <= scene.width,
            tile.offset_y + tile.height <= scene.height,
            0 <= dy <= tile.height,
            w == tile.width as int,
            h == tile.height as int,
            forall|px: int, py: int|
                0 <= px < w && 0 <= py < h && fill_covered(px, py, dy as int, 0)
                    ==> pixel_rendered(
                    *scene,
                    tile.offset_x + px,
                    tile.offset_y + py,
                    ns as int,
                    #[trigger] tile.data@[py * w + px],
                ) && vec_bounded(tile.data@[py * w + px], RADIANCE_MAX as int),
        decreases tile.height - dy,
    {
        let mut dx: u32 = 0;
        while dx < tile.width
            invariant
                scene_wf(*scene),
                view_wf(*tile),
                1 <= ns <= 0x80000,
                tile.width == old(tile).width,
                tile.height == old(tile).height,
                tile.offset_x == old(tile).offset_x,
                tile.offset_y == old(tile).offset_y,
                tile.offset_x + tile.width <= scene.width,
                tile.offset_y + tile.height <= scene.height,
                0 <= dy < tile.height,
                0 <= dx <= tile.width,
                w == tile.width as int,
                h == tile.height as int,
                forall|px: int, py: int|
                    0 <= px < w && 0 <= py < h && fill_covered(px, py, dy as int, dx as int)
                        ==> pixel_rendered(
                        *scene,
                        tile.offset_x + px,
                        tile.offset_y + py,
                        ns as int,
                        #[trigger] tile.data@[py * w + px],
                    ) && vec_bounded(tile.data@[py * w + px], RADIANCE_MAX as int),
            decreases tile.width - dx,
        {
            let x: u32 = dx + tile.offset_x;
            let y: u32 = dy + tile.offset_y;
            let mut col = Vec3 { x: 0, y: 0, z: 0 };
            let ghost mut samples: Seq<Color> = Seq::empty();
            let mut sample: u32 = 0;
            while sample < ns
                invariant
                    scene_wf(*scene),
                    1 <= ns <= 0x80000,
                    0 <= sample <= ns,
                    x < scene.width,
                    y < scene.height,
                    vec_bounded(col, sample as int * (RADIANCE_MAX as int)),
                    samples.len() == sample,
                    col.x == sum_x(samples) && col.y == sum_y(samples) && col.z == sum_z(samples),
                    forall|k: int|
                        0 <= k < samples.len() ==> pixel_sample_ok(
                            *scene,
                            x as int,
                            y as int,
                            #[trigger] samples[k],
                        ),
                    forall|k: int|
                        0 <= k < samples.len() ==> vec_bounded(
                            #[trigger] samples[k],
                            RADIANCE_MAX as int,
                        ),
                decreases ns - sample,
            {
                let jx = rand_unit();
                let jy = rand_unit();
                let xr: i64 = (x as i64) * SCALE + jx;
                let yr: i64 = ((scene.height - y - 1) as i64) * SCALE + jy;
                let wfx: i64 = (scene.width as i64) * SCALE;
                let hfx: i64 = (scene.height as i64) * SCALE;
                proof {
                    lemma_pixel_fixed_bounds(x as int, y as int, scene.width as int,
                        scene.height as int);
                    lemma_sample_coord(xr as int, wfx as int);
                    lemma_sample_coord(yr as int, hfx as int);
                }
                let u = fx_div(xr, wfx);
                let v = fx_div(yr, hfx);
                let ray = scene.camera.ray(u, v);
                let s = renderRay(&ray, scene, 0);
                proof {
                    let dsk = choose|d: Vec3|
                        vec_bounded(d, SCALE as int) && norm_sq_spec(d) < SCALE && d.z == 0 && ray
                            == cam_ray_spec(scene.camera, u as int, v as int, d);
                    assert(radiance_ok(
                        *scene,
                        cam_ray_spec(
                            scene.camera,
                            fx_div_spec((x as int) * SCALE + jx, scene.width * SCALE),
                            fx_div_spec(
                                ((scene.height as int) - (y as int) - 1) * SCALE + jy,
                                scene.height * SCALE,
                            ),
                            dsk,
                        ),
                        0,
                        s,
                    ));
                    assert(pixel_sample_ok(*scene, x as int, y as int, s));
                    lemma_radiance_sum(col, s, sample as int);
                    assert(samples.push(s).drop_last() =~= samples);
                    assert(samples.push(s).last() == s);
                }
                col = col.add(&s);
                proof {
                    samples = samples.push(s);
                }
                sample = sample + 1;
            }
            proof {
                assert(ns as int * (RADIANCE_MAX as int) <= 0x4000000000000000)
                    by (nonlinear_arith)
                    requires 1 <= ns <= 0x80000 && RADIANCE_MAX == 0x40000000000;
            }
            let avg = div_components(&col, ns as i64);
            proof {
                lemma_avg_bounded(col, ns as int);
                assert(pixel_rendered(*scene, x as int, y as int, ns as int, avg));
                crate::raw::lemma_row_major_in_range(w, h, dx as int, dy as int);
            }
            let ghost before = tile.data@;
            tile.set(dx, dy, avg);
            proof {
                let idx = dy as int * w + dx as int;
                assert forall|px: int, py: int|
                    0 <= px < w && 0 <= py < h && fill_covered(px, py, dy as int, dx as int
                        + 1) implies pixel_rendered(
                    *scene,
                    tile.offset_x + px,
                    tile.offset_y + py,
                    ns as int,
                    #[trigger] tile.data@[py * w + px],
                ) && vec_bounded(tile.data@[py * w + px], RADIANCE_MAX as int) by {
                    crate::raw::lemma_row_major_in_range(w, h, px, py);
                    if py * w + px == idx {
                        assert(px == dx as int && py == dy as int) by (nonlinear_arith)
                            requires
                                0 <= px < w,
                                0 <= dx < w,
                                py * w + px == dy * w + dx;
                    } else {
                        assert(tile.data@[py * w + px] == before[py * w + px]);
                    }
                }
            }
            dx = dx + 1;
        }
        dy = dy + 1;
    }
}

/// The fixed-point pixel coordinates and image extents stay in range.
proof fn lemma_pixel_fixed_bounds(x: int, y: int, w: int, h: int)
    requires
        0 <= x < w <= 0x4000,
        0 <= y < h <= 0x4000,
    ensures
        0 <= x * SCALE <= 0x40000000 - SCALE,
        0 <= (h - y - 1) * SCALE <= 0x40000000 - SCALE,
        SCALE <= w * SCALE <= 0x40000000,
        SCALE <= h * SCALE <= 0x40000000,
        x * SCALE + SCALE <= w * SCALE,
        (h - y - 1) * SCALE + SCALE <= h * SCALE,
{
    assert(0 <= x * SCALE && x * SCALE + SCALE <= w * SCALE && w * SCALE <= 0x40000000 && 0 <= (h
        - y - 1) * SCALE && (h - y - 1) * SCALE + SCALE <= h * SCALE && h * SCALE <= 0x40000000
        && SCALE <= w * SCALE && SCALE <= h * SCALE) by (nonlinear_arith)
        requires 0 <= x < w <= 0x4000 && 0 <= y < h <= 0x4000 && SCALE == 0x10000;
}

/// Adding one bounded sample grows the accumulator by one step.
proof fn lemma_radiance_sum(col: Color, s: Color, k: int)
    requires
        vec_bounded(col, k * (RADIANCE_MAX as int)),
        vec_bounded(s, RADIANCE_MAX as int),
        0 <= k <= 0x80000,
    ensures
        vec_bounded(col, 0x3fffffffffffffff),
        vec_bounded(s, 0x3fffffffffffffff),
        vec_bounded(add_spec(col, s), (k + 1) * (RADIANCE_MAX as int)),
{
    assert(k * (RADIANCE_MAX as int) + RADIANCE_MAX == (k + 1) * (RADIANCE_MAX as int) && 0 <= k
        * (RADIANCE_MAX as int) <= 0x2000000000000000) by (nonlinear_arith)
        requires 0 <= k <= 0x80000 && RADIANCE_MAX == 0x40000000000;
}

/// The tile grid the renderer cuts a canvas into.
pub open spec fn canvas_grid(w: u32, h: u32, tile_size: u32) -> TiledCanvas {
    TiledCanvas {
        width: w,
        height: h,
        tile_size,
        tile_count_x: ((w + tile_size - 1) / (tile_size as int)) as u32,
        tile_count_y: ((h + tile_size - 1) / (tile_size as int)) as u32,
        next_tile: 0,
    }
}

/// The index of the tile whose rectangle holds pixel `(px, py)`.
pub open spec fn cell_of(c: TiledCanvas, px: int, py: int) -> int {
    (py / (c.tile_size as int)) * (c.tile_count_x as int) + px / (c.tile_size as int)
}

/// The image is exactly the disjoint overlay of one finished tile
/// buffer per cell of the canvas grid: each part sits at its tile's
/// rectangle, every part pixel is an `ns`-sample average, and every
/// image pixel equals the corresponding pixel of the one part whose
/// rectangle holds it.
pub open spec fn tiled_overlay(
    scene: Scene,
    tile_size: u32,
    ns: u32,
    parts: Seq<RawImageView>,
    img: RawImage,
) -> bool {
    let c = canvas_grid(scene.width, scene.height, tile_size);
    &&& parts.len() == c.tile_count_x * c.tile_count_y
    &&& forall|j: int|
        0 <= j < parts.len() ==> {
            let t = tile_at_spec(c, j);
            &&& view_wf(#[trigger] parts[j])
            &&& parts[j].offset_x == t.xrange.0
            &&& parts[j].offset_y == t.yrange.0
            &&& parts[j].width == t.xrange.1 - t.xrange.0
            &&& parts[j].height == t.yrange.1 - t.yrange.0
        }
    &&& forall|j: int, ldx: int, ldy: int|
        0 <= j < parts.len() && 0 <= ldx < parts[j].width && 0 <= ldy < parts[j].height
            ==> pixel_rendered(
            scene,
            parts[j].offset_x + ldx,
            parts[j].offset_y + ldy,
            ns as int,
            #[trigger] parts[j].data@[ldy * parts[j].width + ldx],
        ) && vec_bounded(parts[j].data@[ldy * parts[j].width + ldx], RADIANCE_MAX as int)
    &&& forall|px: int, py: int|
        0 <= px < scene.width && 0 <= py < scene.height ==> {
            let part = parts[cell_of(c, px, py)];
            #[trigger] img.data@[py * scene.width + px] == part.data@[(py - part.offset_y)
                * part.width + (px - part.offset_x)]
        }
}

/// Relies on rayon's `into_par_iter`, `map` and `collect` on a `Vec`:
/// the parallel map applies the closure (which only calls the
/// verified `renderTile`) to each element and collects the results in
/// the input's order, so lengths, placements and dimensions carry
/// over element by element, and each returned buffer has the pixel
/// contents `renderTile`'s contract gives it.
#[verifier::external_body]
fn render_tiles_par(scene: &Scene, ns: u32, tiles: Vec<RawImageView>) -> (out: Vec<RawImageView>)
    requires
        scene_wf(*scene),
        1 <= ns <= 0x80000,
        forall|k: int|
            0 <= k < tiles@.len() ==> view_wf(#[trigger] tiles@[k]) && tiles@[k].offset_x
                + tiles@[k].width <= scene.width && tiles@[k].offset_y + tiles@[k].height
                <= scene.height,
    ensures
        out@.len() == tiles@.len(),
        forall|k: int|
            0 <= k < out@.len() ==> view_wf(#[trigger] out@[k]) && out@[k].offset_x
                == tiles@[k].offset_x && out@[k].offset_y == tiles@[k].offset_y && out@[k].width
                == tiles@[k].width && out@[k].height == tiles@[k].height,
        forall|k: int, ldx: int, ldy: int|
            0 <= k < out@.len() && 0 <= ldx < out@[k].width && 0 <= ldy < out@[k].height
                ==> pixel_rendered(
                *scene,
                out@[k].offset_x + ldx,
                out@[k].offset_y + ldy,
                ns as int,
                #[trigger] out@[k].data@[ldy * out@[k].width + ldx],
            ) && vec_bounded(out@[k].data@[ldy * out@[k].width + ldx], RADIANCE_MAX as int),
{
    tiles.into_par_iter().map(
        |mut t: RawImageView|
            {
                renderTile(scene, ns, &mut t);
                t
            },
    ).collect()
}

/// Render the whole image: cut the canvas into tiles, render every
/// tile on the worker pool, and merge the finished tiles into one
/// image.  Tiles occupy disjoint pixel rectangles, so merging needs
/// no per-pixel coordination; the result is the disjoint overlay of
/// one finished tile per grid cell, every pixel an `ns`-sample
/// average.
pub fn render(scene: &Scene, ns: u32, tile_size: u32) -> (img: RawImage)
    requires
        scene_wf(*scene),
        1 <= ns <= 0x80000,
        1 <= tile_size <= 16384,
    ensures
        image_wf(img),
        img.width == scene.width,
        img.height == scene.height,
        exists|parts: Seq<RawImageView>|
            #[trigger] tiled_overlay(*scene, tile_size, ns, parts, img),
        forall|px: int, py: int|
            0 <= px < scene.width && 0 <= py < scene.height ==> pixel_rendered(
                *scene,
                px,
                py,
                ns as int,
                #[trigger] img.data@[py * scene.width + px],
            ) && vec_bounded(img.data@[py * scene.width + px], RADIANCE_MAX as int),
{
    let ghost w = scene.width as int;
    let ghost h = scene.height as int;
    let mut img = RawImage::new(scene.width, scene.height);
    let canvas = TiledCanvas::new(scene.width, scene.height, tile_size);
    proof {
        lemma_counts_in_range(canvas);
        assert(canvas == canvas_grid(scene.width, scene.height, tile_size));
    }
    let tiles = canvas.tiles();
    proof {
        assert forall|k: int| 0 <= k < tiles@.len() implies view_wf(#[trigger] tiles@[k])
            && tiles@[k].offset_x + tiles@[k].width <= scene.width && tiles@[k].offset_y
            + tiles@[k].height <= scene.height by {
            lemma_tile_rect_sane(canvas, k);
        }
    }
    let done = render_tiles_par(scene, ns, tiles);
    let ghost zero = Vec3 { x: 0, y: 0, z: 0 };
    proof {
        assert forall|px: int, py: int| 0 <= px < w && 0 <= py < h implies #[trigger] img.data@[py
            * w + px] == zero by {
            crate::raw::lemma_row_major_in_range(w, h, px, py);
        }
    }
    let mut k: usize = 0;
    while k < done.len()
        invariant
            image_wf(img),
            img.width == scene.width,
            img.height == scene.height,
            w == scene.width as int,
            h == scene.height as int,
            zero == (Vec3 { x: 0, y: 0, z: 0 }),
            canvas_wf(canvas),
            canvas == canvas_grid(scene.width, scene.height, tile_size),
            done@.len() == canvas.tile_count_x * canvas.tile_count_y,
            0 <= k <= done@.len(),
            forall|j: int|
                0 <= j < done@.len() ==> {
                    let t = tile_at_spec(canvas, j);
                    &&& view_wf(#[trigger] done@[j])
                    &&& done@[j].offset_x == t.xrange.0
                    &&& done@[j].offset_y == t.yrange.0
                    &&& done@[j].width == t.xrange.1 - t.xrange.0
                    &&& done@[j].height == t.yrange.1 - t.yrange.0
                },
            forall|j: int, ldx: int, ldy: int|
                0 <= j < done@.len() && 0 <= ldx < done@[j].width && 0 <= ldy < done@[j].height
                    ==> pixel_rendered(
                    *scene,
                    done@[j].offset_x + ldx,
                    done@[j].offset_y + ldy,
                    ns as int,
                    #[trigger] done@[j].data@[ldy * done@[j].width + ldx],
                ) && vec_bounded(done@[j].data@[ldy * done@[j].width + ldx], RADIANCE_MAX as int),
            forall|px: int, py: int|
                0 <= px < w && 0 <= py < h ==> #[trigger] img.data@[py * w + px] == (
                if cell_of(canvas, px, py) < k {
                    let part = done@[cell_of(canvas, px, py)];
                    part.data@[(py - part.offset_y) * part.width + (px - part.offset_x)]
                } else {
                    zero
                }),
        decreases done@.len() - k,
    {
        proof {
            lemma_tile_rect_sane(canvas, k as int);
        }
        let ghost before = img.data@;
        img.merge(&done[k]);
        proof {
            let v = done@[k as int];
            let t = tile_at_spec(canvas, k as int);
            assert forall|px: int, py: int| 0 <= px < w && 0 <= py < h implies #[trigger]
                img.data@[py * w + px] == (if cell_of(canvas, px, py) < k + 1 {
                    let part = done@[cell_of(canvas, px, py)];
                    part.data@[(py - part.offset_y) * part.width + (px - part.offset_x)]
                } else {
                    zero
                }) by {
                crate::raw::lemma_row_major_in_range(w, h, px, py);
                lemma_tiles_cover(canvas, px, py);
                let j = cell_of(canvas, px, py);
                if crate::raw::merge_covered(v, px, py, v.height as int, 0) {
                    // The merged rectangle is exactly tile `k`'s cell.
                    lemma_tiles_disjoint(canvas, k as int, j, px, py);
                    assert(j == k as int);
                } else {
                    assert(img.data@[py * w + px] == before[py * w + px]);
                    assert(j != k as int);
                }
            }
        }
        k = k + 1;
    }
    proof {
        assert forall|px: int, py: int| 0 <= px < w && 0 <= py < h implies cell_of(
            canvas,
            px,
            py,
        ) < done@.len() by {
            lemma_tiles_cover(canvas, px, py);
        }
        assert(tiled_overlay(*scene, tile_size, ns, done@, img));
        assert forall|px: int, py: int| 0 <= px < scene.width && 0 <= py < scene.height
            implies pixel_rendered(
            *scene,
            px,
            py,
            ns as int,
            #[trigger] img.data@[py * scene.width + px],
        ) && vec_bounded(img.data@[py * scene.width + px], RADIANCE_MAX as int) by {
            lemma_tiles_cover(canvas, px, py);
            let j = cell_of(canvas, px, py);
            let part = done@[j];
            crate::raw::lemma_row_major_in_range(
                part.width as int,
                part.height as int,
                px - part.offset_x,
                py - part.offset_y,
            );
            assert(part.offset_x + (px - part.offset_x) == px && part.offset_y + (py
                - part.offset_y) == py);
        }
    }
    img
}

} // verus!
