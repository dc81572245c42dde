//! The raw floating image the renderer accumulates into, its tile
//! views, and the tonemap to 8-bit channels.

#![allow(non_snake_case)]

use vstd::prelude::*;
use crate::fixed::SCALE;
use crate::vec3::{Color, Vec3};

verus! {

/// Largest image edge, so index arithmetic stays in range.
pub const EDGE_MAX: u32 = 16384;

/// An image of fixed-point colour channels, row-major with `x` as
/// the inner loop.  It is the image type the renderer fills and must
/// be tonemapped before viewing.
pub struct RawImage {
    pub data: Vec<Color>,
    pub width: u32,
    pub height: u32,
}

/// The buffer length matches the dimensions and the edges are sane.
pub open spec fn image_wf(img: RawImage) -> bool {
    &&& img.data@.len() == img.width * img.height
    &&& 1 <= img.width <= EDGE_MAX
    &&& 1 <= img.height <= EDGE_MAX
}

/// A view of a rectangle of an image.  It owns its pixel buffer
/// (row-major over its own width) together with the offset of the
/// rectangle in the full image; a finished view is merged back.
pub struct RawImageView {
    pub data: Vec<Color>,
    pub offset_x: u32,
    pub offset_y: u32,
    pub width: u32,
    pub height: u32,
}

/// The view's buffer matches its dimensions.
pub open spec fn view_wf(v: RawImageView) -> bool {
    &&& v.data@.len() == v.width * v.height
    &&& 1 <= v.width <= EDGE_MAX
    &&& 1 <= v.height <= EDGE_MAX
    &&& v.offset_x <= EDGE_MAX
    &&& v.offset_y <= EDGE_MAX
}

/// Pixel `(px, py)` of the image lies in the part of the view's
/// rectangle already copied by the merge loop: a full row strictly
/// before `dy`, or the first `dx` columns of row `dy`.
pub open spec fn merge_covered(v: RawImageView, px: int, py: int, dy: int, dx: int) -> bool {
    v.offset_x <= px < v.offset_x + v.width && (v.offset_y <= py < v.offset_y + dy || (py
        == v.offset_y + dy && v.offset_x <= px < v.offset_x + dx))
}

/// The channel value clamped into `[0, 1]`.
pub open spec fn clamp_unit(x: int) -> int {
    if x < 0 {
        0
    } else if x > SCALE {
        SCALE as int
    } else {
        x
    }
}

pub open spec fn pow5(x: int) -> int {
    x * x * x * x * x
}

pub open spec fn pow11(x: int) -> int {
    x * x * x * x * x * x * x * x * x * x * x
}

/// The largest `k` of at most the given bound with
/// `k^11 <= 256 * x^5` for the clamped channel `x`: gamma correction
/// with exponent 5/11, scaled to `[0, 255]`.
pub open spec fn gamma_search(x: int, k: int) -> int
    decreases k,
{
    if k <= 0 {
        0
    } else if pow11(k) <= 256 * pow5(clamp_unit(x)) {
        k
    } else {
        gamma_search(x, k - 1)
    }
}

/// The tonemapped byte of channel `x`.
pub open spec fn gamma_byte_spec(x: int) -> int {
    gamma_search(x, 255)
}

/// Tonemap one fixed-point channel to a byte.
fn tonemap_channel(x: i64) -> (k: u8)
    ensures
        k == gamma_byte_spec(x as int),
{
    let xc: i64 = if x < 0 {
        0
    } else if x > SCALE {
        SCALE
    } else {
        x
    };
    let b: u128 = xc as u128;
    proof {
        assert(b * b <= 0x100000000 && b * b * b <= 0x1000000000000 && b * b * b * b
            <= 0x10000000000000000 && b * b * b * b * b <= 0x100000000000000000000)
            by (nonlinear_arith)
            requires 0 <= b <= 0x10000;
    }
    let x5: u128 = b * b * b * b * b;
    let target: u128 = 256 * x5;
    let mut k: u8 = 255;
    while k > 0
        invariant
            gamma_search(x as int, k as int) == gamma_byte_spec(x as int),
            target == 256 * pow5(clamp_unit(x as int)),
        decreases k,
    {
        let kk: u128 = k as u128;
        proof {
            lemma_pow11_small(kk as int);
        }
        let k11: u128 = kk * kk * kk * kk * kk * kk * kk * kk * kk * kk * kk;
        if k11 <= target {
            return k;
        }
        k = k - 1;
    }
    0
}

/// Powers of a byte-sized value stay small.
proof fn lemma_pow11_small(k: int)
    requires
        0 <= k <= 255,
    ensures
        k * k <= 0x10000,
        k * k * k <= 0x1000000,
        k * k * k * k <= 0x100000000,
        k * k * k * k * k <= 0x10000000000,
        k * k * k * k * k * k <= 0x1000000000000,
        k * k * k * k * k * k * k <= 0x100000000000000,
        k * k * k * k * k * k * k * k <= 0x10000000000000000,
        k * k * k * k * k * k * k * k * k <= 0x1000000000000000000,
        k * k * k * k * k * k * k * k * k * k <= 0x100000000000000000000,
        k * k * k * k * k * k * k * k * k * k * k <= 0x10000000000000000000000,
        k * k >= 0,
        k * k * k >= 0,
        k * k * k * k >= 0,
        k * k * k * k * k >= 0,
        k * k * k * k * k * k >= 0,
        k * k * k * k * k * k * k >= 0,
        k * k * k * k * k * k * k * k >= 0,
        k * k * k * k * k * k * k * k * k >= 0,
        k * k * k * k * k * k * k * k * k * k >= 0,
        k * k * k * k * k * k * k * k * k * k * k >= 0,
{
    assert(k * k <= 0x10000 && k * k * k <= 0x1000000 && k * k * k * k <= 0x100000000 && k * k * k
        * k * k <= 0x10000000000 && k * k * k * k * k * k <= 0x1000000000000 && k * k * k * k * k
        * k * k <= 0x100000000000000 && k * k * k * k * k * k * k * k <= 0x10000000000000000 && k
        * k * k * k * k * k * k * k * k <= 0x1000000000000000000 && k * k * k * k * k * k * k * k
        * k * k <= 0x100000000000000000000 && k * k * k * k * k * k * k * k * k * k * k
        <= 0x10000000000000000000000 && k * k >= 0 && k * k * k >= 0 && k * k * k * k >= 0 && k * k
        * k * k * k >= 0 && k * k * k * k * k * k >= 0 && k * k * k * k * k * k * k >= 0 && k * k
        * k * k * k * k * k * k >= 0 && k * k * k * k * k * k * k * k * k >= 0 && k * k * k * k * k
        * k * k * k * k * k >= 0 && k * k * k * k * k * k * k * k * k * k * k >= 0)
        by (nonlinear_arith)
        requires 0 <= k <= 255;
}

/// A row-major index is inside the buffer.
pub proof fn lemma_row_major_in_range(w: int, h: int, x: int, y: int)
    requires
        0 <= x < w,
        0 <= y < h,
        w <= EDGE_MAX,
        h <= EDGE_MAX,
    ensures
        0 <= y * w + x < w * h,
        w * h <= 0x10000000,
{
    assert(y * w + x < w * h && w * h <= 0x10000000) by (nonlinear_arith)
        requires 0 <= x < w && 0 <= y < h && w <= 0x4000 && h <= 0x4000;
    assert(y * w + x >= 0) by (nonlinear_arith)
        requires 0 <= x && 0 <= y && w > 0;
}

/// A blank row-major buffer of the given size.
fn blank_buffer(width: u32, height: u32) -> (data: Vec<Color>)
    requires
        1 <= width <= EDGE_MAX,
        1 <= height <= EDGE_MAX,
    ensures
        data@.len() == width * height,
        forall|i: int| 0 <= i < data@.len() ==> data@[i] == (Vec3 { x: 0, y: 0, z: 0 }),
{
    proof {
        lemma_row_major_in_range(width as int, height as int, width - 1, height - 1);
    }
    let total: usize = (width as usize) * (height as usize);
    let mut data: Vec<Color> = Vec::new();
    let mut i: usize = 0;
    while i < total
        invariant
            data@.len() == i <= total,
            forall|j: int| 0 <= j < i ==> data@[j] == (Vec3 { x: 0, y: 0, z: 0 }),
        decreases total - i,
    {
        data.push(Vec3 { x: 0, y: 0, z: 0 });
        i = i + 1;
    }
    data
}

impl RawImage {
    /// A blank image of the given dimensions.
    pub fn new(width: u32, height: u32) -> (img: RawImage)
        requires
            1 <= width <= EDGE_MAX,
            1 <= height <= EDGE_MAX,
        ensures
            image_wf(img),
            img.width == width,
            img.height == height,
            forall|i: int| 0 <= i < img.data@.len() ==> img.data@[i] == (Vec3 { x: 0, y: 0, z: 0 }),
    {
        let data = blank_buffer(width, height);
        RawImage { data, width, height }
    }

    /// Width of the image.
    pub fn width(&self) -> (w: u32)
        ensures
            w == self.width,
    {
        self.width
    }

    /// Height of the image.
    pub fn height(&self) -> (h: u32)
        ensures
            h == self.height,
    {
        self.height
    }

    /// The buffer index of pixel `(x, y)`.
    pub fn xy2Index(&self, x: u32, y: u32) -> (i: usize)
        requires
            image_wf(*self),
            x < self.width,
            y < self.height,
        ensures
            i == y * self.width + x,
            i < self.data@.len(),
    {
        proof {
            lemma_row_major_in_range(self.width as int, self.height as int, x as int, y as int);
        }
        (y as usize) * (self.width as usize) + (x as usize)
    }

    /// A blank view of the rectangle at `(x0, y0)` of the given size,
    /// to be filled and merged back.
    pub fn view(&self, x0: u32, y0: u32, width: u32, height: u32) -> (v: RawImageView)
        requires
            image_wf(*self),
            x0 + width <= self.width,
            y0 + height <= self.height,
            1 <= width,
            1 <= height,
        ensures
            view_wf(v),
            v.offset_x == x0,
            v.offset_y == y0,
            v.width == width,
            v.height == height,
    {
        RawImageView::new(x0, y0, width, height)
    }

    /// Write a finished view's pixels back into the image; pixels
    /// outside the view's rectangle keep their values.
    pub fn merge(&mut self, v: &RawImageView)
        requires
            image_wf(*old(self)),
            view_wf(*v),
            v.offset_x + v.width <= old(self).width,
            v.offset_y + v.height <= old(self).height,
        ensures
            image_wf(*final(self)),
            final(self).width == old(self).width,
            final(self).height == old(self).height,
            forall|px: int, py: int|
                0 <= px < old(self).width && 0 <= py < old(self).height
                    ==> #[trigger] final(self).data@[py * old(self).width + px] == (
                if merge_covered(*v, px, py, v.height as int, 0) {
                    v.data@[(py - v.offset_y) * v.width + (px - v.offset_x)]
                } else {
                    old(self).data@[py * old(self).width + px]
                }),
    {
        let ghost orig = self.data@;
        let ghost w = self.width as int;
        let ghost h = self.height as int;
        let mut dy: u32 = 0;
        while dy < v.height
            invariant
                image_wf(*self),
                view_wf(*v),
                self.width == old(self).width,
                self.height == old(self).height,
                v.offset_x + v.width <= self.width,
                v.offset_y + v.height <= self.height,
                0 <= dy <= v.height,
                orig == old(self).data@,
                w == self.width as int,
                h == self.height as int,
                forall|px: int, py: int|
                    0 <= px < w && 0 <= py < h ==> #[trigger] self.data@[py * w + px] == (
                    if merge_covered(*v, px, py, dy as int, 0) {
                        v.data@[(py - v.offset_y) * v.width + (px - v.offset_x)]
                    } else {
                        orig[py * w + px]
                    }),
            decreases v.height - dy,
        {
            let mut dx: u32 = 0;
            while dx < v.width
                invariant
                    image_wf(*self),
                    view_wf(*v),
                    self.width == old(self).width,
                    self.height == old(self).height,
                    v.offset_x + v.width <= self.width,
                    v.offset_y + v.height <= self.height,
                    0 <= dy < v.height,
                    0 <= dx <= v.width,
                    orig == old(self).data@,
                    w == self.width as int,
                    h == self.height as int,
                    forall|px: int, py: int|
                        0 <= px < w && 0 <= py < h ==> #[trigger] self.data@[py * w + px] == (
                        if merge_covered(*v, px, py, dy as int, dx as int) {
                            v.data@[(py - v.offset_y) * v.width + (px - v.offset_x)]
                        } else {
                            orig[py * w + px]
                        }),
                decreases v.width - dx,
            {
                let px: u32 = v.offset_x + dx;
                let py: u32 = v.offset_y + dy;
                proof {
                    lemma_row_major_in_range(w, h, px as int, py as int);
                    lemma_row_major_in_range(v.width as int, v.height as int, dx as int, dy as int);
                }
                let src: usize = (dy as usize) * (v.width as usize) + (dx as usize);
                let dst: usize = (py as usize) * (self.width as usize) + (px as usize);
                let c = v.data[src];
                let ghost before = self.data@;
                self.data[dst] = c;
                proof {
                    assert forall|qx: int, qy: int| 0 <= qx < w && 0 <= qy < h implies #[trigger]
                        self.data@[qy * w + qx] == (
                        if merge_covered(*v, qx, qy, dy as int, dx as int + 1) {
                            v.data@[(qy - v.offset_y) * v.width + (qx - v.offset_x)]
                        } else {
                            orig[qy * w + qx]
                        }) by {
                        lemma_row_major_in_range(w, h, qx, qy);
                        if qy * w + qx == dst {
                            assert(qx == px && qy == py) by (nonlinear_arith)
                                requires
                                    0 <= qx < w,
                                    0 <= px < w,
                                    qy * w + qx == py * w + px;
                        } else {
                            assert(self.data@[qy * w + qx] == before[qy * w + qx]);
                        }
                    }
                }
                dx = dx + 1;
            }
            dy = dy + 1;
        }
    }

    /// Tonemap to a 24-bit image: row-major pixels, RGB channel
    /// order, each channel gamma corrected and quantised.
    pub fn tonemap(self) -> (out: Vec<u8>)
        requires
            image_wf(self),
        ensures
            out@.len() == 3 * self.data@.len(),
            forall|i: int|
                0 <= i < self.data@.len() ==> {
                    &&& #[trigger] out@[3 * i] == gamma_byte_spec(self.data@[i].x as int)
                    &&& out@[3 * i + 1] == gamma_byte_spec(self.data@[i].y as int)
                    &&& out@[3 * i + 2] == gamma_byte_spec(self.data@[i].z as int)
                },
    {
        proof {
            lemma_row_major_in_range(
                self.width as int,
                self.height as int,
                self.width - 1,
                self.height - 1,
            );
        }
        let mut out: Vec<u8> = Vec::new();
        let mut i: usize = 0;
        while i < self.data.len()
            invariant
                0 <= i <= self.data@.len(),
                self.data@.len() <= 0x10000000,
                out@.len() == 3 * i,
                forall|j: int|
                    0 <= j < i ==> {
                        &&& #[trigger] out@[3 * j] == gamma_byte_spec(self.data@[j].x as int)
                        &&& out@[3 * j + 1] == gamma_byte_spec(self.data@[j].y as int)
                        &&& out@[3 * j + 2] == gamma_byte_spec(self.data@[j].z as int)
                    },
            decreases self.data@.len() - i,
        {
            let c = self.data[i];
            out.push(tonemap_channel(c.x));
            out.push(tonemap_channel(c.y));
            out.push(tonemap_channel(c.z));
            proof {
                assert(out@[3 * (i as int)] == gamma_byte_spec(self.data@[i as int].x as int));
                assert(out@[3 * (i as int) + 1] == gamma_byte_spec(self.data@[i as int].y as int));
                assert(out@[3 * (i as int) + 2] == gamma_byte_spec(self.data@[i as int].z as int));
            }
            i = i + 1;
        }
        out
    }
}

impl RawImageView {
    /// A blank view of the given rectangle.
    pub fn new(x0: u32, y0: u32, width: u32, height: u32) -> (v: RawImageView)
        requires
            1 <= width <= EDGE_MAX,
            1 <= height <= EDGE_MAX,
            x0 <= EDGE_MAX,
            y0 <= EDGE_MAX,
        ensures
            view_wf(v),
            v.offset_x == x0,
            v.offset_y == y0,
            v.width == width,
            v.height == height,
            forall|i: int| 0 <= i < v.data@.len() ==> v.data@[i] == (Vec3 { x: 0, y: 0, z: 0 }),
    {
        let data = blank_buffer(width, height);
        RawImageView { data, offset_x: x0, offset_y: y0, width, height }
    }

    /// The view-local buffer index of `(x, y)`.
    pub fn xy2Index(&self, x: u32, y: u32) -> (i: usize)
        requires
            view_wf(*self),
            x < self.width,
            y < self.height,
        ensures
            i == y * self.width + x,
            i < self.data@.len(),
    {
        proof {
            lemma_row_major_in_range(self.width as int, self.height as int, x as int, y as int);
        }
        (y as usize) * (self.width as usize) + (x as usize)
    }

    /// Set the pixel at `(x, y)` of the view to `color`.
    pub fn set(&mut self, x: u32, y: u32, color: Color)
        requires
            view_wf(*old(self)),
            x < old(self).width,
            y < old(self).height,
        ensures
            view_wf(*final(self)),
            final(self).width == old(self).width,
            final(self).height == old(self).height,
            final(self).offset_x == old(self).offset_x,
            final(self).offset_y == old(self).offset_y,
            final(self).data@ == old(self).data@.update(y * old(self).width + x, color),
    {
        let i = self.xy2Index(x, y);
        self.data[i] = color;
    }

    /// The pixel at `(x, y)` of the view.
    pub fn index(&self, x: u32, y: u32) -> (c: Color)
        requires
            view_wf(*self),
            x < self.width,
            y < self.height,
        ensures
            c == self.data@[y * self.width + x],
    {
        let i = self.xy2Index(x, y);
        self.data[i]
    }
}

} // verus!
