//! Partitioning the canvas into rectangular tiles, the unit of
//! parallel work.

#![allow(non_snake_case)]

use vstd::prelude::*;
use crate::raw::{view_wf, RawImageView, EDGE_MAX};

verus! {

/// A rectangular sub-region of the output image: its grid position
/// and its half-open pixel ranges on each axis.
#[derive(Clone, Copy, Debug)]
pub struct CanvasTile {
    pub tile_idx: (u32, u32),
    pub xrange: (u32, u32),
    pub yrange: (u32, u32),
}

/// The canvas cut into a grid of square tiles; the last row and
/// column are clamped to the image edge.  `next_tile` is the cursor
/// of `nextTile`.
pub struct TiledCanvas {
    pub width: u32,
    pub height: u32,
    pub tile_size: u32,
    pub tile_count_x: u32,
    pub tile_count_y: u32,
    pub next_tile: u32,
}

/// The tile counts are the ceiling quotients of the dimensions.
pub open spec fn canvas_wf(c: TiledCanvas) -> bool {
    &&& 1 <= c.width <= EDGE_MAX
    &&& 1 <= c.height <= EDGE_MAX
    &&& 1 <= c.tile_size <= EDGE_MAX
    &&& c.tile_count_x == (c.width + c.tile_size - 1) / (c.tile_size as int)
    &&& c.tile_count_y == (c.height + c.tile_size - 1) / (c.tile_size as int)
}

/// The tile of index `i`: row-major over the tile grid, each tile's
/// ranges clamped to the image edge.
pub open spec fn tile_at_spec(c: TiledCanvas, i: int) -> CanvasTile {
    let tix = i % (c.tile_count_x as int);
    let tiy = i / (c.tile_count_x as int);
    let ts = c.tile_size as int;
    CanvasTile {
        tile_idx: ((tix) as u32, (tiy) as u32),
        xrange: ((tix * ts) as u32, (if (tix + 1) * ts > c.width {
            c.width as int
        } else {
            (tix + 1) * ts
        }) as u32),
        yrange: ((tiy * ts) as u32, (if (tiy + 1) * ts > c.height {
            c.height as int
        } else {
            (tiy + 1) * ts
        }) as u32),
    }
}

impl TiledCanvas {
    /// Cut a canvas into tiles of edge `tile_size`: the tile counts
    /// are the dimensions divided by the tile size, rounded up.
    pub fn new(width: u32, height: u32, tile_size: u32) -> (c: TiledCanvas)
        requires
            1 <= width <= EDGE_MAX,
            1 <= height <= EDGE_MAX,
            1 <= tile_size <= EDGE_MAX,
        ensures
            canvas_wf(c),
            c.width == width,
            c.height == height,
            c.tile_size == tile_size,
            c.next_tile == 0,
    {
        let tcx = if width % tile_size == 0 {
            width / tile_size
        } else {
            width / tile_size + 1
        };
        let tcy = if height % tile_size == 0 {
            height / tile_size
        } else {
            height / tile_size + 1
        };
        proof {
            lemma_ceil_div(width as int, tile_size as int);
            lemma_ceil_div(height as int, tile_size as int);
        }
        TiledCanvas {
            width,
            height,
            tile_size,
            tile_count_x: tcx,
            tile_count_y: tcy,
            next_tile: 0,
        }
    }

    /// The tile of index `i`, or nothing past the end of the grid.
    pub fn at(&self, i: u32) -> (t: Option<CanvasTile>)
        requires
            canvas_wf(*self),
        ensures
            (i >= self.tile_count_x * self.tile_count_y) ==> t is None,
            (i < self.tile_count_x * self.tile_count_y) ==> t == Some(tile_at_spec(*self, i as int)),
    {
        proof {
            lemma_counts_in_range(*self);
        }
        if i >= self.tile_count_x * self.tile_count_y {
            return None;
        }
        let tile_idx_y = i / self.tile_count_x;
        let tile_idx_x = i % self.tile_count_x;
        proof {
            lemma_grid_cell(*self, i as int);
        }
        let x0 = tile_idx_x * self.tile_size;
        let mut x1 = (tile_idx_x + 1) * self.tile_size;
        if x1 > self.width {
            x1 = self.width;
        }
        let y0 = tile_idx_y * self.tile_size;
        let mut y1 = (tile_idx_y + 1) * self.tile_size;
        if y1 > self.height {
            y1 = self.height;
        }
        Some(CanvasTile { tile_idx: (tile_idx_x, tile_idx_y), xrange: (x0, x1), yrange: (y0, y1) })
    }

    /// The next unclaimed tile, advancing the cursor; nothing once
    /// every tile has been handed out.
    pub fn nextTile(&mut self) -> (t: Option<CanvasTile>)
        requires
            canvas_wf(*old(self)),
        ensures
            canvas_wf(*final(self)),
            final(self).width == old(self).width,
            final(self).height == old(self).height,
            final(self).tile_size == old(self).tile_size,
            final(self).tile_count_x == old(self).tile_count_x,
            final(self).tile_count_y == old(self).tile_count_y,
            old(self).next_tile < old(self).tile_count_x * old(self).tile_count_y ==> (t == Some(
                tile_at_spec(*old(self), old(self).next_tile as int),
            ) && final(self).next_tile == old(self).next_tile + 1),
            old(self).next_tile >= old(self).tile_count_x * old(self).tile_count_y ==> (t is None
                && final(self).next_tile == old(self).next_tile),
    {
        let t_maybe = self.at(self.next_tile);
        if t_maybe.is_some() {
            proof {
                lemma_counts_in_range(*self);
            }
            self.next_tile = self.next_tile + 1;
        }
        t_maybe
    }

    /// One blank view per tile, in index order, each placed at its
    /// tile's rectangle.
    pub fn tiles(&self) -> (out: Vec<RawImageView>)
        requires
            canvas_wf(*self),
        ensures
            out@.len() == self.tile_count_x * self.tile_count_y,
            forall|k: int|
                0 <= k < out@.len() ==> {
                    let t = tile_at_spec(*self, k);
                    &&& view_wf(#[trigger] out@[k])
                    &&& out@[k].offset_x == t.xrange.0
                    &&& out@[k].offset_y == t.yrange.0
                    &&& out@[k].width == t.xrange.1 - t.xrange.0
                    &&& out@[k].height == t.yrange.1 - t.yrange.0
                },
    {
        proof {
            lemma_counts_in_range(*self);
        }
        let total: u32 = self.tile_count_x * self.tile_count_y;
        let mut out: Vec<RawImageView> = Vec::new();
        let mut k: u32 = 0;
        while k < total
            invariant
                canvas_wf(*self),
                total == self.tile_count_x * self.tile_count_y,
                total <= 0x10000000,
                0 <= k <= total,
                out@.len() == k,
                forall|j: int|
                    0 <= j < k ==> {
                        let t = tile_at_spec(*self, j);
                        &&& view_wf(#[trigger] out@[j])
                        &&& out@[j].offset_x == t.xrange.0
                        &&& out@[j].offset_y == t.yrange.0
                        &&& out@[j].width == t.xrange.1 - t.xrange.0
                        &&& out@[j].height == t.yrange.1 - t.yrange.0
                    },
            decreases total - k,
        {
            let t = self.at(k);
            match t {
                Some(tile) => {
                    proof {
                        lemma_tile_rect_sane(*self, k as int);
                    }
                    let v = RawImageView::new(
                        tile.xrange.0,
                        tile.yrange.0,
                        tile.xrange.1 - tile.xrange.0,
                        tile.yrange.1 - tile.yrange.0,
                    );
                    out.push(v);
                },
                None => {
                    // Unreachable: every index below the tile count
                    // yields a tile.
                    proof {
                        assert(false);
                    }
                },
            }
            k = k + 1;
        }
        out
    }
}

/// The branch on divisibility computes the ceiling quotient.
proof fn lemma_ceil_div(w: int, ts: int)
    requires
        1 <= w,
        1 <= ts,
    ensures
        (if w % ts == 0 {
            w / ts
        } else {
            w / ts + 1
        }) == (w + ts - 1) / ts,
        1 <= (w + ts - 1) / ts <= w,
{
    vstd::arithmetic::div_mod::lemma_fundamental_div_mod(w as int, ts as int);
    assert((if w % ts == 0 {
        w / ts
    } else {
        w / ts + 1
    }) == (w + ts - 1) / ts && 1 <= (w + ts - 1) / ts <= w) by (nonlinear_arith)
        requires 1 <= w && 1 <= ts && w == ts * (w / ts) + w % ts && 0 <= w % ts < ts;
}

/// The tile counts and their product stay in range.
pub proof fn lemma_counts_in_range(c: TiledCanvas)
    requires
        canvas_wf(c),
    ensures
        1 <= c.tile_count_x <= c.width,
        1 <= c.tile_count_y <= c.height,
        c.tile_count_x * c.tile_count_y <= 0x10000000,
{
    lemma_ceil_div(c.width as int, c.tile_size as int);
    lemma_ceil_div(c.height as int, c.tile_size as int);
    assert(c.tile_count_x * c.tile_count_y <= 0x10000000) by (nonlinear_arith)
        requires
            1 <= c.tile_count_x <= 0x4000,
            1 <= c.tile_count_y <= 0x4000;
}

/// The grid coordinates of a valid tile index are in range and its
/// clamped rectangle is nonempty and inside the image.
proof fn lemma_grid_cell(c: TiledCanvas, i: int)
    requires
        canvas_wf(c),
        0 <= i < c.tile_count_x * c.tile_count_y,
    ensures
        0 <= i % (c.tile_count_x as int) < c.tile_count_x,
        0 <= i / (c.tile_count_x as int) < c.tile_count_y,
        (i % (c.tile_count_x as int) + 1) * c.tile_size <= 0x10000000,
        (i / (c.tile_count_x as int) + 1) * c.tile_size <= 0x10000000,
        i % (c.tile_count_x as int) * (c.tile_size as int) < c.width,
        i / (c.tile_count_x as int) * (c.tile_size as int) < c.height,
{
    lemma_counts_in_range(c);
    let tcx = c.tile_count_x as int;
    let ts = c.tile_size as int;
    let tix = i % tcx;
    let tiy = i / tcx;
    vstd::arithmetic::div_mod::lemma_fundamental_div_mod(i, tcx);
    vstd::arithmetic::div_mod::lemma_mod_pos_bound(i, tcx);
    assert(0 <= tix < tcx);
    assert(0 <= tiy) by (nonlinear_arith)
        requires
            i >= 0,
            tcx >= 1,
            i == tcx * tiy + tix,
            0 <= tix < tcx;
    assert(tiy < c.tile_count_y) by (nonlinear_arith)
        requires
            i < tcx * (c.tile_count_y as int),
            i == tcx * tiy + tix,
            0 <= tix < tcx,
            tcx >= 1;
    assert((tix + 1) * ts <= 0x10000000 && (tiy + 1) * ts <= 0x10000000) by (nonlinear_arith)
        requires
            0 <= tix < 0x4000 && 0 <= tiy < 0x4000 && 1 <= ts <= 0x4000;
    lemma_ceil_div(c.width as int, ts);
    lemma_ceil_div(c.height as int, ts);
    vstd::arithmetic::div_mod::lemma_fundamental_div_mod(c.width + ts - 1, ts);
    vstd::arithmetic::div_mod::lemma_mod_pos_bound(c.width + ts - 1, ts);
    vstd::arithmetic::div_mod::lemma_fundamental_div_mod(c.height + ts - 1, ts);
    vstd::arithmetic::div_mod::lemma_mod_pos_bound(c.height + ts - 1, ts);
    assert(tix * ts < c.width) by (nonlinear_arith)
        requires
            0 <= tix < (c.width + ts - 1) / ts,
            1 <= ts,
            c.width >= 1,
            (c.width + ts - 1) == ts * ((c.width + ts - 1) / ts) + (c.width + ts - 1) % ts,
            0 <= (c.width + ts - 1) % ts < ts;
    assert(tiy * ts < c.height) by (nonlinear_arith)
        requires
            0 <= tiy < (c.height + ts - 1) / ts,
            1 <= ts,
            c.height >= 1,
            (c.height + ts - 1) == ts * ((c.height + ts - 1) / ts) + (c.height + ts - 1) % ts,
            0 <= (c.height + ts - 1) % ts < ts;
}

/// A valid tile's rectangle is nonempty, no larger than a tile, and
/// inside the image.
pub proof fn lemma_tile_rect_sane(c: TiledCanvas, i: int)
    requires
        canvas_wf(c),
        0 <= i < c.tile_count_x * c.tile_count_y,
    ensures
        ({
            let t = tile_at_spec(c, i);
            &&& t.xrange.0 < t.xrange.1 <= c.width
            &&& t.yrange.0 < t.yrange.1 <= c.height
            &&& t.xrange.1 - t.xrange.0 <= c.tile_size
            &&& t.yrange.1 - t.yrange.0 <= c.tile_size
        }),
{
    lemma_grid_cell(c, i);
    let tcx = c.tile_count_x as int;
    let ts = c.tile_size as int;
    let tix = i % tcx;
    let tiy = i / tcx;
    assert(tix * ts < (tix + 1) * ts && (tix + 1) * ts - tix * ts == ts) by (nonlinear_arith)
        requires ts >= 1;
    assert(tiy * ts < (tiy + 1) * ts && (tiy + 1) * ts - tiy * ts == ts) by (nonlinear_arith)
        requires ts >= 1;
}

/// Coverage: every pixel of the image lies in the rectangle of the
/// tile whose grid cell contains it, and that tile index is valid.
pub proof fn lemma_tiles_cover(c: TiledCanvas, px: int, py: int)
    requires
        canvas_wf(c),
        0 <= px < c.width,
        0 <= py < c.height,
    ensures
        ({
            let ts = c.tile_size as int;
            let i = (py / ts) * (c.tile_count_x as int) + px / ts;
            let t = tile_at_spec(c, i);
            &&& 0 <= i < c.tile_count_x * c.tile_count_y
            &&& t.xrange.0 <= px < t.xrange.1
            &&& t.yrange.0 <= py < t.yrange.1
        }),
{
    lemma_counts_in_range(c);
    let ts = c.tile_size as int;
    let tcx = c.tile_count_x as int;
    let tcy = c.tile_count_y as int;
    let gx = px / ts;
    let gy = py / ts;
    let i = gy * tcx + gx;
    vstd::arithmetic::div_mod::lemma_fundamental_div_mod(px, ts);
    vstd::arithmetic::div_mod::lemma_mod_pos_bound(px, ts);
    vstd::arithmetic::div_mod::lemma_fundamental_div_mod(py, ts);
    vstd::arithmetic::div_mod::lemma_mod_pos_bound(py, ts);
    vstd::arithmetic::div_mod::lemma_fundamental_div_mod(c.width + ts - 1, ts);
    vstd::arithmetic::div_mod::lemma_mod_pos_bound(c.width + ts - 1, ts);
    vstd::arithmetic::div_mod::lemma_fundamental_div_mod(c.height + ts - 1, ts);
    vstd::arithmetic::div_mod::lemma_mod_pos_bound(c.height + ts - 1, ts);
    assert(0 <= gx < tcx && gx * ts <= px < (gx + 1) * ts) by (nonlinear_arith)
        requires
            0 <= px < c.width,
            1 <= ts,
            gx == px / ts,
            px == ts * gx + px % ts,
            0 <= px % ts < ts,
            tcx == (c.width + ts - 1) / ts,
            (c.width + ts - 1) == ts * tcx + (c.width + ts - 1) % ts,
            0 <= (c.width + ts - 1) % ts < ts;
    assert(0 <= gy < tcy && gy * ts <= py < (gy + 1) * ts) by (nonlinear_arith)
        requires
            0 <= py < c.height,
            1 <= ts,
            gy == py / ts,
            py == ts * gy + py % ts,
            0 <= py % ts < ts,
            tcy == (c.height + ts - 1) / ts,
            (c.height + ts - 1) == ts * tcy + (c.height + ts - 1) % ts,
            0 <= (c.height + ts - 1) % ts < ts;
    assert(0 <= i < tcx * tcy && i % tcx == gx && i / tcx == gy) by (nonlinear_arith)
        requires
            0 <= gx < tcx,
            0 <= gy < tcy,
            i == gy * tcx + gx,
            tcx >= 1;
}

/// Disjointness: no pixel lies in the rectangles of two distinct
/// tiles.
pub proof fn lemma_tiles_disjoint(c: TiledCanvas, i: int, j: int, px: int, py: int)
    requires
        canvas_wf(c),
        0 <= i < c.tile_count_x * c.tile_count_y,
        0 <= j < c.tile_count_x * c.tile_count_y,
        tile_at_spec(c, i).xrange.0 <= px < tile_at_spec(c, i).xrange.1,
        tile_at_spec(c, i).yrange.0 <= py < tile_at_spec(c, i).yrange.1,
        tile_at_spec(c, j).xrange.0 <= px < tile_at_spec(c, j).xrange.1,
        tile_at_spec(c, j).yrange.0 <= py < tile_at_spec(c, j).yrange.1,
    ensures
        i == j,
{
    lemma_grid_cell(c, i);
    lemma_grid_cell(c, j);
    lemma_tile_rect_sane(c, i);
    lemma_tile_rect_sane(c, j);
    let tcx = c.tile_count_x as int;
    let ts = c.tile_size as int;
    vstd::arithmetic::div_mod::lemma_fundamental_div_mod(i, tcx);
    vstd::arithmetic::div_mod::lemma_mod_pos_bound(i, tcx);
    vstd::arithmetic::div_mod::lemma_fundamental_div_mod(j, tcx);
    vstd::arithmetic::div_mod::lemma_mod_pos_bound(j, tcx);
    assert(i % tcx == j % tcx) by (nonlinear_arith)
        requires
            (i % tcx) * ts <= px < (i % tcx + 1) * ts,
            (j % tcx) * ts <= px < (j % tcx + 1) * ts,
            ts >= 1;
    assert(i / tcx == j / tcx) by (nonlinear_arith)
        requires
            (i / tcx) * ts <= py < (i / tcx + 1) * ts,
            (j / tcx) * ts <= py < (j / tcx + 1) * ts,
            ts >= 1;
    assert(i == j) by (nonlinear_arith)
        requires
            i == tcx * (i / tcx) + i % tcx,
            j == tcx * (j / tcx) + j % tcx,
            i / tcx == j / tcx,
            i % tcx == j % tcx;
}

} // verus!
