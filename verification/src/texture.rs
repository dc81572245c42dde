//! Surface textures: a constant colour and a three-dimensional
//! checker pattern.

use vstd::prelude::*;
use vstd::arithmetic::div_mod::lemma_fundamental_div_mod_converse;
use crate::fixed::SCALE;
use crate::vec3::{vec_bounded, Color, Vec3};

verus! {

/// Colour components are channel values in `[0, 1]`.
pub open spec fn color_wf(c: Color) -> bool {
    0 <= c.x <= SCALE && 0 <= c.y <= SCALE && 0 <= c.z <= SCALE
}

/// Something that has a colour at each surface point.
pub trait Texture: Sized {
    /// The well-formedness `value` relies on.
    spec fn wf(&self) -> bool;

    /// What `value` returns.
    spec fn value_spec(&self, u: int, v: int, p: Vec3) -> Color;

    /// The colour of the texture at surface coordinates `(u, v)` and
    /// world position `p`.
    fn value(&self, u: i64, v: i64, p: &Vec3) -> (c: Color)
        requires
            self.wf(),
            vec_bounded(*p, 0x1000000000000),
        ensures
            c == self.value_spec(u as int, v as int, *p),
            color_wf(c),
    ;
}

/// The same colour everywhere.
#[derive(Clone, Copy, Debug, PartialEq, Eq, Structural)]
pub struct Constant {
    pub color: Color,
}

impl Constant {
    pub fn new(c: Color) -> (t: Constant)
        ensures
            t.color == c,
    {
        Constant { color: c }
    }
}

impl Texture for Constant {
    open spec fn wf(&self) -> bool {
        color_wf(self.color)
    }

    open spec fn value_spec(&self, u: int, v: int, p: Vec3) -> Color {
        self.color
    }

    fn value(&self, u: i64, v: i64, p: &Vec3) -> (c: Color) {
        self.color
    }
}

/// Division rounding toward negative infinity, used to find the cell
/// a coordinate falls into.
fn floor_div(a: i64, b: i64) -> (q: i64)
    requires
        1 <= b,
        -0x8000000000000 <= a <= 0x8000000000000,
    ensures
        q == a as int / b as int,
        -crate::fixed::absi(a as int) - 1 <= q <= crate::fixed::absi(a as int),
{
    if a >= 0 {
        let r: u64 = (a as u64) / (b as u64);
        proof {
            assert(a as int / b as int <= a) by (nonlinear_arith)
                requires 0 <= a && b >= 1;
            assert(a as int / b as int >= 0) by (nonlinear_arith)
                requires 0 <= a && b >= 1;
        }
        r as i64
    } else {
        let m: u128 = (-(a as i128)) as u128;
        let q0: u128 = m / (b as u128);
        let rm: u128 = m % (b as u128);
        proof {
            vstd::arithmetic::div_mod::lemma_fundamental_div_mod(m as int, b as int);
            assert(q0 <= m) by (nonlinear_arith)
                requires b >= 1 && q0 == m as int / b as int && m >= 0;
        }
        if rm == 0 {
            proof {
                assert(a as int == -(q0 as int) * (b as int) + 0) by (nonlinear_arith)
                    requires
                        m as int == (b as int) * (q0 as int) + (rm as int),
                        rm == 0,
                        a as int == -(m as int);
                lemma_fundamental_div_mod_converse(a as int, b as int, -(q0 as int), 0);
            }
            -(q0 as i64)
        } else {
            proof {
                assert(a as int == (-(q0 as int) - 1) * (b as int) + (b as int - rm as int))
                    by (nonlinear_arith)
                    requires
                        m as int == (b as int) * (q0 as int) + (rm as int),
                        a as int == -(m as int);
                lemma_fundamental_div_mod_converse(
                    a as int,
                    b as int,
                    -(q0 as int) - 1,
                    b as int - rm as int,
                );
            }
            -(q0 as i64) - 1
        }
    }
}

/// A checkerboard over cubic cells of edge `cell`: cells whose index
/// parity is even get one colour, the others the other.
#[derive(Clone, Copy, Debug, PartialEq, Eq, Structural)]
pub struct Checker {
    pub even: Color,
    pub odd: Color,
    pub cell: i64,
}

impl Checker {
    pub fn new(even: Color, odd: Color, cell: i64) -> (t: Checker)
        ensures
            t == (Checker { even, odd, cell }),
    {
        Checker { even, odd, cell }
    }
}

/// The cell-index parity of `p` for cells of edge `cell`.
pub open spec fn checker_parity(p: Vec3, cell: int) -> int {
    (p.x as int / cell + p.y as int / cell + p.z as int / cell) % 2
}

impl Texture for Checker {
    open spec fn wf(&self) -> bool {
        color_wf(self.even) && color_wf(self.odd) && 1 <= self.cell
    }

    open spec fn value_spec(&self, u: int, v: int, p: Vec3) -> Color {
        if checker_parity(p, self.cell as int) == 0 {
            self.even
        } else {
            self.odd
        }
    }

    fn value(&self, u: i64, v: i64, p: &Vec3) -> (c: Color) {
        let kx = floor_div(p.x, self.cell);
        let ky = floor_div(p.y, self.cell);
        let kz = floor_div(p.z, self.cell);
        let sum = kx + ky + kz;
        let half = floor_div(sum, 2);
        proof {
            vstd::arithmetic::div_mod::lemma_fundamental_div_mod(sum as int, 2);
        }
        let par = sum - 2 * half;
        if par == 0 {
            self.even
        } else {
            self.odd
        }
    }
}

/// Any texture a material can carry.
#[derive(Clone, Copy, Debug, PartialEq, Eq, Structural)]
pub enum AnyTexture {
    Constant(Constant),
    Checker(Checker),
}

impl Texture for AnyTexture {
    open spec fn wf(&self) -> bool {
        match *self {
            AnyTexture::Constant(t) => t.wf(),
            AnyTexture::Checker(t) => t.wf(),
        }
    }

    open spec fn value_spec(&self, u: int, v: int, p: Vec3) -> Color {
        match *self {
            AnyTexture::Constant(t) => t.value_spec(u, v, p),
            AnyTexture::Checker(t) => t.value_spec(u, v, p),
        }
    }

    fn value(&self, u: i64, v: i64, p: &Vec3) -> (c: Color) {
        match self {
            AnyTexture::Constant(t) => t.value(u, v, p),
            AnyTexture::Checker(t) => t.value(u, v, p),
        }
    }
}

} // verus!
