//! Fixed-point scalar arithmetic.
//!
//! A raw `i64` value `x` stands for the real number `x / SCALE`.
//! Multiplication and division of fixed-point values truncate toward
//! zero, as `tdiv` specifies; square roots round down.

use vstd::prelude::*;

verus! {

/// Scale of the fixed-point representation: one unit of value.
pub const SCALE: i64 = 65536;

/// Largest magnitude a scene coordinate may have (value 1024).
pub const COORD_MAX: i64 = 67108864;

/// Largest magnitude a ray direction component may have (value 512).
pub const DIR_MAX: i64 = 33554432;

/// Largest magnitude a surface-normal component may have (value 2);
/// normals are direction-like and near unit length.
pub const NORMAL_MAX: i64 = 131072;

/// Absolute value of a mathematical integer.
pub open spec fn absi(a: int) -> int {
    if a >= 0 {
        a
    } else {
        -a
    }
}

/// Integer division truncating toward zero, the rounding used by all
/// fixed-point operations.  Unspecified for `b == 0`.
pub open spec fn tdiv(a: int, b: int) -> int {
    if (a >= 0) == (b >= 0) {
        absi(a) / absi(b)
    } else {
        -(absi(a) / absi(b))
    }
}

/// The value of the fixed-point product of `a` and `b`.
pub open spec fn fx_mul_spec(a: int, b: int) -> int {
    tdiv(a * b, SCALE as int)
}

/// The value of the fixed-point quotient of `a` by `b`.
pub open spec fn fx_div_spec(a: int, b: int) -> int {
    tdiv(a * SCALE, b)
}

/// `r` is the square root of `n` rounded down.
pub open spec fn is_isqrt(n: int, r: int) -> bool {
    0 <= r && r * r <= n < (r + 1) * (r + 1)
}

/// The square root of `n` rounded down, as a function.
pub open spec fn isqrt_spec(n: int) -> int
    decreases n,
{
    if n <= 0 {
        0
    } else {
        let r = isqrt_spec(n - 1);
        if (r + 1) * (r + 1) <= n {
            r + 1
        } else {
            r
        }
    }
}

/// The value of the fixed-point square root of `x`.
pub open spec fn fx_sqrt_spec(x: int) -> int {
    isqrt_spec(x * SCALE)
}

/// `isqrt_spec` is the rounded-down square root.
pub proof fn lemma_isqrt(n: int)
    requires
        n >= 0,
    ensures
        is_isqrt(n, isqrt_spec(n)),
    decreases n,
{
    if n == 0 {
    } else {
        lemma_isqrt(n - 1);
        let r = isqrt_spec(n - 1);
        assert(is_isqrt(n, if (r + 1) * (r + 1) <= n { r + 1 } else { r }))
            by (nonlinear_arith)
            requires
                n >= 1,
                0 <= r && r * r <= n - 1 < (r + 1) * (r + 1);
    }
}

/// Two rounded-down square roots of the same number are equal.
pub proof fn lemma_isqrt_unique(n: int, r1: int, r2: int)
    requires
        is_isqrt(n, r1),
        is_isqrt(n, r2),
    ensures
        r1 == r2,
{
    assert(r1 == r2) by (nonlinear_arith)
        requires
            0 <= r1 && r1 * r1 <= n < (r1 + 1) * (r1 + 1),
            0 <= r2 && r2 * r2 <= n < (r2 + 1) * (r2 + 1);
}

/// The magnitude of a truncating quotient is at most the magnitude of
/// the dividend divided by the divisor.
pub proof fn lemma_tdiv_bound(a: int, b: int, cap: int)
    requires
        b >= 1,
        absi(a) <= cap,
    ensures
        absi(tdiv(a, b)) <= cap / b,
        absi(tdiv(a, b)) <= cap,
{
    assert(absi(a) / b <= cap / b) by (nonlinear_arith)
        requires b >= 1 && 0 <= absi(a) <= cap;
    assert(cap / b <= cap) by (nonlinear_arith)
        requires b >= 1 && cap >= 0;
    assert(absi(a) / b >= 0) by (nonlinear_arith)
        requires b >= 1 && absi(a) >= 0;
}

/// Truncating division by a positive divisor is monotone.
pub proof fn lemma_tdiv_mono(a1: int, a2: int, b: int)
    requires
        b >= 1,
        a1 <= a2,
    ensures
        tdiv(a1, b) <= tdiv(a2, b),
{
    if a1 >= 0 {
        assert(a1 / b <= a2 / b) by (nonlinear_arith)
            requires b >= 1 && 0 <= a1 <= a2;
    } else if a2 < 0 {
        assert((-a2) / b <= (-a1) / b) by (nonlinear_arith)
            requires b >= 1 && 0 <= -a2 <= -a1;
    } else {
        assert((-a1) / b >= 0 && a2 / b >= 0) by (nonlinear_arith)
            requires b >= 1 && -a1 >= 0 && a2 >= 0;
    }
}

/// A product of bounded factors is bounded.
pub proof fn lemma_abs_mul(a: int, b: int, ca: int, cb: int)
    requires
        absi(a) <= ca,
        absi(b) <= cb,
    ensures
        absi(a * b) <= ca * cb,
{
    assert(absi(a * b) <= ca * cb) by (nonlinear_arith)
        requires absi(a) <= ca && absi(b) <= cb;
}

/// `fx_mul_spec(a, b)` fits in an `i64`.
pub open spec fn fx_mul_fits(a: int, b: int) -> bool {
    -0x7fffffffffffffff <= fx_mul_spec(a, b) <= 0x7fffffffffffffff
}

/// `fx_div_spec(a, b)` fits in an `i64`.
pub open spec fn fx_div_fits(a: int, b: int) -> bool {
    -0x7fffffffffffffff <= fx_div_spec(a, b) <= 0x7fffffffffffffff
}

/// Bounded factors give a bounded, representable fixed-point product.
pub proof fn lemma_fx_mul_in(a: int, b: int, ca: int, cb: int)
    requires
        absi(a) <= ca,
        absi(b) <= cb,
        ca * cb <= 0x7fffffffffffffff * 0x10000,
    ensures
        fx_mul_fits(a, b),
        absi(fx_mul_spec(a, b)) <= (ca * cb) / 0x10000,
{
    lemma_abs_mul(a, b, ca, cb);
    lemma_tdiv_bound(a * b, 0x10000, ca * cb);
    assert((ca * cb) / 0x10000 <= 0x7fffffffffffffff) by (nonlinear_arith)
        requires 0 <= ca * cb <= 0x7fffffffffffffff * 0x10000;
}

/// A bounded dividend gives a representable fixed-point quotient.
pub proof fn lemma_fx_div_in(a: int, b: int, ca: int)
    requires
        absi(a) <= ca,
        b != 0,
        ca * 0x10000 <= 0x7fffffffffffffff,
    ensures
        fx_div_fits(a, b),
        absi(fx_div_spec(a, b)) <= ca * 0x10000,
{
    lemma_abs_mul(a, SCALE as int, ca, 0x10000);
    if b >= 1 {
        lemma_tdiv_bound(a * 0x10000, b, ca * 0x10000);
    } else {
        lemma_tdiv_flip(a * 0x10000, b);
        lemma_tdiv_bound(a * 0x10000, -b, ca * 0x10000);
    }
}

/// Truncating division of `a` by a positive `b`, on `i128` operands.
pub fn tdiv_i128(a: i128, b: i128) -> (r: i128)
    requires
        b >= 1,
        a > i128::MIN,
    ensures
        r == tdiv(a as int, b as int),
{
    if a >= 0 {
        let q: u128 = (a as u128) / (b as u128);
        proof {
            lemma_tdiv_bound(a as int, b as int, a as int);
        }
        q as i128
    } else {
        let q: u128 = ((-a) as u128) / (b as u128);
        proof {
            lemma_tdiv_bound(a as int, b as int, -a as int);
        }
        -(q as i128)
    }
}

/// Fixed-point product, exact up to the specified truncation.
pub fn fx_mul(a: i64, b: i64) -> (r: i64)
    requires
        -0x7fffffffffffffff <= fx_mul_spec(a as int, b as int) <= 0x7fffffffffffffff,
    ensures
        r == fx_mul_spec(a as int, b as int),
{
    proof {
        lemma_abs_mul(a as int, b as int, 0x8000000000000000, 0x8000000000000000);
    }
    let p: i128 = (a as i128) * (b as i128);
    let q: i128 = tdiv_i128(p, SCALE as i128);
    q as i64
}

/// Fixed-point quotient, exact up to the specified truncation.
/// The divisor must not be zero; division by zero is a degenerate
/// case that every caller screens out first.
pub fn fx_div(a: i64, b: i64) -> (r: i64)
    requires
        b != 0,
        -0x7fffffffffffffff <= fx_div_spec(a as int, b as int) <= 0x7fffffffffffffff,
    ensures
        r == fx_div_spec(a as int, b as int),
{
    let p: i128 = (a as i128) * (SCALE as i128);
    if b >= 1 {
        let q: i128 = tdiv_i128(p, b as i128);
        q as i64
    } else {
        let q: i128 = tdiv_i128(p, -(b as i128));
        proof {
            lemma_tdiv_flip(p as int, b as int);
        }
        (-q) as i64
    }
}

/// Negating the divisor negates a truncating quotient.
proof fn lemma_tdiv_flip(a: int, b: int)
    requires
        b != 0,
    ensures
        tdiv(a, b) == -tdiv(a, -b),
{
}

/// Square root of a `u128`, rounded down.  The bound on `n` keeps the
/// binary search window to 40 bits.
fn isqrt_u128(n: u128) -> (r: u128)
    requires
        n < 0x100000000000000000000,
    ensures
        is_isqrt(n as int, r as int),
{
    let mut lo: u128 = 0;
    let mut hi: u128 = 0x10000000000;
    while hi - lo > 1
        invariant
            lo < hi <= 0x10000000000,
            (lo * lo) as int <= n as int,
            n < (hi as int) * (hi as int),
        decreases hi - lo,
    {
        let mid: u128 = lo + (hi - lo) / 2;
        proof {
            assert(mid as int * mid as int <= 0x10000000000 * 0x10000000000)
                by (nonlinear_arith)
                requires 0 <= mid as int <= 0x10000000000;
        }
        if mid * mid <= n {
            lo = mid;
        } else {
            hi = mid;
        }
    }
    lo
}

/// Fixed-point square root: the root of `x` as a value, rounded down.
pub fn fx_sqrt(x: i64) -> (r: i64)
    requires
        x >= 0,
    ensures
        r >= 0,
        r == fx_sqrt_spec(x as int),
        is_isqrt(x as int * SCALE as int, r as int),
{
    proof {
        assert(x as int * 65536 < 0x100000000000000000000) by (nonlinear_arith)
            requires 0 <= x as int <= 0x7fffffffffffffff;
    }
    let n: u128 = (x as u128) * (SCALE as u128);
    let r: u128 = isqrt_u128(n);
    proof {
        assert(r as int * r as int <= n as int);
        assert(r < 0x10000000000) by (nonlinear_arith)
            requires
                r as int * r as int <= n as int,
                n < 0x100000000000000000000,
                r >= 0;
        lemma_isqrt(n as int);
        lemma_isqrt_unique(n as int, r as int, isqrt_spec(n as int));
    }
    r as i64
}

} // verus!
