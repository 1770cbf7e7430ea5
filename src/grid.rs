//! Conversions between physical lengths (micrometres) and grid lattice
//! coordinates, and the integer square root used for the tool's sag.
use vstd::prelude::*;

verus! {

/// A lattice point: (x, vertical, z) in grid cells.
pub type Voxel = (i64, i64, i64);

/// Integer division that rounds toward zero, as Rust's `/` does.
pub open spec fn trunc_div(a: int, b: int) -> int {
    if a >= 0 {
        a / b
    } else {
        -((-a) / b)
    }
}

/// `v` clamped into the range of `i32`, as a float-to-`i32` cast does.
pub open spec fn saturate_i32(v: int) -> int {
    if v > i32::MAX {
        i32::MAX as int
    } else if v < i32::MIN {
        i32::MIN as int
    } else {
        v
    }
}

pub open spec fn in_i32(v: int) -> bool {
    i32::MIN <= v <= i32::MAX
}

pub open spec fn voxel_in_i32(p: Voxel) -> bool {
    in_i32(p.0 as int) && in_i32(p.1 as int) && in_i32(p.2 as int)
}

/// The lattice coordinate of a physical coordinate `micros` along an axis
/// that is `size` micrometres long and split into `cells` cells: the number of
/// whole cells, rounded toward zero, within the range of `i32`.
pub open spec fn to_lattice(micros: int, size: int, cells: int) -> int {
    saturate_i32(trunc_div(micros * cells, size))
}

/// The physical coordinate (micrometres, rounded down) of lattice coordinate
/// `p` along an axis that is `size` micrometres long and split into `cells`
/// cells.
pub open spec fn to_micros(p: int, size: int, cells: int) -> int {
    (p * size) / cells
}

/// Toolpath axes (x, y, z) in grid order (x, vertical, z): the toolpath's Y
/// is the grid's second planar axis and its Z is the vertical one.
pub open spec fn toolpath_to_grid<T>(x: T, y: T, z: T) -> (T, T, T) {
    (x, z, y)
}

/// Puts the toolpath axes (x, y, z) in grid order (see `toolpath_to_grid`).
pub fn toolpath_axes_to_grid(
    x: Option<i64>,
    y: Option<i64>,
    z: Option<i64>,
) -> (r: (Option<i64>, Option<i64>, Option<i64>))
    ensures
        r == toolpath_to_grid(x, y, z),
{
    (x, z, y)
}

/// See `to_lattice`.
pub fn lattice_of(micros: i64, size: u32, cells: u32) -> (r: i64)
    requires
        size > 0,
    ensures
        r == to_lattice(micros as int, size as int, cells as int),
        in_i32(r as int),
{
    assert(-0x1_0000_0000_0000_0000_0000_0000int < (micros as int) * (cells as int)
        < 0x1_0000_0000_0000_0000_0000_0000int) by (nonlinear_arith)
        requires
            i64::MIN <= micros <= i64::MAX,
            0 <= cells <= u32::MAX,
    ;
    let product: i128 = micros as i128 * cells as i128;
    let q: i128 = if product >= 0 {
        product / size as i128
    } else {
        -((-product) / size as i128)
    };
    if q > i32::MAX as i128 {
        i32::MAX as i64
    } else if q < i32::MIN as i128 {
        i32::MIN as i64
    } else {
        q as i64
    }
}

/// See `to_micros`.
pub fn micros_of(p: i64, size: u32, cells: u32) -> (r: i64)
    requires
        cells > 0,
        in_i32(p as int),
    ensures
        r == to_micros(p as int, size as int, cells as int),
{
    assert(-0x7fff_ffff_8000_0000int <= (p as int) * (size as int) <= 0x7fff_ffff_8000_0000int)
        by (nonlinear_arith)
        requires
            i32::MIN <= p <= i32::MAX,
            0 <= size <= u32::MAX,
    ;
    let product: i64 = p * size as i64;
    let c: i64 = cells as i64;
    if product >= 0 {
        product / c
    } else {
        proof {
            let a = product as int;
            let b = c as int;
            let q = (-a - 1) / b;
            let m = (-a - 1) % b;
            assert(-a - 1 == q * b + m && 0 <= m < b) by {
                vstd::arithmetic::div_mod::lemma_fundamental_div_mod(-a - 1, b);
            }
            assert(a == (-q - 1) * b + (b - 1 - m)) by (nonlinear_arith)
                requires
                    -a - 1 == q * b + m,
            ;
            vstd::arithmetic::div_mod::lemma_fundamental_div_mod_converse(
                a,
                b,
                -q - 1,
                b - 1 - m,
            );
        }
        -((-product - 1) / c) - 1
    }
}

/// The largest `r` with `r * r <= n`.
pub fn isqrt(n: u64) -> (r: u64)
    ensures
        r * r <= n < (r + 1) * (r + 1),
{
    let mut lo: u64 = 0;
    let mut hi: u64 = 0x1_0000_0000;
    assert(hi * hi > n) by (nonlinear_arith)
        requires
            hi == 0x1_0000_0000,
            n <= u64::MAX,
    ;
    while hi - lo > 1
        invariant
            lo < hi <= 0x1_0000_0000,
            lo * lo <= n < hi * hi,
        decreases hi - lo,
    {
        let mid: u64 = lo + (hi - lo) / 2;
        assert(mid * mid <= u64::MAX) by (nonlinear_arith)
            requires
                mid < 0x1_0000_0000,
        ;
        if mid * mid <= n {
            lo = mid;
        } else {
            hi = mid;
        }
    }
    lo
}

} // verus!
