//! The cutter's footprint: one quadrant of the tool's cross-section sampled
//! at the grid's cell pitch.
use vstd::prelude::*;

use crate::grid::{isqrt, to_micros};
use crate::milling_cutter::MillingCutter;

verus! {

/// One sample of the footprint: its offset in cells from the tool's centre
/// along the grid's x and z axes, and its physical offset in micrometres
/// (x, height above the tool's lowest point, z).
#[derive(Debug, Clone, Copy)]
pub struct CutterPart {
    pub index_offset: (u64, u64),
    pub position_offset: (i64, i64, i64),
}

impl CutterPart {
    pub fn new(index_offset: (u64, u64), position_offset: (i64, i64, i64)) -> (r: Self)
        ensures
            r.index_offset == index_offset,
            r.position_offset == position_offset,
    {
        CutterPart { index_offset, position_offset }
    }
}

/// `s` is the square root of `n`, rounded down.
pub open spec fn is_floor_sqrt(n: int, s: int) -> bool {
    s >= 0 && s * s <= n < (s + 1) * (s + 1)
}

/// The largest `s >= 0` with `s * s <= n`.
pub open spec fn floor_sqrt(n: int) -> int {
    choose|s: int| is_floor_sqrt(n, s)
}

/// How many whole cells of an axis `size` micrometres long, split into
/// `cells` cells, the radius `radius` spans.
pub open spec fn cell_span(radius: int, size: int, cells: int) -> int {
    (radius * cells) / size
}

/// The height of the tool's surface above its lowest point at lateral
/// offsets `x` and `z`: zero for a flat tool; for a spherical tool the sag
/// of the sphere, `radius - sqrt(radius² - x² - z²)`, with the square root
/// rounded down and taken as zero outside the sphere.
pub open spec fn sag(cutter: MillingCutter, x: int, z: int) -> int {
    match cutter {
        MillingCutter::Flat(_) => 0,
        MillingCutter::Spherical(_) => {
            let r = cutter.spec_radius();
            let d = r * r - x * x - z * z;
            r - floor_sqrt(if d > 0 {
                d
            } else {
                0
            })
        },
    }
}

/// The sample `i` cells along x and `j` cells along z from the centre.
pub open spec fn cutter_part(
    cutter: MillingCutter,
    resolution: (u32, u32, u32),
    size: (u32, u32, u32),
    i: int,
    j: int,
) -> CutterPart {
    let x = to_micros(i, size.0 as int, resolution.0 as int);
    let z = to_micros(j, size.2 as int, resolution.2 as int);
    CutterPart { index_offset: (i as u64, j as u64), position_offset: (x as i64, sag(cutter, x, z) as i64, z as i64) }
}

/// The footprint of `cutter` on a grid of `resolution` cells over a block of
/// `size` micrometres: the samples `(i, j)` for `i` below the radius's span
/// along x and `j` below its span along z, with `i` in the outer order.
pub open spec fn footprint(
    cutter: MillingCutter,
    resolution: (u32, u32, u32),
    size: (u32, u32, u32),
) -> Seq<CutterPart> {
    let nx = cell_span(cutter.spec_radius(), size.0 as int, resolution.0 as int);
    let nz = cell_span(cutter.spec_radius(), size.2 as int, resolution.2 as int);
    Seq::new((nx * nz) as nat, |k: int| cutter_part(cutter, resolution, size, k / nz, k % nz))
}

/// Cells and lengths along the grid's two planar axes (x and z) are positive.
pub open spec fn valid_plane(resolution: (u32, u32, u32), size: (u32, u32, u32)) -> bool {
    resolution.0 > 0 && resolution.2 > 0 && size.0 > 0 && size.2 > 0
}

/// Cells and lengths along all three axes are positive.
pub open spec fn valid_geometry(resolution: (u32, u32, u32), size: (u32, u32, u32)) -> bool {
    resolution.0 > 0 && resolution.1 > 0 && resolution.2 > 0 && size.0 > 0 && size.1 > 0 && size.2
        > 0
}

proof fn lemma_floor_sqrt(n: int, s: int)
    requires
        s >= 0,
        s * s <= n < (s + 1) * (s + 1),
    ensures
        floor_sqrt(n) == s,
{
    assert(is_floor_sqrt(n, s));
    let t = floor_sqrt(n);
    assert(t >= 0 && t * t <= n < (t + 1) * (t + 1));
    if t < s {
        assert((t + 1) * (t + 1) <= s * s) by (nonlinear_arith)
            requires
                0 <= t < s,
        ;
    } else if t > s {
        assert((s + 1) * (s + 1) <= t * t) by (nonlinear_arith)
            requires
                0 <= s < t,
        ;
    }
}

proof fn lemma_sqrt_witness(n: int) -> (s: int)
    requires
        n >= 0,
    ensures
        s >= 0,
        s * s <= n < (s + 1) * (s + 1),
    decreases n,
{
    if n == 0 {
        0
    } else {
        let t = lemma_sqrt_witness(n - 1);
        if (t + 1) * (t + 1) <= n {
            assert(n < (t + 2) * (t + 2)) by (nonlinear_arith)
                requires
                    n - 1 < (t + 1) * (t + 1),
                    t >= 0,
            ;
            t + 1
        } else {
            t
        }
    }
}

/// `floor_sqrt` is the rounded-down square root of every `n >= 0`.
pub proof fn lemma_floor_sqrt_exists(n: int)
    requires
        n >= 0,
    ensures
        floor_sqrt(n) >= 0,
        floor_sqrt(n) * floor_sqrt(n) <= n < (floor_sqrt(n) + 1) * (floor_sqrt(n) + 1),
{
    let s = lemma_sqrt_witness(n);
    lemma_floor_sqrt(n, s);
}

/// The sag at lateral offsets `x` and `z` (see `sag`), where both are at
/// most the radius.
fn sag_at(cutter: MillingCutter, x: u64, z: u64) -> (r: i64)
    requires
        x <= cutter.spec_radius(),
        z <= cutter.spec_radius(),
    ensures
        r == sag(cutter, x as int, z as int),
        0 <= r <= cutter.spec_radius(),
{
    match cutter {
        MillingCutter::Flat(_) => 0,
        MillingCutter::Spherical(_) => {
            let r = cutter.radius();
            assert(r <= 127500);
            assert(r * r <= 127500 * 127500 && x * x <= r * r && z * z <= r * r) by (nonlinear_arith)
                requires
                    r <= 127500,
                    x <= r,
                    z <= r,
            ;
            let rr = r * r;
            let xx = x * x;
            let zz = z * z;
            let d: u64 = if xx + zz < rr {
                rr - xx - zz
            } else {
                0
            };
            let s = isqrt(d);
            proof {
                lemma_floor_sqrt(d as int, s as int);
                assert(s <= r) by (nonlinear_arith)
                    requires
                        s * s <= d,
                        d <= r * r,
                ;
            }
            (r - s) as i64
        },
    }
}

/// Computes `footprint(cutter, resolution, size)`.
pub fn cutter_footprint(
    cutter: MillingCutter,
    resolution: (u32, u32, u32),
    size: (u32, u32, u32),
) -> (r: Vec<CutterPart>)
    requires
        valid_plane(resolution, size),
    ensures
        r@ == footprint(cutter, resolution, size),
{
    let radius = cutter.radius();
    assert(radius <= 127500);
    assert(radius * resolution.0 <= 127500 * 0xffff_ffff && radius * resolution.2 <= 127500
        * 0xffff_ffff) by (nonlinear_arith)
        requires
            radius <= 127500,
            resolution.0 <= 0xffff_ffff,
            resolution.2 <= 0xffff_ffff,
    ;
    let nx: u64 = radius * resolution.0 as u64 / size.0 as u64;
    let nz: u64 = radius * resolution.2 as u64 / size.2 as u64;
    let ghost all = footprint(cutter, resolution, size);
    let mut parts: Vec<CutterPart> = Vec::new();
    let mut i: u64 = 0;
    while i < nx
        invariant
            valid_plane(resolution, size),
            radius == cutter.spec_radius(),
            radius <= 127500,
            nx == cell_span(radius as int, size.0 as int, resolution.0 as int),
            nz == cell_span(radius as int, size.2 as int, resolution.2 as int),
            all == footprint(cutter, resolution, size),
            i <= nx,
            parts@.len() == i * nz,
            forall|k: int| 0 <= k < parts@.len() ==> parts@[k] == all[k],
        decreases nx - i,
    {
        let mut j: u64 = 0;
        while j < nz
            invariant
                valid_plane(resolution, size),
                radius == cutter.spec_radius(),
                radius <= 127500,
                nx == cell_span(radius as int, size.0 as int, resolution.0 as int),
                nz == cell_span(radius as int, size.2 as int, resolution.2 as int),
                all == footprint(cutter, resolution, size),
                i < nx,
                j <= nz,
                parts@.len() == i * nz + j,
                forall|k: int| 0 <= k < parts@.len() ==> parts@[k] == all[k],
            decreases nz - j,
        {
            assert(i * size.0 <= radius * resolution.0 <= 127500 * 0xffff_ffff && j * size.2
                <= radius * resolution.2 <= 127500 * 0xffff_ffff) by (nonlinear_arith)
                requires
                    radius <= 127500,
                    i < nx,
                    j < nz,
                    nx == (radius * resolution.0) / (size.0 as int),
                    nz == (radius * resolution.2) / (size.2 as int),
                    size.0 > 0,
                    size.2 > 0,
            ;
            let x: u64 = i * size.0 as u64 / resolution.0 as u64;
            let z: u64 = j * size.2 as u64 / resolution.2 as u64;
            assert(x <= radius && z <= radius) by (nonlinear_arith)
                requires
                    x == (i * size.0) / (resolution.0 as int),
                    z == (j * size.2) / (resolution.2 as int),
                    i * size.0 <= radius * resolution.0,
                    j * size.2 <= radius * resolution.2,
                    resolution.0 > 0,
                    resolution.2 > 0,
            ;
            let y = sag_at(cutter, x, z);
            let part = CutterPart { index_offset: (i, j), position_offset: (x as i64, y, z as i64) };
            proof {
                let k = i * nz + j;
                assert(k / (nz as int) == i && k % (nz as int) == j) by {
                    vstd::arithmetic::div_mod::lemma_fundamental_div_mod_converse(
                        k as int,
                        nz as int,
                        i as int,
                        j as int,
                    );
                }
                assert(k < nx * nz) by (nonlinear_arith)
                    requires
                        k == i * nz + j,
                        i < nx,
                        j < nz,
                ;
                assert(part == all[k as int]);
            }
            parts.push(part);
            j = j + 1;
        }
        assert(parts@.len() == (i + 1) * nz) by (nonlinear_arith)
            requires
                parts@.len() == i * nz + nz,
        ;
        i = i + 1;
    }
    proof {
        assert(parts@ =~= all);
    }
    parts
}

/// Every sample of a spherical tool's footprint lies on or above the tool's
/// lowest point, and a sample with no lateral offset lies exactly on it.
pub proof fn lemma_spherical_footprint(
    size_code: u8,
    resolution: (u32, u32, u32),
    size: (u32, u32, u32),
)
    requires
        valid_plane(resolution, size),
    ensures
        forall|k: int|
            0 <= k < footprint(MillingCutter::Spherical(size_code), resolution, size).len() ==> {
                let p = #[trigger] footprint(MillingCutter::Spherical(size_code), resolution, size)[k];
                &&& p.position_offset.1 >= 0
                &&& (p.position_offset.0 == 0 && p.position_offset.2 == 0) ==> p.position_offset.1
                    == 0
            },
{
    let cutter = MillingCutter::Spherical(size_code);
    let all = footprint(cutter, resolution, size);
    let r = cutter.spec_radius();
    let nz = cell_span(r, size.2 as int, resolution.2 as int);
    assert forall|k: int| 0 <= k < all.len() implies {
        let p = #[trigger] all[k];
        &&& p.position_offset.1 >= 0
        &&& (p.position_offset.0 == 0 && p.position_offset.2 == 0) ==> p.position_offset.1 == 0
    } by {
        let i = k / nz;
        let j = k % nz;
        let x = to_micros(i, size.0 as int, resolution.0 as int);
        let z = to_micros(j, size.2 as int, resolution.2 as int);
        assert(nz > 0) by (nonlinear_arith)
            requires
                0 <= k < all.len(),
                all.len() == cell_span(r, size.0 as int, resolution.0 as int) * nz,
                cell_span(r, size.0 as int, resolution.0 as int) >= 0,
        ;
        assert(0 <= i && 0 <= j) by (nonlinear_arith)
            requires
                k >= 0,
                nz > 0,
                i == k / nz,
                j == k % nz,
        ;
        let nx = cell_span(r, size.0 as int, resolution.0 as int);
        assert(i < nx && j < nz) by (nonlinear_arith)
            requires
                0 <= k < nx * nz,
                nz > 0,
                i == k / nz,
                j == k % nz,
        ;
        assert(i * size.0 <= r * resolution.0 && j * size.2 <= r * resolution.2)
            by (nonlinear_arith)
            requires
                i < nx,
                j < nz,
                nx == (r * resolution.0) / (size.0 as int),
                nz == (r * resolution.2) / (size.2 as int),
                size.0 > 0,
                size.2 > 0,
        ;
        assert(0 <= x <= r && 0 <= z <= r) by (nonlinear_arith)
            requires
                i >= 0,
                j >= 0,
                x == (i * size.0) / (resolution.0 as int),
                z == (j * size.2) / (resolution.2 as int),
                i * size.0 <= r * resolution.0,
                j * size.2 <= r * resolution.2,
                resolution.0 > 0,
                resolution.2 > 0,
        ;
        let d = r * r - x * x - z * z;
        let dd = if d > 0 {
            d
        } else {
            0
        };
        let s = floor_sqrt(dd);
        assert(dd <= r * r) by (nonlinear_arith)
            requires
                dd == d || dd == 0,
                d == r * r - x * x - z * z,
                dd >= 0,
        ;
        lemma_floor_sqrt_exists(dd);
        assert(s <= r) by (nonlinear_arith)
            requires
                s >= 0,
                s * s <= dd,
                dd <= r * r,
                r >= 0,
        ;
        if x == 0 && z == 0 {
            assert(x * x == 0 && z * z == 0) by (nonlinear_arith)
                requires
                    x == 0,
                    z == 0,
            ;
            assert(dd == r * r);
            assert(r * r <= dd < (r + 1) * (r + 1)) by (nonlinear_arith)
                requires
                    dd == r * r,
                    r >= 0,
            ;
            lemma_floor_sqrt(dd, r);
        }
    }
}

/// Every sample of a flat tool's footprint lies on the tool's lowest point.
pub proof fn lemma_flat_footprint(size_code: u8, resolution: (u32, u32, u32), size: (u32, u32, u32))
    requires
        valid_plane(resolution, size),
    ensures
        forall|k: int|
            0 <= k < footprint(MillingCutter::Flat(size_code), resolution, size).len()
                ==> (#[trigger] footprint(MillingCutter::Flat(size_code), resolution, size)[k]).position_offset.1
                == 0,
{
}

/// The footprint's cell offsets stay below `2^49` and its heights between
/// zero and the largest radius.
pub proof fn lemma_footprint_bounds(
    cutter: MillingCutter,
    resolution: (u32, u32, u32),
    size: (u32, u32, u32),
)
    requires
        valid_plane(resolution, size),
    ensures
        forall|k: int|
            0 <= k < footprint(cutter, resolution, size).len() ==> part_bounded(
                #[trigger] footprint(cutter, resolution, size)[k],
            ),
{
    let all = footprint(cutter, resolution, size);
    let r = cutter.spec_radius();
    let nx = cell_span(r, size.0 as int, resolution.0 as int);
    let nz = cell_span(r, size.2 as int, resolution.2 as int);
    assert(r <= 127500);
    assert(nx <= 127500 * 0xffff_ffff && nz <= 127500 * 0xffff_ffff) by (nonlinear_arith)
        requires
            0 <= r <= 127500,
            nx == (r * resolution.0) / (size.0 as int),
            nz == (r * resolution.2) / (size.2 as int),
            size.0 >= 1,
            size.2 >= 1,
            resolution.0 <= 0xffff_ffff,
            resolution.2 <= 0xffff_ffff,
    ;
    assert forall|k: int| 0 <= k < all.len() implies part_bounded(#[trigger] all[k]) by {
        let i = k / nz;
        let j = k % nz;
        assert(nz > 0 && nx >= 0) by (nonlinear_arith)
            requires
                0 <= k < all.len(),
                all.len() == nx * nz,
                r >= 0,
                nx == (r * resolution.0) / (size.0 as int),
                nz == (r * resolution.2) / (size.2 as int),
                size.0 >= 1,
                size.2 >= 1,
        ;
        assert(0 <= i < nx && 0 <= j < nz) by (nonlinear_arith)
            requires
                0 <= k < nx * nz,
                nz > 0,
                i == k / nz,
                j == k % nz,
        ;
        let x = to_micros(i, size.0 as int, resolution.0 as int);
        let z = to_micros(j, size.2 as int, resolution.2 as int);
        assert(i * size.0 <= r * resolution.0 && j * size.2 <= r * resolution.2)
            by (nonlinear_arith)
            requires
                i < nx,
                j < nz,
                nx == (r * resolution.0) / (size.0 as int),
                nz == (r * resolution.2) / (size.2 as int),
                size.0 > 0,
                size.2 > 0,
        ;
        assert(0 <= x <= r && 0 <= z <= r) by (nonlinear_arith)
            requires
                i >= 0,
                j >= 0,
                x == (i * size.0) / (resolution.0 as int),
                z == (j * size.2) / (resolution.2 as int),
                i * size.0 <= r * resolution.0,
                j * size.2 <= r * resolution.2,
                resolution.0 > 0,
                resolution.2 > 0,
        ;
        match cutter {
            MillingCutter::Flat(_) => {},
            MillingCutter::Spherical(_) => {
                let d = r * r - x * x - z * z;
                let dd = if d > 0 {
                    d
                } else {
                    0
                };
                assert(dd <= r * r) by (nonlinear_arith)
                    requires
                        dd == d || dd == 0,
                        d == r * r - x * x - z * z,
                        dd >= 0,
                ;
                lemma_floor_sqrt_exists(dd);
                let s = floor_sqrt(dd);
                assert(s <= r) by (nonlinear_arith)
                    requires
                        s >= 0,
                        s * s <= dd,
                        dd <= r * r,
                        r >= 0,
                ;
            },
        }
    }
}

/// Bounds that keep the arithmetic of stamping a sample in range.
pub open spec fn part_bounded(p: CutterPart) -> bool {
    &&& p.index_offset.0 <= 0x2_0000_0000_0000
    &&& p.index_offset.1 <= 0x2_0000_0000_0000
    &&& 0 <= p.position_offset.1 <= 127500
}

} // verus!
