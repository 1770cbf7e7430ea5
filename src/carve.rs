//! The carve rule: stamping the cutter's footprint into the height field at
//! one lattice point.
use vstd::prelude::*;

use crate::footprint::CutterPart;
use crate::grid::{Voxel, to_micros};

verus! {

pub open spec fn in_rect(h: Seq<Seq<i64>>, row: int, col: int) -> bool {
    0 <= row < h.len() && 0 <= col < h[row].len()
}

/// Whether sample `part`, mirrored across both planar axes around lattice
/// point `p`, covers cell (`row`, `col`). The lattice origin sits at the
/// middle cell of the grid.
pub open spec fn reaches(part: CutterPart, p: Voxel, resolution: (u32, u32, u32), row: int, col: int) -> bool {
    let cx = p.0 + resolution.0 / 2;
    let cz = p.2 + resolution.2 / 2;
    (row == cx + part.index_offset.0 || row == cx - part.index_offset.0) && (col == cz
        + part.index_offset.1 || col == cz - part.index_offset.1)
}

/// The height in micrometres to which sample `part` cuts with the tool's
/// lowest point at lattice point `p`.
pub open spec fn cut_height(part: CutterPart, p: Voxel, resolution: (u32, u32, u32), size: (u32, u32, u32)) -> int {
    to_micros(p.1 as int, size.1 as int, resolution.1 as int) + part.position_offset.1
}

pub open spec fn lower(a: Option<int>, b: Option<int>) -> Option<int> {
    match (a, b) {
        (Some(x), Some(y)) => Some(if x <= y { x } else { y }),
        (Some(x), None) => Some(x),
        (None, _) => b,
    }
}

/// The lowest height to which any of the first `n` samples cuts cell
/// (`row`, `col`), if any of them covers it.
pub open spec fn lowest_cut(
    parts: Seq<CutterPart>,
    n: int,
    p: Voxel,
    resolution: (u32, u32, u32),
    size: (u32, u32, u32),
    row: int,
    col: int,
) -> Option<int>
    decreases n,
{
    if n <= 0 {
        None
    } else {
        let part = parts[n - 1];
        lower(
            lowest_cut(parts, n - 1, p, resolution, size, row, col),
            if reaches(part, p, resolution, row, col) {
                Some(cut_height(part, p, resolution, size))
            } else {
                None
            },
        )
    }
}

/// A cell's height after a cut to `cut`: the tool only removes material.
pub open spec fn carved(h: int, cut: Option<int>) -> int {
    match cut {
        Some(d) => if d <= h {
            d
        } else {
            h
        },
        None => h,
    }
}

/// The heights `h` after stamping the footprint `parts` at lattice point `p`:
/// each cell is lowered to the lowest cut that covers it, where that is not
/// above it.
pub open spec fn stamp(
    h: Seq<Seq<i64>>,
    parts: Seq<CutterPart>,
    p: Voxel,
    resolution: (u32, u32, u32),
    size: (u32, u32, u32),
) -> Seq<Seq<i64>> {
    Seq::new(
        h.len(),
        |r: int|
            Seq::new(
                h[r].len(),
                |c: int|
                    carved(h[r][c] as int, lowest_cut(parts, parts.len() as int, p, resolution, size, r, c)) as i64,
            ),
    )
}

/// The cells that stamping writes: those with a cut at or below their height.
pub open spec fn stamp_changes(
    h: Seq<Seq<i64>>,
    parts: Seq<CutterPart>,
    p: Voxel,
    resolution: (u32, u32, u32),
    size: (u32, u32, u32),
) -> Set<(int, int)> {
    Set::new(
        |rc: (int, int)|
            in_rect(h, rc.0, rc.1) && match lowest_cut(
                parts,
                parts.len() as int,
                p,
                resolution,
                size,
                rc.0,
                rc.1,
            ) {
                Some(d) => d <= h[rc.0][rc.1],
                None => false,
            },
    )
}

/// One write of the carve rule: cell (`row`, `col`), where it lies in the
/// grid, is set to `cut` where its height is at least `cut`.
pub open spec fn cut_cell(h: Seq<Seq<i64>>, row: int, col: int, cut: i64) -> Seq<Seq<i64>> {
    if in_rect(h, row, col) && cut <= h[row][col] {
        h.update(row, h[row].update(col, cut))
    } else {
        h
    }
}

pub open spec fn cut_cell_changes(
    h: Seq<Seq<i64>>,
    changes: Set<(int, int)>,
    row: int,
    col: int,
    cut: i64,
) -> Set<(int, int)> {
    if in_rect(h, row, col) && cut <= h[row][col] {
        changes.insert((row, col))
    } else {
        changes
    }
}

pub open spec fn same_shape(a: Seq<Seq<i64>>, b: Seq<Seq<i64>>) -> bool {
    a.len() == b.len() && forall|i: int| 0 <= i < a.len() ==> (#[trigger] a[i]).len() == b[i].len()
}

/// The four mirrored writes of one sample (rows `ra`, `rb`; columns `ca`,
/// `cb`) lower exactly the covered cells that lie at or above `cut`.
pub proof fn lemma_four_cuts(
    h: Seq<Seq<i64>>,
    changes: Set<(int, int)>,
    ra: int,
    rb: int,
    ca: int,
    cb: int,
    cut: i64,
)
    ensures
        ({
            let h1 = cut_cell(h, ra, ca, cut);
            let h2 = cut_cell(h1, ra, cb, cut);
            let h3 = cut_cell(h2, rb, ca, cut);
            let h4 = cut_cell(h3, rb, cb, cut);
            let c4 = cut_cell_changes(
                h3,
                cut_cell_changes(h2, cut_cell_changes(h1, cut_cell_changes(h, changes, ra, ca, cut), ra, cb, cut), rb, ca, cut),
                rb,
                cb,
                cut,
            );
            &&& same_shape(h4, h)
            &&& forall|r: int, c: int|
                in_rect(h, r, c) ==> (#[trigger] h4[r][c]) == (if (r == ra || r == rb) && (c == ca
                    || c == cb) && cut <= h[r][c] {
                    cut
                } else {
                    h[r][c]
                })
            &&& c4 == changes.union(
                Set::new(
                    |rc: (int, int)|
                        in_rect(h, rc.0, rc.1) && (rc.0 == ra || rc.0 == rb) && (rc.1 == ca || rc.1
                            == cb) && cut <= h[rc.0][rc.1],
                ),
            )
        }),
{
    let h1 = cut_cell(h, ra, ca, cut);
    let h2 = cut_cell(h1, ra, cb, cut);
    let h3 = cut_cell(h2, rb, ca, cut);
    let h4 = cut_cell(h3, rb, cb, cut);
    let c1 = cut_cell_changes(h, changes, ra, ca, cut);
    let c2 = cut_cell_changes(h1, c1, ra, cb, cut);
    let c3 = cut_cell_changes(h2, c2, rb, ca, cut);
    let c4 = cut_cell_changes(h3, c3, rb, cb, cut);
    assert(same_shape(h1, h));
    assert(same_shape(h2, h));
    assert(same_shape(h3, h));
    assert(same_shape(h4, h));
    assert forall|r: int, c: int| in_rect(h, r, c) implies (#[trigger] h4[r][c]) == (if (r == ra
        || r == rb) && (c == ca || c == cb) && cut <= h[r][c] {
        cut
    } else {
        h[r][c]
    }) by {
        assert(h1[r][c] == (if r == ra && c == ca && cut <= h[r][c] { cut } else { h[r][c] }));
        assert(h2[r][c] == (if r == ra && c == cb && cut <= h1[r][c] { cut } else { h1[r][c] }));
        assert(h3[r][c] == (if r == rb && c == ca && cut <= h2[r][c] { cut } else { h2[r][c] }));
        assert(h4[r][c] == (if r == rb && c == cb && cut <= h3[r][c] { cut } else { h3[r][c] }));
    }
    let hit = Set::new(
        |rc: (int, int)|
            in_rect(h, rc.0, rc.1) && (rc.0 == ra || rc.0 == rb) && (rc.1 == ca || rc.1 == cb)
                && cut <= h[rc.0][rc.1],
    );
    assert forall|rc: (int, int)| c4.contains(rc) <==> changes.union(hit).contains(rc) by {
        if in_rect(h, rc.0, rc.1) {
            let (r, c) = rc;
            assert(h1[r][c] == (if r == ra && c == ca && cut <= h[r][c] { cut } else { h[r][c] }));
            assert(h2[r][c] == (if r == ra && c == cb && cut <= h1[r][c] { cut } else { h1[r][c] }));
            assert(h3[r][c] == (if r == rb && c == ca && cut <= h2[r][c] { cut } else { h2[r][c] }));
        }
    }
    assert(c4 =~= changes.union(hit));
}

/// The heights `h` after stamping the first `n` samples of `parts`.
pub open spec fn stamp_upto(
    h: Seq<Seq<i64>>,
    parts: Seq<CutterPart>,
    n: int,
    p: Voxel,
    resolution: (u32, u32, u32),
    size: (u32, u32, u32),
) -> Seq<Seq<i64>> {
    Seq::new(
        h.len(),
        |r: int|
            Seq::new(
                h[r].len(),
                |c: int| carved(h[r][c] as int, lowest_cut(parts, n, p, resolution, size, r, c)) as i64,
            ),
    )
}

/// The cells written by stamping the first `n` samples of `parts`.
pub open spec fn changes_upto(
    h: Seq<Seq<i64>>,
    parts: Seq<CutterPart>,
    n: int,
    p: Voxel,
    resolution: (u32, u32, u32),
    size: (u32, u32, u32),
) -> Set<(int, int)> {
    Set::new(
        |rc: (int, int)|
            in_rect(h, rc.0, rc.1) && match lowest_cut(parts, n, p, resolution, size, rc.0, rc.1) {
                Some(d) => d <= h[rc.0][rc.1],
                None => false,
            },
    )
}

/// Every cut of the first `n` samples lies in `lo ..= hi`.
pub open spec fn cuts_within(
    parts: Seq<CutterPart>,
    n: int,
    p: Voxel,
    resolution: (u32, u32, u32),
    size: (u32, u32, u32),
    lo: int,
    hi: int,
) -> bool {
    forall|j: int| 0 <= j < n ==> lo <= #[trigger] cut_height(parts[j], p, resolution, size) <= hi
}

pub proof fn lemma_lowest_cut_within(
    parts: Seq<CutterPart>,
    n: int,
    p: Voxel,
    resolution: (u32, u32, u32),
    size: (u32, u32, u32),
    lo: int,
    hi: int,
    row: int,
    col: int,
)
    requires
        cuts_within(parts, n, p, resolution, size, lo, hi),
    ensures
        lowest_cut(parts, n, p, resolution, size, row, col) matches Some(d) ==> lo <= d <= hi,
    decreases n,
{
    if n > 0 {
        lemma_lowest_cut_within(parts, n - 1, p, resolution, size, lo, hi, row, col);
        assert(lo <= cut_height(parts[n - 1], p, resolution, size) <= hi);
    }
}

/// Stamping one more sample, by its four mirrored writes, extends the
/// stamp of the samples before it.
pub proof fn lemma_stamp_next(
    h0: Seq<Seq<i64>>,
    ch0: Set<(int, int)>,
    hk: Seq<Seq<i64>>,
    chk: Set<(int, int)>,
    parts: Seq<CutterPart>,
    k: int,
    p: Voxel,
    resolution: (u32, u32, u32),
    size: (u32, u32, u32),
)
    requires
        0 <= k < parts.len(),
        hk == stamp_upto(h0, parts, k, p, resolution, size),
        chk == ch0.union(changes_upto(h0, parts, k, p, resolution, size)),
        cuts_within(parts, parts.len() as int, p, resolution, size, i64::MIN as int, i64::MAX as int),
    ensures
        ({
            let part = parts[k];
            let cut = cut_height(part, p, resolution, size) as i64;
            let cx = p.0 + resolution.0 / 2;
            let cz = p.2 + resolution.2 / 2;
            let ra = cx + part.index_offset.0;
            let rb = cx - part.index_offset.0;
            let ca = cz + part.index_offset.1;
            let cb = cz - part.index_offset.1;
            let h1 = cut_cell(hk, ra, ca, cut);
            let h2 = cut_cell(h1, ra, cb, cut);
            let h3 = cut_cell(h2, rb, ca, cut);
            let h4 = cut_cell(h3, rb, cb, cut);
            let c4 = cut_cell_changes(
                h3,
                cut_cell_changes(h2, cut_cell_changes(h1, cut_cell_changes(hk, chk, ra, ca, cut), ra, cb, cut), rb, ca, cut),
                rb,
                cb,
                cut,
            );
            &&& h4 == stamp_upto(h0, parts, k + 1, p, resolution, size)
            &&& c4 == ch0.union(changes_upto(h0, parts, k + 1, p, resolution, size))
        }),
{
    let part = parts[k];
    let cut = cut_height(part, p, resolution, size) as i64;
    let cx = p.0 + resolution.0 / 2;
    let cz = p.2 + resolution.2 / 2;
    let ra = cx + part.index_offset.0;
    let rb = cx - part.index_offset.0;
    let ca = cz + part.index_offset.1;
    let cb = cz - part.index_offset.1;
    let h1 = cut_cell(hk, ra, ca, cut);
    let h2 = cut_cell(h1, ra, cb, cut);
    let h3 = cut_cell(h2, rb, ca, cut);
    let h4 = cut_cell(h3, rb, cb, cut);
    let c4 = cut_cell_changes(
        h3,
        cut_cell_changes(h2, cut_cell_changes(h1, cut_cell_changes(hk, chk, ra, ca, cut), ra, cb, cut), rb, ca, cut),
        rb,
        cb,
        cut,
    );
    lemma_four_cuts(hk, chk, ra, rb, ca, cb, cut);
    assert(cut == cut_height(part, p, resolution, size));
    let next = stamp_upto(h0, parts, k + 1, p, resolution, size);
    assert forall|r: int, c: int| in_rect(h0, r, c) implies (#[trigger] h4[r][c]) == next[r][c] by {
        lemma_lowest_cut_within(parts, k, p, resolution, size, i64::MIN as int, i64::MAX as int, r, c);
        lemma_lowest_cut_within(parts, k + 1, p, resolution, size, i64::MIN as int, i64::MAX as int, r, c);
        assert(reaches(part, p, resolution, r, c) == ((r == ra || r == rb) && (c == ca || c == cb)));
        assert(hk[r][c] == carved(h0[r][c] as int, lowest_cut(parts, k, p, resolution, size, r, c)) as i64);
    }
    assert forall|i: int| 0 <= i < h4.len() implies #[trigger] h4[i] =~= next[i] by {
        assert forall|c: int| 0 <= c < h4[i].len() implies h4[i][c] == next[i][c] by {
            assert(in_rect(h0, i, c));
        }
    }
    assert(h4 =~= next);
    let hit = Set::new(
        |rc: (int, int)|
            in_rect(hk, rc.0, rc.1) && (rc.0 == ra || rc.0 == rb) && (rc.1 == ca || rc.1 == cb)
                && cut <= hk[rc.0][rc.1],
    );
    let target = ch0.union(changes_upto(h0, parts, k + 1, p, resolution, size));
    assert forall|rc: (int, int)| c4.contains(rc) <==> target.contains(rc) by {
        let (r, c) = rc;
        if in_rect(h0, r, c) {
            lemma_lowest_cut_within(parts, k, p, resolution, size, i64::MIN as int, i64::MAX as int, r, c);
            assert(reaches(part, p, resolution, r, c) == ((r == ra || r == rb) && (c == ca || c == cb)));
            assert(hk[r][c] == carved(h0[r][c] as int, lowest_cut(parts, k, p, resolution, size, r, c)) as i64);
        }
    }
    assert(c4 =~= target);
}

} // verus!
