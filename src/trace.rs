//! The lattice path that the tool follows along one straight motion.
use vstd::prelude::*;

use crate::grid::{Voxel, in_i32, voxel_in_i32};

verus! {

pub open spec fn abs(v: int) -> int {
    if v < 0 {
        -v
    } else {
        v
    }
}

pub open spec fn sign(v: int) -> int {
    if v > 0 {
        1
    } else if v < 0 {
        -1
    } else {
        0
    }
}

/// The largest of the distances along the three axes.
pub open spec fn longest(s: Voxel, e: Voxel) -> int {
    let a = abs(e.0 - s.0);
    let b = abs(e.1 - s.1);
    let c = abs(e.2 - s.2);
    if a >= b && a >= c {
        a
    } else if b >= c {
        b
    } else {
        c
    }
}

/// How many unit moves an axis that has `len` to go has made after `k` of
/// the `longest` steps: its error term starts at `longest / 2`, loses `len` a
/// step, and each time it drops below zero the axis moves and it gains
/// `longest`.
pub open spec fn advance(len: int, longest: int, k: int) -> int {
    if longest == 0 {
        0
    } else {
        (k * len + longest - 1 - longest / 2) / longest
    }
}

/// The `k`-th point of the path from `s` to `e`.
pub open spec fn line_point(s: Voxel, e: Voxel, k: int) -> Voxel {
    let l = longest(s, e);
    (
        (s.0 + sign(e.0 - s.0) * advance(abs(e.0 - s.0), l, k)) as i64,
        (s.1 + sign(e.1 - s.1) * advance(abs(e.1 - s.1), l, k)) as i64,
        (s.2 + sign(e.2 - s.2) * advance(abs(e.2 - s.2), l, k)) as i64,
    )
}

/// The 3-D Bresenham path from `s` to `e`: `longest(s, e) + 1` points, from
/// `s` to `e` inclusive, each one step along the longest axis from the last.
pub open spec fn line_points(s: Voxel, e: Voxel) -> Seq<Voxel> {
    Seq::new((longest(s, e) + 1) as nat, |k: int| line_point(s, e, k))
}

proof fn lemma_advance_bounds(len: int, l: int, k: int)
    requires
        0 <= len <= l,
        0 <= k <= l,
    ensures
        0 <= advance(len, l, k) <= len,
        k == 0 ==> advance(len, l, k) == 0,
        k == l ==> advance(len, l, k) == len,
{
    if l > 0 {
        let c = l - 1 - l / 2;
        assert(0 <= c < l);
        assert(0 <= k * len <= l * len) by (nonlinear_arith)
            requires
                0 <= k <= l,
                0 <= len,
        ;
        assert((k * len + c) / l <= len) by (nonlinear_arith)
            requires
                k * len <= l * len,
                0 <= c < l,
                l > 0,
        ;
        assert((k * len + c) / l >= 0) by (nonlinear_arith)
            requires
                k * len + c >= 0,
                l > 0,
        ;
        if k == 0 {
            assert(c / l == 0) by (nonlinear_arith)
                requires
                    0 <= c < l,
            ;
        }
        if k == l {
            assert((l * len + c) / l == len) by (nonlinear_arith)
                requires
                    0 <= c < l,
                    l > 0,
            ;
        }
    }
}

/// Every point of the path lies in the box spanned by its ends; the path
/// starts at `s` and ends at `e`.
pub proof fn lemma_line_points(s: Voxel, e: Voxel)
    requires
        voxel_in_i32(s),
        voxel_in_i32(e),
    ensures
        line_points(s, e).len() >= 1,
        line_points(s, e)[0] == s,
        line_points(s, e).last() == e,
        forall|k: int|
            0 <= k < line_points(s, e).len() ==> voxel_in_i32(#[trigger] line_points(s, e)[k]),
{
    let l = longest(s, e);
    let pts = line_points(s, e);
    assert forall|k: int| 0 <= k < pts.len() implies voxel_in_i32(#[trigger] pts[k]) by {
        lemma_advance_bounds(abs(e.0 - s.0), l, k);
        lemma_advance_bounds(abs(e.1 - s.1), l, k);
        lemma_advance_bounds(abs(e.2 - s.2), l, k);
    }
    lemma_advance_bounds(abs(e.0 - s.0), l, 0);
    lemma_advance_bounds(abs(e.1 - s.1), l, 0);
    lemma_advance_bounds(abs(e.2 - s.2), l, 0);
    lemma_advance_bounds(abs(e.0 - s.0), l, l);
    lemma_advance_bounds(abs(e.1 - s.1), l, l);
    lemma_advance_bounds(abs(e.2 - s.2), l, l);
    assert(pts.last() == pts[l]);
    assert(sign(e.0 - s.0) * abs(e.0 - s.0) == e.0 - s.0);
    assert(sign(e.1 - s.1) * abs(e.1 - s.1) == e.1 - s.1);
    assert(sign(e.2 - s.2) * abs(e.2 - s.2) == e.2 - s.2);
    assert(pts[l] == e);
}

/// Relies on `line_drawing::Bresenham3d` (1.0.1): `new(start, end)` yields
/// `longest + 1` voxels, where `longest` is the largest of the three axis
/// distances. Each axis keeps an error term that starts at `longest / 2`
/// and loses its own distance per voxel; when it falls below zero it gains
/// `longest` and the axis moves one unit toward `end`. After `k` voxels an
/// axis has therefore moved `advance(len, longest, k)` units (see
/// `line_points`). With `i64` coordinates taken from the `i32` range no
/// difference or error term overflows.
#[verifier::external_body]
fn bresenham_3d(start: Voxel, end: Voxel) -> (r: Vec<Voxel>)
    requires
        voxel_in_i32(start),
        voxel_in_i32(end),
    ensures
        r@ == line_points(start, end),
{
    line_drawing::Bresenham3d::new(start, end).collect()
}

/// The lattice path from `start` to `end` (see `line_points`).
pub fn trace_between(start: Voxel, end: Voxel) -> (r: Vec<Voxel>)
    requires
        voxel_in_i32(start),
        voxel_in_i32(end),
    ensures
        r@ == line_points(start, end),
        r@.len() >= 1,
        r@[0] == start,
        r@.last() == end,
        forall|k: int| 0 <= k < r@.len() ==> voxel_in_i32(#[trigger] r@[k]),
{
    proof {
        lemma_line_points(start, end);
    }
    bresenham_3d(start, end)
}

} // verus!
