use milling_simulator::footprint::cutter_footprint;
use milling_simulator::grid::{isqrt, lattice_of, micros_of, toolpath_axes_to_grid};
use milling_simulator::milling_cutter::MillingCutter;
use milling_simulator::trace::trace_between;

#[test]
fn bresenham_path_matches_the_documented_example() {
    let points = trace_between((0, 0, 0), (5, 6, 7));
    assert_eq!(
        points,
        vec![(0, 0, 0), (1, 1, 1), (1, 2, 2), (2, 3, 3), (3, 3, 4), (4, 4, 5), (4, 5, 6), (5, 6, 7)]
    );
}

#[test]
fn path_between_equal_points_is_one_point() {
    assert_eq!(trace_between((3, -4, 5), (3, -4, 5)), vec![(3, -4, 5)]);
}

#[test]
fn path_runs_backwards_too() {
    let points = trace_between((5, 5, 5), (0, 0, 0));
    assert_eq!(points.len(), 6);
    assert_eq!(points[0], (5, 5, 5));
    assert_eq!(points[5], (0, 0, 0));
    assert_eq!(trace_between((0, 0, 0), (500, 678, 1000)).len(), 1001);
}

#[test]
fn lattice_conversion_truncates_toward_zero_and_saturates() {
    assert_eq!(lattice_of(5000, 40000, 40), 5);
    assert_eq!(lattice_of(5999, 40000, 40), 5);
    assert_eq!(lattice_of(-5999, 40000, 40), -5);
    assert_eq!(lattice_of(i64::MAX, 1, 10), i32::MAX as i64);
    assert_eq!(lattice_of(i64::MIN, 1, 10), i32::MIN as i64);
    assert_eq!(lattice_of(220000, 50000, 600), 2640);
}

#[test]
fn lattice_to_micros_rounds_down() {
    assert_eq!(micros_of(3, 1000, 3), 1000);
    assert_eq!(micros_of(1, 1000, 3), 333);
    assert_eq!(micros_of(-1, 1000, 3), -334);
    assert_eq!(micros_of(-3, 1000, 3), -1000);
}

#[test]
fn toolpath_y_and_z_swap_in_grid_order() {
    assert_eq!(toolpath_axes_to_grid(Some(1), Some(2), None), (Some(1), None, Some(2)));
}

#[test]
fn integer_square_root() {
    assert_eq!(isqrt(0), 0);
    assert_eq!(isqrt(3_000_000), 1732);
    assert_eq!(isqrt(2_000_000), 1414);
    assert_eq!(isqrt(16), 4);
    assert_eq!(isqrt(u64::MAX), 4294967295);
}

#[test]
fn spherical_footprint_sags() {
    let parts = cutter_footprint(MillingCutter::Spherical(4), (40, 40, 40), (40000, 40000, 40000));
    let got: Vec<((u64, u64), (i64, i64, i64))> =
        parts.iter().map(|p| (p.index_offset, p.position_offset)).collect();
    assert_eq!(
        got,
        vec![
            ((0, 0), (0, 0, 0)),
            ((0, 1), (0, 268, 1000)),
            ((1, 0), (1000, 268, 0)),
            ((1, 1), (1000, 586, 1000)),
        ]
    );
    for p in parts.iter() {
        assert!(p.position_offset.1 >= 0);
    }
}

#[test]
fn flat_footprint_has_no_sag() {
    let parts = cutter_footprint(MillingCutter::Flat(16), (60, 60, 60), (30000, 30000, 30000));
    assert_eq!(parts.len(), 16 * 16);
    for p in parts.iter() {
        assert_eq!(p.position_offset.1, 0);
    }
}

#[test]
fn small_tool_has_empty_footprint() {
    let parts = cutter_footprint(MillingCutter::Flat(1), (10, 10, 10), (150000, 50000, 150000));
    assert!(parts.is_empty());
}
