use milling_simulator::g_code::GCode;
use milling_simulator::g_code_executor::GCodeExecutor;
use milling_simulator::height_map::HeightMap;

const RESOLUTION: (u32, u32, u32) = (40, 40, 40);
const SIZE: (u32, u32, u32) = (40000, 40000, 40000);
const TOP: i64 = 20000;

fn run(executor: &mut GCodeExecutor, map: &mut HeightMap) -> usize {
    let mut steps = 0;
    while !executor.execution_finished() {
        executor.execute_step(map);
        steps += 1;
        assert!(steps < 100_000);
    }
    steps
}

fn expect_heights(map: &HeightMap, expected: impl Fn(usize, usize) -> i64) {
    for row in 0..map.rows() {
        for col in 0..map.cols() {
            assert_eq!(map.get_height((row, col)), expected(row, col), "cell ({}, {})", row, col);
        }
    }
}

#[test]
fn executor_starts_above_the_stock() {
    let code = GCode::from_source("a.f02", "N1G01 N2G01").unwrap();
    let executor = GCodeExecutor::new(code, RESOLUTION, SIZE);
    assert_eq!(executor.current_position(), (0, 220000, 0));
    assert_eq!(executor.lattice_position(), (0, 220, 0));
    assert_eq!(executor.current_instruction(), 0);
    assert!(executor.current_points().is_none());
    assert!(!executor.execution_finished());
}

#[test]
fn last_instruction_is_never_traced() {
    let code = GCode::from_source("a.f02", "N1G01 N2G01X5.0Y0.0Z0.0").unwrap();
    let mut executor = GCodeExecutor::new(code, RESOLUTION, SIZE);
    let mut map = HeightMap::new(RESOLUTION, TOP);
    let steps = run(&mut executor, &mut map);
    assert_eq!(steps, 1);
    assert_eq!(executor.lattice_position(), (0, 220, 0));
    expect_heights(&map, |_, _| TOP);
    assert_eq!(map.drain_changes(), None);
}

#[test]
fn flat_cut_along_x_lowers_the_path_to_the_contact_height() {
    let code = GCode::from_source(
        "a.f02",
        "N1G01X0.0Y0.0Z0.0 N2G01X5.0Y0.0Z0.0 N3G01",
    )
    .unwrap();
    let mut executor = GCodeExecutor::new(code, RESOLUTION, SIZE);
    assert_eq!(executor.cutter().len(), 1);
    let mut map = HeightMap::new(RESOLUTION, TOP);
    let steps = run(&mut executor, &mut map);
    assert_eq!(steps, 221 + 6);
    assert_eq!(executor.lattice_position(), (5, 0, 0));
    expect_heights(&map, |row, col| {
        if col == 20 && (20..=25).contains(&row) {
            0
        } else {
            TOP
        }
    });
}

#[test]
fn finished_executor_does_nothing() {
    let code = GCode::from_source("a.f02", "N1G01Z0.0 N2G01").unwrap();
    let mut executor = GCodeExecutor::new(code, RESOLUTION, SIZE);
    let mut map = HeightMap::new(RESOLUTION, TOP);
    run(&mut executor, &mut map);
    let position = executor.lattice_position();
    let height = map.get_height((20, 20));
    executor.execute_step(&mut map);
    assert_eq!(executor.lattice_position(), position);
    assert_eq!(map.get_height((20, 20)), height);
    assert_eq!(height, 0);
}

#[test]
fn heights_never_rise_between_steps() {
    let code = GCode::from_source(
        "a.k04",
        "N1G01X-3.0Y2.0Z15.0 N2G01X4.0Y-1.0Z12.5 N3G01Z19.0 N4G01X0.0 N5G01",
    )
    .unwrap();
    let mut executor = GCodeExecutor::new(code, RESOLUTION, SIZE);
    let mut map = HeightMap::new(RESOLUTION, TOP);
    let mut before: Vec<Vec<i64>> = (0..40).map(|r| (0..40).map(|c| map.get_height((r, c))).collect()).collect();
    let mut carved = false;
    while !executor.execution_finished() {
        executor.execute_step(&mut map);
        for r in 0..40 {
            for c in 0..40 {
                let h = map.get_height((r, c));
                assert!(h <= before[r][c]);
                carved |= h < before[r][c];
                before[r][c] = h;
            }
        }
    }
    assert!(carved);
}

#[test]
fn reloading_keeps_earlier_carving() {
    let first = GCode::from_source("a.f02", "N1G01X0.0Y0.0Z0.0 N2G01X5.0 N3G01").unwrap();
    let mut executor = GCodeExecutor::new(first, RESOLUTION, SIZE);
    let mut map = HeightMap::new(RESOLUTION, TOP);
    run(&mut executor, &mut map);
    let second = GCode::from_source("b.f02", "N1G01Z10.0 N2G01X-5.0 N3G01").unwrap();
    executor.load(second);
    assert_eq!(executor.current_instruction(), 0);
    assert!(executor.current_points().is_none());
    assert_eq!(executor.lattice_position(), (5, 0, 0));
    run(&mut executor, &mut map);
    assert_eq!(executor.lattice_position(), (-5, 10, 0));
    expect_heights(&map, |row, col| {
        if col == 20 && (20..=25).contains(&row) {
            0
        } else if col == 20 && (15..20).contains(&row) {
            10000
        } else {
            TOP
        }
    });
}

#[test]
fn reload_mid_trace_drops_the_motion() {
    let first = GCode::from_source("a.f02", "N1G01Z0.0 N2G01").unwrap();
    let mut executor = GCodeExecutor::new(first, RESOLUTION, SIZE);
    let mut map = HeightMap::new(RESOLUTION, TOP);
    executor.execute_step(&mut map);
    executor.execute_step(&mut map);
    assert_eq!(executor.current_point(), Some(2));
    assert_eq!(executor.lattice_position(), (0, 219, 0));
    executor.load(GCode::from_source("b.k04", "N1G01 N2G01").unwrap());
    assert!(executor.current_points().is_none());
    assert_eq!(executor.current_point(), None);
    assert_eq!(executor.cutter().len(), 4);
}

#[test]
fn stamping_past_the_edge_skips_outside_cells() {
    let code = GCode::from_source(
        "a.f04",
        "N1G01Z0.0 N2G01X19.0 N3G01X25.0 N4G01",
    )
    .unwrap();
    let mut executor = GCodeExecutor::new(code, RESOLUTION, SIZE);
    assert_eq!(executor.cutter().len(), 4);
    let mut map = HeightMap::new(RESOLUTION, TOP);
    run(&mut executor, &mut map);
    assert_eq!(executor.lattice_position(), (25, 0, 0));
    expect_heights(&map, |row, col| {
        if (19..=39).contains(&row) && (19..=21).contains(&col) {
            0
        } else {
            TOP
        }
    });
}

#[test]
fn spherical_cut_leaves_the_sphere_profile() {
    let code = GCode::from_source("a.k04", "N1G01Z10.0 N2G01").unwrap();
    let mut executor = GCodeExecutor::new(code, RESOLUTION, SIZE);
    let mut map = HeightMap::new(RESOLUTION, TOP);
    run(&mut executor, &mut map);
    assert_eq!(map.get_height((20, 20)), 10000);
    assert_eq!(map.get_height((21, 20)), 10268);
    assert_eq!(map.get_height((19, 20)), 10268);
    assert_eq!(map.get_height((20, 21)), 10268);
    assert_eq!(map.get_height((21, 21)), 10586);
    assert_eq!(map.get_height((19, 19)), 10586);
    assert_eq!(map.get_height((22, 20)), TOP);
}

#[test]
fn changes_since_last_drain_are_reported_once() {
    let code = GCode::from_source("a.f02", "N1G01Z0.0 N2G01X3.0 N3G01").unwrap();
    let mut executor = GCodeExecutor::new(code, RESOLUTION, SIZE);
    let mut map = HeightMap::new(RESOLUTION, TOP);
    run(&mut executor, &mut map);
    let region = map.drain_changes().unwrap();
    assert_eq!((region.left, region.bottom, region.width, region.height), (20, 20, 1, 4));
    assert_eq!(map.drain_changes(), None);
}

#[test]
fn start_height_is_reported_exactly_off_the_lattice() {
    let code = GCode::from_source("a.f02", "N1G01 N2G01").unwrap();
    let resolution = (7, 7, 7);
    let size = (30000, 30000, 30000);
    let mut executor = GCodeExecutor::new(code, resolution, size);
    assert_eq!(executor.current_position(), (0, 220000, 0));
    assert_eq!(executor.lattice_position(), (0, 51, 0));
    let mut map = HeightMap::new(resolution, 15000);
    executor.execute_step(&mut map);
    assert_eq!(executor.lattice_position(), (0, 51, 0));
    assert_eq!(executor.current_position(), (0, 218571, 0));
}

#[test]
fn reload_keeps_the_reported_position() {
    let first = GCode::from_source("a.f02", "N1G01Z0.0 N2G01").unwrap();
    let mut executor = GCodeExecutor::new(first, RESOLUTION, SIZE);
    executor.load(GCode::from_source("b.f02", "N1G01 N2G01").unwrap());
    assert_eq!(executor.current_position(), (0, 220000, 0));
}

#[test]
fn carving_survives_several_reloads() {
    let mut executor = GCodeExecutor::new(
        GCode::from_source("a.f02", "N1G01X0.0Y0.0Z0.0 N2G01X5.0 N3G01").unwrap(),
        RESOLUTION,
        SIZE,
    );
    let mut map = HeightMap::new(RESOLUTION, TOP);
    run(&mut executor, &mut map);
    let carved: Vec<Vec<i64>> = (0..40).map(|r| (0..40).map(|c| map.get_height((r, c))).collect()).collect();
    for text in ["N1G01Z30.0 N2G01X-8.0 N3G01", "N1G01Z15.0Y3.0 N2G01X8.0 N3G01"] {
        executor.load(GCode::from_source("b.k04", text).unwrap());
        for _ in 0..5 {
            executor.execute_step(&mut map);
        }
        executor.load(GCode::from_source("c.f04", text).unwrap());
        run(&mut executor, &mut map);
    }
    for r in 0..40 {
        for c in 0..40 {
            assert!(map.get_height((r, c)) <= carved[r][c]);
        }
    }
    assert_eq!(map.get_height((20, 20)), 0);
}
