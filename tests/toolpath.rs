use milling_simulator::g_code::{cutter_for_path, parse_instructions, GCode};
use milling_simulator::milling_cutter::MillingCutter;

#[test]
fn cutter_tags_are_recognised() {
    assert_eq!(MillingCutter::parse("k16"), Some(MillingCutter::Spherical(16)));
    assert_eq!(MillingCutter::parse("f10"), Some(MillingCutter::Flat(10)));
    assert_eq!(MillingCutter::parse("f255"), Some(MillingCutter::Flat(255)));
}

#[test]
fn unknown_cutter_tags_are_rejected() {
    assert_eq!(MillingCutter::parse("x16"), None);
    assert_eq!(MillingCutter::parse("k"), None);
    assert_eq!(MillingCutter::parse("k256"), None);
    assert_eq!(MillingCutter::parse("k1a"), None);
    assert_eq!(MillingCutter::parse(""), None);
}

#[test]
fn cutter_radius_follows_the_code() {
    assert_eq!(MillingCutter::Spherical(16).radius(), 8000);
    assert_eq!(MillingCutter::Flat(10).size(), 10);
}

#[test]
fn cutter_comes_from_the_file_suffix() {
    assert_eq!(cutter_for_path("paths/part1.k08"), Some(MillingCutter::Spherical(8)));
    assert_eq!(cutter_for_path("part1.f12"), Some(MillingCutter::Flat(12)));
    assert_eq!(cutter_for_path("part1"), None);
    assert_eq!(cutter_for_path("part1.txt"), None);
}

#[test]
fn unparsable_tokens_are_dropped() {
    let instructions = parse_instructions("N1G01\nN2G01X1.0 garbage\r\n  N3G01Z-2.5\tN4\n");
    assert_eq!(instructions.len(), 3);
    assert_eq!(instructions[0].n(), 1);
    assert_eq!(instructions[1].x(), Some(1000));
    assert_eq!(instructions[2].z(), Some(-2500));
}

#[test]
fn empty_stream_has_no_instructions() {
    assert!(parse_instructions("").is_empty());
    assert!(parse_instructions(" \n\t ").is_empty());
}

#[test]
fn toolpath_is_built_from_file_name_and_text() {
    let code = GCode::from_source("a.k16", "N1G01 N2G01X5.0Y0.0Z0.0").unwrap();
    assert_eq!(code.cutter(), MillingCutter::Spherical(16));
    assert_eq!(code.instructions().len(), 2);
    assert_eq!(code.instructions()[1].x(), Some(5000));
    assert!(GCode::from_source("a.q16", "N1G01").is_none());
}
