use milling_simulator::g_code_instruction::GCodeInstruction;

fn expect_parsed(line: &str, n: u32, x: Option<i64>, y: Option<i64>, z: Option<i64>) {
    let instruction = GCodeInstruction::parse(line);
    assert!(instruction.is_some());
    let instruction = instruction.unwrap();
    assert_eq!(instruction.n(), n);
    assert_eq!(instruction.x(), x);
    assert_eq!(instruction.y(), y);
    assert_eq!(instruction.z(), z);
}

#[test]
fn code_is_parsed_without_axes() {
    expect_parsed("N1G01", 1, None, None, None);
}

#[test]
fn code_is_parsed_with_surrounding_whitespace() {
    expect_parsed("  \n  N145G01   ", 145, None, None, None);
}

#[test]
fn code_is_parsed_with_x() {
    expect_parsed("N123G01X00.000", 123, Some(0), None, None);
}

#[test]
fn code_is_parsed_with_x_y() {
    expect_parsed("N123G01X00.000Y00.000", 123, Some(0), Some(0), None);
}

#[test]
fn code_is_parsed_with_x_y_z() {
    expect_parsed("N123G01X00.000Y00.000Z00.000", 123, Some(0), Some(0), Some(0));
}

#[test]
fn code_is_parsed_with_values() {
    expect_parsed("N123G01X12.345Y21.555Z05.005", 123, Some(12345), Some(21555), Some(5005));
}

#[test]
fn code_is_parsed_with_negative_values() {
    expect_parsed("N123G01X-12.345Y21.555Z-05.005", 123, Some(-12345), Some(21555), Some(-5005));
}

#[test]
fn code_is_parsed_with_short_and_long_fractions() {
    expect_parsed("N7G01X5Y.5Z1.23456", 7, Some(5000), Some(500), Some(1234));
}

#[test]
fn code_is_parsed_with_plus_signs() {
    expect_parsed("N+8G01X+2.5", 8, Some(2500), None, None);
}

#[test]
fn code_cannot_be_parsed_with_letter_in_number() {
    assert!(GCodeInstruction::parse("N1aG01").is_none());
}

#[test]
fn code_cannot_be_parsed_when_empty() {
    assert!(GCodeInstruction::parse("").is_none());
}

#[test]
fn code_cannot_be_parsed_without_command_marker() {
    assert!(GCodeInstruction::parse("N12301X00.000Y00.000Z00.000").is_none());
}

#[test]
fn code_cannot_be_parsed_with_letters_in_axes() {
    assert!(GCodeInstruction::parse("N123G01Xa00.000Y00b.000Z00.000").is_none());
}

#[test]
fn code_cannot_be_parsed_without_sequence_marker() {
    assert!(GCodeInstruction::parse("G01X1.0").is_none());
}

#[test]
fn code_cannot_be_parsed_with_markers_out_of_order() {
    assert!(GCodeInstruction::parse("GN1").is_none());
    assert!(GCodeInstruction::parse("N1G01Y5X3").is_none());
}

#[test]
fn code_cannot_be_parsed_with_empty_axis_text() {
    assert!(GCodeInstruction::parse("N1G01X").is_none());
    assert!(GCodeInstruction::parse("N1G01X.Y1").is_none());
    assert!(GCodeInstruction::parse("N1G01X1.2.3").is_none());
}

#[test]
fn sequence_number_out_of_range_is_rejected() {
    assert!(GCodeInstruction::parse("N4294967296G01").is_none());
    expect_parsed("N4294967295G01", 4294967295, None, None, None);
}

#[test]
fn any_digits_may_follow_the_command_marker() {
    expect_parsed("N007G1X1.5", 7, Some(1500), None, None);
    expect_parsed("N9GZ-0.25", 9, None, None, Some(-250));
    expect_parsed("N12G0123Y+3", 12, None, Some(3000), None);
}

#[test]
fn axes_may_be_left_out_in_any_combination() {
    expect_parsed("N1G01X1Z2", 1, Some(1000), None, Some(2000));
    expect_parsed("N1G01Y-1.", 1, None, Some(-1000), None);
}

#[test]
fn token_is_never_accepted_in_part() {
    assert!(GCodeInstruction::parse("N1G01X1.0Y2.0Z3.0a").is_none());
    assert!(GCodeInstruction::parse("N1G01X--1").is_none());
    assert!(GCodeInstruction::parse("N-1G01").is_none());
    assert!(GCodeInstruction::parse("NG01").is_none());
}
