use racklight::backlight::{Backlight, Ops};
use racklight::command::{apply_stream, first_device, lex_le_bytes, parse_command};
use racklight::Error;

#[test]
fn plus_prefix_selects_increase() {
    assert_eq!(parse_command(b"+70"), Ok((Ops::Increase, 70)));
}

#[test]
fn minus_prefix_selects_decrease() {
    assert_eq!(parse_command(b"-50"), Ok((Ops::Decrease, 50)));
}

#[test]
fn bare_value_selects_assign() {
    assert_eq!(parse_command(b"42"), Ok((Ops::Assign, 42)));
}

#[test]
fn empty_argument_is_fatal() {
    assert_eq!(parse_command(b""), Err(Error::Argument));
}

#[test]
fn sign_without_digits_is_fatal() {
    assert_eq!(parse_command(b"+"), Err(Error::Argument));
    assert_eq!(parse_command(b"-"), Err(Error::Argument));
}

#[test]
fn non_numeric_argument_is_fatal() {
    assert_eq!(parse_command(b"bright"), Err(Error::Argument));
}

#[test]
fn every_sign_byte_is_stripped_before_parsing() {
    // signs are removed wherever they stand; the first byte alone picks the op
    assert_eq!(parse_command(b"1+2"), Ok((Ops::Assign, 12)));
    assert_eq!(parse_command(b"++10"), Ok((Ops::Increase, 10)));
    assert_eq!(parse_command(b"-1-0"), Ok((Ops::Decrease, 10)));
}

#[test]
fn lexicographic_order_on_names() {
    assert!(lex_le_bytes(&b"acpi_video0".to_vec(), &b"intel_backlight".to_vec()));
    assert!(!lex_le_bytes(&b"intel_backlight".to_vec(), &b"acpi_video0".to_vec()));
    assert!(lex_le_bytes(&b"abc".to_vec(), &b"abcd".to_vec()));
    assert!(!lex_le_bytes(&b"abcd".to_vec(), &b"abc".to_vec()));
    assert!(lex_le_bytes(&b"same".to_vec(), &b"same".to_vec()));
}

#[test]
fn autodetect_binds_to_alphabetically_first_device() {
    let names = vec![b"intel_backlight".to_vec(), b"acpi_video0".to_vec()];
    let idx = first_device(&names).unwrap();
    assert_eq!(names[idx], b"acpi_video0");
}

#[test]
fn autodetect_over_an_empty_root_is_fatal() {
    let names: Vec<Vec<u8>> = Vec::new();
    assert_eq!(first_device(&names), Err(Error::DeviceNotFound));
}

#[test]
fn autodetect_picks_the_minimum_of_many() {
    let names = vec![
        b"nv_backlight".to_vec(),
        b"acpi_video1".to_vec(),
        b"acpi_video0".to_vec(),
        b"intel_backlight".to_vec(),
    ];
    let idx = first_device(&names).unwrap();
    assert_eq!(names[idx], b"acpi_video0");
}

#[test]
fn streaming_applies_each_line_in_order() {
    // input "10\n20\n300\n" against max_brightness 255 stores 10, 20, 255
    let mut bl = Backlight::new("acpi_video0".to_string());
    bl.update(0, 255);
    let lines: Vec<Vec<u8>> = "10\n20\n300\n"
        .lines()
        .map(|l| l.as_bytes().to_vec())
        .collect();
    let stored = apply_stream(&mut bl, &lines).unwrap();
    assert_eq!(stored, vec![10, 20, 255]);
    assert_eq!(bl.cur_bright, 255);
}

#[test]
fn streaming_aborts_on_the_first_malformed_line() {
    let mut bl = Backlight::new("acpi_video0".to_string());
    bl.update(0, 255);
    let lines = vec![b"10".to_vec(), b"oops".to_vec(), b"20".to_vec()];
    assert_eq!(apply_stream(&mut bl, &lines), Err(Error::Parse));
    // the line before the bad one stays applied
    assert_eq!(bl.cur_bright, 10);
}
