use raytracer::ppm::{clamp_channel, format_header, format_vector, DisplayColor, MAX_LINE_WIDTH};
use raytracer::text::decimal_string;

#[test]
fn clamp_channel_keeps_values_in_range() {
    assert_eq!(clamp_channel(0), 0);
    assert_eq!(clamp_channel(128), 128);
    assert_eq!(clamp_channel(255), 255);
}

#[test]
fn clamp_channel_clamps_out_of_range_values() {
    assert_eq!(clamp_channel(383), 255);
    assert_eq!(clamp_channel(-128), 0);
    assert_eq!(clamp_channel(i64::MAX), 255);
    assert_eq!(clamp_channel(i64::MIN), 0);
}

#[test]
fn display_values_of_scaled_intensities() {
    let shown = |v: f32| clamp_channel((255.0 * v).round() as i64);
    assert_eq!(shown(1.5), 255);
    assert_eq!(shown(-0.5), 0);
    assert_eq!(shown(0.5), 128);
}

#[test]
fn from_rounded_clamps_each_channel() {
    assert_eq!(DisplayColor::from_rounded(300, -4, 77), DisplayColor::new(255, 0, 77));
    let c = DisplayColor::new(1, 2, 3);
    assert_eq!((c.red, c.green, c.blue), (1, 2, 3));
}

#[test]
fn header_text() {
    assert_eq!(format_header(10, 20), "P3\n10 20\n255\n");
    assert_eq!(format_header(0, 7), "P3\n0 7\n255\n");
}

#[test]
fn decimal_text_of_numbers() {
    assert_eq!(decimal_string(0), "0");
    assert_eq!(decimal_string(7), "7");
    assert_eq!(decimal_string(10), "10");
    assert_eq!(decimal_string(255), "255");
    assert_eq!(decimal_string(1234567890), "1234567890");
    assert_eq!(decimal_string(usize::MAX), usize::MAX.to_string());
}

#[test]
fn short_row_is_one_line() {
    assert_eq!(format_vector(&vec![255, 0, 7]), "255 0 7\n");
    assert_eq!(format_vector(&vec![]), "\n");
}

#[test]
fn row_of_exactly_the_limit_is_not_wrapped() {
    // 17 three-digit tokens and one two-digit token: 51 + 2 + 17 spaces = 70.
    let mut vals = vec![100u8; 17];
    vals.push(10);
    let out = format_vector(&vals);
    assert_eq!(out.len(), MAX_LINE_WIDTH + 1);
    assert_eq!(out.matches('\n').count(), 1);
}

#[test]
fn row_one_past_the_limit_is_wrapped() {
    let mut vals = vec![100u8; 17];
    vals.push(100);
    let out = format_vector(&vals);
    let first = "100 ".repeat(16) + "100";
    assert_eq!(out, format!("{}\n100\n", first));
}

#[test]
fn long_row_is_packed_greedily() {
    let vals = vec![5u8; 40];
    let out = format_vector(&vals);
    let first = "5 ".repeat(34) + "5";
    let second = "5 ".repeat(4) + "5";
    assert_eq!(first.len(), 69);
    assert_eq!(out, format!("{}\n{}\n", first, second));
}
