use ratatui_tetris::text::{format_time, group_digits, push_decimal, push_signed};
use std::time::Duration;

fn nanos(d: Duration) -> u64 {
    d.as_nanos() as u64
}

#[test]
fn digits_are_grouped_in_threes() {
    assert_eq!(group_digits(0), "0");
    assert_eq!(group_digits(42), "42");
    assert_eq!(group_digits(1234), "1,234");
    assert_eq!(group_digits(1234567), "1,234,567");
}

#[test]
fn time_is_minutes_and_padded_seconds() {
    assert_eq!(format_time(nanos(Duration::from_secs(0))), "0:00");
    assert_eq!(format_time(nanos(Duration::from_secs(65))), "1:05");
    assert_eq!(format_time(nanos(Duration::from_secs(3600))), "60:00");
}

#[test]
fn grouping_handles_round_numbers_and_extremes() {
    assert_eq!(group_digits(999), "999");
    assert_eq!(group_digits(1000), "1,000");
    assert_eq!(group_digits(100200), "100,200");
    assert_eq!(group_digits(u64::MAX), "18,446,744,073,709,551,615");
}

#[test]
fn partial_seconds_do_not_count() {
    assert_eq!(format_time(nanos(Duration::from_millis(59_999))), "0:59");
    assert_eq!(format_time(nanos(Duration::from_millis(60_000))), "1:00");
}

#[test]
fn numbers_are_written_in_decimal() {
    let mut s = String::from("x=");
    push_decimal(&mut s, 1907);
    assert_eq!(s, "x=1907");
    let mut t = String::new();
    push_signed(&mut t, -42);
    push_signed(&mut t, 0);
    push_signed(&mut t, i32::MIN);
    assert_eq!(t, "-420-2147483648");
}
