use baud::{format_timestamp, ClockTime, LineEnding};
use chrono::{TimeZone, Timelike};

fn clock(dt: &chrono::DateTime<chrono::Local>) -> ClockTime {
    ClockTime::new(dt.hour(), dt.minute(), dt.second(), dt.nanosecond()).unwrap()
}

#[test]
fn line_ending_bytes() {
    assert_eq!(LineEnding::NoEnding.as_bytes(), b"");
    assert_eq!(LineEnding::Lf.as_bytes(), b"\n");
    assert_eq!(LineEnding::Cr.as_bytes(), b"\r");
    assert_eq!(LineEnding::CrLf.as_bytes(), b"\r\n");
}

#[test]
fn line_ending_display_labels() {
    assert_eq!(LineEnding::NoEnding.to_string(), "None");
    assert_eq!(LineEnding::Lf.to_string(), "\\n");
    assert_eq!(LineEnding::Cr.to_string(), "\\r");
    assert_eq!(LineEnding::CrLf.to_string(), "\\r\\n");
}

#[test]
fn timestamp_formats_hh_mm_ss_millis() {
    let dt = chrono::Local
        .with_ymd_and_hms(2026, 8, 9, 14, 3, 22)
        .unwrap()
        + chrono::Duration::milliseconds(451);
    assert_eq!(format_timestamp(clock(&dt)), "14:03:22.451");
}

#[test]
fn line_ending_all_in_offered_order() {
    assert_eq!(
        LineEnding::ALL,
        [LineEnding::NoEnding, LineEnding::Lf, LineEnding::Cr, LineEnding::CrLf]
    );
}

#[test]
fn timestamp_pads_small_fields_with_zeros() {
    let t = ClockTime::new(0, 5, 7, 9_000_000).unwrap();
    assert_eq!(format_timestamp(t), "00:05:07.009");
}

#[test]
fn timestamp_cuts_milliseconds_without_rounding() {
    let t = ClockTime::new(23, 59, 58, 999_999_999).unwrap();
    assert_eq!(format_timestamp(t), "23:59:58.999");
}

#[test]
fn timestamp_shows_leap_second_as_sixty() {
    let t = ClockTime::new(23, 59, 59, 1_250_000_000).unwrap();
    assert_eq!(format_timestamp(t), "23:59:60.250");
}

#[test]
fn timestamp_agrees_with_chrono_format() {
    let dt = chrono::Local
        .with_ymd_and_hms(2025, 1, 2, 3, 4, 5)
        .unwrap()
        + chrono::Duration::nanoseconds(67_891_234);
    assert_eq!(
        format_timestamp(clock(&dt)),
        dt.format("%H:%M:%S%.3f").to_string()
    );
}

#[test]
fn clock_time_refuses_fields_out_of_range() {
    assert!(ClockTime::new(24, 0, 0, 0).is_none());
    assert!(ClockTime::new(0, 60, 0, 0).is_none());
    assert!(ClockTime::new(0, 0, 60, 0).is_none());
    assert!(ClockTime::new(0, 0, 30, 1_000_000_000).is_none());
    assert!(ClockTime::new(0, 0, 59, 2_000_000_000).is_none());
    assert!(ClockTime::new(23, 59, 59, 1_999_999_999).is_some());
}

#[test]
fn timestamps_are_twelve_characters() {
    let t = ClockTime::new(9, 8, 7, 6).unwrap();
    t.lemma_in_range();
    assert_eq!(format_timestamp(t).chars().count(), 12);
}
