//! Timestamps as they are shown.

use zenmon::view::network::zid_short;
use zenmon::view::fmt::{
    cap_fractional_digits, format_stream_timestamp, readable_date, trim_fractional_zeros,
};

#[test]
fn formats_zenoh_timestamp_as_readable_datetime() {
    let formatted = format_stream_timestamp("7386690599959157260/33");
    // `to_string_rfc3339_lossy()` fraction width is zenoh-version dependent
    // (some emit microseconds, some nanoseconds). We cap it to microseconds
    // ourselves so the display is deterministic regardless of that.
    assert_eq!(formatted, "2024-07-01 15:32:06.860479");
}

#[test]
fn caps_fraction_to_microseconds() {
    // Nanosecond fraction is truncated to 6 digits (version-independent).
    assert_eq!(
        cap_fractional_digits("2024-07-01 15:32:06.860479001".to_string(), 6),
        "2024-07-01 15:32:06.860479"
    );
    // Fewer than 6 fractional digits are left untouched.
    assert_eq!(
        cap_fractional_digits("2024-07-01 15:32:06.86".to_string(), 6),
        "2024-07-01 15:32:06.86"
    );
    // No fractional part: unchanged.
    assert_eq!(
        cap_fractional_digits("2024-07-01 15:32:06".to_string(), 6),
        "2024-07-01 15:32:06"
    );
}

#[test]
fn keeps_raw_timestamp_when_parsing_fails() {
    assert_eq!(
        format_stream_timestamp("not-a-timestamp"),
        "not-a-timestamp"
    );
}

#[test]
fn keeps_empty_timestamp_empty() {
    assert_eq!(format_stream_timestamp(""), "");
}

#[test]
fn trims_trailing_fractional_zeros() {
    assert_eq!(
        trim_fractional_zeros("2024-07-01 15:32:06.860479000".to_string()),
        "2024-07-01 15:32:06.860479"
    );
    assert_eq!(
        trim_fractional_zeros("2024-07-01 15:32:06.000000000".to_string()),
        "2024-07-01 15:32:06"
    );
}

#[test]
fn a_date_is_made_readable() {
    assert_eq!(readable_date("2024-07-01T15:32:06.860479001Z"), "2024-07-01 15:32:06.860479");
    assert_eq!(readable_date("2024-07-01T15:32:06.000000000Z"), "2024-07-01 15:32:06");
}

#[test]
fn a_timestamp_needs_an_identifier_behind_its_time() {
    assert_eq!(format_stream_timestamp("7386690599959157260"), "7386690599959157260");
    assert_eq!(format_stream_timestamp("x/33"), "x/33");
    assert_eq!(format_stream_timestamp("0/33"), "1970-01-01 00:00:00");
}

#[test]
fn the_fraction_is_counted_in_bytes() {
    assert_eq!(cap_fractional_digits("1.äöü".to_string(), 4), "1.äö");
    assert_eq!(cap_fractional_digits("1.äöü".to_string(), 6), "1.äöü");
    assert_eq!(zid_short("0123456789abcdef0123"), "0123456789abcdef");
    assert_eq!(zid_short("ääääääääääää"), "ääääääää");
    assert_eq!(zid_short("short"), "short");
}
