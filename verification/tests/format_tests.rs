use ptop::stats::{format_duration, format_duration_opt, format_elapsed};
use ptop::text::{format_count, u64_to_string};

#[test]
fn test_format_duration_microseconds() {
    assert_eq!(format_duration(500), "500µs");
    assert_eq!(format_duration(999), "999µs");
}

#[test]
fn test_format_duration_milliseconds() {
    assert_eq!(format_duration(1500), "1.5ms");
    assert_eq!(format_duration(15_000), "15.0ms");
    assert_eq!(format_duration(99_000), "99.0ms");
}

#[test]
fn test_format_duration_large() {
    assert_eq!(format_duration(100_000), "100ms");
    assert_eq!(format_duration(1_500_000), "1500ms");
}

#[test]
fn test_format_duration_opt() {
    assert_eq!(format_duration_opt(None), "-");
    assert_eq!(format_duration_opt(Some(10_000)), "10.0ms");
}

#[test]
fn test_format_elapsed() {
    assert_eq!(format_elapsed(30), "30s");
    assert_eq!(format_elapsed(90), "1m 30s");
    assert_eq!(format_elapsed(3661), "1h 1m");
}

#[test]
fn test_format_elapsed_hour_boundary() {
    assert_eq!(format_elapsed(59), "59s");
    assert_eq!(format_elapsed(60), "1m 0s");
    assert_eq!(format_elapsed(3599), "59m 59s");
    assert_eq!(format_elapsed(3600), "1h 0m");
}

#[test]
fn test_format_duration_zero() {
    assert_eq!(format_duration(0), "0µs");
}

#[test]
fn test_u64_to_string() {
    assert_eq!(u64_to_string(0), "0");
    assert_eq!(u64_to_string(7), "7");
    assert_eq!(u64_to_string(10), "10");
    assert_eq!(u64_to_string(90210), "90210");
    assert_eq!(u64_to_string(u64::MAX), "18446744073709551615");
}

#[test]
fn test_format_count() {
    assert_eq!(format_count(999), "999");
    assert_eq!(format_count(200_000), "200k");
    assert_eq!(format_count(3_123_423), "3.1m");
    assert_eq!(format_count(1_500), "1.5k");
    assert_eq!(format_count(12_000_000), "12m");
}

#[test]
fn test_format_duration_boundaries() {
    assert_eq!(format_duration(1000), "1.0ms");
    assert_eq!(format_duration(1560), "1.6ms"); // the decimal rounds to nearest
    assert_eq!(format_duration(99_999), "100.0ms"); // rounding carries
}
