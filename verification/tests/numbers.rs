use chrono::Duration;
use tali::numbers::{allocate_next_id, format_bytes, parse_age, Age, AgeError, AgeUnit};
use tali::update_check::{normalize_version, parse_version, version_greater};

#[test]
fn formats_byte_counts() {
    assert_eq!(format_bytes(42), "42 B");
    assert_eq!(format_bytes(2048), "2.0 KB");
    assert_eq!(format_bytes(2 * 1024 * 1024), "2.0 MB");
}

#[test]
fn format_bytes_matches_one_decimal_rounding() {
    let samples: [u64; 12] = [
        0,
        1023,
        1024,
        1536,
        1075,
        1126,
        10 * 1024 * 1024 + 52428,
        1024 * 1024 * 1024,
        5 * 1024 * 1024 * 1024 + 1,
        u64::MAX,
        1024 * 1024 - 1,
        123_456_789_012,
    ];
    for bytes in samples {
        let b = bytes as f64;
        let expected = if b >= 1024.0 * 1024.0 * 1024.0 {
            format!("{:.1} GB", b / (1024.0 * 1024.0 * 1024.0))
        } else if b >= 1024.0 * 1024.0 {
            format!("{:.1} MB", b / (1024.0 * 1024.0))
        } else if b >= 1024.0 {
            format!("{:.1} KB", b / 1024.0)
        } else {
            format!("{} B", bytes)
        };
        assert_eq!(format_bytes(bytes), expected, "bytes = {bytes}");
    }
}

#[test]
fn allocates_numeric_ids() {
    assert_eq!(allocate_next_id(&["01", "02"]), "03");
    assert_eq!(allocate_next_id(&[]), "01");
}

#[test]
fn allocates_after_largest_numeric_id_only() {
    assert_eq!(allocate_next_id(&["07", "setup", "3"]), "08");
    assert_eq!(allocate_next_id(&["99"]), "100");
}

#[test]
fn compares_versions() {
    assert!(version_greater("0.1.5", "0.1.4"));
    assert!(version_greater("1.0.0", "0.9.9"));
    assert!(!version_greater("0.1.4", "0.1.4"));
    assert!(!version_greater("0.1.3", "0.1.4"));
}

#[test]
fn versions_ignore_prefix_and_extra_parts() {
    assert_eq!(normalize_version("  v0.2.0 "), "0.2.0".chars().collect::<Vec<char>>());
    assert_eq!(parse_version("v1.2.3.4"), vec![1, 2, 3]);
    assert!(version_greater("1.10.0", "1.9.0"));
    assert!(!version_greater("v1.2", "1.2.0"));
}

#[test]
fn parses_age_units() {
    assert_eq!(Duration::seconds(parse_age("30d").unwrap().seconds()), Duration::days(30));
    assert_eq!(Duration::seconds(parse_age("12h").unwrap().seconds()), Duration::hours(12));
    assert_eq!(Duration::seconds(parse_age("15m").unwrap().seconds()), Duration::minutes(15));
    assert_eq!(Duration::seconds(parse_age("20s").unwrap().seconds()), Duration::seconds(20));
    assert!(parse_age("old").is_err());
}

#[test]
fn age_errors_and_spellings() {
    assert_eq!(parse_age("  7 "), Ok(Age { amount: 7, unit: AgeUnit::Days }));
    assert_eq!(parse_age("2hours"), Ok(Age { amount: 2, unit: AgeUnit::Hours }));
    assert!(matches!(parse_age(""), Err(AgeError::Empty)));
    assert!(parse_age("5y").is_err());
}

#[test]
fn ages_beyond_a_time_delta_are_out_of_range() {
    assert!(parse_age("30d").unwrap().within_delta_range());
    assert!(!parse_age("106751991168d").unwrap().within_delta_range());
    assert!(parse_age("106751991167d").unwrap().within_delta_range());
}
