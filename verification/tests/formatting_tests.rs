use system_monitor::format_bytes;
use system_monitor::format_percent;
use system_monitor::format_speed;

#[test]
fn test_format_bytes() {
    assert_eq!(format_bytes(0), "0 B");
    assert_eq!(format_bytes(500), "500 B");
    assert_eq!(format_bytes(1500), "1.50 KB");
    assert_eq!(format_bytes(1_500_000), "1.50 MB");
    assert_eq!(format_bytes(1_500_000_000), "1.50 GB");
    assert_eq!(format_bytes(15_000_000_000), "15.0 GB");
    assert_eq!(format_bytes(150_000_000_000), "150 GB");
}

#[test]
fn test_format_speed() {
    assert_eq!(format_speed(1_500_000), "1.50 MB/s");
    assert_eq!(format_speed(150_000_000), "150 MB/s");
}

#[test]
fn bytes_under_a_kilobyte_keep_their_value() {
    assert_eq!(format_bytes(1), "1.00 B");
    assert_eq!(format_bytes(5), "5.00 B");
    assert_eq!(format_bytes(15), "15.0 B");
    assert_eq!(format_bytes(99), "99.0 B");
    assert_eq!(format_bytes(100), "100 B");
    assert_eq!(format_bytes(999), "999 B");
}

#[test]
fn precision_follows_scaled_magnitude() {
    // scaled value below 10: two decimal digits
    assert_eq!(format_bytes(9_990), "9.99 KB");
    // scaled value in [10, 100): one decimal digit
    assert_eq!(format_bytes(10_000), "10.0 KB");
    assert_eq!(format_bytes(99_940), "99.9 KB");
    // scaled value at least 100: no decimal digits
    assert_eq!(format_bytes(100_000), "100 KB");
    assert_eq!(format_bytes(999_499), "999 KB");
}

#[test]
fn rounding_can_carry_into_the_next_magnitude() {
    // 9999 B scales to 9.999 KB, which rounds to two decimals as 10.00
    assert_eq!(format_bytes(9_999), "10.00 KB");
    // 999999 B is still in the KB tier and rounds to 1000
    assert_eq!(format_bytes(999_999), "1000 KB");
}

#[test]
fn tiers_cover_the_whole_range() {
    assert_eq!(format_bytes(1_000), "1.00 KB");
    assert_eq!(format_bytes(1_000_000), "1.00 MB");
    assert_eq!(format_bytes(1_000_000_000), "1.00 GB");
    assert_eq!(format_bytes(1_000_000_000_000), "1.00 TB");
    assert_eq!(format_bytes(1_000_000_000_000_000), "1.00 PB");
    // beyond the last named tier the value is clamped to PB
    assert_eq!(format_bytes(u64::MAX), "18447 PB");
}

#[test]
fn prefixes_grow_with_the_byte_count() {
    // same tier, growing counts: growing numeric prefixes
    assert_eq!(format_bytes(1_500), "1.50 KB");
    assert_eq!(format_bytes(2_500), "2.50 KB");
    assert_eq!(format_bytes(25_000), "25.0 KB");
    assert_eq!(format_bytes(250_000), "250 KB");
}

#[test]
fn speed_is_bytes_with_a_suffix() {
    assert_eq!(format_speed(0), "0 B/s");
    assert_eq!(format_speed(999), "999 B/s");
    assert_eq!(format_speed(u64::MAX), "18447 PB/s");
}

#[test]
fn percent_always_has_one_decimal_digit() {
    assert_eq!(format_percent(0), "0.0%");
    assert_eq!(format_percent(5), "0.5%");
    assert_eq!(format_percent(503), "50.3%");
    assert_eq!(format_percent(1000), "100.0%");
    assert_eq!(format_percent(1234), "123.4%");
}
