use stick_recovery::device::parse_bounded;
use stick_recovery::report::{gigabytes, size_label};
use stick_recovery::text::decimal;

#[test]
fn size_labels() {
    assert_eq!(size_label(0), "0 bytes");
    assert_eq!(size_label(1024), "1024 bytes");
    assert_eq!(size_label(1025), "1 KB");
    assert_eq!(size_label(1024 * 1024), "1024 KB");
    assert_eq!(size_label(1024 * 1024 + 1), "1 MB");
    assert_eq!(size_label(5 * 1024 * 1024 * 1024), "5120 MB");
}

#[test]
fn whole_gigabytes() {
    assert_eq!(gigabytes(0), 0);
    assert_eq!(gigabytes(1024 * 1024 * 1024 - 1), 0);
    assert_eq!(gigabytes(16 * 1024 * 1024 * 1024 + 5), 16);
}

#[test]
fn decimal_notation() {
    assert_eq!(decimal(0), "0");
    assert_eq!(decimal(7), "7");
    assert_eq!(decimal(10), "10");
    assert_eq!(decimal(1234567890), "1234567890");
    assert_eq!(decimal(u64::MAX), u64::MAX.to_string());
}

#[test]
fn decimal_parses_back() {
    for n in [0u64, 9, 10, 512, 65535, 1 << 40, u64::MAX] {
        assert_eq!(parse_bounded(&decimal(n), u64::MAX), Some(n));
    }
}
