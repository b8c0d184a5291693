//! Binary cursor primitive and log-level tests.

use bootmem::bytes::{bytes_eq, find_byte, find_nul, pad4_up, read_be_u32, read_be_u64, read_le_u32, read_le_u64};
use bootmem::klog::{prefix, severity, should_log, Level};

#[test]
fn big_endian_reads_are_most_significant_first() {
    let b = [0x12, 0x34, 0x56, 0x78, 0x9A, 0xBC, 0xDE, 0xF0, 0x01];
    assert_eq!(read_be_u32(&b, 0), 0x12345678);
    assert_eq!(read_be_u32(&b, 1), 0x3456789A);
    assert_eq!(read_be_u64(&b, 0), 0x123456789ABCDEF0);
    assert_eq!(read_be_u64(&b, 1), 0x3456789ABCDEF001);
}

#[test]
fn little_endian_reads_are_least_significant_first() {
    let b = [0x12, 0x34, 0x56, 0x78, 0x9A, 0xBC, 0xDE, 0xF0, 0x01];
    assert_eq!(read_le_u32(&b, 0), 0x78563412);
    assert_eq!(read_le_u64(&b, 0), 0xF0DEBC9A78563412);
    assert_eq!(read_le_u64(&b, 1), 0x01F0DEBC9A785634);
}

#[test]
fn nul_scan_finds_the_first_zero() {
    let b = [3u8, 1, 0, 2, 0];
    assert_eq!(find_nul(&b, 0), 2);
    assert_eq!(find_nul(&b, 2), 2);
    assert_eq!(find_nul(&b, 3), 4);
    let none = [7u8, 7, 7];
    assert_eq!(find_nul(&none, 0), 3);
    assert_eq!(find_nul(&none, 3), 3);
}

#[test]
fn byte_scan_finds_the_first_occurrence() {
    let b = b"memory@80000000";
    assert_eq!(find_byte(b, 64, 0), 6);
    assert_eq!(find_byte(b, 47, 0), b.len());
}

#[test]
fn byte_equality_is_exact() {
    assert!(bytes_eq(b"reg", b"reg"));
    assert!(!bytes_eq(b"reg", b"re"));
    assert!(!bytes_eq(b"reg", b"rag"));
    assert!(bytes_eq(b"", b""));
}

#[test]
fn padding_rounds_up_to_four() {
    assert_eq!(pad4_up(0), 0);
    assert_eq!(pad4_up(1), 4);
    assert_eq!(pad4_up(4), 4);
    assert_eq!(pad4_up(5), 8);
    assert_eq!(pad4_up(7), 8);
    assert_eq!(pad4_up(8), 8);
}

#[test]
fn severities_order_debug_lowest() {
    assert!(severity(Level::Debug) < severity(Level::Info));
    assert!(severity(Level::Info) < severity(Level::Warning));
    assert!(severity(Level::Warning) < severity(Level::Error));
    assert!(severity(Level::Error) < severity(Level::Fatal));
}

#[test]
fn threshold_filters_lower_severities() {
    assert!(!should_log(Level::Debug, Level::Info));
    assert!(should_log(Level::Info, Level::Info));
    assert!(should_log(Level::Fatal, Level::Info));
    assert!(should_log(Level::Debug, Level::Debug));
    assert!(!should_log(Level::Error, Level::Fatal));
}

#[test]
fn each_severity_has_its_prefix() {
    assert_eq!(prefix(Level::Debug), "d ");
    assert_eq!(prefix(Level::Info), "i ");
    assert_eq!(prefix(Level::Warning), "W ");
    assert_eq!(prefix(Level::Error), "E ");
    assert_eq!(prefix(Level::Fatal), "F ");
}
