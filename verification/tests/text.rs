use codenotch_win::notch::notch_exstyle;
use codenotch_win::number::read_scaled;
use codenotch_win::process::{lists_process_id, trim_text};
use codenotch_win::text::{decimal, parse_u64, same_text};

#[test]
fn decimal_renders_digits() {
    assert_eq!(decimal(0), "0");
    assert_eq!(decimal(7), "7");
    assert_eq!(decimal(60), "60");
    assert_eq!(decimal(u64::MAX), "18446744073709551615");
}

#[test]
fn parse_u64_follows_std() {
    for s in ["", "+", "0", "+12", "-1", "12a", " 1", "007", "18446744073709551615", "18446744073709551616", "99999999999999999999999"] {
        assert_eq!(parse_u64(s), s.parse::<u64>().ok(), "{s}");
    }
}

#[test]
fn same_text_compares_characters() {
    assert!(same_text("session", "session"));
    assert!(!same_text("session", "sessions"));
    assert!(!same_text("a", "b"));
    assert!(same_text("", ""));
}

#[test]
fn trim_matches_std() {
    for s in ["", "  ", " 12 \r", "\u{3000}x\u{85}", "a b", "\u{200b}1"] {
        assert_eq!(trim_text(s), s.trim(), "{s:?}");
    }
}

#[test]
fn process_listing_detects_ids() {
    assert!(lists_process_id("1234\r\n"));
    assert!(lists_process_id("\r\n  \r\n 42 \r\n"));
    assert!(lists_process_id("x\n4294967295"));
    assert!(!lists_process_id("4294967296\n"));
    assert!(!lists_process_id(""));
    assert!(!lists_process_id("\n\n"));
    assert!(!lists_process_id("12 34\n-5\nabc"));
    assert!(lists_process_id("+7"));
}

#[test]
fn notch_style_sets_toolwindow_only() {
    assert_eq!(notch_exstyle(0x000C01B8), 0x00040198);
    assert_eq!(notch_exstyle(0x00040118), 0x00040198);
    assert_eq!(notch_exstyle(0), 0x80);
    assert_eq!(notch_exstyle(-1), !(0x20 | 0x80000));
}

#[test]
fn numbers_are_read_exactly() {
    let max = u64::MAX as u128;
    assert_eq!(read_scaled("1.5e3", 0, max), Some((false, 1500)));
    assert_eq!(read_scaled("1E+2", 0, max), Some((false, 100)));
    assert_eq!(read_scaled("5000.9999999", 0, max), Some((false, 5000)));
    assert_eq!(read_scaled("-7.9", 0, max), Some((true, 7)));
    assert_eq!(read_scaled("-0", 0, max), Some((true, 0)));
    assert_eq!(read_scaled("42.5", 16, 1_000_000_000_000_000_000), Some((false, 425_000_000_000_000_000)));
    assert_eq!(read_scaled("150", 16, 1_000_000_000_000_000_000), Some((false, 1_000_000_000_000_000_000)));
    assert_eq!(read_scaled("1e400", 0, max), Some((false, max)));
    assert_eq!(read_scaled("0e400", 0, max), Some((false, 0)));
    assert_eq!(read_scaled("123e-400", 0, max), Some((false, 0)));
    assert_eq!(read_scaled("1234e-2", 0, max), Some((false, 12)));
    assert_eq!(read_scaled("1e99999999999999999999999999999999999", 0, max), Some((false, max)));
    for bad in ["", "-", "abc", "1.", ".5", "1e", "1e+", "1.2.3", "+1", " 1"] {
        assert_eq!(read_scaled(bad, 0, max), None, "{bad:?}");
    }
}
