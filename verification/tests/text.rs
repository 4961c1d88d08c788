use camfast::round::{nearest, ratio, ratio_u32};
use camfast::text::{
    comes_before, contains, ends_with, is_whitespace, parse_u16, same_text, starts_with,
    to_ascii_lowercase, to_decimal, to_hex, trim,
};

#[test]
fn whitespace_is_that_of_unicode() {
    for u in 0..=0x10_ffffu32 {
        if let Some(c) = char::from_u32(u) {
            assert_eq!(is_whitespace(c), c.is_whitespace(), "{u:x}");
        }
    }
}

#[test]
fn trims_both_ends() {
    for s in ["", " ", " a b ", "\t\u{a0}x\u{3000}", "plain", "  "] {
        assert_eq!(trim(s), s.trim());
    }
}

#[test]
fn numbers_are_written_and_read() {
    for n in [0u64, 9, 10, 554, 65_535, u64::MAX] {
        assert_eq!(to_decimal(n), n.to_string());
    }
    assert_eq!(to_hex(0xbeef, 8), "0000beef");
    for s in ["", "+", "-1", "0", "00", "+80", "65535", "65536", "99999", "1 ", "8o", "٣"] {
        assert_eq!(parse_u16(s), s.parse::<u16>().ok(), "{s}");
    }
}

#[test]
fn searches_and_orders() {
    assert!(starts_with("abc", "ab") && !starts_with("a", "ab") && starts_with("", ""));
    assert!(ends_with("abc", "bc") && !ends_with("c", "bc"));
    assert!(contains("abcabd", "abd") && !contains("abcab", "abd") && contains("x", ""));
    assert!(same_text("é", "é") && !same_text("é", "e"));
    assert_eq!(to_ascii_lowercase("H265É"), "h265É");
    for (a, b) in [("", "a"), ("a", "b"), ("a", "ab"), ("Z", "a"), ("é", "\u{10000}"), ("z", "é")] {
        assert!(comes_before(a, b) && !comes_before(b, a));
        assert!(a < b);
    }
    assert!(!comes_before("a", "a"));
}

#[test]
fn quotients_are_rounded() {
    let halves: Vec<u128> = (0..8).map(|n| nearest(n, 2)).collect();
    assert_eq!(halves, [0, 0, 1, 2, 2, 2, 3, 4]);
    assert_eq!((nearest(14, 10), nearest(15, 10), nearest(16, 10), nearest(25, 10)), (1, 2, 2, 2));
    assert_eq!((nearest(u128::MAX, 2), nearest(u128::MAX, 1)), (1 << 127, u128::MAX));
    assert_eq!((ratio(5, 2), ratio(7, 3), ratio(u128::MAX, 1)), (3, 2, u128::MAX));
    assert_eq!((ratio_u32(5, 2), ratio_u32(u128::MAX, 3)), (3, u32::MAX));
}
