use coin_node::amount::{amount_cmp, amount_is_wf};
use coin_node::digits::u64_to_dec;
use coin_node::strutil::trim;

#[test]
fn test_amount_grammar() {
    assert!(amount_is_wf("0"));
    assert!(amount_is_wf("12"));
    assert!(amount_is_wf("12.0"));
    assert!(amount_is_wf("-3.25"));
    assert!(!amount_is_wf(""));
    assert!(!amount_is_wf("-"));
    assert!(!amount_is_wf("1."));
    assert!(!amount_is_wf(".5"));
    assert!(!amount_is_wf("1.2.3"));
    assert!(!amount_is_wf("1e3"));
    assert!(!amount_is_wf("12a"));
}

#[test]
fn test_amount_numeric_order() {
    assert_eq!(amount_cmp("3.0", "10.0"), -1);
    assert_eq!(amount_cmp("10.0", "7.0"), 1);
    assert_eq!(amount_cmp("1.5", "1.50"), 0);
    assert_eq!(amount_cmp("01.5", "1.5"), 0);
    assert_eq!(amount_cmp("0", "-0.0"), 0);
    assert_eq!(amount_cmp("-2", "-1"), -1);
    assert_eq!(amount_cmp("-0.5", "0.25"), -1);
    assert_eq!(amount_cmp("100", "99.999"), 1);
    assert_eq!(amount_cmp("0.1", "0.09"), 1);
}

#[test]
fn test_amount_malformed_ties() {
    assert_eq!(amount_cmp("abc", "1"), 0);
    assert_eq!(amount_cmp("2", "x"), 0);
}

#[test]
fn test_decimal_rendering() {
    assert_eq!(u64_to_dec(0), "0");
    assert_eq!(u64_to_dec(7), "7");
    assert_eq!(u64_to_dec(42), "42");
    assert_eq!(u64_to_dec(1000), "1000");
    assert_eq!(u64_to_dec(u64::MAX), "18446744073709551615");
}

#[test]
fn test_trim() {
    assert_eq!(trim("  abc \n"), "abc");
    assert_eq!(trim("abc"), "abc");
    assert_eq!(trim(" \t "), "");
    assert_eq!(trim(""), "");
    assert_eq!(trim("a b"), "a b");
}
