use astrocalc::text::{
    contains_str, push_decimal, push_pad2, push_signed_decimal, remove_spaces, starts_with_str,
    str_eq, trim_str,
};

#[test]
fn decimal_digits() {
    let mut s = String::from("n=");
    push_decimal(&mut s, 0);
    push_decimal(&mut s, 7);
    push_decimal(&mut s, 1234567890);
    assert_eq!(s, "n=071234567890");
    let mut m = String::new();
    push_decimal(&mut m, u64::MAX);
    assert_eq!(m, u64::MAX.to_string());
}

#[test]
fn signed_decimal_digits() {
    let mut s = String::new();
    push_signed_decimal(&mut s, -42);
    assert_eq!(s, "-42");
    let mut t = String::new();
    push_signed_decimal(&mut t, i64::MIN);
    assert_eq!(t, i64::MIN.to_string());
    let mut z = String::new();
    push_signed_decimal(&mut z, 0);
    assert_eq!(z, "0");
}

#[test]
fn two_digit_padding() {
    let mut s = String::new();
    push_pad2(&mut s, 5);
    push_pad2(&mut s, 10);
    push_pad2(&mut s, 123);
    assert_eq!(s, "0510123");
}

#[test]
fn string_helpers() {
    assert!(str_eq("abc", "abc"));
    assert!(!str_eq("abc", "abd"));
    assert!(!str_eq("ab", "abc"));
    assert_eq!(remove_spaces(" N G C 7 "), "NGC7");
    assert_eq!(remove_spaces("a\tb"), "a\tb");
    assert!(starts_with_str("NGC7000", "NGC"));
    assert!(!starts_with_str("NG", "NGC"));
    assert!(starts_with_str("x", ""));
    assert!(contains_str("andromeda galaxy", "da ga"));
    assert!(!contains_str("andromeda", "galaxy"));
    assert!(contains_str("", ""));
}

#[test]
fn trim_removes_unicode_white_space_at_both_ends() {
    assert_eq!(trim_str("  M 31 \t"), "M 31");
    assert_eq!(trim_str("\u{3000}\u{85}a b\u{2029}\u{a0}"), "a b");
    assert_eq!(trim_str("\u{200b}x\u{200b}"), "\u{200b}x\u{200b}");
    assert_eq!(trim_str(" \n\r "), "");
    assert_eq!(trim_str(""), "");
    let samples = [
        "\u{9}\u{a}\u{b}\u{c}\u{d}\u{20}x\u{1680}\u{2000}\u{2005}\u{200a}\u{2028}\u{202f}\u{205f}",
        "\u{1c}y\u{1f}",
        "\u{feff}z",
    ];
    for t in samples {
        assert_eq!(trim_str(t), t.trim());
    }
}
