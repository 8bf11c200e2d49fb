use nebula::bytes::{find_bytes, push_be16, push_be32, push_bytes, push_le32, read_be16, read_le32, slice_of};
use nebula::text::{
    cat2, cat3, contains, decimal_str, ends_with, hex_lower, join, lines, parse_hex, parse_hex_byte,
    parse_u16, parse_u32, parse_u64, replace_char, same, signed_str, split_char, starts_with,
    strip_all, strip_prefix, strip_suffix, tail_of_bytes, to_ascii_lowercase, trim, trim_end, words,
};

#[test]
fn numbers_are_written_and_read() {
    assert_eq!(decimal_str(0), "0");
    assert_eq!(decimal_str(u64::MAX), "18446744073709551615");
    assert_eq!(signed_str(-42), "-42");
    assert_eq!(signed_str(i32::MIN), "-2147483648");
    assert_eq!(parse_u64("18446744073709551615"), Some(u64::MAX));
    assert_eq!(parse_u64("18446744073709551616"), None);
    assert_eq!(parse_u64("+5"), "+5".parse::<u64>().ok());
    assert_eq!(parse_u64(""), None);
    assert_eq!(parse_u64("-1"), None);
    assert_eq!(parse_u32("4294967296"), None);
    assert_eq!(parse_u16("65535"), Some(65535));
    assert_eq!(parse_hex("1f", 255), Some(31));
    assert_eq!(parse_hex("100", 255), None);
    assert_eq!(parse_hex_byte("fF"), Some(255));
    assert_eq!(hex_lower(&[0, 171]), "00ab");
}

#[test]
fn text_is_cut_and_joined() {
    assert_eq!(cat2("a", "b"), "ab");
    assert_eq!(cat3("a", "b", "c"), "abc");
    assert_eq!(split_char("a,,b", ','), vec!["a", "", "b"]);
    assert_eq!(lines("a\r\nb\n"), "a\r\nb\n".lines().collect::<Vec<_>>());
    assert_eq!(lines("\n"), vec![""]);
    assert_eq!(words(" a\tb \u{3000}c"), " a\tb \u{3000}c".split_whitespace().collect::<Vec<_>>());
    assert_eq!(trim(" \na b\t"), "a b");
    assert_eq!(trim_end("a \n"), "a");
    assert_eq!(join(&vec!["a".into(), "b".into()], ", "), "a, b");
    assert_eq!(replace_char("a.b.c", '.', "--"), "a--b--c");
    assert_eq!(strip_prefix("abc", "ab").as_deref(), Some("c"));
    assert_eq!(strip_prefix("abc", "b"), None);
    assert_eq!(strip_suffix("abc", "bc").as_deref(), Some("a"));
    assert_eq!(strip_all("xMM", "M"), "x");
    assert_eq!(to_ascii_lowercase("ÄBC"), "Äbc");
    assert_eq!(tail_of_bytes("hello", 3), "llo");
}

#[test]
fn text_is_searched() {
    assert!(same("ab", "ab") && !same("ab", "abc"));
    assert!(starts_with("abc", "ab") && !starts_with("a", "ab"));
    assert!(ends_with("abc", "bc") && !ends_with("c", "bc"));
    assert!(contains("hello", "ell") && !contains("hello", "elo"));
    assert!(contains("x", ""));
}

#[test]
fn bytes_are_packed() {
    let mut out = Vec::new();
    push_be16(&mut out, 0x0102);
    push_be32(&mut out, 0x0304_0506);
    push_le32(&mut out, 0x0a09_0807);
    push_bytes(&mut out, &[0xff]);
    assert_eq!(out, vec![1, 2, 3, 4, 5, 6, 7, 8, 9, 10, 0xff]);
    assert_eq!(read_be16(1, 2), 0x0102);
    assert_eq!(read_le32(&out, 6), 0x0a09_0807);
    assert_eq!(slice_of(&out, 1, 3), vec![2, 3]);
    assert_eq!(find_bytes(&out, &vec![3, 4], 0), Some(2));
    assert_eq!(find_bytes(&out, &vec![3, 4], 3), None);
}
