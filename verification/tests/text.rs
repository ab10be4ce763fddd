use termusic_core::text::{
    chars_of, char_is_space, find_char, parse_digits, parse_i32, parse_i64, parse_unsigned,
    push_chars, push_decimal, push_padded2, push_signed_decimal, string_of, trim,
};

fn chars(s: &str) -> Vec<char> {
    s.chars().collect()
}

#[test]
fn strings_and_characters() {
    assert_eq!(chars_of("a拼b"), vec!['a', '拼', 'b']);
    assert_eq!(chars_of(""), Vec::<char>::new());
    assert_eq!(string_of(&['a', '拼', 'b']), "a拼b");
    let mut out = String::from("x");
    push_chars(&mut out, &['y', 'z']);
    assert_eq!(out, "xyz");
}

#[test]
fn digits_are_read() {
    assert_eq!(parse_digits(&chars("0"), 10), Some(0));
    assert_eq!(parse_digits(&chars("007"), 10), Some(7));
    assert_eq!(parse_digits(&chars("10"), 10), Some(10));
    assert_eq!(parse_digits(&chars("11"), 10), None);
    assert_eq!(parse_digits(&chars(""), 10), None);
    assert_eq!(parse_digits(&chars("1a"), 10), None);
    assert_eq!(parse_digits(&chars("18446744073709551615"), u64::MAX), Some(u64::MAX));
    assert_eq!(parse_digits(&chars("18446744073709551616"), u64::MAX), None);
    assert_eq!(parse_unsigned(&chars("+5"), 9), Some(5));
    assert_eq!(parse_unsigned(&chars("+"), 9), None);
    assert_eq!(parse_unsigned(&chars("-5"), 9), None);
    assert_eq!(parse_unsigned(&chars("++5"), 9), None);
}

#[test]
fn signed_numbers_are_read() {
    assert_eq!(parse_i64(&chars("-9223372036854775808")), Some(i64::MIN));
    assert_eq!(parse_i64(&chars("-9223372036854775809")), None);
    assert_eq!(parse_i64(&chars("9223372036854775807")), Some(i64::MAX));
    assert_eq!(parse_i64(&chars("9223372036854775808")), None);
    assert_eq!(parse_i64(&chars("+10")), Some(10));
    assert_eq!(parse_i64(&chars("-0")), Some(0));
    assert_eq!(parse_i64(&chars("-")), None);
    assert_eq!(parse_i64(&chars("")), None);
    assert_eq!(parse_i64(&chars("+-1")), None);
    assert_eq!(parse_i32(&chars("-2147483648")), Some(i32::MIN));
    assert_eq!(parse_i32(&chars("2147483647")), Some(i32::MAX));
    assert_eq!(parse_i32(&chars("2147483648")), None);
    assert_eq!(parse_i32(&chars("-2147483649")), None);
}

#[test]
fn numbers_are_written() {
    let mut out = String::new();
    push_decimal(&mut out, 0);
    out.push(' ');
    push_decimal(&mut out, 1234567890);
    out.push(' ');
    push_decimal(&mut out, u64::MAX);
    out.push(' ');
    push_signed_decimal(&mut out, i64::MIN);
    out.push(' ');
    push_signed_decimal(&mut out, -7);
    out.push(' ');
    push_signed_decimal(&mut out, 7);
    out.push(' ');
    push_padded2(&mut out, 7);
    out.push(' ');
    push_padded2(&mut out, 42);
    out.push(' ');
    push_padded2(&mut out, 123);
    assert_eq!(
        out,
        "0 1234567890 18446744073709551615 -9223372036854775808 -7 7 07 42 123"
    );
}

#[test]
fn white_space_is_what_std_takes_for_it() {
    for n in 0..=0x10ffffu32 {
        if let Some(c) = char::from_u32(n) {
            assert_eq!(char_is_space(c), c.is_whitespace(), "{n:x}");
        }
    }
}

#[test]
fn trimming() {
    assert_eq!(trim(&chars("  a b \t\r\n")), &chars("a b")[..]);
    assert_eq!(trim(&chars("\u{3000}x\u{a0}")), &chars("x")[..]);
    assert_eq!(trim(&chars("   ")), &chars("")[..]);
    assert_eq!(trim(&chars("")), &chars("")[..]);
    assert_eq!(trim(&chars("ab")), &chars("ab")[..]);
}

#[test]
fn finding_characters() {
    let s = chars("a:b:c");
    assert_eq!(find_char(&s, 0, ':'), Some(1));
    assert_eq!(find_char(&s, 1, ':'), Some(1));
    assert_eq!(find_char(&s, 2, ':'), Some(3));
    assert_eq!(find_char(&s, 4, ':'), None);
    assert_eq!(find_char(&s, 5, ':'), None);
    assert_eq!(find_char(&s, 0, 'x'), None);
}
