use mqtt_bench::number::{
    parse_unsigned, parse_unsigned_bytes, push_decimal, push_decimal_bytes, push_signed_decimal,
};
use mqtt_bench::text::{
    chars_of, find_byte, push_padded, push_repeated, same_bytes, same_text,
    text_has_prefix, trim_chars, trim_text, white_space,
};

fn decimal(n: u128) -> String {
    let mut s = String::new();
    push_decimal(&mut s, n);
    s
}

fn signed(n: i64) -> String {
    let mut s = String::new();
    push_signed_decimal(&mut s, n);
    s
}

fn padded(s: &str, width: usize) -> String {
    let mut out = String::new();
    push_padded(&mut out, s, width);
    out
}

fn parsed(s: &str, max: u128) -> Option<u128> {
    parse_unsigned(&chars_of(s), max)
}

fn trimmed(s: &str) -> String {
    let chars = chars_of(s);
    trim_chars(&chars).iter().collect()
}

#[test]
fn decimal_matches_the_standard_library() {
    for n in [0u128, 1, 9, 10, 11, 99, 100, 1883, 65_535, u64::MAX as u128, u128::MAX] {
        assert_eq!(decimal(n), n.to_string());
        let mut bytes = Vec::new();
        push_decimal_bytes(&mut bytes, n);
        assert_eq!(bytes, n.to_string().into_bytes());
    }
}

#[test]
fn decimal_is_appended() {
    let mut s = String::from("n=");
    push_decimal(&mut s, 42);
    assert_eq!(s, "n=42");
}

#[test]
fn signed_decimal_matches_the_standard_library() {
    for n in [0i64, 1, -1, 42, -1000, i64::MAX, i64::MIN] {
        assert_eq!(signed(n), n.to_string());
    }
}

#[test]
fn unsigned_numbers_are_read() {
    assert_eq!(parsed("0", 10), Some(0));
    assert_eq!(parsed("007", 10), Some(7));
    assert_eq!(parsed("+5", 10), Some(5));
    assert_eq!(parsed("10", 10), Some(10));
    assert_eq!(parsed("18446744073709551615", u64::MAX as u128), Some(u64::MAX as u128));
}

#[test]
fn other_text_is_no_unsigned_number() {
    for s in ["", "+", "-1", "++1", "1+", " 1", "1 ", "1_000", "0x10", "1.5", "٣", "11"] {
        assert_eq!(parsed(s, 10), None, "{s:?}");
    }
    assert_eq!(parsed("18446744073709551616", u64::MAX as u128), None);
    assert_eq!(parsed("340282366920938463463374607431768211456", u128::MAX), None);
}

#[test]
fn reading_agrees_with_the_standard_library() {
    for s in ["", "+", "+0", "255", "256", "0255", "-0", "12a", "a12", "９"] {
        assert_eq!(parsed(s, 255), s.parse::<u8>().ok().map(u128::from), "{s:?}");
        assert_eq!(
            parse_unsigned_bytes(s.as_bytes(), 255),
            s.parse::<u8>().ok().map(u128::from),
            "{s:?}"
        );
    }
}

#[test]
fn numbers_read_back_from_their_decimal_form() {
    for n in [0u128, 7, 100, 4000, u64::MAX as u128, u128::MAX] {
        assert_eq!(parsed(&decimal(n), u128::MAX), Some(n));
    }
}

#[test]
fn bytes_outside_ascii_are_no_digits() {
    assert_eq!(parse_unsigned_bytes(&[0x31, 0xff], u128::MAX), None);
    assert_eq!(parse_unsigned_bytes(&[0x31, 0x32], u128::MAX), Some(12));
    assert_eq!(parse_unsigned_bytes(&[0x2b, 0x32], u128::MAX), Some(2));
}

#[test]
fn white_space_is_that_of_the_standard_library() {
    for code in 0..0x11_0000u32 {
        if let Some(c) = char::from_u32(code) {
            assert_eq!(white_space(c), c.is_whitespace(), "{code:#x}");
        }
    }
}

#[test]
fn trimming_agrees_with_the_standard_library() {
    for s in ["", " ", " a", "a ", "\t a b \r\n", "\u{a0}x\u{3000}", "a"] {
        assert_eq!(trimmed(s), s.trim());
        assert_eq!(trim_text(s), s.trim());
    }
}

#[test]
fn columns_are_padded_on_the_left() {
    assert_eq!(padded("7", 5), "    7");
    assert_eq!(padded("12345", 5), "12345");
    assert_eq!(padded("123456", 5), "123456");
    assert_eq!(padded("avg(µs)", 10), "   avg(µs)");
}

#[test]
fn rulers_are_repeated() {
    let mut s = String::from(">");
    push_repeated(&mut s, "=", 4);
    assert_eq!(s, ">====");
}

#[test]
fn texts_are_compared() {
    assert!(same_text("request/go", "request/go"));
    assert!(!same_text("request/go", "request/g"));
    assert!(!same_text("request/go", "request/no"));
    assert!(same_bytes(b"done", b"done"));
    assert!(!same_bytes(b"done", b"donE"));
    assert!(text_has_prefix("counter/0/0/1", "counter/"));
    assert!(text_has_prefix("counter/", "counter/"));
    assert!(!text_has_prefix("counter", "counter/"));
    assert!(!text_has_prefix("Counter/0", "counter/"));
}

#[test]
fn the_first_byte_is_found() {
    assert_eq!(find_byte(b"12:34:", 0x3a), 2);
    assert_eq!(find_byte(b"1234", 0x3a), 4);
    assert_eq!(find_byte(b"", 0x3a), 0);
}

#[test]
fn different_numbers_are_written_differently() {
    for m in 0..120u128 {
        for n in 0..120u128 {
            assert_eq!(decimal(m) == decimal(n), m == n);
        }
    }
}
