use rust_av_kit::bytes::{
    low_u16, push_all, push_u16_le, push_u32_le, push_u64_le, read_u16_le, read_u32_le,
    read_u64_le, starts_with_at,
};
use rust_av_kit::text::{
    find_byte, find_token_end, parse_i32, parse_u32, push_decimal, push_decimal_i32,
    skip_white_space, str_eq, white_space_at,
};

#[test]
fn test_little_endian_writes() {
    let mut out = vec![0xAA];
    push_u16_le(&mut out, 0x1234);
    push_u32_le(&mut out, 0x89ABCDEF);
    push_u64_le(&mut out, 0x0102030405060708);
    push_all(&mut out, &[1, 2]);
    assert_eq!(
        out,
        vec![0xAA, 0x34, 0x12, 0xEF, 0xCD, 0xAB, 0x89, 8, 7, 6, 5, 4, 3, 2, 1, 1, 2]
    );
}

#[test]
fn test_little_endian_reads() {
    let data = [0xFF, 0x34, 0x12, 0xEF, 0xCD, 0xAB, 0x89, 8, 7, 6, 5, 4, 3, 2, 1];
    assert_eq!(read_u16_le(&data, 1), 0x1234);
    assert_eq!(read_u32_le(&data, 3), 0x89ABCDEF);
    assert_eq!(read_u64_le(&data, 7), 0x0102030405060708);
    assert_eq!(read_u64_le(&[0xFF; 8], 0), u64::MAX);
}

#[test]
fn test_low_16_bits() {
    assert_eq!(low_u16(0), 0);
    assert_eq!(low_u16(320), 320);
    assert_eq!(low_u16(65536 + 7), 7);
    assert_eq!(low_u16(-1), 0xFFFF);
    assert_eq!(low_u16(-2), 0xFFFE);
    assert_eq!(low_u16(i32::MIN), 0);
    assert_eq!(low_u16(i32::MAX), 0xFFFF);
}

#[test]
fn test_starts_with_at() {
    let data = b"xxDKIFyy";
    assert!(starts_with_at(data, 2, b"DKIF"));
    assert!(!starts_with_at(data, 1, b"DKIF"));
    assert!(!starts_with_at(data, 6, b"yyy"));
    assert!(starts_with_at(data, 8, b""));
    assert!(!starts_with_at(data, 9, b""));
}

#[test]
fn test_parse_i32() {
    assert_eq!(parse_i32(b"0"), Some(0));
    assert_eq!(parse_i32(b"640"), Some(640));
    assert_eq!(parse_i32(b"+640"), Some(640));
    assert_eq!(parse_i32(b"-640"), Some(-640));
    assert_eq!(parse_i32(b"-0"), Some(0));
    assert_eq!(parse_i32(b"007"), Some(7));
    assert_eq!(parse_i32(b"2147483647"), Some(i32::MAX));
    assert_eq!(parse_i32(b"-2147483648"), Some(i32::MIN));
    assert_eq!(parse_i32(b"2147483648"), None);
    assert_eq!(parse_i32(b"-2147483649"), None);
    assert_eq!(parse_i32(b"99999999999999999999999"), None);
    assert_eq!(parse_i32(b""), None);
    assert_eq!(parse_i32(b"+"), None);
    assert_eq!(parse_i32(b"-"), None);
    assert_eq!(parse_i32(b"12a"), None);
    assert_eq!(parse_i32(b" 12"), None);
    assert_eq!(parse_i32(b"1.5"), None);
    assert_eq!(parse_i32(b"--1"), None);
}

#[test]
fn test_parse_i32_agrees_with_the_standard_library() {
    for text in ["", "+", "-", "0", "-0", "+0", "12", "-12", "+12", "1x", "x1", "2147483647",
        "2147483648", "-2147483648", "-2147483649", "000000000000012", "1 2", "١٢"] {
        assert_eq!(parse_i32(text.as_bytes()), text.parse::<i32>().ok(), "{:?}", text);
        assert_eq!(parse_u32(text.as_bytes()), text.parse::<u32>().ok(), "{:?}", text);
    }
}

#[test]
fn test_parse_u32() {
    assert_eq!(parse_u32(b"30000"), Some(30000));
    assert_eq!(parse_u32(b"+1001"), Some(1001));
    assert_eq!(parse_u32(b"4294967295"), Some(u32::MAX));
    assert_eq!(parse_u32(b"4294967296"), None);
    assert_eq!(parse_u32(b"-1"), None);
    assert_eq!(parse_u32(b""), None);
    assert_eq!(parse_u32(b"29.97"), None);
}

#[test]
fn test_decimal() {
    let mut out = Vec::new();
    push_decimal(&mut out, 0);
    out.push(b' ');
    push_decimal(&mut out, 9);
    out.push(b' ');
    push_decimal(&mut out, 10);
    out.push(b' ');
    push_decimal(&mut out, u64::MAX);
    out.push(b' ');
    push_decimal_i32(&mut out, -5);
    out.push(b' ');
    push_decimal_i32(&mut out, i32::MIN);
    out.push(b' ');
    push_decimal_i32(&mut out, i32::MAX);
    assert_eq!(
        String::from_utf8(out).unwrap(),
        "0 9 10 18446744073709551615 -5 -2147483648 2147483647"
    );
}

#[test]
fn test_decimal_parses_back() {
    for value in [0, 1, -1, 9, 10, 12345, -12345, i32::MAX, i32::MIN] {
        let mut out = Vec::new();
        push_decimal_i32(&mut out, value);
        assert_eq!(parse_i32(&out), Some(value));
    }
}

#[test]
fn test_white_space() {
    assert_eq!(white_space_at(b" x", 0), 1);
    assert_eq!(white_space_at(b" x", 1), 0);
    assert_eq!(white_space_at(b"\t", 0), 1);
    assert_eq!(white_space_at(b"\x0B", 0), 1);
    assert_eq!(white_space_at(b"\x0C", 0), 1);
    assert_eq!(white_space_at(b"\r", 0), 1);
    assert_eq!(white_space_at(b"\x1F", 0), 0);
    assert_eq!(white_space_at("\u{85}".as_bytes(), 0), 2);
    assert_eq!(white_space_at("\u{a0}".as_bytes(), 0), 2);
    assert_eq!(white_space_at("\u{1680}".as_bytes(), 0), 3);
    assert_eq!(white_space_at("\u{2000}".as_bytes(), 0), 3);
    assert_eq!(white_space_at("\u{200a}".as_bytes(), 0), 3);
    assert_eq!(white_space_at("\u{200b}".as_bytes(), 0), 0);
    assert_eq!(white_space_at("\u{2028}".as_bytes(), 0), 3);
    assert_eq!(white_space_at("\u{2029}".as_bytes(), 0), 3);
    assert_eq!(white_space_at("\u{202f}".as_bytes(), 0), 3);
    assert_eq!(white_space_at("\u{205f}".as_bytes(), 0), 3);
    assert_eq!(white_space_at("\u{3000}".as_bytes(), 0), 3);
    assert_eq!(white_space_at("\u{e9}".as_bytes(), 0), 0);
    assert_eq!(white_space_at(b"x", 5), 0);
    assert_eq!(white_space_at(&[0xC2], 0), 0);
    assert_eq!(white_space_at(&[0xE2, 0x80], 0), 0);
}

#[test]
fn test_white_space_agrees_with_the_standard_library() {
    for code in 0u32..0x3100 {
        if let Some(c) = char::from_u32(code) {
            let text = c.to_string();
            let len = white_space_at(text.as_bytes(), 0);
            if c.is_whitespace() {
                assert_eq!(len, text.len(), "{:?}", c);
            } else {
                assert_eq!(len, 0, "{:?}", c);
            }
        }
    }
}

#[test]
fn test_tokens() {
    let line = b"  ab \t cd";
    let a = skip_white_space(line, 0);
    assert_eq!(a, 2);
    let b = find_token_end(line, a);
    assert_eq!(b, 4);
    let c = skip_white_space(line, b);
    assert_eq!(c, 7);
    let d = find_token_end(line, c);
    assert_eq!(d, 9);
    assert_eq!(skip_white_space(line, d), 9);
    assert_eq!(find_byte(line, 0, b'c'), 7);
    assert_eq!(find_byte(line, 8, b'c'), 9);
}

#[test]
fn test_str_eq() {
    assert!(str_eq("", ""));
    assert!(str_eq("vp9", "vp9"));
    assert!(!str_eq("vp9", "vp8"));
    assert!(!str_eq("vp9", "vp90"));
    assert!(str_eq("é", "é"));
}
