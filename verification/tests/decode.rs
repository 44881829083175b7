use include_cstr::bytes::{all_pounds, position, rposition, tail};
use include_cstr::error::ErrorKind;
use include_cstr::escape::{backslash_u, backslash_x, hex_to_u8, push_utf8};
use include_cstr::parse::{
    parse_cooked_content, parse_literal, parse_raw_content, starts_string_literal,
};
use include_cstr::token::Literal;
use include_cstr::whitespace::{skip_whitespace, whitespace_len};

fn literal(text: &[u8]) -> Literal {
    Literal { text: text.to_vec(), tag: 0 }
}

fn decode(text: &[u8]) -> Result<Vec<u8>, ErrorKind> {
    parse_literal(&literal(text))
}

fn hex_digit(v: u8) -> u8 {
    if v < 10 {
        b'0' + v
    } else {
        b'a' + v - 10
    }
}

fn write_cooked(bytes: &[u8]) -> Vec<u8> {
    let mut text = vec![b'"'];
    for &b in bytes {
        if b == b'\\' || b == b'"' {
            text.push(b'\\');
            text.push(b);
        } else if b < 0x20 || b >= 0x7f {
            text.push(b'\\');
            text.push(b'x');
            text.push(hex_digit(b / 16));
            text.push(hex_digit(b % 16));
        } else {
            text.push(b);
        }
    }
    text.push(b'"');
    text
}

fn write_raw(bytes: &[u8], pounds: usize) -> Vec<u8> {
    let mut text = vec![b'r'];
    text.extend(std::iter::repeat(b'#').take(pounds));
    text.push(b'"');
    text.extend_from_slice(bytes);
    text.push(b'"');
    text.extend(std::iter::repeat(b'#').take(pounds));
    text
}

#[test]
fn hex_digits_in_both_cases() {
    assert_eq!(hex_to_u8(b'0'), Some(0));
    assert_eq!(hex_to_u8(b'9'), Some(9));
    assert_eq!(hex_to_u8(b'a'), Some(10));
    assert_eq!(hex_to_u8(b'f'), Some(15));
    assert_eq!(hex_to_u8(b'A'), Some(10));
    assert_eq!(hex_to_u8(b'F'), Some(15));
}

#[test]
fn hex_digit_agrees_with_std_on_every_byte() {
    for b in 0..=255u8 {
        let expected = (b as char).to_digit(16).map(|d| d as u8);
        assert_eq!(hex_to_u8(b), expected, "byte {b:#x}");
    }
}

#[test]
fn no_hex_digit() {
    assert_eq!(hex_to_u8(b'g'), None);
    assert_eq!(hex_to_u8(b'G'), None);
    assert_eq!(hex_to_u8(b'/'), None);
    assert_eq!(hex_to_u8(b':'), None);
    assert_eq!(hex_to_u8(b'@'), None);
    assert_eq!(hex_to_u8(b'`'), None);
    assert_eq!(hex_to_u8(b'_'), None);
}

#[test]
fn whitespace_agrees_with_std_on_every_character() {
    let mut buffer = [0u8; 4];
    for v in 0..=0x10ffffu32 {
        if let Some(c) = char::from_u32(v) {
            let expected = if c.is_whitespace() { c.len_utf8() } else { 0 };
            let mut text = c.encode_utf8(&mut buffer).as_bytes().to_vec();
            assert_eq!(whitespace_len(&text), expected, "{v:#x}");
            text.push(b'x');
            assert_eq!(whitespace_len(&text), expected, "{v:#x} before text");
        }
    }
}

#[test]
fn whitespace_of_each_width() {
    assert_eq!(whitespace_len(b"\t"), 1);
    assert_eq!(whitespace_len(b" x"), 1);
    assert_eq!(whitespace_len(&[0xc2, 0x85]), 2);
    assert_eq!(whitespace_len(&[0xc2, 0xa0, b'x']), 2);
    assert_eq!(whitespace_len(&[0xe1, 0x9a, 0x80]), 3);
    assert_eq!(whitespace_len(&[0xe2, 0x80, 0x83, b'x']), 3);
    assert_eq!(whitespace_len(&[0xe2, 0x80, 0xa8]), 3);
    assert_eq!(whitespace_len(&[0xe2, 0x80, 0xaf]), 3);
    assert_eq!(whitespace_len(&[0xe2, 0x81, 0x9f]), 3);
    assert_eq!(whitespace_len(&[0xe3, 0x80, 0x80]), 3);
}

#[test]
fn no_whitespace_character() {
    assert_eq!(whitespace_len(b""), 0);
    assert_eq!(whitespace_len(b"x "), 0);
    assert_eq!(whitespace_len(&[0x1f]), 0);
    assert_eq!(whitespace_len("\u{e9}".as_bytes()), 0);
    assert_eq!(whitespace_len("\u{200b}".as_bytes()), 0);
    assert_eq!(whitespace_len("\u{feff}".as_bytes()), 0);
    assert_eq!(whitespace_len("\u{1F600}".as_bytes()), 0);
}

#[test]
fn bytes_that_are_no_character_are_no_whitespace() {
    for b in 0x80..=0xffu8 {
        assert_eq!(whitespace_len(&[b]), 0, "byte {b:#x}");
        assert_eq!(whitespace_len(&[b, b' ']), 0, "byte {b:#x} before a space");
    }
    assert_eq!(whitespace_len(&[0xc2]), 0);
    assert_eq!(whitespace_len(&[0xe2, 0x80]), 0);
    assert_eq!(whitespace_len(&[0xe2, 0x80, b' ']), 0);
    assert_eq!(whitespace_len(&[0xc0, 0xa0]), 0);
    assert_eq!(whitespace_len(&[0xe0, 0x80, 0xa0]), 0);
}

#[test]
fn pounds_only() {
    assert!(all_pounds(b""));
    assert!(all_pounds(b"#"));
    assert!(all_pounds(b"###"));
    assert!(!all_pounds(b"##\"#"));
    assert!(!all_pounds(b"a"));
}

#[test]
fn first_and_last_position() {
    assert_eq!(position(b"a\"b\"c", b'"'), Some(1));
    assert_eq!(rposition(b"a\"b\"c", b'"'), Some(3));
    assert_eq!(position(b"abc", b'"'), None);
    assert_eq!(rposition(b"abc", b'"'), None);
    assert_eq!(position(b"", b'"'), None);
    assert_eq!(rposition(b"\"", b'"'), Some(0));
}

#[test]
fn tail_from_an_index() {
    assert_eq!(tail(b"abc", 0), b"abc");
    assert_eq!(tail(b"abc", 1), b"bc");
    assert_eq!(tail(b"abc", 3), b"");
}

#[test]
fn leading_whitespace_is_skipped() {
    assert_eq!(skip_whitespace(b"  \t\r\n x y "), b"x y ");
    assert_eq!(skip_whitespace(b"x "), b"x ");
    assert_eq!(skip_whitespace(b" \x0b\x0c"), b"");
    assert_eq!(skip_whitespace(" \u{85}\u{a0}\u{1680}\u{2003}\u{3000}x ".as_bytes()), b"x ");
    assert_eq!(skip_whitespace(" \u{2028}\u{e9} ".as_bytes()), "\u{e9} ".as_bytes());
    assert_eq!(skip_whitespace(b" \x85\xa0"), b"\x85\xa0");
    assert_eq!(skip_whitespace(b""), b"");
}

#[test]
fn backslash_x_reads_two_digits() {
    assert_eq!(backslash_x(b"41rest"), Ok((0x41, &b"rest"[..])));
    assert_eq!(backslash_x(b"fF"), Ok((0xff, &b""[..])));
    assert_eq!(backslash_x(b"00"), Ok((0x00, &b""[..])));
    assert_eq!(backslash_x(b"7e\""), Ok((0x7e, &b"\""[..])));
}

#[test]
fn backslash_x_refuses_what_is_no_pair_of_digits() {
    assert_eq!(backslash_x(b""), Err(ErrorKind::InvalidHexEscape));
    assert_eq!(backslash_x(b"4"), Err(ErrorKind::InvalidHexEscape));
    assert_eq!(backslash_x(b"4g"), Err(ErrorKind::InvalidHexEscape));
    assert_eq!(backslash_x(b"g4"), Err(ErrorKind::InvalidHexEscape));
}

#[test]
fn backslash_u_reads_the_braces() {
    assert_eq!(backslash_u(b"{41}rest"), Ok(('A', &b"rest"[..])));
    assert_eq!(backslash_u(b"{1F600}"), Ok(('\u{1F600}', &b""[..])));
    assert_eq!(backslash_u(b"{1f600}x"), Ok(('\u{1F600}', &b"x"[..])));
    assert_eq!(backslash_u(b"{0}"), Ok(('\0', &b""[..])));
    assert_eq!(backslash_u(b"{10FFFF}}"), Ok(('\u{10FFFF}', &b"}"[..])));
    assert_eq!(backslash_u(b"{000041}"), Ok(('A', &b""[..])));
    assert_eq!(backslash_u(b"{D7FF}"), Ok(('\u{D7FF}', &b""[..])));
    assert_eq!(backslash_u(b"{E000}"), Ok(('\u{E000}', &b""[..])));
}

#[test]
fn backslash_u_refuses_malformed_escapes() {
    let refused = Err(ErrorKind::InvalidUnicodeEscape);
    assert_eq!(backslash_u(b""), refused);
    assert_eq!(backslash_u(b"41}"), refused);
    assert_eq!(backslash_u(b"{41"), refused);
    assert_eq!(backslash_u(b"{}"), refused);
    assert_eq!(backslash_u(b"{0000041}"), refused);
    assert_eq!(backslash_u(b"{4g}"), refused);
    assert_eq!(backslash_u(b"{1F_600}"), refused);
    assert_eq!(backslash_u(b"{ 41}"), refused);
}

#[test]
fn backslash_u_refuses_what_is_no_scalar_value() {
    let refused = Err(ErrorKind::InvalidUnicodeEscape);
    assert_eq!(backslash_u(b"{D800}"), refused);
    assert_eq!(backslash_u(b"{DFFF}"), refused);
    assert_eq!(backslash_u(b"{110000}"), refused);
    assert_eq!(backslash_u(b"{FFFFFF}"), refused);
}

#[test]
fn utf8_of_each_width() {
    let mut out = vec![0xaa];
    push_utf8(&mut out, 'A');
    assert_eq!(out, [0xaa, 0x41]);
    push_utf8(&mut out, '\u{e9}');
    assert_eq!(out, [0xaa, 0x41, 0xc3, 0xa9]);
    push_utf8(&mut out, '\u{20ac}');
    assert_eq!(out, [0xaa, 0x41, 0xc3, 0xa9, 0xe2, 0x82, 0xac]);
    push_utf8(&mut out, '\u{1F600}');
    assert_eq!(out, [0xaa, 0x41, 0xc3, 0xa9, 0xe2, 0x82, 0xac, 0xf0, 0x9f, 0x98, 0x80]);
}

#[test]
fn utf8_agrees_with_std_on_every_character() {
    let mut buffer = [0u8; 4];
    let mut out = Vec::new();
    for v in 0..=0x10ffffu32 {
        if let Some(c) = char::from_u32(v) {
            out.clear();
            push_utf8(&mut out, c);
            assert_eq!(out.as_slice(), c.encode_utf8(&mut buffer).as_bytes(), "{v:#x}");
        }
    }
}

#[test]
fn utf8_at_the_width_boundaries() {
    for (c, expected) in [
        ('\u{7f}', &[0x7f][..]),
        ('\u{80}', &[0xc2, 0x80][..]),
        ('\u{7ff}', &[0xdf, 0xbf][..]),
        ('\u{800}', &[0xe0, 0xa0, 0x80][..]),
        ('\u{ffff}', &[0xef, 0xbf, 0xbf][..]),
        ('\u{10000}', &[0xf0, 0x90, 0x80, 0x80][..]),
        ('\u{10ffff}', &[0xf4, 0x8f, 0xbf, 0xbf][..]),
    ] {
        let mut out = Vec::new();
        push_utf8(&mut out, c);
        assert_eq!(out, expected);
    }
}

#[test]
fn cooked_plain_text() {
    assert_eq!(decode(b"\"hello world!\""), Ok(b"hello world!".to_vec()));
    assert_eq!(decode(b"\"\""), Ok(Vec::new()));
    assert_eq!(decode("\"h\u{e9}llo\"".as_bytes()), Ok("h\u{e9}llo".as_bytes().to_vec()));
}

#[test]
fn cooked_simple_escapes() {
    assert_eq!(decode(br#""\n\r\t\\\0\'\"""#), Ok(b"\n\r\t\\\0'\"".to_vec()));
    assert_eq!(decode(br#""a\nb""#), Ok(b"a\nb".to_vec()));
}

#[test]
fn cooked_hex_escape() {
    assert_eq!(decode(br#""\x41\x7f\x00\xff""#), Ok(vec![0x41, 0x7f, 0x00, 0xff]));
    assert_eq!(decode(br#""\xde\xAD\xbE\xEF""#), Ok(vec![0xde, 0xad, 0xbe, 0xef]));
}

#[test]
fn unicode_escape_boundary() {
    assert_eq!(decode(br#""\u{1F600}""#), Ok(vec![0xf0, 0x9f, 0x98, 0x80]));
    assert_eq!(decode(br#""\u{41}""#), Ok(vec![0x41]));
}

#[test]
fn cooked_unicode_escapes_among_text() {
    assert_eq!(decode(br#""a\u{e9}b\u{20AC}c""#), Ok("a\u{e9}b\u{20ac}c".as_bytes().to_vec()));
}

#[test]
fn crlf_normalization() {
    assert_eq!(decode(b"\"a\r\nb\""), Ok(b"a\nb".to_vec()));
    assert_eq!(decode(b"\"\r\n\""), Ok(b"\n".to_vec()));
    assert_eq!(decode(b"\"a\r\n\r\nb\""), Ok(b"a\n\nb".to_vec()));
}

#[test]
fn escaped_carriage_return_is_kept() {
    assert_eq!(decode(b"\"a\\r\\nb\""), Ok(b"a\r\nb".to_vec()));
}

#[test]
fn line_continuation_removes_only_whitespace() {
    assert_eq!(decode(b"\"a\\\n    b\""), Ok(b"ab".to_vec()));
    assert_eq!(decode(b"\"a\\\nb\""), Ok(b"ab".to_vec()));
    assert_eq!(decode(b"\"a\\\r\n \t b c\""), Ok(b"ab c".to_vec()));
    assert_eq!(decode(b"\"a\\\n  \n\n  b\""), Ok(b"ab".to_vec()));
    assert_eq!(decode(b"\"a\\\n   \""), Ok(b"a".to_vec()));
    assert_eq!(decode(b"\"a\\\n  \\x20b\""), Ok(b"a b".to_vec()));
}

#[test]
fn line_continuation_removes_unicode_whitespace() {
    assert_eq!(decode(&[0x22, 0x61, 0x5c, 0x0a, 0xe2, 0x80, 0x83, 0x62, 0x22]), Ok(b"ab".to_vec()));
    assert_eq!(decode(&[0x22, 0x61, 0x5c, 0x0a, 0xc2, 0xa0, 0x62, 0x22]), Ok(b"ab".to_vec()));
    assert_eq!(decode("\"a\\\n \u{85}\u{3000}\t b\"".as_bytes()), Ok(b"ab".to_vec()));
}

#[test]
fn line_continuation_stops_at_what_is_no_whitespace() {
    assert_eq!(decode(&[0x22, 0x61, 0x5c, 0x0a, 0x20, 0xa0, 0x62, 0x22]), Ok(vec![0x61, 0xa0, 0x62]));
    assert_eq!(decode("\"a\\\n \u{e9} b\"".as_bytes()), Ok("a\u{e9} b".as_bytes().to_vec()));
    assert_eq!(decode("\"a\\\n\u{200b}b\"".as_bytes()), Ok("a\u{200b}b".as_bytes().to_vec()));
}

#[test]
fn cooked_content_ends_at_the_last_quote() {
    assert_eq!(parse_cooked_content(b"\"abc\"suffix"), Ok(b"abc".to_vec()));
    assert_eq!(parse_cooked_content(b"\"a\\\"b\""), Ok(b"a\"b".to_vec()));
}

#[test]
fn cooked_without_closing_quote() {
    assert_eq!(parse_cooked_content(b"\""), Err(ErrorKind::MissingQuote));
    assert_eq!(parse_cooked_content(b"\"abc"), Err(ErrorKind::MissingQuote));
    assert_eq!(parse_cooked_content(b""), Err(ErrorKind::MissingQuote));
    assert_eq!(parse_cooked_content(b"abc"), Err(ErrorKind::MissingQuote));
}

#[test]
fn bare_carriage_return() {
    assert_eq!(decode(b"\"a\rb\""), Err(ErrorKind::BareCarriageReturn));
    assert_eq!(decode(b"\"a\r\""), Err(ErrorKind::BareCarriageReturn));
}

#[test]
fn unknown_escape() {
    assert_eq!(decode(br#""\q""#), Err(ErrorKind::UnknownEscape));
    assert_eq!(decode(br#""\ ""#), Err(ErrorKind::UnknownEscape));
    assert_eq!(decode(br#""\X41""#), Err(ErrorKind::UnknownEscape));
    assert_eq!(parse_cooked_content(b"x\\\""), Err(ErrorKind::UnknownEscape));
}

#[test]
fn invalid_hex_escape() {
    assert_eq!(decode(br#""\x4""#), Err(ErrorKind::InvalidHexEscape));
    assert_eq!(decode(br#""\x""#), Err(ErrorKind::InvalidHexEscape));
    assert_eq!(decode(br#""\xg0""#), Err(ErrorKind::InvalidHexEscape));
}

#[test]
fn invalid_unicode_escape() {
    assert_eq!(decode(br#""\u41""#), Err(ErrorKind::InvalidUnicodeEscape));
    assert_eq!(decode(br#""\u{}""#), Err(ErrorKind::InvalidUnicodeEscape));
    assert_eq!(decode(br#""\u{D800}""#), Err(ErrorKind::InvalidUnicodeEscape));
    assert_eq!(decode(br#""\u{41""#), Err(ErrorKind::InvalidUnicodeEscape));
    assert_eq!(decode(br#""\u{1234567}""#), Err(ErrorKind::InvalidUnicodeEscape));
}

#[test]
fn first_error_in_the_text_wins() {
    assert_eq!(decode(br#""\q\x4""#), Err(ErrorKind::UnknownEscape));
    assert_eq!(decode(br#""ab\x4\q""#), Err(ErrorKind::InvalidHexEscape));
}

#[test]
fn raw_strings() {
    assert_eq!(decode(br##"r"abc""##), Ok(b"abc".to_vec()));
    assert_eq!(decode(br##"r"""##), Ok(Vec::new()));
    assert_eq!(decode(br###"r#"a"b"#"###), Ok(b"a\"b".to_vec()));
    assert_eq!(decode(br####"r##"a"#b"##"####), Ok(b"a\"#b".to_vec()));
    assert_eq!(decode(br##"r"a\nb\""##), Ok(b"a\\nb\\".to_vec()));
    assert_eq!(decode(b"r\"a\r\nb\""), Ok(b"a\r\nb".to_vec()));
}

#[test]
fn raw_content_behind_the_prefix() {
    assert_eq!(parse_raw_content(b"\"abc\""), Ok(b"abc".to_vec()));
    assert_eq!(parse_raw_content(b"#\"abc\"#"), Ok(b"abc".to_vec()));
    assert_eq!(parse_raw_content(b"#\"abc\"#suffix"), Ok(b"abc".to_vec()));
}

#[test]
fn raw_without_quotes() {
    assert_eq!(parse_raw_content(b""), Err(ErrorKind::MissingQuote));
    assert_eq!(parse_raw_content(b"##"), Err(ErrorKind::MissingQuote));
    assert_eq!(parse_raw_content(b"\""), Err(ErrorKind::MissingQuote));
    assert_eq!(parse_raw_content(b"#\"abc"), Err(ErrorKind::MissingQuote));
    assert_eq!(decode(b"r"), Err(ErrorKind::MissingQuote));
}

#[test]
fn raw_with_unbalanced_pounds() {
    assert_eq!(parse_raw_content(b"##\"abc\"#"), Err(ErrorKind::UnbalancedPounds));
    assert_eq!(parse_raw_content(b"#\"abc\""), Err(ErrorKind::UnbalancedPounds));
    assert_eq!(parse_raw_content(b"x\"abc\"#"), Err(ErrorKind::UnbalancedPounds));
    assert_eq!(parse_raw_content(b"#\"abc\"x"), Err(ErrorKind::UnbalancedPounds));
    assert_eq!(parse_raw_content(b"#x\"abc\"##"), Err(ErrorKind::UnbalancedPounds));
}

#[test]
fn start_of_a_string_literal() {
    assert!(starts_string_literal(b"\"abc\""));
    assert!(starts_string_literal(b"r#\"abc\"#"));
    assert!(starts_string_literal(b"r"));
    assert!(!starts_string_literal(b""));
    assert!(!starts_string_literal(b"b\"abc\""));
    assert!(!starts_string_literal(b"42"));
}

#[test]
fn no_string_literal() {
    assert_eq!(decode(b""), Err(ErrorKind::ExpectedStringLiteral));
    assert_eq!(decode(b"42"), Err(ErrorKind::ExpectedStringLiteral));
    assert_eq!(decode(b"'a'"), Err(ErrorKind::ExpectedStringLiteral));
    assert_eq!(decode(b"b\"abc\""), Err(ErrorKind::ExpectedStringLiteral));
    assert_eq!(decode(b"br\"abc\""), Err(ErrorKind::ExpectedStringLiteral));
    assert_eq!(decode(b"c\"abc\""), Err(ErrorKind::ExpectedStringLiteral));
    assert_eq!(decode(b"1.5"), Err(ErrorKind::ExpectedStringLiteral));
}

#[test]
fn round_trip_of_every_byte() {
    for b in 0..=255u8 {
        assert_eq!(decode(&write_cooked(&[b])), Ok(vec![b]), "byte {b:#x}");
    }
    let all: Vec<u8> = (0..=255u8).collect();
    assert_eq!(decode(&write_cooked(&all)), Ok(all));
}

#[test]
fn round_trip_of_some_texts() {
    for bytes in [
        &b""[..],
        &b"hello"[..],
        &b"a\"b\\c"[..],
        &b"\r\n\t"[..],
        &b"\\x41"[..],
        &[0xde, 0xad, 0xbe, 0xef][..],
        &b"\\\n  x"[..],
        "h\u{e9}llo \u{1F600}".as_bytes(),
    ] {
        assert_eq!(decode(&write_cooked(bytes)), Ok(bytes.to_vec()));
    }
}

#[test]
fn raw_string_identity() {
    for bytes in [
        &b""[..],
        &b"hello"[..],
        &b"a\\nb"[..],
        &b"#"[..],
        &b"##a##"[..],
        &b"\r\n"[..],
        &[0xde, 0xad, 0xbe, 0xef][..],
    ] {
        for pounds in 0..4 {
            assert_eq!(decode(&write_raw(bytes, pounds)), Ok(bytes.to_vec()));
        }
    }
}
