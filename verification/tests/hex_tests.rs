use ser2mcp::hex::{decode, encode, encode_escaped, is_text};

#[test]
fn encode_basic() {
    assert_eq!(encode(b"AT\r\n"), "41 54 0D 0A");
    assert_eq!(encode(b""), "");
    assert_eq!(encode(&[0x00, 0xFF, 0x10]), "00 FF 10");
}

#[test]
fn decode_various_forms() {
    assert_eq!(decode("41 54 0D 0A").unwrap(), b"AT\r\n");
    assert_eq!(decode("41540d0a").unwrap(), b"AT\r\n");
    assert_eq!(decode("41,54").unwrap(), b"AT");
    assert_eq!(decode("41;54").unwrap(), b"AT");
    assert_eq!(decode("0x41 0x54").unwrap(), b"AT");
    assert_eq!(decode(" 41\t54\n0D ").unwrap(), b"AT\r");
    assert_eq!(decode("").unwrap(), b"");
    assert_eq!(decode("4a bC dE").unwrap(), b"J\xbc\xde");
}

#[test]
fn decode_invalid() {
    assert!(decode("41 5").is_err(), "奇数长度应报错");
    assert!(decode("zz").is_err(), "非法字符应报错");
    assert!(decode("0x4").is_err());
    assert!(decode("41 5G").is_err());
}

#[test]
fn roundtrip() {
    let data: Vec<u8> = (0..=255u8).collect();
    assert_eq!(decode(&encode(&data)).unwrap(), data);
}

#[test]
fn text_detection() {
    assert!(is_text(b"AT+OK\r\n"));
    assert!(is_text("中文测试".as_bytes()));
    assert!(!is_text(&[0x00, 0x01, 0x02]));
    assert!(!is_text(&[0xFF, 0xFE]));
}

#[test]
fn escaped_plain_text_unchanged() {
    assert_eq!(encode_escaped(b"AT+OK\r\n"), "AT+OK\r\n");
    assert_eq!(encode_escaped("中文测试".as_bytes()), "中文测试");
    assert_eq!(encode_escaped(b""), "");
    assert_eq!(encode_escaped(b"a\tb\r\nc"), "a\tb\r\nc");
}

#[test]
fn escaped_control_bytes() {
    assert_eq!(encode_escaped(b"\x1b[31mBoot\x1b[0m"), "\\x1B[31mBoot\\x1B[0m");
    assert_eq!(encode_escaped(b"a\x00b\x7f"), "a\\x00b\\x7F");
    let all: Vec<u8> = (0..=0x7Fu8).collect();
    let s = encode_escaped(&all);
    assert!(!s.contains('\u{1}'));
    assert!(!s.contains('\u{7F}'));
    assert!(s.contains("\\x00"));
    assert!(s.contains("\\x1B"));
}

#[test]
fn escaped_invalid_utf8() {
    assert_eq!(encode_escaped(&[0xFF, 0xFE]), "\\xFF\\xFE");
    assert_eq!(encode_escaped(&[0xE4, 0xB8]), "\\xE4\\xB8");
    assert_eq!(encode_escaped("中".as_bytes()), "中");
    assert_eq!(encode_escaped(&[0xE4, 0xB8, 0xAD, 0xFF]), "中\\xFF");
}

#[test]
fn escaped_backslash() {
    assert_eq!(encode_escaped(b"a\\b"), "a\\\\b");
    assert_eq!(encode_escaped(b"\\x1B"), "\\\\x1B");
}

#[test]
fn escaped_c1_controls() {
    assert_eq!(encode_escaped(&[0xC2, 0x85]), "\\xC2\\x85");
    assert_eq!(encode_escaped(&[0xC2, 0x85, 0xFF]), "\\xC2\\x85\\xFF");
    assert_eq!(encode_escaped(&[0xC2, 0x85, b'a']), "\\xC2\\x85a");
}

#[test]
fn escaped_composite() {
    let input = b"\x1b[1;34mbin\x1b[m  \x1b[1;36mlib32\x1b[m\r\n# ";
    assert_eq!(
        encode_escaped(input),
        "\\x1B[1;34mbin\\x1B[m  \\x1B[1;36mlib32\\x1B[m\r\n# "
    );
}

#[test]
fn decode_reports_the_first_bad_character() {
    assert_eq!(
        decode("41 5G zz").unwrap_err(),
        "非法 hex 字符: 'G'（仅允许 0-9 A-F a-f 及分隔符）"
    );
    assert_eq!(
        decode("4\u{1}").unwrap_err(),
        "非法 hex 字符: '\\u{1}'（仅允许 0-9 A-F a-f 及分隔符）"
    );
}

#[test]
fn decode_reports_an_odd_number_of_digits() {
    assert_eq!(
        decode("41 5").unwrap_err(),
        "hex 字符串长度必须为偶数（当前有效字符数 3）"
    );
    assert_eq!(
        decode("0x4").unwrap_err(),
        "hex 字符串长度必须为偶数（当前有效字符数 1）"
    );
}

#[test]
fn decode_takes_prefixes_and_separators_anywhere() {
    assert_eq!(decode("0X41,0x54;\r\n0d").unwrap(), b"AT\r");
    assert_eq!(decode("4 1").unwrap(), b"A");
    assert_eq!(decode("40x1").unwrap(), b"A");
}

#[test]
fn hex_ignores_case() {
    assert_eq!(decode("DE AD be ef").unwrap(), decode("de ad be ef").unwrap());
}

#[test]
fn escaped_rules_hold_before_an_invalid_byte() {
    assert_eq!(encode_escaped(b"a\\\t\r\n\xFF"), "a\\\\\t\r\n\\xFF");
    assert_eq!(encode_escaped(b"\xFFb\\\n"), "\\xFFb\\\\\n");
}

/// Reads an escaped text back, as its receiver would.
fn unescape(s: &str) -> Vec<u8> {
    let mut out = Vec::new();
    let mut rest = s.chars();
    while let Some(c) = rest.next() {
        if c != '\\' {
            let mut buf = [0u8; 4];
            out.extend_from_slice(c.encode_utf8(&mut buf).as_bytes());
        } else if let Some('x') = rest.next() {
            let hi = rest.next().unwrap().to_digit(16).unwrap();
            let lo = rest.next().unwrap().to_digit(16).unwrap();
            out.push((hi * 16 + lo) as u8);
        } else {
            out.push(b'\\');
        }
    }
    out
}

#[test]
fn escaped_text_can_be_read_back() {
    let all: Vec<u8> = (0..=255u8).collect();
    assert_eq!(unescape(&encode_escaped(&all)), all);
    let mixed = b"\\x41 \xE4\xB8\xAD\xE4\x00\xC2\x85\\";
    assert_eq!(unescape(&encode_escaped(mixed)), mixed);
}

#[test]
fn escaped_text_is_readable() {
    let all: Vec<u8> = (0..=255u8).rev().collect();
    assert!(is_text(encode_escaped(&all).as_bytes()));
}

#[test]
fn text_with_control_characters_is_no_text() {
    assert!(is_text(b""));
    assert!(is_text(b"tab\tand\r\nline ends"));
    assert!(!is_text(b"\x1b[0m"));
    assert!(!is_text(b"\x7f"));
    assert!(!is_text("\u{85}".as_bytes()));
    assert!(is_text("\u{a0}".as_bytes()));
}
