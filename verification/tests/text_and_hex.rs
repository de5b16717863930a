use seneca::hex::{hex32, hex64, hex_encode, unhex};
use seneca::text::{chars_of, decimal, is_blank, is_whitespace, split_lines, trim};

#[test]
fn hex_encode_is_lower_case_two_digits_per_byte() {
    assert_eq!(hex_encode(&[0x00, 0xab, 0x10, 0xff]), "00ab10ff");
    assert_eq!(hex_encode(&[]), "");
}

#[test]
fn unhex_decodes_pairs() {
    assert_eq!(unhex("00AB10ff"), Some(vec![0x00, 0xab, 0x10, 0xff]));
    assert_eq!(unhex(""), Some(vec![]));
    assert_eq!(unhex("abc"), None);
    assert_eq!(unhex("zz"), None);
    assert_eq!(unhex("0g"), None);
    // only pairs of hexadecimal digits decode: no sign
    assert_eq!(unhex("+f"), None);
    assert_eq!(unhex("+a0f"), None);
    assert_eq!(unhex("-a"), None);
    assert_eq!(unhex("é"), None);
}

#[test]
fn hex_round_trip() {
    let b: Vec<u8> = (0..=255).collect();
    assert_eq!(unhex(&hex_encode(&b)), Some(b));
    let h = [0x5cu8; 32];
    assert_eq!(hex32(&hex_encode(&h)), Some(h));
    assert_eq!(hex32(&hex_encode(&[1u8; 31])), None);
    let s = [0x11u8; 64];
    assert_eq!(hex64(&hex_encode(&s)), Some(s));
    assert_eq!(hex64(&hex_encode(&h)), None);
}

#[test]
fn non_ascii_texts_do_not_decode() {
    assert_eq!(unhex("aéb"), None);
    assert_eq!(unhex("aé"), None);
    assert_eq!(unhex("éa0"), None);
    assert_eq!(unhex("00aé0"), None);
    assert_eq!(hex32(&format!("a{}b", "é".repeat(31))), None);
    assert_eq!(hex64("aéb"), None);
}

#[test]
fn whitespace_and_trim() {
    assert!(is_whitespace(' ') && is_whitespace('\u{3000}') && is_whitespace('\u{85}'));
    assert!(!is_whitespace('a') && !is_whitespace('\u{200b}'));
    for c in ['\t', '\n', '\u{b}', '\u{c}', '\r', ' ', '\u{a0}', '\u{2000}', '\u{200a}', '\u{2028}', '\u{202f}'] {
        assert_eq!(is_whitespace(c), c.is_whitespace());
    }
    assert_eq!(trim("  a b \n"), "a b");
    assert_eq!(trim("\u{3000}x\u{85}"), "x");
    assert_eq!(trim("   "), "");
    assert!(is_blank(" \t\r"));
    assert!(is_blank(""));
    assert!(!is_blank(" x "));
}

#[test]
fn lines_like_str_lines() {
    for s in ["a\r\nb\n\nc", "a\n", "x\r", "", "\n", "\r\n\r\n", "one", "a\rb\n"] {
        let expected: Vec<String> = s.lines().map(str::to_string).collect();
        assert_eq!(split_lines(s), expected, "{:?}", s);
    }
    assert_eq!(split_lines("a\r\nb\n\nc"), vec!["a", "b", "", "c"]);
}

#[test]
fn decimal_digits() {
    assert_eq!(decimal(0), "0");
    assert_eq!(decimal(7), "7");
    assert_eq!(decimal(1234567890123), "1234567890123");
    assert_eq!(decimal(u128::MAX), u128::MAX.to_string());
}

#[test]
fn chars_in_order() {
    assert_eq!(chars_of("aé€"), vec!['a', 'é', '€']);
}

#[test]
fn clock_and_error_text() {
    let t = seneca::text::now();
    assert!(!t.is_empty() && t.chars().all(|c| c.is_ascii_digit()));
    assert!(t.parse::<u128>().unwrap() > 1_600_000_000_000);
    assert_eq!(seneca::text::e(std::fmt::Error), std::fmt::Error.to_string());
    assert_eq!(seneca::text::e("plain"), "plain");
}

#[test]
fn a_clock_before_the_epoch_reads_zero() {
    assert_eq!(seneca::text::clock_text(None), "0");
    assert_eq!(seneca::text::clock_text(Some(1_700_000_000_123)), "1700000000123");
}
