//! Exact expected code-unit sequences, error classification, and the shape of
//! the null-terminated form.

use utf16_lit::char_escape::{
    decode_escapes, perform_the_escaping, CharEscape, CharEscapeIterator, EscapeError,
};
use utf16_lit::utf16::encode_utf16;
use utf16_lit::{length_as_utf16, next_code_point, str_to_chars, to_utf16, to_utf16_null_terminated};

#[test]
fn exact_units_for_escape_forms() {
    assert_eq!(to_utf16("example").unwrap(), vec![101, 120, 97, 109, 112, 108, 101]);
    assert_eq!(
        to_utf16_null_terminated("example").unwrap(),
        vec![101, 120, 97, 109, 112, 108, 101, 0]
    );
    assert_eq!(to_utf16("\\t").unwrap(), vec![9]);
    assert_eq!(to_utf16("\\n").unwrap(), vec![10]);
    assert_eq!(to_utf16("\\r").unwrap(), vec![13]);
    assert_eq!(to_utf16("\\\\").unwrap(), vec![92]);
    assert_eq!(to_utf16("\\0").unwrap(), vec![0]);
    assert_eq!(to_utf16("\\'").unwrap(), vec![39]);
    assert_eq!(to_utf16("\\\"").unwrap(), vec![34]);
    assert_eq!(to_utf16("\\x52").unwrap(), vec![82]);
    assert_eq!(to_utf16("\\u{00B6}").unwrap(), vec![182]);
}

#[test]
fn surrogate_pair_above_bmp() {
    assert_eq!(to_utf16("\\u{1F600}").unwrap(), vec![0xD83D, 0xDE00]);
    assert_eq!(to_utf16("😀").unwrap(), vec![0xD83D, 0xDE00]);
    let pair = encode_utf16(&vec!['\u{1F600}'], false);
    assert_eq!(pair, vec![0xD83D, 0xDE00]);
    let high = pair[0] as u32;
    let low = pair[1] as u32;
    assert!((0xD800..=0xDBFF).contains(&high));
    assert!((0xDC00..=0xDFFF).contains(&low));
    assert_eq!(0x10000 + (high - 0xD800) * 0x400 + (low - 0xDC00), 0x1F600);
}

#[test]
fn plain_text_matches_std_encoding() {
    for s in ["", "example", "héllo wörld", "mixed 語 and 😀 text", "ΑΒΓαβγ"] {
        let normal: Vec<u16> = s.encode_utf16().collect();
        assert_eq!(to_utf16(s).unwrap(), normal);
        let with_null: Vec<u16> = s.encode_utf16().chain(Some(0)).collect();
        assert_eq!(to_utf16_null_terminated(s).unwrap(), with_null);
    }
}

#[test]
fn repeated_calls_agree() {
    let first = to_utf16("a\\tb\\u{1F600}");
    let second = to_utf16("a\\tb\\u{1F600}");
    assert_eq!(first, second);
    let first = to_utf16_null_terminated("a\\tb\\u{1F600}");
    let second = to_utf16_null_terminated("a\\tb\\u{1F600}");
    assert_eq!(first, second);
}

#[test]
fn null_terminated_is_one_longer_and_ends_in_zero() {
    for s in ["", "example", "\\u{1F600}", "a\\0b"] {
        let plain = to_utf16(s).unwrap();
        let terminated = to_utf16_null_terminated(s).unwrap();
        assert_eq!(terminated.len(), plain.len() + 1);
        assert_eq!(*terminated.last().unwrap(), 0);
        assert_eq!(&terminated[..plain.len()], &plain[..]);
    }
}

#[test]
fn malformed_hex_escapes_are_rejected() {
    assert_eq!(to_utf16("\\x5"), Err(EscapeError::MalformedHexEscape));
    assert_eq!(to_utf16("\\xZZ"), Err(EscapeError::MalformedHexEscape));
    assert_eq!(to_utf16("\\x"), Err(EscapeError::MalformedHexEscape));
    assert_eq!(to_utf16("\\x5Z"), Err(EscapeError::MalformedHexEscape));
    assert_eq!(to_utf16("\\x80"), Err(EscapeError::MalformedHexEscape));
    assert_eq!(to_utf16("\\xFF"), Err(EscapeError::MalformedHexEscape));
}

#[test]
fn malformed_unicode_escapes_are_rejected() {
    assert_eq!(to_utf16("\\u{}"), Err(EscapeError::MalformedUnicodeEscape));
    assert_eq!(to_utf16("\\u{110000}"), Err(EscapeError::MalformedUnicodeEscape));
    assert_eq!(to_utf16("\\u{D800}"), Err(EscapeError::MalformedUnicodeEscape));
    assert_eq!(to_utf16("\\u"), Err(EscapeError::MalformedUnicodeEscape));
    assert_eq!(to_utf16("\\uA"), Err(EscapeError::MalformedUnicodeEscape));
    assert_eq!(to_utf16("\\u{12"), Err(EscapeError::MalformedUnicodeEscape));
    assert_eq!(to_utf16("\\u{12Z4}"), Err(EscapeError::MalformedUnicodeEscape));
    assert_eq!(to_utf16("\\u{1234567}"), Err(EscapeError::MalformedUnicodeEscape));
}

#[test]
fn unknown_escape_and_trailing_backslash_are_rejected() {
    assert_eq!(to_utf16("\\q"), Err(EscapeError::UnknownEscape('q')));
    assert_eq!(to_utf16("ab\\q"), Err(EscapeError::UnknownEscape('q')));
    assert_eq!(to_utf16("abc\\"), Err(EscapeError::TrailingBackslash));
    assert_eq!(to_utf16("\\"), Err(EscapeError::TrailingBackslash));
    assert_eq!(to_utf16_null_terminated("\\q"), Err(EscapeError::UnknownEscape('q')));
}

#[test]
fn first_malformed_escape_wins() {
    assert_eq!(to_utf16("\\q\\x5"), Err(EscapeError::UnknownEscape('q')));
    assert_eq!(to_utf16("\\x5\\q"), Err(EscapeError::MalformedHexEscape));
    assert_eq!(to_utf16("ok\\u{}\\"), Err(EscapeError::MalformedUnicodeEscape));
}

#[test]
fn decoder_scans_to_closing_brace_on_overflow() {
    let mut it = CharEscapeIterator::new(str_to_chars("\\u{1234567}ab"));
    assert_eq!(it.next(), Some(CharEscape::Improper('u')));
    assert_eq!(it.next(), Some(CharEscape::Literal('a')));
    assert_eq!(it.next(), Some(CharEscape::Literal('b')));
    assert_eq!(it.next(), None);
}

#[test]
fn decoder_consumes_whole_escapes() {
    let mut it = CharEscapeIterator::new(str_to_chars("a\\x41\\u{42}\\q\\"));
    assert_eq!(it.next(), Some(CharEscape::Literal('a')));
    assert_eq!(it.next(), Some(CharEscape::Escaped('A')));
    assert_eq!(it.next(), Some(CharEscape::Escaped('B')));
    assert_eq!(it.next(), Some(CharEscape::Improper('q')));
    assert_eq!(it.next(), Some(CharEscape::DanglingBackslash));
    assert_eq!(it.next(), None);
}

#[test]
fn decode_escapes_resolves_characters() {
    assert_eq!(decode_escapes(str_to_chars("a\\tb")), Ok(vec!['a', '\t', 'b']));
    assert_eq!(decode_escapes(str_to_chars("")), Ok(vec![]));
    assert_eq!(decode_escapes(str_to_chars("\\q")), Err(EscapeError::UnknownEscape('q')));
}

#[test]
fn perform_the_escaping_resolves_characters() {
    assert_eq!(perform_the_escaping("a\\tb"), vec!['a', '\t', 'b']);
    assert_eq!(perform_the_escaping("\\u{1F600}"), vec!['😀']);
}

#[test]
fn str_to_chars_matches_std() {
    for s in ["", "abc", "héllo", "語😀"] {
        let expected: Vec<char> = s.chars().collect();
        assert_eq!(str_to_chars(s), expected);
    }
}

#[test]
fn length_counts_utf16_units() {
    assert_eq!(length_as_utf16(""), 0);
    assert_eq!(length_as_utf16("example"), 7);
    assert_eq!(length_as_utf16("\u{00B6}"), 1);
    assert_eq!(length_as_utf16("😀"), 2);
    assert_eq!(length_as_utf16("a語😀"), 4);
    assert_eq!(length_as_utf16("😀"), "😀".encode_utf16().count());
}

#[test]
fn next_code_point_walks_scalars() {
    let text = "a¶語😀";
    let mut bytes: &[u8] = text.as_bytes();
    let mut scalars: Vec<u32> = Vec::new();
    while let Some((scalar, rest)) = next_code_point(bytes) {
        scalars.push(scalar);
        bytes = rest;
    }
    let expected: Vec<u32> = text.chars().map(|c| c as u32).collect();
    assert_eq!(scalars, expected);
    assert_eq!(next_code_point(b""), None);
}
