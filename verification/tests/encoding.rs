use unirun::encoding::{decode, decode_utf16, encode_utf16, normalize_line_endings, utf16le_bytes};

#[test]
fn utf8_plain() {
    let d = decode("中文 OK".as_bytes());
    assert_eq!(d.text, "中文 OK");
    assert_eq!(d.encoding, "utf-8");
}

#[test]
fn utf8_bom_stripped() {
    let mut v = vec![0xEF, 0xBB, 0xBF];
    v.extend_from_slice("hi".as_bytes());
    let d = decode(&v);
    assert_eq!(d.text, "hi");
    assert_eq!(d.encoding, "utf-8");
}

#[test]
fn utf16le_with_bom() {
    let mut v = vec![0xFF, 0xFE];
    for u in "中文".encode_utf16() {
        v.extend_from_slice(&u.to_le_bytes());
    }
    let d = decode(&v);
    assert_eq!(d.text, "中文");
    assert_eq!(d.encoding, "utf-16le");
}

#[test]
fn invalid_utf8_lossy_labeled() {
    let d = decode(&[0xC3, b'(', b'a', 0xFF]);
    assert!(d.text.contains('a'));
    assert_eq!(d.encoding, "utf-8-lossy");
}

#[test]
fn surrogate_pairs() {
    let mut v = vec![0xFF, 0xFE];
    v.extend_from_slice(&0xD83Du16.to_le_bytes());
    v.extend_from_slice(&0xDE00u16.to_le_bytes());
    let d = decode(&v);
    assert_eq!(d.text, "😀");
}

#[test]
fn utf16be_with_bom() {
    let mut v = vec![0xFE, 0xFF];
    for u in "a中😀".encode_utf16() {
        v.extend_from_slice(&u.to_be_bytes());
    }
    let d = decode(&v);
    assert_eq!(d.text, "a中😀");
    assert_eq!(d.encoding, "utf-16be");
}

#[test]
fn lone_surrogates_and_odd_bytes_are_replaced() {
    assert_eq!(decode_utf16(&[0x3D, 0xD8, 0x61, 0x00, 0x62, 0x00], true), "\u{FFFD}b");
    assert_eq!(decode_utf16(&[0x00, 0xDC, 0x61, 0x00], true), "\u{FFFD}a");
    assert_eq!(decode_utf16(&[0x61, 0x00, 0x62], true), "a\u{FFFD}");
}

#[test]
fn utf16_agrees_with_the_standard_library() {
    let text = "plain, 中文, 😀 and \u{FFFF}\u{10000}";
    let expected: Vec<u16> = text.encode_utf16().collect();
    assert_eq!(encode_utf16(text), expected);
    let bytes: Vec<u8> = expected.iter().flat_map(|u| u.to_le_bytes()).collect();
    assert_eq!(utf16le_bytes(text), bytes);
    assert_eq!(decode_utf16(&bytes, true), text);
}

#[test]
fn lossy_text_agrees_with_the_standard_library() {
    let bytes = [b'x', 0xE4, 0xB8, b'y', 0xF0, 0x9F];
    assert_eq!(decode(&bytes).text, String::from_utf8_lossy(&bytes));
}

#[test]
fn line_endings_become_line_feeds() {
    assert_eq!(normalize_line_endings("a\r\nb\rc\n\r\n"), "a\nb\rc\n\n");
    assert_eq!(normalize_line_endings("no change\n"), "no change\n");
}

#[test]
fn empty_output_is_clean() {
    let d = decode(&[]);
    assert_eq!(d.text, "");
    assert_eq!(d.encoding, "utf-8");
}
