use ofplayer::text_bytes::{decode_heuristic_utf16, decode_text_bytes, decode_utf16_bytes};

#[test]
fn byte_order_marks_choose_the_encoding() {
    assert_eq!(decode_text_bytes(&[0xEF, 0xBB, 0xBF, b'h', b'i']), "hi");
    assert_eq!(decode_text_bytes(&[0xFF, 0xFE, b'h', 0, b'i', 0]), "hi");
    assert_eq!(decode_text_bytes(&[0xFE, 0xFF, 0, b'h', 0, b'i']), "hi");
}

#[test]
fn unmarked_utf16_is_recognised_by_its_zero_bytes() {
    assert_eq!(decode_text_bytes(&[b'h', 0, b'i', 0]), "hi");
    assert_eq!(decode_text_bytes(&[0, b'h', 0, b'i']), "hi");
    assert_eq!(decode_heuristic_utf16(&[b'h', 0, b'i']), None);
    assert_eq!(decode_heuristic_utf16(b"hello world!"), None);
    // Two bytes set a threshold of zero, so even plain ASCII reads as UTF-16 there.
    assert_eq!(decode_text_bytes(b"ab"), "\u{6261}");
}

#[test]
fn plain_bytes_are_utf8_with_replacements() {
    assert_eq!(decode_text_bytes(b"hello world!"), "hello world!");
    assert_eq!(decode_text_bytes(&[0x66, 0xFF, 0x6F]), "f\u{FFFD}o");
    assert_eq!(decode_text_bytes(&[]), "");
}

#[test]
fn utf16_pairs_surrogates_and_drops_an_odd_byte() {
    assert_eq!(decode_utf16_bytes(&[0x3D, 0xD8, 0x00, 0xDE], true), "\u{1F600}");
    assert_eq!(decode_utf16_bytes(&[0x00, 0xD8], true), "\u{FFFD}");
    assert_eq!(decode_utf16_bytes(&[b'h', 0, b'i'], true), "h");
    assert_eq!(decode_utf16_bytes(&[0, b'h'], false), "h");
}
