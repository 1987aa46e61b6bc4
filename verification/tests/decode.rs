//! BOM sniffing and payload decoding.

use xml5::decoding::sniff_bom;
use xml5::decoding::Decoder;
use xml5::decoding::EncodingKind;
use xml5::Tokenizer;

#[test]
fn sniff_detects_utf8_bom() {
    let (k, n) = sniff_bom(b"\xef\xbb\xbfabc");
    assert_eq!(k, Some(EncodingKind::Utf8));
    assert_eq!(n, 3);
}

#[test]
fn sniff_detects_utf16_boms() {
    let (k, n) = sniff_bom(b"\xff\xfea\x00");
    assert_eq!(k, Some(EncodingKind::Utf16Le));
    assert_eq!(n, 2);
    let (k, n) = sniff_bom(b"\xfe\xff\x00a");
    assert_eq!(k, Some(EncodingKind::Utf16Be));
    assert_eq!(n, 2);
}

#[test]
fn sniff_without_bom() {
    let (k, n) = sniff_bom(b"abc");
    assert_eq!(k, None);
    assert_eq!(n, 0);
}

#[test]
fn decode_utf16le_differs_from_raw_bytes() {
    let d = Decoder {
        kind: EncodingKind::Utf16Le,
    };
    let s = d.decode(&[0x61, 0x00, 0x62, 0x00]);
    assert_eq!(s, "ab");
}

#[test]
fn decode_without_bom_adopts_bom_encoding() {
    let mut t = Tokenizer::new();
    let s = t.decode_without_bom(b"\xff\xfea\x00b\x00");
    assert_eq!(s, "ab");
    assert_eq!(t.encoding, EncodingKind::Utf16Le);
    let s2 = t.decode_without_bom(b"c\x00");
    assert_eq!(s2, "c");
}

#[test]
fn decode_utf8_replaces_malformed() {
    let d = Decoder {
        kind: EncodingKind::Utf8,
    };
    let s = d.decode(&[0x61, 0xff, 0x62]);
    assert_eq!(s, "a\u{fffd}b");
}
