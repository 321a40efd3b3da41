//! Encodings of files.
use ripsed::encoding::{
    decode, encode, has_utf16_bom, DecodeError, SourceEncoding, UTF16_BE_BOM, UTF16_LE_BOM, UTF8_BOM,
};

#[test]
fn decode_plain_utf8() {
    let (text, enc) = decode(b"hello\n".to_vec()).unwrap();
    assert_eq!(text, "hello\n");
    assert_eq!(enc, SourceEncoding::Utf8);
}

#[test]
fn decode_utf8_bom_strips_bom() {
    let mut bytes = UTF8_BOM.to_vec();
    bytes.extend_from_slice(b"hello\n");
    let (text, enc) = decode(bytes).unwrap();
    assert_eq!(text, "hello\n", "BOM must not appear as content");
    assert_eq!(enc, SourceEncoding::Utf8Bom);
}

#[test]
fn utf16le_roundtrip() {
    let original = "héllo wörld\r\nsecond ünïcode line\n";
    let bytes = encode(original, SourceEncoding::Utf16Le);
    assert!(bytes.starts_with(&UTF16_LE_BOM));
    let (text, enc) = decode(bytes.clone()).unwrap();
    assert_eq!(text, original);
    assert_eq!(enc, SourceEncoding::Utf16Le);
    assert_eq!(encode(&text, enc), bytes, "byte-exact roundtrip");
}

#[test]
fn utf16be_roundtrip() {
    let original = "emoji 🎉 and CJK 漢字\n";
    let bytes = encode(original, SourceEncoding::Utf16Be);
    assert!(bytes.starts_with(&UTF16_BE_BOM));
    let (text, enc) = decode(bytes.clone()).unwrap();
    assert_eq!(text, original);
    assert_eq!(enc, SourceEncoding::Utf16Be);
    assert_eq!(encode(&text, enc), bytes);
}

#[test]
fn utf16_surrogate_pairs_survive() {
    // 🎉 encodes as a surrogate pair in UTF-16.
    let bytes = encode("🎉", SourceEncoding::Utf16Le);
    assert_eq!(bytes.len(), 2 + 4); // BOM + two u16 units
    let (text, _) = decode(bytes).unwrap();
    assert_eq!(text, "🎉");
}

#[test]
fn truncated_utf16_is_clean_error() {
    let mut bytes = UTF16_LE_BOM.to_vec();
    bytes.extend_from_slice(&[0x68, 0x00, 0x65]); // "he" minus a byte
    let err = decode(bytes).unwrap_err();
    assert_eq!(err, DecodeError::TruncatedUtf16);
    assert!(err.message().contains("truncated"));
}

#[test]
fn unpaired_surrogate_is_clean_error() {
    let mut bytes = UTF16_LE_BOM.to_vec();
    bytes.extend_from_slice(&0xD800u16.to_le_bytes()); // lone high surrogate
    let err = decode(bytes).unwrap_err();
    assert_eq!(err, DecodeError::InvalidUtf16);
}

#[test]
fn invalid_utf8_is_clean_error() {
    // FF FF is not a BOM (LE is FF FE, BE is FE FF), so this takes the
    // UTF-8 path and fails validation there.
    let err = decode(vec![0xFF, 0xFF, 0xFF]).unwrap_err();
    assert!(matches!(err, DecodeError::InvalidUtf8(_)));
}

#[test]
fn empty_inputs() {
    assert_eq!(
        decode(Vec::new()).unwrap(),
        (String::new(), SourceEncoding::Utf8)
    );
    // BOM-only files decode to empty text with the right encoding.
    let (text, enc) = decode(UTF16_LE_BOM.to_vec()).unwrap();
    assert_eq!(text, "");
    assert_eq!(enc, SourceEncoding::Utf16Le);
}

#[test]
fn has_utf16_bom_detection() {
    assert!(has_utf16_bom(&[0xFF, 0xFE, 0x00]));
    assert!(has_utf16_bom(&[0xFE, 0xFF]));
    assert!(!has_utf16_bom(&UTF8_BOM));
    assert!(!has_utf16_bom(b"text"));
    assert!(!has_utf16_bom(&[]));
}

#[test]
fn tags_roundtrip() {
    for enc in [
        SourceEncoding::Utf8,
        SourceEncoding::Utf8Bom,
        SourceEncoding::Utf16Le,
        SourceEncoding::Utf16Be,
    ] {
        assert_eq!(SourceEncoding::from_tag(enc.tag()), Some(enc));
    }
    assert_eq!(SourceEncoding::from_tag("latin-1"), None);
}
