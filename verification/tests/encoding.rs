//! Encoding detection, names and conversion.

use rusty_xml::{xml_convert_to_utf8, xml_parse_char_encoding, XmlCharEncoding};

#[test]
fn latin1_converts() {
    let (u, _) = xml_convert_to_utf8(&[0xE9], Some("ISO-8859-1")).unwrap();
    assert_eq!(u, "é".as_bytes());
}

#[test]
fn utf16_le_bom() {
    // BOM + `<a/>` in UTF-16LE
    let mut b = vec![0xFF, 0xFE];
    for c in "<a/>".encode_utf16() {
        b.extend_from_slice(&c.to_le_bytes());
    }
    let (u, _) = xml_convert_to_utf8(&b, None).unwrap();
    assert_eq!(std::str::from_utf8(&u).unwrap().trim_start_matches('\u{feff}'), "<a/>");
}

#[test]
fn iso8859_2_table() {
    // 0xA1 → U+0104 LATIN CAPITAL LETTER A WITH OGONEK
    let (u, _) = xml_convert_to_utf8(&[0xA1], Some("ISO-8859-2")).unwrap();
    assert_eq!(u, "Ą".as_bytes());
}

#[test]
fn parse_encoding_names() {
    assert_eq!(xml_parse_char_encoding("utf-8"), XmlCharEncoding::Utf8);
    assert_eq!(xml_parse_char_encoding("latin1"), XmlCharEncoding::Iso8859_1);
    assert_eq!(xml_parse_char_encoding("windows-1252"), XmlCharEncoding::Windows1252);
}
