//! Character encodings: label lookup, detection from the first bytes, and
//! conversion of a document to UTF-8 without iconv.

use vstd::prelude::*;
use vstd::utf8::*;
use crate::error::{XmlError, XML_ERR_UNSUPPORTED_ENCODING};
use crate::util::{bytes_eq, push_char, push_bytes, char_from_u32, to_ascii_lower, ascii_lower};
use crate::enc_tables::{
    ISO8859_2_HIGH, ISO8859_3_HIGH, ISO8859_4_HIGH, ISO8859_5_HIGH, ISO8859_6_HIGH, ISO8859_7_HIGH, ISO8859_8_HIGH, ISO8859_9_HIGH, ISO8859_10_HIGH, ISO8859_11_HIGH, ISO8859_13_HIGH, ISO8859_14_HIGH, ISO8859_15_HIGH, ISO8859_16_HIGH, WINDOWS_1252_HIGH, WINDOWS_1250_HIGH, WINDOWS_1251_HIGH, WINDOWS_1253_HIGH, WINDOWS_1254_HIGH, WINDOWS_1255_HIGH, WINDOWS_1256_HIGH, WINDOWS_1257_HIGH, WINDOWS_1258_HIGH, KOI8_R_HIGH, KOI8_U_HIGH, IBM866_HIGH, MACINTOSH_HIGH, CP037_ALL,
};

verus! {

/// libxml2 `xmlCharEncoding`, extended with the single-byte code pages this
/// library decodes from its own tables.
#[derive(Clone, Copy, Debug, PartialEq, Eq, Structural)]
pub enum XmlCharEncoding {
    Error,
    NoEncoding,
    Utf8,
    Utf16Le,
    Utf16Be,
    Ucs4Le,
    Ucs4Be,
    Ebcdic,
    Ucs4_2143,
    Ucs4_3412,
    Ucs2,
    Iso8859_1,
    Iso8859_2,
    Iso8859_3,
    Iso8859_4,
    Iso8859_5,
    Iso8859_6,
    Iso8859_7,
    Iso8859_8,
    Iso8859_9,
    Iso2022Jp,
    ShiftJis,
    EucJp,
    Ascii,
    Utf16,
    Html,
    Iso8859_10,
    Iso8859_11,
    Iso8859_13,
    Iso8859_14,
    Iso8859_15,
    Iso8859_16,
    Windows1252,
    Windows1250,
    Windows1251,
    Windows1253,
    Windows1254,
    Windows1255,
    Windows1256,
    Windows1257,
    Windows1258,
    Koi8R,
    Koi8U,
    Ibm866,
    Macintosh,
}


/// A byte `str::trim` removes from a label: ASCII space and `\t` to `\r`.
pub open spec fn is_trim_space(b: u8) -> bool {
    b == 0x20 || (0x09 <= b && b <= 0x0d)
}

/// The first index at or after `i` that is not trimmable space.
pub open spec fn skip_lead(b: Seq<u8>, i: int) -> int
    decreases b.len() - i,
{
    if 0 <= i < b.len() && is_trim_space(b[i]) {
        skip_lead(b, i + 1)
    } else {
        i
    }
}

/// The end of `b[lo..j]` once trailing trimmable space is removed.
pub open spec fn skip_trail(b: Seq<u8>, lo: int, j: int) -> int
    decreases j - lo,
{
    if lo < j && j <= b.len() && is_trim_space(b[j - 1]) {
        skip_trail(b, lo, j - 1)
    } else {
        j
    }
}

/// A label as it is looked up: surrounding space removed, ASCII lowercased.
pub open spec fn label_key(b: Seq<u8>) -> Seq<u8> {
    let s = skip_lead(b, 0);
    let e = skip_trail(b, s, b.len() as int);
    b.subrange(s, e).map_values(|c: u8| ascii_lower(c))
}

/// The encoding a lowercased, trimmed label names (`Error` for an unknown one).
#[verifier::opaque]
pub open spec fn encoding_of_key(k: Seq<u8>) -> XmlCharEncoding {
    if k == encode_utf8("ascii"@) {
        XmlCharEncoding::Ascii
    } else if k == encode_utf8("csisolatin1"@) {
        XmlCharEncoding::Iso8859_1
    } else if k == encode_utf8("iso-8859-1"@) {
        XmlCharEncoding::Iso8859_1
    } else if k == encode_utf8("iso-8859-2"@) {
        XmlCharEncoding::Iso8859_2
    } else if k == encode_utf8("iso-8859-3"@) {
        XmlCharEncoding::Iso8859_3
    } else if k == encode_utf8("iso-8859-4"@) {
        XmlCharEncoding::Iso8859_4
    } else if k == encode_utf8("iso-8859-5"@) {
        XmlCharEncoding::Iso8859_5
    } else if k == encode_utf8("iso-8859-6"@) {
        XmlCharEncoding::Iso8859_6
    } else if k == encode_utf8("iso-8859-7"@) {
        XmlCharEncoding::Iso8859_7
    } else if k == encode_utf8("iso-8859-8"@) {
        XmlCharEncoding::Iso8859_8
    } else if k == encode_utf8("iso-8859-9"@) {
        XmlCharEncoding::Iso8859_9
    } else if k == encode_utf8("iso-8859-10"@) {
        XmlCharEncoding::Iso8859_10
    } else if k == encode_utf8("iso-8859-11"@) {
        XmlCharEncoding::Iso8859_11
    } else if k == encode_utf8("iso-8859-13"@) {
        XmlCharEncoding::Iso8859_13
    } else if k == encode_utf8("iso-8859-14"@) {
        XmlCharEncoding::Iso8859_14
    } else if k == encode_utf8("iso-8859-15"@) {
        XmlCharEncoding::Iso8859_15
    } else if k == encode_utf8("iso-8859-16"@) {
        XmlCharEncoding::Iso8859_16
    } else if k == encode_utf8("iso8859-1"@) {
        XmlCharEncoding::Iso8859_1
    } else if k == encode_utf8("iso_8859-1"@) {
        XmlCharEncoding::Iso8859_1
    } else if k == encode_utf8("latin1"@) {
        XmlCharEncoding::Iso8859_1
    } else if k == encode_utf8("us-ascii"@) {
        XmlCharEncoding::Ascii
    } else if k == encode_utf8("utf-16"@) {
        XmlCharEncoding::Utf16Le
    } else if k == encode_utf8("utf-16be"@) {
        XmlCharEncoding::Utf16Be
    } else if k == encode_utf8("utf-16le"@) {
        XmlCharEncoding::Utf16Le
    } else if k == encode_utf8("utf-8"@) {
        XmlCharEncoding::Utf8
    } else if k == encode_utf8("utf16"@) {
        XmlCharEncoding::Utf16Le
    } else if k == encode_utf8("utf8"@) {
        XmlCharEncoding::Utf8
    } else if k == encode_utf8("unicode"@) {
        XmlCharEncoding::Utf16Le
    } else if k == encode_utf8("ucs-2"@) {
        XmlCharEncoding::Ucs2
    } else if k == encode_utf8("ucs-4"@) {
        XmlCharEncoding::Ucs4Le
    } else if k == encode_utf8("ucs2"@) {
        XmlCharEncoding::Ucs2
    } else if k == encode_utf8("ucs4"@) {
        XmlCharEncoding::Ucs4Le
    } else if k == encode_utf8("windows-1252"@) {
        XmlCharEncoding::Windows1252
    } else if k == encode_utf8("x-cp1252"@) {
        XmlCharEncoding::Windows1252
    } else if k == encode_utf8("ibm037"@) {
        XmlCharEncoding::Ebcdic
    } else if k == encode_utf8("ebcdic"@) {
        XmlCharEncoding::Ebcdic
    } else if k == encode_utf8("iso-2022-jp"@) {
        XmlCharEncoding::Iso2022Jp
    } else if k == encode_utf8("shift_jis"@) {
        XmlCharEncoding::ShiftJis
    } else if k == encode_utf8("shift-jis"@) {
        XmlCharEncoding::ShiftJis
    } else if k == encode_utf8("sjis"@) {
        XmlCharEncoding::ShiftJis
    } else if k == encode_utf8("euc-jp"@) {
        XmlCharEncoding::EucJp
    } else if k == encode_utf8("windows-1250"@) {
        XmlCharEncoding::Windows1250
    } else if k == encode_utf8("windows-1251"@) {
        XmlCharEncoding::Windows1251
    } else if k == encode_utf8("windows-1253"@) {
        XmlCharEncoding::Windows1253
    } else if k == encode_utf8("windows-1254"@) {
        XmlCharEncoding::Windows1254
    } else if k == encode_utf8("windows-1255"@) {
        XmlCharEncoding::Windows1255
    } else if k == encode_utf8("windows-1256"@) {
        XmlCharEncoding::Windows1256
    } else if k == encode_utf8("windows-1257"@) {
        XmlCharEncoding::Windows1257
    } else if k == encode_utf8("windows-1258"@) {
        XmlCharEncoding::Windows1258
    } else if k == encode_utf8("koi8-r"@) {
        XmlCharEncoding::Koi8R
    } else if k == encode_utf8("koi8-u"@) {
        XmlCharEncoding::Koi8U
    } else if k == encode_utf8("ibm866"@) {
        XmlCharEncoding::Ibm866
    } else if k == encode_utf8("macintosh"@) {
        XmlCharEncoding::Macintosh
    } else {
        XmlCharEncoding::Error
    }
}

fn encoding_of_key_exec(k: &[u8]) -> (r: XmlCharEncoding)
    ensures
        r == encoding_of_key(k@),
{
    reveal(encoding_of_key);
    if bytes_eq(k, "ascii".as_bytes()) {
        return XmlCharEncoding::Ascii;
    }
    if bytes_eq(k, "csisolatin1".as_bytes()) {
        return XmlCharEncoding::Iso8859_1;
    }
    if bytes_eq(k, "iso-8859-1".as_bytes()) {
        return XmlCharEncoding::Iso8859_1;
    }
    if bytes_eq(k, "iso-8859-2".as_bytes()) {
        return XmlCharEncoding::Iso8859_2;
    }
    if bytes_eq(k, "iso-8859-3".as_bytes()) {
        return XmlCharEncoding::Iso8859_3;
    }
    if bytes_eq(k, "iso-8859-4".as_bytes()) {
        return XmlCharEncoding::Iso8859_4;
    }
    if bytes_eq(k, "iso-8859-5".as_bytes()) {
        return XmlCharEncoding::Iso8859_5;
    }
    if bytes_eq(k, "iso-8859-6".as_bytes()) {
        return XmlCharEncoding::Iso8859_6;
    }
    if bytes_eq(k, "iso-8859-7".as_bytes()) {
        return XmlCharEncoding::Iso8859_7;
    }
    if bytes_eq(k, "iso-8859-8".as_bytes()) {
        return XmlCharEncoding::Iso8859_8;
    }
    if bytes_eq(k, "iso-8859-9".as_bytes()) {
        return XmlCharEncoding::Iso8859_9;
    }
    if bytes_eq(k, "iso-8859-10".as_bytes()) {
        return XmlCharEncoding::Iso8859_10;
    }
    if bytes_eq(k, "iso-8859-11".as_bytes()) {
        return XmlCharEncoding::Iso8859_11;
    }
    if bytes_eq(k, "iso-8859-13".as_bytes()) {
        return XmlCharEncoding::Iso8859_13;
    }
    if bytes_eq(k, "iso-8859-14".as_bytes()) {
        return XmlCharEncoding::Iso8859_14;
    }
    if bytes_eq(k, "iso-8859-15".as_bytes()) {
        return XmlCharEncoding::Iso8859_15;
    }
    if bytes_eq(k, "iso-8859-16".as_bytes()) {
        return XmlCharEncoding::Iso8859_16;
    }
    if bytes_eq(k, "iso8859-1".as_bytes()) {
        return XmlCharEncoding::Iso8859_1;
    }
    if bytes_eq(k, "iso_8859-1".as_bytes()) {
        return XmlCharEncoding::Iso8859_1;
    }
    if bytes_eq(k, "latin1".as_bytes()) {
        return XmlCharEncoding::Iso8859_1;
    }
    if bytes_eq(k, "us-ascii".as_bytes()) {
        return XmlCharEncoding::Ascii;
    }
    if bytes_eq(k, "utf-16".as_bytes()) {
        return XmlCharEncoding::Utf16Le;
    }
    if bytes_eq(k, "utf-16be".as_bytes()) {
        return XmlCharEncoding::Utf16Be;
    }
    if bytes_eq(k, "utf-16le".as_bytes()) {
        return XmlCharEncoding::Utf16Le;
    }
    if bytes_eq(k, "utf-8".as_bytes()) {
        return XmlCharEncoding::Utf8;
    }
    if bytes_eq(k, "utf16".as_bytes()) {
        return XmlCharEncoding::Utf16Le;
    }
    if bytes_eq(k, "utf8".as_bytes()) {
        return XmlCharEncoding::Utf8;
    }
    if bytes_eq(k, "unicode".as_bytes()) {
        return XmlCharEncoding::Utf16Le;
    }
    if bytes_eq(k, "ucs-2".as_bytes()) {
        return XmlCharEncoding::Ucs2;
    }
    if bytes_eq(k, "ucs-4".as_bytes()) {
        return XmlCharEncoding::Ucs4Le;
    }
    if bytes_eq(k, "ucs2".as_bytes()) {
        return XmlCharEncoding::Ucs2;
    }
    if bytes_eq(k, "ucs4".as_bytes()) {
        return XmlCharEncoding::Ucs4Le;
    }
    if bytes_eq(k, "windows-1252".as_bytes()) {
        return XmlCharEncoding::Windows1252;
    }
    if bytes_eq(k, "x-cp1252".as_bytes()) {
        return XmlCharEncoding::Windows1252;
    }
    if bytes_eq(k, "ibm037".as_bytes()) {
        return XmlCharEncoding::Ebcdic;
    }
    if bytes_eq(k, "ebcdic".as_bytes()) {
        return XmlCharEncoding::Ebcdic;
    }
    if bytes_eq(k, "iso-2022-jp".as_bytes()) {
        return XmlCharEncoding::Iso2022Jp;
    }
    if bytes_eq(k, "shift_jis".as_bytes()) {
        return XmlCharEncoding::ShiftJis;
    }
    if bytes_eq(k, "shift-jis".as_bytes()) {
        return XmlCharEncoding::ShiftJis;
    }
    if bytes_eq(k, "sjis".as_bytes()) {
        return XmlCharEncoding::ShiftJis;
    }
    if bytes_eq(k, "euc-jp".as_bytes()) {
        return XmlCharEncoding::EucJp;
    }
    if bytes_eq(k, "windows-1250".as_bytes()) {
        return XmlCharEncoding::Windows1250;
    }
    if bytes_eq(k, "windows-1251".as_bytes()) {
        return XmlCharEncoding::Windows1251;
    }
    if bytes_eq(k, "windows-1253".as_bytes()) {
        return XmlCharEncoding::Windows1253;
    }
    if bytes_eq(k, "windows-1254".as_bytes()) {
        return XmlCharEncoding::Windows1254;
    }
    if bytes_eq(k, "windows-1255".as_bytes()) {
        return XmlCharEncoding::Windows1255;
    }
    if bytes_eq(k, "windows-1256".as_bytes()) {
        return XmlCharEncoding::Windows1256;
    }
    if bytes_eq(k, "windows-1257".as_bytes()) {
        return XmlCharEncoding::Windows1257;
    }
    if bytes_eq(k, "windows-1258".as_bytes()) {
        return XmlCharEncoding::Windows1258;
    }
    if bytes_eq(k, "koi8-r".as_bytes()) {
        return XmlCharEncoding::Koi8R;
    }
    if bytes_eq(k, "koi8-u".as_bytes()) {
        return XmlCharEncoding::Koi8U;
    }
    if bytes_eq(k, "ibm866".as_bytes()) {
        return XmlCharEncoding::Ibm866;
    }
    if bytes_eq(k, "macintosh".as_bytes()) {
        return XmlCharEncoding::Macintosh;
    }
    XmlCharEncoding::Error
}

fn is_trim_space_exec(b: u8) -> (r: bool)
    ensures
        r == is_trim_space(b),
{
    b == 0x20 || (0x09 <= b && b <= 0x0d)
}

/// The lookup key of a label.
fn label_key_exec(b: &[u8]) -> (r: Vec<u8>)
    ensures
        r@ == label_key(b@),
{
    let mut s: usize = 0;
    while s < b.len() && is_trim_space_exec(b[s])
        invariant
            s <= b.len(),
            skip_lead(b@, 0) == skip_lead(b@, s as int),
        decreases b.len() - s,
    {
        s += 1;
    }
    let mut e: usize = b.len();
    while e > s && is_trim_space_exec(b[e - 1])
        invariant
            s <= e <= b.len(),
            skip_lead(b@, 0) == s,
            skip_trail(b@, s as int, b.len() as int) == skip_trail(b@, s as int, e as int),
        decreases e - s,
    {
        e -= 1;
    }
    let mut key: Vec<u8> = Vec::new();
    let mut i = s;
    while i < e
        invariant
            s <= i <= e <= b.len(),
            key@ == b@.subrange(s as int, i as int).map_values(|c: u8| ascii_lower(c)),
        decreases e - i,
    {
        key.push(to_ascii_lower(b[i]));
        i += 1;
        assert(b@.subrange(s as int, i as int).map_values(|c: u8| ascii_lower(c)) =~= b@.subrange(
            s as int,
            i - 1,
        ).map_values(|c: u8| ascii_lower(c)).push(ascii_lower(b@[i - 1])));
    }
    key
}

/// The encoding a label names, as `xmlParseCharEncoding`.
pub open spec fn parse_char_encoding_spec(name: Seq<char>) -> XmlCharEncoding {
    encoding_of_key(label_key(encode_utf8(name)))
}

/// `xmlParseCharEncoding`: the encoding named by `name`, compared without
/// case and surrounding space; `Error` for an unknown name. `UTF-16` names
/// little-endian UTF-16.
pub fn xml_parse_char_encoding(name: &str) -> (r: XmlCharEncoding)
    ensures
        r == parse_char_encoding_spec(name@),
{
    let key = label_key_exec(name.as_bytes());
    encoding_of_key_exec(&key)
}

/// `xmlGetCharEncodingName`: the canonical name of an encoding.
pub open spec fn encoding_name_spec(e: XmlCharEncoding) -> Option<Seq<char>> {
    match e {
        XmlCharEncoding::Utf8 => Some("UTF-8"@),
        XmlCharEncoding::Utf16Le => Some("UTF-16"@),
        XmlCharEncoding::Utf16Be => Some("UTF-16"@),
        XmlCharEncoding::Utf16 => Some("UTF-16"@),
        XmlCharEncoding::Ucs4Le => Some("UCS-4"@),
        XmlCharEncoding::Ucs4Be => Some("UCS-4"@),
        XmlCharEncoding::Iso8859_1 => Some("ISO-8859-1"@),
        XmlCharEncoding::Iso8859_2 => Some("ISO-8859-2"@),
        XmlCharEncoding::Iso8859_3 => Some("ISO-8859-3"@),
        XmlCharEncoding::Iso8859_4 => Some("ISO-8859-4"@),
        XmlCharEncoding::Iso8859_5 => Some("ISO-8859-5"@),
        XmlCharEncoding::Iso8859_6 => Some("ISO-8859-6"@),
        XmlCharEncoding::Iso8859_7 => Some("ISO-8859-7"@),
        XmlCharEncoding::Iso8859_8 => Some("ISO-8859-8"@),
        XmlCharEncoding::Iso8859_9 => Some("ISO-8859-9"@),
        XmlCharEncoding::Iso8859_10 => Some("ISO-8859-10"@),
        XmlCharEncoding::Iso8859_11 => Some("ISO-8859-11"@),
        XmlCharEncoding::Iso8859_13 => Some("ISO-8859-13"@),
        XmlCharEncoding::Iso8859_14 => Some("ISO-8859-14"@),
        XmlCharEncoding::Iso8859_15 => Some("ISO-8859-15"@),
        XmlCharEncoding::Iso8859_16 => Some("ISO-8859-16"@),
        XmlCharEncoding::Ascii => Some("US-ASCII"@),
        XmlCharEncoding::Windows1252 => Some("windows-1252"@),
        XmlCharEncoding::Ebcdic => Some("IBM037"@),
        XmlCharEncoding::Ucs2 => Some("UCS-2"@),
        XmlCharEncoding::Iso2022Jp => Some("ISO-2022-JP"@),
        XmlCharEncoding::ShiftJis => Some("Shift_JIS"@),
        XmlCharEncoding::EucJp => Some("EUC-JP"@),
        XmlCharEncoding::Html => Some("HTML"@),
        XmlCharEncoding::Windows1250 => Some("windows-1250"@),
        XmlCharEncoding::Windows1251 => Some("windows-1251"@),
        XmlCharEncoding::Windows1253 => Some("windows-1253"@),
        XmlCharEncoding::Windows1254 => Some("windows-1254"@),
        XmlCharEncoding::Windows1255 => Some("windows-1255"@),
        XmlCharEncoding::Windows1256 => Some("windows-1256"@),
        XmlCharEncoding::Windows1257 => Some("windows-1257"@),
        XmlCharEncoding::Windows1258 => Some("windows-1258"@),
        XmlCharEncoding::Koi8R => Some("KOI8-R"@),
        XmlCharEncoding::Koi8U => Some("KOI8-U"@),
        XmlCharEncoding::Ibm866 => Some("IBM866"@),
        XmlCharEncoding::Macintosh => Some("macintosh"@),
        _ => None,
    }
}

/// `xmlGetCharEncodingName`: the canonical name of `enc`, `None` for the
/// pseudo-encodings that have none.
pub fn xml_get_char_encoding_name(enc: XmlCharEncoding) -> (r: Option<&'static str>)
    ensures
        r matches Some(s) ==> encoding_name_spec(enc) == Some(s@),
        r is None ==> encoding_name_spec(enc) is None,
{
    match enc {
        XmlCharEncoding::Utf8 => Some("UTF-8"),
        XmlCharEncoding::Utf16Le => Some("UTF-16"),
        XmlCharEncoding::Utf16Be => Some("UTF-16"),
        XmlCharEncoding::Utf16 => Some("UTF-16"),
        XmlCharEncoding::Ucs4Le => Some("UCS-4"),
        XmlCharEncoding::Ucs4Be => Some("UCS-4"),
        XmlCharEncoding::Iso8859_1 => Some("ISO-8859-1"),
        XmlCharEncoding::Iso8859_2 => Some("ISO-8859-2"),
        XmlCharEncoding::Iso8859_3 => Some("ISO-8859-3"),
        XmlCharEncoding::Iso8859_4 => Some("ISO-8859-4"),
        XmlCharEncoding::Iso8859_5 => Some("ISO-8859-5"),
        XmlCharEncoding::Iso8859_6 => Some("ISO-8859-6"),
        XmlCharEncoding::Iso8859_7 => Some("ISO-8859-7"),
        XmlCharEncoding::Iso8859_8 => Some("ISO-8859-8"),
        XmlCharEncoding::Iso8859_9 => Some("ISO-8859-9"),
        XmlCharEncoding::Iso8859_10 => Some("ISO-8859-10"),
        XmlCharEncoding::Iso8859_11 => Some("ISO-8859-11"),
        XmlCharEncoding::Iso8859_13 => Some("ISO-8859-13"),
        XmlCharEncoding::Iso8859_14 => Some("ISO-8859-14"),
        XmlCharEncoding::Iso8859_15 => Some("ISO-8859-15"),
        XmlCharEncoding::Iso8859_16 => Some("ISO-8859-16"),
        XmlCharEncoding::Ascii => Some("US-ASCII"),
        XmlCharEncoding::Windows1252 => Some("windows-1252"),
        XmlCharEncoding::Ebcdic => Some("IBM037"),
        XmlCharEncoding::Ucs2 => Some("UCS-2"),
        XmlCharEncoding::Iso2022Jp => Some("ISO-2022-JP"),
        XmlCharEncoding::ShiftJis => Some("Shift_JIS"),
        XmlCharEncoding::EucJp => Some("EUC-JP"),
        XmlCharEncoding::Html => Some("HTML"),
        XmlCharEncoding::Windows1250 => Some("windows-1250"),
        XmlCharEncoding::Windows1251 => Some("windows-1251"),
        XmlCharEncoding::Windows1253 => Some("windows-1253"),
        XmlCharEncoding::Windows1254 => Some("windows-1254"),
        XmlCharEncoding::Windows1255 => Some("windows-1255"),
        XmlCharEncoding::Windows1256 => Some("windows-1256"),
        XmlCharEncoding::Windows1257 => Some("windows-1257"),
        XmlCharEncoding::Windows1258 => Some("windows-1258"),
        XmlCharEncoding::Koi8R => Some("KOI8-R"),
        XmlCharEncoding::Koi8U => Some("KOI8-U"),
        XmlCharEncoding::Ibm866 => Some("IBM866"),
        XmlCharEncoding::Macintosh => Some("macintosh"),
        _ => None,
    }
}

/// The upper-half table of a single-byte encoding that has one.
pub open spec fn table_spec(e: XmlCharEncoding) -> Option<Seq<char>> {
    match e {
        XmlCharEncoding::Iso8859_2 => Some(ISO8859_2_HIGH@),
        XmlCharEncoding::Iso8859_3 => Some(ISO8859_3_HIGH@),
        XmlCharEncoding::Iso8859_4 => Some(ISO8859_4_HIGH@),
        XmlCharEncoding::Iso8859_5 => Some(ISO8859_5_HIGH@),
        XmlCharEncoding::Iso8859_6 => Some(ISO8859_6_HIGH@),
        XmlCharEncoding::Iso8859_7 => Some(ISO8859_7_HIGH@),
        XmlCharEncoding::Iso8859_8 => Some(ISO8859_8_HIGH@),
        XmlCharEncoding::Iso8859_9 => Some(ISO8859_9_HIGH@),
        XmlCharEncoding::Iso8859_10 => Some(ISO8859_10_HIGH@),
        XmlCharEncoding::Iso8859_11 => Some(ISO8859_11_HIGH@),
        XmlCharEncoding::Iso8859_13 => Some(ISO8859_13_HIGH@),
        XmlCharEncoding::Iso8859_14 => Some(ISO8859_14_HIGH@),
        XmlCharEncoding::Iso8859_15 => Some(ISO8859_15_HIGH@),
        XmlCharEncoding::Iso8859_16 => Some(ISO8859_16_HIGH@),
        XmlCharEncoding::Windows1252 => Some(WINDOWS_1252_HIGH@),
        XmlCharEncoding::Windows1250 => Some(WINDOWS_1250_HIGH@),
        XmlCharEncoding::Windows1251 => Some(WINDOWS_1251_HIGH@),
        XmlCharEncoding::Windows1253 => Some(WINDOWS_1253_HIGH@),
        XmlCharEncoding::Windows1254 => Some(WINDOWS_1254_HIGH@),
        XmlCharEncoding::Windows1255 => Some(WINDOWS_1255_HIGH@),
        XmlCharEncoding::Windows1256 => Some(WINDOWS_1256_HIGH@),
        XmlCharEncoding::Windows1257 => Some(WINDOWS_1257_HIGH@),
        XmlCharEncoding::Windows1258 => Some(WINDOWS_1258_HIGH@),
        XmlCharEncoding::Koi8R => Some(KOI8_R_HIGH@),
        XmlCharEncoding::Koi8U => Some(KOI8_U_HIGH@),
        XmlCharEncoding::Ibm866 => Some(IBM866_HIGH@),
        XmlCharEncoding::Macintosh => Some(MACINTOSH_HIGH@),
        _ => None,
    }
}

fn table_for(e: XmlCharEncoding) -> (r: Option<&'static str>)
    ensures
        r matches Some(t) ==> table_spec(e) == Some(t@),
        r is None ==> table_spec(e) is None,
{
    match e {
        XmlCharEncoding::Iso8859_2 => Some(ISO8859_2_HIGH),
        XmlCharEncoding::Iso8859_3 => Some(ISO8859_3_HIGH),
        XmlCharEncoding::Iso8859_4 => Some(ISO8859_4_HIGH),
        XmlCharEncoding::Iso8859_5 => Some(ISO8859_5_HIGH),
        XmlCharEncoding::Iso8859_6 => Some(ISO8859_6_HIGH),
        XmlCharEncoding::Iso8859_7 => Some(ISO8859_7_HIGH),
        XmlCharEncoding::Iso8859_8 => Some(ISO8859_8_HIGH),
        XmlCharEncoding::Iso8859_9 => Some(ISO8859_9_HIGH),
        XmlCharEncoding::Iso8859_10 => Some(ISO8859_10_HIGH),
        XmlCharEncoding::Iso8859_11 => Some(ISO8859_11_HIGH),
        XmlCharEncoding::Iso8859_13 => Some(ISO8859_13_HIGH),
        XmlCharEncoding::Iso8859_14 => Some(ISO8859_14_HIGH),
        XmlCharEncoding::Iso8859_15 => Some(ISO8859_15_HIGH),
        XmlCharEncoding::Iso8859_16 => Some(ISO8859_16_HIGH),
        XmlCharEncoding::Windows1252 => Some(WINDOWS_1252_HIGH),
        XmlCharEncoding::Windows1250 => Some(WINDOWS_1250_HIGH),
        XmlCharEncoding::Windows1251 => Some(WINDOWS_1251_HIGH),
        XmlCharEncoding::Windows1253 => Some(WINDOWS_1253_HIGH),
        XmlCharEncoding::Windows1254 => Some(WINDOWS_1254_HIGH),
        XmlCharEncoding::Windows1255 => Some(WINDOWS_1255_HIGH),
        XmlCharEncoding::Windows1256 => Some(WINDOWS_1256_HIGH),
        XmlCharEncoding::Windows1257 => Some(WINDOWS_1257_HIGH),
        XmlCharEncoding::Windows1258 => Some(WINDOWS_1258_HIGH),
        XmlCharEncoding::Koi8R => Some(KOI8_R_HIGH),
        XmlCharEncoding::Koi8U => Some(KOI8_U_HIGH),
        XmlCharEncoding::Ibm866 => Some(IBM866_HIGH),
        XmlCharEncoding::Macintosh => Some(MACINTOSH_HIGH),
        _ => None,
    }
}

/// `xmlDetectCharEncoding`: XML 1.0 appendix F on the first four bytes,
/// plus the byte-order marks.
pub open spec fn detect_spec(b: Seq<u8>) -> XmlCharEncoding {
    if b.len() >= 4 && b[0] == 0x00 && b[1] == 0x00 && b[2] == 0x00 && b[3] == 0x3c {
        XmlCharEncoding::Ucs4Be
    } else if b.len() >= 4 && b[0] == 0x3c && b[1] == 0x00 && b[2] == 0x00 && b[3] == 0x00 {
        XmlCharEncoding::Ucs4Le
    } else if b.len() >= 4 && b[0] == 0x00 && b[1] == 0x00 && b[2] == 0x3c && b[3] == 0x00 {
        XmlCharEncoding::Ucs4_2143
    } else if b.len() >= 4 && b[0] == 0x00 && b[1] == 0x3c && b[2] == 0x00 && b[3] == 0x00 {
        XmlCharEncoding::Ucs4_3412
    } else if b.len() >= 4 && b[0] == 0x4c && b[1] == 0x6f && b[2] == 0xa7 && b[3] == 0x94 {
        XmlCharEncoding::Ebcdic
    } else if b.len() >= 4 && b[0] == 0x3c && b[1] == 0x3f && b[2] == 0x78 && b[3] == 0x6d {
        XmlCharEncoding::Utf8
    } else if b.len() >= 4 && b[0] == 0x3c && b[1] == 0x00 && b[2] == 0x3f && b[3] == 0x00 {
        XmlCharEncoding::Utf16Le
    } else if b.len() >= 4 && b[0] == 0x00 && b[1] == 0x3c && b[2] == 0x00 && b[3] == 0x3f {
        XmlCharEncoding::Utf16Be
    } else if b.len() >= 4 && b[0] == 0x00 && b[1] == 0x00 && b[2] == 0xfe && b[3] == 0xff {
        XmlCharEncoding::Ucs4Be
    } else if b.len() >= 4 && b[0] == 0xff && b[1] == 0xfe && b[2] == 0x00 && b[3] == 0x00 {
        XmlCharEncoding::Ucs4Le
    } else if b.len() >= 3 && b[0] == 0xef && b[1] == 0xbb && b[2] == 0xbf {
        XmlCharEncoding::Utf8
    } else if b.len() >= 2 && b[0] == 0xfe && b[1] == 0xff {
        XmlCharEncoding::Utf16Be
    } else if b.len() >= 2 && b[0] == 0xff && b[1] == 0xfe {
        XmlCharEncoding::Utf16Le
    } else {
        XmlCharEncoding::NoEncoding
    }
}

/// `xmlDetectCharEncoding`.
pub fn xml_detect_char_encoding(b: &[u8]) -> (r: XmlCharEncoding)
    ensures
        r == detect_spec(b@),
{
    let n = b.len();
    if n >= 4 && b[0] == 0x00 && b[1] == 0x00 && b[2] == 0x00 && b[3] == 0x3c {
        XmlCharEncoding::Ucs4Be
    } else if n >= 4 && b[0] == 0x3c && b[1] == 0x00 && b[2] == 0x00 && b[3] == 0x00 {
        XmlCharEncoding::Ucs4Le
    } else if n >= 4 && b[0] == 0x00 && b[1] == 0x00 && b[2] == 0x3c && b[3] == 0x00 {
        XmlCharEncoding::Ucs4_2143
    } else if n >= 4 && b[0] == 0x00 && b[1] == 0x3c && b[2] == 0x00 && b[3] == 0x00 {
        XmlCharEncoding::Ucs4_3412
    } else if n >= 4 && b[0] == 0x4c && b[1] == 0x6f && b[2] == 0xa7 && b[3] == 0x94 {
        XmlCharEncoding::Ebcdic
    } else if n >= 4 && b[0] == 0x3c && b[1] == 0x3f && b[2] == 0x78 && b[3] == 0x6d {
        XmlCharEncoding::Utf8
    } else if n >= 4 && b[0] == 0x3c && b[1] == 0x00 && b[2] == 0x3f && b[3] == 0x00 {
        XmlCharEncoding::Utf16Le
    } else if n >= 4 && b[0] == 0x00 && b[1] == 0x3c && b[2] == 0x00 && b[3] == 0x3f {
        XmlCharEncoding::Utf16Be
    } else if n >= 4 && b[0] == 0x00 && b[1] == 0x00 && b[2] == 0xfe && b[3] == 0xff {
        XmlCharEncoding::Ucs4Be
    } else if n >= 4 && b[0] == 0xff && b[1] == 0xfe && b[2] == 0x00 && b[3] == 0x00 {
        XmlCharEncoding::Ucs4Le
    } else if n >= 3 && b[0] == 0xef && b[1] == 0xbb && b[2] == 0xbf {
        XmlCharEncoding::Utf8
    } else if n >= 2 && b[0] == 0xfe && b[1] == 0xff {
        XmlCharEncoding::Utf16Be
    } else if n >= 2 && b[0] == 0xff && b[1] == 0xfe {
        XmlCharEncoding::Utf16Le
    } else {
        XmlCharEncoding::NoEncoding
    }
}


/// The character a byte of a single-byte encoding stands for: itself below
/// 0x80, otherwise its entry in the upper-half table.
pub open spec fn high_half_char(t: Seq<char>, x: u8) -> Seq<char> {
    if x < 0x80 {
        seq![x as char]
    } else if (x - 0x80) < t.len() {
        seq![t[x - 0x80]]
    } else {
        seq![]
    }
}

/// Decoding of `b` with the upper-half table `t`.
pub open spec fn eightbit_chars(t: Seq<char>, b: Seq<u8>) -> Seq<char>
    decreases b.len(),
{
    if b.len() == 0 {
        seq![]
    } else {
        eightbit_chars(t, b.drop_last()) + high_half_char(t, b.last())
    }
}

/// The character a byte stands for in a table covering all 256 values.
pub open spec fn full_table_char(t: Seq<char>, x: u8) -> Seq<char> {
    if (x as int) < t.len() {
        seq![t[x as int]]
    } else {
        seq![]
    }
}

/// Decoding of `b` with a table of all 256 byte values.
pub open spec fn full_table_chars(t: Seq<char>, b: Seq<u8>) -> Seq<char>
    decreases b.len(),
{
    if b.len() == 0 {
        seq![]
    } else {
        full_table_chars(t, b.drop_last()) + full_table_char(t, b.last())
    }
}

/// ISO-8859-1: every byte is the character of the same value.
pub open spec fn latin1_chars(b: Seq<u8>) -> Seq<char> {
    b.map_values(|x: u8| x as char)
}

fn eightbit_to_utf8(input: &[u8], table: &str) -> (r: String)
    ensures
        r@ == eightbit_chars(table@, input@),
{
    let n = table.unicode_len();
    let mut out = String::new();
    let mut i: usize = 0;
    while i < input.len()
        invariant
            i <= input.len(),
            n == table@.len(),
            out@ == eightbit_chars(table@, input@.subrange(0, i as int)),
        decreases input.len() - i,
    {
        let x = input[i];
        if x < 0x80 {
            push_char(&mut out, x as char);
        } else {
            let k = (x - 0x80) as usize;
            if k < n {
                let c = table.get_char(k);
                push_char(&mut out, c);
            }
        }
        i += 1;
        proof {
            assert(input@.subrange(0, i as int).drop_last() =~= input@.subrange(0, i - 1));
        }
    }
    assert(input@.subrange(0, input.len() as int) =~= input@);
    out
}

fn full_table_to_utf8(input: &[u8], table: &str) -> (r: String)
    ensures
        r@ == full_table_chars(table@, input@),
{
    let n = table.unicode_len();
    let mut out = String::new();
    let mut i: usize = 0;
    while i < input.len()
        invariant
            i <= input.len(),
            n == table@.len(),
            out@ == full_table_chars(table@, input@.subrange(0, i as int)),
        decreases input.len() - i,
    {
        let x = input[i] as usize;
        if x < n {
            let c = table.get_char(x);
            push_char(&mut out, c);
        }
        i += 1;
        proof {
            assert(input@.subrange(0, i as int).drop_last() =~= input@.subrange(0, i - 1));
        }
    }
    assert(input@.subrange(0, input.len() as int) =~= input@);
    out
}

fn latin1_to_utf8(input: &[u8]) -> (r: String)
    ensures
        r@ == latin1_chars(input@),
{
    let mut out = String::new();
    let mut i: usize = 0;
    while i < input.len()
        invariant
            i <= input.len(),
            out@ == input@.subrange(0, i as int).map_values(|x: u8| x as char),
        decreases input.len() - i,
    {
        push_char(&mut out, input[i] as char);
        i += 1;
        proof {
            assert(input@.subrange(0, i as int).map_values(|x: u8| x as char) =~= input@.subrange(
                0,
                i - 1,
            ).map_values(|x: u8| x as char).push(input@[i - 1] as char));
        }
    }
    assert(input@.subrange(0, input.len() as int) =~= input@);
    out
}

/// `Some(o + rest)` when `r` is `Some(rest)`.
pub open spec fn prepend_chars(o: Seq<char>, r: Option<Seq<char>>) -> Option<Seq<char>> {
    match r {
        Some(rest) => Some(o + rest),
        None => None,
    }
}

/// The 16-bit unit at byte `i`.
pub open spec fn unit16(b: Seq<u8>, i: int, be: bool) -> int {
    if be {
        b[i] * 256 + b[i + 1]
    } else {
        b[i + 1] * 256 + b[i]
    }
}

/// UTF-16 decoding of the units from byte `i` on; `None` at an unpaired
/// surrogate. A trailing odd byte is ignored.
pub open spec fn utf16_from(b: Seq<u8>, be: bool, i: int) -> Option<Seq<char>>
    decreases b.len() - i,
{
    if i < 0 || i + 1 >= b.len() {
        Some(seq![])
    } else {
        let u = unit16(b, i, be);
        if 0xd800 <= u <= 0xdbff {
            if i + 3 < b.len() && 0xdc00 <= unit16(b, i + 2, be) <= 0xdfff {
                prepend_chars(
                    seq![(0x10000 + (u - 0xd800) * 1024 + (unit16(b, i + 2, be) - 0xdc00)) as char],
                    utf16_from(b, be, i + 4),
                )
            } else {
                None
            }
        } else if 0xdc00 <= u <= 0xdfff {
            None
        } else {
            prepend_chars(seq![u as char], utf16_from(b, be, i + 2))
        }
    }
}

/// Where UTF-16 decoding starts: past a byte-order mark of the given order.
pub open spec fn utf16_start(b: Seq<u8>, be: bool) -> int {
    if b.len() >= 2 && (if be {
        b[0] == 0xfe && b[1] == 0xff
    } else {
        b[0] == 0xff && b[1] == 0xfe
    }) {
        2
    } else {
        0
    }
}

/// UTF-16 decoding of a whole input.
pub open spec fn utf16_chars(b: Seq<u8>, be: bool) -> Option<Seq<char>> {
    utf16_from(b, be, utf16_start(b, be))
}

fn unit16_exec(b: &[u8], i: usize, be: bool) -> (r: u32)
    requires
        i + 1 < b.len(),
    ensures
        r == unit16(b@, i as int, be),
{
    let hi: u32 = if be { b[i] as u32 } else { b[i + 1] as u32 };
    let lo: u32 = if be { b[i + 1] as u32 } else { b[i] as u32 };
    hi * 256 + lo
}

fn utf16_to_utf8(input: &[u8], be: bool) -> (r: Option<String>)
    ensures
        match utf16_chars(input@, be) {
            Some(cs) => r matches Some(s) && s@ == cs,
            None => r is None,
        },
{
    let mut i: usize = 0;
    if input.len() >= 2 {
        let bom = if be {
            input[0] == 0xfe && input[1] == 0xff
        } else {
            input[0] == 0xff && input[1] == 0xfe
        };
        if bom {
            i = 2;
        }
    }
    let ghost start = i as int;
    let mut out = String::new();
    while input.len() - i > 1
        invariant
            i <= input.len(),
            start == utf16_start(input@, be),
            utf16_from(input@, be, start) == prepend_chars(out@, utf16_from(input@, be, i as int)),
        decreases input.len() - i,
    {
        let u = unit16_exec(input, i, be);
        if 0xd800 <= u && u <= 0xdbff {
            if input.len() - i > 3 {
                let l = unit16_exec(input, i + 2, be);
                if 0xdc00 <= l && l <= 0xdfff {
                    let v = 0x10000 + (u - 0xd800) * 1024 + (l - 0xdc00);
                    match char_from_u32(v) {
                        Some(c) => {
                            proof {
                                assert(c == v as char);
                                assert(out@.push(c) =~= out@ + seq![c]);
                                assert(out@ + (seq![c] + utf16_from(input@, be, i + 4)->0) =~= out@.push(c) + utf16_from(input@, be, i + 4)->0);
                            }
                            push_char(&mut out, c);
                            i += 4;
                        },
                        None => {
                            return None;
                        },
                    }
                } else {
                    return None;
                }
            } else {
                return None;
            }
        } else if 0xdc00 <= u && u <= 0xdfff {
            return None;
        } else {
            match char_from_u32(u) {
                Some(c) => {
                    proof {
                        assert(c == u as char);
                        assert(out@ + (seq![c] + utf16_from(input@, be, i + 2)->0) =~= out@.push(c) + utf16_from(input@, be, i + 2)->0);
                    }
                    push_char(&mut out, c);
                    i += 2;
                },
                None => {
                    return None;
                },
            }
        }
    }
    assert(utf16_from(input@, be, i as int) == Some(Seq::<char>::empty()));
    assert(out@ + Seq::<char>::empty() =~= out@);
    Some(out)
}


/// The UCS-4 value at byte `i`, reading its bytes in the order `o`.
pub open spec fn ucs4_val(b: Seq<u8>, i: int, o: (int, int, int, int)) -> int {
    b[i + o.0] * 0x1000000 + b[i + o.1] * 0x10000 + b[i + o.2] * 0x100 + b[i + o.3]
}

/// A Unicode scalar value.
pub open spec fn is_scalar_value(v: int) -> bool {
    0 <= v <= 0x10ffff && !(0xd800 <= v <= 0xdfff)
}

/// UCS-4 decoding from byte `i` on; `None` at a value that is no scalar.
/// A U+FEFF before any character is dropped. Trailing bytes short of a
/// whole unit are ignored.
pub open spec fn ucs4_from(b: Seq<u8>, o: (int, int, int, int), i: int, first: bool) -> Option<Seq<char>>
    decreases b.len() - i,
{
    if i < 0 || i + 3 >= b.len() {
        Some(seq![])
    } else {
        let v = ucs4_val(b, i, o);
        if !is_scalar_value(v) {
            None
        } else if v == 0xfeff && first {
            ucs4_from(b, o, i + 4, true)
        } else {
            prepend_chars(seq![v as char], ucs4_from(b, o, i + 4, false))
        }
    }
}

/// Where UCS-4 decoding starts: past a byte-order mark in either order.
pub open spec fn ucs4_start(b: Seq<u8>) -> int {
    if b.len() >= 4 && ((b[0] == 0 && b[1] == 0 && b[2] == 0xfe && b[3] == 0xff) || (b[0] == 0xff
        && b[1] == 0xfe && b[2] == 0 && b[3] == 0)) {
        4
    } else {
        0
    }
}

/// UCS-4 decoding of a whole input.
pub open spec fn ucs4_chars(b: Seq<u8>, o: (int, int, int, int)) -> Option<Seq<char>> {
    ucs4_from(b, o, ucs4_start(b), true)
}

/// A byte order: each component names one of the four bytes.
pub open spec fn order_ok(o: (usize, usize, usize, usize)) -> bool {
    o.0 < 4 && o.1 < 4 && o.2 < 4 && o.3 < 4
}

fn ucs4_to_utf8(input: &[u8], o: (usize, usize, usize, usize)) -> (r: Option<String>)
    requires
        order_ok(o),
    ensures
        match ucs4_chars(input@, (o.0 as int, o.1 as int, o.2 as int, o.3 as int)) {
            Some(cs) => r matches Some(s) && s@ == cs,
            None => r is None,
        },
{
    let ghost go = (o.0 as int, o.1 as int, o.2 as int, o.3 as int);
    let mut i: usize = 0;
    if input.len() >= 4 && ((input[0] == 0 && input[1] == 0 && input[2] == 0xfe && input[3] == 0xff)
        || (input[0] == 0xff && input[1] == 0xfe && input[2] == 0 && input[3] == 0)) {
        i = 4;
    }
    let ghost start = i as int;
    let mut out = String::new();
    let mut first = true;
    while input.len() - i > 3
        invariant
            first == (out@.len() == 0),
            i <= input.len(),
            order_ok(o),
            go == (o.0 as int, o.1 as int, o.2 as int, o.3 as int),
            start == ucs4_start(input@),
            ucs4_from(input@, go, start, true) == prepend_chars(
                out@,
                ucs4_from(input@, go, i as int, out@.len() == 0),
            ),
        decreases input.len() - i,
    {
        let v: u32 = input[i + o.0] as u32 * 0x1000000 + input[i + o.1] as u32 * 0x10000
            + input[i + o.2] as u32 * 0x100 + input[i + o.3] as u32;
        match char_from_u32(v) {
            Some(c) => {
                if v == 0xfeff && first {
                    proof {
                        assert(out@.len() == 0);
                    }
                    i += 4;
                } else {
                    proof {
                        assert(c == v as char);
                        if out@.len() == 0 {
                            assert(v != 0xfeff);
                        }
                        let rest = ucs4_from(input@, go, i + 4, false);
                        if rest is Some {
                            assert(out@ + (seq![c] + rest->0) =~= out@.push(c) + rest->0);
                        }
                    }
                    push_char(&mut out, c);
                    first = false;
                    i += 4;
                }
            },
            None => {
                return None;
            },
        }
    }
    assert(out@ + Seq::<char>::empty() =~= out@);
    Some(out)
}


/// `w` occurs at `i` in `h`, compared without ASCII case.
pub open spec fn kw_at(h: Seq<u8>, i: int, w: Seq<u8>) -> bool {
    &&& 0 <= i
    &&& i + w.len() <= h.len()
    &&& forall|k: int| 0 <= k < w.len() ==> ascii_lower(#[trigger] h[i + k]) == ascii_lower(w[k])
}

/// The first occurrence of `w` in `h` at or after `i`.
pub open spec fn find_kw(h: Seq<u8>, w: Seq<u8>, i: int) -> Option<int>
    decreases h.len() - i,
{
    if i < 0 || i + w.len() > h.len() {
        None
    } else if kw_at(h, i, w) {
        Some(i)
    } else {
        find_kw(h, w, i + 1)
    }
}

/// Space or `=` between the word `encoding` and its value.
pub open spec fn is_decl_gap(x: u8) -> bool {
    x == 0x20 || x == 0x09 || x == 0x0d || x == 0x0a || x == 0x3d
}

/// The first index at or after `i` that is no gap byte.
pub open spec fn skip_gap(h: Seq<u8>, i: int) -> int
    decreases h.len() - i,
{
    if 0 <= i < h.len() && is_decl_gap(h[i]) {
        skip_gap(h, i + 1)
    } else {
        i
    }
}

/// The first index at or after `i` holding `q` (or the end).
pub open spec fn find_byte(h: Seq<u8>, q: u8, i: int) -> int
    decreases h.len() - i,
{
    if 0 <= i < h.len() && h[i] != q {
        find_byte(h, q, i + 1)
    } else {
        i
    }
}

/// The encoding named by an `encoding="..."` found in the first KiB, if it
/// names a known one.
pub open spec fn sniff_spec(b: Seq<u8>) -> Option<XmlCharEncoding> {
    let n = if b.len() < 1024 { b.len() as int } else { 1024 };
    let h = b.subrange(0, n);
    let w = encode_utf8("encoding"@);
    if h.len() < 8 {
        None
    } else {
        match find_kw(h, w, 0) {
            None => None,
            Some(idx) => {
                let i = skip_gap(h, idx + w.len());
                if i >= n || (h[i] != 0x22 && h[i] != 0x27) {
                    None
                } else {
                    let e = find_byte(h, h[i], i + 1);
                    if e >= n {
                        None
                    } else {
                        let name = h.subrange(i + 1, e);
                        if !valid_utf8(name) {
                            None
                        } else {
                            let enc = encoding_of_key(label_key(name));
                            if enc == XmlCharEncoding::Error || enc == XmlCharEncoding::NoEncoding {
                                None
                            } else {
                                Some(enc)
                            }
                        }
                    }
                }
            },
        }
    }
}

fn kw_at_exec(h: &[u8], i: usize, w: &[u8]) -> (r: bool)
    requires
        i <= h.len(),
    ensures
        r == kw_at(h@, i as int, w@),
{
    if w.len() > h.len() - i {
        return false;
    }
    let mut k: usize = 0;
    while k < w.len()
        invariant
            k <= w.len(),
            i + w.len() <= h.len(),
            forall|j: int| 0 <= j < k ==> ascii_lower(#[trigger] h@[i + j]) == ascii_lower(w@[j]),
        decreases w.len() - k,
    {
        if to_ascii_lower(h[i + k]) != to_ascii_lower(w[k]) {
            return false;
        }
        k += 1;
    }
    true
}

fn find_kw_exec(h: &[u8], w: &[u8]) -> (r: Option<usize>)
    ensures
        r matches Some(i) ==> find_kw(h@, w@, 0) == Some(i as int) && i + w@.len() <= h@.len(),
        r is None ==> find_kw(h@, w@, 0) is None,
{
    let n = h.len();
    let mut idx: usize = 0;
    while idx <= n && w.len() <= n - idx
        invariant
            n == h@.len(),
            idx <= n + 1,
            find_kw(h@, w@, 0) == find_kw(h@, w@, idx as int),
        decreases n + 1 - idx,
    {
        if kw_at_exec(h, idx, w) {
            return Some(idx);
        }
        idx += 1;
    }
    None
}

fn skip_gap_exec(h: &[u8], from: usize) -> (r: usize)
    requires
        from <= h.len(),
    ensures
        r == skip_gap(h@, from as int),
        from <= r <= h.len(),
{
    let n = h.len();
    let mut i = from;
    while i < n && (h[i] == 0x20 || h[i] == 0x09 || h[i] == 0x0d || h[i] == 0x0a || h[i] == 0x3d)
        invariant
            n == h@.len(),
            from <= i <= n,
            skip_gap(h@, from as int) == skip_gap(h@, i as int),
        decreases n - i,
    {
        i += 1;
    }
    i
}

fn find_byte_exec(h: &[u8], q: u8, from: usize) -> (r: usize)
    requires
        from <= h.len(),
    ensures
        r == find_byte(h@, q, from as int),
        from <= r <= h.len(),
{
    let n = h.len();
    let mut e = from;
    while e < n && h[e] != q
        invariant
            n == h@.len(),
            from <= e <= n,
            find_byte(h@, q, from as int) == find_byte(h@, q, e as int),
        decreases n - e,
    {
        e += 1;
    }
    e
}

fn sniff_encoding_decl(b: &[u8]) -> (r: Option<XmlCharEncoding>)
    ensures
        r == sniff_spec(b@),
{
    let n: usize = if b.len() < 1024 { b.len() } else { 1024 };
    let h = &b[0..n];
    let w = "encoding".as_bytes();
    if n < 8 {
        return None;
    }
    let idx = match find_kw_exec(h, w) {
        Some(i) => i,
        None => {
            return None;
        },
    };
    let i = skip_gap_exec(h, idx + w.len());
    if i >= n || (h[i] != 0x22 && h[i] != 0x27) {
        return None;
    }
    let e = find_byte_exec(h, h[i], i + 1);
    if e >= n {
        return None;
    }
    let name = &h[i + 1..e];
    match crate::util::str_from_utf8(name) {
        None => None,
        Some(s) => {
            let enc = xml_parse_char_encoding(s);
            if enc == XmlCharEncoding::Error || enc == XmlCharEncoding::NoEncoding {
                None
            } else {
                Some(enc)
            }
        },
    }
}


/// What `b` decodes to in encoding `e`, `None` when it is undecodable in
/// `e` or `e` is not supported.
pub open spec fn decode_as(e: XmlCharEncoding, b: Seq<u8>) -> Option<Seq<char>> {
    match e {
        XmlCharEncoding::Iso8859_1 => Some(latin1_chars(b)),
        XmlCharEncoding::Utf16Le | XmlCharEncoding::Utf16 => utf16_chars(b, false),
        XmlCharEncoding::Utf16Be | XmlCharEncoding::Ucs2 => utf16_chars(b, true),
        XmlCharEncoding::Ucs4Be => ucs4_chars(b, (0, 1, 2, 3)),
        XmlCharEncoding::Ucs4Le => ucs4_chars(b, (3, 2, 1, 0)),
        XmlCharEncoding::Ucs4_2143 => ucs4_chars(b, (1, 0, 3, 2)),
        XmlCharEncoding::Ucs4_3412 => ucs4_chars(b, (2, 3, 0, 1)),
        XmlCharEncoding::Ebcdic => Some(full_table_chars(CP037_ALL@, b)),
        _ => match table_spec(e) {
            Some(t) => Some(eightbit_chars(t, b)),
            None => None,
        },
    }
}

/// Encodings whose bytes are handed to the parser unchanged.
pub open spec fn passes_through(e: XmlCharEncoding) -> bool {
    e == XmlCharEncoding::NoEncoding || e == XmlCharEncoding::Utf8 || e == XmlCharEncoding::Ascii
}

/// The gzip magic number.
pub open spec fn is_gzip(b: Seq<u8>) -> bool {
    b.len() >= 2 && b[0] == 0x1f && b[1] == 0x8b
}

/// Length of a leading UTF-8 byte-order mark.
pub open spec fn bom_len(b: Seq<u8>) -> int {
    if b.len() >= 3 && b[0] == 0xef && b[1] == 0xbb && b[2] == 0xbf {
        3
    } else {
        0
    }
}

/// The encoding a document is read in: the caller's hint when it names a
/// known encoding, else what the first bytes show; a document that looks
/// like UTF-8 (or nothing) defers to its own `encoding="..."` declaration.
pub open spec fn chosen_encoding(b: Seq<u8>, hint: Option<Seq<char>>) -> XmlCharEncoding {
    let e0 = match hint {
        Some(h) => {
            let e = parse_char_encoding_spec(h);
            if e == XmlCharEncoding::Error || e == XmlCharEncoding::NoEncoding {
                detect_spec(b)
            } else {
                e
            }
        },
        None => detect_spec(b),
    };
    if e0 == XmlCharEncoding::NoEncoding || e0 == XmlCharEncoding::Utf8 {
        match sniff_spec(b) {
            Some(d) => if d != XmlCharEncoding::Utf8 && d != XmlCharEncoding::Ascii {
                d
            } else {
                e0
            },
            None => e0,
        }
    } else {
        e0
    }
}

/// The input as the parser sees it: the caller's bytes from an offset on, or
/// a converted copy.
pub enum Decoded {
    Same(usize),
    Owned(Vec<u8>),
}

/// The outcome `convert_input` promises for `b` read with `hint`.
pub open spec fn decoded_ok(b: Seq<u8>, hint: Option<Seq<char>>, r: Result<(Decoded, Option<&str>), XmlError>) -> bool {
    if is_gzip(b) {
        r matches Err(e) && e.code == XML_ERR_UNSUPPORTED_ENCODING
    } else {
        let e = chosen_encoding(b, hint);
        if passes_through(e) {
            &&& r matches Ok((d, n))
            &&& d matches Decoded::Same(s) && s == bom_len(b)
            &&& n matches Some(x) ==> encoding_name_spec(e) == Some(x@)
            &&& n is None ==> encoding_name_spec(e) is None
        } else {
            match decode_as(e, b) {
                Some(cs) => {
                    &&& r matches Ok((d, n))
                    &&& d matches Decoded::Owned(v) && v@ == encode_utf8(cs)
                    &&& n matches Some(x) ==> encoding_name_spec(e) == Some(x@)
                    &&& n is None ==> encoding_name_spec(e) is None
                },
                None => r matches Err(x) && x.code == XML_ERR_UNSUPPORTED_ENCODING,
            }
        }
    }
}

fn string_to_bytes(s: &String) -> (r: Vec<u8>)
    ensures
        r@ == encode_utf8(s@),
{
    let mut v: Vec<u8> = Vec::new();
    push_bytes(&mut v, s.as_str().as_bytes());
    v
}

fn unsupported(e: XmlCharEncoding, what: &str) -> (r: XmlError)
    ensures
        r.code == XML_ERR_UNSUPPORTED_ENCODING,
{
    let mut m = String::from_str(what);
    match xml_get_char_encoding_name(e) {
        Some(n) => m.append(n),
        None => m.append("?"),
    }
    XmlError::new(XML_ERR_UNSUPPORTED_ENCODING, m, 0, 0)
}

/// Decide how to read `input` and convert it to UTF-8 when it is not.
pub fn convert_input(input: &[u8], hint: Option<&str>) -> (r: Result<(Decoded, Option<&'static str>), XmlError>)
    ensures
        decoded_ok(input@, crate::tree::opt_str_view(hint), r),
{
    if input.len() >= 2 && input[0] == 0x1f && input[1] == 0x8b {
        return Err(XmlError::new(
            XML_ERR_UNSUPPORTED_ENCODING,
            String::from_str("gzip input requires the unzip feature / XML_PARSE_UNZIP"),
            0,
            0,
        ));
    }
    let e0 = match hint {
        Some(h) => {
            let e = xml_parse_char_encoding(h);
            if e == XmlCharEncoding::Error || e == XmlCharEncoding::NoEncoding {
                xml_detect_char_encoding(input)
            } else {
                e
            }
        },
        None => xml_detect_char_encoding(input),
    };
    let mut enc = e0;
    if e0 == XmlCharEncoding::NoEncoding || e0 == XmlCharEncoding::Utf8 {
        if let Some(d) = sniff_encoding_decl(input) {
            if d != XmlCharEncoding::Utf8 && d != XmlCharEncoding::Ascii {
                enc = d;
            }
        }
    }
    assert(enc == chosen_encoding(input@, crate::tree::opt_str_view(hint)));
    let name = xml_get_char_encoding_name(enc);
    if enc == XmlCharEncoding::NoEncoding || enc == XmlCharEncoding::Utf8 || enc == XmlCharEncoding::Ascii {
        let s: usize = if input.len() >= 3 && input[0] == 0xef && input[1] == 0xbb && input[2] == 0xbf {
            3
        } else {
            0
        };
        return Ok((Decoded::Same(s), name));
    }
    let converted: Option<String> = match enc {
        XmlCharEncoding::Iso8859_1 => Some(latin1_to_utf8(input)),
        XmlCharEncoding::Utf16Le | XmlCharEncoding::Utf16 => utf16_to_utf8(input, false),
        XmlCharEncoding::Utf16Be | XmlCharEncoding::Ucs2 => utf16_to_utf8(input, true),
        XmlCharEncoding::Ucs4Be => ucs4_to_utf8(input, (0, 1, 2, 3)),
        XmlCharEncoding::Ucs4Le => ucs4_to_utf8(input, (3, 2, 1, 0)),
        XmlCharEncoding::Ucs4_2143 => ucs4_to_utf8(input, (1, 0, 3, 2)),
        XmlCharEncoding::Ucs4_3412 => ucs4_to_utf8(input, (2, 3, 0, 1)),
        XmlCharEncoding::Ebcdic => Some(full_table_to_utf8(input, CP037_ALL)),
        _ => match table_for(enc) {
            Some(t) => Some(eightbit_to_utf8(input, t)),
            None => {
                return Err(unsupported(enc, "Unsupported encoding "));
            },
        },
    };
    match converted {
        Some(s) => Ok((Decoded::Owned(string_to_bytes(&s)), name)),
        None => {
            let what = if enc == XmlCharEncoding::Utf16Le || enc == XmlCharEncoding::Utf16
                || enc == XmlCharEncoding::Utf16Be || enc == XmlCharEncoding::Ucs2 {
                "Invalid UTF-16"
            } else {
                "Invalid UCS-4"
            };
            Err(XmlError::new(XML_ERR_UNSUPPORTED_ENCODING, String::from_str(what), 0, 0))
        },
    }
}

/// Decoding `input` (read with the `hint`) to UTF-8 fails: it is gzip data,
/// or not well formed in the encoding chosen for it.
pub open spec fn conversion_fails(input: Seq<u8>, hint: Option<Seq<char>>) -> bool {
    ||| is_gzip(input)
    ||| {
        let e = chosen_encoding(input, hint);
        !passes_through(e) && decode_as(e, input) is None
    }
}

/// `xmlCharEncodingToUtf8` for a whole document: the bytes as UTF-8 and the
/// name of the encoding they were read in. `hint` is the `encoding` argument
/// of `xmlReadMemory`.
pub fn xml_convert_to_utf8(input: &[u8], hint: Option<&str>) -> (r: Result<(Vec<u8>, Option<String>), XmlError>)
    ensures
        is_gzip(input@) ==> (r matches Err(x) && x.code == XML_ERR_UNSUPPORTED_ENCODING),
        !is_gzip(input@) ==> ({
            let e = chosen_encoding(input@, crate::tree::opt_str_view(hint));
            &&& passes_through(e) ==> (r matches Ok((v, n)) && v@ == input@.subrange(bom_len(input@), input@.len() as int)
                && crate::tree::opt_string_view(n) == encoding_name_spec(e))
            &&& !passes_through(e) ==> match decode_as(e, input@) {
                Some(cs) => (r matches Ok((v, n)) && v@ == encode_utf8(cs)
                    && crate::tree::opt_string_view(n) == encoding_name_spec(e)),
                None => (r matches Err(x) && x.code == XML_ERR_UNSUPPORTED_ENCODING),
            }
        }),
{
    match convert_input(input, hint) {
        Err(e) => Err(e),
        Ok((d, n)) => {
            let name = match n {
                Some(x) => Some(String::from_str(x)),
                None => None,
            };
            match d {
                Decoded::Same(s) => Ok((crate::util::slice_vec(input, s, input.len()), name)),
                Decoded::Owned(v) => Ok((v, name)),
            }
        },
    }
}

} // verus!
