//! The XML 1.0 parser: a document from bytes, with namespaces, an internal
//! DTD subset, entity expansion and SAX events.

use vstd::prelude::*;
use crate::chvalid::{xml_is_char, xml_is_name_char, xml_is_name_start_char, is_xml_char};
use crate::error::{
    XmlError, XML_ERR_OK, XML_ERR_INTERNAL_ERROR, XML_ERR_NO_MEMORY, XML_ERR_DOCUMENT_START, XML_ERR_DOCUMENT_EMPTY, XML_ERR_DOCUMENT_END, XML_ERR_INVALID_HEX_CHARREF, XML_ERR_INVALID_DEC_CHARREF, XML_ERR_INVALID_CHARREF, XML_ERR_INVALID_CHAR, XML_ERR_ENTITYREF_NO_NAME, XML_ERR_ENTITYREF_SEMICOL_MISSING, XML_ERR_UNDECLARED_ENTITY, XML_ERR_UNSUPPORTED_ENCODING, XML_ERR_LT_IN_ATTRIBUTE, XML_ERR_ATTRIBUTE_NOT_STARTED, XML_ERR_ATTRIBUTE_WITHOUT_VALUE, XML_ERR_ATTRIBUTE_REDEFINED, XML_ERR_LITERAL_NOT_FINISHED, XML_ERR_COMMENT_NOT_FINISHED, XML_ERR_PI_NOT_FINISHED, XML_ERR_XMLDECL_NOT_FINISHED, XML_ERR_MISPLACED_CDATA_END, XML_ERR_CDATA_NOT_FINISHED, XML_ERR_RESERVED_XML_NAME, XML_ERR_SPACE_REQUIRED, XML_ERR_NAME_REQUIRED, XML_ERR_GT_REQUIRED, XML_ERR_LT_REQUIRED, XML_ERR_EQUAL_REQUIRED, XML_ERR_TAG_NAME_MISMATCH, XML_ERR_TAG_NOT_FINISHED, XML_ERR_ENCODING_NAME, XML_ERR_HYPHEN_IN_COMMENT, XML_ERR_EXTRA_CONTENT, XML_WAR_NS_URI_RELATIVE, XML_NS_ERR_XML_NAMESPACE, XML_NS_ERR_UNDEFINED_NAMESPACE, XML_NS_ERR_QNAME, XML_NS_ERR_ATTRIBUTE_REDEFINED,
};
use crate::sax::{SaxAttr, SaxEvent, SaxHandler, NullSax};
use crate::tree::{NodeId, NodeKind, XmlDoc, XmlDtd, AttrDefault};
use crate::util::{push_char, char_from_u32, str_eq, starts_with_at};

verus! {

/// libxml2 `xmlParserOption` bits (numeric identity).
pub const XML_PARSE_RECOVER: i32 = 1;
pub const XML_PARSE_NOENT: i32 = 2;
pub const XML_PARSE_DTDLOAD: i32 = 4;
pub const XML_PARSE_DTDATTR: i32 = 8;
pub const XML_PARSE_DTDVALID: i32 = 16;
pub const XML_PARSE_NOERROR: i32 = 32;
pub const XML_PARSE_NOWARNING: i32 = 64;
pub const XML_PARSE_PEDANTIC: i32 = 128;
pub const XML_PARSE_NOBLANKS: i32 = 256;
pub const XML_PARSE_SAX1: i32 = 512;
pub const XML_PARSE_XINCLUDE: i32 = 1024;
pub const XML_PARSE_NONET: i32 = 2048;
pub const XML_PARSE_NODICT: i32 = 4096;
pub const XML_PARSE_NSCLEAN: i32 = 8192;
pub const XML_PARSE_NOCDATA: i32 = 16384;
pub const XML_PARSE_NOXINCNODE: i32 = 32768;
pub const XML_PARSE_COMPACT: i32 = 65536;
pub const XML_PARSE_OLD10: i32 = 131072;
pub const XML_PARSE_NOBASEFIX: i32 = 262144;
pub const XML_PARSE_HUGE: i32 = 524288;
pub const XML_PARSE_OLDSAX: i32 = 1048576;
pub const XML_PARSE_IGNORE_ENC: i32 = 2097152;
pub const XML_PARSE_BIG_LINES: i32 = 4194304;
pub const XML_PARSE_NO_XXE: i32 = 8388608;
pub const XML_PARSE_UNZIP: i32 = 16777216;
pub const XML_PARSE_NO_SYS_CATALOG: i32 = 33554432;
pub const XML_PARSE_CATALOG_PI: i32 = 67108864;
pub const XML_PARSE_SKIP_IDS: i32 = 134217728;
/// Deliver SAX events without building a document tree: character data,
/// CDATA, comments, processing instructions and attributes create no nodes.
/// An extension of this library, not a libxml2 flag.
pub const XML_PARSE_NO_TREE: i32 = 1073741824;

/// Element nesting limit, and the one `XML_PARSE_HUGE` raises it to.
pub const MAX_DEPTH: u32 = 5000;
pub const MAX_DEPTH_HUGE: u32 = 1000000;
/// Name and text length limits unless `XML_PARSE_HUGE`.
pub const MAX_NAME: usize = 50000;
pub const MAX_TEXT: usize = 10000000;
/// Entity nesting limit.
pub const MAX_ENTITY_DEPTH: u32 = 40;
/// The arena never grows past this many nodes, so ids stay `u32`.
pub const MAX_NODES: usize = 4294967040;

/// The option bit `bit` is set in `options`.
pub open spec fn has_opt(options: i32, bit: i32) -> bool {
    options & bit != 0
}

fn opt(options: i32, bit: i32) -> (r: bool)
    ensures
        r == has_opt(options, bit),
{
    options & bit != 0
}

/// Safe defaults: no network, no XXE.
pub fn default_parse_options() -> (r: i32)
    ensures
        r == XML_PARSE_NONET | XML_PARSE_NO_XXE,
{
    XML_PARSE_NONET | XML_PARSE_NO_XXE
}

/// `xmlInitParser`: nothing to set up.
pub fn xml_init_parser() {
}

/// `xmlCleanupParser`: nothing to tear down.
pub fn xml_cleanup_parser() {
}

/// A continuation byte of UTF-8.
pub open spec fn utf8_cont(b: u8) -> bool {
    0x80 <= b <= 0xbf
}

/// The character of scalar value `v`, taking `n` bytes, when `v` is one.
pub open spec fn scalar_of(v: int, n: usize) -> Option<(char, usize)> {
    if 0 <= v <= 0x10ffff && !(0xd800 <= v <= 0xdfff) {
        Some((v as char, n))
    } else {
        None
    }
}

/// The well-formed UTF-8 sequence that starts at `pos` of `b`, as its
/// character and length; `None` where the bytes there are no such sequence.
pub open spec fn utf8_at(b: Seq<u8>, pos: int) -> Option<(char, usize)> {
    let b0 = b[pos];
    let avail = b.len() - pos;
    if b0 < 0x80 {
        Some((b0 as char, 1usize))
    } else if 0xc2 <= b0 <= 0xdf {
        if avail < 2 || !utf8_cont(b[pos + 1]) {
            None
        } else {
            scalar_of((b0 - 0xc0) * 64 + (b[pos + 1] - 0x80), 2)
        }
    } else if 0xe0 <= b0 <= 0xef {
        if avail < 3 || !utf8_cont(b[pos + 1]) || !utf8_cont(b[pos + 2]) || (b0 == 0xe0 && b[pos + 1] < 0xa0) {
            None
        } else {
            scalar_of((b0 - 0xe0) * 4096 + (b[pos + 1] - 0x80) * 64 + (b[pos + 2] - 0x80), 3)
        }
    } else if 0xf0 <= b0 <= 0xf4 {
        if avail < 4 || !utf8_cont(b[pos + 1]) || !utf8_cont(b[pos + 2]) || !utf8_cont(b[pos + 3])
            || (b0 == 0xf0 && b[pos + 1] < 0x90) {
            None
        } else {
            scalar_of((b0 - 0xf0) * 262144 + (b[pos + 1] - 0x80) * 4096 + (b[pos + 2] - 0x80) * 64 + (b[pos + 3] - 0x80), 4)
        }
    } else {
        None
    }
}

/// The bytes of `-->`.
pub open spec fn comment_close() -> Seq<u8> {
    seq![0x2du8, 0x2du8, 0x3eu8]
}

/// A comment body read from `i` on, up to `-->`: the text and the position
/// after the close; `None` when it holds `--`, a character that is no XML
/// character or no UTF-8, or never closes.
pub open spec fn comment_from(b: Seq<u8>, i: int) -> Option<(Seq<char>, int)>
    decreases b.len() - i,
{
    if i < 0 {
        None
    } else if crate::util::bytes_at(b, i, comment_close()) {
        Some((Seq::<char>::empty(), i + 3))
    } else if i >= b.len() || crate::util::bytes_at(b, i, seq![0x2du8, 0x2du8]) {
        None
    } else {
        match xml_char_at(b, i) {
            Some(Some((c, n))) => if n < 1 || !crate::chvalid::is_xml_char(c as u32) {
                None
            } else {
                match comment_from(b, i + n) {
                    Some((t, e)) => Some((seq![c] + t, e)),
                    None => None,
                }
            },
            _ => None,
        }
    }
}

/// A CDATA section body read from `i` on, up to `]]>`: the text and the
/// position after the close; `None` when it holds a character that is no
/// XML character or no UTF-8, or never closes.
pub open spec fn cdata_from(b: Seq<u8>, i: int) -> Option<(Seq<char>, int)>
    decreases b.len() - i,
{
    if i < 0 {
        None
    } else if crate::util::bytes_at(b, i, seq![0x5du8, 0x5du8, 0x3eu8]) {
        Some((Seq::<char>::empty(), i + 3))
    } else if i >= b.len() {
        None
    } else {
        match xml_char_at(b, i) {
            Some(Some((c, n))) => if n < 1 || !crate::chvalid::is_xml_char(c as u32) {
                None
            } else {
                match cdata_from(b, i + n) {
                    Some((t, e)) => Some((seq![c] + t, e)),
                    None => None,
                }
            },
            _ => None,
        }
    }
}

/// The first position at or after `i` that holds no XML whitespace.
pub open spec fn space_run_end(b: Seq<u8>, i: int) -> int
    decreases b.len() - i,
{
    if 0 <= i < b.len() && is_space(b[i]) { space_run_end(b, i + 1) } else { i }
}

/// A processing instruction target that is `xml` in any case.
pub open spec fn xml_target(t: Seq<char>) -> bool {
    let e = vstd::utf8::encode_utf8(t);
    &&& e.len() == 3
    &&& crate::util::ascii_lower(e[0]) == 0x78
    &&& crate::util::ascii_lower(e[1]) == 0x6d
    &&& crate::util::ascii_lower(e[2]) == 0x6c
}

/// Processing instruction data read from `i` on, up to `?>`: the text and
/// the position after the close.
pub open spec fn pi_data_from(b: Seq<u8>, i: int) -> Option<(Seq<char>, int)>
    decreases b.len() - i,
{
    if i < 0 {
        None
    } else if crate::util::bytes_at(b, i, seq![0x3fu8, 0x3eu8]) {
        Some((Seq::<char>::empty(), i + 2))
    } else if i >= b.len() {
        None
    } else {
        match xml_char_at(b, i) {
            Some(Some((c, n))) => if n < 1 || !crate::chvalid::is_xml_char(c as u32) {
                None
            } else {
                match pi_data_from(b, i + n) {
                    Some((t, e)) => Some((seq![c] + t, e)),
                    None => None,
                }
            },
            _ => None,
        }
    }
}

/// What follows a processing instruction's target at `e1`: its data (none
/// when `?>` follows the target at once) and the position after `?>`.
pub open spec fn pi_rest(b: Seq<u8>, e1: int) -> Option<(Option<Seq<char>>, int)> {
    if 0 <= e1 < b.len() && is_space(b[e1]) {
        match pi_data_from(b, space_run_end(b, e1)) {
            Some((t, e)) => Some((Some(t), e)),
            None => None,
        }
    } else if crate::util::bytes_at(b, e1, seq![0x3fu8, 0x3eu8]) {
        Some((None, e1 + 2))
    } else {
        None
    }
}

/// The character the parser reads at `pos` (a carriage return, with a line
/// feed after it or not, reads as one line feed); `Some(None)` at the end,
/// `None` where the bytes are no UTF-8.
pub open spec fn xml_char_at(b: Seq<u8>, pos: int) -> Option<Option<(char, usize)>> {
    if pos >= b.len() {
        Some(None)
    } else if b[pos] == 0x0d {
        Some(Some(('\n', if pos + 1 < b.len() && b[pos + 1] == 0x0a { 2usize } else { 1usize })))
    } else {
        match utf8_at(b, pos) {
            Some(x) => Some(Some(x)),
            None => None,
        }
    }
}

/// A quoted literal read from `i` on, up to its closing quote `q`: the
/// text and the position after the quote; `None` when the bytes are no
/// UTF-8, a character is no XML character, or the quote never closes.
pub open spec fn literal_from(b: Seq<u8>, i: int, q: u8) -> Option<(Seq<char>, int)>
    decreases b.len() - i,
{
    if i < 0 || i >= b.len() {
        None
    } else {
        match xml_char_at(b, i) {
            Some(Some((c, n))) => if n < 1 {
                None
            } else if c as u32 == q as u32 {
                Some((Seq::<char>::empty(), i + n))
            } else if !crate::chvalid::is_xml_char(c as u32) {
                None
            } else {
                match literal_from(b, i + n, q) {
                    Some((t, e)) => Some((seq![c] + t, e)),
                    None => None,
                }
            },
            _ => None,
        }
    }
}

/// The rest of a name from `j` on, its first character having ended at
/// `s1`: the characters and where they end; `None` when the bytes are no
/// UTF-8 or, unless `huge`, the name grows past `MAX_NAME` bytes.
pub open spec fn name_rest(b: Seq<u8>, s1: int, j: int, old10: bool, huge: bool) -> Option<(Seq<char>, int)>
    decreases b.len() - j,
{
    if j < 0 {
        None
    } else {
        match xml_char_at(b, j) {
            None => None,
            Some(None) => Some((Seq::<char>::empty(), j)),
            Some(Some((c, n))) => if !crate::chvalid::is_name_char(c as u32, old10) {
                Some((Seq::<char>::empty(), j))
            } else if j - s1 >= MAX_NAME && !huge {
                None
            } else if n < 1 || j >= b.len() {
                None
            } else {
                match name_rest(b, s1, j + n, old10, huge) {
                    Some((t, e)) => Some((seq![c] + t, e)),
                    None => None,
                }
            },
        }
    }
}

/// The name the parser reads at `s`: its characters and where it ends.
pub open spec fn name_read(b: Seq<u8>, s: int, old10: bool, huge: bool) -> Option<(Seq<char>, int)> {
    match xml_char_at(b, s) {
        Some(Some((c, n))) => if crate::chvalid::is_name_start(c as u32, old10) && n >= 1 {
            match name_rest(b, s + n, s + n, old10, huge) {
                Some((t, e)) => Some((seq![c] + t, e)),
                None => None,
            }
        } else {
            None
        },
        _ => None,
    }
}

/// Where the name that starts at `start` ends, scanning on from `j`: the
/// first character is a name start character, the others name characters.
pub open spec fn name_end_from(b: Seq<u8>, start: int, j: int, old10: bool) -> int
    decreases b.len() - j,
{
    if j < start || j >= b.len() {
        j
    } else {
        match utf8_at(b, j) {
            Some((c, n)) => {
                let ok = if j == start {
                    crate::chvalid::is_name_start(c as u32, old10)
                } else {
                    crate::chvalid::is_name_char(c as u32, old10)
                };
                if ok && n >= 1 {
                    name_end_from(b, start, j + n, old10)
                } else {
                    j
                }
            },
            None => j,
        }
    }
}

/// Where the run of (XML 1.0 fifth edition) name characters from `j` ends.
pub open spec fn name_chars_end(b: Seq<u8>, j: int) -> int
    decreases b.len() - j,
{
    if j < 0 || j >= b.len() {
        j
    } else {
        match utf8_at(b, j) {
            Some((c, n)) => if crate::chvalid::is_name_char(c as u32, false) && n >= 1 {
                name_chars_end(b, j + n)
            } else {
                j
            },
            None => j,
        }
    }
}

/// An ASCII letter.
pub open spec fn ascii_letter(x: u8) -> bool {
    (0x41 <= x <= 0x5a) || (0x61 <= x <= 0x7a)
}

/// Where the run of ASCII letters from `j` ends.
pub open spec fn letters_end(b: Seq<u8>, j: int) -> int
    decreases b.len() - j,
{
    if j < 0 || j >= b.len() || !ascii_letter(b[j]) {
        j
    } else {
        letters_end(b, j + 1)
    }
}

/// The bytes `b[i..e]` read as characters, one per byte.
pub open spec fn ascii_text(b: Seq<u8>, i: int, e: int) -> Seq<char> {
    b.subrange(i, e).map_values(|x: u8| x as char)
}

/// `b` holds, from `p` on, an empty-element tag whose name is a run of
/// ASCII letters (shorter than the name limit): `<name/>`.
pub open spec fn empty_tag_at(b: Seq<u8>, p: int) -> bool {
    let e = letters_end(b, p + 1);
    &&& 0 <= p < b.len()
    &&& b[p] == 0x3c
    &&& e > p + 1
    &&& e + 1 < b.len()
    &&& b[e] == 0x2f
    &&& b[e + 1] == 0x3e
    &&& e - (p + 1) < MAX_NAME
}

/// The cursor of `b` stands at its end, or at a `<` that does not open a
/// comment, processing instruction or declaration.
pub open spec fn at_markup_start(b: Seq<u8>, p: int) -> bool {
    ||| p == b.len()
    ||| (0 <= p && p + 1 < b.len() && b[p] == 0x3c && b[p + 1] != 0x21 && b[p + 1] != 0x3f)
}

/// The bytes of the ASCII literals the prolog looks for.
proof fn lemma_prolog_literals()
    ensures
        vstd::utf8::encode_utf8("<!--"@) == seq![0x3cu8, 0x21u8, 0x2du8, 0x2du8],
        vstd::utf8::encode_utf8("<?"@) == seq![0x3cu8, 0x3fu8],
        vstd::utf8::encode_utf8("<?xml"@) == seq![0x3cu8, 0x3fu8, 0x78u8, 0x6du8, 0x6cu8],
        vstd::utf8::encode_utf8("<!DOCTYPE"@) == seq![0x3cu8, 0x21u8, 0x44u8, 0x4fu8, 0x43u8, 0x54u8, 0x59u8, 0x50u8, 0x45u8],
        vstd::utf8::encode_utf8("\u{feff}"@)[0] == 0xefu8,
{
    reveal_strlit("<!--");
    reveal_strlit("<?");
    reveal_strlit("<?xml");
    reveal_strlit("<!DOCTYPE");
    reveal_strlit("\u{feff}");
    crate::util::lemma_encode_ascii("<!--"@);
    crate::util::lemma_encode_ascii("<?"@);
    crate::util::lemma_encode_ascii("<?xml"@);
    crate::util::lemma_encode_ascii("<!DOCTYPE"@);
    assert(vstd::utf8::encode_utf8("<!--"@) =~= seq![0x3cu8, 0x21u8, 0x2du8, 0x2du8]);
    assert(vstd::utf8::encode_utf8("<?"@) =~= seq![0x3cu8, 0x3fu8]);
    assert(vstd::utf8::encode_utf8("<?xml"@) =~= seq![0x3cu8, 0x3fu8, 0x78u8, 0x6du8, 0x6cu8]);
    assert(vstd::utf8::encode_utf8("<!DOCTYPE"@) =~= seq![0x3cu8, 0x21u8, 0x44u8, 0x4fu8, 0x43u8, 0x54u8, 0x59u8, 0x50u8, 0x45u8]);
    let v: u32 = 0xfeff;
    assert(vstd::utf8::leading_byte_width_3(v) == 0xefu8) by (bit_vector)
        requires
            v == 0xfeff,
    ;
    assert("\u{feff}"@[0] as u32 == v);
    assert("\u{feff}"@.drop_first() =~= Seq::<char>::empty());
}

/// `d`'s root is an element named `name`, the node right after the
/// document node.
pub open spec fn lone_element_doc(d: XmlDoc, name: Seq<char>) -> bool {
    &&& d.nodes().len() >= 2
    &&& d.root() == Some(NodeId(1))
    &&& d.nodes()[1].kind == NodeKind::Element
    &&& d.nodes()[1].name@ == name
}

/// A byte that stands for itself in character data: a tab, a line feed or
/// printable ASCII other than `<`, `&` and `]`.
pub open spec fn plain_text_byte(x: u8) -> bool {
    (x == 0x09 || x == 0x0a || (0x20 <= x < 0x7f)) && x != 0x3c && x != 0x26 && x != 0x5d
}

/// Character data from `i` up to an end tag `</`, made of plain bytes and
/// character references: the code points of its text and where the end tag
/// starts; `None` for anything else.
pub open spec fn text_run(b: Seq<u8>, i: int) -> Option<(Seq<u32>, int)>
    decreases b.len() - i,
{
    if i < 0 || i >= b.len() {
        None
    } else if i + 1 < b.len() && b[i] == 0x3c && b[i + 1] == 0x2f {
        Some((Seq::empty(), i))
    } else if plain_text_byte(b[i]) {
        match text_run(b, i + 1) {
            Some((t, e)) => Some((seq![b[i] as u32] + t, e)),
            None => None,
        }
    } else if b[i] == 0x26 && i + 1 < b.len() && b[i + 1] == 0x23 && cref_ok(b, i + 2) && i < cref_end(b, i + 2)
        <= b.len() {
        match text_run(b, cref_end(b, i + 2)) {
            Some((t, e)) => Some((seq![cref_value(b, i + 2) as u32] + t, e)),
            None => None,
        }
    } else {
        None
    }
}

/// `b` does not continue with `lit` at `p` when their first bytes differ.
proof fn lemma_not_at(b: Seq<u8>, p: int, lit: Seq<u8>)
    requires
        0 <= p < b.len(),
        lit.len() > 0,
        b[p] != lit[0],
    ensures
        !crate::util::bytes_at(b, p, lit),
{
    if crate::util::bytes_at(b, p, lit) {
        assert(b.subrange(p, p + lit.len())[0] == b[p]);
    }
}

/// One step of a text run.
proof fn lemma_text_run_step(b: Seq<u8>, i: int)
    requires
        text_run(b, i) is Some,
    ensures
        0 <= i < b.len(),
        text_run(b, i).unwrap().1 == i <==> (i + 1 < b.len() && b[i] == 0x3c && b[i + 1] == 0x2f),
        text_run(b, i).unwrap().1 == i ==> text_run(b, i).unwrap().0.len() == 0,
        text_run(b, i).unwrap().1 != i ==> b[i] != 0x3c && b[i] != 0x5d && (plain_text_byte(b[i]) || b[i] == 0x26),
        text_run(b, i).unwrap().1 != i && plain_text_byte(b[i]) ==> text_run(b, i + 1) is Some
            && text_run(b, i).unwrap().0 == seq![b[i] as u32] + text_run(b, i + 1).unwrap().0
            && text_run(b, i + 1).unwrap().1 == text_run(b, i).unwrap().1,
        text_run(b, i).unwrap().1 != i && !plain_text_byte(b[i]) ==> {
            &&& b[i] == 0x26 && i + 1 < b.len() && b[i + 1] == 0x23 && cref_ok(b, i + 2)
            &&& i < cref_end(b, i + 2) <= b.len()
            &&& text_run(b, cref_end(b, i + 2)) is Some
            &&& text_run(b, i).unwrap().0 == seq![cref_value(b, i + 2) as u32] + text_run(b, cref_end(b, i + 2)).unwrap().0
            &&& text_run(b, cref_end(b, i + 2)).unwrap().1 == text_run(b, i).unwrap().1
        },
    decreases b.len() - i,
{
    if !(i + 1 < b.len() && b[i] == 0x3c && b[i + 1] == 0x2f) {
        if plain_text_byte(b[i]) {
            lemma_text_run_end_after(b, i + 1);
        } else {
            lemma_text_run_end_after(b, cref_end(b, i + 2));
        }
    }
}

/// A text run ends no earlier than it starts.
proof fn lemma_text_run_end_after(b: Seq<u8>, i: int)
    requires
        text_run(b, i) is Some,
    ensures
        text_run(b, i).unwrap().1 >= i,
    decreases b.len() - i,
{
    if !(i + 1 < b.len() && b[i] == 0x3c && b[i + 1] == 0x2f) {
        if plain_text_byte(b[i]) {
            lemma_text_run_end_after(b, i + 1);
        } else {
            lemma_text_run_end_after(b, cref_end(b, i + 2));
        }
    }
}

/// The code points of `s`.
pub open spec fn code_points(s: Seq<char>) -> Seq<u32> {
    s.map_values(|c: char| c as u32)
}

/// UTF-8 spends at most four bytes on each character.
proof fn lemma_encode_len_le(s: Seq<char>)
    ensures
        vstd::utf8::encode_utf8(s).len() <= 4 * s.len(),
    decreases s.len(),
{
    if s.len() > 0 {
        lemma_encode_len_le(s.drop_first());
        assert(vstd::utf8::encode_scalar(s[0] as u32).len() <= 4);
    }
}

/// The bytes of the literals the content loop looks for.
proof fn lemma_content_literals()
    ensures
        vstd::utf8::encode_utf8("</"@) == seq![0x3cu8, 0x2fu8],
        vstd::utf8::encode_utf8("<![CDATA["@)[0] == 0x3cu8,
        vstd::utf8::encode_utf8("<![CDATA["@).len() == 9,
        vstd::utf8::encode_utf8("]]>"@) == seq![0x5du8, 0x5du8, 0x3eu8],
{
    reveal_strlit("</");
    reveal_strlit("<![CDATA[");
    reveal_strlit("]]>");
    crate::util::lemma_encode_ascii("</"@);
    crate::util::lemma_encode_ascii("<![CDATA["@);
    crate::util::lemma_encode_ascii("]]>"@);
    assert(vstd::utf8::encode_utf8("</"@) =~= seq![0x3cu8, 0x2fu8]);
    assert(vstd::utf8::encode_utf8("]]>"@) =~= seq![0x5du8, 0x5du8, 0x3eu8]);
}

/// `b` holds, from `p` on, a start tag without attributes whose name is a
/// run of ASCII letters (shorter than the name limit): `<name>`.
pub open spec fn open_tag_at(b: Seq<u8>, p: int) -> bool {
    let e = letters_end(b, p + 1);
    &&& 0 <= p < b.len()
    &&& b[p] == 0x3c
    &&& e > p + 1
    &&& e < b.len()
    &&& b[e] == 0x3e
    &&& e - (p + 1) < MAX_NAME
}

/// A document that is one empty element named by ASCII letters.
pub open spec fn lone_empty_element(b: Seq<u8>) -> bool {
    empty_tag_at(b, 0) && letters_end(b, 1) + 2 == b.len()
}

proof fn lemma_letters_end(b: Seq<u8>, j: int)
    requires
        0 <= j,
    ensures
        j <= letters_end(b, j),
        letters_end(b, j) <= b.len() || letters_end(b, j) == j,
        forall|k: int| j <= k < letters_end(b, j) ==> ascii_letter(#[trigger] b[k]),
        letters_end(b, j) < b.len() ==> !ascii_letter(b[letters_end(b, j)]),
    decreases b.len() - j,
{
    if j < b.len() && ascii_letter(b[j]) {
        lemma_letters_end(b, j + 1);
    }
}

/// A run of ASCII letters followed by `/` reads as a name.
proof fn lemma_name_rest_letters(b: Seq<u8>, s1: int, j: int, e: int, huge: bool)
    requires
        0 <= s1 <= j <= e,
        e < b.len(),
        b[e] == 0x2f || b[e] == 0x3e,
        e - s1 < MAX_NAME,
        forall|k: int| j <= k < e ==> ascii_letter(#[trigger] b[k]),
    ensures
        name_rest(b, s1, j, false, huge) == Some((ascii_text(b, j, e), e)),
    decreases e - j,
{
    if j == e {
        assert(ascii_text(b, j, e) =~= Seq::<char>::empty());
    } else {
        lemma_name_rest_letters(b, s1, j + 1, e, huge);
        assert(ascii_letter(b[j]));
        assert(seq![b[j] as char] + ascii_text(b, j + 1, e) =~= ascii_text(b, j, e));
    }
}

/// The name of an empty-element tag of ASCII letters.
proof fn lemma_name_read_letters(b: Seq<u8>, p: int, huge: bool)
    requires
        empty_tag_at(b, p) || open_tag_at(b, p),
    ensures
        name_read(b, p + 1, false, huge) == Some((ascii_text(b, p + 1, letters_end(b, p + 1)), letters_end(b, p + 1))),
{
    lemma_letters_end(b, p + 1);
    lemma_name_read_at(b, p + 1, huge);
}

/// A run of ASCII letters at `s`, ended by `/` or `>`, reads as a name.
proof fn lemma_name_read_at(b: Seq<u8>, s: int, huge: bool)
    requires
        0 <= s,
        letters_end(b, s) > s,
        letters_end(b, s) < b.len(),
        b[letters_end(b, s)] == 0x2f || b[letters_end(b, s)] == 0x3e,
        letters_end(b, s) - s < MAX_NAME,
    ensures
        name_read(b, s, false, huge) == Some((ascii_text(b, s, letters_end(b, s)), letters_end(b, s))),
{
    let e = letters_end(b, s);
    lemma_letters_end(b, s);
    assert(ascii_letter(b[s]));
    lemma_name_rest_letters(b, s + 1, s + 1, e, huge);
    assert(seq![b[s] as char] + ascii_text(b, s + 1, e) =~= ascii_text(b, s, e));
}

/// `b` holds at `c` the end tag `</name>` of the element whose name is
/// `b[ns..ne]`, a run of ASCII letters.
pub open spec fn close_tag_at(b: Seq<u8>, c: int, ns: int, ne: int) -> bool {
    let le = letters_end(b, c + 2);
    &&& 0 <= c && c + 1 < b.len()
    &&& b[c] == 0x3c
    &&& b[c + 1] == 0x2f
    &&& le - (c + 2) == ne - ns
    &&& b.subrange(c + 2, le) == b.subrange(ns, ne)
    &&& le < b.len()
    &&& b[le] == 0x3e
}

/// A document that is one element named by ASCII letters holding character
/// data (plain bytes and character references, at least one character).
pub open spec fn lone_text_element(b: Seq<u8>) -> bool {
    let e = letters_end(b, 1);
    &&& open_tag_at(b, 0)
    &&& text_run(b, e + 1) matches Some((t, c)) && t.len() > 0 && 4 * t.len() <= MAX_TEXT
        && close_tag_at(b, c, 1, e) && letters_end(b, c + 2) + 1 == b.len()
}

/// The code points of the text of a `lone_text_element` document.
pub open spec fn lone_text(b: Seq<u8>) -> Seq<u32> {
    text_run(b, letters_end(b, 1) + 1).unwrap().0
}

/// `d` is one element named `name` holding one text node whose code points
/// are `t`.
pub open spec fn text_element_doc(d: XmlDoc, name: Seq<char>, t: Seq<u32>) -> bool {
    &&& lone_element_doc(d, name)
    &&& d.nodes().len() >= 3
    &&& d.nodes()[2].kind == NodeKind::Text
    &&& code_points(d.nodes()[2].content@) == t
    &&& d.nodes()[2].parent == Some(NodeId(1))
}

/// The characters `s` encodes from byte `i` up to byte `e`, each read with
/// `utf8_at`; a byte that starts no scalar reads as U+FFFD.
pub open spec fn utf8_chars(s: Seq<u8>, i: int, e: int) -> Seq<char>
    decreases e - i,
{
    if i < 0 || i >= e || i >= s.len() {
        Seq::empty()
    } else {
        match utf8_at(s, i) {
            Some((c, n)) => if n < 1 {
                Seq::empty()
            } else if i + n >= e {
                seq![c]
            } else {
                seq![c] + utf8_chars(s, i + n, e)
            },
            None => if i + 1 >= e { seq!['\u{fffd}'] } else { seq!['\u{fffd}'] + utf8_chars(s, i + 1, e) },
        }
    }
}

/// The text of `b[from..to]`, decoded scalar by scalar.
pub(crate) fn chars_in(b: &[u8], from: usize, to: usize) -> (r: String)
    ensures
        r@ == utf8_chars(b@, from as int, to as int),
{
    let mut out = String::new();
    let mut j = from;
    while j < to && j < b.len()
        invariant
            out@ + utf8_chars(b@, j as int, to as int) == utf8_chars(b@, from as int, to as int),
        decreases b.len() - j,
    {
        let ghost o = out@;
        match decode_at(b, j) {
            Some((c, n)) => {
                push_char(&mut out, c);
                assert(o + utf8_chars(b@, j as int, to as int) =~= out@ + utf8_chars(b@, j + n, to as int));
                j = j + n;
            },
            None => {
                push_char(&mut out, '\u{fffd}');
                assert(o + utf8_chars(b@, j as int, to as int) =~= out@ + utf8_chars(b@, j + 1, to as int));
                j = j + 1;
            },
        }
    }
    assert(out@ + utf8_chars(b@, j as int, to as int) =~= out@);
    out
}

/// The UTF-8 scalar at `pos`: its character and byte length.
pub(crate) fn decode_at(input: &[u8], pos: usize) -> (r: Option<(char, usize)>)
    requires
        pos < input.len(),
    ensures
        r == utf8_at(input@, pos as int),
        r matches Some((c, n)) ==> 1 <= n <= 4 && pos + n <= input.len(),
        input[pos as int] < 0x80 ==> r == Some((input[pos as int] as char, 1usize)),
{
    let b0 = input[pos];
    if b0 < 0x80 {
        return Some((b0 as char, 1));
    }
    let avail = input.len() - pos;
    if 0xc2 <= b0 && b0 <= 0xdf {
        if avail < 2 {
            return None;
        }
        let b1 = input[pos + 1];
        if b1 < 0x80 || b1 > 0xbf {
            return None;
        }
        let v = (b0 as u32 - 0xc0) * 64 + (b1 as u32 - 0x80);
        match char_from_u32(v) {
            Some(c) => Some((c, 2)),
            None => None,
        }
    } else if 0xe0 <= b0 && b0 <= 0xef {
        if avail < 3 {
            return None;
        }
        let b1 = input[pos + 1];
        let b2 = input[pos + 2];
        if b1 < 0x80 || b1 > 0xbf || b2 < 0x80 || b2 > 0xbf {
            return None;
        }
        if b0 == 0xe0 && b1 < 0xa0 {
            return None;
        }
        let v = (b0 as u32 - 0xe0) * 4096 + (b1 as u32 - 0x80) * 64 + (b2 as u32 - 0x80);
        match char_from_u32(v) {
            Some(c) => Some((c, 3)),
            None => None,
        }
    } else if 0xf0 <= b0 && b0 <= 0xf4 {
        if avail < 4 {
            return None;
        }
        let b1 = input[pos + 1];
        let b2 = input[pos + 2];
        let b3 = input[pos + 3];
        if b1 < 0x80 || b1 > 0xbf || b2 < 0x80 || b2 > 0xbf || b3 < 0x80 || b3 > 0xbf {
            return None;
        }
        if b0 == 0xf0 && b1 < 0x90 {
            return None;
        }
        let v = (b0 as u32 - 0xf0) * 262144 + (b1 as u32 - 0x80) * 4096 + (b2 as u32 - 0x80) * 64 + (
        b3 as u32 - 0x80);
        match char_from_u32(v) {
            Some(c) => Some((c, 4)),
            None => None,
        }
    } else {
        None
    }
}

/// The cached root, when there is one, is an element.
pub open spec fn root_is_element(d: XmlDoc) -> bool {
    d.root() matches Some(r) ==> d.nodes()[r.0 as int].kind == NodeKind::Element
}

/// An element whose start tag has been read and whose end tag has not.
struct OpenElem {
    qname: String,
    elem: NodeId,
}

/// The parser over one buffer.
struct Parser<'a> {
    input: &'a [u8],
    pos: usize,
    line: u32,
    col: u32,
    options: i32,
    old10: bool,
    depth: u32,
    ns_stack: Vec<Vec<(Option<String>, String)>>,
    doc: XmlDoc,
    char_buf: String,
    no_tree: bool,
    recover: bool,
    entity_budget: usize,
    started: bool,
    record: bool,
    events: Vec<SaxEvent>,
}

impl<'a> Parser<'a> {
    /// The cursor is inside the input and the arena is well formed.
    spec fn inv(&self) -> bool {
        &&& self.pos <= self.input.len()
        &&& self.doc.wf()
        &&& root_is_element(self.doc)
    }

    /// `self` is `o` after some parsing: same input, cursor not moved back,
    /// no node removed.
    spec fn after(&self, o: Parser<'a>) -> bool {
        &&& self.input == o.input
        &&& self.pos >= o.pos
        &&& self.doc.nodes().len() >= o.doc.nodes().len()
        &&& (o.doc.root() is Some ==> self.doc.root() == o.doc.root())
    }

    fn err(&self, code: i32, msg: &str) -> (r: XmlError)
        ensures
            r.code == code,
    {
        XmlError::new(code, String::from_str(msg), self.line, self.col)
    }

    fn err_s(&self, code: i32, msg: String) -> (r: XmlError)
        ensures
            r.code == code,
    {
        XmlError::new(code, msg, self.line, self.col)
    }

    fn eof(&self) -> (r: bool)
        ensures
            r == (self.pos >= self.input.len()),
    {
        self.pos >= self.input.len()
    }

    fn peek_byte(&self) -> (r: Option<u8>)
        requires
            self.pos <= self.input.len(),
        ensures
            self.pos < self.input.len() ==> r == Some(self.input[self.pos as int]),
            self.pos >= self.input.len() ==> r is None,
    {
        if self.pos < self.input.len() {
            Some(self.input[self.pos])
        } else {
            None
        }
    }

    fn byte_at(&self, k: usize) -> (r: Option<u8>)
        requires
            self.pos <= self.input.len(),
        ensures
            self.pos + k < self.input.len() ==> r == Some(self.input[self.pos + k]),
            self.pos + k >= self.input.len() ==> r is None,
    {
        if k < self.input.len() - self.pos {
            Some(self.input[self.pos + k])
        } else {
            None
        }
    }

    fn looking_at(&self, s: &str) -> (r: bool)
        requires
            self.pos <= self.input.len(),
        ensures
            r ==> self.pos + vstd::utf8::encode_utf8(s@).len() <= self.input.len(),
            r == crate::util::bytes_at(self.input@, self.pos as int, vstd::utf8::encode_utf8(s@)),
    {
        starts_with_at(self.input, self.pos, s.as_bytes())
    }

    /// Consume `s` if the input continues with it.
    fn eat(&mut self, s: &str) -> (r: bool)
        requires
            old(self).inv(),
        ensures
            final(self).inv(),
            final(self).after(*old(self)),
            r ==> final(self).pos > old(self).pos,
            !r ==> *final(self) == *old(self),
            final(self).doc == old(self).doc,
            final(self).char_buf == old(self).char_buf,
            final(self).depth == old(self).depth,
            r == (vstd::utf8::encode_utf8(s@).len() > 0
                && crate::util::bytes_at(old(self).input@, old(self).pos as int, vstd::utf8::encode_utf8(s@))),
            r ==> final(self).pos == old(self).pos + vstd::utf8::encode_utf8(s@).len(),
            *final(self) == (Parser { pos: final(self).pos, col: final(self).col, ..*old(self) }),
    {
        let b = s.as_bytes();
        if b.len() > 0 && starts_with_at(self.input, self.pos, b) {
            self.skip_bytes(b.len());
            true
        } else {
            false
        }
    }

    fn advance_col(&mut self, n: usize)
        ensures
            *final(self) == (Parser { col: final(self).col, ..*old(self) }),
    {
        let k: u32 = if n < 0x1000_0000 { n as u32 } else { 0x1000_0000 };
        self.col = self.col.wrapping_add(k);
    }

    /// Move past `n` bytes that hold no line break.
    fn skip_bytes(&mut self, n: usize)
        requires
            old(self).inv(),
            old(self).pos + n <= old(self).input.len(),
        ensures
            final(self).inv(),
            final(self).pos == old(self).pos + n,
            final(self).after(*old(self)),
            final(self).doc == old(self).doc,
            final(self).char_buf == old(self).char_buf,
            final(self).depth == old(self).depth,
            *final(self) == (Parser { pos: final(self).pos, col: final(self).col, ..*old(self) }),
    {
        self.pos = self.pos + n;
        self.advance_col(n);
    }

    fn bump_byte(&mut self)
        requires
            old(self).inv(),
            old(self).pos < old(self).input.len(),
        ensures
            final(self).inv(),
            final(self).pos == old(self).pos + 1,
            *final(self) == (Parser { pos: final(self).pos, line: final(self).line, col: final(self).col, ..*old(self) }),
            final(self).after(*old(self)),
            final(self).doc == old(self).doc,
            final(self).char_buf == old(self).char_buf,
            final(self).depth == old(self).depth,
    {
        let b = self.input[self.pos];
        self.pos = self.pos + 1;
        if b == 0x0a {
            self.line = self.line.wrapping_add(1);
            self.col = 1;
        } else {
            self.col = self.col.wrapping_add(1);
        }
    }

    /// The next character, with `\r\n` and `\r` read as `\n` (XML 1.0
    /// 2.11), and the number of bytes it takes.
    fn next_char(&self) -> (r: Result<Option<(char, usize)>, XmlError>)
        requires
            self.inv(),
        ensures
            match xml_char_at(self.input@, self.pos as int) {
                Some(x) => r == Ok::<Option<(char, usize)>, XmlError>(x),
                None => r is Err,
            },
            r matches Ok(Some((c, n))) ==> 1 <= n <= 4 && self.pos + n <= self.input.len(),
            r matches Ok(None) ==> self.pos == self.input.len(),
            self.pos == self.input.len() ==> r == Ok::<Option<(char, usize)>, XmlError>(None),
    {
        if self.pos >= self.input.len() {
            return Ok(None);
        }
        let b = self.input[self.pos];
        if b == 0x0d {
            if self.input.len() - self.pos > 1 && self.input[self.pos + 1] == 0x0a {
                return Ok(Some(('\n', 2)));
            }
            return Ok(Some(('\n', 1)));
        }
        match decode_at(self.input, self.pos) {
            Some(x) => Ok(Some(x)),
            None => Err(self.err(XML_ERR_INVALID_CHAR, "Invalid UTF-8")),
        }
    }

    /// Consume a character read by `next_char`.
    fn bump_char(&mut self, c: char, n: usize)
        requires
            old(self).inv(),
            1 <= n <= 4,
            old(self).pos + n <= old(self).input.len(),
        ensures
            final(self).inv(),
            final(self).pos == old(self).pos + n,
            *final(self) == (Parser { pos: final(self).pos, line: final(self).line, col: final(self).col, ..*old(self) }),
            final(self).after(*old(self)),
            final(self).doc == old(self).doc,
            final(self).char_buf == old(self).char_buf,
            final(self).depth == old(self).depth,
    {
        self.pos = self.pos + n;
        if c == '\n' {
            self.line = self.line.wrapping_add(1);
            self.col = 1;
        } else {
            self.advance_col(n);
        }
    }

    /// Skip XML whitespace; reports whether there was any.
    fn skip_s(&mut self) -> (r: bool)
        requires
            old(self).inv(),
        ensures
            final(self).inv(),
            final(self).after(*old(self)),
            final(self).doc == old(self).doc,
            final(self).char_buf == old(self).char_buf,
            final(self).depth == old(self).depth,
            r == (final(self).pos > old(self).pos),
            forall|k: int| old(self).pos <= k < final(self).pos ==> is_space(#[trigger] old(self).input@[k]),
            final(self).pos == old(self).input@.len() || !is_space(old(self).input@[final(self).pos as int]),
            final(self).pos == space_run_end(old(self).input@, old(self).pos as int),
            *final(self) == (Parser { pos: final(self).pos, line: final(self).line, col: final(self).col, ..*old(self) }),
    {
        let start = self.pos;
        while self.pos < self.input.len() && is_space_byte(self.input[self.pos])
            invariant
                self.inv(),
                self.after(*old(self)),
                self.doc == old(self).doc,
                self.char_buf == old(self).char_buf,
                self.depth == old(self).depth,
                start == old(self).pos,
                forall|k: int| old(self).pos <= k < self.pos ==> is_space(#[trigger] old(self).input@[k]),
                space_run_end(old(self).input@, self.pos as int) == space_run_end(old(self).input@, old(self).pos as int),
                *self == (Parser { pos: self.pos, line: self.line, col: self.col, ..*old(self) }),
            decreases self.input.len() - self.pos,
        {
            self.bump_byte();
        }
        self.pos > start
    }

    fn expect_byte(&mut self, b: u8, code: i32, msg: &str) -> (r: Result<(), XmlError>)
        requires
            old(self).inv(),
        ensures
            final(self).inv(),
            final(self).after(*old(self)),
            final(self).doc == old(self).doc,
            final(self).char_buf == old(self).char_buf,
            final(self).depth == old(self).depth,
            r is Ok ==> final(self).pos == old(self).pos + 1,
            r matches Err(e) ==> e.code == code,
            r is Ok <==> (old(self).pos < old(self).input@.len() && old(self).input@[old(self).pos as int] == b),
            *final(self) == (Parser { pos: final(self).pos, line: final(self).line, col: final(self).col, ..*old(self) }),
    {
        if self.pos < self.input.len() && self.input[self.pos] == b {
            self.bump_byte();
            Ok(())
        } else {
            Err(self.err(code, msg))
        }
    }
}

/// XML whitespace: space, tab, line feed, carriage return.
pub open spec fn is_space(b: u8) -> bool {
    b == 0x20 || b == 0x09 || b == 0x0a || b == 0x0d
}

fn is_space_byte(b: u8) -> (r: bool)
    ensures
        r == is_space(b),
{
    b == 0x20 || b == 0x09 || b == 0x0a || b == 0x0d
}


/// The tree-building state the parser keeps besides the cursor.
impl<'a> Parser<'a> {
    /// Record a SAX event when a handler is listening.
    fn emit(&mut self, ev: SaxEvent)
        ensures
            *final(self) == (Parser { events: final(self).events, ..*old(self) }),
    {
        if self.record {
            self.events.push(ev);
        }
    }

    fn emit_warning(&mut self, msg: String)
        ensures
            *final(self) == (Parser { events: final(self).events, ..*old(self) }),
    {
        self.emit(SaxEvent::Warning(msg));
    }

    fn emit_error(&mut self, msg: String)
        ensures
            *final(self) == (Parser { events: final(self).events, ..*old(self) }),
    {
        self.emit(SaxEvent::Error(msg));
    }

    /// Room for `k` more nodes in the arena.
    fn room(&self, k: usize) -> (r: Result<(), XmlError>)
        requires
            self.inv(),
            k <= 8,
        ensures
            r is Ok ==> self.doc.nodes().len() + k < u32::MAX,
            r is Ok <==> self.doc.nodes().len() < MAX_NODES,
    {
        if self.doc.nodes.len() >= MAX_NODES {
            Err(self.err(XML_ERR_NO_MEMORY, "Too many nodes"))
        } else {
            Ok(())
        }
    }

    /// Read a Name. `old10` selects the pre-fifth-edition character rules.
    fn parse_name(&mut self) -> (r: Result<String, XmlError>)
        requires
            old(self).inv(),
        ensures
            final(self).inv(),
            final(self).after(*old(self)),
            final(self).doc == old(self).doc,
            final(self).char_buf == old(self).char_buf,
            final(self).depth == old(self).depth,
            r is Ok ==> final(self).pos > old(self).pos,
            r is Ok <==> name_read(old(self).input@, old(self).pos as int, old(self).old10, has_opt(old(self).options, XML_PARSE_HUGE)) is Some,
            r matches Ok(nm) ==> name_read(old(self).input@, old(self).pos as int, old(self).old10, has_opt(old(self).options, XML_PARSE_HUGE))
                == Some((nm@, final(self).pos as int)),
            *final(self) == (Parser { pos: final(self).pos, line: final(self).line, col: final(self).col, ..*old(self) }),
    {
        let ghost b = self.input@;
        let ghost huge0 = has_opt(self.options, XML_PARSE_HUGE);
        let first = self.next_char()?;
        let mut name = String::new();
        match first {
            None => {
                return Err(self.err(XML_ERR_NAME_REQUIRED, "Name expected"));
            },
            Some((c, n)) => {
                if !xml_is_name_start_char(c as u32, self.old10) {
                    return Err(self.err(XML_ERR_NAME_REQUIRED, "Name expected"));
                }
                push_char(&mut name, c);
                self.bump_char(c, n);
            },
        }
        let huge = opt(self.options, XML_PARSE_HUGE);
        let start = self.pos;
        let ghost c0 = name@;
        loop
            invariant_except_break
                name_rest(b, start as int, start as int, self.old10, huge) == (match name_rest(b, start as int, self.pos as int, self.old10, huge) {
                    Some((t, e)) => Some((name@.subrange(1, name@.len() as int) + t, e)),
                    None => None::<(Seq<char>, int)>,
                }),
            invariant
                self.inv(),
                self.after(*old(self)),
                self.pos > old(self).pos,
                self.doc == old(self).doc,
                self.char_buf == old(self).char_buf,
                self.depth == old(self).depth,
                start <= self.pos,
                b == self.input@,
                huge == huge0,
                huge0 == has_opt(old(self).options, XML_PARSE_HUGE),
                *self == (Parser { pos: self.pos, line: self.line, col: self.col, ..*old(self) }),
                name_read(b, old(self).pos as int, old(self).old10, huge0) == (match name_rest(b, start as int, start as int, self.old10, huge) {
                    Some((t, e)) => Some((seq![c0[0]] + t, e)),
                    None => None::<(Seq<char>, int)>,
                }),
                self.old10 == old(self).old10,
                self.options == old(self).options,
                name@.len() >= 1,
                name@[0] == c0[0],
                c0.len() == 1,
            ensures
                name_rest(b, start as int, start as int, self.old10, huge) == Some((name@.subrange(1, name@.len() as int), self.pos as int)),
            decreases self.input.len() - self.pos,
        {
            let ghost p = self.pos as int;
            let nc = self.next_char()?;
            match nc {
                None => {
                    assert(name@.subrange(1, name@.len() as int) + Seq::<char>::empty() =~= name@.subrange(1, name@.len() as int));
                    break;
                },
                Some((c, n)) => {
                    if !xml_is_name_char(c as u32, self.old10) {
                        assert(name@.subrange(1, name@.len() as int) + Seq::<char>::empty() =~= name@.subrange(1, name@.len() as int));
                        break;
                    }
                    if self.pos - start >= MAX_NAME && !huge {
                        return Err(self.err(XML_ERR_NAME_REQUIRED, "Name too long"));
                    }
                    let ghost n0 = name@;
                    push_char(&mut name, c);
                    self.bump_char(c, n);
                    proof {
                        assert(name@.subrange(1, name@.len() as int) =~= n0.subrange(1, n0.len() as int).push(c));
                        match name_rest(b, start as int, p + n, self.old10, huge) {
                            Some((t, e)) => {
                                assert(n0.subrange(1, n0.len() as int) + (seq![c] + t) =~= name@.subrange(1, name@.len() as int) + t);
                            },
                            None => {},
                        }
                    }
                },
            }
        }
        proof {
            assert(name@ =~= seq![name@[0]] + name@.subrange(1, name@.len() as int));
        }
        Ok(name)
    }

    /// Read a quoted literal whose characters must all be XML characters.
    fn parse_quoted(&mut self) -> (r: Result<String, XmlError>)
        requires
            old(self).inv(),
        ensures
            final(self).inv(),
            final(self).after(*old(self)),
            final(self).doc == old(self).doc,
            final(self).char_buf == old(self).char_buf,
            final(self).depth == old(self).depth,
            r is Ok ==> final(self).pos > old(self).pos,
            ({
                let b = old(self).input@;
                let p = old(self).pos as int;
                &&& (r is Ok <==> (p < b.len() && (b[p] == 0x27 || b[p] == 0x22) && literal_from(b, p + 1, b[p]) is Some))
                &&& (r matches Ok(t) ==> literal_from(b, p + 1, b[p]) == Some((t@, final(self).pos as int)))
            }),
    {
        let q = match self.peek_byte() {
            Some(b) => b,
            None => {
                return Err(self.err(XML_ERR_LITERAL_NOT_FINISHED, "Quote expected"));
            },
        };
        if q != 0x27 && q != 0x22 {
            return Err(self.err(XML_ERR_LITERAL_NOT_FINISHED, "Quote expected"));
        }
        self.bump_byte();
        let ghost b = self.input@;
        let ghost start = self.pos as int;
        let mut s = String::new();
        loop
            invariant_except_break
                literal_from(b, start, q) == (match literal_from(b, self.pos as int, q) {
                    Some((t, e)) => Some((s@ + t, e)),
                    None => None::<(Seq<char>, int)>,
                }),
            invariant
                self.inv(),
                self.after(*old(self)),
                self.pos > old(self).pos,
                self.doc == old(self).doc,
                self.char_buf == old(self).char_buf,
                self.depth == old(self).depth,
                b == self.input@,
                start == old(self).pos + 1,
                q == b[old(self).pos as int],
            ensures
                literal_from(b, start, q) == Some((s@, self.pos as int)),
            decreases self.input.len() - self.pos,
        {
            let ghost p = self.pos as int;
            let nc = self.next_char()?;
            match nc {
                None => {
                    return Err(self.err(XML_ERR_LITERAL_NOT_FINISHED, "Unterminated literal"));
                },
                Some((c, n)) => {
                    self.bump_char(c, n);
                    if (c as u32) == (q as u32) {
                        assert(s@ + Seq::<char>::empty() =~= s@);
                        break;
                    }
                    if !xml_is_char(c as u32) {
                        return Err(self.err(XML_ERR_INVALID_CHAR, "invalid character in literal"));
                    }
                    let ghost s0 = s@;
                    push_char(&mut s, c);
                    proof {
                        match literal_from(b, p + n, q) {
                            Some((t, e)) => {
                                assert(s0 + (seq![c] + t) =~= s@ + t);
                            },
                            None => {},
                        }
                    }
                },
            }
        }
        Ok(s)
    }

    /// Add a leaf of the given kind and content under `parent`.
    fn add_leaf(&mut self, parent: NodeId, kind: NodeKind, name: String, content: String) -> (r: Result<(), XmlError>)
        requires
            old(self).inv(),
            old(self).doc.has(parent),
            kind != NodeKind::Element,
        ensures
            final(self).inv(),
            final(self).after(*old(self)),
            final(self).doc.root() == old(self).doc.root(),
            final(self).pos == old(self).pos,
            final(self).char_buf == old(self).char_buf,
            final(self).depth == old(self).depth,
            r is Ok <==> old(self).doc.nodes().len() < MAX_NODES,
            r is Err ==> *final(self) == *old(self),
            final(self).doc.dtd == old(self).doc.dtd,
            final(self).options == old(self).options && final(self).old10 == old(self).old10
                && final(self).no_tree == old(self).no_tree,
            forall|i: int| 0 <= i < old(self).doc.nodes().len() ==> crate::tree::same_payload(
                #[trigger] final(self).doc.nodes()[i],
                old(self).doc.nodes()[i],
            ),
            r is Ok ==> ({
                let id = old(self).doc.nodes().len() as int;
                &&& final(self).doc.nodes().len() == id + 1
                &&& final(self).doc.nodes()[id].kind == kind
                &&& final(self).doc.nodes()[id].name@ == name@
                &&& final(self).doc.nodes()[id].content@ == content@
                &&& final(self).doc.nodes()[id].parent == Some(parent)
                &&& final(self).doc.nodes()[parent.0 as int].last_child == Some(NodeId(id as u32))
            }),
    {
        self.room(1)?;
        let id = self.doc.alloc_node(kind, name);
        self.doc.set_content(id, content);
        let ghost mid = self.doc.nodes();
        self.doc.xml_add_child(parent, id);
        proof {
            if let Some(rt) = old(self).doc.root() {
                assert(mid[rt.0 as int].kind == old(self).doc.nodes()[rt.0 as int].kind);
                assert(crate::tree::same_payload(self.doc.nodes()[rt.0 as int], mid[rt.0 as int]));
            }
        }
        Ok(())
    }

    /// Deliver pending character data as one text node.
    fn flush_chars(&mut self, parent: NodeId) -> (r: Result<(), XmlError>)
        requires
            old(self).inv(),
            old(self).doc.has(parent),
        ensures
            final(self).inv(),
            final(self).after(*old(self)),
            final(self).pos == old(self).pos,
            final(self).depth == old(self).depth,
            final(self).doc.dtd == old(self).doc.dtd,
            final(self).options == old(self).options && final(self).old10 == old(self).old10
                && final(self).no_tree == old(self).no_tree,
            forall|i: int| 0 <= i < old(self).doc.nodes().len() ==> crate::tree::same_payload(
                #[trigger] final(self).doc.nodes()[i],
                old(self).doc.nodes()[i],
            ),
            ({
                let t = vstd::utf8::encode_utf8(old(self).char_buf@);
                let skip = has_opt(old(self).options, XML_PARSE_NOBLANKS) && all_blank_spec(t);
                &&& (t.len() == 0 ==> r is Ok && *final(self) == *old(self))
                &&& (t.len() > 0 ==> (r is Ok <==> ((t.len() <= MAX_TEXT || has_opt(old(self).options, XML_PARSE_HUGE))
                    && (skip || old(self).no_tree || old(self).doc.nodes().len() < MAX_NODES))))
                &&& (t.len() > 0 && r is Ok ==> final(self).char_buf@.len() == 0)
                &&& (t.len() > 0 && r is Ok && (skip || old(self).no_tree) ==> final(self).doc == old(self).doc)
                &&& (t.len() > 0 && r is Ok && !skip && !old(self).no_tree ==> ({
                    let id = old(self).doc.nodes().len() as int;
                    &&& final(self).doc.nodes().len() == id + 1
                    &&& final(self).doc.nodes()[id].kind == NodeKind::Text
                    &&& final(self).doc.nodes()[id].content@ == old(self).char_buf@
                    &&& final(self).doc.nodes()[id].parent == Some(parent)
                }))
            }),
    {
        if self.char_buf.as_str().as_bytes().len() == 0 {
            return Ok(());
        }
        if self.char_buf.as_str().as_bytes().len() > MAX_TEXT && !opt(self.options, XML_PARSE_HUGE) {
            return Err(self.err(XML_ERR_INVALID_CHAR, "Text too long"));
        }
        let skip_blank = opt(self.options, XML_PARSE_NOBLANKS) && all_blank(self.char_buf.as_str().as_bytes());
        let mut text = String::new();
        std::mem::swap(&mut text, &mut self.char_buf);
        if !skip_blank {
            self.emit(SaxEvent::Characters { data: text.clone() });
            if !self.no_tree {
                self.add_leaf(parent, NodeKind::Text, String::new(), text)?;
            }
        }
        Ok(())
    }

    fn parse_comment(&mut self, parent: NodeId) -> (r: Result<(), XmlError>)
        requires
            old(self).inv(),
            old(self).doc.has(parent),
        ensures
            final(self).inv(),
            final(self).after(*old(self)),
            final(self).doc.root() == old(self).doc.root(),
            final(self).char_buf == old(self).char_buf,
            final(self).depth == old(self).depth,
            ({
                let b = old(self).input@;
                let p = old(self).pos as int;
                &&& (r is Ok <==> (comment_from(b, p) is Some && (old(self).no_tree || old(self).doc.nodes().len() < MAX_NODES)))
                &&& (r is Ok ==> (comment_from(b, p) matches Some((t, e)) && final(self).pos == e
                    && (old(self).no_tree ==> final(self).doc == old(self).doc)
                    && (!old(self).no_tree ==> ({
                        let id = old(self).doc.nodes().len() as int;
                        &&& final(self).doc.nodes().len() == id + 1
                        &&& final(self).doc.nodes()[id].kind == NodeKind::Comment
                        &&& final(self).doc.nodes()[id].content@ == t
                        &&& final(self).doc.nodes()[id].parent == Some(parent)
                    }))))
            }),
    {
        proof {
            reveal_strlit("-->");
            reveal_strlit("--");
            crate::util::lemma_encode_ascii("-->"@);
            crate::util::lemma_encode_ascii("--"@);
            assert(vstd::utf8::encode_utf8("-->"@) =~= comment_close());
            assert(vstd::utf8::encode_utf8("--"@) =~= seq![0x2du8, 0x2du8]);
        }
        let ghost b = self.input@;
        let ghost start = self.pos as int;
        let mut body = String::new();
        assert(body@ =~= Seq::<char>::empty());
        loop
            invariant_except_break
                comment_from(b, start) == (match comment_from(b, self.pos as int) {
                    Some((t, e)) => Some((body@ + t, e)),
                    None => None::<(Seq<char>, int)>,
                }),
            invariant
                self.inv(),
                self.after(*old(self)),
                self.doc == old(self).doc,
                self.char_buf == old(self).char_buf,
                self.depth == old(self).depth,
                self.no_tree == old(self).no_tree,
                b == self.input@,
                start == old(self).pos,
                vstd::utf8::encode_utf8("-->"@) == comment_close(),
                vstd::utf8::encode_utf8("--"@) == seq![0x2du8, 0x2du8],
            ensures
                comment_from(b, start) == Some((body@, self.pos as int)),
            decreases self.input.len() - self.pos,
        {
            let ghost p = self.pos as int;
            if self.eat("-->") {
                assert(body@ + Seq::<char>::empty() =~= body@);
                break;
            }
            if self.eof() {
                return Err(self.err(XML_ERR_COMMENT_NOT_FINISHED, "Comment not finished"));
            }
            if self.looking_at("--") {
                return Err(self.err(XML_ERR_HYPHEN_IN_COMMENT, "Double hyphen in comment"));
            }
            match self.next_char()? {
                None => {
                    return Err(self.err(XML_ERR_COMMENT_NOT_FINISHED, "Comment not finished"));
                },
                Some((c, n)) => {
                    if !xml_is_char(c as u32) {
                        return Err(self.err(XML_ERR_INVALID_CHAR, "Invalid character"));
                    }
                    let ghost b0 = body@;
                    push_char(&mut body, c);
                    self.bump_char(c, n);
                    proof {
                        match comment_from(b, p + n) {
                            Some((t, e)) => {
                                assert(b0 + (seq![c] + t) =~= body@ + t);
                            },
                            None => {},
                        }
                    }
                },
            }
        }
        self.emit(SaxEvent::Comment(body.clone()));
        if !self.no_tree {
            self.add_leaf(parent, NodeKind::Comment, String::new(), body)?;
        }
        Ok(())
    }
}

/// Every byte is XML whitespace.
pub open spec fn all_blank_spec(b: Seq<u8>) -> bool {
    forall|i: int| 0 <= i < b.len() ==> is_space(#[trigger] b[i])
}

fn all_blank(b: &[u8]) -> (r: bool)
    ensures
        r == all_blank_spec(b@),
{
    let mut i: usize = 0;
    while i < b.len()
        invariant
            i <= b.len(),
            forall|j: int| 0 <= j < i ==> is_space(#[trigger] b@[j]),
        decreases b.len() - i,
    {
        if !is_space_byte(b[i]) {
            return false;
        }
        i += 1;
    }
    true
}


impl<'a> Parser<'a> {
    /// A processing instruction, after `<?`. Returns whether it was the XML
    /// declaration (only accepted where `xml_decl_ok`).
    #[verifier::rlimit(50)]
    #[verifier::spinoff_prover]
    fn parse_pi(&mut self, parent: NodeId, xml_decl_ok: bool) -> (r: Result<bool, XmlError>)
        requires
            old(self).inv(),
            old(self).doc.has(parent),
        ensures
            final(self).inv(),
            final(self).after(*old(self)),
            final(self).doc.root() == old(self).doc.root(),
            final(self).char_buf == old(self).char_buf,
            final(self).depth == old(self).depth,
            ({
                let b = old(self).input@;
                let nr = name_read(b, old(self).pos as int, old(self).old10, has_opt(old(self).options, XML_PARSE_HUGE));
                &&& (nr is None ==> r is Err)
                &&& (r matches Ok(v) && v ==> xml_decl_ok && (nr matches Some((nm, _)) && xml_target(nm)))
                &&& (nr matches Some((nm, _)) && xml_target(nm) && !xml_decl_ok ==> r is Err)
                &&& (nr matches Some((nm, e1)) ==> !xml_target(nm) ==> ({
                    &&& (r is Ok <==> (pi_rest(b, e1) is Some && (old(self).no_tree || old(self).doc.nodes().len() < MAX_NODES)))
                    &&& (r matches Ok(v) ==> !v && (pi_rest(b, e1) matches Some((d, e)) && final(self).pos == e
                        && (old(self).no_tree ==> final(self).doc == old(self).doc)
                        && (!old(self).no_tree ==> ({
                            let id = old(self).doc.nodes().len() as int;
                            &&& final(self).doc.nodes().len() == id + 1
                            &&& final(self).doc.nodes()[id].kind == NodeKind::Pi
                            &&& final(self).doc.nodes()[id].name@ == nm
                            &&& final(self).doc.nodes()[id].content@ == (match d { Some(t) => t, None => Seq::<char>::empty() })
                            &&& final(self).doc.nodes()[id].parent == Some(parent)
                        }))))
                }))
            }),
    {
        proof {
            reveal_strlit("xml");
            reveal_strlit("?>");
            crate::util::lemma_encode_ascii("xml"@);
            crate::util::lemma_encode_ascii("?>"@);
            assert(vstd::utf8::encode_utf8("?>"@) =~= seq![0x3fu8, 0x3eu8]);
        }
        let ghost b = self.input@;
        let target = self.parse_name()?;
        let ghost e1 = self.pos as int;
        if crate::util::eq_ignore_ascii_case(target.as_str().as_bytes(), "xml".as_bytes()) {
            if xml_decl_ok {
                self.parse_xml_decl_rest()?;
                return Ok(true);
            }
            return Err(self.err(XML_ERR_RESERVED_XML_NAME, "Reserved PI target xml"));
        }
        if has_colon(target.as_str().as_bytes()) {
            let mut m = String::from_str("colons are forbidden from PI names '");
            m.append(target.as_str());
            m.append("'\n");
            self.emit_warning(m);
        }
        let data: Option<String> = if self.pos < self.input.len() && is_space_byte(self.input[self.pos]) {
            self.skip_s();
            let ghost start = self.pos as int;
            let mut d = String::new();
            assert(d@ =~= Seq::<char>::empty());
            loop
                invariant_except_break
                    pi_data_from(b, start) == (match pi_data_from(b, self.pos as int) {
                        Some((t, e)) => Some((d@ + t, e)),
                        None => None::<(Seq<char>, int)>,
                    }),
                invariant
                    self.inv(),
                    self.after(*old(self)),
                    self.doc == old(self).doc,
                    self.char_buf == old(self).char_buf,
                    self.depth == old(self).depth,
                    self.no_tree == old(self).no_tree,
                    b == self.input@,
                    b == old(self).input@,
                    start == space_run_end(b, e1),
                    name_read(b, old(self).pos as int, old(self).old10, has_opt(old(self).options, XML_PARSE_HUGE)) == Some((target@, e1)),
                    !xml_target(target@),
                    0 <= e1 < b.len() && is_space(b[e1]),
                    vstd::utf8::encode_utf8("?>"@) == seq![0x3fu8, 0x3eu8],
                ensures
                    pi_data_from(b, start) == Some((d@, self.pos as int)),
                decreases self.input.len() - self.pos,
            {
                let ghost p = self.pos as int;
                if self.eat("?>") {
                    assert(d@ + Seq::<char>::empty() =~= d@);
                    break;
                }
                match self.next_char()? {
                    None => {
                        return Err(self.err(XML_ERR_PI_NOT_FINISHED, "PI not finished"));
                    },
                    Some((c, n)) => {
                        if !xml_is_char(c as u32) {
                            return Err(self.err(XML_ERR_INVALID_CHAR, "Invalid character in PI"));
                        }
                        let ghost d0 = d@;
                        push_char(&mut d, c);
                        self.bump_char(c, n);
                        proof {
                            match pi_data_from(b, p + n) {
                                Some((t, e)) => {
                                    assert(d0 + (seq![c] + t) =~= d@ + t);
                                },
                                None => {},
                            }
                        }
                    },
                }
            }
            Some(d)
        } else {
            if !self.eat("?>") {
                return Err(self.err(XML_ERR_PI_NOT_FINISHED, "PI not finished"));
            }
            None
        };
        self.emit(SaxEvent::ProcessingInstruction { target: target.clone(), data: data.clone() });
        if !self.no_tree {
            let content = match data {
                Some(d) => d,
                None => String::new(),
            };
            self.add_leaf(parent, NodeKind::Pi, target, content)?;
        }
        Ok(false)
    }

    /// The XML declaration after `<?xml`.
    fn parse_xml_decl_rest(&mut self) -> (r: Result<(), XmlError>)
        requires
            old(self).inv(),
        ensures
            final(self).inv(),
            final(self).after(*old(self)),
            final(self).doc.nodes() == old(self).doc.nodes(),
            final(self).doc.root() == old(self).doc.root(),
            final(self).char_buf == old(self).char_buf,
            final(self).depth == old(self).depth,
    {
        self.skip_s();
        if !self.eat("version") {
            return Err(self.err(XML_ERR_XMLDECL_NOT_FINISHED, "XML declaration version required"));
        }
        self.skip_s();
        self.expect_byte(0x3d, XML_ERR_EQUAL_REQUIRED, "'=' required")?;
        self.skip_s();
        let ver = self.parse_quoted()?;
        if !is_version_num(ver.as_str().as_bytes()) {
            return Err(self.err(XML_ERR_XMLDECL_NOT_FINISHED, "Malformed version number"));
        }
        self.doc.version = ver;
        let mut had_ws = self.skip_s();
        if self.looking_at("encoding") {
            if !had_ws {
                return Err(self.err(XML_ERR_SPACE_REQUIRED, "Blank needed here"));
            }
            self.eat("encoding");
            self.skip_s();
            self.expect_byte(0x3d, XML_ERR_EQUAL_REQUIRED, "'=' required")?;
            self.skip_s();
            let enc = self.parse_quoted()?;
            if !is_enc_name(enc.as_str().as_bytes()) {
                return Err(self.err(XML_ERR_ENCODING_NAME, "Invalid XML encoding name"));
            }
            self.doc.encoding = Some(enc);
            had_ws = self.skip_s();
        }
        if self.looking_at("standalone") {
            if !had_ws {
                return Err(self.err(XML_ERR_SPACE_REQUIRED, "Blank needed here"));
            }
            self.eat("standalone");
            self.skip_s();
            self.expect_byte(0x3d, XML_ERR_EQUAL_REQUIRED, "'=' required")?;
            self.skip_s();
            let st = self.parse_quoted()?;
            if str_eq(st.as_str(), "yes") {
                self.doc.standalone = Some(true);
            } else if str_eq(st.as_str(), "no") {
                self.doc.standalone = Some(false);
            } else {
                return Err(self.err(XML_ERR_XMLDECL_NOT_FINISHED, "standalone must be yes or no"));
            }
            self.skip_s();
        }
        if !self.eat("?>") {
            return Err(self.err(XML_ERR_XMLDECL_NOT_FINISHED, "XML declaration not finished"));
        }
        Ok(())
    }

    /// A CDATA section after `<![CDATA[`.
    fn parse_cdata(&mut self, parent: NodeId) -> (r: Result<(), XmlError>)
        requires
            old(self).inv(),
            old(self).doc.has(parent),
        ensures
            final(self).inv(),
            final(self).after(*old(self)),
            final(self).char_buf == old(self).char_buf,
            final(self).depth == old(self).depth,
            ({
                let b = old(self).input@;
                let p = old(self).pos as int;
                &&& (r is Ok <==> (cdata_from(b, p) is Some && (old(self).no_tree || old(self).doc.nodes().len() < MAX_NODES)))
                &&& (r is Ok ==> (cdata_from(b, p) matches Some((t, e)) && final(self).pos == e
                    && (old(self).no_tree ==> final(self).doc == old(self).doc)
                    && (!old(self).no_tree ==> ({
                        let id = old(self).doc.nodes().len() as int;
                        &&& final(self).doc.nodes().len() == id + 1
                        &&& final(self).doc.nodes()[id].kind == (if has_opt(old(self).options, XML_PARSE_NOCDATA) {
                            NodeKind::Text
                        } else {
                            NodeKind::CData
                        })
                        &&& final(self).doc.nodes()[id].content@ == t
                        &&& final(self).doc.nodes()[id].parent == Some(parent)
                    }))))
            }),
    {
        proof {
            reveal_strlit("]]>");
            crate::util::lemma_encode_ascii("]]>"@);
            assert(vstd::utf8::encode_utf8("]]>"@) =~= seq![0x5du8, 0x5du8, 0x3eu8]);
        }
        let ghost b = self.input@;
        let ghost start = self.pos as int;
        let mut body = String::new();
        assert(body@ =~= Seq::<char>::empty());
        loop
            invariant_except_break
                cdata_from(b, start) == (match cdata_from(b, self.pos as int) {
                    Some((t, e)) => Some((body@ + t, e)),
                    None => None::<(Seq<char>, int)>,
                }),
            invariant
                self.inv(),
                self.after(*old(self)),
                self.doc == old(self).doc,
                self.char_buf == old(self).char_buf,
                self.depth == old(self).depth,
                self.no_tree == old(self).no_tree,
                self.options == old(self).options,
                b == self.input@,
                start == old(self).pos,
                vstd::utf8::encode_utf8("]]>"@) == seq![0x5du8, 0x5du8, 0x3eu8],
            ensures
                cdata_from(b, start) == Some((body@, self.pos as int)),
            decreases self.input.len() - self.pos,
        {
            let ghost p = self.pos as int;
            if self.eat("]]>") {
                assert(body@ + Seq::<char>::empty() =~= body@);
                break;
            }
            match self.next_char()? {
                None => {
                    return Err(self.err(XML_ERR_CDATA_NOT_FINISHED, "CDATA not finished"));
                },
                Some((c, n)) => {
                    if !xml_is_char(c as u32) {
                        return Err(self.err(XML_ERR_INVALID_CHAR, "invalid character in CDATA"));
                    }
                    let ghost b0 = body@;
                    push_char(&mut body, c);
                    self.bump_char(c, n);
                    proof {
                        match cdata_from(b, p + n) {
                            Some((t, e)) => {
                                assert(b0 + (seq![c] + t) =~= body@ + t);
                            },
                            None => {},
                        }
                    }
                },
            }
        }
        if opt(self.options, XML_PARSE_NOCDATA) {
            self.emit(SaxEvent::Characters { data: body.clone() });
            if !self.no_tree {
                self.add_leaf(parent, NodeKind::Text, String::new(), body)?;
            }
        } else {
            self.emit(SaxEvent::CData { data: body.clone() });
            if !self.no_tree {
                self.add_leaf(parent, NodeKind::CData, String::new(), body)?;
            }
        }
        Ok(())
    }

    /// A character reference after `&#`.
    fn parse_char_ref(&mut self) -> (r: Result<char, XmlError>)
        requires
            old(self).inv(),
        ensures
            final(self).inv(),
            final(self).after(*old(self)),
            final(self).doc == old(self).doc,
            final(self).char_buf == old(self).char_buf,
            final(self).depth == old(self).depth,
            final(self).options == old(self).options,
            final(self).no_tree == old(self).no_tree,
            final(self).old10 == old(self).old10,
            r matches Ok(c) ==> is_xml_char(c as u32),
            r is Ok <==> cref_ok(old(self).input@, old(self).pos as int),
            r matches Ok(c) ==> c as u32 == cref_value(old(self).input@, old(self).pos as int)
                && final(self).pos == cref_end(old(self).input@, old(self).pos as int),
            r matches Err(e) ==> e.code == cref_err(old(self).input@, old(self).pos as int),
    {
        let hex = self.peek_byte() == Some(0x78u8);
        if hex {
            self.bump_byte();
        } else if self.peek_byte() == Some(0x58u8) {
            return Err(self.err(XML_ERR_INVALID_DEC_CHARREF, "CharRef: invalid decimal value"));
        }
        let mut val: u32 = 0;
        let mut ndigits: usize = 0;
        let mut too_big = false;
        let ghost ds = self.pos as int;
        let ghost b = self.input@;
        assert(b.subrange(ds, ds) =~= Seq::<u8>::empty());
        while self.pos < self.input.len() && digit_value(self.input[self.pos], hex).is_some()
            invariant
                self.inv(),
                self.after(*old(self)),
                self.doc == old(self).doc,
                self.char_buf == old(self).char_buf,
                self.depth == old(self).depth,
                self.options == old(self).options,
                self.no_tree == old(self).no_tree,
                self.old10 == old(self).old10,
                b == self.input@,
                0 <= ds <= self.pos,
                digit_run_end(b, self.pos as int, hex) == digit_run_end(b, ds, hex),
                all_digits_of(b.subrange(ds, self.pos as int), hex),
                (ndigits == 0) == (self.pos == ds),
                !too_big ==> val == digits_num(b.subrange(ds, self.pos as int), hex),
                too_big ==> digits_num(b.subrange(ds, self.pos as int), hex) > 0x10ffff,
                val <= 0x10ffff * 16 + 15,
            decreases self.input.len() - self.pos,
        {
            let ghost p = self.pos as int;
            let d = match digit_value(self.input[self.pos], hex) {
                Some(d) => d,
                None => 0,
            };
            assert(p < b.len());
            assert(ds <= p);
            assert(digit_val(b[p], hex) == Some(d as int));
            proof {
                let pre = b.subrange(ds, p);
                let nxt = b.subrange(ds, p + 1);
                assert(nxt.drop_last() =~= pre);
                assert(nxt.last() == b[p]);
                assert(all_digits_of(nxt, hex)) by {
                    assert forall|m: int| 0 <= m < nxt.len() implies #[trigger] digit_val(nxt[m], hex) is Some by {
                        if m < pre.len() {
                            assert(nxt[m] == pre[m]);
                        }
                    }
                }
                lemma_digits_num_grow(nxt, hex, pre.len() as int);
                assert(nxt.take(pre.len() as int) =~= pre);
            }
            let base: u32 = if hex { 16 } else { 10 };
            if val > 0x10ffff {
                too_big = true;
            } else {
                assert(d < 16);
                assert(val * base <= 0x10ffff * 16) by (nonlinear_arith)
                    requires
                        val <= 0x10ffff,
                        base <= 16,
                ;
                val = val * base + d;
            }
            ndigits = ndigits + if ndigits < 100 { 1 } else { 0 };
            self.bump_byte();
        }
        proof {
            let de = self.pos as int;
            if too_big {
                assert(digits_num(b.subrange(ds, de), hex) > 0x10ffff);
            }
        }
        if ndigits == 0 {
            let code = if hex { XML_ERR_INVALID_HEX_CHARREF } else { XML_ERR_INVALID_DEC_CHARREF };
            return Err(self.err(code, "Invalid character reference"));
        }
        self.expect_byte(0x3b, XML_ERR_ENTITYREF_SEMICOL_MISSING, "';' required")?;
        if too_big || !xml_is_char(val) {
            return Err(self.err(XML_ERR_INVALID_CHARREF, "Invalid character reference"));
        }
        match char_from_u32(val) {
            Some(c) => Ok(c),
            None => Err(self.err(XML_ERR_INVALID_CHARREF, "Invalid character reference")),
        }
    }

    /// The binding replacement text of a general entity.
    fn lookup_entity(&self, name: &str) -> (r: Option<String>)
        ensures
            self.doc.dtd is None ==> r is None,
    {
        match &self.doc.dtd {
            None => None,
            Some(d) => entity_value(d, name),
        }
    }

    /// Expand an entity's replacement text, resolving the references in it.
    /// Bounded by nesting depth and by a byte budget, since recursion here is
    /// the billion-laughs vector.
    fn expand_entity(&mut self, name: &str, raw: &str, depth: u32) -> (r: Result<String, XmlError>)
        requires
            old(self).inv(),
        ensures
            final(self).inv(),
            *final(self) == (Parser { entity_budget: final(self).entity_budget, events: final(self).events, ..*old(self) }),
            depth > MAX_ENTITY_DEPTH ==> (r matches Err(e) && e.code == XML_ERR_UNDECLARED_ENTITY),
            final(self).entity_budget <= old(self).entity_budget,
            r matches Ok(out) ==> out@.len() <= vstd::utf8::encode_utf8(raw@).len()
                + (old(self).entity_budget - final(self).entity_budget),
        decreases MAX_ENTITY_DEPTH + 1 - depth,
    {
        if depth > MAX_ENTITY_DEPTH {
            let mut m = String::from_str("Entity '");
            m.append(name);
            m.append("' nested too deeply");
            return Err(self.err_s(XML_ERR_UNDECLARED_ENTITY, m));
        }
        let b = raw.as_bytes();
        let mut out = String::new();
        let mut i: usize = 0;
        while i < b.len()
            invariant
                self.inv(),
                *self == (Parser { entity_budget: self.entity_budget, events: self.events, ..*old(self) }),
                i <= b.len(),
                b@ == vstd::utf8::encode_utf8(raw@),
                depth <= MAX_ENTITY_DEPTH,
                self.entity_budget <= old(self).entity_budget,
                out@.len() <= i + (old(self).entity_budget - self.entity_budget),
            decreases b.len() - i,
        {
            if b[i] != 0x26 {
                match decode_at(b, i) {
                    Some((c, n)) => {
                        push_char(&mut out, c);
                        i = i + n;
                    },
                    None => {
                        return Err(self.err(XML_ERR_INVALID_CHAR, "Invalid UTF-8"));
                    },
                }
                continue;
            }
            let mut semi = i + 1;
            while semi < b.len() && b[semi] != 0x3b
                invariant
                    i < semi <= b.len(),
                decreases b.len() - semi,
            {
                semi += 1;
            }
            if semi >= b.len() {
                push_char(&mut out, '&');
                i += 1;
                continue;
            }
            let inner = &b[i + 1..semi];
            if inner.len() > 0 && inner[0] == 0x23 {
                match char_ref_value(inner) {
                    Some(c) => push_char(&mut out, c),
                    None => {
                        let mut m = String::from_str("Invalid character reference in entity '");
                        m.append(name);
                        m.append("'");
                        return Err(self.err_s(XML_ERR_INVALID_CHAR, m));
                    },
                }
                i = semi + 1;
                continue;
            }
            let iname = match crate::util::str_from_utf8(inner) {
                Some(s) => s,
                None => {
                    return Err(self.err(XML_ERR_INVALID_CHAR, "Invalid UTF-8"));
                },
            };
            let replacement: Option<String> = match predefined_entity(iname) {
                Some(c) => {
                    let mut s = String::new();
                    push_char(&mut s, c);
                    Some(s)
                },
                None => match self.lookup_entity(iname) {
                    Some(nested) => {
                        let ex = self.expand_entity(iname, nested.as_str(), depth + 1)?;
                        Some(ex)
                    },
                    None => None,
                },
            };
            match replacement {
                Some(r) => {
                    let rs = r.as_str();
                    let rl = rs.as_bytes().len();
                    proof {
                        lemma_encode_len_ge(rs@);
                    }
                    if rl > self.entity_budget {
                        return Err(self.err(XML_ERR_INTERNAL_ERROR, "Maximum entity amplification exceeded"));
                    }
                    self.entity_budget = self.entity_budget - rl;
                    out.append(rs);
                },
                None => {
                    if self.recover {
                        proof {
                            lemma_encode_len_ge(iname@);
                            reveal_strlit("&");
                            reveal_strlit(";");
                        }
                        out.append("&");
                        out.append(iname);
                        out.append(";");
                        } else {
                        let mut m = String::from_str("Entity '");
                        m.append(iname);
                        m.append("' not defined");
                        return Err(self.err_s(XML_ERR_UNDECLARED_ENTITY, m));
                    }
                },
            }
            i = semi + 1;
        }
        Ok(out)
    }
}

/// UTF-8 spends at least one byte on each character.
proof fn lemma_encode_len_ge(s: Seq<char>)
    ensures
        vstd::utf8::encode_utf8(s).len() >= s.len(),
    decreases s.len(),
{
    if s.len() > 0 {
        lemma_encode_len_ge(s.drop_first());
        assert(vstd::utf8::encode_scalar(s[0] as u32).len() >= 1);
    }
}

/// The character that a predefined entity stands for.
pub open spec fn predefined_char(name: Seq<char>) -> Option<char> {
    if name == "lt"@ {
        Some('<')
    } else if name == "gt"@ {
        Some('>')
    } else if name == "amp"@ {
        Some('&')
    } else if name == "apos"@ {
        Some('\'')
    } else if name == "quot"@ {
        Some('"')
    } else {
        None
    }
}

/// The character one of the five predefined entities stands for.
fn predefined_entity(name: &str) -> (r: Option<char>)
    ensures
        r == predefined_char(name@),
{
    if str_eq(name, "lt") {
        Some('<')
    } else if str_eq(name, "gt") {
        Some('>')
    } else if str_eq(name, "amp") {
        Some('&')
    } else if str_eq(name, "apos") {
        Some('\'')
    } else if str_eq(name, "quot") {
        Some('"')
    } else {
        None
    }
}

/// The value of the first entity named `name` among `ents`.
pub open spec fn first_entity(ents: Seq<(String, String)>, name: Seq<char>) -> Option<Seq<char>>
    decreases ents.len(),
{
    if ents.len() == 0 {
        None
    } else if ents[0].0@ == name {
        Some(ents[0].1@)
    } else {
        first_entity(ents.drop_first(), name)
    }
}

/// The binding (first) declaration of a general entity.
pub fn entity_value(d: &XmlDtd, name: &str) -> (r: Option<String>)
    ensures
        crate::tree::opt_string_view(r) == first_entity(d.entities@, name@),
{
    let mut i: usize = 0;
    assert(d.entities@.skip(0) =~= d.entities@);
    while i < d.entities.len()
        invariant
            i <= d.entities.len(),
            first_entity(d.entities@, name@) == first_entity(d.entities@.skip(i as int), name@),
        decreases d.entities.len() - i,
    {
        assert(d.entities@.skip(i as int)[0] == d.entities@[i as int]);
        assert(d.entities@.skip(i as int).drop_first() =~= d.entities@.skip(i + 1));
        if str_eq(d.entities[i].0.as_str(), name) {
            return Some(d.entities[i].1.clone());
        }
        i += 1;
    }
    None
}

/// The value of a digit in base 16 (`hex`) or 10.
fn digit_value(b: u8, hex: bool) -> (r: Option<u32>)
    ensures
        r matches Some(d) ==> d < (if hex { 16u32 } else { 10u32 }),
        r == (if 0x30 <= b <= 0x39 {
            Some((b - 0x30) as u32)
        } else if hex && 0x61 <= b <= 0x66 {
            Some((b - 0x61 + 10) as u32)
        } else if hex && 0x41 <= b <= 0x46 {
            Some((b - 0x41 + 10) as u32)
        } else {
            None
        }),
{
    if 0x30 <= b && b <= 0x39 {
        Some((b - 0x30) as u32)
    } else if hex && 0x61 <= b && b <= 0x66 {
        Some((b - 0x61 + 10) as u32)
    } else if hex && 0x41 <= b && b <= 0x46 {
        Some((b - 0x41 + 10) as u32)
    } else {
        None
    }
}

/// The value of one digit byte in base 16 (`hex`) or 10, when it is one.
pub open spec fn digit_val(b: u8, hex: bool) -> Option<int> {
    if 0x30 <= b <= 0x39 {
        Some(b - 0x30)
    } else if hex && 0x61 <= b <= 0x66 {
        Some(b - 0x61 + 10)
    } else if hex && 0x41 <= b <= 0x46 {
        Some(b - 0x41 + 10)
    } else {
        None
    }
}

/// Every byte is a digit of the base.
pub open spec fn all_digits_of(d: Seq<u8>, hex: bool) -> bool {
    forall|k: int| 0 <= k < d.len() ==> #[trigger] digit_val(d[k], hex) is Some
}

/// The number the digits write, most significant first.
pub open spec fn digits_num(d: Seq<u8>, hex: bool) -> int
    decreases d.len(),
{
    if d.len() == 0 {
        0
    } else {
        digits_num(d.drop_last(), hex) * (if hex { 16int } else { 10int }) + digit_val(d.last(), hex).unwrap_or(0)
    }
}

/// A character reference body after `&#` at `s` is hexadecimal (`x`).
pub open spec fn cref_hex(b: Seq<u8>, s: int) -> bool {
    s < b.len() && b[s] == 0x78
}

/// Where the digits of the character reference body at `s` start.
pub open spec fn cref_digits_start(b: Seq<u8>, s: int) -> int {
    if cref_hex(b, s) { s + 1 } else { s }
}

/// Where the digits of the character reference body at `s` end.
pub open spec fn cref_digits_end(b: Seq<u8>, s: int) -> int {
    digit_run_end(b, cref_digits_start(b, s), cref_hex(b, s))
}

/// The number the character reference body at `s` writes.
pub open spec fn cref_value(b: Seq<u8>, s: int) -> int {
    digits_num(b.subrange(cref_digits_start(b, s), cref_digits_end(b, s)), cref_hex(b, s))
}

/// Where the character reference body at `s` ends, after its `;`.
pub open spec fn cref_end(b: Seq<u8>, s: int) -> int {
    cref_digits_end(b, s) + 1
}

/// The character reference body after `&#` at `s` is well formed: `x` in
/// lower case for hexadecimal, at least one digit, a `;`, and a value that
/// is an XML character.
/// The error a malformed character reference body at `s` is reported with.
pub open spec fn cref_err(b: Seq<u8>, s: int) -> i32 {
    let ds = cref_digits_start(b, s);
    let de = cref_digits_end(b, s);
    if s < b.len() && b[s] == 0x58 {
        XML_ERR_INVALID_DEC_CHARREF
    } else if de == ds {
        if cref_hex(b, s) { XML_ERR_INVALID_HEX_CHARREF } else { XML_ERR_INVALID_DEC_CHARREF }
    } else if !(de < b.len() && b[de] == 0x3b) {
        XML_ERR_ENTITYREF_SEMICOL_MISSING
    } else {
        XML_ERR_INVALID_CHARREF
    }
}

pub open spec fn cref_ok(b: Seq<u8>, s: int) -> bool {
    let ds = cref_digits_start(b, s);
    let de = cref_digits_end(b, s);
    &&& !(s < b.len() && b[s] == 0x58)
    &&& de > ds
    &&& de < b.len()
    &&& b[de] == 0x3b
    &&& cref_value(b, s) <= 0x10ffff
    &&& is_xml_char(cref_value(b, s) as u32)
}

/// Where the run of digits of the base that starts at `i` ends.
pub open spec fn digit_run_end(b: Seq<u8>, i: int, hex: bool) -> int
    decreases b.len() - i,
{
    if 0 <= i < b.len() && digit_val(b[i], hex) is Some { digit_run_end(b, i + 1, hex) } else { i }
}

/// The character a reference body `#digits` or `#xhex` names.
pub open spec fn char_ref_char(inner: Seq<u8>) -> Option<char> {
    let hex = inner.len() > 1 && (inner[1] == 0x78 || inner[1] == 0x58);
    let d = inner.subrange(if hex { 2int } else { 1int }, inner.len() as int);
    if d.len() > 0 && all_digits_of(d, hex) && digits_num(d, hex) <= 0x10ffff {
        match scalar_of(digits_num(d, hex), 1usize) {
            Some((c, _)) => Some(c),
            None => None,
        }
    } else {
        None
    }
}

/// A longer run of digits writes a number no smaller.
pub(crate) proof fn lemma_digits_num_grow(d: Seq<u8>, hex: bool, j: int)
    requires
        all_digits_of(d, hex),
        0 <= j <= d.len(),
    ensures
        digits_num(d.take(j), hex) <= digits_num(d, hex),
        0 <= digits_num(d, hex),
    decreases d.len(),
{
    if d.len() > 0 {
        assert(all_digits_of(d.drop_last(), hex)) by {
            assert forall|k: int| 0 <= k < d.drop_last().len() implies #[trigger] digit_val(d.drop_last()[k], hex) is Some by {
                assert(digit_val(d[k], hex) is Some);
            }
        }
        assert(digit_val(d[d.len() - 1], hex) is Some);
        if j < d.len() {
            lemma_digits_num_grow(d.drop_last(), hex, j);
            assert(d.drop_last().take(j) =~= d.take(j));
        } else {
            lemma_digits_num_grow(d.drop_last(), hex, 0);
            assert(d.take(j) =~= d);
        }
    } else {
        assert(d.take(j) =~= d);
    }
}

/// The character `#digits` or `#xhex` names, when it is a Unicode scalar.
fn char_ref_value(inner: &[u8]) -> (r: Option<char>)
    requires
        inner@.len() >= 1,
    ensures
        r == char_ref_char(inner@),
{
    let mut i: usize = 1;
    let hex = inner.len() > 1 && (inner[1] == 0x78 || inner[1] == 0x58);
    if hex {
        i = 2;
    }
    if i >= inner.len() {
        return None;
    }
    let ghost start = i as int;
    let ghost d = inner@.subrange(start, inner@.len() as int);
    let mut val: u32 = 0;
    assert(d.take(0) =~= Seq::<u8>::empty());
    while i < inner.len()
        invariant
            start <= i <= inner.len(),
            start == (if hex { 2int } else { 1int }),
            d == inner@.subrange(start, inner@.len() as int),
            hex == (inner@.len() > 1 && (inner@[1] == 0x78 || inner@[1] == 0x58)),
            val <= 0x10ffff,
            val == digits_num(d.take(i - start), hex),
            all_digits_of(d.take(i - start), hex),
        decreases inner.len() - i,
    {
        let ghost k = i - start;
        assert(d.take(k + 1).drop_last() =~= d.take(k));
        assert(d.take(k + 1).last() == inner@[i as int]);
        let dg = match digit_value(inner[i], hex) {
            Some(dg) => dg,
            None => {
                assert(digit_val(d[k], hex) is None);
                return None;
            },
        };
        let base: u32 = if hex { 16 } else { 10 };
        val = val * base + dg;
        assert(all_digits_of(d.take(k + 1), hex)) by {
            assert forall|m: int| 0 <= m < d.take(k + 1).len() implies #[trigger] digit_val(d.take(k + 1)[m], hex) is Some by {
                if m < k {
                    assert(d.take(k + 1)[m] == d.take(k)[m]);
                }
            }
        }
        if val > 0x10ffff {
            proof {
                if all_digits_of(d, hex) {
                    lemma_digits_num_grow(d, hex, k + 1);
                }
            }
            return None;
        }
        i += 1;
    }
    assert(d.take(i - start) =~= d);
    char_from_u32(val)
}

/// The bytes hold a colon.
fn has_colon(b: &[u8]) -> (r: bool)
    ensures
        r == b@.contains(0x3a),
{
    let mut i: usize = 0;
    while i < b.len()
        invariant
            i <= b.len(),
            forall|k: int| 0 <= k < i ==> b@[k] != 0x3a,
        decreases b.len() - i,
    {
        if b[i] == 0x3a {
            return true;
        }
        i += 1;
    }
    false
}

/// An ASCII digit.
pub open spec fn digit_byte(c: u8) -> bool {
    0x30 <= c <= 0x39
}

/// `VersionNum ::= [0-9]+ '.' [0-9]+`, with the dot at `k`.
pub open spec fn version_num_at(b: Seq<u8>, k: int) -> bool {
    &&& 0 < k && k + 1 < b.len()
    &&& b[k] == 0x2e
    &&& forall|j: int| 0 <= j < b.len() && j != k ==> digit_byte(#[trigger] b[j])
}

/// `VersionNum`: digits, a dot, digits.
fn is_version_num(b: &[u8]) -> (r: bool)
    ensures
        r == exists|k: int| version_num_at(b@, k),
{
    let mut i: usize = 0;
    while i < b.len() && 0x30 <= b[i] && b[i] <= 0x39
        invariant
            i <= b.len(),
            forall|j: int| 0 <= j < i ==> digit_byte(#[trigger] b@[j]),
        decreases b.len() - i,
    {
        i += 1;
    }
    if i == 0 || i >= b.len() || b[i] != 0x2e {
        proof {
            if exists|k: int| version_num_at(b@, k) {
                let k = choose|k: int| version_num_at(b@, k);
                if i == 0 {
                    assert(digit_byte(b@[0]));
                } else if i >= b.len() {
                    assert(digit_byte(b@[k]));
                } else if k != i {
                    assert(digit_byte(b@[i as int]));
                }
            }
        }
        return false;
    }
    let ghost dot = i as int;
    i += 1;
    let start = i;
    while i < b.len() && 0x30 <= b[i] && b[i] <= 0x39
        invariant
            start <= i <= b.len(),
            start == dot + 1,
            forall|j: int| start <= j < i ==> digit_byte(#[trigger] b@[j]),
        decreases b.len() - i,
    {
        i += 1;
    }
    proof {
        if i > start && i == b.len() {
            assert(version_num_at(b@, dot));
        } else if exists|k: int| version_num_at(b@, k) {
            let k = choose|k: int| version_num_at(b@, k);
            if k != dot {
                assert(digit_byte(b@[dot]));
            } else if i == start {
                assert(digit_byte(b@[start as int]));
            } else {
                assert(digit_byte(b@[i as int]));
            }
        }
    }
    i > start && i == b.len()
}

/// An ASCII letter.
pub open spec fn alpha_byte(c: u8) -> bool {
    (0x41 <= c <= 0x5a) || (0x61 <= c <= 0x7a)
}

/// A character of an `EncName` after its first.
pub open spec fn enc_name_byte(c: u8) -> bool {
    alpha_byte(c) || digit_byte(c) || c == 0x2e || c == 0x5f || c == 0x2d
}

/// `EncName ::= [A-Za-z] ([A-Za-z0-9._] | '-')*`.
fn is_enc_name(b: &[u8]) -> (r: bool)
    ensures
        r == (b@.len() > 0 && alpha_byte(b@[0]) && forall|j: int| 1 <= j < b@.len() ==> enc_name_byte(#[trigger] b@[j])),
{
    if b.len() == 0 {
        return false;
    }
    let c0 = b[0];
    if !((0x41 <= c0 && c0 <= 0x5a) || (0x61 <= c0 && c0 <= 0x7a)) {
        return false;
    }
    let mut i: usize = 1;
    while i < b.len()
        invariant
            1 <= i <= b.len(),
            forall|j: int| 1 <= j < i ==> enc_name_byte(#[trigger] b@[j]),
        decreases b.len() - i,
    {
        let c = b[i];
        let ok = (0x41 <= c && c <= 0x5a) || (0x61 <= c && c <= 0x7a) || (0x30 <= c && c <= 0x39) || c
            == 0x2e || c == 0x5f || c == 0x2d;
        if !ok {
            return false;
        }
        i += 1;
    }
    true
}


/// The `xml` namespace.
pub const XML_NS: &'static str = "http://www.w3.org/XML/1998/namespace";
/// The namespace of `xmlns` declarations.
pub const XMLNS_NS: &'static str = "http://www.w3.org/2000/xmlns/";

/// A name as prefix and local part: split at its only colon when that colon
/// has something on both sides, otherwise the whole name is the local part.
fn split_qname(name: &str) -> (r: (Option<String>, String))
    ensures
        !vstd::utf8::encode_utf8(name@).contains(0x3au8) ==> r.0 is None && r.1@ == name@,
{
    let b = name.as_bytes();
    let mut colon: usize = b.len();
    let mut count: usize = 0;
    let mut i: usize = 0;
    while i < b.len()
        invariant
            i <= b.len(),
            colon <= b.len(),
            count <= i,
            b@ == vstd::utf8::encode_utf8(name@),
            !b@.contains(0x3au8) ==> count == 0,
        decreases b.len() - i,
    {
        if b[i] == 0x3a {
            if count == 0 {
                colon = i;
            }
            count += 1;
        }
        i += 1;
    }
    if count != 1 || colon == 0 || b.len() - colon < 2 {
        return (None, String::from_str(name));
    }
    let p = crate::util::str_from_utf8(&b[0..colon]);
    let l = crate::util::str_from_utf8(&b[colon + 1..b.len()]);
    match (p, l) {
        (Some(p), Some(l)) => (Some(String::from_str(p)), String::from_str(l)),
        _ => (None, String::from_str(name)),
    }
}

/// A character of a URI scheme after its first.
pub open spec fn scheme_byte(c: u8) -> bool {
    alpha_byte(c) || digit_byte(c) || c == 0x2b || c == 0x2d || c == 0x2e
}

/// `scheme ":"` starts the bytes, the colon at `k`.
pub open spec fn scheme_colon_at(b: Seq<u8>, k: int) -> bool {
    &&& 1 <= k < b.len()
    &&& b[k] == 0x3a
    &&& alpha_byte(b[0])
    &&& forall|j: int| 1 <= j < k ==> scheme_byte(#[trigger] b[j])
}

/// The URI has a scheme, as an absolute URI must.
fn uri_has_scheme(uri: &str) -> (r: bool)
    ensures
        r == exists|k: int| scheme_colon_at(vstd::utf8::encode_utf8(uri@), k),
{
    let b = uri.as_bytes();
    if b.len() == 0 {
        return false;
    }
    if !crate::util::is_ascii_alpha(b[0]) {
        return false;
    }
    let mut i: usize = 1;
    while i < b.len()
        invariant
            1 <= i <= b.len(),
            b@ == vstd::utf8::encode_utf8(uri@),
            alpha_byte(b@[0]),
            forall|j: int| 1 <= j < i ==> scheme_byte(#[trigger] b@[j]),
        decreases b.len() - i,
    {
        let c = b[i];
        if c == 0x3a {
            assert(scheme_colon_at(b@, i as int));
            return true;
        }
        if crate::util::is_ascii_alpha(c) || (0x30 <= c && c <= 0x39) || c == 0x2b || c == 0x2d || c == 0x2e {
            i += 1;
        } else {
            return false;
        }
    }
    false
}

/// An attribute as scanned, before namespaces are resolved.
struct RawAttr {
    qname: String,
    value: String,
    value_off: usize,
}

/// An element whose start tag has been read, with the parts its end tag
/// and SAX end event need.
/// No two of the attributes have the same local name and namespace.
pub open spec fn sax_keys_distinct(v: Seq<SaxAttr>) -> bool {
    forall|j: int, k: int| 0 <= j < k < v.len() ==> !((#[trigger] v[j]).local@ == (#[trigger] v[k]).local@
        && crate::tree::opt_string_view(v[j].uri) == crate::tree::opt_string_view(v[k].uri))
}

/// No two attribute nodes at index `from` or later have the same local name
/// and namespace.
pub open spec fn attr_keys_from(s: Seq<crate::tree::Node>, from: int) -> bool {
    forall|i: int, j: int| from <= i < j < s.len() && (#[trigger] s[i]).kind == NodeKind::Attribute
        && (#[trigger] s[j]).kind == NodeKind::Attribute ==> !(s[i].name@ == s[j].name@
        && crate::tree::opt_string_view(s[i].ns_uri) == crate::tree::opt_string_view(s[j].ns_uri))
}

struct Open {
    qname: String,
    local: String,
    prefix: Option<String>,
    uri: Option<String>,
    elem: NodeId,
}

/// The normalized text of `b` from `i` on: a run of spaces after some
/// character (`any`) becomes one space (`pending`) written before the next
/// character, and spaces at the end are dropped.
pub open spec fn tokens_from(b: Seq<u8>, i: int, pending: bool, any: bool) -> Seq<char>
    decreases b.len() - i,
{
    if i < 0 || i >= b.len() {
        Seq::empty()
    } else if b[i] == 0x20 {
        tokens_from(b, i + 1, any, any)
    } else {
        match utf8_at(b, i) {
            Some((c, n)) => if n >= 1 {
                (if pending { seq![' '] } else { Seq::<char>::empty() }) + seq![c] + tokens_from(b, i + n, false, true)
            } else {
                Seq::empty()
            },
            None => tokens_from(b, i + 1, pending, any),
        }
    }
}

/// A value of a tokenized attribute type: surrounding spaces dropped and
/// inner runs of spaces collapsed to one.
fn normalize_tokens(v: &str) -> (r: String)
    ensures
        r@ == tokens_from(vstd::utf8::encode_utf8(v@), 0, false, false),
{
    let b = v.as_bytes();
    let mut out = String::new();
    let mut pending_space = false;
    let mut any = false;
    let mut i: usize = 0;
    assert(out@ + tokens_from(b@, 0, false, false) =~= tokens_from(b@, 0, false, false));
    while i < b.len()
        invariant
            i <= b.len(),
            out@ + tokens_from(b@, i as int, pending_space, any) == tokens_from(b@, 0, false, false),
        decreases b.len() - i,
    {
        if b[i] == 0x20 {
            pending_space = any;
            i += 1;
            continue;
        }
        match decode_at(b, i) {
            Some((c, n)) => {
                let ghost o = out@;
                let ghost pend = pending_space;
                if pending_space {
                    push_char(&mut out, ' ');
                    pending_space = false;
                }
                push_char(&mut out, c);
                any = true;
                proof {
                    let rest = tokens_from(b@, i + n, false, true);
                    let pre = if pend { seq![' '] } else { Seq::<char>::empty() };
                    assert(o + (pre + seq![c] + rest) =~= out@ + rest);
                }
                i = i + n;
            },
            None => {
                i += 1;
            },
        }
    }
    assert(out@ + Seq::<char>::empty() =~= out@);
    out
}

/// The namespace that the innermost binding of `p` in `frame` gives.
pub open spec fn frame_binding(frame: Seq<(Option<String>, String)>, p: Option<Seq<char>>) -> Option<Seq<char>>
    decreases frame.len(),
{
    if frame.len() == 0 {
        None
    } else if crate::tree::opt_string_view(frame.last().0) == p {
        Some(frame.last().1@)
    } else {
        frame_binding(frame.drop_last(), p)
    }
}

/// The namespace bound to `p` by the innermost frame that binds it.
pub open spec fn scope_binding(stack: Seq<Vec<(Option<String>, String)>>, p: Option<Seq<char>>) -> Option<Seq<char>>
    decreases stack.len(),
{
    if stack.len() == 0 {
        None
    } else {
        match frame_binding(stack.last()@, p) {
            Some(u) => Some(u),
            None => scope_binding(stack.drop_last(), p),
        }
    }
}

impl<'a> Parser<'a> {
    /// The namespace bound to `prefix` in scope.
    fn lookup_ns(&self, prefix: &Option<String>) -> (r: Option<String>)
        ensures
            crate::tree::opt_string_view(r) == (if crate::tree::opt_string_view(*prefix) == Some("xml"@) {
                Some(XML_NS@)
            } else if crate::tree::opt_string_view(*prefix) == Some("xmlns"@) {
                Some(XMLNS_NS@)
            } else {
                scope_binding(self.ns_stack@, crate::tree::opt_string_view(*prefix))
            }),
    {
        match prefix {
            Some(p) => {
                if str_eq(p.as_str(), "xml") {
                    return Some(String::from_str(XML_NS));
                }
                if str_eq(p.as_str(), "xmlns") {
                    return Some(String::from_str(XMLNS_NS));
                }
            },
            None => {},
        }
        let ghost p = crate::tree::opt_string_view(*prefix);
        assert(p != Some("xml"@) && p != Some("xmlns"@));
        let mut f = self.ns_stack.len();
        assert(self.ns_stack@.take(f as int) =~= self.ns_stack@);
        while f > 0
            invariant
                f <= self.ns_stack.len(),
                p == crate::tree::opt_string_view(*prefix),
                p != Some("xml"@) && p != Some("xmlns"@),
                scope_binding(self.ns_stack@, p) == scope_binding(self.ns_stack@.take(f as int), p),
            decreases f,
        {
            f -= 1;
            let frame = &self.ns_stack[f];
            assert(self.ns_stack@.take(f + 1).last() == self.ns_stack@[f as int]);
            assert(self.ns_stack@.take(f + 1).drop_last() =~= self.ns_stack@.take(f as int));
            let mut k = frame.len();
            assert(frame@.take(k as int) =~= frame@);
            while k > 0
                invariant
                    k <= frame.len(),
                    p == crate::tree::opt_string_view(*prefix),
                    p != Some("xml"@) && p != Some("xmlns"@),
                    frame_binding(frame@, p) == frame_binding(frame@.take(k as int), p),
                f < self.ns_stack@.len(),
                *frame == self.ns_stack@[f as int],
                scope_binding(self.ns_stack@, p) == scope_binding(self.ns_stack@.take(f + 1), p),
                self.ns_stack@.take(f + 1).last() == self.ns_stack@[f as int],
                decreases k,
            {
                k -= 1;
                assert(frame@.take(k + 1).last() == frame@[k as int]);
                assert(frame@.take(k + 1).drop_last() =~= frame@.take(k as int));
                let same = match (&frame[k].0, prefix) {
                    (Some(a), Some(b)) => str_eq(a.as_str(), b.as_str()),
                    (None, None) => true,
                    _ => false,
                };
                if same {
                    assert(crate::tree::opt_string_view(frame@[k as int].0) == p);
                    assert(frame_binding(frame@.take(k + 1), p) == Some(frame@[k as int].1@));
                    assert(frame_binding(self.ns_stack@.take(f + 1).last()@, p) == Some(frame@[k as int].1@));
                    assert(scope_binding(self.ns_stack@.take(f + 1), p) == Some(frame@[k as int].1@));
                    return Some(frame[k].1.clone());
                }
            }
            assert(frame@.take(0) =~= Seq::<(Option<String>, String)>::empty());
        }
        assert(self.ns_stack@.take(0) =~= Seq::<Vec<(Option<String>, String)>>::empty());
        None
    }

    /// An attribute value literal, with references expanded and literal
    /// tabs and line breaks read as spaces. Returns the value and the offset
    /// of its first character.
    fn parse_att_value(&mut self) -> (r: Result<(String, usize), XmlError>)
        requires
            old(self).inv(),
        ensures
            final(self).inv(),
            final(self).after(*old(self)),
            final(self).doc == old(self).doc,
            final(self).char_buf == old(self).char_buf,
            final(self).depth == old(self).depth,
            r is Ok ==> final(self).pos > old(self).pos,
    {
        let q = match self.peek_byte() {
            Some(b) => b,
            None => {
                return Err(self.err(XML_ERR_ATTRIBUTE_WITHOUT_VALUE, "Attribute value expected"));
            },
        };
        if q != 0x27 && q != 0x22 {
            return Err(self.err(XML_ERR_ATTRIBUTE_WITHOUT_VALUE, "Attribute value expected"));
        }
        self.bump_byte();
        let start = self.pos;
        let mut val = String::new();
        loop
            invariant
                self.inv(),
                self.after(*old(self)),
                self.pos > old(self).pos,
                self.doc == old(self).doc,
                self.char_buf == old(self).char_buf,
                self.depth == old(self).depth,
            decreases self.input.len() - self.pos,
        {
            let b = match self.peek_byte() {
                Some(b) => b,
                None => {
                    return Err(self.err(XML_ERR_LITERAL_NOT_FINISHED, "Unterminated attribute"));
                },
            };
            if b == q {
                self.bump_byte();
                break;
            }
            if b == 0x3c {
                return Err(self.err(XML_ERR_LT_IN_ATTRIBUTE, "'<' in attribute value"));
            }
            if b == 0x26 {
                self.bump_byte();
                if self.peek_byte() == Some(0x23u8) {
                    self.bump_byte();
                    let c = self.parse_char_ref()?;
                    push_char(&mut val, c);
                } else {
                    let name = self.parse_name()?;
                    self.expect_byte(0x3b, XML_ERR_ENTITYREF_SEMICOL_MISSING, "';' required")?;
                    match predefined_entity(name.as_str()) {
                        Some(c) => push_char(&mut val, c),
                        None => match self.lookup_entity(name.as_str()) {
                            Some(raw) => {
                                if has_byte(raw.as_str().as_bytes(), 0x3c) {
                                    return Err(self.err(XML_ERR_LT_IN_ATTRIBUTE, "'<' in entity is not allowed in attributes values"));
                                }
                                let ghost before = *self;
                                let ex = self.expand_entity(name.as_str(), raw.as_str(), 0)?;
                                val.append(ex.as_str());
                            },
                            None => {
                                if self.recover {
                                    let mut m = String::from_str("Entity '");
                                    m.append(name.as_str());
                                    m.append("' not defined");
                                    self.emit_error(m);
                                    val.append("&");
                                    val.append(name.as_str());
                                    val.append(";");
                                } else {
                                    let mut m = String::from_str("Entity '");
                                    m.append(name.as_str());
                                    m.append("' not defined");
                                    return Err(self.err_s(XML_ERR_UNDECLARED_ENTITY, m));
                                }
                            },
                        },
                    }
                }
                continue;
            }
            match self.next_char()? {
                None => {
                    return Err(self.err(XML_ERR_LITERAL_NOT_FINISHED, "Unterminated attribute"));
                },
                Some((c, n)) => {
                    if !xml_is_char(c as u32) {
                        return Err(self.err(XML_ERR_INVALID_CHAR, "invalid character in attribute value"));
                    }
                    if c == '\n' || c == '\t' {
                        push_char(&mut val, ' ');
                    } else {
                        push_char(&mut val, c);
                    }
                    self.bump_char(c, n);
                },
            }
        }
        Ok((val, start))
    }

    /// The declared type of an attribute, when the DTD declares it.
    fn declared_type(&self, ename: &str, aname: &str) -> (r: Option<String>)
        ensures
            r is Some <==> (self.doc.dtd matches Some(d) && crate::dtd::attr_declared(d, ename@, aname@)),
            r matches Some(t) ==> (self.doc.dtd matches Some(d) && exists|k: int|
                crate::dtd::first_attr_decl(d, ename@, aname@, k) && d.attributes@[k].2.att_type@ == t@),
    {
        match &self.doc.dtd {
            None => None,
            Some(d) => match crate::dtd::attr_decl_of(d, ename, aname) {
                Some(a) => Some(a.att_type.clone()),
                None => None,
            },
        }
    }
}

/// The bytes hold `x`.
fn has_byte(b: &[u8], x: u8) -> (r: bool)
    ensures
        r == b@.contains(x),
{
    let mut i: usize = 0;
    while i < b.len()
        invariant
            i <= b.len(),
            forall|k: int| 0 <= k < i ==> b@[k] != x,
        decreases b.len() - i,
    {
        if b[i] == x {
            return true;
        }
        i += 1;
    }
    false
}


impl<'a> Parser<'a> {
    /// The document type declaration after `<!DOCTYPE`: the name, the
    /// external identifier and the internal subset, which is parsed.
    fn parse_doctype(&mut self) -> (r: Result<(), XmlError>)
        requires
            old(self).inv(),
        ensures
            final(self).inv(),
            final(self).after(*old(self)),
            final(self).doc.nodes() == old(self).doc.nodes(),
            final(self).doc.root() == old(self).doc.root(),
            final(self).char_buf == old(self).char_buf,
            final(self).depth == old(self).depth,
    {
        self.skip_s();
        let name = self.parse_name()?;
        self.skip_s();
        let mut public_id: Option<String> = None;
        let mut system_id: Option<String> = None;
        if self.eat("SYSTEM") {
            self.skip_s();
            system_id = Some(self.parse_quoted()?);
        } else if self.eat("PUBLIC") {
            self.skip_s();
            let pid = self.parse_quoted()?;
            if !all_pubid(pid.as_str().as_bytes()) {
                return Err(self.err(XML_ERR_INVALID_CHAR, "Invalid character in public identifier"));
            }
            public_id = Some(pid);
            if !self.skip_s() {
                return Err(self.err(XML_ERR_SPACE_REQUIRED, "Space required after the Public Identifier"));
            }
            system_id = Some(self.parse_quoted()?);
        }
        self.skip_s();
        let mut int_subset: Option<String> = None;
        if self.peek_byte() == Some(0x5bu8) {
            self.bump_byte();
            let start = self.pos;
            let end = self.scan_subset()?;
            int_subset = Some(crate::sax::utf8_lossy(&self.input[start..end]));
        }
        self.skip_s();
        self.expect_byte(0x3e, XML_ERR_GT_REQUIRED, "'>' required")?;
        let mut dtd = match &int_subset {
            Some(s) => match crate::dtd::parse_dtd_subset(s.as_str(), self.old10) {
                Ok(d) => d,
                Err(e) => {
                    if self.recover {
                        XmlDtd::new()
                    } else {
                        return Err(e);
                    }
                },
            },
            None => XmlDtd::new(),
        };
        dtd.name = Some(name);
        dtd.public_id = public_id;
        dtd.system_id = system_id;
        dtd.int_subset = int_subset;
        self.doc.dtd = Some(dtd);
        Ok(())
    }

    /// Find the `]` that closes the internal subset, skipping literals,
    /// comments and processing instructions; returns its position and
    /// consumes it.
    fn scan_subset(&mut self) -> (r: Result<usize, XmlError>)
        requires
            old(self).inv(),
        ensures
            final(self).inv(),
            final(self).after(*old(self)),
            final(self).doc == old(self).doc,
            final(self).char_buf == old(self).char_buf,
            final(self).depth == old(self).depth,
            r matches Ok(e) ==> old(self).pos <= e < final(self).pos,
    {
        let mut depth: usize = 1;
        loop
            invariant
                self.inv(),
                self.after(*old(self)),
                self.doc == old(self).doc,
                self.char_buf == old(self).char_buf,
                self.depth == old(self).depth,
                depth >= 1,
            decreases self.input.len() - self.pos,
        {
            if self.eat("<!--") {
                let ghost p0 = self.pos;
                loop
                    invariant
                        self.inv(),
                        self.pos >= p0,
                        self.after(*old(self)),
                        self.doc == old(self).doc,
                        self.char_buf == old(self).char_buf,
                        self.depth == old(self).depth,
                    decreases self.input.len() - self.pos,
                {
                    if self.eat("-->") {
                        break;
                    }
                    if self.eof() {
                        return Err(self.err(XML_ERR_DOCUMENT_END, "Unterminated DOCTYPE"));
                    }
                    self.bump_byte();
                }
                continue;
            }
            if self.eat("<?") {
                let ghost p0 = self.pos;
                loop
                    invariant
                        self.inv(),
                        self.pos >= p0,
                        self.after(*old(self)),
                        self.doc == old(self).doc,
                        self.char_buf == old(self).char_buf,
                        self.depth == old(self).depth,
                    decreases self.input.len() - self.pos,
                {
                    if self.eat("?>") {
                        break;
                    }
                    if self.eof() {
                        return Err(self.err(XML_ERR_DOCUMENT_END, "Unterminated DOCTYPE"));
                    }
                    self.bump_byte();
                }
                continue;
            }
            let b = match self.peek_byte() {
                Some(b) => b,
                None => {
                    return Err(self.err(XML_ERR_DOCUMENT_END, "Unterminated DOCTYPE"));
                },
            };
            if b == 0x22 || b == 0x27 {
                self.bump_byte();
                let ghost p0 = self.pos;
                loop
                    invariant
                        self.inv(),
                        self.pos >= p0,
                        self.after(*old(self)),
                        self.doc == old(self).doc,
                        self.char_buf == old(self).char_buf,
                        self.depth == old(self).depth,
                    decreases self.input.len() - self.pos,
                {
                    match self.peek_byte() {
                        None => {
                            return Err(self.err(XML_ERR_DOCUMENT_END, "Unterminated DOCTYPE"));
                        },
                        Some(x) => {
                            self.bump_byte();
                            if x == b {
                                break;
                            }
                        },
                    }
                }
                continue;
            }
            let at = self.pos;
            self.bump_byte();
            if b == 0x5b {
                depth = depth + if depth < 1000000 { 1 } else { 0 };
            } else if b == 0x5d {
                if depth == 1 {
                    return Ok(at);
                }
                depth -= 1;
            }
        }
    }

    /// A start tag: the attributes, the namespace frame, the SAX event and
    /// the element node under `parent`. `None` for an empty-element tag,
    /// which is then already closed.
    #[verifier::rlimit(100)]
    #[verifier::spinoff_prover]
    fn open_element(&mut self, parent: NodeId) -> (r: Result<Option<Open>, XmlError>)
        requires
            old(self).inv(),
            old(self).doc.has(parent),
            parent.0 == 0 ==> old(self).doc.root() is None,
        ensures
            parent.0 == 0 && r is Ok ==> final(self).doc.root() is Some,
            r matches Ok(Some(o)) ==> o.elem.0 != 0,
            final(self).inv(),
            final(self).after(*old(self)),
            final(self).char_buf == old(self).char_buf,
            r is Ok ==> final(self).pos > old(self).pos,
            r matches Ok(Some(o)) ==> final(self).doc.has(o.elem),
            old(self).depth >= (if has_opt(old(self).options, XML_PARSE_HUGE) { MAX_DEPTH_HUGE } else { MAX_DEPTH })
                ==> (r matches Err(e) && e.code == XML_ERR_INTERNAL_ERROR && *final(self) == *old(self)),
            r matches Ok(Some(_)) ==> final(self).depth == old(self).depth + 1,
            r matches Ok(None) ==> final(self).depth == old(self).depth,
            r is Ok ==> attr_keys_from(final(self).doc.nodes(), old(self).doc.nodes().len() as int),
            ({
                let b = old(self).input@;
                let p = old(self).pos as int;
                let e = letters_end(b, p + 1);
                let n0 = old(self).doc.nodes().len() as int;
                ((empty_tag_at(b, p) || open_tag_at(b, p)) && !old(self).old10 && n0 < MAX_NODES && old(self).depth < (if has_opt(
                    old(self).options,
                    XML_PARSE_HUGE,
                ) { MAX_DEPTH_HUGE } else { MAX_DEPTH })) ==> {
                    &&& empty_tag_at(b, p) ==> (r matches Ok(None) && final(self).pos == e + 2)
                    &&& open_tag_at(b, p) ==> (r matches Ok(Some(o)) && final(self).pos == e + 1
                        && o.elem == NodeId(n0 as u32) && o.qname@ == ascii_text(b, p + 1, e))
                    &&& final(self).options == old(self).options
                    &&& final(self).no_tree == old(self).no_tree
                    &&& final(self).old10 == old(self).old10
                    &&& final(self).doc.nodes().len() == n0 + 1
                    &&& final(self).doc.nodes()[n0].kind == NodeKind::Element
                    &&& final(self).doc.nodes()[n0].name@ == ascii_text(b, p + 1, e)
                    &&& final(self).doc.nodes()[n0].parent == Some(parent)
                    &&& (parent.0 == 0 ==> final(self).doc.root() == Some(NodeId(n0 as u32)))
                    &&& final(self).doc.dtd == old(self).doc.dtd
                }
            }),
    {
        let ghost b = self.input@;
        let ghost p0 = self.pos as int;
        let ghost e = letters_end(b, p0 + 1);
        let ghost n0 = self.doc.nodes().len() as int;
        let ghost law = (empty_tag_at(b, p0) || open_tag_at(b, p0)) && !self.old10 && n0 < MAX_NODES;
        let ghost endp = if empty_tag_at(b, p0) { e + 2 } else { e + 1 };
        proof {
            if law {
                lemma_letters_end(b, p0 + 1);
                lemma_name_read_letters(b, p0, has_opt(self.options, XML_PARSE_HUGE));
                reveal_strlit("/>");
                crate::util::lemma_encode_ascii("/>"@);
                assert(vstd::utf8::encode_utf8("/>"@) =~= seq![0x2fu8, 0x3eu8]);
                if b[e] == 0x2f {
                    assert(b.subrange(e, e + 2) =~= seq![0x2fu8, 0x3eu8]);
                }
            }
        }
        let cap = if opt(self.options, XML_PARSE_HUGE) { MAX_DEPTH_HUGE } else { MAX_DEPTH };
        if self.depth >= cap {
            return Err(self.err(XML_ERR_INTERNAL_ERROR, "Excessive element nesting"));
        }
        self.expect_byte(0x3c, XML_ERR_LT_REQUIRED, "'<' required")?;
        let qname = self.parse_name()?;
        assert(law ==> self.pos == e && qname@ == ascii_text(b, p0 + 1, e));
        let mut raw: Vec<RawAttr> = Vec::new();
        loop
            invariant
                old(self).depth < (if has_opt(old(self).options, XML_PARSE_HUGE) { MAX_DEPTH_HUGE } else { MAX_DEPTH }),
                law == ((empty_tag_at(old(self).input@, old(self).pos as int) || open_tag_at(old(self).input@, old(self).pos as int)) && !old(self).old10 && old(self).doc.nodes().len() < MAX_NODES),
                endp == (if empty_tag_at(old(self).input@, old(self).pos as int) { e + 2 } else { e + 1 }),
                b == old(self).input@,
                p0 == old(self).pos as int,
                e == letters_end(b, p0 + 1),
                n0 == old(self).doc.nodes().len() as int,
                law ==> (b[e] == 0x2f && e + 2 <= b.len() && b[e + 1] == 0x3e) || (b[e] == 0x3e && e + 1 <= b.len()),
                law ==> (empty_tag_at(b, p0) <==> b[e] == 0x2f),
                law ==> self.pos == e && raw@.len() == 0,
                law ==> self.options == old(self).options && self.no_tree == old(self).no_tree && self.old10 == old(self).old10,
                law ==> vstd::utf8::encode_utf8("/>"@) == seq![0x2fu8, 0x3eu8],
                law && b[e] == 0x2f ==> b.subrange(e, e + 2) == seq![0x2fu8, 0x3eu8],
                b == old(self).input@,
                self.inv(),
                self.after(*old(self)),
                self.pos > old(self).pos,
                self.doc == old(self).doc,
                self.char_buf == old(self).char_buf,
                self.depth == old(self).depth,
            decreases self.input.len() - self.pos,
        {
            let had_ws = self.skip_s();
            if self.looking_at("/>") || self.peek_byte() == Some(0x3eu8) {
                break;
            }
            if !had_ws {
                return Err(self.err(XML_ERR_SPACE_REQUIRED, "attributes construct error"));
            }
            let an = self.parse_name()?;
            self.skip_s();
            self.expect_byte(0x3d, XML_ERR_EQUAL_REQUIRED, "'=' required")?;
            self.skip_s();
            let (value, value_off) = self.parse_att_value()?;
            raw.push(RawAttr { qname: an, value, value_off });
        }
        let empty = if self.eat("/>") {
            true
        } else {
            self.expect_byte(0x3e, XML_ERR_GT_REQUIRED, "'>' required")?;
            false
        };
        assert(law ==> empty == (b[e] == 0x2f) && self.pos == endp);
        let mut frame: Vec<(Option<String>, String)> = Vec::new();
        let mut i: usize = 0;
        while i < raw.len()
            invariant
                law ==> raw@.len() == 0 && frame@.len() == 0,
                old(self).depth < (if has_opt(old(self).options, XML_PARSE_HUGE) { MAX_DEPTH_HUGE } else { MAX_DEPTH }),
                law == ((empty_tag_at(old(self).input@, old(self).pos as int) || open_tag_at(old(self).input@, old(self).pos as int)) && !old(self).old10 && old(self).doc.nodes().len() < MAX_NODES),
                endp == (if empty_tag_at(old(self).input@, old(self).pos as int) { e + 2 } else { e + 1 }),
                b == old(self).input@,
                p0 == old(self).pos as int,
                e == letters_end(b, p0 + 1),
                n0 == old(self).doc.nodes().len() as int,
                law ==> (b[e] == 0x2f && e + 2 <= b.len() && b[e + 1] == 0x3e) || (b[e] == 0x3e && e + 1 <= b.len()),
                law ==> (empty_tag_at(b, p0) <==> b[e] == 0x2f),
                law ==> self.pos == endp,
                law ==> self.options == old(self).options && self.no_tree == old(self).no_tree && self.old10 == old(self).old10,
                self.inv(),
                self.after(*old(self)),
                self.pos > old(self).pos,
                self.doc == old(self).doc,
                self.char_buf == old(self).char_buf,
                self.depth == old(self).depth,
                i <= raw.len(),
            decreases raw.len() - i,
        {
            let (ap, al) = split_qname(raw[i].qname.as_str());
            let value = raw[i].value.clone();
            if ap.is_none() && str_eq(al.as_str(), "xmlns") {
                if value.as_str().len() > 0 && !uri_has_scheme(value.as_str()) {
                    let mut m = String::from_str("xmlns: URI ");
                    m.append(value.as_str());
                    m.append(" is not absolute\n");
                    self.emit_warning(m);
                }
                frame.push((None, value));
            } else if is_some_str(&ap, "xmlns") {
                if value.as_str().len() > 0 && !uri_has_scheme(value.as_str()) && opt(self.options, XML_PARSE_PEDANTIC) {
                    let mut m = String::from_str("xmlns:");
                    m.append(al.as_str());
                    m.append(": URI ");
                    m.append(value.as_str());
                    m.append(" is not absolute\n");
                    self.emit_warning(m);
                }
                if str_eq(al.as_str(), "xml") {
                    if !str_eq(value.as_str(), XML_NS) {
                        return Err(self.err(XML_NS_ERR_UNDEFINED_NAMESPACE, "xml namespace prefix mapped to wrong URI"));
                    }
                } else if str_eq(value.as_str(), XML_NS) {
                    return Err(self.err(XML_NS_ERR_UNDEFINED_NAMESPACE, "xml namespace URI mapped to wrong prefix"));
                }
                if str_eq(al.as_str(), "xmlns") {
                    return Err(self.err(XML_NS_ERR_UNDEFINED_NAMESPACE, "redefinition of the xmlns prefix is forbidden"));
                }
                if str_eq(value.as_str(), XMLNS_NS) {
                    return Err(self.err(XML_NS_ERR_UNDEFINED_NAMESPACE, "reuse of the xmlns namespace name is forbidden"));
                }
                if value.as_str().len() == 0 {
                    return Err(self.err(XML_NS_ERR_UNDEFINED_NAMESPACE, "Empty XML namespace is not allowed"));
                }
                frame.push((Some(al), value));
            }
            i += 1;
        }
        self.ns_stack.push(frame.clone());
        proof {
            if law {
                crate::util::lemma_encode_ascii(qname@);
                assert(qname@ == ascii_text(b, p0 + 1, e));
                lemma_letters_end(b, p0 + 1);
                assert forall|k: int| 0 <= k < vstd::utf8::encode_utf8(qname@).len()
                    implies vstd::utf8::encode_utf8(qname@)[k] != 0x3au8 by {
                    assert(ascii_letter(b[p0 + 1 + k]));
                }
            }
        }
        let (eprefix, elocal) = split_qname(qname.as_str());
        let mut prefix = eprefix;
        let mut local = elocal;
        let mut uri = self.lookup_ns(&prefix);
        if prefix.is_some() && uri.is_none() {
            let mut m = String::from_str("Namespace prefix ");
            match &prefix {
                Some(p) => m.append(p.as_str()),
                None => {},
            }
            m.append(" on ");
            m.append(local.as_str());
            m.append(" is not defined\n");
            self.emit_error(m);
            prefix = None;
            local = qname.clone();
        }
        let mut attrs: Vec<SaxAttr> = Vec::new();
        let mut k: usize = 0;
        while k < raw.len()
            invariant
                old(self).depth < (if has_opt(old(self).options, XML_PARSE_HUGE) { MAX_DEPTH_HUGE } else { MAX_DEPTH }),
                law == ((empty_tag_at(old(self).input@, old(self).pos as int) || open_tag_at(old(self).input@, old(self).pos as int)) && !old(self).old10 && old(self).doc.nodes().len() < MAX_NODES),
                endp == (if empty_tag_at(old(self).input@, old(self).pos as int) { e + 2 } else { e + 1 }),
                b == old(self).input@,
                p0 == old(self).pos as int,
                e == letters_end(b, p0 + 1),
                n0 == old(self).doc.nodes().len() as int,
                law ==> (b[e] == 0x2f && e + 2 <= b.len() && b[e + 1] == 0x3e) || (b[e] == 0x3e && e + 1 <= b.len()),
                law ==> (empty_tag_at(b, p0) <==> b[e] == 0x2f),
                law ==> self.pos == endp,
                law ==> self.options == old(self).options && self.no_tree == old(self).no_tree && self.old10 == old(self).old10,
                self.inv(),
                self.after(*old(self)),
                self.pos > old(self).pos,
                self.doc == old(self).doc,
                self.char_buf == old(self).char_buf,
                self.depth == old(self).depth,
                k <= raw.len(),
                sax_keys_distinct(attrs@),
                law ==> raw@.len() == 0,
                attrs@.len() <= k,
            decreases raw.len() - k,
        {
            let (ap, al) = split_qname(raw[k].qname.as_str());
            let is_ns = (ap.is_none() && str_eq(al.as_str(), "xmlns")) || is_some_str(&ap, "xmlns");
            if !is_ns {
                let mut aprefix = ap;
                let mut alocal = al;
                let auri = if aprefix.is_some() {
                    self.lookup_ns(&aprefix)
                } else {
                    None
                };
                if aprefix.is_some() && auri.is_none() {
                    let mut m = String::from_str("Namespace prefix ");
                    match &aprefix {
                        Some(p) => m.append(p.as_str()),
                        None => {},
                    }
                    m.append(" for ");
                    m.append(alocal.as_str());
                    m.append(" on ");
                    m.append(qname.as_str());
                    m.append(" is not defined\n");
                    self.emit_error(m);
                    aprefix = None;
                    alocal = raw[k].qname.clone();
                }
                if has_attr(&attrs, alocal.as_str(), &auri) {
                    return Err(self.err(XML_ERR_ATTRIBUTE_REDEFINED, "Attribute redefined"));
                }
                let mut value = raw[k].value.clone();
                match self.declared_type(qname.as_str(), raw[k].qname.as_str()) {
                    Some(t) => {
                        if !str_eq(t.as_str(), "CDATA") {
                            value = normalize_tokens(value.as_str());
                        }
                    },
                    None => {},
                }
                let ghost a0 = attrs@;
                attrs.push(SaxAttr {
                    local: alocal,
                    prefix: aprefix,
                    uri: auri,
                    value,
                    value_input_off: Some(raw[k].value_off),
                });
                proof {
                    assert forall|j: int, m: int| 0 <= j < m < attrs@.len() implies !((#[trigger] attrs@[j]).local@
                        == (#[trigger] attrs@[m]).local@ && crate::tree::opt_string_view(attrs@[j].uri)
                        == crate::tree::opt_string_view(attrs@[m].uri)) by {
                        if m < a0.len() {
                            assert(attrs@[j] == a0[j] && attrs@[m] == a0[m]);
                        } else {
                            assert(attrs@[j] == a0[j]);
                        }
                    }
                }
            }
            k += 1;
        }
        self.emit(SaxEvent::StartElementNs {
            local: local.clone(),
            prefix: prefix.clone(),
            uri: uri.clone(),
            namespaces: frame.clone(),
            attributes: attrs.clone(),
            nb_defaulted: 0,
        });
        self.room(1)?;
        let elem = self.doc.alloc_node(NodeKind::Element, local.clone());
        self.doc.set_ns_parts(elem, prefix.clone(), uri.clone());
        assert(self.doc.nodes().len() == elem.0 + 1);
        let mut f: usize = 0;
        while f < frame.len()
            invariant
                old(self).depth < (if has_opt(old(self).options, XML_PARSE_HUGE) { MAX_DEPTH_HUGE } else { MAX_DEPTH }),
                law == ((empty_tag_at(old(self).input@, old(self).pos as int) || open_tag_at(old(self).input@, old(self).pos as int)) && !old(self).old10 && old(self).doc.nodes().len() < MAX_NODES),
                endp == (if empty_tag_at(old(self).input@, old(self).pos as int) { e + 2 } else { e + 1 }),
                b == old(self).input@,
                p0 == old(self).pos as int,
                e == letters_end(b, p0 + 1),
                n0 == old(self).doc.nodes().len() as int,
                law ==> (b[e] == 0x2f && e + 2 <= b.len() && b[e + 1] == 0x3e) || (b[e] == 0x3e && e + 1 <= b.len()),
                law ==> (empty_tag_at(b, p0) <==> b[e] == 0x2f),
                law ==> self.pos == endp,
                law ==> self.options == old(self).options && self.no_tree == old(self).no_tree && self.old10 == old(self).old10,
                self.inv(),
                self.after(*old(self)),
                self.pos > old(self).pos,
                self.doc.has(elem),
                self.doc.has(parent),
                elem.0 >= old(self).doc.nodes().len(),
                self.doc.nodes()[elem.0 as int].kind == NodeKind::Element,
                self.doc.root() == old(self).doc.root(),
                self.doc.root() matches Some(rt) ==> rt.0 < elem.0,
                self.char_buf == old(self).char_buf,
                self.depth == old(self).depth,
                f <= frame.len(),
                law ==> attrs@.len() == 0,
                law ==> self.doc.nodes()[elem.0 as int].name@ == local@,
                law ==> local@ == ascii_text(b, p0 + 1, e),
                law ==> self.doc.dtd == old(self).doc.dtd,
                elem.0 == old(self).doc.nodes().len(),
                self.doc.nodes().len() == elem.0 + 1,
                sax_keys_distinct(attrs@),
            decreases frame.len() - f,
        {
            self.doc.push_ns_def(elem, frame[f].0.clone(), frame[f].1.clone());
            f += 1;
        }
        if !self.no_tree {
            let mut a: usize = 0;
            while a < attrs.len()
                invariant
                    old(self).depth < (if has_opt(old(self).options, XML_PARSE_HUGE) { MAX_DEPTH_HUGE } else { MAX_DEPTH }),
                    law == ((empty_tag_at(old(self).input@, old(self).pos as int) || open_tag_at(old(self).input@, old(self).pos as int)) && !old(self).old10 && old(self).doc.nodes().len() < MAX_NODES),
                endp == (if empty_tag_at(old(self).input@, old(self).pos as int) { e + 2 } else { e + 1 }),
                    b == old(self).input@,
                    p0 == old(self).pos as int,
                    e == letters_end(b, p0 + 1),
                    n0 == old(self).doc.nodes().len() as int,
                    law ==> (b[e] == 0x2f && e + 2 <= b.len() && b[e + 1] == 0x3e) || (b[e] == 0x3e && e + 1 <= b.len()),
                law ==> (empty_tag_at(b, p0) <==> b[e] == 0x2f),
                    law ==> self.pos == endp,
                    law ==> self.options == old(self).options && self.no_tree == old(self).no_tree && self.old10 == old(self).old10,
                    self.inv(),
                    self.after(*old(self)),
                    self.pos > old(self).pos,
                    self.doc.has(elem),
                    self.doc.has(parent),
                    elem.0 >= old(self).doc.nodes().len(),
                    self.doc.nodes()[elem.0 as int].kind == NodeKind::Element,
                    self.doc.root() == old(self).doc.root(),
                    self.doc.root() matches Some(rt) ==> rt.0 < elem.0,
                    self.char_buf == old(self).char_buf,
                    self.depth == old(self).depth,
                    a <= attrs.len(),
                    law ==> attrs@.len() == 0,
                    law ==> self.doc.nodes()[elem.0 as int].name@ == local@,
                    law ==> self.doc.dtd == old(self).doc.dtd,
                    elem.0 == old(self).doc.nodes().len(),
                    self.doc.nodes().len() == elem.0 + 1 + a,
                    sax_keys_distinct(attrs@),
                    forall|i: int| elem.0 < i < self.doc.nodes().len() ==> {
                        &&& (#[trigger] self.doc.nodes()[i]).kind == NodeKind::Attribute
                        &&& self.doc.nodes()[i].name@ == attrs@[i - elem.0 - 1].local@
                        &&& crate::tree::opt_string_view(self.doc.nodes()[i].ns_uri)
                            == crate::tree::opt_string_view(attrs@[i - elem.0 - 1].uri)
                    },
                decreases attrs.len() - a,
            {
                self.room(1)?;
                let ghost s0 = self.doc.nodes();
                let aid = self.doc.add_attr_owned(
                    elem,
                    attrs[a].local.clone(),
                    attrs[a].prefix.clone(),
                    attrs[a].value.clone(),
                );
                let ghost s1 = self.doc.nodes();
                self.doc.set_ns_parts(aid, attrs[a].prefix.clone(), attrs[a].uri.clone());
                proof {
                    assert forall|i: int| elem.0 < i < self.doc.nodes().len() implies {
                        &&& (#[trigger] self.doc.nodes()[i]).kind == NodeKind::Attribute
                        &&& self.doc.nodes()[i].name@ == attrs@[i - elem.0 - 1].local@
                        &&& crate::tree::opt_string_view(self.doc.nodes()[i].ns_uri)
                            == crate::tree::opt_string_view(attrs@[i - elem.0 - 1].uri)
                    } by {
                        if i < aid.0 {
                            assert(s1.subrange(0, aid.0 as int)[i] == s1[i]);
                            assert(s1[i].name == s0[i].name && s1[i].ns_uri == s0[i].ns_uri && s1[i].kind == s0[i].kind);
                        }
                    }
                }
                a += 1;
            }
        }
        let ghost mid = self.doc.nodes();
        proof {
            assert(attr_keys_from(mid, old(self).doc.nodes().len() as int)) by {
                assert forall|i: int, j: int| old(self).doc.nodes().len() <= i < j < mid.len()
                    && (#[trigger] mid[i]).kind == NodeKind::Attribute && (#[trigger] mid[j]).kind == NodeKind::Attribute
                    implies !(mid[i].name@ == mid[j].name@
                    && crate::tree::opt_string_view(mid[i].ns_uri) == crate::tree::opt_string_view(mid[j].ns_uri)) by {
                    assert(i != elem.0 as int);
                    assert(attrs@[i - elem.0 - 1].local@ == mid[i].name@);
                    assert(attrs@[j - elem.0 - 1].local@ == mid[j].name@);
                }
            }
        }
        self.doc.xml_add_child(parent, elem);
        proof {
            assert forall|i: int, j: int| old(self).doc.nodes().len() <= i < j < self.doc.nodes().len()
                && (#[trigger] self.doc.nodes()[i]).kind == NodeKind::Attribute
                && (#[trigger] self.doc.nodes()[j]).kind == NodeKind::Attribute
                implies !(self.doc.nodes()[i].name@ == self.doc.nodes()[j].name@
                && crate::tree::opt_string_view(self.doc.nodes()[i].ns_uri)
                == crate::tree::opt_string_view(self.doc.nodes()[j].ns_uri)) by {
                assert(crate::tree::same_payload(self.doc.nodes()[i], mid[i]));
                assert(crate::tree::same_payload(self.doc.nodes()[j], mid[j]));
            }
            assert(crate::tree::same_payload(self.doc.nodes()[elem.0 as int], mid[elem.0 as int]));
            if let Some(rt) = old(self).doc.root() {
                assert(crate::tree::same_payload(self.doc.nodes()[rt.0 as int], mid[rt.0 as int]));
            }
        }
        proof {
            if law {
                assert(self.doc.nodes().len() == n0 + 1);
                assert(self.doc.nodes()[n0].kind == NodeKind::Element);
                assert(self.doc.nodes()[n0].name@ == ascii_text(b, p0 + 1, e));
                assert(self.doc.nodes()[n0].parent == Some(parent));
                assert(parent.0 == 0 ==> self.doc.root() == Some(NodeId(n0 as u32)));
                assert(self.doc.dtd == old(self).doc.dtd);
                assert(self.pos == endp);
            }
        }
        if empty {
            self.emit(SaxEvent::EndElementNs { local: local.clone(), prefix: prefix.clone(), uri: uri.clone() });
            self.ns_stack.pop();
            return Ok(None);
        }
        self.depth = self.depth + 1;
        Ok(Some(Open { qname, local, prefix, uri, elem }))
    }

    /// The end tag of the open element `o`.
    fn close_element(&mut self, o: &Open) -> (r: Result<(), XmlError>)
        requires
            old(self).inv(),
        ensures
            final(self).inv(),
            final(self).after(*old(self)),
            final(self).doc == old(self).doc,
            final(self).char_buf == old(self).char_buf,
            r is Ok ==> final(self).pos > old(self).pos,
            ({
                let b = old(self).input@;
                let p = old(self).pos as int;
                let nr = name_read(b, p + 2, old(self).old10, has_opt(old(self).options, XML_PARSE_HUGE));
                &&& (r is Ok <==> (crate::util::bytes_at(b, p, seq![0x3cu8, 0x2fu8]) && (nr matches Some((nm, e1))
                    && space_run_end(b, e1) < b.len() && b[space_run_end(b, e1)] == 0x3e && nm == o.qname@)))
                &&& (r is Ok ==> (nr matches Some((nm, e1)) && final(self).pos == space_run_end(b, e1) + 1
                    && final(self).ns_stack@ == (if old(self).ns_stack@.len() > 0 { old(self).ns_stack@.drop_last() } else { old(self).ns_stack@ })
                    && final(self).depth == (if old(self).depth > 0 { old(self).depth - 1 } else { 0 })))
            }),
    {
        proof {
            reveal_strlit("</");
            crate::util::lemma_encode_ascii("</"@);
            assert(vstd::utf8::encode_utf8("</"@) =~= seq![0x3cu8, 0x2fu8]);
        }
        if !self.eat("</") {
            let mut m = String::from_str("Premature end of data in tag ");
            m.append(o.local.as_str());
            return Err(self.err_s(XML_ERR_TAG_NOT_FINISHED, m));
        }
        let end_name = self.parse_name()?;
        self.skip_s();
        self.expect_byte(0x3e, XML_ERR_GT_REQUIRED, "'>' required")?;
        if !str_eq(end_name.as_str(), o.qname.as_str()) {
            let mut m = String::from_str("Opening and ending tag mismatch: ");
            m.append(o.qname.as_str());
            m.append(" and ");
            m.append(end_name.as_str());
            return Err(self.err_s(XML_ERR_TAG_NAME_MISMATCH, m));
        }
        self.emit(SaxEvent::EndElementNs { local: o.local.clone(), prefix: o.prefix.clone(), uri: o.uri.clone() });
        self.ns_stack.pop();
        if self.depth > 0 {
            self.depth = self.depth - 1;
        }
        Ok(())
    }
}

/// An attribute with this local name and namespace is in the list.
fn has_attr(attrs: &Vec<SaxAttr>, local: &str, uri: &Option<String>) -> (r: bool)
    ensures
        r == exists|k: int| 0 <= k < attrs@.len() && (#[trigger] attrs@[k]).local@ == local@
            && crate::tree::opt_string_view(attrs@[k].uri) == crate::tree::opt_string_view(*uri),
{
    let mut j: usize = 0;
    while j < attrs.len()
        invariant
            j <= attrs.len(),
            forall|k: int| 0 <= k < j ==> !((#[trigger] attrs@[k]).local@ == local@
                && crate::tree::opt_string_view(attrs@[k].uri) == crate::tree::opt_string_view(*uri)),
        decreases attrs.len() - j,
    {
        if str_eq(attrs[j].local.as_str(), local) && opt_str_same(&attrs[j].uri, uri) {
            return true;
        }
        j += 1;
    }
    false
}

/// `o` is `Some(s)` with `s` equal to `lit`.
fn is_some_str(o: &Option<String>, lit: &str) -> (r: bool) {
    match o {
        Some(s) => str_eq(s.as_str(), lit),
        None => false,
    }
}

/// Two optional strings are equal.
fn opt_str_same(a: &Option<String>, b: &Option<String>) -> (r: bool)
    ensures
        r == (crate::tree::opt_string_view(*a) == crate::tree::opt_string_view(*b)),
{
    match (a, b) {
        (None, None) => true,
        (Some(x), Some(y)) => str_eq(x.as_str(), y.as_str()),
        _ => false,
    }
}

/// Every byte is a `PubidChar`.
fn all_pubid(b: &[u8]) -> (r: bool)
    ensures
        r == forall|k: int| 0 <= k < b@.len() ==> crate::chvalid::is_pubid(#[trigger] b@[k] as u32),
{
    let mut i: usize = 0;
    while i < b.len()
        invariant
            i <= b.len(),
            forall|k: int| 0 <= k < i ==> crate::chvalid::is_pubid(#[trigger] b@[k] as u32),
        decreases b.len() - i,
    {
        if !xml_is_pubid_char_byte(b[i]) {
            return false;
        }
        i += 1;
    }
    true
}

fn xml_is_pubid_char_byte(b: u8) -> (r: bool)
    ensures
        r == crate::chvalid::is_pubid(b as u32),
{
    crate::chvalid::xml_is_pubid_char(b as u32)
}


/// Every open element names a node of the document.
/// `pat` occurs in `b` at `from` or later.
fn occurs_from(b: &[u8], from: usize, pat: &[u8]) -> (r: bool) {
    let mut i: usize = from;
    while i < b.len()
        decreases b.len() - i,
    {
        if starts_with_at(b, i, pat) {
            return true;
        }
        i += 1;
    }
    false
}

/// The tag starting at `p` ends, at a `>` outside any quoted attribute
/// value, within `b`.
fn tag_complete(b: &[u8], p: usize) -> (r: bool)
    requires
        p < b.len(),
{
    let mut quote: u8 = 0;
    let mut i: usize = p + 1;
    while i < b.len()
        invariant
            p < i,
        decreases b.len() - i,
    {
        let x = b[i];
        if quote != 0 {
            if x == quote {
                quote = 0;
            }
        } else if x == 0x22 || x == 0x27 {
            quote = x;
        } else if x == 0x3e {
            return true;
        }
        i += 1;
    }
    false
}

spec fn opens_in(open: Seq<Open>, doc: XmlDoc) -> bool {
    forall|i: int| 0 <= i < open.len() ==> doc.has(#[trigger] open[i].elem) && open[i].elem.0 != 0
}

impl<'a> Parser<'a> {
    /// The rest of the input is a proper prefix of a construct, which more
    /// input could still complete or change: a tag, comment, CDATA section,
    /// processing instruction or reference without its end, a `]` that may
    /// become `]]>`, a carriage return whose line feed may follow, or a
    /// character whose UTF-8 encoding is cut short.
    fn incomplete_construct(&self) -> (r: bool)
        requires
            self.pos <= self.input.len(),
        ensures
            ({
                let b = self.input@;
                let p = self.pos as int;
                let n = b.len() - p;
                &&& n == 0 ==> !r
                &&& n > 0 && b[p] == 0x3c && n < 2 ==> r
                &&& n > 0 && b[p] == 0x26 ==> (r <==> !b.subrange(p, b.len() as int).contains(0x3bu8))
                &&& n > 0 && b[p] == 0x5d ==> (r <==> n < 3)
                &&& n > 0 && b[p] == 0x0d ==> (r <==> n < 2)
                &&& n > 0 && b[p] < 0x80 && b[p] != 0x3c && b[p] != 0x26 && b[p] != 0x5d && b[p] != 0x0d ==> !r
                &&& n > 0 && 0xc0 <= b[p] < 0xe0 ==> (r <==> n < 2)
                &&& n > 0 && 0xe0 <= b[p] < 0xf0 ==> (r <==> n < 3)
                &&& n > 0 && 0xf0 <= b[p] < 0xf8 ==> (r <==> n < 4)
            }),
    {
        let b = self.input;
        let p = self.pos;
        let n = b.len() - p;
        if n == 0 {
            return false;
        }
        let c = b[p];
        if c == 0x3c {
            if n < 2 {
                return true;
            }
            if n >= 4 && b[p + 1] == 0x21 && b[p + 2] == 0x2d && b[p + 3] == 0x2d {
                return !occurs_from(b, p + 4, "-->".as_bytes());
            }
            if n >= 9 && starts_with_at(b, p, "<![CDATA[".as_bytes()) {
                return !occurs_from(b, p + 9, "]]>".as_bytes());
            }
            if b[p + 1] == 0x3f {
                return !occurs_from(b, p + 2, "?>".as_bytes());
            }
            if b[p + 1] == 0x21 && n < 9 {
                return true;
            }
            return !tag_complete(b, p);
        }
        if c == 0x26 {
            return !has_byte(&b[p..b.len()], 0x3b);
        }
        if c == 0x5d {
            return n < 3;
        }
        if c == 0x0d {
            return n < 2;
        }
        let need: usize = if c < 0x80 {
            1
        } else if c >= 0xc0 && c < 0xe0 {
            2
        } else if c >= 0xe0 && c < 0xf0 {
            3
        } else if c >= 0xf0 && c < 0xf8 {
            4
        } else {
            1
        };
        n < need
    }

    /// Content of `outer` and of everything opened inside it, driven by the
    /// explicit stack `open` rather than by recursion. Inside an entity's
    /// replacement (`in_entity`) every element must also close there.
    #[verifier::rlimit(100)]
    #[verifier::spinoff_prover]
    fn parse_content(&mut self, open: &mut Vec<Open>, outer: NodeId, in_entity: bool, edepth: u32, stream: bool) -> (r: Result<(), XmlError>)
        requires
            old(self).inv(),
            old(self).doc.has(outer),
            outer.0 != 0,
            opens_in(old(open)@, old(self).doc),
            edepth <= MAX_ENTITY_DEPTH,
        ensures
            final(self).inv(),
            final(self).after(*old(self)),
            opens_in(final(open)@, final(self).doc),
            r is Ok && !stream ==> final(open)@.len() == 0,
            r is Ok && !stream ==> final(self).pos >= final(self).input.len() || (!in_entity
                && crate::util::bytes_at(final(self).input@, final(self).pos as int, vstd::utf8::encode_utf8("</"@))),
            ({
                let b = old(self).input@;
                let n0 = old(self).doc.nodes().len() as int;
                (!stream && !in_entity && old(open)@.len() == 0 && old(self).char_buf@.len() == 0 && !old(self).no_tree
                    && !has_opt(old(self).options, XML_PARSE_NOBLANKS) && n0 < MAX_NODES) ==> match text_run(
                    b,
                    old(self).pos as int,
                ) {
                    Some((t, e)) => (t.len() > 0 && 4 * t.len() <= MAX_TEXT) ==> {
                        &&& r is Ok
                        &&& final(self).pos == e
                        &&& final(self).doc.nodes().len() == n0 + 1
                        &&& final(self).doc.nodes()[n0].kind == NodeKind::Text
                        &&& code_points(final(self).doc.nodes()[n0].content@) == t
                        &&& final(self).doc.nodes()[n0].parent == Some(outer)
                        &&& final(self).doc.dtd == old(self).doc.dtd
                        &&& final(self).options == old(self).options && final(self).old10 == old(self).old10
                        &&& forall|i: int| 0 <= i < n0 ==> crate::tree::same_payload(
                            #[trigger] final(self).doc.nodes()[i],
                            old(self).doc.nodes()[i],
                        )
                    },
                    None => true,
                }
            }),
        decreases MAX_ENTITY_DEPTH + 1 - edepth, 2nat,
    {
        let ghost b = self.input@;
        let ghost n0 = self.doc.nodes().len() as int;
        let ghost run = text_run(b, self.pos as int);
        let ghost law = !stream && !in_entity && open@.len() == 0 && self.char_buf@.len() == 0 && !self.no_tree
            && !has_opt(self.options, XML_PARSE_NOBLANKS) && n0 < MAX_NODES && run is Some
            && run.unwrap().0.len() > 0 && 4 * run.unwrap().0.len() <= MAX_TEXT;
        let ghost t = run.unwrap().0;
        let ghost e = run.unwrap().1;
        proof {
            lemma_prolog_literals();
            lemma_content_literals();
        }
        let mut parent = match open.last() {
            Some(o) => o.elem,
            None => outer,
        };
        loop
            invariant
                law == (!stream && !in_entity && old(open)@.len() == 0 && old(self).char_buf@.len() == 0
                    && !old(self).no_tree && !has_opt(old(self).options, XML_PARSE_NOBLANKS)
                    && n0 < MAX_NODES && text_run(b, old(self).pos as int) is Some
                    && text_run(b, old(self).pos as int).unwrap().0.len() > 0
                    && 4 * text_run(b, old(self).pos as int).unwrap().0.len() <= MAX_TEXT),
                b == old(self).input@,
                n0 == old(self).doc.nodes().len() as int,
                t == text_run(b, old(self).pos as int).unwrap().0,
                e == text_run(b, old(self).pos as int).unwrap().1,
                law ==> {
                    &&& open@.len() == 0
                    &&& parent == outer
                    &&& self.doc == old(self).doc
                    &&& self.no_tree == old(self).no_tree
                    &&& self.options == old(self).options
                    &&& self.old10 == old(self).old10
                    &&& text_run(b, self.pos as int) matches Some((rest, e2))
                        && e2 == e && code_points(self.char_buf@) + rest == t
                },
                vstd::utf8::encode_utf8("<!--"@) == seq![0x3cu8, 0x21u8, 0x2du8, 0x2du8],
                vstd::utf8::encode_utf8("<?"@) == seq![0x3cu8, 0x3fu8],
                vstd::utf8::encode_utf8("</"@) == seq![0x3cu8, 0x2fu8],
                vstd::utf8::encode_utf8("<![CDATA["@)[0] == 0x3cu8,
                vstd::utf8::encode_utf8("<![CDATA["@).len() == 9,
                vstd::utf8::encode_utf8("]]>"@) == seq![0x5du8, 0x5du8, 0x3eu8],
                self.inv(),
                self.after(*old(self)),
                self.doc.has(outer),
                self.doc.has(parent),
                parent.0 != 0,
                outer.0 != 0,
                opens_in(open@, self.doc),
                edepth <= MAX_ENTITY_DEPTH,
            decreases self.input.len() - self.pos,
        {
            proof {
                if law {
                    lemma_text_run_step(b, self.pos as int);
                    if e != self.pos {
                        lemma_not_at(b, self.pos as int, vstd::utf8::encode_utf8("</"@));
                        lemma_not_at(b, self.pos as int, vstd::utf8::encode_utf8("<!--"@));
                        lemma_not_at(b, self.pos as int, vstd::utf8::encode_utf8("<![CDATA["@));
                        lemma_not_at(b, self.pos as int, vstd::utf8::encode_utf8("<?"@));
                        lemma_not_at(b, self.pos as int, vstd::utf8::encode_utf8("]]>"@));
                    } else {
                        assert(b.subrange(self.pos as int, self.pos + 2) =~= seq![0x3cu8, 0x2fu8]);
                        lemma_encode_len_le(self.char_buf@);
                        assert(code_points(self.char_buf@).len() == self.char_buf@.len());
                    }
                }
            }
            if self.eof() {
                if stream {
                    return Ok(());
                }
                self.flush_chars(parent)?;
                match open.last() {
                    Some(o) => {
                        let mut m = String::from_str("Premature end of data in tag ");
                        m.append(o.local.as_str());
                        return Err(self.err_s(XML_ERR_TAG_NOT_FINISHED, m));
                    },
                    None => {
                        return Ok(());
                    },
                }
            }
            if stream && self.incomplete_construct() {
                return Ok(());
            }
            if self.looking_at("</") {
                self.flush_chars(parent)?;
                match open.pop() {
                    Some(o) => {
                        self.close_element(&o)?;
                        parent = match open.last() {
                            Some(t) => {
                                assert(open@[open@.len() - 1] == *t);
                                t.elem
                            },
                            None => outer,
                        };
                        continue;
                    },
                    None => {
                        if in_entity {
                            return Err(self.err(XML_ERR_TAG_NOT_FINISHED, "unbalanced end tag in entity replacement"));
                        }
                        return Ok(());
                    },
                }
            }
            if self.eat("<!--") {
                self.flush_chars(parent)?;
                self.parse_comment(parent)?;
                continue;
            }
            if self.eat("<![CDATA[") {
                self.flush_chars(parent)?;
                self.parse_cdata(parent)?;
                continue;
            }
            if self.eat("<?") {
                self.flush_chars(parent)?;
                self.parse_pi(parent, false)?;
                continue;
            }
            let lead = match self.peek_byte() {
                Some(b) => b,
                None => 0,
            };
            if lead == 0x3c {
                self.flush_chars(parent)?;
                match self.open_element(parent)? {
                    Some(o) => {
                        parent = o.elem;
                        open.push(o);
                    },
                    None => {},
                }
                continue;
            }
            if lead == 0x26 {
                self.content_reference(parent, edepth)?;
                continue;
            }
            if self.looking_at("]]>") {
                return Err(self.err(XML_ERR_MISPLACED_CDATA_END, "Misplaced CDATA end"));
            }
            match self.next_char()? {
                None => {
                    return Err(self.err(XML_ERR_DOCUMENT_END, "Unexpected end of input"));
                },
                Some((c, n)) => {
                    if !xml_is_char(c as u32) {
                        return Err(self.err(XML_ERR_INVALID_CHAR, "Invalid character"));
                    }
                    push_char(&mut self.char_buf, c);
                    self.bump_char(c, n);
                },
            }
        }
    }

    /// A reference in content, at `&`. A character reference joins the text
    /// run it sits in; an entity reference is delivered on its own, and an
    /// entity whose replacement holds markup becomes nodes.
    fn content_reference(&mut self, parent: NodeId, edepth: u32) -> (r: Result<(), XmlError>)
        requires
            old(self).inv(),
            old(self).doc.has(parent),
            parent.0 != 0,
            old(self).pos < old(self).input.len(),
            edepth <= MAX_ENTITY_DEPTH,
        ensures
            final(self).inv(),
            final(self).after(*old(self)),
            r is Ok ==> final(self).pos > old(self).pos,
            ({
                let b = old(self).input@;
                let s = old(self).pos as int + 2;
                old(self).pos + 1 < b.len() && b[old(self).pos + 1] == 0x23 ==> {
                    &&& (r is Ok <==> cref_ok(b, s))
                    &&& (r is Ok ==> final(self).char_buf@ == old(self).char_buf@.push(final(self).char_buf@.last())
                        && final(self).char_buf@.last() as u32 == cref_value(b, s)
                        && final(self).pos == cref_end(b, s) && final(self).doc == old(self).doc
                        && final(self).options == old(self).options && final(self).no_tree == old(self).no_tree
                        && final(self).old10 == old(self).old10)
                    &&& (r matches Err(e) ==> e.code == cref_err(b, s))
                }
            }),
            ({
                let b = old(self).input@;
                let p = old(self).pos as int;
                let huge = has_opt(old(self).options, XML_PARSE_HUGE);
                (!(p + 1 < b.len() && b[p + 1] == 0x23) && !old(self).recover && old(self).doc.dtd is None
                    && old(self).char_buf@.len() == 0) ==> match name_read(b, p + 1, old(self).old10, huge) {
                    Some((nm, e)) => (e < b.len() && b[e] == 0x3b && predefined_char(nm) is None)
                        ==> (r matches Err(x) && x.code == XML_ERR_UNDECLARED_ENTITY),
                    None => r is Err,
                }
            }),
            ({
                let b = old(self).input@;
                let p = old(self).pos as int;
                let huge = has_opt(old(self).options, XML_PARSE_HUGE);
                let n0 = old(self).doc.nodes().len() as int;
                (!(p + 1 < b.len() && b[p + 1] == 0x23) && old(self).char_buf@.len() == 0 && !old(self).no_tree
                    && n0 < MAX_NODES) ==> match name_read(b, p + 1, old(self).old10, huge) {
                    Some((nm, e)) => (e < b.len() && b[e] == 0x3b && predefined_char(nm) is Some) ==> {
                        &&& r is Ok
                        &&& final(self).pos == e + 1
                        &&& final(self).char_buf@.len() == 0
                        &&& final(self).doc.nodes().len() == n0 + 1
                        &&& final(self).doc.nodes()[n0].kind == NodeKind::Text
                        &&& final(self).doc.nodes()[n0].content@ == seq![predefined_char(nm).unwrap()]
                        &&& final(self).doc.nodes()[n0].parent == Some(parent)
                    },
                    None => true,
                }
            }),
        decreases MAX_ENTITY_DEPTH + 1 - edepth, 1nat,
    {
        if self.byte_at(1) == Some(0x23u8) {
            self.bump_byte();
            self.bump_byte();
            let c = self.parse_char_ref()?;
            push_char(&mut self.char_buf, c);
            return Ok(());
        }
        assert(!(old(self).pos + 1 < old(self).input@.len() && old(self).input@[old(self).pos + 1] == 0x23));
        self.flush_chars(parent)?;
        self.bump_byte();
        let name = self.parse_name()?;
        self.expect_byte(0x3b, XML_ERR_ENTITYREF_SEMICOL_MISSING, "';' required")?;
        match predefined_entity(name.as_str()) {
            Some(c) => {
                push_char(&mut self.char_buf, c);
                proof {
                    crate::util::lemma_encode_ascii_char(c);
                    assert(self.char_buf@ =~= seq![c]);
                    let t = vstd::utf8::encode_utf8(self.char_buf@);
                    assert(t.len() == 1);
                    assert(!is_space(t[0]));
                    assert(!all_blank_spec(t));
                    assert(old(self).char_buf@.len() == 0 ==> self.doc.nodes().len() == old(self).doc.nodes().len());
                }
                self.flush_chars(parent)?;
                return Ok(());
            },
            None => {},
        }
        match self.lookup_entity(name.as_str()) {
            Some(raw) => {
                if has_byte(raw.as_str().as_bytes(), 0x3c) {
                    self.parse_entity_markup(name.as_str(), raw.as_str(), parent, edepth)?;
                } else {
                    let text = self.expand_entity(name.as_str(), raw.as_str(), 0)?;
                    self.char_buf.append(text.as_str());
                    self.flush_chars(parent)?;
                }
            },
            None => {
                let mut m = String::from_str("Entity '");
                m.append(name.as_str());
                m.append("' not defined");
                if self.recover {
                    self.emit_error(m);
                    self.char_buf.append("&");
                    self.char_buf.append(name.as_str());
                    self.char_buf.append(";");
                    self.flush_chars(parent)?;
                } else {
                    return Err(self.err_s(XML_ERR_UNDECLARED_ENTITY, m));
                }
            },
        }
        Ok(())
    }

    /// Parse an entity's replacement text as content of `parent`; every
    /// element it opens must close inside it.
    fn parse_entity_markup(&mut self, name: &str, raw: &str, parent: NodeId, edepth: u32) -> (r: Result<(), XmlError>)
        requires
            old(self).inv(),
            old(self).doc.has(parent),
            parent.0 != 0,
            edepth <= MAX_ENTITY_DEPTH,
        ensures
            final(self).inv(),
            final(self).input == old(self).input,
            final(self).pos == old(self).pos,
            final(self).doc.nodes().len() >= old(self).doc.nodes().len(),
            old(self).doc.root() is Some ==> final(self).doc.root() == old(self).doc.root(),
        decreases MAX_ENTITY_DEPTH + 1 - edepth, 0nat,
    {
        if edepth >= MAX_ENTITY_DEPTH {
            let mut m = String::from_str("Entity '");
            m.append(name);
            m.append("' nested too deeply");
            return Err(self.err_s(XML_ERR_UNDECLARED_ENTITY, m));
        }
        let rl = raw.len();
        if rl > self.entity_budget {
            return Err(self.err(XML_ERR_INTERNAL_ERROR, "Maximum entity amplification exceeded"));
        }
        self.entity_budget = self.entity_budget - rl;
        let mut doc = XmlDoc::xml_new_doc(None);
        std::mem::swap(&mut doc, &mut self.doc);
        let mut ns: Vec<Vec<(Option<String>, String)>> = Vec::new();
        std::mem::swap(&mut ns, &mut self.ns_stack);
        let ghost n0 = doc.nodes().len();
        let mut sub = Parser {
            input: raw.as_bytes(),
            pos: 0,
            line: self.line,
            col: self.col,
            options: self.options,
            old10: self.old10,
            depth: self.depth,
            ns_stack: ns,
            doc,
            char_buf: String::new(),
            no_tree: self.no_tree,
            recover: self.recover,
            entity_budget: self.entity_budget,
            started: true,
            record: self.record,
            events: Vec::new(),
        };
        let mut open: Vec<Open> = Vec::new();
        let res = sub.parse_content(&mut open, parent, true, edepth + 1, false);
        std::mem::swap(&mut self.doc, &mut sub.doc);
        std::mem::swap(&mut self.ns_stack, &mut sub.ns_stack);
        self.entity_budget = sub.entity_budget;
        let mut k: usize = 0;
        while k < sub.events.len()
            invariant
                k <= sub.events.len(),
                self.inv(),
                self.input == old(self).input,
                self.pos == old(self).pos,
                self.doc.nodes().len() >= old(self).doc.nodes().len(),
                old(self).doc.root() is Some ==> self.doc.root() == old(self).doc.root(),
            decreases sub.events.len() - k,
        {
            self.events.push(sub.events[k].clone());
            k += 1;
        }
        res?;
        if open.len() > 0 {
            let mut m = String::from_str("Entity '");
            m.append(name);
            m.append("' leaves an element open");
            return Err(self.err_s(XML_ERR_TAG_NOT_FINISHED, m));
        }
        Ok(())
    }

    /// One element with all its content.
    fn parse_element(&mut self, parent: NodeId) -> (r: Result<(), XmlError>)
        requires
            old(self).inv(),
            old(self).doc.has(parent),
            parent.0 == 0 ==> old(self).doc.root() is None,
        ensures
            final(self).inv(),
            final(self).after(*old(self)),
            parent.0 == 0 && r is Ok ==> final(self).doc.root() is Some,
            ({
                let b = old(self).input@;
                let p = old(self).pos as int;
                let e = letters_end(b, p + 1);
                let n0 = old(self).doc.nodes().len() as int;
                (empty_tag_at(b, p) && !old(self).old10 && n0 < MAX_NODES && old(self).depth < (if has_opt(
                    old(self).options,
                    XML_PARSE_HUGE,
                ) { MAX_DEPTH_HUGE } else { MAX_DEPTH }) && parent.0 == 0) ==> {
                    &&& r is Ok
                    &&& final(self).pos == e + 2
                    &&& final(self).doc.root() == Some(NodeId(n0 as u32))
                    &&& final(self).doc.nodes()[n0].kind == NodeKind::Element
                    &&& final(self).doc.nodes()[n0].name@ == ascii_text(b, p + 1, e)
                    &&& final(self).doc.dtd == old(self).doc.dtd
                }
            }),
            ({
                let b = old(self).input@;
                let p = old(self).pos as int;
                let e = letters_end(b, p + 1);
                let n0 = old(self).doc.nodes().len() as int;
                (open_tag_at(b, p) && !old(self).old10 && n0 + 1 < MAX_NODES && old(self).depth < (if has_opt(
                    old(self).options,
                    XML_PARSE_HUGE,
                ) { MAX_DEPTH_HUGE } else { MAX_DEPTH }) && parent.0 == 0 && old(self).char_buf@.len() == 0
                    && !old(self).no_tree && !has_opt(old(self).options, XML_PARSE_NOBLANKS)) ==> match text_run(b, e + 1) {
                    Some((t, c)) => (t.len() > 0 && 4 * t.len() <= MAX_TEXT && close_tag_at(b, c, p + 1, e)) ==> {
                        &&& r is Ok
                        &&& final(self).pos == letters_end(b, c + 2) + 1
                        &&& final(self).doc.root() == Some(NodeId(n0 as u32))
                        &&& final(self).doc.nodes()[n0].kind == NodeKind::Element
                        &&& final(self).doc.nodes()[n0].name@ == ascii_text(b, p + 1, e)
                        &&& final(self).doc.nodes().len() == n0 + 2
                        &&& final(self).doc.nodes()[n0 + 1].kind == NodeKind::Text
                        &&& code_points(final(self).doc.nodes()[n0 + 1].content@) == t
                        &&& final(self).doc.nodes()[n0 + 1].parent == Some(NodeId(n0 as u32))
                        &&& final(self).doc.dtd == old(self).doc.dtd
                    },
                    None => true,
                }
            }),
    {
        proof {
            let b = self.input@;
            let p = self.pos as int;
            let e = letters_end(b, p + 1);
            if open_tag_at(b, p) {
                if let Some((t, c)) = text_run(b, e + 1) {
                    if close_tag_at(b, c, p + 1, e) {
                        lemma_letters_end(b, c + 2);
                        lemma_letters_end(b, p + 1);
                        lemma_name_read_at(b, c + 2, has_opt(self.options, XML_PARSE_HUGE));
                        assert(b.subrange(c, c + 2) =~= seq![0x3cu8, 0x2fu8]);
                        assert(ascii_text(b, c + 2, letters_end(b, c + 2)) =~= ascii_text(b, p + 1, e));
                    }
                }
            }
        }
        let ghost b = self.input@;
        let ghost p = self.pos as int;
        let ghost e = letters_end(b, p + 1);
        let ghost n0 = self.doc.nodes().len() as int;
        let ghost hyp = open_tag_at(b, p) && !self.old10 && n0 + 1 < MAX_NODES && self.depth < (if has_opt(
            self.options,
            XML_PARSE_HUGE,
        ) { MAX_DEPTH_HUGE } else { MAX_DEPTH }) && parent.0 == 0 && self.char_buf@.len() == 0 && !self.no_tree
            && !has_opt(self.options, XML_PARSE_NOBLANKS) && text_run(b, e + 1) is Some
            && text_run(b, e + 1).unwrap().0.len() > 0 && 4 * text_run(b, e + 1).unwrap().0.len() <= MAX_TEXT
            && close_tag_at(b, text_run(b, e + 1).unwrap().1, p + 1, e);
        let ghost t = text_run(b, e + 1).unwrap().0;
        let ghost c = text_run(b, e + 1).unwrap().1;
        match self.open_element(parent)? {
            None => {
                assert(!hyp);
                Ok(())
            },
            Some(o) => {
                assert(hyp ==> self.pos == e + 1 && o.elem == NodeId(n0 as u32) && o.qname@ == ascii_text(b, p + 1, e)
                    && self.char_buf@.len() == 0 && !self.no_tree && !has_opt(self.options, XML_PARSE_NOBLANKS)
                    && self.doc.nodes().len() == n0 + 1);
                let mut open: Vec<Open> = Vec::new();
                self.parse_content(&mut open, o.elem, false, 0, false)?;
                assert(hyp ==> self.pos == c && self.doc.nodes().len() == n0 + 2);
                self.close_element(&o)
            },
        }
    }

    /// Comments, processing instructions and space outside the root.
    fn parse_misc(&mut self) -> (r: Result<(), XmlError>)
        requires
            old(self).inv(),
        ensures
            final(self).inv(),
            final(self).after(*old(self)),
            final(self).doc.root() == old(self).doc.root(),
            at_markup_start(old(self).input@, old(self).pos as int) ==> r is Ok
                && *final(self) == (Parser { line: final(self).line, col: final(self).col, ..*old(self) }),
    {
        let ghost law = at_markup_start(self.input@, self.pos as int);
        proof {
            lemma_prolog_literals();
        }
        loop
            invariant
                self.inv(),
                self.after(*old(self)),
                self.doc.root() == old(self).doc.root(),
                law == at_markup_start(old(self).input@, old(self).pos as int),
                law ==> *self == (Parser { line: self.line, col: self.col, ..*old(self) }),
                vstd::utf8::encode_utf8("<!--"@) == seq![0x3cu8, 0x21u8, 0x2du8, 0x2du8],
                vstd::utf8::encode_utf8("<?"@) == seq![0x3cu8, 0x3fu8],
            decreases self.input.len() - self.pos,
        {
            self.skip_s();
            if self.eat("<!--") {
                self.parse_comment(NodeId::document())?;
                continue;
            }
            if self.eat("<?") {
                self.parse_pi(NodeId::document(), false)?;
                continue;
            }
            break;
        }
        Ok(())
    }

    /// Everything before the root element's start tag.
    fn parse_prolog(&mut self) -> (r: Result<(), XmlError>)
        requires
            old(self).inv(),
        ensures
            final(self).inv(),
            final(self).after(*old(self)),
            final(self).doc.root() == old(self).doc.root(),
            ({
                let b = old(self).input@;
                let p = old(self).pos as int;
                (0 <= p && p + 1 < b.len() && b[p] == 0x3c && ascii_letter(b[p + 1])) ==> r is Ok
                    && *final(self) == (Parser {
                    line: final(self).line,
                    col: final(self).col,
                    events: final(self).events,
                    started: final(self).started,
                    ..*old(self)
                })
            }),
    {
        proof {
            lemma_prolog_literals();
        }
        self.eat("\u{feff}");
        self.emit(SaxEvent::SetDocumentLocator);
        self.emit(SaxEvent::StartDocument);
        self.started = true;
        if self.looking_at("<?xml") {
            let blank = match self.byte_at(5) {
                Some(b) => is_space_byte(b),
                None => false,
            };
            if blank {
                self.eat("<?xml");
                self.parse_xml_decl_rest()?;
            } else {
                self.eat("<?");
                self.parse_pi(NodeId::document(), false)?;
            }
        }
        self.parse_misc()?;
        if self.eat("<!DOCTYPE") {
            self.parse_doctype()?;
            self.parse_misc()?;
        }
        if self.peek_byte() != Some(0x3cu8) {
            return Err(self.err(XML_ERR_DOCUMENT_EMPTY, "Document is empty"));
        }
        Ok(())
    }

    /// Everything after the root element.
    fn parse_epilog(&mut self) -> (r: Result<(), XmlError>)
        requires
            old(self).inv(),
        ensures
            final(self).inv(),
            final(self).after(*old(self)),
            old(self).pos == old(self).input.len() ==> r is Ok && final(self).doc == old(self).doc,
    {
        self.parse_misc()?;
        self.skip_s();
        if !self.eof() {
            return Err(self.err(XML_ERR_EXTRA_CONTENT, "Extra content at the end of the document"));
        }
        self.emit(SaxEvent::EndDocument);
        Ok(())
    }

    fn parse_document(&mut self) -> (r: Result<(), XmlError>)
        requires
            old(self).inv(),
            old(self).doc.root() is None,
        ensures
            final(self).inv(),
            r is Ok ==> final(self).doc.root() is Some,
            ({
                let b = old(self).input@;
                let n0 = old(self).doc.nodes().len() as int;
                (lone_empty_element(b) && old(self).pos == 0 && !old(self).old10 && n0 < MAX_NODES && old(self).depth
                    < (if has_opt(old(self).options, XML_PARSE_HUGE) { MAX_DEPTH_HUGE } else { MAX_DEPTH })) ==> {
                    &&& r is Ok
                    &&& final(self).doc.root() == Some(NodeId(n0 as u32))
                    &&& final(self).doc.nodes()[n0].kind == NodeKind::Element
                    &&& final(self).doc.nodes()[n0].name@ == ascii_text(b, 1, b.len() - 2)
                    &&& final(self).doc.dtd == old(self).doc.dtd
                }
            }),
            ({
                let b = old(self).input@;
                let n0 = old(self).doc.nodes().len() as int;
                (lone_text_element(b) && old(self).pos == 0 && !old(self).old10 && n0 + 1 < MAX_NODES && old(self).depth
                    < (if has_opt(old(self).options, XML_PARSE_HUGE) { MAX_DEPTH_HUGE } else { MAX_DEPTH })
                    && old(self).char_buf@.len() == 0 && !old(self).no_tree && !has_opt(old(self).options, XML_PARSE_NOBLANKS)) ==> {
                    &&& r is Ok
                    &&& final(self).doc.root() == Some(NodeId(n0 as u32))
                    &&& final(self).doc.nodes()[n0].kind == NodeKind::Element
                    &&& final(self).doc.nodes()[n0].name@ == ascii_text(b, 1, letters_end(b, 1))
                    &&& final(self).doc.nodes().len() == n0 + 2
                    &&& final(self).doc.nodes()[n0 + 1].kind == NodeKind::Text
                    &&& code_points(final(self).doc.nodes()[n0 + 1].content@) == lone_text(b)
                    &&& final(self).doc.nodes()[n0 + 1].parent == Some(NodeId(n0 as u32))
                    &&& final(self).doc.dtd == old(self).doc.dtd
                }
            }),
    {
        proof {
            if lone_text_element(self.input@) {
                lemma_letters_end(self.input@, 1);
            }
        }
        proof {
            if lone_empty_element(self.input@) {
                lemma_letters_end(self.input@, 1);
            }
        }
        self.parse_prolog()?;
        self.parse_element(NodeId::document())?;
        self.parse_epilog()
    }
}


/// Complete elements with the ATTLIST defaults they lack, as
/// `XML_PARSE_DTDATTR` asks. Bounded: defaulted attributes are an
/// amplification vector, so at most one per input byte (at least 65536, at
/// most 5000000) is added.
fn apply_dtd_defaults(doc: &mut XmlDoc, input_len: usize, options: i32) -> (r: Result<(), XmlError>)
    requires
        old(doc).wf(),
    ensures
        final(doc).wf(),
        final(doc).nodes().len() >= old(doc).nodes().len(),
        final(doc).nodes().len() <= old(doc).nodes().len() + attr_default_limit(input_len as int),
        !has_opt(options, XML_PARSE_DTDATTR) ==> *final(doc) == *old(doc),
        final(doc).root() == old(doc).root(),
        r is Ok && root_is_element(*old(doc)) ==> root_is_element(*final(doc)),
        old(doc).dtd is None ==> r is Ok && *final(doc) == *old(doc),
{
    if !opt(options, XML_PARSE_DTDATTR) {
        return Ok(());
    }
    let dtd = match &doc.dtd {
        None => {
            return Ok(());
        },
        Some(d) => d.clone(),
    };
    let mut budget: usize = if input_len < 65536 { 65536 } else if input_len > 5000000 { 5000000 } else { input_len };
    let n = doc.len();
    let mut i: usize = 0;
    while i < n
        invariant
            doc.wf(),
            has_opt(options, XML_PARSE_DTDATTR),
            i <= n,
            n <= doc.nodes().len(),
            doc.nodes().len() >= old(doc).nodes().len(),
            doc.nodes().len() + budget <= old(doc).nodes().len() + attr_default_limit(input_len as int),
            doc.root() == old(doc).root(),
            old(doc).dtd is Some,
            forall|j: int| 0 <= j < old(doc).nodes().len() ==> (#[trigger] doc.nodes()[j]).kind == old(doc).nodes()[j].kind,
        decreases n - i,
    {
        let id = NodeId(i as u32);
        if doc.kind(id) == NodeKind::Element {
            let qn = doc.qname(id);
            let mut k: usize = 0;
            while k < dtd.attributes.len()
                invariant
                    doc.wf(),
                    has_opt(options, XML_PARSE_DTDATTR),
                    i < n,
                    n <= doc.nodes().len(),
                    id.0 == i,
                    doc.nodes().len() >= old(doc).nodes().len(),
                    doc.nodes().len() + budget <= old(doc).nodes().len() + attr_default_limit(input_len as int),
                    doc.root() == old(doc).root(),
                    old(doc).dtd is Some,
                    forall|j: int| 0 <= j < old(doc).nodes().len() ==> (#[trigger] doc.nodes()[j]).kind == old(doc).nodes()[j].kind,
                    k <= dtd.attributes.len(),
                decreases dtd.attributes.len() - k,
            {
                let binding = crate::dtd::is_binding_attr_decl(&dtd, k);
                if binding && str_eq(dtd.attributes[k].0.as_str(), qn.as_str()) {
                    match &dtd.attributes[k].2.default_value {
                        Some(v) => {
                            let an = dtd.attributes[k].1.as_str();
                            if doc.xml_get_prop(id, an).is_none() {
                                if budget == 0 {
                                    return Err(XmlError::new(
                                        XML_ERR_INTERNAL_ERROR,
                                        String::from_str("Maximum attribute-default amplification exceeded"),
                                        0,
                                        0,
                                    ));
                                }
                                if doc.len() >= MAX_NODES {
                                    return Err(XmlError::new(XML_ERR_NO_MEMORY, String::from_str("Too many nodes"), 0, 0));
                                }
                                budget = budget - 1;
                                let ghost d0 = doc.nodes();
                                doc.xml_set_prop(id, an, v.as_str());
                                assert forall|j: int| 0 <= j < old(doc).nodes().len() implies (#[trigger] doc.nodes()[j]).kind == old(doc).nodes()[j].kind by {
                                    assert(doc.nodes()[j].kind == d0[j].kind);
                                }
                            }
                        },
                        None => {},
                    }
                }
                k += 1;
            }
        }
        i += 1;
    }
    proof {
        if let Some(rt) = doc.root() {
            assert(doc.nodes()[rt.0 as int].kind == old(doc).nodes()[rt.0 as int].kind);
        }
    }
    Ok(())
}

/// How many attributes DTD defaulting may add to a document parsed from
/// `input_len` bytes: one per input byte, at least 65536 and at most 5000000.
pub open spec fn attr_default_limit(input_len: int) -> int {
    if input_len < 65536 {
        65536
    } else if input_len > 5000000 {
        5000000
    } else {
        input_len
    }
}

/// What a parse gives back: the document or the error, and the SAX events
/// it produced (recorded only when asked for).
struct Parsed {
    result: Result<XmlDoc, XmlError>,
    events: Vec<SaxEvent>,
}

/// The document has a root element: an element that `xmlDocGetRootElement`
/// finds.
pub open spec fn has_root_element(d: XmlDoc) -> bool {
    crate::tree::root_of(d) matches Some(r) && d.nodes()[r.0 as int].kind == NodeKind::Element
}

/// Parse UTF-8 bytes. `enc_name` names the encoding the document was read in.
fn parse_utf8(input: &[u8], enc_name: Option<&str>, options: i32, record: bool) -> (r: Parsed)
    ensures
        r.result matches Ok(d) ==> d.wf(),
        !has_opt(options, XML_PARSE_RECOVER) ==> (r.result matches Ok(d) ==> has_root_element(d)),
        lone_empty_element(input@) && !has_opt(options, XML_PARSE_OLD10) ==> (r.result matches Ok(d)
            && lone_element_doc(d, ascii_text(input@, 1, input@.len() - 2))),
        lone_text_element(input@) && !has_opt(options, XML_PARSE_OLD10) && !has_opt(options, XML_PARSE_NO_TREE)
            && !has_opt(options, XML_PARSE_NOBLANKS) ==> (r.result matches Ok(d) && text_element_doc(
            d,
            ascii_text(input@, 1, letters_end(input@, 1)),
            lone_text(input@),
        )),
{
    let ghost given = options;
    let options = options | XML_PARSE_NONET | XML_PARSE_NO_XXE;
    assert(has_opt(options, XML_PARSE_RECOVER) == has_opt(given, XML_PARSE_RECOVER)) by (bit_vector)
        requires
            options == given | 2048i32 | 8388608i32;
    assert(has_opt(options, XML_PARSE_OLD10) == has_opt(given, XML_PARSE_OLD10)) by (bit_vector)
        requires
            options == given | 2048i32 | 8388608i32;
    assert(has_opt(options, XML_PARSE_NO_TREE) == has_opt(given, XML_PARSE_NO_TREE)) by (bit_vector)
        requires
            options == given | 2048i32 | 8388608i32;
    assert(has_opt(options, XML_PARSE_NOBLANKS) == has_opt(given, XML_PARSE_NOBLANKS)) by (bit_vector)
        requires
            options == given | 2048i32 | 8388608i32;
    let no_tree = opt(options, XML_PARSE_NO_TREE);
    let recover = opt(options, XML_PARSE_RECOVER);
    let mut doc = XmlDoc::xml_new_doc(Some("1.0"));
    doc.reserve_nodes(if no_tree { input.len() / 32 } else { input.len() / 10 });
    let budget: usize = if input.len() <= 6553 { 65536 } else if input.len() > usize::MAX / 10 { usize::MAX } else { input.len() * 10 };
    let mut p = Parser {
        input,
        pos: 0,
        line: 1,
        col: 1,
        options,
        old10: opt(options, XML_PARSE_OLD10),
        depth: 0,
        ns_stack: Vec::new(),
        doc,
        char_buf: String::new(),
        no_tree,
        recover,
        entity_budget: budget,
        started: false,
        record,
        events: Vec::new(),
    };
    match p.parse_document() {
        Ok(()) => {
            let mut doc = p.doc;
            match apply_dtd_defaults(&mut doc, input.len(), options) {
                Ok(()) => {},
                Err(e) => {
                    return Parsed { result: Err(e), events: p.events };
                },
            }
            if doc.encoding.is_none() {
                match enc_name {
                    Some(n) => {
                        let b = n.as_bytes();
                        if !crate::util::eq_ignore_ascii_case(b, "UTF-8".as_bytes())
                            && !crate::util::eq_ignore_ascii_case(b, "US-ASCII".as_bytes()) {
                            doc.encoding = Some(String::from_str(n));
                        }
                    },
                    None => {},
                }
            }
            Parsed { result: Ok(doc), events: p.events }
        },
        Err(e) => {
            if p.started {
                p.emit(SaxEvent::EndDocument);
            }
            if recover {
                p.emit_error(e.message.clone());
                return Parsed { result: Ok(p.doc), events: p.events };
            }
            Parsed { result: Err(e), events: p.events }
        },
    }
}

/// Decode `buffer` to UTF-8 (see `crate::encoding::convert_input`) and parse it.
fn parse_doc(buffer: &[u8], encoding: Option<&str>, options: i32, record: bool) -> (r: Parsed)
    ensures
        crate::encoding::conversion_fails(buffer@, crate::tree::opt_str_view(encoding))
            ==> (r.result matches Err(e) && e.code == XML_ERR_UNSUPPORTED_ENCODING),
        r.result matches Ok(d) ==> d.wf(),
        !has_opt(options, XML_PARSE_RECOVER) ==> (r.result matches Ok(d) ==> has_root_element(d)),
        lone_empty_element(buffer@) && crate::encoding::passes_through(
            crate::encoding::chosen_encoding(buffer@, crate::tree::opt_str_view(encoding)),
        ) && !has_opt(options, XML_PARSE_OLD10) ==> (r.result matches Ok(d) && lone_element_doc(
            d,
            ascii_text(buffer@, 1, buffer@.len() - 2),
        )),
        lone_text_element(buffer@) && crate::encoding::passes_through(
            crate::encoding::chosen_encoding(buffer@, crate::tree::opt_str_view(encoding)),
        ) && !has_opt(options, XML_PARSE_OLD10) && !has_opt(options, XML_PARSE_NO_TREE) && !has_opt(options, XML_PARSE_NOBLANKS)
            ==> (r.result matches Ok(d) && text_element_doc(d, ascii_text(buffer@, 1, letters_end(buffer@, 1)), lone_text(buffer@))),
{
    match crate::encoding::convert_input(buffer, encoding) {
        Err(e) => Parsed { result: Err(e), events: Vec::new() },
        Ok((crate::encoding::Decoded::Same(s), name)) => {
            proof {
                if s == 0 {
                    assert(buffer@.subrange(0, buffer@.len() as int) =~= buffer@);
                }
            }
            parse_utf8(&buffer[s..buffer.len()], name, options, record)
        },
        Ok((crate::encoding::Decoded::Owned(v), name)) => parse_utf8(v.as_slice(), name, options, record),
    }
}

/// `xmlReadMemory`: parse a document from memory. `encoding` overrides what
/// the document's first bytes and declaration say.
pub fn xml_read_memory(buffer: &[u8], url: Option<&str>, encoding: Option<&str>, options: i32) -> (r: Result<XmlDoc, XmlError>)
    ensures
        crate::encoding::conversion_fails(buffer@, crate::tree::opt_str_view(encoding))
            ==> (r matches Err(e) && e.code == XML_ERR_UNSUPPORTED_ENCODING),
        r matches Ok(d) ==> d.wf(),
        !has_opt(options, XML_PARSE_RECOVER) ==> (r matches Ok(d) ==> has_root_element(d)),
        lone_empty_element(buffer@) && crate::encoding::passes_through(
            crate::encoding::chosen_encoding(buffer@, crate::tree::opt_str_view(encoding)),
        ) && !has_opt(options, XML_PARSE_OLD10) ==> (r matches Ok(d) && lone_element_doc(
            d,
            ascii_text(buffer@, 1, buffer@.len() - 2),
        )),
        lone_text_element(buffer@) && crate::encoding::passes_through(
            crate::encoding::chosen_encoding(buffer@, crate::tree::opt_str_view(encoding)),
        ) && !has_opt(options, XML_PARSE_OLD10) && !has_opt(options, XML_PARSE_NO_TREE) && !has_opt(options, XML_PARSE_NOBLANKS)
            ==> (r matches Ok(d) && text_element_doc(d, ascii_text(buffer@, 1, letters_end(buffer@, 1)), lone_text(buffer@))),
{
    parse_doc(buffer, encoding, options, false).result
}

/// `xmlReadDoc`: parse a document held in a string.
pub fn xml_read_doc(cur: &str, url: Option<&str>, encoding: Option<&str>, options: i32) -> (r: Result<XmlDoc, XmlError>)
    ensures
        r matches Ok(d) ==> d.wf(),
        !has_opt(options, XML_PARSE_RECOVER) ==> (r matches Ok(d) ==> has_root_element(d)),
        ({
            let b = vstd::utf8::encode_utf8(cur@);
            lone_empty_element(b) && crate::encoding::passes_through(
                crate::encoding::chosen_encoding(b, crate::tree::opt_str_view(encoding)),
            ) && !has_opt(options, XML_PARSE_OLD10) ==> (r matches Ok(d) && lone_element_doc(d, ascii_text(b, 1, b.len() - 2)))
        }),
        lone_text_element(vstd::utf8::encode_utf8(cur@)) && crate::encoding::passes_through(
            crate::encoding::chosen_encoding(vstd::utf8::encode_utf8(cur@), crate::tree::opt_str_view(encoding)),
        ) && !has_opt(options, XML_PARSE_OLD10) && !has_opt(options, XML_PARSE_NO_TREE) && !has_opt(options, XML_PARSE_NOBLANKS)
            ==> (r matches Ok(d) && text_element_doc(d, ascii_text(vstd::utf8::encode_utf8(cur@), 1, letters_end(vstd::utf8::encode_utf8(cur@), 1)), lone_text(vstd::utf8::encode_utf8(cur@)))),
{
    xml_read_memory(cur.as_bytes(), url, encoding, options)
}

fn opt_as_str(o: &Option<String>) -> (r: Option<&str>)
    ensures
        crate::tree::opt_str_view(r) == crate::tree::opt_string_view(*o),
{
    match o {
        Some(s) => Some(s.as_str()),
        None => None,
    }
}

/// Hand one recorded event to a handler.
pub fn deliver<S: SaxHandler>(sax: &mut S, ev: &SaxEvent) {
    match ev {
        SaxEvent::SetDocumentLocator => sax.set_document_locator(),
        SaxEvent::StartDocument => sax.start_document(),
        SaxEvent::EndDocument => sax.end_document(),
        SaxEvent::StartElementNs { local, prefix, uri, namespaces, attributes, nb_defaulted } => {
            sax.start_element_ns(
                local.as_str(),
                opt_as_str(prefix),
                opt_as_str(uri),
                namespaces.as_slice(),
                attributes.as_slice(),
                *nb_defaulted,
            )
        },
        SaxEvent::EndElementNs { local, prefix, uri } => sax.end_element_ns(
            local.as_str(),
            opt_as_str(prefix),
            opt_as_str(uri),
        ),
        SaxEvent::Characters { data } => sax.characters(data.as_str()),
        SaxEvent::CData { data } => sax.cdata_block(data.as_str()),
        SaxEvent::Comment(c) => sax.comment(c.as_str()),
        SaxEvent::ProcessingInstruction { target, data } => sax.processing_instruction(
            target.as_str(),
            opt_as_str(data),
        ),
        SaxEvent::Warning(m) => sax.warning(m.as_str()),
        SaxEvent::Error(m) => sax.error(m.as_str()),
    }
}

/// Parse and deliver the SAX events to `sax`, in document order.
pub fn xml_sax_parse_memory<S: SaxHandler>(buffer: &[u8], options: i32, sax: &mut S) -> (r: Result<XmlDoc, XmlError>)
    ensures
        r matches Ok(d) ==> d.wf(),
        !has_opt(options, XML_PARSE_RECOVER) ==> (r matches Ok(d) ==> has_root_element(d)),
        lone_empty_element(buffer@) && crate::encoding::passes_through(crate::encoding::chosen_encoding(buffer@, None))
            && !has_opt(options, XML_PARSE_OLD10) ==> (r matches Ok(d) && lone_element_doc(
            d,
            ascii_text(buffer@, 1, buffer@.len() - 2),
        )),
        lone_text_element(buffer@) && crate::encoding::passes_through(
            crate::encoding::chosen_encoding(buffer@, None),
        ) && !has_opt(options, XML_PARSE_OLD10) && !has_opt(options, XML_PARSE_NO_TREE) && !has_opt(options, XML_PARSE_NOBLANKS)
            ==> (r matches Ok(d) && text_element_doc(d, ascii_text(buffer@, 1, letters_end(buffer@, 1)), lone_text(buffer@))),
{
    let parsed = parse_doc(buffer, None, options, true);
    let mut i: usize = 0;
    while i < parsed.events.len()
        invariant
            i <= parsed.events.len(),
        decreases parsed.events.len() - i,
    {
        deliver(sax, &parsed.events[i]);
        i += 1;
    }
    parsed.result
}


/// Parser context (`xmlParserCtxt`).
#[derive(Debug, Default)]
pub struct XmlParserCtxt {
    pub options: i32,
    pub last_error: Option<XmlError>,
    pub doc: Option<XmlDoc>,
}

/// `xmlNewParserCtxt`: default options, no error, no document.
pub fn xml_new_parser_ctxt() -> (r: XmlParserCtxt)
    ensures
        r.options == XML_PARSE_NONET | XML_PARSE_NO_XXE,
        r.last_error is None,
        r.doc is None,
{
    XmlParserCtxt { options: default_parse_options(), last_error: None, doc: None }
}

/// `xmlCtxtUseOptions`: set the options; network and XXE stay off.
pub fn xml_ctxt_use_options(ctxt: &mut XmlParserCtxt, options: i32) -> (r: i32)
    ensures
        r == 0,
        final(ctxt).options == options | XML_PARSE_NONET | XML_PARSE_NO_XXE,
        final(ctxt).last_error == old(ctxt).last_error,
        final(ctxt).doc == old(ctxt).doc,
{
    ctxt.options = options | XML_PARSE_NONET | XML_PARSE_NO_XXE;
    0
}

/// `xmlCtxtSetOptions`: as `xml_ctxt_use_options`.
pub fn xml_ctxt_set_options(ctxt: &mut XmlParserCtxt, options: i32) -> (r: i32)
    ensures
        r == 0,
        final(ctxt).options == options | XML_PARSE_NONET | XML_PARSE_NO_XXE,
        final(ctxt).last_error == old(ctxt).last_error,
        final(ctxt).doc == old(ctxt).doc,
{
    xml_ctxt_use_options(ctxt, options)
}

/// `xmlCtxtGetOptions`.
pub fn xml_ctxt_get_options(ctxt: &XmlParserCtxt) -> (r: i32)
    ensures
        r == ctxt.options,
{
    ctxt.options
}

/// `xmlCtxtGetLastError`.
pub fn xml_ctxt_get_last_error(ctxt: &XmlParserCtxt) -> (r: Option<&XmlError>)
    ensures
        r == match ctxt.last_error {
            Some(e) => Some(&e),
            None => None::<&XmlError>,
        },
{
    match &ctxt.last_error {
        Some(e) => Some(e),
        None => None,
    }
}

/// `xmlCtxtGetDocument`.
pub fn xml_ctxt_get_document(ctxt: &XmlParserCtxt) -> (r: Option<&XmlDoc>)
    ensures
        r == match ctxt.doc {
            Some(d) => Some(&d),
            None => None::<&XmlDoc>,
        },
{
    match &ctxt.doc {
        Some(d) => Some(d),
        None => None,
    }
}

/// `xmlCtxtReset`: forget the document and the error.
pub fn xml_ctxt_reset(ctxt: &mut XmlParserCtxt)
    ensures
        final(ctxt).doc is None,
        final(ctxt).last_error is None,
        final(ctxt).options == old(ctxt).options,
{
    ctxt.doc = None;
    ctxt.last_error = None;
}

/// `xmlCtxtReadMemory`: parse with the given options, or the context's when
/// they are 0; the context keeps a copy of the document or the error.
pub fn xml_ctxt_read_memory(
    ctxt: &mut XmlParserCtxt,
    buffer: &[u8],
    url: Option<&str>,
    encoding: Option<&str>,
    options: i32,
) -> (r: Result<XmlDoc, XmlError>)
    ensures
        r matches Ok(d) ==> d.wf() && final(ctxt).doc is Some && final(ctxt).last_error is None,
        !has_opt(if options != 0 { options } else { old(ctxt).options }, XML_PARSE_RECOVER)
            ==> (r matches Ok(d) ==> has_root_element(d)),
        r is Err ==> final(ctxt).last_error is Some && final(ctxt).doc == old(ctxt).doc,
        final(ctxt).options == old(ctxt).options,
        ({
            let o = if options != 0 { options } else { old(ctxt).options };
            lone_empty_element(buffer@) && crate::encoding::passes_through(
                crate::encoding::chosen_encoding(buffer@, crate::tree::opt_str_view(encoding)),
            ) && !has_opt(o, XML_PARSE_OLD10) ==> (r matches Ok(d) && lone_element_doc(d, ascii_text(buffer@, 1, buffer@.len() - 2)))
        }),
        ({
            let o = if options != 0 { options } else { old(ctxt).options };
            lone_text_element(buffer@) && crate::encoding::passes_through(
                crate::encoding::chosen_encoding(buffer@, crate::tree::opt_str_view(encoding)),
            ) && !has_opt(o, XML_PARSE_OLD10) && !has_opt(o, XML_PARSE_NO_TREE) && !has_opt(o, XML_PARSE_NOBLANKS)
                ==> (r matches Ok(d) && text_element_doc(d, ascii_text(buffer@, 1, letters_end(buffer@, 1)), lone_text(buffer@)))
        }),
{
    let opts = if options != 0 { options } else { ctxt.options };
    match xml_read_memory(buffer, url, encoding, opts) {
        Ok(doc) => {
            ctxt.doc = Some(doc.clone());
            ctxt.last_error = None;
            Ok(doc)
        },
        Err(e) => {
            ctxt.last_error = Some(e.duplicate());
            Err(e)
        },
    }
}

/// What a push parser keeps between chunks once the root's start tag has
/// been read: the tree so far, the namespace and element stacks, pending
/// character data and the cursor's line and column.
struct PushState {
    doc: XmlDoc,
    ns_stack: Vec<Vec<(Option<String>, String)>>,
    open: Vec<Open>,
    root: Open,
    char_buf: String,
    line: u32,
    col: u32,
    depth: u32,
    root_closed: bool,
}

impl PushState {
    spec fn ok(&self) -> bool {
        &&& self.doc.wf()
        &&& root_is_element(self.doc)
        &&& self.doc.has(self.root.elem)
        &&& self.root.elem.0 != 0
        &&& opens_in(self.open@, self.doc)
    }
}

/// Push parser context (`xmlCreatePushParserCtxt`). Once the prolog and the
/// root's start tag are in, content is parsed as each chunk arrives and only
/// the unparsed tail is kept; input that needs converting to UTF-8 is
/// buffered and parsed whole at the end.
pub struct XmlPushParserCtxt {
    buf: Vec<u8>,
    options: i32,
    url: Option<String>,
    encoding: Option<String>,
    last_error: Option<XmlError>,
    state: Option<PushState>,
    consumed: usize,
    no_stream: bool,
}

impl XmlPushParserCtxt {
    /// The state kept between chunks is consistent.
    pub closed spec fn wf(&self) -> bool {
        &&& self.state matches Some(st) ==> st.ok()
        &&& self.no_stream ==> self.state is None
    }

    /// The bytes received and not yet parsed.
    pub closed spec fn received(&self) -> Seq<u8> {
        self.buf@
    }

    /// The parser options in force (the network and external-entity options
    /// are always among them).
    pub closed spec fn opts(&self) -> i32 {
        self.options
    }

    /// The encoding the caller named for the input.
    pub closed spec fn named_encoding(&self) -> Option<Seq<char>> {
        crate::tree::opt_string_view(self.encoding)
    }

    /// The document under construction: present once the root's start tag
    /// has been read from input that needs no conversion.
    pub closed spec fn partial(&self) -> Option<XmlDoc> {
        match self.state {
            Some(st) => Some(st.doc),
            None => None,
        }
    }

    /// The input is being buffered whole, to be parsed at the end.
    pub closed spec fn buffering(&self) -> bool {
        self.no_stream
    }

    /// How many received bytes have been parsed and released.
    pub closed spec fn released(&self) -> nat {
        self.consumed as nat
    }

    /// The error of the most recent failed parse, cleared by a successful one.
    pub closed spec fn last_err(&self) -> Option<XmlError> {
        self.last_error
    }

    /// The last error, if the most recent parse failed.
    pub fn last_error(&self) -> (r: Option<&XmlError>)
        ensures
            r is Some <==> self.last_err() is Some,
            r matches Some(e) ==> *e == self.last_err().unwrap(),
    {
        match &self.last_error {
            Some(e) => Some(e),
            None => None,
        }
    }

    /// Bytes buffered but not yet parsed.
    pub fn buffered(&self) -> (r: usize)
        ensures
            r == self.received().len(),
    {
        self.buf.len()
    }

    /// Bytes parsed and released so far.
    pub fn consumed(&self) -> (r: usize)
        ensures
            r == self.released(),
    {
        self.consumed
    }
}

/// `xmlCreatePushParserCtxt`: a push parser holding `chunk`.
pub fn xml_create_push_parser_ctxt(chunk: &[u8], url: Option<&str>, encoding: Option<&str>, options: i32) -> (r: XmlPushParserCtxt)
    ensures
        r.wf(),
        r.received() == chunk@,
        r.released() == 0,
        r.last_err() is None,
        r.opts() == options | XML_PARSE_NONET | XML_PARSE_NO_XXE,
        r.named_encoding() == crate::tree::opt_str_view(encoding),
        r.partial() is None,
        !r.buffering(),
{
    let mut buf: Vec<u8> = Vec::new();
    crate::util::push_bytes(&mut buf, chunk);
    XmlPushParserCtxt {
        buf,
        options: options | XML_PARSE_NONET | XML_PARSE_NO_XXE,
        url: match url {
            Some(u) => Some(String::from_str(u)),
            None => None,
        },
        encoding: match encoding {
            Some(e) => Some(String::from_str(e)),
            None => None,
        },
        last_error: None,
        state: None,
        consumed: 0,
        no_stream: false,
    }
}

/// The entity expansion budget for an input of `len` bytes: ten times its
/// size, at least 65536 bytes.
fn entity_budget_for(len: usize) -> (r: usize)
    ensures
        r >= 65536,
{
    if len <= 6553 {
        65536
    } else if len > usize::MAX / 10 {
        usize::MAX
    } else {
        len * 10
    }
}

/// `t` is what is left of `s` once some of its first bytes are taken away.
pub open spec fn is_tail_of(t: Seq<u8>, s: Seq<u8>) -> bool {
    exists|k: int| 0 <= k <= s.len() && t == #[trigger] s.subrange(k, s.len() as int)
}

/// Read the prolog and the root's start tag from `buf`. `None` when they
/// are not all there yet, the root is an empty-element tag, or the prolog is
/// in error: the whole parse at the end deals with each of these.
fn push_start(buf: &[u8], options: i32) -> (r: Option<(PushState, usize)>)
    ensures
        r matches Some((st, at)) ==> st.ok() && at <= buf.len() && !st.root_closed,
        lone_empty_element(buf@) && !has_opt(options, XML_PARSE_OLD10) ==> r is None,
{
    let mut p = Parser {
        input: buf,
        pos: 0,
        line: 1,
        col: 1,
        options,
        old10: opt(options, XML_PARSE_OLD10),
        depth: 0,
        ns_stack: Vec::new(),
        doc: XmlDoc::xml_new_doc(Some("1.0")),
        char_buf: String::new(),
        no_tree: opt(options, XML_PARSE_NO_TREE),
        recover: opt(options, XML_PARSE_RECOVER),
        entity_budget: entity_budget_for(buf.len()),
        started: false,
        record: false,
        events: Vec::new(),
    };
    match p.parse_prolog() {
        Ok(()) => {},
        Err(_) => {
            return None;
        },
    }
    match p.open_element(NodeId::document()) {
        Ok(Some(root)) => {
            let at = p.pos;
            let st = PushState {
                doc: p.doc,
                ns_stack: p.ns_stack,
                open: Vec::new(),
                root,
                char_buf: p.char_buf,
                line: p.line,
                col: p.col,
                depth: p.depth,
                root_closed: false,
            };
            Some((st, at))
        },
        _ => None,
    }
}

/// Parse `buf`, the input that follows the state `st`. Unless `last`,
/// parsing stops before a construct the buffer holds only part of, and the
/// result says how many bytes were used; with `last` the document is
/// finished: the root must close and only misc may follow it.
fn push_continue(st: PushState, buf: &[u8], options: i32, last: bool) -> (r: Result<(PushState, usize), XmlError>)
    requires
        st.ok(),
    ensures
        r matches Ok((s2, at)) ==> s2.ok() && at <= buf.len() && (last ==> s2.root_closed),
{
    let PushState { doc, ns_stack, open, root, char_buf, line, col, depth, root_closed } = st;
    let mut open = open;
    let mut p = Parser {
        input: buf,
        pos: 0,
        line,
        col,
        options,
        old10: opt(options, XML_PARSE_OLD10),
        depth,
        ns_stack,
        doc,
        char_buf,
        no_tree: opt(options, XML_PARSE_NO_TREE),
        recover: opt(options, XML_PARSE_RECOVER),
        entity_budget: entity_budget_for(buf.len()),
        started: true,
        record: false,
        events: Vec::new(),
    };
    let mut closed = root_closed;
    if !closed {
        p.parse_content(&mut open, root.elem, false, 0, !last)?;
        let at_root_end = open.len() == 0 && p.looking_at("</") && !p.incomplete_construct();
        if last || at_root_end {
            p.close_element(&root)?;
            closed = true;
        }
    }
    if last {
        p.parse_epilog()?;
    }
    let at = p.pos;
    let s2 = PushState {
        doc: p.doc,
        ns_stack: p.ns_stack,
        open,
        root,
        char_buf: p.char_buf,
        line: p.line,
        col: p.col,
        depth: p.depth,
        root_closed: closed,
    };
    Ok((s2, at))
}

/// `v` without its first `at` bytes.
fn drop_front(v: &mut Vec<u8>, at: usize)
    requires
        at <= old(v)@.len(),
    ensures
        final(v)@ == old(v)@.subrange(at as int, old(v)@.len() as int),
{
    let mut rest: Vec<u8> = Vec::new();
    let mut i: usize = at;
    while i < v.len()
        invariant
            at <= i <= v@.len(),
            rest@ == v@.subrange(at as int, i as int),
        decreases v.len() - i,
    {
        rest.push(v[i]);
        assert(v@.subrange(at as int, i + 1) =~= v@.subrange(at as int, i as int).push(v@[i as int]));
        i += 1;
    }
    *v = rest;
}

/// Parse everything buffered as one whole document.
fn finish_whole(ctxt: &mut XmlPushParserCtxt) -> (r: Result<Option<XmlDoc>, XmlError>)
    requires
        old(ctxt).wf(),
    ensures
        final(ctxt).wf(),
        r matches Ok(d) ==> (d matches Some(x) && x.wf()),
        r is Ok ==> final(ctxt).received().len() == 0 && final(ctxt).last_err() is None,
        r matches Err(e) ==> (final(ctxt).last_err() matches Some(l) && l.code == e.code
            && l.message@ == e.message@ && l.line == e.line && l.col == e.col),
        r is Err ==> final(ctxt).received() == old(ctxt).received(),
        *final(ctxt) == (XmlPushParserCtxt { buf: final(ctxt).buf, last_error: final(ctxt).last_error, ..*old(ctxt) }),
        ({
            let b = old(ctxt).received();
            lone_empty_element(b) && crate::encoding::passes_through(
                crate::encoding::chosen_encoding(b, old(ctxt).named_encoding()),
            ) && !has_opt(old(ctxt).opts(), XML_PARSE_OLD10) ==> (r matches Ok(Some(d)) && lone_element_doc(
                d,
                ascii_text(b, 1, b.len() - 2),
            ))
        }),
{
    let enc = opt_as_str(&ctxt.encoding);
    match xml_read_memory(ctxt.buf.as_slice(), None, enc, ctxt.options) {
        Ok(doc) => {
            ctxt.buf = Vec::new();
            ctxt.last_error = None;
            Ok(Some(doc))
        },
        Err(e) => {
            ctxt.last_error = Some(e.duplicate());
            Err(e)
        },
    }
}

/// `xmlParseChunk`: add `chunk` and parse as far as the input allows; with
/// `terminate != 0` the document is finished and handed back. A chunk that
/// does not finish the document gives `None` unless it shows an error.
pub fn xml_parse_chunk(ctxt: &mut XmlPushParserCtxt, chunk: &[u8], terminate: i32) -> (r: Result<Option<XmlDoc>, XmlError>)
    requires
        old(ctxt).wf(),
    ensures
        final(ctxt).wf(),
        terminate == 0 ==> (r matches Ok(d) ==> d is None),
        r matches Ok(Some(d)) ==> d.wf(),
        terminate != 0 ==> (r is Ok ==> final(ctxt).received().len() == 0),
        terminate == 0 && r is Ok ==> final(ctxt).last_err() == old(ctxt).last_err(),
        terminate != 0 && r is Ok ==> final(ctxt).last_err() is None,
        r matches Err(e) ==> (final(ctxt).last_err() matches Some(l) && l.code == e.code
            && l.message@ == e.message@ && l.line == e.line && l.col == e.col),
        !(terminate != 0 && r is Ok) ==> is_tail_of(final(ctxt).received(), old(ctxt).received() + chunk@),
        ({
            let b = old(ctxt).received() + chunk@;
            (terminate != 0 && old(ctxt).partial() is None && lone_empty_element(b) && crate::encoding::passes_through(
                crate::encoding::chosen_encoding(b, old(ctxt).named_encoding()),
            ) && !has_opt(old(ctxt).opts(), XML_PARSE_OLD10)) ==> (r matches Ok(Some(d)) && lone_element_doc(
                d,
                ascii_text(b, 1, b.len() - 2),
            ))
        }),
        final(ctxt).opts() == old(ctxt).opts(),
        final(ctxt).named_encoding() == old(ctxt).named_encoding(),
        final(ctxt).partial() matches Some(d) ==> d.wf(),
        old(ctxt).buffering() ==> final(ctxt).buffering(),
        final(ctxt).buffering() ==> final(ctxt).partial() is None,
{
    crate::util::push_bytes(&mut ctxt.buf, chunk);
    let ghost all = ctxt.buf@;
    let ghost mut k0: int = 0;
    proof {
        assert(all == old(ctxt).received() + chunk@);
        assert(all.subrange(0, all.len() as int) =~= all);
    }
    let last = terminate != 0;
    if ctxt.state.is_none() && !ctxt.no_stream {
        let enc = opt_as_str(&ctxt.encoding);
        let same = match crate::encoding::convert_input(ctxt.buf.as_slice(), enc) {
            Ok((crate::encoding::Decoded::Same(s), _)) => s == 0,
            _ => false,
        };
        if !same {
            ctxt.no_stream = true;
        }
    }
    if ctxt.state.is_none() && !ctxt.no_stream {
        match push_start(ctxt.buf.as_slice(), ctxt.options) {
            Some((st, at)) => {
                ctxt.state = Some(st);
                drop_front(&mut ctxt.buf, at);
                proof {
                    k0 = at as int;
                }
                ctxt.consumed = if ctxt.consumed <= usize::MAX - at { ctxt.consumed + at } else { usize::MAX };
            },
            None => {
                if !last {
                    assert(ctxt.buf@ == all.subrange(k0, all.len() as int));
                    return Ok(None);
                }
                let res = finish_whole(ctxt);
                assert(res is Err ==> ctxt.buf@ == all.subrange(k0, all.len() as int));
                return res;
            },
        }
    }
    assert(ctxt.buf@ == all.subrange(k0, all.len() as int));
    if ctxt.no_stream || ctxt.state.is_none() {
        if !last {
            return Ok(None);
        }
        let res = finish_whole(ctxt);
        assert(res is Err ==> ctxt.buf@ == all.subrange(k0, all.len() as int));
        return res;
    }
    let mut taken: Option<PushState> = None;
    std::mem::swap(&mut taken, &mut ctxt.state);
    let st = match taken {
        Some(st) => st,
        None => {
            return Ok(None);
        },
    };
    match push_continue(st, ctxt.buf.as_slice(), ctxt.options, last) {
        Err(e) => {
            ctxt.last_error = Some(e.duplicate());
            Err(e)
        },
        Ok((st2, at)) => {
            if !last {
                ctxt.state = Some(st2);
                drop_front(&mut ctxt.buf, at);
                proof {
                    assert(ctxt.buf@ =~= all.subrange(k0 + at, all.len() as int));
                    k0 = k0 + at;
                }
                ctxt.consumed = if ctxt.consumed <= usize::MAX - at { ctxt.consumed + at } else { usize::MAX };
                return Ok(None);
            }
            let total = if ctxt.consumed <= usize::MAX - ctxt.buf.len() { ctxt.consumed + ctxt.buf.len() } else { usize::MAX };
            let mut doc = st2.doc;
            match apply_dtd_defaults(&mut doc, total, ctxt.options) {
                Ok(()) => {},
                Err(e) => {
                    ctxt.last_error = Some(e.duplicate());
                    return Err(e);
                },
            }
            ctxt.buf = Vec::new();
            ctxt.last_error = None;
            Ok(Some(doc))
        },
    }
}

#[verifier::external_type_specification]
#[verifier::external_body]
pub struct ExIoError(std::io::Error);

/// The message of an I/O error (`std::io::Error` as `Display`).
#[verifier::external_body]
fn io_error_text(e: &std::io::Error) -> (r: String) {
    e.to_string()
}

/// `xmlReadIO`: read the document through the caller's `read` callback
/// (which fills the buffer it is given and reports how many bytes it wrote,
/// 0 at the end), then parse it.
pub fn xml_read_io<F>(mut read: F, url: Option<&str>, encoding: Option<&str>, options: i32) -> (r: Result<XmlDoc, XmlError>)
    where
        F: FnMut(&mut [u8]) -> Result<usize, std::io::Error>,
    requires
        forall|s: &mut [u8]| #[trigger] read.requires((s,)),
    ensures
        r matches Ok(d) ==> d.wf(),
        !has_opt(options, XML_PARSE_RECOVER) ==> (r matches Ok(d) ==> has_root_element(d)),
{
    let mut buf: Vec<u8> = Vec::new();
    let mut tmp: Vec<u8> = vec![0u8; 4096];
    let mut fuel: usize = usize::MAX;
    while fuel > 0
        invariant
            forall|s: &mut [u8]| #[trigger] read.requires((s,)),
        decreases fuel,
    {
        fuel -= 1;
        let res = read(tmp.as_mut_slice());
        let n = match res {
            Ok(n) => n,
            Err(e) => {
                return Err(XmlError::new(XML_ERR_DOCUMENT_START, io_error_text(&e), 0, 0));
            },
        };
        if n == 0 {
            break;
        }
        let k = if n < tmp.len() { n } else { tmp.len() };
        crate::util::push_bytes(&mut buf, &tmp.as_slice()[0..k]);
    }
    xml_read_memory(buf.as_slice(), url, encoding, options)
}

} // verus!
