//! DTD subset parser: element, attribute-list, entity and notation
//! declarations, parameter-entity expansion, and the checks XML 1.0 puts on
//! them. No network.

use vstd::prelude::*;
use crate::error::{XmlError, XML_ERR_SPACE_REQUIRED, XML_ERR_INVALID_CHAR, XML_ERR_ENTITYREF_NO_NAME, XML_ERR_ENTITYREF_SEMICOL_MISSING, XML_ERR_UNDECLARED_ENTITY};
use crate::tree::{XmlDtd, AttrDecl, AttrDefault, ElementDecl};
use crate::chvalid::{xml_is_char, xml_is_name_char, xml_is_name_start_char};
use crate::util::{push_char, str_eq, starts_with_at, char_from_u32};
use crate::sax::utf8_lossy;

verus! {

/// The scalar at `pos` of `b`, or `None` when the bytes there are no UTF-8.
fn char_at(b: &[u8], pos: usize) -> (r: Option<(char, usize)>)
    requires
        pos < b.len(),
    ensures
        r matches Some((c, n)) ==> 1 <= n <= 4 && pos + n <= b.len(),
        r == crate::parse::utf8_at(b@, pos as int),
{
    crate::parse::decode_at(b, pos)
}

/// `PubidChar ::= #x20 | #xD | #xA | [a-zA-Z0-9] | [-'()+,./:=?;!*#@$_%]`.
pub fn is_pubid_char(c: char) -> (r: bool)
    ensures
        r == crate::chvalid::is_pubid(c as u32),
{
    crate::chvalid::xml_is_pubid_char(c as u32)
}

/// Decode the character references of an entity value or attribute default;
/// general entity references stay as written, and must be well formed.
/// The text of an entity value or attribute default from `i` on, with
/// character references decoded and general entity references kept as
/// written; `None` where a reference is malformed or names no XML
/// character. A `&` must begin a reference: a general entity reference's
/// name starts with a name start character, so `&49;` is refused. Bytes
/// that are no UTF-8 read as U+FFFD.
spec fn charrefs_from(s: Seq<u8>, i: int) -> Option<Seq<char>>
    decreases s.len() - i,
{
    if i < 0 || i >= s.len() {
        Some(Seq::empty())
    } else if s[i] != 0x26 {
        match crate::parse::utf8_at(s, i) {
            Some((c, n)) => if n >= 1 {
                match charrefs_from(s, i + n) {
                    Some(t) => Some(seq![c] + t),
                    None => None,
                }
            } else {
                None
            },
            None => match charrefs_from(s, i + 1) {
                Some(t) => Some(seq!['\u{fffd}'] + t),
                None => None,
            },
        }
    } else if i + 1 < s.len() && s[i + 1] == 0x23 {
        let k = i + 2;
        let hex = k < s.len() && (s[k] == 0x78 || s[k] == 0x58);
        let upper_x = k < s.len() && s[k] == 0x58;
        let ds = if hex { k + 1 } else { k };
        let de = crate::parse::digit_run_end(s, ds, hex);
        let v = crate::parse::digits_num(s.subrange(ds, de), hex);
        if upper_x || de <= ds || de >= s.len() || s[de] != 0x3b || v > 0x10ffff || !crate::chvalid::is_xml_char(v as u32) {
            None
        } else {
            match charrefs_from(s, de + 1) {
                Some(t) => Some(seq![v as char] + t),
                None => None,
            }
        }
    } else {
        let e = crate::parse::name_end_from(s, i + 1, i + 1, false);
        if e <= i + 1 || e >= s.len() || s[e] != 0x3b {
            None
        } else {
            match charrefs_from(s, e + 1) {
                Some(t) => Some(seq!['&'] + crate::parse::utf8_chars(s, i + 1, e) + seq![';'] + t),
                None => None,
            }
        }
    }
}

#[verifier::rlimit(80)]
#[verifier::spinoff_prover]
fn decode_charrefs(s: &[u8]) -> (r: Result<String, &'static str>)
    ensures
        match r {
            Ok(v) => charrefs_from(s@, 0) == Some(v@),
            Err(_) => charrefs_from(s@, 0) is None,
        },
{
    let mut out = String::new();
    let mut i: usize = 0;
    assert(out@ =~= Seq::<char>::empty());
    while i < s.len()
        invariant
            i <= s.len(),
            charrefs_from(s@, 0) == (match charrefs_from(s@, i as int) {
                Some(t) => Some(out@ + t),
                None => None::<Seq<char>>,
            }),
        decreases s.len() - i,
    {
        let ghost i0 = i;
        let ghost o = out@;
        if s[i] != 0x26 {
            match char_at(s, i) {
                Some((c, n)) => {
                    push_char(&mut out, c);
                    i = i + n;
                    proof {
                        match charrefs_from(s@, i as int) {
                            Some(t) => {
                                assert(o + (seq![c] + t) =~= out@ + t);
                            },
                            None => {},
                        }
                    }
                },
                None => {
                    push_char(&mut out, '\u{fffd}');
                    i = i + 1;
                    proof {
                        match charrefs_from(s@, i as int) {
                            Some(t) => {
                                assert(o + (seq!['\u{fffd}'] + t) =~= out@ + t);
                            },
                            None => {},
                        }
                    }
                },
            }
            continue;
        }
        i += 1;
        if i < s.len() && s[i] == 0x23 {
            i += 1;
            let hex = i < s.len() && (s[i] == 0x78 || s[i] == 0x58);
            let upper_x = i < s.len() && s[i] == 0x58;
            if hex {
                i += 1;
            }
            let ghost ds = i as int;
            let ghost b = s@;
            assert(b.subrange(ds, ds) =~= Seq::<u8>::empty());
            let mut val: u32 = 0;
            let mut nd: usize = 0;
            let mut big = false;
            while i < s.len() && is_digit_of(s[i], hex)
                invariant
                    i0 < i <= s.len(),
                    b == s@,
                    0 <= ds <= i,
                    crate::parse::digit_run_end(b, i as int, hex) == crate::parse::digit_run_end(b, ds, hex),
                    crate::parse::all_digits_of(b.subrange(ds, i as int), hex),
                    (nd == 0) == (i == ds),
                    !big ==> val == crate::parse::digits_num(b.subrange(ds, i as int), hex),
                    big ==> crate::parse::digits_num(b.subrange(ds, i as int), hex) > 0x10ffff,
                    val <= 0x10ffff * 16 + 15,
                decreases s.len() - i,
            {
                let ghost p = i as int;
                let d = digit_of(s[i], hex);
                proof {
                    let pre = b.subrange(ds, p);
                    let nxt = b.subrange(ds, p + 1);
                    assert(nxt.drop_last() =~= pre);
                    assert(nxt.last() == b[p]);
                    assert(crate::parse::all_digits_of(nxt, hex)) by {
                        assert forall|m: int| 0 <= m < nxt.len() implies #[trigger] crate::parse::digit_val(nxt[m], hex) is Some by {
                            if m < pre.len() {
                                assert(nxt[m] == pre[m]);
                            }
                        }
                    }
                    crate::parse::lemma_digits_num_grow(nxt, hex, pre.len() as int);
                    assert(nxt.take(pre.len() as int) =~= pre);
                }
                if val > 0x10ffff {
                    big = true;
                } else {
                    assert(val * (if hex { 16u32 } else { 10u32 }) <= 0x10ffff * 16) by (nonlinear_arith)
                        requires
                            val <= 0x10ffff,
                    ;
                    val = val * (if hex { 16u32 } else { 10u32 }) + d;
                }
                nd = if nd < 100 { nd + 1 } else { nd };
                i += 1;
            }
            let semi = i < s.len() && s[i] == 0x3b;
            if upper_x || nd == 0 || !semi {
                return Err(if hex { "CharRef: invalid hexadecimal value" } else { "CharRef: invalid decimal value" });
            }
            i += 1;
            if big {
                return Err("CharRef: value out of range");
            }
            match char_from_u32(val) {
                Some(c) => {
                    if !xml_is_char(val) {
                        return Err("CharRef: invalid XML character");
                    }
                    push_char(&mut out, c);
                    proof {
                        match charrefs_from(s@, i as int) {
                            Some(t) => {
                                assert(o + (seq![c] + t) =~= out@ + t);
                            },
                            None => {},
                        }
                    }
                },
                None => {
                    return Err("CharRef: invalid XML character");
                },
            }
            continue;
        }
        let start = i;
        i = name_end(s, start, false);
        if i == start || i >= s.len() || s[i] != 0x3b {
            return Err("EntityValue: '&' forbidden except for entities references");
        }
        push_char(&mut out, '&');
        let nm = crate::parse::chars_in(s, start, i);
        out.append(nm.as_str());
        push_char(&mut out, ';');
        i += 1;
        proof {
            match charrefs_from(s@, i as int) {
                Some(t) => {
                    assert(o + (seq!['&'] + nm@ + seq![';'] + t) =~= out@ + t);
                },
                None => {},
            }
        }
    }
    assert(out@ + Seq::<char>::empty() =~= out@);
    Ok(out)
}

/// The byte length of `lit` when `b` continues with it at `i`; zero when it
/// does not (or `lit` is empty).
fn lit_at(b: &[u8], i: usize, lit: &str) -> (r: usize)
    requires
        i <= b.len(),
    ensures
        r > 0 ==> i + r <= b.len(),
        r == (if vstd::utf8::encode_utf8(lit@).len() > 0 && crate::util::bytes_at(b@, i as int, vstd::utf8::encode_utf8(lit@)) {
            vstd::utf8::encode_utf8(lit@).len() as usize
        } else {
            0usize
        }),
{
    let l = lit.as_bytes();
    if l.len() > 0 && starts_with_at(b, i, l) {
        l.len()
    } else {
        0
    }
}

fn is_digit_of(b: u8, hex: bool) -> (r: bool)
    ensures
        r == ((0x30 <= b <= 0x39) || (hex && ((0x61 <= b <= 0x66) || (0x41 <= b <= 0x46)))),
{
    (0x30 <= b && b <= 0x39) || (hex && ((0x61 <= b && b <= 0x66) || (0x41 <= b && b <= 0x46)))
}

fn digit_of(b: u8, hex: bool) -> (r: u32)
    ensures
        r < 16,
        0x30 <= b <= 0x39 ==> r == b - 0x30,
        crate::parse::digit_val(b, hex) matches Some(v) ==> r == v,
{
    if 0x30 <= b && b <= 0x39 {
        (b - 0x30) as u32
    } else if 0x61 <= b && b <= 0x66 {
        (b - 0x61 + 10) as u32
    } else if 0x41 <= b && b <= 0x46 {
        (b - 0x41 + 10) as u32
    } else {
        0
    }
}

/// XML whitespace: space, tab, line feed, carriage return.
pub open spec fn ws_byte(b: u8) -> bool {
    b == 0x20 || b == 0x09 || b == 0x0a || b == 0x0d
}

/// The first position at or after `i` that holds no whitespace.
pub open spec fn ws_skip(b: Seq<u8>, i: int) -> int
    decreases b.len() - i,
{
    if 0 <= i < b.len() && ws_byte(b[i]) { ws_skip(b, i + 1) } else { i }
}

/// `p` is not empty and `b` continues with it at `k`.
spec fn lit_occurs(b: Seq<u8>, k: int, p: Seq<u8>) -> bool {
    p.len() > 0 && crate::util::bytes_at(b, k, p)
}

/// The first place at or after `i` where `p` occurs (the end of `b` when
/// it occurs nowhere there).
spec fn find_lit(b: Seq<u8>, i: int, p: Seq<u8>) -> int
    decreases b.len() - i,
{
    if i < 0 || i >= b.len() {
        b.len() as int
    } else if lit_occurs(b, i, p) {
        i
    } else {
        find_lit(b, i + 1, p)
    }
}

/// `b[t..te]` is the name `xml`, in any case.
spec fn xml_name_at(b: Seq<u8>, t: int, te: int) -> bool {
    &&& te - t == 3
    &&& crate::util::ascii_lower(b[t]) == 0x78
    &&& crate::util::ascii_lower(b[t + 1]) == 0x6d
    &&& crate::util::ascii_lower(b[t + 2]) == 0x6c
}

/// Where whitespace, comments and processing instructions from `i` on end;
/// `None` where a processing instruction has no target, a target that is
/// no name, or is an XML declaration. An unclosed comment or instruction
/// is left where it starts.
spec fn ws_comments_end(b: Seq<u8>, i: int, old10: bool) -> Option<int>
    decreases b.len() - i,
{
    let j = ws_skip(b, i);
    if i < 0 || j < i {
        None
    } else if lit_occurs(b, j, seq![0x3cu8, 0x21u8, 0x2du8, 0x2du8]) {
        let k = find_lit(b, j + 4, seq![0x2du8, 0x2du8, 0x3eu8]);
        if k < b.len() && k + 3 > i && k + 3 <= b.len() { ws_comments_end(b, k + 3, old10) } else { Some(j) }
    } else if lit_occurs(b, j, seq![0x3cu8, 0x3fu8]) {
        let t = j + 2;
        let te = crate::parse::name_end_from(b, t, t, old10);
        if xml_name_at(b, t, te) && (te >= b.len() || ws_byte(b[te]) || b[te] == 0x3f) {
            None
        } else if te == t {
            None
        } else if !(te >= b.len() || ws_byte(b[te]) || crate::util::bytes_at(b, te, seq![0x3fu8, 0x3eu8])) {
            None
        } else {
            let k = find_lit(b, j + 2, seq![0x3fu8, 0x3eu8]);
            if k < b.len() && k + 2 > i && k + 2 <= b.len() { ws_comments_end(b, k + 2, old10) } else { Some(j) }
        }
    } else {
        Some(j)
    }
}

/// Where an ignored conditional section that is `depth` sections deep at
/// `i` ends: after the `]]>` that closes the outermost one (nesting counts
/// to a million), or at the end of the text.
spec fn cond_end(b: Seq<u8>, i: int, depth: int) -> int
    decreases b.len() - i,
{
    if i < 0 || i >= b.len() {
        i
    } else if lit_occurs(b, i, seq![0x3cu8, 0x21u8, 0x5bu8]) {
        cond_end(b, i + 3, if depth < 1000000 { depth + 1 } else { depth })
    } else if lit_occurs(b, i, seq![0x5du8, 0x5du8, 0x3eu8]) {
        let d = if depth > 0 { depth - 1 } else { 0 };
        if d == 0 { i + 3 } else { cond_end(b, i + 3, d) }
    } else {
        cond_end(b, i + 1, depth)
    }
}

/// Where the text taken as a content specification from `i` ends: at a `>`
/// outside parentheses, just after the `)` that closes the outermost group,
/// or at the end (nesting counts to a million).
spec fn spec_text_end(b: Seq<u8>, i: int, depth: int) -> int
    decreases b.len() - i,
{
    if i < 0 || i >= b.len() {
        i
    } else if b[i] == 0x28 {
        spec_text_end(b, i + 1, if depth < 1000000 { depth + 1 } else { depth })
    } else if b[i] == 0x29 {
        let d = if depth > 0 { depth - 1 } else { 0 };
        if d == 0 { i + 1 } else { spec_text_end(b, i + 1, d) }
    } else if b[i] == 0x3e && depth == 0 {
        i
    } else {
        spec_text_end(b, i + 1, depth)
    }
}

/// Line and column after reading the first `end` bytes: a line feed starts
/// a new line, every byte that starts a character advances the column.
spec fn line_col_after(b: Seq<u8>, end: int) -> (u32, u32)
    decreases end,
{
    if end <= 0 {
        (1u32, 1u32)
    } else {
        let (l, c) = line_col_after(b, end - 1);
        let x = b[end - 1];
        if x == 0x0a {
            (l.wrapping_add(1), 1u32)
        } else if x < 0x80 || x >= 0xc0 {
            (l, c.wrapping_add(1))
        } else {
            (l, c)
        }
    }
}

/// XML whitespace.
fn is_ws(b: u8) -> (r: bool)
    ensures
        r == ws_byte(b),
{
    b == 0x20 || b == 0x09 || b == 0x0a || b == 0x0d
}

/// The name starting at `i`, as its end position (`i` when there is none).
fn name_end(b: &[u8], i: usize, old10: bool) -> (r: usize)
    requires
        i <= b.len(),
    ensures
        i <= r <= b.len(),
        r == crate::parse::name_end_from(b@, i as int, i as int, old10),
{
    let mut j = i;
    while j < b.len()
        invariant
            i <= j <= b.len(),
            crate::parse::name_end_from(b@, i as int, j as int, old10) == crate::parse::name_end_from(b@, i as int, i as int, old10),
        ensures
            i <= j <= b.len(),
            crate::parse::name_end_from(b@, i as int, j as int, old10) == j,
            crate::parse::name_end_from(b@, i as int, j as int, old10) == crate::parse::name_end_from(b@, i as int, i as int, old10),
        decreases b.len() - j,
    {
        match char_at(b, j) {
            Some((c, n)) => {
                let ok = if j == i {
                    xml_is_name_start_char(c as u32, old10)
                } else {
                    xml_is_name_char(c as u32, old10)
                };
                if !ok {
                    break;
                }
                j = j + n;
            },
            None => {
                break;
            },
        }
    }
    j
}

/// The parameter entities declared with a literal value, as written (with
/// character references decoded).
fn harvest_pe(src: &[u8]) -> (r: Vec<(String, String)>) {
    let mut pes: Vec<(String, String)> = Vec::new();
    let mut i: usize = 0;
    while i < src.len()
        invariant
            i <= src.len(),
        decreases src.len() - i,
    {
        let ghost i0 = i;
        let n = lit_at(src, i, "<!ENTITY ");
        if n == 0 {
            i += 1;
            continue;
        }
        i = i + n;
        while i < src.len() && is_ws(src[i])
            invariant
                i0 < i <= src.len(),
            decreases src.len() - i,
        {
            i += 1;
        }
        if i >= src.len() || src[i] != 0x25 {
            continue;
        }
        i += 1;
        while i < src.len() && is_ws(src[i])
            invariant
                i0 < i <= src.len(),
            decreases src.len() - i,
        {
            i += 1;
        }
        let start = i;
        while i < src.len() && !is_ws(src[i]) && src[i] != 0x22 && src[i] != 0x27
            invariant
                i0 < start <= i <= src.len(),
            decreases src.len() - i,
        {
            i += 1;
        }
        let name = utf8_lossy(&src[start..i]);
        while i < src.len() && is_ws(src[i])
            invariant
                i0 < i <= src.len(),
            decreases src.len() - i,
        {
            i += 1;
        }
        if i < src.len() && (src[i] == 0x22 || src[i] == 0x27) {
            let q = src[i];
            i += 1;
            let vs = i;
            while i < src.len() && src[i] != q
                invariant
                    i0 < vs <= i <= src.len(),
                decreases src.len() - i,
            {
                i += 1;
            }
            match decode_charrefs(&src[vs..i]) {
                Ok(v) => pes.push((name, v)),
                Err(_) => {},
            }
        }
    }
    pes
}

/// The value of the last parameter entity named `name` among `pes`.
spec fn pe_lookup(pes: Seq<(String, String)>, name: Seq<char>) -> Option<Seq<char>>
    decreases pes.len(),
{
    if pes.len() == 0 {
        None
    } else if pes.last().0@ == name {
        Some(pes.last().1@)
    } else {
        pe_lookup(pes.drop_last(), name)
    }
}

/// The character that starts at `i`, U+FFFD and one byte where the bytes
/// are no UTF-8.
spec fn char_or_fffd(b: Seq<u8>, i: int) -> (char, usize) {
    match crate::parse::utf8_at(b, i) {
        Some(x) => x,
        None => ('\u{fffd}', 1usize),
    }
}

/// `t` in front of a result.
spec fn prepend(t: Seq<char>, r: Result<Seq<char>, i32>) -> Result<Seq<char>, i32> {
    match r {
        Ok(v) => Ok(t + v),
        Err(c) => Err(c),
    }
}

/// One substitution pass over `src` from `i` on, the scanner being inside a
/// comment (`c`), inside a declaration (`d`) that is an entity declaration
/// (`ent`), inside a literal quoted with `q` (0 for none): each parameter
/// entity reference that may stand where it stands is replaced by its value
/// (an unknown one is kept), `%` inside a literal of a declaration other than
/// an entity declaration is kept, `%;` is an error, a reference inside a
/// declaration of the internal subset is an error, and a reference without
/// its `;` is an error (by error code).
spec fn pe_subst(
    src: Seq<u8>,
    i: int,
    c: bool,
    d: bool,
    ent: bool,
    q: u8,
    pes: Seq<(String, String)>,
    internal: bool,
) -> Result<Seq<char>, i32>
    decreases src.len() - i,
{
    if i < 0 || i >= src.len() {
        Ok(Seq::empty())
    } else if c {
        if lit_occurs(src, i, seq![0x2du8, 0x2du8, 0x3eu8]) {
            prepend("-->"@, pe_subst(src, i + 3, false, d, ent, q, pes, internal))
        } else {
            let (ch, n) = char_or_fffd(src, i);
            if n >= 1 { prepend(seq![ch], pe_subst(src, i + n, c, d, ent, q, pes, internal)) } else { Ok(Seq::empty()) }
        }
    } else if src[i] == 0x3e && d {
        prepend(seq!['>'], pe_subst(src, i + 1, c, false, ent, q, pes, internal))
    } else {
        let b = src[i];
        let q2: u8 = if d {
            if q != 0 && b == q { 0u8 } else if q == 0 && (b == 0x22 || b == 0x27) { b } else { q }
        } else {
            q
        };
        if lit_occurs(src, i, seq![0x3cu8, 0x3fu8]) {
            prepend("<?"@, pe_subst(src, i + 2, c, true, false, 0, pes, internal))
        } else if d && lit_occurs(src, i, seq![0x3fu8, 0x3eu8]) {
            prepend("?>"@, pe_subst(src, i + 2, c, false, ent, q2, pes, internal))
        } else if lit_occurs(src, i, seq![0x3cu8, 0x21u8, 0x2du8, 0x2du8]) {
            prepend("<!--"@, pe_subst(src, i + 4, true, false, ent, q2, pes, internal))
        } else if lit_occurs(src, i, seq![0x3cu8, 0x21u8]) {
            prepend("<!"@, pe_subst(src, i + 2, c, true,
                crate::util::bytes_at(src, i + 2, seq![0x45u8, 0x4eu8, 0x54u8, 0x49u8, 0x54u8, 0x59u8]), 0, pes, internal))
        } else if b == 0x25 {
            let nn = i + 1 < src.len() && (crate::parse::utf8_at(src, i + 1) matches Some((ch, _))
                && crate::chvalid::is_name_start(ch as u32, false));
            if !nn {
                if i + 1 < src.len() && src[i + 1] == 0x3b {
                    Err(XML_ERR_ENTITYREF_NO_NAME)
                } else {
                    prepend(seq!['%'], pe_subst(src, i + 1, c, d, ent, q2, pes, internal))
                }
            } else if d && q2 != 0 && !ent {
                prepend(seq!['%'], pe_subst(src, i + 1, c, d, ent, q2, pes, internal))
            } else if internal && d {
                Err(XML_ERR_ENTITYREF_NO_NAME)
            } else {
                let e = crate::parse::name_end_from(src, i + 1, i + 1, false);
                if e >= src.len() || src[e] != 0x3b || e <= i {
                    Err(XML_ERR_ENTITYREF_SEMICOL_MISSING)
                } else {
                    let nm = crate::parse::utf8_chars(src, i + 1, e);
                    let v = match pe_lookup(pes, nm) {
                        Some(v) => v,
                        None => seq!['%'] + nm + seq![';'],
                    };
                    prepend(v, pe_subst(src, e + 1, c, d, ent, q2, pes, internal))
                }
            }
        } else {
            let (ch, n) = char_or_fffd(src, i);
            if n >= 1 { prepend(seq![ch], pe_subst(src, i + n, c, d, ent, q2, pes, internal)) } else { Ok(Seq::empty()) }
        }
    }
}

/// The value of a harvested parameter entity (the last one harvested wins).
fn pe_value(pes: &Vec<(String, String)>, name: &str) -> (r: Option<String>)
    ensures
        crate::tree::opt_string_view(r) == pe_lookup(pes@, name@),
        r is None <==> forall|j: int| 0 <= j < pes@.len() ==> (#[trigger] pes@[j]).0@ != name@,
        r matches Some(v) ==> exists|k: int| 0 <= k < pes@.len() && (#[trigger] pes@[k]).0@ == name@
            && v@ == pes@[k].1@ && forall|j: int| k < j < pes@.len() ==> (#[trigger] pes@[j]).0@ != name@,
{
    let mut k = pes.len();
    assert(pes@.take(k as int) =~= pes@);
    while k > 0
        invariant
            k <= pes.len(),
            forall|j: int| k <= j < pes@.len() ==> (#[trigger] pes@[j]).0@ != name@,
            pe_lookup(pes@, name@) == pe_lookup(pes@.take(k as int), name@),
        decreases k,
    {
        assert(pes@.take(k as int).last() == pes@[k - 1]);
        assert(pes@.take(k as int).drop_last() =~= pes@.take(k - 1));
        k -= 1;
        if str_eq(pes[k].0.as_str(), name) {
            return Some(pes[k].1.clone());
        }
    }
    None
}

fn dtd_err(msg: &str) -> (r: XmlError) {
    XmlError::new(XML_ERR_SPACE_REQUIRED, String::from_str(msg), 0, 0)
}

/// One substitution pass: replace each parameter entity reference that may
/// stand where it stands by its value. In the internal subset a reference
/// may not occur inside a declaration; inside an attribute default `%` is an
/// ordinary character.
/// Putting `a`, then `b`, in front of a result puts `a + b` there.
proof fn lemma_prepend(a: Seq<char>, b: Seq<char>, r: Result<Seq<char>, i32>)
    ensures
        prepend(a, prepend(b, r)) == prepend(a + b, r),
{
    match r {
        Ok(v) => {
            assert(a + (b + v) =~= (a + b) + v);
        },
        Err(_) => {},
    }
}

#[verifier::rlimit(100)]
#[verifier::spinoff_prover]
fn subst_pe(src: &[u8], pes: &Vec<(String, String)>, internal: bool) -> (r: Result<String, XmlError>)
    ensures
        match r {
            Ok(v) => pe_subst(src@, 0, false, false, false, 0, pes@, internal) == Ok::<Seq<char>, i32>(v@),
            Err(e) => pe_subst(src@, 0, false, false, false, 0, pes@, internal) == Err::<Seq<char>, i32>(e.code),
        },
{
    proof {
        reveal_strlit("-->");
        reveal_strlit("<?");
        reveal_strlit("?>");
        reveal_strlit("<!--");
        reveal_strlit("<!");
        reveal_strlit("ENTITY");
        crate::util::lemma_encode_ascii("-->"@);
        crate::util::lemma_encode_ascii("<?"@);
        crate::util::lemma_encode_ascii("?>"@);
        crate::util::lemma_encode_ascii("<!--"@);
        crate::util::lemma_encode_ascii("<!"@);
        crate::util::lemma_encode_ascii("ENTITY"@);
        assert(vstd::utf8::encode_utf8("-->"@) =~= seq![0x2du8, 0x2du8, 0x3eu8]);
        assert(vstd::utf8::encode_utf8("<?"@) =~= seq![0x3cu8, 0x3fu8]);
        assert(vstd::utf8::encode_utf8("?>"@) =~= seq![0x3fu8, 0x3eu8]);
        assert(vstd::utf8::encode_utf8("<!--"@) =~= seq![0x3cu8, 0x21u8, 0x2du8, 0x2du8]);
        assert(vstd::utf8::encode_utf8("<!"@) =~= seq![0x3cu8, 0x21u8]);
        assert(vstd::utf8::encode_utf8("ENTITY"@) =~= seq![0x45u8, 0x4eu8, 0x54u8, 0x49u8, 0x54u8, 0x59u8]);
    }
    let ghost total = pe_subst(src@, 0, false, false, false, 0, pes@, internal);
    let mut out = String::new();
    let mut in_comment = false;
    let mut in_decl = false;
    let mut decl_is_entity = false;
    let mut in_quote: u8 = 0;
    let mut i: usize = 0;
    assert(prepend(out@, total) == total) by {
        match total {
            Ok(v) => {
                assert(out@ + v =~= v);
            },
            Err(_) => {},
        }
    }
    while i < src.len()
        invariant
            i <= src.len(),
            total == pe_subst(src@, 0, false, false, false, 0, pes@, internal),
            total == prepend(out@, pe_subst(src@, i as int, in_comment, in_decl, decl_is_entity, in_quote, pes@, internal)),
            vstd::utf8::encode_utf8("-->"@) == seq![0x2du8, 0x2du8, 0x3eu8],
            vstd::utf8::encode_utf8("<?"@) == seq![0x3cu8, 0x3fu8],
            vstd::utf8::encode_utf8("?>"@) == seq![0x3fu8, 0x3eu8],
            vstd::utf8::encode_utf8("<!--"@) == seq![0x3cu8, 0x21u8, 0x2du8, 0x2du8],
            vstd::utf8::encode_utf8("<!"@) == seq![0x3cu8, 0x21u8],
            vstd::utf8::encode_utf8("ENTITY"@) == seq![0x45u8, 0x4eu8, 0x54u8, 0x49u8, 0x54u8, 0x59u8],
        decreases src.len() - i,
    {
        let ghost i0 = i as int;
        let ghost o0 = out@;
        let ghost c0 = in_comment;
        let ghost d0 = in_decl;
        let ghost e0 = decl_is_entity;
        let ghost q0 = in_quote;
        let ghost here = pe_subst(src@, i0, c0, d0, e0, q0, pes@, internal);
        let b = src[i];
        if in_comment {
            let n = lit_at(src, i, "-->");
            if n > 0 {
                out.append("-->");
                i = i + n;
                in_comment = false;
                proof {
                    lemma_prepend(o0, "-->"@, pe_subst(src@, i as int, in_comment, in_decl, decl_is_entity, in_quote, pes@, internal));
                }
            } else {
                let (c, n) = match char_at(src, i) {
                    Some(x) => x,
                    None => ('\u{fffd}', 1),
                };
                push_char(&mut out, c);
                i = i + n;
                proof {
                    assert(out@ == o0 + seq![c]);
                    lemma_prepend(o0, seq![c], pe_subst(src@, i as int, in_comment, in_decl, decl_is_entity, in_quote, pes@, internal));
                }
            }
            continue;
        }
        if b == 0x3e && in_decl {
            in_decl = false;
            push_char(&mut out, '>');
            i += 1;
            proof {
                assert(out@ == o0 + seq!['>']);
                lemma_prepend(o0, seq!['>'], pe_subst(src@, i as int, in_comment, in_decl, decl_is_entity, in_quote, pes@, internal));
            }
            continue;
        }
        if in_decl {
            if in_quote != 0 && b == in_quote {
                in_quote = 0;
            } else if in_quote == 0 && (b == 0x22 || b == 0x27) {
                in_quote = b;
            }
        }
        let n = lit_at(src, i, "<?");
        if n > 0 {
            in_decl = true;
            decl_is_entity = false;
            in_quote = 0;
            out.append("<?");
            i = i + n;
            proof {
                lemma_prepend(o0, "<?"@, pe_subst(src@, i as int, in_comment, in_decl, decl_is_entity, in_quote, pes@, internal));
            }
            continue;
        }
        let n = if in_decl { lit_at(src, i, "?>") } else { 0 };
        if n > 0 {
            in_decl = false;
            out.append("?>");
            i = i + n;
            proof {
                lemma_prepend(o0, "?>"@, pe_subst(src@, i as int, in_comment, in_decl, decl_is_entity, in_quote, pes@, internal));
            }
            continue;
        }
        let n = lit_at(src, i, "<!--");
        if n > 0 {
            in_comment = true;
            in_decl = false;
            out.append("<!--");
            i = i + n;
            proof {
                lemma_prepend(o0, "<!--"@, pe_subst(src@, i as int, in_comment, in_decl, decl_is_entity, in_quote, pes@, internal));
            }
            continue;
        }
        let n = lit_at(src, i, "<!");
        if n > 0 {
            in_decl = true;
            in_quote = 0;
            decl_is_entity = starts_with_at(src, i + n, "ENTITY".as_bytes());
            out.append("<!");
            i = i + n;
            proof {
                lemma_prepend(o0, "<!"@, pe_subst(src@, i as int, in_comment, in_decl, decl_is_entity, in_quote, pes@, internal));
            }
            continue;
        }
        if b == 0x25 {
            let next_is_name = i + 1 < src.len() && match char_at(src, i + 1) {
                Some((c, _)) => xml_is_name_start_char(c as u32, false),
                None => false,
            };
            if !next_is_name {
                if i + 1 < src.len() && src[i + 1] == 0x3b {
                    return Err(XmlError::new(XML_ERR_ENTITYREF_NO_NAME, String::from_str("PEReference: no name"), 0, 0));
                }
                push_char(&mut out, '%');
                i += 1;
                proof {
                    assert(out@ == o0 + seq!['%']);
                    lemma_prepend(o0, seq!['%'], pe_subst(src@, i as int, in_comment, in_decl, decl_is_entity, in_quote, pes@, internal));
                }
                continue;
            }
            if in_decl && in_quote != 0 && !decl_is_entity {
                push_char(&mut out, '%');
                i += 1;
                proof {
                    assert(out@ == o0 + seq!['%']);
                    lemma_prepend(o0, seq!['%'], pe_subst(src@, i as int, in_comment, in_decl, decl_is_entity, in_quote, pes@, internal));
                }
                continue;
            }
            if internal && in_decl {
                return Err(XmlError::new(XML_ERR_ENTITYREF_NO_NAME, String::from_str("PEReferences forbidden in internal subset"), 0, 0));
            }
            let e = name_end(src, i + 1, false);
            if e >= src.len() || src[e] != 0x3b {
                return Err(XmlError::new(XML_ERR_ENTITYREF_SEMICOL_MISSING, String::from_str("PEReference: expecting ';'"), 0, 0));
            }
            let name = crate::parse::chars_in(src, i + 1, e);
            let ghost added: Seq<char>;
            match pe_value(pes, name.as_str()) {
                Some(v) => {
                    out.append(v.as_str());
                    proof {
                        added = v@;
                    }
                },
                None => {
                    push_char(&mut out, '%');
                    out.append(name.as_str());
                    push_char(&mut out, ';');
                    proof {
                        added = seq!['%'] + name@ + seq![';'];
                        assert(out@ =~= o0 + added);
                    }
                },
            }
            i = e + 1;
            proof {
                lemma_prepend(o0, added, pe_subst(src@, i as int, in_comment, in_decl, decl_is_entity, in_quote, pes@, internal));
            }
            continue;
        }
        let (c, n) = match char_at(src, i) {
            Some(x) => x,
            None => ('\u{fffd}', 1),
        };
        push_char(&mut out, c);
        i = i + n;
        proof {
            assert(out@ == o0 + seq![c]);
            lemma_prepend(o0, seq![c], pe_subst(src@, i as int, in_comment, in_decl, decl_is_entity, in_quote, pes@, internal));
        }
    }
    assert(total == prepend(out@, Ok(Seq::<char>::empty())));
    assert(out@ + Seq::<char>::empty() =~= out@);
    Ok(out)
}

/// Expand parameter entity references, in passes (a replacement may form new
/// references), at most sixteen.
fn expand_pe(src: &str, internal: bool) -> (r: Result<String, XmlError>) {
    let mut cur = String::from_str(src);
    let mut pass: usize = 0;
    while pass < 16
        invariant
            pass <= 16,
        decreases 16 - pass,
    {
        let pes = harvest_pe(cur.as_str().as_bytes());
        let next = subst_pe(cur.as_str().as_bytes(), &pes, internal)?;
        if next == cur {
            return Ok(cur);
        }
        cur = next;
        pass += 1;
    }
    Ok(cur)
}

/// The declaration parser over an expanded subset.
struct DtdParser<'a> {
    src: &'a [u8],
    pos: usize,
    dtd: XmlDtd,
    internal: bool,
    old10: bool,
}

/// An attribute type the parser accepts.
pub open spec fn known_att_type(t: Seq<char>) -> bool {
    t == "CDATA"@ || t == "ID"@ || t == "IDREF"@ || t == "IDREFS"@ || t == "ENTITY"@ || t == "ENTITIES"@
        || t == "NMTOKEN"@ || t == "NMTOKENS"@ || t == "NOTATION"@ || t == "ENUMERATION"@
}

/// No tab, line feed or carriage return: attribute-value normalized.
pub open spec fn normalized(v: Seq<char>) -> bool {
    forall|i: int| 0 <= i < v.len() ==> #[trigger] v[i] != '\t' && v[i] != '\n' && v[i] != '\r'
}

/// One attribute declaration is well formed: it has a default value exactly
/// when it is `#FIXED` or a plain default, that value is normalized, and
/// its type is a known one.
pub open spec fn attr_decl_wf(ad: AttrDecl) -> bool {
    &&& ((ad.default == AttrDefault::Required || ad.default == AttrDefault::Implied) <==> ad.default_value is None)
    &&& known_att_type(ad.att_type@)
    &&& (ad.default_value matches Some(v) ==> normalized(v@))
}

/// The attribute declarations are well formed and no element and
/// attribute pair is declared twice.
pub open spec fn attr_decls_ok(d: XmlDtd) -> bool {
    &&& forall|k: int| 0 <= k < d.attributes@.len() ==> #[trigger] attr_decl_wf(d.attributes@[k].2)
    &&& forall|j: int, k: int| 0 <= j < k < d.attributes@.len()
        ==> !((#[trigger] d.attributes@[j]).0@ == (#[trigger] d.attributes@[k]).0@ && d.attributes@[j].1@ == d.attributes@[k].1@)
}

/// `new` differs from `old` at most in its attribute declarations, which
/// keep the old ones first and add only declarations for element `elem`.
pub open spec fn attlist_adds(old: XmlDtd, new: XmlDtd, elem: Seq<char>) -> bool {
    &&& new == (XmlDtd { attributes: new.attributes, ..old })
    &&& new.attributes@.len() >= old.attributes@.len()
    &&& new.attributes@.subrange(0, old.attributes@.len() as int) == old.attributes@
    &&& forall|j: int| old.attributes@.len() <= j < new.attributes@.len() ==> (#[trigger] new.attributes@[j]).0@ == elem
}

/// What one `<!ATTLIST` declaration may change: attribute declarations
/// added after the existing ones, all for one element.
pub open spec fn attlist_extends(old: XmlDtd, new: XmlDtd) -> bool {
    exists|elem: Seq<char>| attlist_adds(old, new, elem)
}

impl<'a> DtdParser<'a> {
    spec fn ok(&self) -> bool {
        &&& self.pos <= self.src.len()
        &&& attr_decls_ok(self.dtd)
    }

    fn rest_starts(&self, s: &str) -> (r: bool)
        requires
            self.ok(),
        ensures
            r == crate::util::bytes_at(self.src@, self.pos as int, vstd::utf8::encode_utf8(s@)),
    {
        starts_with_at(self.src, self.pos, s.as_bytes())
    }

    fn at_end(&self) -> (r: bool)
        ensures
            r == (self.pos >= self.src.len()),
    {
        self.pos >= self.src.len()
    }

    fn cur(&self) -> (r: u8)
        requires
            self.ok(),
        ensures
            r == (if self.pos < self.src.len() { self.src[self.pos as int] } else { 0u8 }),
    {
        if self.pos < self.src.len() {
            self.src[self.pos]
        } else {
            0
        }
    }

    /// Skip `s` when the text continues with it.
    fn eat(&mut self, s: &str) -> (r: bool)
        requires
            old(self).ok(),
        ensures
            final(self).ok(),
            final(self).src == old(self).src,
            final(self).pos >= old(self).pos,
            r ==> final(self).pos > old(self).pos,
            !r ==> *final(self) == *old(self),
            *final(self) == (DtdParser { pos: final(self).pos, ..*old(self) }),
            r == lit_occurs(old(self).src@, old(self).pos as int, vstd::utf8::encode_utf8(s@)),
            r ==> final(self).pos == old(self).pos + vstd::utf8::encode_utf8(s@).len(),
    {
        let b = s.as_bytes();
        if b.len() > 0 && starts_with_at(self.src, self.pos, b) {
            self.pos = self.pos + b.len();
            true
        } else {
            false
        }
    }

    /// Line and column of the cursor, for error reports.
    fn line_col(&self) -> (r: (u32, u32))
        ensures
            r == line_col_after(self.src@, if self.pos < self.src@.len() { self.pos as int } else { self.src@.len() as int }),
    {
        let mut line: u32 = 1;
        let mut col: u32 = 1;
        let end = if self.pos < self.src.len() { self.pos } else { self.src.len() };
        let mut i: usize = 0;
        while i < end
            invariant
                end <= self.src.len(),
                i <= end,
                (line, col) == line_col_after(self.src@, i as int),
            decreases end - i,
        {
            let b = self.src[i];
            if b == 0x0a {
                line = line.wrapping_add(1);
                col = 1;
            } else if b < 0x80 || b >= 0xc0 {
                col = col.wrapping_add(1);
            }
            i += 1;
        }
        (line, col)
    }

    fn err(&self, msg: &str) -> (r: XmlError) {
        let (line, col) = self.line_col();
        XmlError::new(XML_ERR_SPACE_REQUIRED, String::from_str(msg), line, col)
    }

    fn err_s(&self, msg: String) -> (r: XmlError) {
        let (line, col) = self.line_col();
        XmlError::new(XML_ERR_SPACE_REQUIRED, msg, line, col)
    }

    /// Whitespace only.
    fn skip_ws(&mut self)
        requires
            old(self).ok(),
        ensures
            final(self).ok(),
            final(self).src == old(self).src,
            final(self).pos >= old(self).pos,
            *final(self) == (DtdParser { pos: final(self).pos, ..*old(self) }),
            forall|k: int| old(self).pos <= k < final(self).pos ==> ws_byte(#[trigger] final(self).src@[k]),
            final(self).pos == final(self).src@.len() || !ws_byte(final(self).src@[final(self).pos as int]),
            final(self).pos == ws_skip(old(self).src@, old(self).pos as int),
    {
        while self.pos < self.src.len() && is_ws(self.src[self.pos])
            invariant
                self.ok(),
                self.src == old(self).src,
                self.pos >= old(self).pos,
                ws_skip(old(self).src@, self.pos as int) == ws_skip(old(self).src@, old(self).pos as int),
                *self == (DtdParser { pos: self.pos, ..*old(self) }),
                forall|k: int| old(self).pos <= k < self.pos ==> ws_byte(#[trigger] self.src@[k]),
            decreases self.src.len() - self.pos,
        {
            self.pos = self.pos + 1;
        }
    }

    /// Consume required whitespace, reporting whether there was any (or the
    /// text ended).
    fn require_ws(&mut self) -> (r: bool)
        requires
            old(self).ok(),
        ensures
            final(self).ok(),
            final(self).src == old(self).src,
            final(self).pos >= old(self).pos,
            *final(self) == (DtdParser { pos: final(self).pos, ..*old(self) }),
    {
        let before = self.pos;
        self.skip_ws();
        self.pos > before || self.pos >= self.src.len()
    }

    fn at_quote(&self) -> (r: bool)
        requires
            self.ok(),
        ensures
            r ==> self.pos < self.src.len(),
            r == (self.pos < self.src@.len() && (self.src@[self.pos as int] == 0x22 || self.src@[self.pos as int] == 0x27)),
    {
        self.pos < self.src.len() && (self.src[self.pos] == 0x22 || self.src[self.pos] == 0x27)
    }

    /// Advance to just after the next occurrence of `s`; false (and at the
    /// end) when there is none.
    fn skip_past(&mut self, s: &str) -> (r: bool)
        requires
            old(self).ok(),
        ensures
            final(self).ok(),
            final(self).src == old(self).src,
            final(self).pos >= old(self).pos,
            r ==> final(self).pos > old(self).pos,
            *final(self) == (DtdParser { pos: final(self).pos, ..*old(self) }),
            r ==> exists|k: int| old(self).pos <= k && #[trigger] lit_occurs(old(self).src@, k, vstd::utf8::encode_utf8(s@))
                && final(self).pos == k + vstd::utf8::encode_utf8(s@).len()
                && forall|j: int| old(self).pos <= j < k ==> !#[trigger] lit_occurs(old(self).src@, j, vstd::utf8::encode_utf8(s@)),
            !r ==> final(self).pos == old(self).src@.len()
                && forall|j: int| old(self).pos <= j < old(self).src@.len() ==> !#[trigger] lit_occurs(old(self).src@, j, vstd::utf8::encode_utf8(s@)),
            r <==> find_lit(old(self).src@, old(self).pos as int, vstd::utf8::encode_utf8(s@)) < old(self).src@.len(),
            r ==> final(self).pos == find_lit(old(self).src@, old(self).pos as int, vstd::utf8::encode_utf8(s@)) + vstd::utf8::encode_utf8(s@).len(),
    {
        while self.pos < self.src.len()
            invariant
                self.ok(),
                self.src == old(self).src,
                self.pos >= old(self).pos,
                *self == (DtdParser { pos: self.pos, ..*old(self) }),
                forall|j: int| old(self).pos <= j < self.pos ==> !#[trigger] lit_occurs(old(self).src@, j, vstd::utf8::encode_utf8(s@)),
                find_lit(old(self).src@, self.pos as int, vstd::utf8::encode_utf8(s@)) == find_lit(old(self).src@, old(self).pos as int, vstd::utf8::encode_utf8(s@)),
            decreases self.src.len() - self.pos,
        {
            let ghost p0 = self.pos as int;
            if self.eat(s) {
                assert(lit_occurs(old(self).src@, p0, vstd::utf8::encode_utf8(s@)));
                return true;
            }
            self.pos = self.pos + 1;
        }
        false
    }

    /// Whitespace, comments and processing instructions. A PI whose target
    /// is not a name, or an XML declaration, is an error here.
    #[verifier::rlimit(60)]
    #[verifier::spinoff_prover]
    fn skip_ws_and_comments(&mut self) -> (r: Result<(), XmlError>)
        requires
            old(self).ok(),
        ensures
            final(self).ok(),
            final(self).src == old(self).src,
            final(self).pos >= old(self).pos,
            *final(self) == (DtdParser { pos: final(self).pos, ..*old(self) }),
            r is Ok <==> ws_comments_end(old(self).src@, old(self).pos as int, old(self).old10) is Some,
            r is Ok ==> ws_comments_end(old(self).src@, old(self).pos as int, old(self).old10) == Some(final(self).pos as int),
    {
        proof {
            reveal_strlit("<!--");
            reveal_strlit("-->");
            reveal_strlit("<?");
            reveal_strlit("?>");
            reveal_strlit("xml");
            crate::util::lemma_encode_ascii("<!--"@);
            crate::util::lemma_encode_ascii("-->"@);
            crate::util::lemma_encode_ascii("<?"@);
            crate::util::lemma_encode_ascii("?>"@);
            crate::util::lemma_encode_ascii("xml"@);
            assert(vstd::utf8::encode_utf8("<!--"@) =~= seq![0x3cu8, 0x21u8, 0x2du8, 0x2du8]);
            assert(vstd::utf8::encode_utf8("-->"@) =~= seq![0x2du8, 0x2du8, 0x3eu8]);
            assert(vstd::utf8::encode_utf8("<?"@) =~= seq![0x3cu8, 0x3fu8]);
            assert(vstd::utf8::encode_utf8("?>"@) =~= seq![0x3fu8, 0x3eu8]);
            assert(vstd::utf8::encode_utf8("xml"@) =~= seq![0x78u8, 0x6du8, 0x6cu8]);
        }
        loop
            invariant_except_break
                ws_comments_end(old(self).src@, self.pos as int, self.old10) == ws_comments_end(old(self).src@, old(self).pos as int, self.old10),
            invariant
                self.ok(),
                self.src == old(self).src,
                self.pos >= old(self).pos,
                *self == (DtdParser { pos: self.pos, ..*old(self) }),
                vstd::utf8::encode_utf8("<!--"@) == seq![0x3cu8, 0x21u8, 0x2du8, 0x2du8],
                vstd::utf8::encode_utf8("-->"@) == seq![0x2du8, 0x2du8, 0x3eu8],
                vstd::utf8::encode_utf8("<?"@) == seq![0x3cu8, 0x3fu8],
                vstd::utf8::encode_utf8("?>"@) == seq![0x3fu8, 0x3eu8],
                vstd::utf8::encode_utf8("xml"@) == seq![0x78u8, 0x6du8, 0x6cu8],
            ensures
                ws_comments_end(old(self).src@, old(self).pos as int, self.old10) == Some(self.pos as int),
            decreases self.src.len() - self.pos,
        {
            let ghost i0 = self.pos as int;
            let ghost b = old(self).src@;
            self.skip_ws();
            let ghost j = self.pos as int;
            assert(j == ws_skip(b, i0));
            if self.rest_starts("<!--") {
                let p0 = self.pos;
                self.eat("<!--");
                if self.skip_past("-->") {
                    assert(ws_comments_end(b, i0, self.old10) == ws_comments_end(b, self.pos as int, self.old10));
                    continue;
                }
                self.pos = p0;
                assert(ws_comments_end(b, i0, self.old10) == Some(j));
                break;
            }
            let pi_open = lit_at(self.src, self.pos, "<?");
            if pi_open > 0 {
                let p0 = self.pos;
                let t = p0 + pi_open;
                let te = name_end(self.src, t, self.old10);
                let same_xml = te - t == 3 && crate::util::eq_ignore_ascii_case(&self.src[t..te], "xml".as_bytes());
                proof {
                    if te - t == 3 {
                        let sub = self.src@.subrange(t as int, te as int);
                        assert(sub[0] == b[t as int] && sub[1] == b[t + 1] && sub[2] == b[t + 2]);
                        assert(same_xml == xml_name_at(b, t as int, te as int));
                    }
                }
                if same_xml && (te >= self.src.len() || is_ws(self.src[te]) || self.src[te] == 0x3f) {
                    return Err(self.err("XML declaration allowed only at the start of the document"));
                }
                if te == t {
                    return Err(self.err("xmlParsePI : no target name"));
                }
                let clean = te >= self.src.len() || is_ws(self.src[te]) || starts_with_at(self.src, te, "?>".as_bytes());
                if !clean {
                    return Err(self.err("xmlParsePI : invalid character in target name"));
                }
                self.eat("<?");
                if self.skip_past("?>") {
                    assert(ws_comments_end(b, i0, self.old10) == ws_comments_end(b, self.pos as int, self.old10));
                    continue;
                }
                self.pos = p0;
                assert(ws_comments_end(b, i0, self.old10) == Some(j));
                break;
            }
            assert(ws_comments_end(b, i0, self.old10) == Some(j));
            break;
        }
        Ok(())
    }

    /// A name (after optional whitespace and comments); empty when there is none.
    fn parse_name(&mut self) -> (r: String)
        requires
            old(self).ok(),
        ensures
            final(self).ok(),
            final(self).src == old(self).src,
            final(self).pos >= old(self).pos,
            *final(self) == (DtdParser { pos: final(self).pos, ..*old(self) }),
            exists|p1: int| #![trigger crate::parse::name_end_from(old(self).src@, p1, p1, old(self).old10)]
                old(self).pos <= p1 && final(self).pos == crate::parse::name_end_from(old(self).src@, p1, p1, old(self).old10)
                && r@ == crate::sax::utf8_lossy_of(old(self).src@.subrange(p1, final(self).pos as int))
                && (ws_comments_end(old(self).src@, old(self).pos as int, old(self).old10) matches Some(q) ==> p1 == q),
    {
        let _ = self.skip_ws_and_comments();
        let ghost p1 = self.pos as int;
        let e = name_end(self.src, self.pos, self.old10);
        let s = utf8_lossy(&self.src[self.pos..e]);
        self.pos = e;
        assert(self.pos == crate::parse::name_end_from(old(self).src@, p1, p1, old(self).old10));
        s
    }

    /// A quoted literal with its character references decoded; every
    /// character must be an XML character. Empty when there is no quote.
    fn parse_quoted(&mut self) -> (r: Result<String, XmlError>)
        requires
            old(self).ok(),
        ensures
            final(self).ok(),
            final(self).src == old(self).src,
            final(self).pos >= old(self).pos,
            *final(self) == (DtdParser { pos: final(self).pos, ..*old(self) }),
    {
        self.skip_ws_and_comments()?;
        if !self.at_quote() {
            return Ok(String::new());
        }
        let q = self.src[self.pos];
        let start = self.pos + 1;
        let mut e = start;
        while e < self.src.len() && self.src[e] != q
            invariant
                start <= e <= self.src.len(),
            decreases self.src.len() - e,
        {
            e += 1;
        }
        if e >= self.src.len() {
            return Ok(String::new());
        }
        let s = match decode_charrefs(&self.src[start..e]) {
            Ok(s) => s,
            Err(m) => {
                return Err(self.err(m));
            },
        };
        self.pos = e + 1;
        let sb = s.as_str().as_bytes();
        let mut i: usize = 0;
        while i < sb.len()
            invariant
                i <= sb.len(),
                self.ok(),
                self.src == old(self).src,
                self.pos >= old(self).pos,
                *self == (DtdParser { pos: self.pos, ..*old(self) }),
            decreases sb.len() - i,
        {
            match char_at(sb, i) {
                Some((c, n)) => {
                    if !xml_is_char(c as u32) {
                        let mut m = String::from_str("invalid character 0x");
                        crate::writer::push_hex(&mut m, c as u32);
                        m.append(" in entity value");
                        return Err(XmlError::new(XML_ERR_INVALID_CHAR, m, 0, 0));
                    }
                    i = i + n;
                },
                None => {
                    i = i + 1;
                },
            }
        }
        Ok(s)
    }

    /// A declaration ends at `>`.
    fn expect_decl_end(&mut self, what: &str) -> (r: Result<(), XmlError>)
        requires
            old(self).ok(),
        ensures
            final(self).ok(),
            final(self).src == old(self).src,
            final(self).pos >= old(self).pos,
            *final(self) == (DtdParser { pos: final(self).pos, ..*old(self) }),
            ({
                let e = ws_skip(old(self).src@, old(self).pos as int);
                &&& (r is Ok <==> (e < old(self).src@.len() && old(self).src@[e] == 0x3e))
                &&& final(self).pos == (if r is Ok { e + 1 } else { e })
            }),
    {
        proof {
            reveal_strlit(">");
            crate::util::lemma_encode_ascii_char('>');
            assert(">"@ == seq!['>']);
            assert(vstd::utf8::encode_utf8(">"@) == seq![0x3eu8]);
        }
        self.skip_ws();
        proof {
            let e = self.pos as int;
            if e < self.src@.len() {
                assert(self.src@.subrange(e, e + 1) =~= seq![self.src@[e]]);
            }
        }
        let ghost e = self.pos as int;
        let ok = self.eat(">");
        proof {
            if ok {
                let sub = old(self).src@.subrange(e, e + 1);
                assert(sub == seq![0x3eu8]);
                assert(sub[0] == old(self).src@[e]);
            }
        }
        if ok {
            Ok(())
        } else {
            let mut m = String::from_str("xmlParse");
            m.append(what);
            m.append("Decl: not terminated");
            Err(self.err_s(m))
        }
    }

    /// The text from the cursor to the `)` that closes the group it opens
    /// (or to a `>` outside any group).
    fn take_until_gt_paren(&mut self) -> (r: String)
        requires
            old(self).ok(),
        ensures
            final(self).ok(),
            final(self).src == old(self).src,
            final(self).pos >= old(self).pos,
            *final(self) == (DtdParser { pos: final(self).pos, ..*old(self) }),
            final(self).pos == spec_text_end(old(self).src@, old(self).pos as int, 0),
            r@ == crate::sax::utf8_lossy_of(old(self).src@.subrange(old(self).pos as int, final(self).pos as int)),
    {
        let start = self.pos;
        let mut depth: usize = 0;
        let mut i = start;
        while i < self.src.len()
            invariant_except_break
                spec_text_end(self.src@, i as int, depth as int) == spec_text_end(self.src@, start as int, 0),
            invariant
                start <= i <= self.src.len(),
                depth <= 1000000,
            ensures
                start <= i <= self.src.len(),
                i == spec_text_end(self.src@, start as int, 0),
            decreases self.src.len() - i,
        {
            let b = self.src[i];
            if b == 0x28 {
                depth = depth + if depth < 1000000 { 1 } else { 0 };
            } else if b == 0x29 {
                if depth > 0 {
                    depth -= 1;
                }
                if depth == 0 {
                    i += 1;
                    break;
                }
            } else if b == 0x3e && depth == 0 {
                break;
            }
            i += 1;
        }
        let s = utf8_lossy(&self.src[start..i]);
        self.pos = i;
        s
    }
}

/// Content-model checker over the bytes of one `contentspec`.
struct SpecParser<'a> {
    b: &'a [u8],
    i: usize,
}

/// How deep groups of a content model may nest.
const MAX_GROUP_DEPTH: u32 = 256;

impl<'a> SpecParser<'a> {
    spec fn ok(&self) -> bool {
        self.i <= self.b.len()
    }

    fn ws(&mut self)
        requires
            old(self).ok(),
        ensures
            final(self).ok(),
            final(self).b == old(self).b,
            final(self).i >= old(self).i,
            forall|k: int| old(self).i <= k < final(self).i ==> ws_byte(#[trigger] final(self).b@[k]),
            final(self).i == final(self).b@.len() || !ws_byte(final(self).b@[final(self).i as int]),
    {
        while self.i < self.b.len() && is_ws(self.b[self.i])
            invariant
                self.ok(),
                self.b == old(self).b,
                self.i >= old(self).i,
                forall|k: int| old(self).i <= k < self.i ==> ws_byte(#[trigger] self.b@[k]),
            decreases self.b.len() - self.i,
        {
            self.i = self.i + 1;
        }
    }

    fn peek(&self) -> (r: u8)
        requires
            self.ok(),
        ensures
            r == (if self.i < self.b.len() { self.b[self.i as int] } else { 0u8 }),
    {
        if self.i < self.b.len() {
            self.b[self.i]
        } else {
            0
        }
    }

    fn eat(&mut self, c: u8) -> (r: bool)
        requires
            old(self).ok(),
        ensures
            final(self).ok(),
            final(self).b == old(self).b,
            final(self).i >= old(self).i,
            r ==> final(self).i == old(self).i + 1,
            !r ==> final(self).i == old(self).i,
            r == (old(self).i < old(self).b@.len() && old(self).b@[old(self).i as int] == c),
    {
        if self.i < self.b.len() && self.b[self.i] == c {
            self.i = self.i + 1;
            true
        } else {
            false
        }
    }

    fn quant(&mut self)
        requires
            old(self).ok(),
        ensures
            final(self).ok(),
            final(self).b == old(self).b,
            final(self).i >= old(self).i,
    {
        let p = self.peek();
        if p == 0x3f || p == 0x2a || p == 0x2b {
            self.i = self.i + 1;
        }
    }

    fn name(&mut self) -> (r: Result<(), &'static str>)
        requires
            old(self).ok(),
        ensures
            final(self).ok(),
            final(self).b == old(self).b,
            final(self).i >= old(self).i,
            r is Ok <==> crate::parse::name_end_from(old(self).b@, old(self).i as int, old(self).i as int, false) > old(self).i,
            r is Ok ==> final(self).i == crate::parse::name_end_from(old(self).b@, old(self).i as int, old(self).i as int, false),
            r is Err ==> final(self).i == old(self).i,
    {
        let e = name_end(self.b, self.i, false);
        if e == self.i {
            return Err("Name expected in the content model");
        }
        self.i = e;
        Ok(())
    }

    /// A choice or a sequence: the first separator decides which, and the
    /// group may use only that one.
    fn group(&mut self, depth: u32) -> (r: Result<(), &'static str>)
        requires
            old(self).ok(),
        ensures
            final(self).ok(),
            final(self).b == old(self).b,
            final(self).i >= old(self).i,
        decreases MAX_GROUP_DEPTH - depth, 1nat,
    {
        if depth >= MAX_GROUP_DEPTH {
            return Err("content model nested too deeply");
        }
        if !self.eat(0x28) {
            return Err("ContentDecl : '(' expected");
        }
        self.ws();
        self.cp(depth + 1)?;
        self.ws();
        let sep = self.peek();
        if sep == 0x29 {
            self.i = self.i + 1;
            return Ok(());
        }
        if sep != 0x7c && sep != 0x2c {
            return Err("ContentDecl : ',' '|' or ')' expected");
        }
        loop
            invariant
                self.ok(),
                self.b == old(self).b,
                self.i >= old(self).i,
                depth < MAX_GROUP_DEPTH,
            decreases self.b.len() - self.i,
        {
            let before = self.i;
            if !self.eat(sep) {
                return Err("ContentDecl : ',' '|' or ')' expected");
            }
            self.ws();
            self.cp(depth + 1)?;
            self.ws();
            let p = self.peek();
            if p == 0x29 {
                self.i = self.i + 1;
                return Ok(());
            }
            if p != sep {
                return Err("ContentDecl : ',' '|' or ')' expected");
            }
            if self.i <= before {
                return Err("ContentDecl : ',' '|' or ')' expected");
            }
        }
    }

    fn cp(&mut self, depth: u32) -> (r: Result<(), &'static str>)
        requires
            old(self).ok(),
            depth <= MAX_GROUP_DEPTH,
        ensures
            final(self).ok(),
            final(self).b == old(self).b,
            final(self).i >= old(self).i,
        decreases MAX_GROUP_DEPTH - depth, 2nat,
    {
        if self.peek() == 0x28 {
            self.group(depth)?;
        } else {
            self.name()?;
        }
        self.quant();
        Ok(())
    }
}

/// Check a `contentspec` against XML 1.0 productions 46 to 51: `Ok(true)`
/// for Mixed content, `Ok(false)` for a children model.
fn validate_contentspec(spec: &str) -> (r: Result<bool, &'static str>) {
    let mut p = SpecParser { b: spec.as_bytes(), i: 0 };
    p.ws();
    if !p.eat(0x28) {
        return Err("ContentDecl : '(' expected");
    }
    p.ws();
    let n = lit_at(p.b, p.i, "#PCDATA");
    if n > 0 {
        p.i = p.i + n;
        let mut named = false;
        loop
            invariant
                p.ok(),
            decreases p.b.len() - p.i,
        {
            p.ws();
            if p.eat(0x29) {
                break;
            }
            let before = p.i;
            if !p.eat(0x7c) {
                return Err("ContentDecl : ',' '|' or ')' expected");
            }
            p.ws();
            p.name()?;
            named = true;
            if p.i <= before {
                return Err("ContentDecl : ',' '|' or ')' expected");
            }
        }
        let star = p.eat(0x2a);
        if named && !star {
            return Err("Element content model is not finished with ')*'");
        }
        p.ws();
        return if p.i == p.b.len() {
            Ok(true)
        } else {
            Err("trailing content after the content model")
        };
    }
    p.i = 0;
    p.ws();
    p.group(0)?;
    p.quant();
    p.ws();
    if p.i != p.b.len() {
        return Err("ContentDecl : garbage after the content model");
    }
    Ok(false)
}

/// The element names of a Mixed model `(#PCDATA|a|b)*`.
/// The names written in a mixed content specification from `i` on, in
/// order; a name right after `#` (`#PCDATA`) is not one of them.
spec fn mixed_from(b: Seq<u8>, i: int) -> Seq<Seq<char>>
    decreases b.len() - i,
{
    if i < 0 || i >= b.len() {
        Seq::empty()
    } else if b[i] == 0x23 {
        let e = crate::parse::name_end_from(b, i + 1, i + 1, false);
        mixed_from(b, if e > i + 1 && e <= b.len() { e } else { i + 1 })
    } else {
        let e = crate::parse::name_end_from(b, i, i, false);
        if e > i && e <= b.len() {
            seq![crate::sax::utf8_lossy_of(b.subrange(i, e))] + mixed_from(b, e)
        } else {
            mixed_from(b, i + 1)
        }
    }
}

fn mixed_names(spec: &str) -> (r: Vec<String>)
    ensures
        r@.map_values(|x: String| x@) == mixed_from(vstd::utf8::encode_utf8(spec@), 0),
{
    let b = spec.as_bytes();
    let mut names: Vec<String> = Vec::new();
    let mut i: usize = 0;
    assert(names@.map_values(|x: String| x@) + mixed_from(b@, 0) =~= mixed_from(b@, 0));
    while i < b.len()
        invariant
            i <= b.len(),
            names@.map_values(|x: String| x@) + mixed_from(b@, i as int) == mixed_from(b@, 0),
        decreases b.len() - i,
    {
        let c = b[i];
        if c == 0x23 {
            let e = name_end(b, i + 1, false);
            i = if e > i + 1 { e } else { i + 1 };
            continue;
        }
        let e = name_end(b, i, false);
        if e > i {
            let ghost o = names@.map_values(|x: String| x@);
            let item = utf8_lossy(&b[i..e]);
            names.push(item);
            proof {
                assert(names@.map_values(|x: String| x@) =~= o.push(item@));
                assert(o + (seq![item@] + mixed_from(b@, e as int)) =~= o.push(item@) + mixed_from(b@, e as int));
            }
            i = e;
        } else {
            i += 1;
        }
    }
    assert(mixed_from(b@, i as int) =~= Seq::<Seq<char>>::empty());
    assert(names@.map_values(|x: String| x@) + Seq::<Seq<char>>::empty() =~= names@.map_values(|x: String| x@));
    names
}

/// The general entity references `&name;` of a literal, outside CDATA
/// sections and not counting character references.
/// Past the `]]>` that closes a CDATA section, looking from `j` (the end
/// when none does).
spec fn cdata_skip(b: Seq<u8>, j: int) -> int
    decreases b.len() - j,
{
    if j < 0 || j >= b.len() {
        b.len() as int
    } else if lit_occurs(b, j, seq![0x5du8, 0x5du8, 0x3eu8]) {
        j + 3
    } else {
        cdata_skip(b, j + 1)
    }
}

/// The general entity references `&name;` written from `i` on, outside
/// CDATA sections, in order.
spec fn refs_from(b: Seq<u8>, i: int, cdata_open: Seq<u8>) -> Seq<Seq<char>>
    decreases b.len() - i,
{
    if i < 0 || i >= b.len() {
        Seq::empty()
    } else if lit_occurs(b, i, cdata_open) {
        let n = cdata_skip(b, i + cdata_open.len());
        if n > i && n <= b.len() { refs_from(b, n, cdata_open) } else { Seq::empty() }
    } else if b[i] == 0x26 && !(i + 1 < b.len() && b[i + 1] == 0x23) && crate::parse::name_chars_end(b, i + 1) > i + 1
        && crate::parse::name_chars_end(b, i + 1) < b.len() && b[crate::parse::name_chars_end(b, i + 1)] == 0x3b {
        let e = crate::parse::name_chars_end(b, i + 1);
        seq![crate::sax::utf8_lossy_of(b.subrange(i + 1, e))] + refs_from(b, e + 1, cdata_open)
    } else {
        refs_from(b, i + 1, cdata_open)
    }
}

fn entity_refs_in(text: &str) -> (r: Vec<String>)
    ensures
        r@.map_values(|x: String| x@) == refs_from(vstd::utf8::encode_utf8(text@), 0, vstd::utf8::encode_utf8("<![CDATA["@)),
{
    proof {
        reveal_strlit("]]>");
        crate::util::lemma_encode_ascii("]]>"@);
        assert(vstd::utf8::encode_utf8("]]>"@) =~= seq![0x5du8, 0x5du8, 0x3eu8]);
    }
    let b = text.as_bytes();
    let ghost co = vstd::utf8::encode_utf8("<![CDATA["@);
    let mut out: Vec<String> = Vec::new();
    let mut i: usize = 0;
    assert(out@.map_values(|x: String| x@) + refs_from(b@, 0, co) =~= refs_from(b@, 0, co));
    while i < b.len()
        invariant
            i <= b.len(),
            co == vstd::utf8::encode_utf8("<![CDATA["@),
            vstd::utf8::encode_utf8("]]>"@) == seq![0x5du8, 0x5du8, 0x3eu8],
            out@.map_values(|x: String| x@) + refs_from(b@, i as int, co) == refs_from(b@, 0, co),
        decreases b.len() - i,
    {
        let n = lit_at(b, i, "<![CDATA[");
        if n > 0 {
            let mut j = i + n;
            let mut close: usize = 0;
            while j < b.len()
                invariant_except_break
                    close == 0,
                invariant
                    i < j <= b.len(),
                    close > 0 ==> j + close <= b.len(),
                    vstd::utf8::encode_utf8("]]>"@) == seq![0x5du8, 0x5du8, 0x3eu8],
                    cdata_skip(b@, j as int) == cdata_skip(b@, i + n),
                ensures
                    i < j <= b.len(),
                    close > 0 ==> j + close <= b.len() && close == 3 && cdata_skip(b@, i + n) == j + 3,
                    close == 0 ==> j == b.len() && cdata_skip(b@, i + n) == b.len(),
                decreases b.len() - j,
            {
                close = lit_at(b, j, "]]>");
                if close > 0 {
                    break;
                }
                j += 1;
            }
            i = if close > 0 { j + close } else { b.len() };
            continue;
        }
        if b[i] == 0x26 && !(i + 1 < b.len() && b[i + 1] == 0x23) {
            let e = name_end_chars(b, i + 1);
            if e > i + 1 && e < b.len() && b[e] == 0x3b {
                let ghost o = out@.map_values(|x: String| x@);
                let item = utf8_lossy(&b[i + 1..e]);
                out.push(item);
                proof {
                    assert(out@.map_values(|x: String| x@) =~= o.push(item@));
                    assert(o + (seq![item@] + refs_from(b@, e + 1, co)) =~= o.push(item@) + refs_from(b@, e + 1, co));
                }
                i = e + 1;
                continue;
            }
        }
        i += 1;
    }
    assert(out@.map_values(|x: String| x@) + Seq::<Seq<char>>::empty() =~= out@.map_values(|x: String| x@));
    out
}

/// The end of a run of name characters starting at `i`.
fn name_end_chars(b: &[u8], i: usize) -> (r: usize)
    requires
        i <= b.len(),
    ensures
        i <= r <= b.len(),
        r == crate::parse::name_chars_end(b@, i as int),
{
    let mut j = i;
    while j < b.len()
        invariant
            i <= j <= b.len(),
            crate::parse::name_chars_end(b@, j as int) == crate::parse::name_chars_end(b@, i as int),
        ensures
            i <= j <= b.len(),
            crate::parse::name_chars_end(b@, j as int) == j,
            crate::parse::name_chars_end(b@, j as int) == crate::parse::name_chars_end(b@, i as int),
        decreases b.len() - j,
    {
        match char_at(b, j) {
            Some((c, n)) => {
                if !xml_is_name_char(c as u32, false) {
                    break;
                }
                j = j + n;
            },
            None => {
                break;
            },
        }
    }
    j
}

/// The names are one of the five predefined entities.
fn is_predefined(name: &str) -> (r: bool)
    ensures
        r == crate::parse::predefined_char(name@) is Some,
{
    str_eq(name, "lt") || str_eq(name, "gt") || str_eq(name, "amp") || str_eq(name, "apos") || str_eq(name, "quot")
}

/// `name` is in the list.
fn contains_name(v: &Vec<String>, name: &str) -> (r: bool)
    ensures
        r == exists|k: int| 0 <= k < v@.len() && (#[trigger] v@[k])@ == name@,
{
    let mut i: usize = 0;
    while i < v.len()
        invariant
            i <= v.len(),
            forall|k: int| 0 <= k < i ==> (#[trigger] v@[k])@ != name@,
        decreases v.len() - i,
    {
        if str_eq(v[i].as_str(), name) {
            return true;
        }
        i += 1;
    }
    false
}

/// A general entity of this name is declared.
fn has_entity(d: &XmlDtd, name: &str) -> (r: bool)
    ensures
        r == exists|k: int| 0 <= k < d.entities@.len() && (#[trigger] d.entities@[k]).0@ == name@,
{
    let mut i: usize = 0;
    while i < d.entities.len()
        invariant
            i <= d.entities.len(),
            forall|k: int| 0 <= k < i ==> (#[trigger] d.entities@[k]).0@ != name@,
        decreases d.entities.len() - i,
    {
        if str_eq(d.entities[i].0.as_str(), name) {
            return true;
        }
        i += 1;
    }
    false
}

/// The position of the binding declaration of entity `name`.
fn entity_index(d: &XmlDtd, name: &str) -> (r: Option<usize>)
    ensures
        r matches Some(k) ==> k < d.entities@.len() && d.entities@[k as int].0@ == name@
            && forall|j: int| 0 <= j < k ==> (#[trigger] d.entities@[j]).0@ != name@,
        r is None <==> forall|j: int| 0 <= j < d.entities@.len() ==> (#[trigger] d.entities@[j]).0@ != name@,
{
    let mut i: usize = 0;
    while i < d.entities.len()
        invariant
            i <= d.entities.len(),
            forall|j: int| 0 <= j < i ==> (#[trigger] d.entities@[j]).0@ != name@,
        decreases d.entities.len() - i,
    {
        if str_eq(d.entities[i].0.as_str(), name) {
            return Some(i);
        }
        i += 1;
    }
    None
}

fn graph_err(m: String) -> (r: XmlError) {
    XmlError::new(XML_ERR_UNDECLARED_ENTITY, m, 0, 0)
}

/// The general entity references in the text `v`, by name.
spec fn value_refs(v: Seq<char>) -> Seq<Seq<char>> {
    refs_from(vstd::utf8::encode_utf8(v), 0, vstd::utf8::encode_utf8("<![CDATA["@))
}

/// `nm` may be referred to from an entity value: it is predefined, or a
/// declared entity that is not unparsed.
spec fn entity_ref_ok(d: XmlDtd, nm: Seq<char>) -> bool {
    ||| crate::parse::predefined_char(nm) is Some
    ||| (!(exists|k: int| 0 <= k < d.unparsed_entities@.len() && (#[trigger] d.unparsed_entities@[k])@ == nm)
        && exists|k: int| 0 <= k < d.entities@.len() && (#[trigger] d.entities@[k]).0@ == nm)
}

/// Every reference in the entity values of `d`, from the `k`-th on
/// excluded, may stand there.
spec fn entity_values_ok(d: XmlDtd, k: int) -> bool {
    forall|x: int, j: int| 0 <= x < k && 0 <= j < value_refs(d.entities@[x].1@).len()
        ==> entity_ref_ok(d, #[trigger] value_refs(d.entities@[x].1@)[j])
}

/// The well-formedness constraints on the entity graph: every reference in
/// an entity value or attribute default names a declared, parsed entity, and
/// no entity reaches itself.
fn check_entity_graph(d: &XmlDtd) -> (r: Result<(), XmlError>)
    ensures
        r is Ok ==> entity_values_ok(*d, d.entities@.len() as int),
{
    let n = d.entities.len();
    let mut refs: Vec<Vec<usize>> = Vec::new();
    let mut k: usize = 0;
    while k < n
        invariant
            k <= n,
            n == d.entities@.len(),
            refs@.len() == k,
            forall|a: int, b: int| 0 <= a < refs@.len() && 0 <= b < refs@[a]@.len() ==> refs@[a]@[b] < n,
            entity_values_ok(*d, k as int),
        decreases n - k,
    {
        let names = entity_refs_in(d.entities[k].1.as_str());
        let mut edges: Vec<usize> = Vec::new();
        let mut j: usize = 0;
        while j < names.len()
            invariant
                j <= names.len(),
                n == d.entities@.len(),
                forall|b: int| 0 <= b < edges@.len() ==> edges@[b] < n,
                forall|b: int| 0 <= b < j ==> entity_ref_ok(*d, #[trigger] names@[b]@),
            decreases names.len() - j,
        {
            let nm = names[j].as_str();
            if !is_predefined(nm) {
                if contains_name(&d.unparsed_entities, nm) {
                    let mut m = String::from_str("Entity reference to unparsed entity ");
                    m.append(nm);
                    return Err(graph_err(m));
                }
                match entity_index(d, nm) {
                    Some(t) => edges.push(t),
                    None => {
                        let mut m = String::from_str("Entity '");
                        m.append(nm);
                        m.append("' not defined");
                        return Err(graph_err(m));
                    },
                }
            }
            j += 1;
        }
        proof {
            let vr = value_refs(d.entities@[k as int].1@);
            assert(names@.map_values(|x: String| x@) == vr);
            assert forall|x: int, j: int| 0 <= x < k + 1 && 0 <= j < value_refs(d.entities@[x].1@).len()
                implies entity_ref_ok(*d, #[trigger] value_refs(d.entities@[x].1@)[j]) by {
                if x == k {
                    assert(names@.map_values(|y: String| y@)[j] == names@[j]@);
                }
            }
        }
        refs.push(edges);
        k += 1;
    }
    let mut a: usize = 0;
    while a < d.attributes.len()
        invariant
            a <= d.attributes.len(),
            n == d.entities@.len(),
            n == refs@.len(),
            forall|x: int, y: int| 0 <= x < refs@.len() && 0 <= y < refs@[x]@.len() ==> refs@[x]@[y] < n,
            entity_values_ok(*d, n as int),
        decreases d.attributes.len() - a,
    {
        match &d.attributes[a].2.default_value {
            Some(v) => {
                let names = entity_refs_in(v.as_str());
                let mut j: usize = 0;
                while j < names.len()
                    invariant
                        j <= names.len(),
                    decreases names.len() - j,
                {
                    let nm = names[j].as_str();
                    if !is_predefined(nm) {
                        if contains_name(&d.unparsed_entities, nm) {
                            let mut m = String::from_str("Entity reference to unparsed entity ");
                            m.append(nm);
                            return Err(graph_err(m));
                        }
                        if !has_entity(d, nm) {
                            let mut m = String::from_str("Entity '");
                            m.append(nm);
                            m.append("' not defined");
                            return Err(graph_err(m));
                        }
                    }
                    j += 1;
                }
            },
            None => {},
        }
        a += 1;
    }
    let mut s: usize = 0;
    while s < n
        invariant
            s <= n,
            n == refs@.len(),
            n == d.entities@.len(),
            entity_values_ok(*d, n as int),
            forall|x: int, y: int| 0 <= x < refs@.len() && 0 <= y < refs@[x]@.len() ==> refs@[x]@[y] < n,
        decreases n - s,
    {
        if reaches(&refs, s, s) {
            return Err(graph_err(String::from_str("Detected an entity reference loop")));
        }
        s += 1;
    }
    Ok(())
}

/// Some path of one or more edges leads from `from` to `target`.
fn reaches(refs: &Vec<Vec<usize>>, from: usize, target: usize) -> (r: bool)
    requires
        from < refs@.len(),
        forall|x: int, y: int| 0 <= x < refs@.len() && 0 <= y < refs@[x]@.len() ==> refs@[x]@[y] < refs@.len(),
{
    let n = refs.len();
    let mut seen: Vec<bool> = Vec::new();
    let mut i: usize = 0;
    while i < n
        invariant
            i <= n,
            seen@.len() == i,
        decreases n - i,
    {
        seen.push(false);
        i += 1;
    }
    let mut stack: Vec<usize> = Vec::new();
    stack.push(from);
    let mut fuel: usize = usize::MAX;
    while stack.len() > 0 && fuel > 0
        invariant
            n == refs@.len(),
            seen@.len() == n,
            forall|x: int| 0 <= x < stack@.len() ==> stack@[x] < n,
            forall|x: int, y: int| 0 <= x < refs@.len() && 0 <= y < refs@[x]@.len() ==> refs@[x]@[y] < refs@.len(),
        decreases fuel,
    {
        fuel -= 1;
        let cur = match stack.pop() {
            Some(c) => c,
            None => {
                break;
            },
        };
        if seen[cur] {
            continue;
        }
        seen.set(cur, true);
        let edges = &refs[cur];
        let mut j: usize = 0;
        while j < edges.len()
            invariant
                j <= edges.len(),
                n == refs@.len(),
                cur < n,
                edges@ == refs@[cur as int]@,
                forall|x: int| 0 <= x < stack@.len() ==> stack@[x] < n,
                forall|x: int, y: int| 0 <= x < refs@.len() && 0 <= y < refs@[x]@.len() ==> refs@[x]@[y] < refs@.len(),
            decreases edges.len() - j,
        {
            let t = edges[j];
            if t == target {
                return true;
            }
            stack.push(t);
            j += 1;
        }
    }
    false
}

/// An attribute declaration for this element and attribute exists.
fn has_attr_decl(d: &XmlDtd, e: &str, a: &str) -> (r: bool)
    ensures
        r == crate::dtd::attr_declared(*d, e@, a@),
{
    let mut i: usize = 0;
    while i < d.attributes.len()
        invariant
            i <= d.attributes.len(),
            forall|k: int| 0 <= k < i ==> !((#[trigger] d.attributes@[k]).0@ == e@ && d.attributes@[k].1@ == a@),
        decreases d.attributes.len() - i,
    {
        if str_eq(d.attributes[i].0.as_str(), e) && str_eq(d.attributes[i].1.as_str(), a) {
            return true;
        }
        i += 1;
    }
    false
}

/// The position of the element declaration for `name`.
fn element_index(d: &XmlDtd, name: &str) -> (r: Option<usize>)
    ensures
        r matches Some(k) ==> k < d.elements@.len() && d.elements@[k as int].0@ == name@
            && forall|j: int| 0 <= j < k ==> (#[trigger] d.elements@[j]).0@ != name@,
        r is None <==> forall|j: int| 0 <= j < d.elements@.len() ==> (#[trigger] d.elements@[j]).0@ != name@,
{
    let mut i: usize = 0;
    while i < d.elements.len()
        invariant
            i <= d.elements.len(),
            forall|j: int| 0 <= j < i ==> (#[trigger] d.elements@[j]).0@ != name@,
        decreases d.elements.len() - i,
    {
        if str_eq(d.elements[i].0.as_str(), name) {
            return Some(i);
        }
        i += 1;
    }
    None
}

/// Every character of the text is a name character.
fn all_name_chars(s: &str) -> (r: bool) {
    let b = s.as_bytes();
    name_end_chars(b, 0) == b.len()
}

/// The text is one Name.
fn is_name(s: &str, old10: bool) -> (r: bool) {
    let b = s.as_bytes();
    b.len() > 0 && name_end(b, 0, old10) == b.len()
}

/// The parts of `( a | b | c )`, trimmed.
/// The first `|` at or after `i` (the end when there is none).
spec fn next_bar(s: Seq<u8>, i: int) -> int
    decreases s.len() - i,
{
    if 0 <= i < s.len() && s[i] != 0x7c { next_bar(s, i + 1) } else { i }
}

/// Past the whitespace that begins `s[a..b]`.
spec fn lead_end(s: Seq<u8>, a: int, b: int) -> int
    decreases b - a,
{
    if a < b && ws_byte(s[a]) { lead_end(s, a + 1, b) } else { a }
}

/// Before the whitespace that ends `s[a..b]`.
spec fn trail_start(s: Seq<u8>, a: int, b: int) -> int
    decreases b - a,
{
    if b > a && ws_byte(s[b - 1]) { trail_start(s, a, b - 1) } else { b }
}

/// The items of an enumeration from `start` on: the text between `|`s,
/// without surrounding whitespace.
spec fn enum_items(s: Seq<u8>, start: int) -> Seq<Seq<char>>
    decreases s.len() + 1 - start,
{
    let e = next_bar(s, start);
    let a = lead_end(s, start, e);
    let item = crate::sax::utf8_lossy_of(s.subrange(a, trail_start(s, a, e)));
    if start < 0 || e >= s.len() || e < start {
        seq![item]
    } else {
        seq![item] + enum_items(s, e + 1)
    }
}

fn split_enumeration(body: &[u8]) -> (r: Vec<String>)
    ensures
        r@.map_values(|x: String| x@) == enum_items(body@, 0),
{
    let mut out: Vec<String> = Vec::new();
    let mut start: usize = 0;
    let mut i: usize = 0;
    assert(out@.map_values(|x: String| x@) + enum_items(body@, 0) =~= enum_items(body@, 0));
    while i <= body.len()
        invariant_except_break
            out@.map_values(|x: String| x@) + enum_items(body@, start as int) == enum_items(body@, 0),
            next_bar(body@, i as int) == next_bar(body@, start as int),
        invariant
            start <= i <= body.len() + 1,
            start <= body.len(),
            i <= body.len(),
        ensures
            out@.map_values(|x: String| x@) == enum_items(body@, 0),
        decreases body.len() + 1 - i,
    {
        if i == body.len() || body[i] == 0x7c {
            let mut a = start;
            let mut b = i;
            while a < b && is_ws(body[a])
                invariant
                    start <= a <= b <= body.len(),
                    b == i,
                    lead_end(body@, a as int, b as int) == lead_end(body@, start as int, i as int),
                decreases b - a,
            {
                a += 1;
            }
            while b > a && is_ws(body[b - 1])
                invariant
                    start <= a <= b <= body.len(),
                    a == lead_end(body@, start as int, i as int),
                    trail_start(body@, a as int, b as int) == trail_start(body@, a as int, i as int),
                decreases b - a,
            {
                b -= 1;
            }
            let ghost o = out@.map_values(|x: String| x@);
            let item = utf8_lossy(&body[a..b]);
            out.push(item);
            proof {
                assert(out@.map_values(|x: String| x@) =~= o.push(item@));
                let rest = enum_items(body@, start as int);
                assert(next_bar(body@, i as int) == i);
                if i == body.len() {
                    assert(rest == seq![item@]);
                    assert(o.push(item@) =~= o + rest);
                } else {
                    assert(rest == seq![item@] + enum_items(body@, i + 1));
                    assert(o + rest =~= o.push(item@) + enum_items(body@, i + 1));
                }
            }
            if i == body.len() {
                break;
            }
            start = i + 1;
        }
        i += 1;
    }
    out
}

impl<'a> DtdParser<'a> {
    /// `<!ELEMENT name contentspec>`.
    fn parse_element(&mut self) -> (r: Result<(), XmlError>)
        requires
            old(self).ok(),
        ensures
            final(self).ok(),
            final(self).src == old(self).src,
            final(self).pos >= old(self).pos,
    {
        self.eat("<!ELEMENT");
        if !self.require_ws() {
            return Err(self.err("Space required after '<!ELEMENT'"));
        }
        let name = self.parse_name();
        if name.as_str().len() == 0 {
            return Err(self.err("Element name expected"));
        }
        if !self.require_ws() {
            return Err(self.err("Space required after the element name"));
        }
        let decl = if self.eat("EMPTY") {
            ElementDecl::Empty
        } else if self.eat("ANY") {
            ElementDecl::Any
        } else if self.cur() == 0x28 {
            let mut spec = self.take_until_gt_paren();
            let q = self.cur();
            if q == 0x3f || q == 0x2a || q == 0x2b {
                self.pos = self.pos + 1;
                push_char(&mut spec, q as char);
            }
            let mixed = match validate_contentspec(spec.as_str()) {
                Ok(m) => m,
                Err(m) => {
                    return Err(self.err(m));
                },
            };
            if mixed {
                ElementDecl::Mixed(mixed_names(spec.as_str()))
            } else {
                ElementDecl::Children(spec)
            }
        } else {
            return Err(self.err("xmlParseElementDecl: 'EMPTY', 'ANY' or '(' expected"));
        };
        match element_index(&self.dtd, name.as_str()) {
            Some(k) => {
                self.dtd.duplicate_elements.push(name.clone());
                self.dtd.elements.set(k, (name, decl));
            },
            None => {
                self.dtd.elements.push((name, decl));
            },
        }
        self.expect_decl_end("Element")
    }

    /// `<!ATTLIST element AttDef*>`.
    fn parse_attlist(&mut self) -> (r: Result<(), XmlError>)
        requires
            old(self).ok(),
        ensures
            final(self).ok(),
            final(self).src == old(self).src,
            final(self).pos >= old(self).pos,
            attlist_extends(old(self).dtd, final(self).dtd),
            r is Ok ==> final(self).pos > old(self).pos && final(self).src@[final(self).pos - 1] == 0x3e,
    {
        proof {
            assert(old(self).dtd.attributes@.subrange(0, old(self).dtd.attributes@.len() as int) =~= old(self).dtd.attributes@);
            assert(attlist_adds(old(self).dtd, old(self).dtd, Seq::empty()));
        }
        self.eat("<!ATTLIST");
        if !self.require_ws() {
            return Err(self.err("Space required after '<!ATTLIST'"));
        }
        let elem = self.parse_name();
        if elem.as_str().len() == 0 {
            return Err(self.err("Element name expected in ATTLIST"));
        }
        loop
            invariant
                self.ok(),
                self.src == old(self).src,
                self.pos >= old(self).pos,
                attlist_adds(old(self).dtd, self.dtd, elem@),
            ensures
                self.ok(),
                self.src == old(self).src,
                attlist_adds(old(self).dtd, self.dtd, elem@),
                self.pos > old(self).pos && self.src@[self.pos - 1] == 0x3e,
            decreases self.src.len() - self.pos,
        {
            let start = self.pos;
            let had_ws = self.require_ws();
            self.skip_ws_and_comments()?;
            if self.cur() == 0x3e {
                self.pos = self.pos + 1;
                break;
            }
            if self.at_end() {
                return Err(self.err("xmlParseAttributeListDecl: not terminated"));
            }
            if !had_ws {
                return Err(self.err("Space required after the attribute name"));
            }
            let aname = self.parse_name();
            if aname.as_str().len() == 0 {
                return Err(self.err("Attribute name expected"));
            }
            if !self.require_ws() {
                return Err(self.err("Space required after the attribute name"));
            }
            self.skip_ws_and_comments()?;
            let mut enumerated: Vec<String> = Vec::new();
            let att_type = if self.cur() == 0x28 {
                let spec = self.take_until_gt_paren();
                let sb = spec.as_str().as_bytes();
                let mut a: usize = 0;
                let mut b: usize = sb.len();
                while a < b && is_ws(sb[a])
                    invariant
                        a <= b <= sb.len(),
                    decreases b - a,
                {
                    a += 1;
                }
                while b > a && is_ws(sb[b - 1])
                    invariant
                        a <= b <= sb.len(),
                    decreases b - a,
                {
                    b -= 1;
                }
                if b - a < 2 || sb[a] != 0x28 || sb[b - 1] != 0x29 {
                    return Err(self.err("')' required to finish ATTLIST enumeration"));
                }
                let parts = split_enumeration(&sb[a + 1..b - 1]);
                let mut k: usize = 0;
                while k < parts.len()
                    invariant
                        k <= parts.len(),
                        self.ok(),
                        self.src == old(self).src,
                        self.pos >= old(self).pos,
                        attlist_adds(old(self).dtd, self.dtd, elem@),
                    decreases parts.len() - k,
                {
                    let t = parts[k].as_str();
                    if t.len() == 0 || !all_name_chars(t) {
                        return Err(self.err("')' required to finish ATTLIST enumeration"));
                    }
                    enumerated.push(parts[k].clone());
                    k += 1;
                }
                String::from_str("ENUMERATION")
            } else {
                let t = self.parse_name();
                let ts = t.as_str();
                let known = str_eq(ts, "CDATA") || str_eq(ts, "ID") || str_eq(ts, "IDREF") || str_eq(ts, "IDREFS")
                    || str_eq(ts, "ENTITY") || str_eq(ts, "ENTITIES") || str_eq(ts, "NMTOKEN") || str_eq(ts, "NMTOKENS")
                    || str_eq(ts, "NOTATION");
                if !known {
                    return Err(self.err("'(' required to start ATTLIST enumeration"));
                }
                if str_eq(ts, "NOTATION") {
                    if !self.require_ws() {
                        return Err(self.err("Space required after 'NOTATION'"));
                    }
                    if self.cur() != 0x28 {
                        return Err(self.err("'(' required to start ATTLIST enumeration"));
                    }
                    let spec = self.take_until_gt_paren();
                    let sb = spec.as_str().as_bytes();
                    let inner_start: usize = if sb.len() > 0 && sb[0] == 0x28 { 1 } else { 0 };
                    let inner_end: usize = if sb.len() > inner_start && sb[sb.len() - 1] == 0x29 { sb.len() - 1 } else { sb.len() };
                    let parts = split_enumeration(&sb[inner_start..inner_end]);
                    let mut k: usize = 0;
                    while k < parts.len()
                        invariant
                            k <= parts.len(),
                            self.ok(),
                            self.src == old(self).src,
                            self.pos >= old(self).pos,
                            attlist_adds(old(self).dtd, self.dtd, elem@),
                        decreases parts.len() - k,
                    {
                        if !is_name(parts[k].as_str(), self.old10) {
                            return Err(self.err("Name expected in NOTATION declaration"));
                        }
                        enumerated.push(parts[k].clone());
                        k += 1;
                    }
                }
                t
            };
            if !self.require_ws() {
                return Err(self.err("Space required after the attribute type"));
            }
            self.skip_ws_and_comments()?;
            let (default, raw_default) = if self.eat("#REQUIRED") {
                (AttrDefault::Required, None)
            } else if self.eat("#IMPLIED") {
                (AttrDefault::Implied, None)
            } else if self.eat("#FIXED") {
                if !self.require_ws() {
                    return Err(self.err("Space required after '#FIXED'"));
                }
                if !self.at_quote() {
                    return Err(self.err("AttValue: \" or ' expected"));
                }
                (AttrDefault::Fixed, Some(self.parse_quoted()?))
            } else {
                if !self.at_quote() {
                    return Err(self.err("AttValue: \" or ' expected"));
                }
                (AttrDefault::Value, Some(self.parse_quoted()?))
            };
            let default_value: Option<String> = match raw_default {
                Some(v) => {
                    let mut w = String::new();
                    let vb = v.as_str().as_bytes();
                    let mut i: usize = 0;
                    while i < vb.len()
                        invariant
                            i <= vb.len(),
                            normalized(w@),
                        decreases vb.len() - i,
                    {
                        match char_at(vb, i) {
                            Some((c, n)) => {
                                let ghost w0 = w@;
                                if c == '\t' || c == '\n' || c == '\r' {
                                    push_char(&mut w, ' ');
                                } else {
                                    push_char(&mut w, c);
                                }
                                assert forall|j: int| 0 <= j < w@.len() implies #[trigger] w@[j] != '\t' && w@[j] != '\n' && w@[j] != '\r' by {
                                    if j < w0.len() {
                                        assert(w@[j] == w0[j]);
                                    }
                                }
                                i = i + n;
                            },
                            None => {
                                i = i + 1;
                            },
                        }
                    }
                    let refs = entity_refs_in(w.as_str());
                    let mut k: usize = 0;
                    while k < refs.len()
                        invariant
                            k <= refs.len(),
                            self.ok(),
                            self.src == old(self).src,
                            self.pos >= old(self).pos,
                            attlist_adds(old(self).dtd, self.dtd, elem@),
                        decreases refs.len() - k,
                    {
                        let r = refs[k].as_str();
                        if !is_predefined(r) && !has_entity(&self.dtd, r) {
                            let mut m = String::from_str("Entity '");
                            m.append(r);
                            m.append("' not defined");
                            return Err(self.err_s(m));
                        }
                        k += 1;
                    }
                    Some(w)
                },
                None => None,
            };
            if !has_attr_decl(&self.dtd, elem.as_str(), aname.as_str()) {
                let decl = AttrDecl { att_type, default, default_value, enumerated };
                let ghost before = self.dtd.attributes@;
                let en = elem.clone();
                proof {
                    reveal_strlit("ENUMERATION");
                }
                assert(attr_decl_wf(decl));
                self.dtd.attributes.push((en, aname, decl));
                proof {
                    assert(self.dtd.attributes@.subrange(0, old(self).dtd.attributes@.len() as int)
                        =~= before.subrange(0, old(self).dtd.attributes@.len() as int));
                    assert(attlist_adds(old(self).dtd, self.dtd, elem@));
                    assert forall|j: int, k: int| 0 <= j < k < self.dtd.attributes@.len()
                        implies !((#[trigger] self.dtd.attributes@[j]).0@ == (#[trigger] self.dtd.attributes@[k]).0@
                            && self.dtd.attributes@[j].1@ == self.dtd.attributes@[k].1@) by {
                        if k < before.len() {
                            assert(self.dtd.attributes@[j] == before[j] && self.dtd.attributes@[k] == before[k]);
                        } else {
                            assert(self.dtd.attributes@[j] == before[j]);
                        }
                    }
                }
            }
            if self.pos <= start {
                return Err(self.err("xmlParseAttributeListDecl: not terminated"));
            }
        }
        assert(attlist_adds(old(self).dtd, self.dtd, elem@));
        Ok(())
    }

    /// `<!NOTATION name (ExternalID | PublicID)>`.
    fn parse_notation(&mut self) -> (r: Result<(), XmlError>)
        requires
            old(self).ok(),
        ensures
            final(self).ok(),
            final(self).src == old(self).src,
            final(self).pos >= old(self).pos,
    {
        self.eat("<!NOTATION");
        if !self.require_ws() {
            return Err(self.err("Space required after '<!NOTATION'"));
        }
        let name = self.parse_name();
        if name.as_str().len() == 0 {
            return Err(self.err("Notation name expected"));
        }
        if !self.require_ws() {
            return Err(self.err("Space required after the notation name"));
        }
        self.dtd.notations.push(name);
        let public = if self.eat("PUBLIC") {
            true
        } else if self.eat("SYSTEM") {
            false
        } else {
            return Err(self.err("'PUBLIC' or 'SYSTEM' expected in NOTATION"));
        };
        if !self.require_ws() {
            return Err(self.err("Space required after the external ID keyword"));
        }
        if !self.at_quote() {
            return Err(self.err("Unfinished System or Public ID \" or ' expected"));
        }
        let first = self.parse_quoted()?;
        if public {
            if !all_pubid_str(first.as_str()) {
                return Err(self.err("Invalid character in public identifier"));
            }
            let before = self.pos;
            self.skip_ws();
            if self.at_quote() {
                if self.pos == before {
                    return Err(self.err("Space required after the Public Identifier"));
                }
                self.parse_quoted()?;
            }
        }
        self.expect_decl_end("Notation")
    }

    /// `<!ENTITY [%] name (EntityValue | ExternalID [NDataDecl])>`.
    fn parse_entity(&mut self) -> (r: Result<(), XmlError>)
        requires
            old(self).ok(),
        ensures
            final(self).ok(),
            final(self).src == old(self).src,
            final(self).pos >= old(self).pos,
    {
        self.eat("<!ENTITY");
        if !self.require_ws() {
            return Err(self.err("Space required after '<!ENTITY'"));
        }
        let pe = self.eat("%");
        if pe {
            if !self.require_ws() {
                return Err(self.err("Space required after '%'"));
            }
        }
        let name = self.parse_name();
        if name.as_str().len() == 0 {
            return Err(self.err("Entity name expected"));
        }
        if !self.require_ws() {
            return Err(self.err("Space required after the entity name"));
        }
        let is_public = self.rest_starts("PUBLIC");
        if is_public || self.rest_starts("SYSTEM") {
            if is_public {
                self.eat("PUBLIC");
            } else {
                self.eat("SYSTEM");
            }
            if !self.require_ws() {
                return Err(self.err("Space required after the external ID keyword"));
            }
            if is_public {
                let pid = self.parse_quoted()?;
                if !all_pubid_str(pid.as_str()) {
                    return Err(self.err("Invalid character in public identifier"));
                }
                if !self.require_ws() {
                    return Err(self.err("Space required after the Public Identifier"));
                }
                if !self.at_quote() {
                    return Err(self.err("SystemLiteral expected"));
                }
            }
            if !self.at_quote() {
                return Err(self.err("SystemLiteral \" or ' expected"));
            }
            self.parse_quoted()?;
            let before = self.pos;
            self.skip_ws();
            let ws_before_ndata = self.pos > before;
            self.skip_ws_and_comments()?;
            if self.rest_starts("NDATA") {
                if pe {
                    return Err(self.err("xmlParseEntityDecl: entity not terminated"));
                }
                if !ws_before_ndata {
                    return Err(self.err("Space required before 'NDATA'"));
                }
                self.eat("NDATA");
                if !self.require_ws() {
                    return Err(self.err("Space required after 'NDATA'"));
                }
                let notation = self.parse_name();
                if notation.as_str().len() == 0 {
                    return Err(self.err("Notation name expected after 'NDATA'"));
                }
                self.dtd.ndata_notations.push(notation);
                self.dtd.unparsed_entities.push(name.clone());
                self.skip_ws();
            }
            return self.expect_decl_end("Entity");
        }
        if !self.at_quote() {
            return Err(self.err("Entity value expected"));
        }
        let val = self.parse_quoted()?;
        if pe {
            if !has_pe(&self.dtd, name.as_str()) {
                self.dtd.parameter_entities.push((name, val));
            }
        } else if !has_entity(&self.dtd, name.as_str()) {
            self.dtd.entities.push((name, val));
        }
        self.skip_ws();
        self.expect_decl_end("Entity")
    }

    /// Skip a conditional section, nested ones included.
    fn skip_cond(&mut self)
        requires
            old(self).ok(),
        ensures
            final(self).ok(),
            final(self).src == old(self).src,
            final(self).pos >= old(self).pos,
            *final(self) == (DtdParser { pos: final(self).pos, ..*old(self) }),
            final(self).pos == cond_end(old(self).src@, old(self).pos as int, 0),
    {
        proof {
            reveal_strlit("<![");
            reveal_strlit("]]>");
            crate::util::lemma_encode_ascii("<!["@);
            crate::util::lemma_encode_ascii("]]>"@);
            assert(vstd::utf8::encode_utf8("<!["@) =~= seq![0x3cu8, 0x21u8, 0x5bu8]);
            assert(vstd::utf8::encode_utf8("]]>"@) =~= seq![0x5du8, 0x5du8, 0x3eu8]);
        }
        let mut depth: usize = 0;
        while self.pos < self.src.len()
            invariant
                self.ok(),
                self.src == old(self).src,
                self.pos >= old(self).pos,
                *self == (DtdParser { pos: self.pos, ..*old(self) }),
                depth <= 1000000,
                cond_end(old(self).src@, self.pos as int, depth as int) == cond_end(old(self).src@, old(self).pos as int, 0),
                vstd::utf8::encode_utf8("<!["@) == seq![0x3cu8, 0x21u8, 0x5bu8],
                vstd::utf8::encode_utf8("]]>"@) == seq![0x5du8, 0x5du8, 0x3eu8],
            decreases self.src.len() - self.pos,
        {
            if self.eat("<![") {
                depth = depth + if depth < 1000000 { 1 } else { 0 };
                continue;
            }
            if self.eat("]]>") {
                if depth > 0 {
                    depth -= 1;
                }
                if depth == 0 {
                    return;
                }
                continue;
            }
            self.pos = self.pos + 1;
        }
    }

    /// The markup declarations of the subset.
    fn parse_markup(&mut self) -> (r: Result<(), XmlError>)
        requires
            old(self).ok(),
        ensures
            final(self).ok(),
    {
        loop
            invariant
                self.ok(),
                self.src == old(self).src,
            decreases self.src.len() - self.pos,
        {
            let start = self.pos;
            self.skip_ws_and_comments()?;
            if self.at_end() {
                break;
            }
            if self.rest_starts("<!ELEMENT") {
                self.parse_element()?;
            } else if self.rest_starts("<!ATTLIST") {
                self.parse_attlist()?;
            } else if self.rest_starts("<!ENTITY") {
                self.parse_entity()?;
            } else if self.rest_starts("<!NOTATION") {
                self.parse_notation()?;
            } else if self.rest_starts("<![") {
                if self.internal {
                    return Err(self.err("Content error in the internal subset"));
                }
                self.skip_cond();
            } else if self.cur() == 0x3c {
                return Err(self.err("Content error in the internal subset"));
            } else if self.cur() == 0x25 {
                return Err(self.err("PEReference: expecting ';'"));
            } else {
                match char_at(self.src, self.pos) {
                    Some((_, n)) => {
                        self.pos = self.pos + n;
                    },
                    None => {
                        self.pos = self.pos + 1;
                    },
                }
            }
            if self.pos <= start {
                return Err(self.err("Content error in the internal subset"));
            }
        }
        Ok(())
    }
}

/// A parameter entity of this name is declared.
fn has_pe(d: &XmlDtd, name: &str) -> (r: bool)
    ensures
        r == exists|k: int| 0 <= k < d.parameter_entities@.len() && (#[trigger] d.parameter_entities@[k]).0@ == name@,
{
    let mut i: usize = 0;
    while i < d.parameter_entities.len()
        invariant
            i <= d.parameter_entities.len(),
            forall|k: int| 0 <= k < i ==> (#[trigger] d.parameter_entities@[k]).0@ != name@,
        decreases d.parameter_entities.len() - i,
    {
        if str_eq(d.parameter_entities[i].0.as_str(), name) {
            return true;
        }
        i += 1;
    }
    false
}

/// Every character is a `PubidChar`.
fn all_pubid_str(s: &str) -> (r: bool)
    ensures
        r == forall|k: int| 0 <= k < vstd::utf8::encode_utf8(s@).len() ==> #[trigger] vstd::utf8::encode_utf8(s@)[k] < 0x80
            && crate::chvalid::is_pubid(vstd::utf8::encode_utf8(s@)[k] as u32),
{
    let b = s.as_bytes();
    let mut i: usize = 0;
    while i < b.len()
        invariant
            i <= b.len(),
            b@ == vstd::utf8::encode_utf8(s@),
            forall|k: int| 0 <= k < i ==> #[trigger] b@[k] < 0x80 && crate::chvalid::is_pubid(b@[k] as u32),
        decreases b.len() - i,
    {
        if !crate::chvalid::xml_is_pubid_char(b[i] as u32) || b[i] >= 0x80 {
            return false;
        }
        i += 1;
    }
    true
}

/// At `k` stands a `%` directly followed by a name start character.
spec fn pe_ref_at(b: Seq<u8>, k: int) -> bool {
    &&& b[k] == 0x25
    &&& crate::parse::utf8_at(b, k + 1) matches Some((c, _))
    &&& crate::chvalid::is_name_start(c as u32, false)
}

/// A `%` directly followed by a name start character: a parameter entity
/// reference as written.
fn has_pe_ref(b: &[u8]) -> (r: bool)
    ensures
        r == exists|k: int| 0 <= k < b@.len() - 1 && #[trigger] pe_ref_at(b@, k),
{
    let mut i: usize = 0;
    while i < b.len() && i < b.len() - 1
        invariant
            i <= b.len(),
            forall|k: int| 0 <= k < i ==> !#[trigger] pe_ref_at(b@, k),
        decreases b.len() - i,
    {
        if b[i] == 0x25 {
            match char_at(b, i + 1) {
                Some((c, _)) => {
                    if xml_is_name_start_char(c as u32, false) {
                        assert(pe_ref_at(b@, i as int));
                        return true;
                    }
                },
                None => {},
            }
        }
        i += 1;
    }
    false
}

fn parse_subset(src: &str, internal: bool, old10: bool) -> (r: Result<XmlDtd, XmlError>)
    ensures
        r matches Ok(d) ==> attr_decls_ok(d),
{
    let expanded = expand_pe(src, internal)?;
    let mut dtd = XmlDtd::new();
    dtd.int_subset = Some(String::from_str(src));
    let mut p = DtdParser { src: expanded.as_str().as_bytes(), pos: 0, dtd, internal, old10 };
    p.parse_markup()?;
    let mut dtd = p.dtd;
    dtd.has_parameter_entity_refs = !str_eq(expanded.as_str(), src) || has_pe_ref(src.as_bytes());
    check_entity_graph(&dtd)?;
    Ok(dtd)
}

/// Parse a DTD internal subset into its declarations.
pub fn parse_dtd_subset(src: &str, old10: bool) -> (r: Result<XmlDtd, XmlError>)
    ensures
        r matches Ok(d) ==> attr_decls_ok(d),
{
    parse_subset(src, true, old10)
}

/// Parse an external subset, where conditional sections are legal and a
/// parameter entity may supply part of a declaration.
pub fn parse_external_subset(src: &str, old10: bool) -> (r: Result<XmlDtd, XmlError>)
    ensures
        r matches Ok(d) ==> attr_decls_ok(d),
{
    parse_subset(src, false, old10)
}

/// `xmlParseDTD`: a DTD from bytes the caller already loaded.
pub fn xml_parse_dtd(buffer: &[u8], public_id: Option<&str>, system_id: Option<&str>) -> (r: Result<XmlDtd, XmlError>)
    ensures
        r matches Ok(d) ==> crate::tree::opt_string_view(d.public_id) == crate::tree::opt_str_view(public_id)
            && crate::tree::opt_string_view(d.system_id) == crate::tree::opt_str_view(system_id),
        r matches Ok(d) ==> attr_decls_ok(d),
{
    let text = utf8_lossy(buffer);
    let mut dtd = parse_external_subset(text.as_str(), false)?;
    dtd.public_id = match public_id {
        Some(p) => Some(String::from_str(p)),
        None => None,
    };
    dtd.system_id = match system_id {
        Some(s) => Some(String::from_str(s)),
        None => None,
    };
    Ok(dtd)
}

/// Merge the declarations of `src` into `dst` (an external subset onto the
/// internal one); `dst` keeps its identifiers when it has them.
pub fn merge_dtd(dst: &mut XmlDtd, src: XmlDtd)
    ensures
        final(dst).entities@ == old(dst).entities@ + src.entities@,
        final(dst).elements@ == old(dst).elements@ + src.elements@,
        final(dst).attributes@ == old(dst).attributes@ + src.attributes@,
        final(dst).notations@ == old(dst).notations@ + src.notations@,
        final(dst).has_parameter_entity_refs == (old(dst).has_parameter_entity_refs || src.has_parameter_entity_refs),
        final(dst).public_id == (if old(dst).public_id is Some { old(dst).public_id } else { src.public_id }),
        final(dst).system_id == (if old(dst).system_id is Some { old(dst).system_id } else { src.system_id }),
{
    let mut src = src;
    dst.entities.append(&mut src.entities);
    dst.unparsed_entities.append(&mut src.unparsed_entities);
    dst.duplicate_elements.append(&mut src.duplicate_elements);
    dst.notations.append(&mut src.notations);
    dst.ndata_notations.append(&mut src.ndata_notations);
    dst.has_parameter_entity_refs = dst.has_parameter_entity_refs || src.has_parameter_entity_refs;
    dst.parameter_entities.append(&mut src.parameter_entities);
    dst.elements.append(&mut src.elements);
    dst.attributes.append(&mut src.attributes);
    if dst.public_id.is_none() {
        dst.public_id = src.public_id;
    }
    if dst.system_id.is_none() {
        dst.system_id = src.system_id;
    }
}

/// Some declaration names attribute `aname` of element `ename`.
pub open spec fn attr_declared(d: XmlDtd, ename: Seq<char>, aname: Seq<char>) -> bool {
    exists|k: int| 0 <= k < d.attributes@.len() && (#[trigger] d.attributes@[k]).0@ == ename && d.attributes@[k].1@ == aname
}

/// The declared type of attribute `aname` of element `ename`, from the
/// binding (first) declaration.
/// Declaration `k` is the first for element `ename` and attribute `aname`.
pub open spec fn first_attr_decl(d: XmlDtd, ename: Seq<char>, aname: Seq<char>, k: int) -> bool {
    &&& 0 <= k < d.attributes@.len()
    &&& d.attributes@[k].0@ == ename
    &&& d.attributes@[k].1@ == aname
    &&& forall|j: int| 0 <= j < k ==> !((#[trigger] d.attributes@[j]).0@ == ename && d.attributes@[j].1@ == aname)
}

pub fn attr_decl_of<'a>(d: &'a XmlDtd, ename: &str, aname: &str) -> (r: Option<&'a AttrDecl>)
    ensures
        r is Some <==> attr_declared(*d, ename@, aname@),
        r matches Some(a) ==> exists|k: int| first_attr_decl(*d, ename@, aname@, k) && d.attributes@[k].2 == *a,
{
    let mut i: usize = 0;
    while i < d.attributes.len()
        invariant
            i <= d.attributes.len(),
            forall|k: int| 0 <= k < i ==> !((#[trigger] d.attributes@[k]).0@ == ename@ && d.attributes@[k].1@ == aname@),
        decreases d.attributes.len() - i,
    {
        if crate::util::str_eq(d.attributes[i].0.as_str(), ename) && crate::util::str_eq(
            d.attributes[i].1.as_str(),
            aname,
        ) {
            assert(first_attr_decl(*d, ename@, aname@, i as int));
            return Some(&d.attributes[i].2);
        }
        i += 1;
    }
    None
}

/// Declaration `k` is the binding one for its element and attribute: no
/// earlier declaration names the same pair.
pub open spec fn binding_decl(d: XmlDtd, k: int) -> bool {
    forall|j: int| 0 <= j < k ==> !((#[trigger] d.attributes@[j]).0@ == d.attributes@[k].0@ && d.attributes@[j].1@ == d.attributes@[k].1@)
}

/// The declaration at `k` is the binding one for its element and attribute:
/// no earlier declaration names the same pair.
pub fn is_binding_attr_decl(d: &XmlDtd, k: usize) -> (r: bool)
    requires
        k < d.attributes@.len(),
    ensures
        r == binding_decl(*d, k as int),
{
    let mut j: usize = 0;
    while j < k
        invariant
            j <= k < d.attributes@.len(),
            forall|x: int| 0 <= x < j ==> !((#[trigger] d.attributes@[x]).0@ == d.attributes@[k as int].0@ && d.attributes@[x].1@ == d.attributes@[k as int].1@),
        decreases k - j,
    {
        if crate::util::str_eq(d.attributes[j].0.as_str(), d.attributes[k].0.as_str())
            && crate::util::str_eq(d.attributes[j].1.as_str(), d.attributes[k].1.as_str()) {
            return false;
        }
        j += 1;
    }
    true
}

} // verus!
