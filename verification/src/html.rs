//! HTML parser after libxml2 `HTMLparser.c`: a grammar of its own, with
//! implied `html`/`head`/`body`, void elements, paragraphs closed by blocks,
//! and named and numeric character references.

use vstd::prelude::*;
use crate::error::XmlError;
use crate::tree::{XmlDoc, XmlDtd, NodeId, NodeKind};
use crate::util::{push_char, str_eq, char_from_u32};

verus! {

/// `HTML_PARSE_NOIMPLIED`: no implied `html`, `head` or `body`.
pub const HTML_PARSE_NOIMPLIED: i32 = 8192;
/// `HTML_PARSE_NONET`.
pub const HTML_PARSE_NONET: i32 = 2048;

/// The HTML 4 character entities, as `name:character` separated by spaces.
const HTML_ENTITY_TABLE: &'static str = "AElig:\u{c6} Aacute:\u{c1} Acirc:\u{c2} Agrave:\u{c0} Alpha:\u{391} Aring:\u{c5} \
    Atilde:\u{c3} Auml:\u{c4} Beta:\u{392} Ccedil:\u{c7} Chi:\u{3a7} Dagger:\u{2021} \
    Delta:\u{394} ETH:\u{d0} Eacute:\u{c9} Ecirc:\u{ca} Egrave:\u{c8} Epsilon:\u{395} \
    Eta:\u{397} Euml:\u{cb} Gamma:\u{393} Iacute:\u{cd} Icirc:\u{ce} Igrave:\u{cc} \
    Iota:\u{399} Iuml:\u{cf} Kappa:\u{39a} Lambda:\u{39b} Mu:\u{39c} Ntilde:\u{d1} Nu:\u{39d} \
    OElig:\u{152} Oacute:\u{d3} Ocirc:\u{d4} Ograve:\u{d2} Omega:\u{3a9} Omicron:\u{39f} \
    Oslash:\u{d8} Otilde:\u{d5} Ouml:\u{d6} Phi:\u{3a6} Pi:\u{3a0} Prime:\u{2033} Psi:\u{3a8} \
    Rho:\u{3a1} Scaron:\u{160} Sigma:\u{3a3} THORN:\u{de} Tau:\u{3a4} Theta:\u{398} \
    Uacute:\u{da} Ucirc:\u{db} Ugrave:\u{d9} Upsilon:\u{3a5} Uuml:\u{dc} Xi:\u{39e} \
    Yacute:\u{dd} Yuml:\u{178} Zeta:\u{396} aacute:\u{e1} acirc:\u{e2} acute:\u{b4} \
    aelig:\u{e6} agrave:\u{e0} alefsym:\u{2135} alpha:\u{3b1} amp:& and:\u{2227} ang:\u{2220} \
    aring:\u{e5} asymp:\u{2248} atilde:\u{e3} auml:\u{e4} bdquo:\u{201e} beta:\u{3b2} \
    brvbar:\u{a6} bull:\u{2022} cap:\u{2229} ccedil:\u{e7} cedil:\u{b8} cent:\u{a2} \
    chi:\u{3c7} circ:\u{2c6} clubs:\u{2663} cong:\u{2245} copy:\u{a9} crarr:\u{21b5} \
    cup:\u{222a} curren:\u{a4} dArr:\u{21d3} dagger:\u{2020} darr:\u{2193} deg:\u{b0} \
    delta:\u{3b4} diams:\u{2666} divide:\u{f7} eacute:\u{e9} ecirc:\u{ea} egrave:\u{e8} \
    empty:\u{2205} emsp:\u{2003} ensp:\u{2002} epsilon:\u{3b5} equiv:\u{2261} eta:\u{3b7} \
    eth:\u{f0} euml:\u{eb} euro:\u{20ac} exist:\u{2203} fnof:\u{192} forall:\u{2200} \
    frac12:\u{bd} frac14:\u{bc} frac34:\u{be} frasl:\u{2044} gamma:\u{3b3} ge:\u{2265} gt:> \
    hArr:\u{21d4} harr:\u{2194} hearts:\u{2665} hellip:\u{2026} iacute:\u{ed} icirc:\u{ee} \
    iexcl:\u{a1} igrave:\u{ec} image:\u{2111} infin:\u{221e} int:\u{222b} iota:\u{3b9} \
    iquest:\u{bf} isin:\u{2208} iuml:\u{ef} kappa:\u{3ba} lArr:\u{21d0} lambda:\u{3bb} \
    lang:\u{2329} laquo:\u{ab} larr:\u{2190} lceil:\u{2308} ldquo:\u{201c} le:\u{2264} \
    lfloor:\u{230a} lowast:\u{2217} loz:\u{25ca} lrm:\u{200e} lsaquo:\u{2039} lsquo:\u{2018} \
    lt:< macr:\u{af} mdash:\u{2014} micro:\u{b5} middot:\u{b7} minus:\u{2212} mu:\u{3bc} \
    nabla:\u{2207} nbsp:\u{a0} ndash:\u{2013} ne:\u{2260} ni:\u{220b} not:\u{ac} \
    notin:\u{2209} nsub:\u{2284} ntilde:\u{f1} nu:\u{3bd} oacute:\u{f3} ocirc:\u{f4} \
    oelig:\u{153} ograve:\u{f2} oline:\u{203e} omega:\u{3c9} omicron:\u{3bf} oplus:\u{2295} \
    or:\u{2228} ordf:\u{aa} ordm:\u{ba} oslash:\u{f8} otilde:\u{f5} otimes:\u{2297} \
    ouml:\u{f6} para:\u{b6} part:\u{2202} permil:\u{2030} perp:\u{22a5} phi:\u{3c6} pi:\u{3c0} \
    piv:\u{3d6} plusmn:\u{b1} pound:\u{a3} prime:\u{2032} prod:\u{220f} prop:\u{221d} \
    psi:\u{3c8} quot:\" rArr:\u{21d2} radic:\u{221a} rang:\u{232a} raquo:\u{bb} rarr:\u{2192} \
    rceil:\u{2309} rdquo:\u{201d} real:\u{211c} reg:\u{ae} rfloor:\u{230b} rho:\u{3c1} \
    rlm:\u{200f} rsaquo:\u{203a} rsquo:\u{2019} sbquo:\u{201a} scaron:\u{161} sdot:\u{22c5} \
    sect:\u{a7} shy:\u{ad} sigma:\u{3c3} sigmaf:\u{3c2} sim:\u{223c} spades:\u{2660} \
    sub:\u{2282} sube:\u{2286} sum:\u{2211} sup:\u{2283} sup1:\u{b9} sup2:\u{b2} sup3:\u{b3} \
    supe:\u{2287} szlig:\u{df} tau:\u{3c4} there4:\u{2234} theta:\u{3b8} thetasym:\u{3d1} \
    thinsp:\u{2009} thorn:\u{fe} tilde:\u{2dc} times:\u{d7} trade:\u{2122} uArr:\u{21d1} \
    uacute:\u{fa} uarr:\u{2191} ucirc:\u{fb} ugrave:\u{f9} uml:\u{a8} upsih:\u{3d2} \
    upsilon:\u{3c5} uuml:\u{fc} weierp:\u{2118} xi:\u{3be} yacute:\u{fd} yen:\u{a5} \
    yuml:\u{ff} zeta:\u{3b6} zwj:\u{200d} zwnj:\u{200c} ";

/// An element that takes no end tag.
pub open spec fn void_element(n: Seq<char>) -> bool {
    n == "area"@ || n == "base"@ || n == "br"@ || n == "col"@ || n == "embed"@ || n == "hr"@ ||
        n == "img"@ || n == "input"@ || n == "link"@ || n == "meta"@ || n == "param"@ ||
        n == "source"@ || n == "track"@ || n == "wbr"@
}

/// Elements that take no end tag.
pub fn is_void(name: &str) -> (r: bool)
    ensures
        r == void_element(name@),
{
    str_eq(name, "area") || str_eq(name, "base") || str_eq(name, "br") || str_eq(name, "col")
        || str_eq(name, "embed") || str_eq(name, "hr") || str_eq(name, "img") || str_eq(name, "input")
        || str_eq(name, "link") || str_eq(name, "meta") || str_eq(name, "param") || str_eq(name, "source")
        || str_eq(name, "track") || str_eq(name, "wbr")
}

/// A block-level element: one that closes an open paragraph.
pub open spec fn block_element(n: Seq<char>) -> bool {
    n == "address"@ || n == "article"@ || n == "aside"@ || n == "blockquote"@ ||
        n == "center"@ || n == "details"@ || n == "dialog"@ || n == "dir"@ || n == "div"@ ||
        n == "dl"@ || n == "fieldset"@ || n == "figcaption"@ || n == "figure"@ ||
        n == "footer"@ || n == "form"@ || n == "h1"@ || n == "h2"@ || n == "h3"@ ||
        n == "h4"@ || n == "h5"@ || n == "h6"@ || n == "header"@ || n == "hgroup"@ ||
        n == "hr"@ || n == "main"@ || n == "menu"@ || n == "nav"@ || n == "ol"@ || n == "p"@ ||
        n == "pre"@ || n == "section"@ || n == "table"@ || n == "ul"@
}

/// Block-level elements, which cannot appear inside a paragraph and so close
/// an open one (libxml2's `htmlStartClose` entries for `p`).
pub fn is_block_element(name: &str) -> (r: bool)
    ensures
        r == block_element(name@),
{
    str_eq(name, "address") || str_eq(name, "article") || str_eq(name, "aside") || str_eq(name, "blockquote")
        || str_eq(name, "center") || str_eq(name, "details") || str_eq(name, "dialog") || str_eq(name, "dir")
        || str_eq(name, "div") || str_eq(name, "dl") || str_eq(name, "fieldset") || str_eq(name, "figcaption")
        || str_eq(name, "figure") || str_eq(name, "footer") || str_eq(name, "form") || str_eq(name, "h1")
        || str_eq(name, "h2") || str_eq(name, "h3") || str_eq(name, "h4") || str_eq(name, "h5")
        || str_eq(name, "h6") || str_eq(name, "header") || str_eq(name, "hgroup") || str_eq(name, "hr")
        || str_eq(name, "main") || str_eq(name, "menu") || str_eq(name, "nav") || str_eq(name, "ol")
        || str_eq(name, "p") || str_eq(name, "pre") || str_eq(name, "section") || str_eq(name, "table")
        || str_eq(name, "ul")
}

/// The characters of `s`.
fn chars_of(s: &str) -> (r: Vec<char>)
    ensures
        r@ == s@,
{
    let mut v: Vec<char> = Vec::new();
    for c in it: s.chars()
        invariant
            it.seq() == s@,
            v@ == s@.take(it.index() as int),
    {
        proof {
            assert(s@.take(it.index() + 1) =~= s@.take(it.index() as int).push(c));
        }
        v.push(c);
    }
    assert(s@.take(s@.len() as int) =~= s@);
    v
}

/// An ASCII letter or digit.
pub open spec fn ascii_alnum(c: char) -> bool {
    ('a' <= c && c <= 'z') || ('A' <= c && c <= 'Z') || ('0' <= c && c <= '9')
}

fn is_ascii_alnum(c: char) -> (r: bool)
    ensures
        r == ascii_alnum(c),
{
    ('a' <= c && c <= 'z') || ('A' <= c && c <= 'Z') || ('0' <= c && c <= '9')
}

/// The character of the entry for `name` in the `name:char ` table `t`,
/// the entry under way starting at `s` and its `:` sought from `c`.
pub open spec fn entry_scan(t: Seq<char>, s: int, c: int, name: Seq<char>) -> Option<char>
    decreases t.len() - c,
{
    if c < 0 || c >= t.len() {
        None
    } else if t[c] != ':' {
        entry_scan(t, s, c + 1, name)
    } else if t.len() - c < 2 {
        None
    } else if c - s == name.len() && t.subrange(s, c) == name {
        Some(t[c + 1])
    } else if t.len() - c > 3 {
        entry_scan(t, c + 3, c + 3, name)
    } else {
        None
    }
}

/// The character the entity table gives the name `name`.
pub closed spec fn named_entity(name: Seq<char>) -> Option<char> {
    entry_scan(HTML_ENTITY_TABLE@, 0, 0, name)
}

/// `t[s..s + name.len()]` is `name`.
fn same_at(t: &Vec<char>, s: usize, name: &[char]) -> (r: bool)
    requires
        s + name@.len() <= t@.len(),
        t@.len() <= usize::MAX,
    ensures
        r == (t@.subrange(s as int, s + name@.len()) == name@),
{
    let mut k: usize = 0;
    while k < name.len()
        invariant
            s + name@.len() <= t@.len(),
            t@.len() <= usize::MAX,
            k <= name@.len(),
            forall|x: int| 0 <= x < k ==> t@[s + x] == name@[x],
        decreases name.len() - k,
    {
        if t[s + k] != name[k] {
            assert(t@.subrange(s as int, s + name@.len())[k as int] != name@[k as int]);
            return false;
        }
        k += 1;
    }
    assert(t@.subrange(s as int, s + name@.len()) =~= name@);
    true
}

/// The character a named reference stands for, from the entity table.
fn entity_char(name: &[char]) -> (r: Option<char>)
    ensures
        r == named_entity(name@),
{
    let t = chars_of(HTML_ENTITY_TABLE);
    let n = t.len();
    let mut s: usize = 0;
    while s < n
        invariant
            n == t@.len(),
            t@ == HTML_ENTITY_TABLE@,
            s <= n,
            named_entity(name@) == entry_scan(t@, s as int, s as int, name@),
        decreases n - s,
    {
        let mut c = s;
        while c < n && t[c] != ':'
            invariant
                n == t@.len(),
                s <= c <= n,
                entry_scan(t@, s as int, s as int, name@) == entry_scan(t@, s as int, c as int, name@),
            decreases n - c,
        {
            c += 1;
        }
        if c >= n || n - c < 2 {
            return None;
        }
        let ch = t[c + 1];
        if c - s == name.len() {
            if same_at(&t, s, name) {
                return Some(ch);
            }
        }
        if n - c > 3 {
            s = c + 3;
        } else {
            return None;
        }
    }
    None
}

/// The value of a digit in base 16 (`hex`) or 10.
pub open spec fn digit_of(c: char, hex: bool) -> Option<nat> {
    if '0' <= c && c <= '9' {
        Some((c as u32 - 48) as nat)
    } else if hex && 'a' <= c && c <= 'f' {
        Some((c as u32 - 87) as nat)
    } else if hex && 'A' <= c && c <= 'F' {
        Some((c as u32 - 55) as nat)
    } else {
        None
    }
}

fn hex_val(c: char) -> (r: Option<u32>)
    ensures
        r matches Some(v) ==> v < 16,
        match digit_of(c, true) { Some(d) => r == Some(d as u32), None => r is None },
{
    if '0' <= c && c <= '9' {
        Some((c as u32) - 48)
    } else if 'a' <= c && c <= 'f' {
        Some((c as u32) - 87)
    } else if 'A' <= c && c <= 'F' {
        Some((c as u32) - 55)
    } else {
        None
    }
}

/// The first position at or after `i` that holds no digit.
pub open spec fn digits_end(cs: Seq<char>, i: int, hex: bool) -> int
    decreases cs.len() - i,
{
    if 0 <= i < cs.len() && digit_of(cs[i], hex) is Some { digits_end(cs, i + 1, hex) } else { i }
}

/// The value of the digits `cs[ds..j]`; once past `0x10FFFF` it stops growing.
pub open spec fn digits_value(cs: Seq<char>, ds: int, j: int, hex: bool) -> nat
    decreases j - ds,
{
    if j <= ds {
        0
    } else {
        let v = digits_value(cs, ds, j - 1, hex);
        if v <= 0x10ffff { v * (if hex { 16nat } else { 10nat }) + digit_of(cs[j - 1], hex).unwrap() } else { v }
    }
}

/// The first position at or after `i` that holds no ASCII letter or digit.
pub open spec fn alnum_end(cs: Seq<char>, i: int) -> int
    decreases cs.len() - i,
{
    if 0 <= i < cs.len() && ascii_alnum(cs[i]) { alnum_end(cs, i + 1) } else { i }
}

/// Past the reference that ends at `j`, and its `;` when it has one.
pub open spec fn after_ref(cs: Seq<char>, j: int) -> int {
    if j < cs.len() && cs[j] == ';' { j + 1 } else { j }
}

/// Where the digits from `i` end lies between `i` and the end.
pub proof fn lemma_digits_end(cs: Seq<char>, i: int, hex: bool)
    requires
        0 <= i <= cs.len(),
    ensures
        i <= digits_end(cs, i, hex) <= cs.len(),
    decreases cs.len() - i,
{
    if i < cs.len() && digit_of(cs[i], hex) is Some {
        lemma_digits_end(cs, i + 1, hex);
    }
}

/// Where the letters and digits from `i` end lies between `i` and the end.
pub proof fn lemma_alnum_end(cs: Seq<char>, i: int)
    requires
        0 <= i <= cs.len(),
    ensures
        i <= alnum_end(cs, i) <= cs.len(),
    decreases cs.len() - i,
{
    if i < cs.len() && ascii_alnum(cs[i]) {
        lemma_alnum_end(cs, i + 1);
    }
}

/// `cs[i..]` with its character references decoded: a numeric one naming
/// a character other than NUL, and a name of the entity table, each with
/// or without its `;`; any other `&` stays as written.
pub open spec fn decode_from(cs: Seq<char>, i: int) -> Seq<char>
    decreases cs.len() - i,
{
    if i < 0 || i >= cs.len() {
        seq![]
    } else if cs[i] != '&' {
        seq![cs[i]] + decode_from(cs, i + 1)
    } else if i + 1 < cs.len() && cs[i + 1] == '#' {
        let hex = i + 2 < cs.len() && (cs[i + 2] == 'x' || cs[i + 2] == 'X');
        let ds = if hex { i + 3 } else { i + 2 };
        let j = digits_end(cs, ds, hex);
        let v = digits_value(cs, ds, j, hex);
        if j > ds && v != 0 && v <= 0x10ffff && !(0xd800 <= v <= 0xdfff) {
            proof {
                lemma_digits_end(cs, ds, hex);
            }
            seq![v as char] + decode_from(cs, after_ref(cs, j))
        } else {
            seq!['&'] + decode_from(cs, i + 1)
        }
    } else {
        let j = alnum_end(cs, i + 1);
        if j > i + 1 && named_entity(cs.subrange(i + 1, j)) is Some {
            proof {
                lemma_alnum_end(cs, i + 1);
            }
            seq![named_entity(cs.subrange(i + 1, j)).unwrap()] + decode_from(cs, after_ref(cs, j))
        } else {
            seq!['&'] + decode_from(cs, i + 1)
        }
    }
}

/// Decode the character references of HTML text: numeric ones, and named
/// ones of the entity table with or without the `;`. A bare `&` or an
/// unknown name stays as written.
pub fn decode_html_text(cs: &[char]) -> (r: String)
    ensures
        r@ == decode_from(cs@, 0),
{
    let mut out = String::new();
    let mut i: usize = 0;
    while i < cs.len()
        invariant
            i <= cs@.len(),
            out@ + decode_from(cs@, i as int) == decode_from(cs@, 0),
        decreases cs.len() - i,
    {
        let ghost o = out@;
        let c = cs[i];
        if c != '&' {
            push_char(&mut out, c);
            assert(out@ + decode_from(cs@, i + 1) =~= o + decode_from(cs@, i as int));
            i += 1;
            continue;
        }
        if i + 1 < cs.len() && cs[i + 1] == '#' {
            let hex = i + 2 < cs.len() && (cs[i + 2] == 'x' || cs[i + 2] == 'X');
            let mut j: usize = if hex { i + 3 } else { i + 2 };
            let ds = j;
            let mut v: u32 = 0;
            loop
                invariant
                    ds <= j <= cs@.len(),
                    digits_end(cs@, ds as int, hex) == digits_end(cs@, j as int, hex),
                    v as nat == digits_value(cs@, ds as int, j as int, hex),
                    v <= 0x10ffff * 16 + 15,
                ensures
                    ds <= j <= cs@.len(),
                    j == digits_end(cs@, ds as int, hex),
                    v as nat == digits_value(cs@, ds as int, j as int, hex),
                decreases cs.len() - j,
            {
                if j >= cs.len() {
                    break;
                }
                let d = if hex {
                    hex_val(cs[j])
                } else if '0' <= cs[j] && cs[j] <= '9' {
                    Some((cs[j] as u32) - 48)
                } else {
                    None
                };
                match d {
                    Some(dv) => {
                        assert(digit_of(cs@[j as int], hex) == Some(dv as nat));
                        if v <= 0x10ffff {
                            v = v * (if hex { 16u32 } else { 10u32 }) + dv;
                        }
                        j += 1;
                    },
                    None => {
                        break;
                    },
                }
            }
            if j > ds {
                match char_from_u32(v) {
                    Some(ch) => {
                        if v != 0 {
                            push_char(&mut out, ch);
                            let next = if j < cs.len() && cs[j] == ';' { j + 1 } else { j };
                            assert(out@ + decode_from(cs@, next as int) =~= o + decode_from(cs@, i as int));
                            i = next;
                            continue;
                        }
                    },
                    None => {},
                }
            }
            push_char(&mut out, '&');
            assert(out@ + decode_from(cs@, i + 1) =~= o + decode_from(cs@, i as int));
            i += 1;
            continue;
        }
        let mut j = i + 1;
        while j < cs.len() && is_ascii_alnum(cs[j])
            invariant
                i < j <= cs@.len(),
                alnum_end(cs@, i + 1) == alnum_end(cs@, j as int),
            decreases cs.len() - j,
        {
            j += 1;
        }
        if j > i + 1 {
            match entity_char(&cs[i + 1..j]) {
                Some(ch) => {
                    push_char(&mut out, ch);
                    let next = if j < cs.len() && cs[j] == ';' { j + 1 } else { j };
                    assert(out@ + decode_from(cs@, next as int) =~= o + decode_from(cs@, i as int));
                    i = next;
                    continue;
                },
                None => {},
            }
        }
        push_char(&mut out, '&');
        assert(out@ + decode_from(cs@, i + 1) =~= o + decode_from(cs@, i as int));
        i += 1;
    }
    assert(out@ + decode_from(cs@, i as int) =~= out@);
    out
}

/// Lower-case ASCII letters of `s`.
fn to_ascii_lower(s: &str) -> (r: String)
    ensures
        r@ == crate::writer::lower_chars(s@),
{
    let cs = chars_of(s);
    let mut out = String::new();
    let mut i: usize = 0;
    while i < cs.len()
        invariant
            cs@ == s@,
            i <= cs@.len(),
            out@ == crate::writer::lower_chars(s@.take(i as int)),
        decreases cs.len() - i,
    {
        let c = cs[i];
        if 'A' <= c && c <= 'Z' {
            push_char(&mut out, (((c as u32) + 32) as u8) as char);
        } else {
            push_char(&mut out, c);
        }
        proof {
            assert(s@.take(i + 1) =~= s@.take(i as int).push(c));
        }
        assert(out@ =~= crate::writer::lower_chars(s@.take(i + 1)));
        i += 1;
    }
    assert(s@.take(i as int) =~= s@);
    out
}

/// Whitespace between the parts of a document type declaration.
pub open spec fn html_ws(c: char) -> bool {
    c == ' ' || c == '\t' || c == '\n' || c == '\r' || c == '\x0C'
}

/// A character that may start a tag name.
pub open spec fn tag_start_char(c: char) -> bool {
    ('a' <= c && c <= 'z') || ('A' <= c && c <= 'Z') || c == '_' || c == ':'
}

/// A character that may continue a tag name.
pub open spec fn tag_name_char(c: char) -> bool {
    ascii_alnum(c) || c == '-' || c == '_' || c == ':' || c == '.'
}

/// The first position at or after `i` whose character cannot continue a tag name.
pub open spec fn tag_chars_end(cs: Seq<char>, i: int) -> int
    decreases cs.len() - i,
{
    if 0 <= i < cs.len() && tag_name_char(cs[i]) { tag_chars_end(cs, i + 1) } else { i }
}

/// Where the tag name that starts at `i` ends (`i` when none starts there).
pub open spec fn tag_name_end(cs: Seq<char>, i: int) -> int {
    if 0 <= i < cs.len() && tag_start_char(cs[i]) { tag_chars_end(cs, i + 1) } else { i }
}

/// The first position at or after `i` that holds whitespace or `>`.
pub open spec fn bare_value_end(cs: Seq<char>, i: int) -> int
    decreases cs.len() - i,
{
    if 0 <= i < cs.len() && !html_ws(cs[i]) && cs[i] != '>' { bare_value_end(cs, i + 1) } else { i }
}

/// What remains of `stack` after popping the elements named `name` from its top.
pub open spec fn popped_named(d: XmlDoc, stack: Seq<NodeId>, name: Seq<char>) -> Seq<NodeId>
    decreases stack.len(),
{
    if stack.len() > 0 && crate::tree::node_name(d.nodes()[stack.last().0 as int]) == name {
        popped_named(d, stack.drop_last(), name)
    } else {
        stack
    }
}

/// A start tag that closes open elements of its own name.
pub open spec fn closes_same_name(n: Seq<char>) -> bool {
    n == "p"@ || n == "li"@ || n == "tr"@ || n == "td"@ || n == "th"@
}

/// The tags that close their own kind take an end tag, and of them only `p`
/// is a block element; none of them is placed by the document structure.
proof fn lemma_closing_names()
    ensures
        forall|n: Seq<char>| #[trigger] closes_same_name(n) ==> !void_element(n) && (block_element(n) <==> n == "p"@)
            && n != "html"@ && n != "head"@ && n != "body"@ && n != "frameset"@ && n != "title"@
            && n != "meta"@ && n != "link"@ && n != "style"@ && n != "base"@,
{
    reveal_strlit("address");
    reveal_strlit("article");
    reveal_strlit("aside");
    reveal_strlit("blockquote");
    reveal_strlit("center");
    reveal_strlit("details");
    reveal_strlit("dialog");
    reveal_strlit("dir");
    reveal_strlit("div");
    reveal_strlit("dl");
    reveal_strlit("fieldset");
    reveal_strlit("figcaption");
    reveal_strlit("figure");
    reveal_strlit("footer");
    reveal_strlit("form");
    reveal_strlit("h1");
    reveal_strlit("h2");
    reveal_strlit("h3");
    reveal_strlit("h4");
    reveal_strlit("h5");
    reveal_strlit("h6");
    reveal_strlit("header");
    reveal_strlit("hgroup");
    reveal_strlit("hr");
    reveal_strlit("main");
    reveal_strlit("menu");
    reveal_strlit("nav");
    reveal_strlit("ol");
    reveal_strlit("p");
    reveal_strlit("pre");
    reveal_strlit("section");
    reveal_strlit("table");
    reveal_strlit("ul");
    reveal_strlit("area");
    reveal_strlit("base");
    reveal_strlit("br");
    reveal_strlit("col");
    reveal_strlit("embed");
    reveal_strlit("img");
    reveal_strlit("input");
    reveal_strlit("link");
    reveal_strlit("meta");
    reveal_strlit("param");
    reveal_strlit("source");
    reveal_strlit("track");
    reveal_strlit("wbr");
    reveal_strlit("html");
    reveal_strlit("head");
    reveal_strlit("body");
    reveal_strlit("frameset");
    reveal_strlit("title");
    reveal_strlit("style");
    reveal_strlit("li");
    reveal_strlit("tr");
    reveal_strlit("td");
    reveal_strlit("th");
    assert("address"@.len() == 7 && "address"@[0] == 'a');
    assert("article"@.len() == 7 && "article"@[0] == 'a');
    assert("aside"@.len() == 5 && "aside"@[0] == 'a');
    assert("blockquote"@.len() == 10 && "blockquote"@[0] == 'b');
    assert("center"@.len() == 6 && "center"@[0] == 'c');
    assert("details"@.len() == 7 && "details"@[0] == 'd');
    assert("dialog"@.len() == 6 && "dialog"@[0] == 'd');
    assert("dir"@.len() == 3 && "dir"@[0] == 'd');
    assert("div"@.len() == 3 && "div"@[0] == 'd');
    assert("dl"@.len() == 2 && "dl"@[0] == 'd');
    assert("fieldset"@.len() == 8 && "fieldset"@[0] == 'f');
    assert("figcaption"@.len() == 10 && "figcaption"@[0] == 'f');
    assert("figure"@.len() == 6 && "figure"@[0] == 'f');
    assert("footer"@.len() == 6 && "footer"@[0] == 'f');
    assert("form"@.len() == 4 && "form"@[0] == 'f');
    assert("h1"@.len() == 2 && "h1"@[0] == 'h');
    assert("h2"@.len() == 2 && "h2"@[0] == 'h');
    assert("h3"@.len() == 2 && "h3"@[0] == 'h');
    assert("h4"@.len() == 2 && "h4"@[0] == 'h');
    assert("h5"@.len() == 2 && "h5"@[0] == 'h');
    assert("h6"@.len() == 2 && "h6"@[0] == 'h');
    assert("header"@.len() == 6 && "header"@[0] == 'h');
    assert("hgroup"@.len() == 6 && "hgroup"@[0] == 'h');
    assert("hr"@.len() == 2 && "hr"@[0] == 'h');
    assert("main"@.len() == 4 && "main"@[0] == 'm');
    assert("menu"@.len() == 4 && "menu"@[0] == 'm');
    assert("nav"@.len() == 3 && "nav"@[0] == 'n');
    assert("ol"@.len() == 2 && "ol"@[0] == 'o');
    assert("p"@.len() == 1 && "p"@[0] == 'p');
    assert("pre"@.len() == 3 && "pre"@[0] == 'p');
    assert("section"@.len() == 7 && "section"@[0] == 's');
    assert("table"@.len() == 5 && "table"@[0] == 't');
    assert("ul"@.len() == 2 && "ul"@[0] == 'u');
    assert("area"@.len() == 4 && "area"@[0] == 'a');
    assert("base"@.len() == 4 && "base"@[0] == 'b');
    assert("br"@.len() == 2 && "br"@[0] == 'b');
    assert("col"@.len() == 3 && "col"@[0] == 'c');
    assert("embed"@.len() == 5 && "embed"@[0] == 'e');
    assert("img"@.len() == 3 && "img"@[0] == 'i');
    assert("input"@.len() == 5 && "input"@[0] == 'i');
    assert("link"@.len() == 4 && "link"@[0] == 'l');
    assert("meta"@.len() == 4 && "meta"@[0] == 'm');
    assert("param"@.len() == 5 && "param"@[0] == 'p');
    assert("source"@.len() == 6 && "source"@[0] == 's');
    assert("track"@.len() == 5 && "track"@[0] == 't');
    assert("wbr"@.len() == 3 && "wbr"@[0] == 'w');
    assert("html"@.len() == 4 && "html"@[0] == 'h');
    assert("head"@.len() == 4 && "head"@[0] == 'h');
    assert("body"@.len() == 4 && "body"@[0] == 'b');
    assert("frameset"@.len() == 8 && "frameset"@[0] == 'f');
    assert("title"@.len() == 5 && "title"@[0] == 't');
    assert("style"@.len() == 5 && "style"@[0] == 's');
    assert("li"@.len() == 2 && "li"@[0] == 'l');
    assert("tr"@.len() == 2 && "tr"@[0] == 't');
    assert("td"@.len() == 2 && "td"@[0] == 't');
    assert("th"@.len() == 2 && "th"@[0] == 't');
}

/// No block element is placed by the document structure.
proof fn lemma_block_names()
    ensures
        forall|n: Seq<char>| #[trigger] block_element(n) ==> n.len() > 0 && n != "html"@ && n != "head"@ && n != "body"@
            && n != "frameset"@ && n != "title"@ && n != "meta"@ && n != "link"@ && n != "style"@ && n != "base"@,
{
    reveal_strlit("address");
    reveal_strlit("article");
    reveal_strlit("aside");
    reveal_strlit("blockquote");
    reveal_strlit("center");
    reveal_strlit("details");
    reveal_strlit("dialog");
    reveal_strlit("dir");
    reveal_strlit("div");
    reveal_strlit("dl");
    reveal_strlit("fieldset");
    reveal_strlit("figcaption");
    reveal_strlit("figure");
    reveal_strlit("footer");
    reveal_strlit("form");
    reveal_strlit("h1");
    reveal_strlit("h2");
    reveal_strlit("h3");
    reveal_strlit("h4");
    reveal_strlit("h5");
    reveal_strlit("h6");
    reveal_strlit("header");
    reveal_strlit("hgroup");
    reveal_strlit("hr");
    reveal_strlit("main");
    reveal_strlit("menu");
    reveal_strlit("nav");
    reveal_strlit("ol");
    reveal_strlit("p");
    reveal_strlit("pre");
    reveal_strlit("section");
    reveal_strlit("table");
    reveal_strlit("ul");
    reveal_strlit("html");
    reveal_strlit("head");
    reveal_strlit("body");
    reveal_strlit("frameset");
    reveal_strlit("title");
    reveal_strlit("meta");
    reveal_strlit("link");
    reveal_strlit("style");
    reveal_strlit("base");
    assert("address"@.len() == 7 && "address"@[0] == 'a' && "address"@[1] == 'd' && "address"@[2] == 'd' && "address"@[3] == 'r' && "address"@[4] == 'e' && "address"@[5] == 's' && "address"@[6] == 's');
    assert("article"@.len() == 7 && "article"@[0] == 'a' && "article"@[1] == 'r' && "article"@[2] == 't' && "article"@[3] == 'i' && "article"@[4] == 'c' && "article"@[5] == 'l' && "article"@[6] == 'e');
    assert("aside"@.len() == 5 && "aside"@[0] == 'a' && "aside"@[1] == 's' && "aside"@[2] == 'i' && "aside"@[3] == 'd' && "aside"@[4] == 'e');
    assert("blockquote"@.len() == 10 && "blockquote"@[0] == 'b' && "blockquote"@[1] == 'l' && "blockquote"@[2] == 'o' && "blockquote"@[3] == 'c' && "blockquote"@[4] == 'k' && "blockquote"@[5] == 'q' && "blockquote"@[6] == 'u' && "blockquote"@[7] == 'o' && "blockquote"@[8] == 't' && "blockquote"@[9] == 'e');
    assert("center"@.len() == 6 && "center"@[0] == 'c' && "center"@[1] == 'e' && "center"@[2] == 'n' && "center"@[3] == 't' && "center"@[4] == 'e' && "center"@[5] == 'r');
    assert("details"@.len() == 7 && "details"@[0] == 'd' && "details"@[1] == 'e' && "details"@[2] == 't' && "details"@[3] == 'a' && "details"@[4] == 'i' && "details"@[5] == 'l' && "details"@[6] == 's');
    assert("dialog"@.len() == 6 && "dialog"@[0] == 'd' && "dialog"@[1] == 'i' && "dialog"@[2] == 'a' && "dialog"@[3] == 'l' && "dialog"@[4] == 'o' && "dialog"@[5] == 'g');
    assert("dir"@.len() == 3 && "dir"@[0] == 'd' && "dir"@[1] == 'i' && "dir"@[2] == 'r');
    assert("div"@.len() == 3 && "div"@[0] == 'd' && "div"@[1] == 'i' && "div"@[2] == 'v');
    assert("dl"@.len() == 2 && "dl"@[0] == 'd' && "dl"@[1] == 'l');
    assert("fieldset"@.len() == 8 && "fieldset"@[0] == 'f' && "fieldset"@[1] == 'i' && "fieldset"@[2] == 'e' && "fieldset"@[3] == 'l' && "fieldset"@[4] == 'd' && "fieldset"@[5] == 's' && "fieldset"@[6] == 'e' && "fieldset"@[7] == 't');
    assert("figcaption"@.len() == 10 && "figcaption"@[0] == 'f' && "figcaption"@[1] == 'i' && "figcaption"@[2] == 'g' && "figcaption"@[3] == 'c' && "figcaption"@[4] == 'a' && "figcaption"@[5] == 'p' && "figcaption"@[6] == 't' && "figcaption"@[7] == 'i' && "figcaption"@[8] == 'o' && "figcaption"@[9] == 'n');
    assert("figure"@.len() == 6 && "figure"@[0] == 'f' && "figure"@[1] == 'i' && "figure"@[2] == 'g' && "figure"@[3] == 'u' && "figure"@[4] == 'r' && "figure"@[5] == 'e');
    assert("footer"@.len() == 6 && "footer"@[0] == 'f' && "footer"@[1] == 'o' && "footer"@[2] == 'o' && "footer"@[3] == 't' && "footer"@[4] == 'e' && "footer"@[5] == 'r');
    assert("form"@.len() == 4 && "form"@[0] == 'f' && "form"@[1] == 'o' && "form"@[2] == 'r' && "form"@[3] == 'm');
    assert("h1"@.len() == 2 && "h1"@[0] == 'h' && "h1"@[1] == '1');
    assert("h2"@.len() == 2 && "h2"@[0] == 'h' && "h2"@[1] == '2');
    assert("h3"@.len() == 2 && "h3"@[0] == 'h' && "h3"@[1] == '3');
    assert("h4"@.len() == 2 && "h4"@[0] == 'h' && "h4"@[1] == '4');
    assert("h5"@.len() == 2 && "h5"@[0] == 'h' && "h5"@[1] == '5');
    assert("h6"@.len() == 2 && "h6"@[0] == 'h' && "h6"@[1] == '6');
    assert("header"@.len() == 6 && "header"@[0] == 'h' && "header"@[1] == 'e' && "header"@[2] == 'a' && "header"@[3] == 'd' && "header"@[4] == 'e' && "header"@[5] == 'r');
    assert("hgroup"@.len() == 6 && "hgroup"@[0] == 'h' && "hgroup"@[1] == 'g' && "hgroup"@[2] == 'r' && "hgroup"@[3] == 'o' && "hgroup"@[4] == 'u' && "hgroup"@[5] == 'p');
    assert("hr"@.len() == 2 && "hr"@[0] == 'h' && "hr"@[1] == 'r');
    assert("main"@.len() == 4 && "main"@[0] == 'm' && "main"@[1] == 'a' && "main"@[2] == 'i' && "main"@[3] == 'n');
    assert("menu"@.len() == 4 && "menu"@[0] == 'm' && "menu"@[1] == 'e' && "menu"@[2] == 'n' && "menu"@[3] == 'u');
    assert("nav"@.len() == 3 && "nav"@[0] == 'n' && "nav"@[1] == 'a' && "nav"@[2] == 'v');
    assert("ol"@.len() == 2 && "ol"@[0] == 'o' && "ol"@[1] == 'l');
    assert("p"@.len() == 1 && "p"@[0] == 'p');
    assert("pre"@.len() == 3 && "pre"@[0] == 'p' && "pre"@[1] == 'r' && "pre"@[2] == 'e');
    assert("section"@.len() == 7 && "section"@[0] == 's' && "section"@[1] == 'e' && "section"@[2] == 'c' && "section"@[3] == 't' && "section"@[4] == 'i' && "section"@[5] == 'o' && "section"@[6] == 'n');
    assert("table"@.len() == 5 && "table"@[0] == 't' && "table"@[1] == 'a' && "table"@[2] == 'b' && "table"@[3] == 'l' && "table"@[4] == 'e');
    assert("ul"@.len() == 2 && "ul"@[0] == 'u' && "ul"@[1] == 'l');
    assert("html"@.len() == 4 && "html"@[0] == 'h' && "html"@[1] == 't' && "html"@[2] == 'm' && "html"@[3] == 'l');
    assert("head"@.len() == 4 && "head"@[0] == 'h' && "head"@[1] == 'e' && "head"@[2] == 'a' && "head"@[3] == 'd');
    assert("body"@.len() == 4 && "body"@[0] == 'b' && "body"@[1] == 'o' && "body"@[2] == 'd' && "body"@[3] == 'y');
    assert("frameset"@.len() == 8 && "frameset"@[0] == 'f' && "frameset"@[1] == 'r' && "frameset"@[2] == 'a' && "frameset"@[3] == 'm' && "frameset"@[4] == 'e' && "frameset"@[5] == 's' && "frameset"@[6] == 'e' && "frameset"@[7] == 't');
    assert("title"@.len() == 5 && "title"@[0] == 't' && "title"@[1] == 'i' && "title"@[2] == 't' && "title"@[3] == 'l' && "title"@[4] == 'e');
    assert("meta"@.len() == 4 && "meta"@[0] == 'm' && "meta"@[1] == 'e' && "meta"@[2] == 't' && "meta"@[3] == 'a');
    assert("link"@.len() == 4 && "link"@[0] == 'l' && "link"@[1] == 'i' && "link"@[2] == 'n' && "link"@[3] == 'k');
    assert("style"@.len() == 5 && "style"@[0] == 's' && "style"@[1] == 't' && "style"@[2] == 'y' && "style"@[3] == 'l' && "style"@[4] == 'e');
    assert("base"@.len() == 4 && "base"@[0] == 'b' && "base"@[1] == 'a' && "base"@[2] == 's' && "base"@[3] == 'e');
}

/// Popping the elements named `name` leaves none of that name on top.
proof fn lemma_popped_top(d: XmlDoc, stack: Seq<NodeId>, name: Seq<char>)
    ensures
        popped_named(d, stack, name).len() > 0
            ==> crate::tree::node_name(d.nodes()[popped_named(d, stack, name).last().0 as int]) != name,
        popped_named(d, popped_named(d, stack, name), name) == popped_named(d, stack, name),
    decreases stack.len(),
{
    if stack.len() > 0 && crate::tree::node_name(d.nodes()[stack.last().0 as int]) == name {
        lemma_popped_top(d, stack.drop_last(), name);
    }
}

/// Whitespace as far as dropping text goes: HTML whitespace, no-break space, next line.
pub open spec fn blank_char(c: char) -> bool {
    html_ws(c) || c == '\u{a0}' || c == '\u{85}'
}

/// The first position at or after `i` that holds no whitespace.
pub open spec fn skip_ws_from(cs: Seq<char>, i: int) -> int
    decreases cs.len() - i,
{
    if 0 <= i < cs.len() && html_ws(cs[i]) { skip_ws_from(cs, i + 1) } else { i }
}

/// The first position at or after `i` that holds whitespace.
pub open spec fn word_end(cs: Seq<char>, i: int) -> int
    decreases cs.len() - i,
{
    if 0 <= i < cs.len() && !html_ws(cs[i]) { word_end(cs, i + 1) } else { i }
}

/// The first position at or after `i` that holds `q`.
pub open spec fn find_char(cs: Seq<char>, i: int, q: char) -> int
    decreases cs.len() - i,
{
    if 0 <= i < cs.len() && cs[i] != q { find_char(cs, i + 1, q) } else { i }
}

/// The literal quoted with `"` or `'` after whitespace at `i`: its text and
/// the position after its closing quote.
pub open spec fn literal_at(cs: Seq<char>, i: int) -> Option<(Seq<char>, int)> {
    let j = skip_ws_from(cs, i);
    if j >= cs.len() || (cs[j] != '"' && cs[j] != '\'') {
        None
    } else {
        let e = find_char(cs, j + 1, cs[j]);
        if e >= cs.len() { None } else { Some((cs.subrange(j + 1, e), e + 1)) }
    }
}

/// The name, public and system identifiers of a document type declaration
/// body: the first word, then `PUBLIC` (in any case) with one or two
/// literals or `SYSTEM` with one.
pub open spec fn doctype_parts(cs: Seq<char>) -> (Option<Seq<char>>, Option<Seq<char>>, Option<Seq<char>>) {
    let i0 = skip_ws_from(cs, 0);
    let i1 = word_end(cs, i0);
    let name = if i1 > i0 { Some(cs.subrange(i0, i1)) } else { None };
    let i2 = skip_ws_from(cs, i1);
    if cs.len() - i2 >= 6 {
        let kw = crate::writer::lower_chars(cs.subrange(i2, i2 + 6));
        if kw == "public"@ {
            match literal_at(cs, i2 + 6) {
                Some((p, e)) => (name, Some(p), match literal_at(cs, e) {
                    Some((q, _)) => Some(q),
                    None => None,
                }),
                None => (name, None, None),
            }
        } else if kw == "system"@ {
            (name, None, match literal_at(cs, i2 + 6) {
                Some((q, _)) => Some(q),
                None => None,
            })
        } else {
            (name, None, None)
        }
    } else {
        (name, None, None)
    }
}

fn is_html_ws(c: char) -> (r: bool)
    ensures
        r == html_ws(c),
{
    c == ' ' || c == '\t' || c == '\n' || c == '\r' || c == '\x0C'
}

/// Room for two more nodes.
const MAX_HTML_NODES: usize = 4294967040;

struct HtmlParser {
    cs: Vec<char>,
    pos: usize,
    doc: XmlDoc,
    stack: Vec<NodeId>,
    noimplied: bool,
    html: Option<NodeId>,
    head: Option<NodeId>,
    body: Option<NodeId>,
}

/// `cs` continues with the non-empty `t` at `i`.
pub open spec fn chars_at(cs: Seq<char>, i: int, t: Seq<char>) -> bool {
    t.len() > 0 && 0 <= i && i + t.len() <= cs.len() && cs.subrange(i, i + t.len()) == t
}

pub open spec fn opt_has(d: XmlDoc, o: Option<NodeId>) -> bool {
    o matches Some(x) ==> d.has(x)
}

impl HtmlParser {
    spec fn inv(&self) -> bool {
        &&& self.doc.nodes()[0].kind == NodeKind::HtmlDocument
        &&& crate::tree::opt_string_view(self.doc.encoding) == Some("HTML"@)
        &&& self.pos <= self.cs@.len()
        &&& self.cs@.len() < usize::MAX
        &&& self.doc.wf()
        &&& forall|k: int| 0 <= k < self.stack@.len() ==> self.doc.has(#[trigger] self.stack@[k])
        &&& opt_has(self.doc, self.html)
        &&& opt_has(self.doc, self.head)
        &&& opt_has(self.doc, self.body)
    }

    spec fn grew(&self, old: Self) -> bool {
        &&& self.cs == old.cs
        &&& self.pos >= old.pos
        &&& self.doc.nodes().len() >= old.doc.nodes().len()
    }

    fn room(&self) -> (r: Result<(), XmlError>)
        requires
            self.inv(),
        ensures
            r matches Err(e) ==> e.code == crate::error::XML_ERR_NO_MEMORY,
            r is Ok ==> self.doc.nodes().len() + 2 < u32::MAX,
            r is Ok <==> self.doc.nodes().len() < MAX_HTML_NODES,
    {
        if self.doc.len() >= MAX_HTML_NODES {
            Err(XmlError::new(crate::error::XML_ERR_NO_MEMORY, String::from_str("Too many nodes"), 0, 0))
        } else {
            Ok(())
        }
    }

    /// The length of `s` when the text continues with it here, else zero.
    fn at(&self, s: &str) -> (r: usize)
        requires
            self.inv(),
        ensures
            r > 0 ==> self.pos + r <= self.cs@.len(),
            r == (if chars_at(self.cs@, self.pos as int, s@) { s@.len() as usize } else { 0usize }),
    {
        let t = chars_of(s);
        if t.len() == 0 || t.len() > self.cs.len() - self.pos {
            return 0;
        }
        let mut k: usize = 0;
        while k < t.len()
            invariant
                self.inv(),
                self.pos + t@.len() <= self.cs@.len(),
                k <= t@.len(),
                t@ == s@,
                forall|j: int| 0 <= j < k ==> self.cs@[self.pos + j] == t@[j],
            decreases t.len() - k,
        {
            if self.cs[self.pos + k] != t[k] {
                assert(self.cs@.subrange(self.pos as int, self.pos + t@.len())[k as int] != t@[k as int]);
                return 0;
            }
            k += 1;
        }
        assert(self.cs@.subrange(self.pos as int, self.pos + t@.len()) =~= t@);
        t.len()
    }

    /// The first `s` at or after `from`: where it starts and where it ends.
    fn find(&self, from: usize, s: &str) -> (r: Option<(usize, usize)>)
        requires
            from <= self.cs@.len(),
            self.cs@.len() < usize::MAX,
        ensures
            r matches Some((k, e)) ==> from <= k <= e <= self.cs@.len() && k < e,
            r matches Some((k, e)) ==> e == k + s@.len() && chars_at(self.cs@, k as int, s@)
                && forall|j: int| from <= j < k ==> !#[trigger] chars_at(self.cs@, j, s@),
            r is None ==> forall|j: int| from <= j ==> !#[trigger] chars_at(self.cs@, j, s@),
    {
        let t = chars_of(s);
        let n = self.cs.len();
        if t.len() == 0 {
            return None;
        }
        let mut i = from;
        while i < n && n - i >= t.len()
            invariant
                n == self.cs@.len(),
                from <= i <= n,
                t@ == s@,
                t@.len() > 0,
                forall|j: int| from <= j < i ==> !#[trigger] chars_at(self.cs@, j, s@),
            decreases n - i,
        {
            let mut k: usize = 0;
            let mut same = true;
            while k < t.len()
                invariant_except_break
                    same,
                invariant
                    n == self.cs@.len(),
                    i + t@.len() <= n,
                    k <= t@.len(),
                    forall|j: int| 0 <= j < k ==> self.cs@[i + j] == t@[j],
                ensures
                    same ==> k == t@.len() && forall|j: int| 0 <= j < k ==> self.cs@[i + j] == t@[j],
                    !same ==> k < t@.len() && self.cs@[i + k] != t@[k as int],
                decreases t.len() - k,
            {
                if self.cs[i + k] != t[k] {
                    same = false;
                    break;
                }
                k += 1;
            }
            if same {
                assert(self.cs@.subrange(i as int, i + t@.len()) =~= t@);
                return Some((i, i + t.len()));
            }
            assert(self.cs@.subrange(i as int, i + t@.len())[k as int] != t@[k as int]);
            i += 1;
        }
        None
    }

    fn text(&self, from: usize, to: usize) -> (r: String)
        requires
            from <= to <= self.cs@.len(),
        ensures
            r@ == self.cs@.subrange(from as int, to as int),
    {
        let mut out = String::new();
        let mut i = from;
        while i < to
            invariant
                from <= i <= to <= self.cs@.len(),
                out@ == self.cs@.subrange(from as int, i as int),
            decreases to - i,
        {
            push_char(&mut out, self.cs[i]);
            proof {
                assert(self.cs@.subrange(from as int, i + 1) =~= self.cs@.subrange(from as int, i as int).push(self.cs@[i as int]));
            }
            i += 1;
        }
        out
    }

    fn parent(&self) -> (r: NodeId)
        requires
            self.inv(),
        ensures
            self.doc.has(r),
            self.stack@.len() > 0 ==> r == self.stack@.last(),
    {
        if self.stack.len() > 0 {
            self.stack[self.stack.len() - 1]
        } else {
            NodeId::document()
        }
    }

    fn new_element(&mut self, name: &str) -> (r: Result<NodeId, XmlError>)
        requires
            old(self).inv(),
        ensures
            r matches Err(e) ==> e.code == crate::error::XML_ERR_NO_MEMORY,
            final(self).inv(),
            final(self).grew(*old(self)),
            final(self).stack == old(self).stack,
            final(self).html == old(self).html,
            final(self).head == old(self).head,
            final(self).body == old(self).body,
            r matches Ok(x) ==> final(self).doc.has(x),
            r is Ok <==> old(self).doc.nodes().len() < MAX_HTML_NODES,
            r is Err ==> *final(self) == *old(self),
            r matches Ok(x) ==> x.0 == old(self).doc.nodes().len()
                && final(self).doc.nodes().len() == old(self).doc.nodes().len() + 1
                && final(self).doc.nodes().subrange(0, x.0 as int) == old(self).doc.nodes()
                && crate::tree::fresh_node(final(self).doc.nodes()[x.0 as int], NodeKind::Element, name@)
                && final(self).doc.root() == old(self).doc.root(),
            *final(self) == (HtmlParser { doc: final(self).doc, ..*old(self) }),
    {
        self.room()?;
        let e = self.doc.xml_new_node(None, name);
        proof {
            assert forall|k: int| 0 <= k < self.stack@.len() implies self.doc.has(#[trigger] self.stack@[k]) by {
                assert(old(self).doc.has(self.stack@[k]));
            }
        }
        Ok(e)
    }

    fn ensure_html(&mut self) -> (r: Result<NodeId, XmlError>)
        requires
            old(self).inv(),
        ensures
            r matches Err(e) ==> e.code == crate::error::XML_ERR_NO_MEMORY,
            final(self).inv(),
            final(self).pos == old(self).pos,
            final(self).grew(*old(self)),
            final(self).stack == old(self).stack,
            r matches Ok(x) ==> final(self).doc.has(x),
            old(self).html matches Some(h) ==> r == Ok::<NodeId, XmlError>(h) && *final(self) == *old(self),
            old(self).html is None ==> (r is Ok <==> old(self).doc.nodes().len() < MAX_HTML_NODES),
            old(self).html is None && r is Err ==> *final(self) == *old(self),
            r matches Ok(x) ==> final(self).html == Some(x),
            old(self).html is None ==> (r matches Ok(x) ==> x.0 == old(self).doc.nodes().len()
                && final(self).doc.root() == Some(x)
                && final(self).doc.nodes().len() == old(self).doc.nodes().len() + 1
                && final(self).doc.nodes()[x.0 as int].kind == NodeKind::Element),
            final(self).head == old(self).head,
            final(self).body == old(self).body,
    {
        match self.html {
            Some(h) => Ok(h),
            None => {
                let h = self.new_element("html")?;
                self.doc.xml_doc_set_root_element(h);
                self.html = Some(h);
                Ok(h)
            },
        }
    }

    fn ensure_head(&mut self) -> (r: Result<NodeId, XmlError>)
        requires
            old(self).inv(),
        ensures
            r matches Err(e) ==> e.code == crate::error::XML_ERR_NO_MEMORY,
            final(self).inv(),
            final(self).pos == old(self).pos,
            final(self).grew(*old(self)),
            final(self).stack == old(self).stack,
            r matches Ok(x) ==> final(self).doc.has(x),
            old(self).head matches Some(h) ==> r == Ok::<NodeId, XmlError>(h) && *final(self) == *old(self),
            r matches Ok(x) ==> final(self).head == Some(x),
            old(self).head is None ==> (r is Ok <==> old(self).doc.nodes().len() + (if old(self).html is None { 1int } else { 0int }) < MAX_HTML_NODES),
            old(self).head is None ==> (r matches Ok(x) ==> (final(self).html matches Some(h)
                && final(self).doc.nodes()[x.0 as int].parent == Some(h)
                && final(self).doc.nodes()[x.0 as int].kind == NodeKind::Element
                && final(self).doc.nodes()[x.0 as int].name@ == "head"@)),
            final(self).body == old(self).body,
    {
        match self.head {
            Some(h) => Ok(h),
            None => {
                let html = self.ensure_html()?;
                let h = self.new_element("head")?;
                self.doc.xml_add_child(html, h);
                self.head = Some(h);
                Ok(h)
            },
        }
    }

    fn ensure_body(&mut self) -> (r: Result<NodeId, XmlError>)
        requires
            old(self).inv(),
        ensures
            r matches Err(e) ==> e.code == crate::error::XML_ERR_NO_MEMORY,
            final(self).inv(),
            final(self).pos == old(self).pos,
            final(self).grew(*old(self)),
            final(self).stack == old(self).stack,
            r matches Ok(x) ==> final(self).doc.has(x),
            old(self).body matches Some(b) ==> r == Ok::<NodeId, XmlError>(b) && *final(self) == *old(self),
            r matches Ok(x) ==> final(self).body == Some(x),
            old(self).body is None ==> (r is Ok <==> old(self).doc.nodes().len() + (if old(self).html is None { 1int } else { 0int }) < MAX_HTML_NODES),
            old(self).body is None ==> (r matches Ok(x) ==> (final(self).html matches Some(h)
                && final(self).doc.nodes()[x.0 as int].parent == Some(h)
                && final(self).doc.nodes()[x.0 as int].kind == NodeKind::Element
                && final(self).doc.nodes()[x.0 as int].name@ == "body"@)),
            final(self).head == old(self).head,
    {
        match self.body {
            Some(b) => Ok(b),
            None => {
                let html = self.ensure_html()?;
                let b = self.new_element("body")?;
                self.doc.xml_add_child(html, b);
                self.body = Some(b);
                Ok(b)
            },
        }
    }

    /// Where text goes when no element is open.
    fn ensure_html_body(&mut self) -> (r: Result<NodeId, XmlError>)
        requires
            old(self).inv(),
        ensures
            r matches Err(e) ==> e.code == crate::error::XML_ERR_NO_MEMORY,
            final(self).inv(),
            final(self).pos == old(self).pos,
            final(self).grew(*old(self)),
            final(self).stack == old(self).stack,
            r matches Ok(x) ==> final(self).doc.has(x),
    {
        if self.noimplied {
            Ok(self.parent())
        } else {
            self.ensure_body()
        }
    }

    fn parse(&mut self) -> (r: Result<(), XmlError>)
        requires
            old(self).inv(),
        ensures
            r matches Err(e) ==> e.code == crate::error::XML_ERR_NO_MEMORY,
            final(self).inv(),
            old(self).pos >= old(self).cs@.len() ==> r is Ok && *final(self) == *old(self),
    {
        if self.pos >= self.cs.len() {
            return Ok(());
        }
        while self.pos < self.cs.len()
            invariant
                self.inv(),
                old(self).pos < old(self).cs@.len(),
            decreases self.cs@.len() - self.pos,
        {
            let p0 = self.pos;
            if self.at("<!--") > 0 {
                self.parse_comment()?;
            } else if self.at("<!") > 0 {
                self.skip_decl();
            } else if self.at("</") > 0 {
                self.parse_end_tag();
            } else if self.cs[self.pos] == '<' {
                self.parse_start_tag()?;
            } else {
                self.parse_text()?;
            }
            if self.pos <= p0 {
                self.pos = p0 + 1;
            }
        }
        Ok(())
    }

    fn parse_comment(&mut self) -> (r: Result<(), XmlError>)
        requires
            old(self).inv(),
        ensures
            r matches Err(e) ==> e.code == crate::error::XML_ERR_NO_MEMORY,
            final(self).inv(),
            final(self).grew(*old(self)),
            ({
                let cs = old(self).cs@;
                let start = if cs.len() - old(self).pos >= 4 { old(self).pos + 4 } else { cs.len() as int };
                if exists|k: int| start <= k && #[trigger] chars_at(cs, k, "-->"@) {
                    let k = choose|k: int| start <= k && #[trigger] chars_at(cs, k, "-->"@)
                        && forall|j: int| start <= j < k ==> !#[trigger] chars_at(cs, j, "-->"@);
                    &&& final(self).pos == k + "-->"@.len()
                    &&& (r is Ok <==> old(self).doc.nodes().len() < MAX_HTML_NODES)
                    &&& (r is Ok ==> ({
                        let id = old(self).doc.nodes().len() as int;
                        &&& final(self).doc.nodes().len() == id + 1
                        &&& final(self).doc.nodes()[id].kind == NodeKind::Comment
                        &&& final(self).doc.nodes()[id].content@ == cs.subrange(start, k)
                    }))
                } else {
                    &&& r is Ok
                    &&& final(self).pos == cs.len()
                    &&& final(self).doc == old(self).doc
                }
            }),
    {
        let start = if self.cs.len() - self.pos >= 4 { self.pos + 4 } else { self.cs.len() };
        match self.find(start, "-->") {
            Some((end, after)) => {
                let body = self.text(start, end);
                self.pos = after;
                self.room()?;
                let n = self.doc.alloc_node(NodeKind::Comment, String::from_str("#comment"));
                self.doc.set_content(n, body);
                let parent = self.parent_after(n);
                self.doc.xml_add_child(parent, n);
                proof {
                    assert forall|k: int| 0 <= k < self.stack@.len() implies self.doc.has(#[trigger] self.stack@[k]) by {
                        assert(old(self).doc.has(self.stack@[k]));
                    }
                }
            },
            None => {
                self.pos = self.cs.len();
            },
        }
        Ok(())
    }

    /// The open element, or the document node.
    fn parent_after(&self, n: NodeId) -> (r: NodeId)
        requires
            self.doc.wf(),
            forall|k: int| 0 <= k < self.stack@.len() ==> (#[trigger] self.stack@[k]).0 < n.0,
            self.doc.has(n),
        ensures
            self.doc.has(r),
    {
        if self.stack.len() > 0 {
            self.stack[self.stack.len() - 1]
        } else {
            NodeId::document()
        }
    }

    /// A markup declaration; only a DOCTYPE is kept.
    fn skip_decl(&mut self)
        requires
            old(self).inv(),
        ensures
            final(self).inv(),
            final(self).grew(*old(self)),
            final(self).doc.nodes() == old(self).doc.nodes(),
            final(self).doc.root() == old(self).doc.root(),
            final(self).stack == old(self).stack,
            old(self).doc.dtd is Some ==> final(self).doc.dtd == old(self).doc.dtd,
            ({
                let cs = old(self).cs@;
                let p = old(self).pos as int;
                if exists|k: int| p <= k && #[trigger] chars_at(cs, k, ">"@) {
                    let k = choose|k: int| p <= k && #[trigger] chars_at(cs, k, ">"@)
                        && forall|j: int| p <= j < k ==> !#[trigger] chars_at(cs, j, ">"@);
                    final(self).pos == k + ">"@.len()
                } else {
                    final(self).pos == cs.len()
                }
            }),
    {
        let long_enough = self.cs.len() - self.pos >= 9;
        let is_doctype = long_enough && {
            let k = self.text(self.pos + 2, self.pos + 9);
            str_eq(to_ascii_lower(k.as_str()).as_str(), "doctype")
        };
        let (body_end, next) = match self.find(self.pos, ">") {
            Some((i, e)) => (i, e),
            None => (self.cs.len(), self.cs.len()),
        };
        let tail_start = if long_enough { self.pos + 9 } else { self.cs.len() };
        if is_doctype && self.doc.dtd.is_none() && tail_start <= body_end {
            let tail = self.text(tail_start, body_end);
            self.doc.dtd = Some(parse_html_doctype(tail.as_str()));
        }
        self.pos = next;
    }

    fn parse_text(&mut self) -> (r: Result<(), XmlError>)
        requires
            old(self).inv(),
            old(self).pos < old(self).cs@.len(),
        ensures
            r matches Err(e) ==> e.code == crate::error::XML_ERR_NO_MEMORY,
            final(self).inv(),
            final(self).grew(*old(self)),
            ({
                let cs = old(self).cs@;
                let p = old(self).pos as int;
                let i = find_char(cs, p, '<');
                let t = decode_from(cs.subrange(p, i), 0);
                &&& (i == p ==> r is Ok && *final(self) == *old(self))
                &&& (i > p ==> final(self).pos == i)
                &&& (i > p && old(self).stack@.len() == 0 && (forall|k: int| 0 <= k < t.len() ==> blank_char(#[trigger] t[k]))
                    ==> r is Ok && final(self).doc == old(self).doc)
                &&& (i > p && !(old(self).stack@.len() == 0 && (forall|k: int| 0 <= k < t.len() ==> blank_char(#[trigger] t[k])))
                    && r is Ok ==> ({
                        let n = final(self).doc.nodes().len() - 1;
                        &&& final(self).doc.nodes().len() > old(self).doc.nodes().len()
                        &&& final(self).doc.nodes()[n].kind == NodeKind::Text
                        &&& final(self).doc.nodes()[n].content@ == t
                    }))
            }),
    {
        let start = self.pos;
        let mut i = self.pos;
        while i < self.cs.len() && self.cs[i] != '<'
            invariant
                start <= i <= self.cs@.len(),
                find_char(self.cs@, i as int, '<') == find_char(self.cs@, start as int, '<'),
            decreases self.cs.len() - i,
        {
            i += 1;
        }
        if i == start {
            return Ok(());
        }
        let t = decode_html_text(&self.cs.as_slice()[start..i]);
        self.pos = i;
        if self.stack.len() == 0 && all_ws(t.as_str()) {
            return Ok(());
        }
        let parent = if self.stack.len() == 0 { self.ensure_html_body()? } else { self.parent() };
        self.room()?;
        let ghost tv = t@;
        let n = self.doc.alloc_node(NodeKind::Text, String::from_str("#text"));
        self.doc.set_content(n, t);
        let ghost mid = self.doc.nodes();
        assert(mid[n.0 as int].content@ == tv && mid[n.0 as int].kind == NodeKind::Text);
        self.doc.xml_add_child(parent, n);
        proof {
            assert forall|k: int| 0 <= k < self.stack@.len() implies self.doc.has(#[trigger] self.stack@[k]) by {
            }
            assert(crate::tree::same_payload(self.doc.nodes()[n.0 as int], mid[n.0 as int]));
            assert(n.0 == self.doc.nodes().len() - 1);
        }
        Ok(())
    }

    fn skip_ws(&mut self)
        requires
            old(self).inv(),
        ensures
            final(self).inv(),
            final(self).grew(*old(self)),
            final(self).doc == old(self).doc,
            final(self).stack == old(self).stack,
            *final(self) == (HtmlParser { pos: final(self).pos, ..*old(self) }),
            final(self).pos == skip_ws_from(old(self).cs@, old(self).pos as int),
    {
        while self.pos < self.cs.len() && is_html_ws(self.cs[self.pos])
            invariant
                self.inv(),
                self.grew(*old(self)),
                self.doc == old(self).doc,
                self.stack == old(self).stack,
                *self == (HtmlParser { pos: self.pos, ..*old(self) }),
                skip_ws_from(old(self).cs@, self.pos as int) == skip_ws_from(old(self).cs@, old(self).pos as int),
            decreases self.cs@.len() - self.pos,
        {
            self.pos = self.pos + 1;
        }
    }

    /// An ASCII name: a letter, `_` or `:`, then letters, digits and `-_:.`.
    fn read_name(&mut self) -> (r: String)
        requires
            old(self).inv(),
        ensures
            final(self).inv(),
            final(self).grew(*old(self)),
            final(self).doc == old(self).doc,
            final(self).stack == old(self).stack,
            *final(self) == (HtmlParser { pos: final(self).pos, ..*old(self) }),
            final(self).pos == tag_name_end(old(self).cs@, old(self).pos as int),
            r@ == old(self).cs@.subrange(old(self).pos as int, final(self).pos as int),
    {
        let start = self.pos;
        if self.pos >= self.cs.len() {
            return String::new();
        }
        let c0 = self.cs[self.pos];
        if !(('a' <= c0 && c0 <= 'z') || ('A' <= c0 && c0 <= 'Z') || c0 == '_' || c0 == ':') {
            return String::new();
        }
        let mut i = self.pos + 1;
        while i < self.cs.len() && (is_ascii_alnum(self.cs[i]) || self.cs[i] == '-' || self.cs[i] == '_' || self.cs[i] == ':' || self.cs[i] == '.')
            invariant
                start < i <= self.cs@.len(),
                tag_chars_end(self.cs@, i as int) == tag_chars_end(self.cs@, start + 1),
            decreases self.cs.len() - i,
        {
            i += 1;
        }
        let s = self.text(start, i);
        self.pos = i;
        s
    }

    fn read_attr_value(&mut self) -> (r: String)
        requires
            old(self).inv(),
        ensures
            final(self).inv(),
            final(self).grew(*old(self)),
            final(self).doc == old(self).doc,
            final(self).stack == old(self).stack,
            *final(self) == (HtmlParser { pos: final(self).pos, ..*old(self) }),
            ({
                let cs = old(self).cs@;
                let p = old(self).pos as int;
                if p < cs.len() && (cs[p] == '"' || cs[p] == '\'') && find_char(cs, p + 1, cs[p]) < cs.len() {
                    &&& final(self).pos == find_char(cs, p + 1, cs[p]) + 1
                    &&& r@ == decode_from(cs.subrange(p + 1, find_char(cs, p + 1, cs[p])), 0)
                } else {
                    &&& final(self).pos == bare_value_end(cs, p)
                    &&& r@ == decode_from(cs.subrange(p, bare_value_end(cs, p)), 0)
                }
            }),
    {
        if self.pos < self.cs.len() && (self.cs[self.pos] == '"' || self.cs[self.pos] == '\'') {
            let q = self.cs[self.pos];
            let start = self.pos + 1;
            let mut e = start;
            while e < self.cs.len() && self.cs[e] != q
                invariant
                    start <= e <= self.cs@.len(),
                    find_char(self.cs@, e as int, q) == find_char(self.cs@, start as int, q),
                decreases self.cs.len() - e,
            {
                e += 1;
            }
            if e < self.cs.len() {
                let v = decode_html_text(&self.cs.as_slice()[start..e]);
                self.pos = e + 1;
                return v;
            }
        }
        let start = self.pos;
        let mut e = start;
        while e < self.cs.len() && !is_html_ws(self.cs[e]) && self.cs[e] != '>'
            invariant
                start <= e <= self.cs@.len(),
                bare_value_end(self.cs@, e as int) == bare_value_end(self.cs@, start as int),
            decreases self.cs.len() - e,
        {
            e += 1;
        }
        let v = decode_html_text(&self.cs.as_slice()[start..e]);
        self.pos = e;
        v
    }

    /// Pop the open elements named `name` from the top of the stack.
    fn pop_while_named(&mut self, name: &str)
        requires
            old(self).inv(),
        ensures
            final(self).inv(),
            final(self).grew(*old(self)),
            final(self).doc == old(self).doc,
            *final(self) == (HtmlParser { stack: final(self).stack, ..*old(self) }),
            final(self).stack@ == popped_named(old(self).doc, old(self).stack@, name@),
    {
        while self.stack.len() > 0 && str_eq(self.doc.name(self.stack[self.stack.len() - 1]), name)
            invariant
                self.inv(),
                self.grew(*old(self)),
                self.doc == old(self).doc,
                *self == (HtmlParser { stack: self.stack, ..*old(self) }),
                popped_named(old(self).doc, self.stack@, name@) == popped_named(old(self).doc, old(self).stack@, name@),
            decreases self.stack@.len(),
        {
            self.stack.pop();
        }
    }

    fn parse_start_tag(&mut self) -> (r: Result<(), XmlError>)
        requires
            old(self).inv(),
            old(self).pos < old(self).cs@.len(),
        ensures
            r matches Err(e) ==> e.code == crate::error::XML_ERR_NO_MEMORY,
            final(self).inv(),
            final(self).grew(*old(self)),
            ({
                let cs = old(self).cs@;
                let p1 = old(self).pos + 1;
                let nm = crate::writer::lower_chars(cs.subrange(p1, tag_name_end(cs, p1)));
                let kept = popped_named(old(self).doc, old(self).stack@, nm);
                (r is Ok && closes_same_name(nm)) ==> exists|x: NodeId| {
                    &&& #[trigger] final(self).stack@ == kept.push(x)
                    &&& kept.len() > 0 ==> final(self).doc.nodes()[x.0 as int].parent == Some(kept.last())
                        && crate::tree::node_name(old(self).doc.nodes()[kept.last().0 as int]) != nm
                }
            }),
            ({
                let cs = old(self).cs@;
                let p1 = old(self).pos + 1;
                let nm = crate::writer::lower_chars(cs.subrange(p1, tag_name_end(cs, p1)));
                let kept = popped_named(old(self).doc, old(self).stack@, "p"@);
                (r is Ok && block_element(nm) && !void_element(nm)) ==> exists|x: NodeId| {
                    &&& #[trigger] final(self).stack@ == kept.push(x)
                    &&& kept.len() > 0 ==> final(self).doc.nodes()[x.0 as int].parent == Some(kept.last())
                        && crate::tree::node_name(old(self).doc.nodes()[kept.last().0 as int]) != "p"@
                }
            }),
    {
        self.pos = self.pos + 1;
        let raw = self.read_name();
        let name = to_ascii_lower(raw.as_str());
        proof {
            reveal_strlit("p");
            reveal_strlit("li");
            reveal_strlit("tr");
            reveal_strlit("td");
            reveal_strlit("th");
        }
        assert(name@ == crate::writer::lower_chars(old(self).cs@.subrange(old(self).pos + 1,
            tag_name_end(old(self).cs@, old(self).pos + 1))));
        if name.as_str().is_empty() {
            assert("p"@.len() == 1 && "li"@.len() == 2 && "tr"@.len() == 2 && "td"@.len() == 2 && "th"@.len() == 2);
            assert(!closes_same_name(name@));
            assert(!block_element(name@)) by {
                lemma_block_names();
            }
            return Ok(());
        }
        let mut attrs: Vec<(String, String)> = Vec::new();
        loop
            invariant
                self.inv(),
                self.grew(*old(self)),
                self.doc == old(self).doc,
                self.stack == old(self).stack,
            decreases self.cs@.len() - self.pos,
        {
            self.skip_ws();
            let gt = self.at(">");
            if gt > 0 {
                self.pos = self.pos + gt;
                break;
            }
            let close = self.at("/>");
            if close > 0 {
                self.pos = self.pos + close;
                break;
            }
            if self.pos >= self.cs.len() {
                break;
            }
            let p0 = self.pos;
            let an_raw = self.read_name();
            let an = to_ascii_lower(an_raw.as_str());
            if an.as_str().len() == 0 {
                self.pos = p0 + 1;
                continue;
            }
            self.skip_ws();
            let eq = self.at("=");
            let av = if eq > 0 {
                self.pos = self.pos + eq;
                self.skip_ws();
                self.read_attr_value()
            } else {
                an.clone()
            };
            attrs.push((an, av));
            if self.pos <= p0 {
                self.pos = p0 + 1;
            }
        }
        let n = name.as_str();
        if str_eq(n, "p") || str_eq(n, "li") || str_eq(n, "tr") || str_eq(n, "td") || str_eq(n, "th") {
            self.pop_while_named(n);
        }
        if is_block_element(n) {
            self.pop_while_named("p");
        }
        let ghost kept = self.stack@;
        proof {
            lemma_popped_top(old(self).doc, old(self).stack@, n@);
            lemma_popped_top(old(self).doc, old(self).stack@, "p"@);
        }
        assert(closes_same_name(n@) ==> !void_element(n@) && (block_element(n@) <==> n@ == "p"@)
            && n@ != "html"@ && n@ != "head"@ && n@ != "body"@ && n@ != "frameset"@ && n@ != "title"@
            && n@ != "meta"@ && n@ != "link"@ && n@ != "style"@ && n@ != "base"@) by {
            lemma_closing_names();
        }
        assert(block_element(n@) ==> n@ != "html"@ && n@ != "head"@ && n@ != "body"@ && n@ != "frameset"@
            && n@ != "title"@ && n@ != "meta"@ && n@ != "link"@ && n@ != "style"@ && n@ != "base"@) by {
            lemma_block_names();
        }
        let parent = if self.noimplied {
            self.parent()
        } else if str_eq(n, "html") {
            NodeId::document()
        } else if str_eq(n, "head") || str_eq(n, "body") || str_eq(n, "frameset") {
            self.ensure_html()?
        } else if str_eq(n, "title") || str_eq(n, "meta") || str_eq(n, "link") || str_eq(n, "style") || str_eq(n, "base") {
            self.ensure_head()?
        } else if self.stack.len() > 0 {
            self.parent()
        } else {
            self.ensure_body()?
        };
        assert((closes_same_name(n@) || block_element(n@)) && kept.len() > 0 ==> parent == kept.last());
        let elem = self.new_element(n)?;
        assert(parent.0 < elem.0);
        let mut k: usize = 0;
        while k < attrs.len()
            invariant
                self.inv(),
                self.grew(*old(self)),
                self.doc.has(elem),
                self.doc.has(parent),
                self.stack@ == kept,
                parent.0 < elem.0,
            decreases attrs.len() - k,
        {
            self.room()?;
            let ghost d0 = self.doc;
            self.doc.xml_set_prop(elem, attrs[k].0.as_str(), attrs[k].1.as_str());
            proof {
                assert forall|x: int| 0 <= x < self.stack@.len() implies self.doc.has(#[trigger] self.stack@[x]) by {
                    assert(d0.has(self.stack@[x]));
                }
            }
            k += 1;
        }
        if str_eq(n, "html") {
            self.doc.xml_doc_set_root_element(elem);
            self.html = Some(elem);
        } else {
            self.doc.xml_add_child(parent, elem);
        }
        if str_eq(n, "head") {
            self.head = Some(elem);
        }
        if str_eq(n, "body") || str_eq(n, "frameset") {
            self.body = Some(elem);
        }
        if !is_void(n) {
            self.stack.push(elem);
        }
        Ok(())
    }

    fn parse_end_tag(&mut self)
        requires
            old(self).inv(),
        ensures
            final(self).inv(),
            final(self).grew(*old(self)),
            final(self).doc == old(self).doc,
            ({
                let cs = old(self).cs@;
                let p1 = if cs.len() - old(self).pos >= 2 { old(self).pos + 2 } else { cs.len() as int };
                let e = tag_name_end(cs, p1);
                let nm = crate::writer::lower_chars(cs.subrange(p1, e));
                let p2 = skip_ws_from(cs, e);
                let st = old(self).stack@;
                &&& final(self).pos == (if chars_at(cs, p2, ">"@) { p2 + 1 } else { p2 })
                &&& (if exists|k: int| 0 <= k < st.len() && crate::tree::node_name(old(self).doc.nodes()[(#[trigger] st[k]).0 as int]) == nm {
                    let k = choose|k: int| 0 <= k < st.len() && crate::tree::node_name(old(self).doc.nodes()[(#[trigger] st[k]).0 as int]) == nm
                        && forall|j: int| k < j < st.len() ==> crate::tree::node_name(old(self).doc.nodes()[(#[trigger] st[j]).0 as int]) != nm;
                    final(self).stack@ == st.take(k)
                } else {
                    final(self).stack@ == st
                })
            }),
    {
        proof {
            reveal_strlit(">");
        }
        self.pos = if self.cs.len() - self.pos >= 2 { self.pos + 2 } else { self.cs.len() };
        let raw = self.read_name();
        let name = to_ascii_lower(raw.as_str());
        self.skip_ws();
        let gt = self.at(">");
        if gt > 0 {
            self.pos = self.pos + gt;
        }
        let ghost p3 = self.pos;
        let ghost nm0 = {
            let cs = old(self).cs@;
            let p1 = if cs.len() - old(self).pos >= 2 { old(self).pos + 2 } else { cs.len() as int };
            crate::writer::lower_chars(cs.subrange(p1, tag_name_end(cs, p1)))
        };
        assert(name@ == nm0);
        let ghost pos_spec = {
            let cs = old(self).cs@;
            let p1 = if cs.len() - old(self).pos >= 2 { old(self).pos + 2 } else { cs.len() as int };
            let p2 = skip_ws_from(cs, tag_name_end(cs, p1));
            if chars_at(cs, p2, ">"@) { p2 + 1 } else { p2 }
        };
        assert(p3 == pos_spec);
        let mut k = self.stack.len();
        while k > 0
            invariant
                self.inv(),
                self.grew(*old(self)),
                k <= self.stack@.len(),
                self.stack@ == old(self).stack@,
                self.doc == old(self).doc,
                self.pos == p3,
                p3 == pos_spec,
                name@ == nm0,
                pos_spec == ({
                    let cs = old(self).cs@;
                    let p1 = if cs.len() - old(self).pos >= 2 { old(self).pos + 2 } else { cs.len() as int };
                    let p2 = skip_ws_from(cs, tag_name_end(cs, p1));
                    if chars_at(cs, p2, ">"@) { p2 + 1 } else { p2 }
                }),
                nm0 == ({
                    let cs = old(self).cs@;
                    let p1 = if cs.len() - old(self).pos >= 2 { old(self).pos + 2 } else { cs.len() as int };
                    crate::writer::lower_chars(cs.subrange(p1, tag_name_end(cs, p1)))
                }),
                forall|j: int| k <= j < self.stack@.len() ==> crate::tree::node_name(self.doc.nodes()[(#[trigger] self.stack@[j]).0 as int]) != name@,
            decreases k,
        {
            k -= 1;
            if str_eq(self.doc.name(self.stack[k]), name.as_str()) {
                assert(crate::tree::node_name(old(self).doc.nodes()[old(self).stack@[k as int].0 as int]) == name@);
                self.stack.truncate(k);
                proof {
                    let st = old(self).stack@;
                    let d = old(self).doc;
                    let ki = k as int;
                    assert(0 <= ki < st.len() && crate::tree::node_name(d.nodes()[st[ki].0 as int]) == nm0
                        && forall|j: int| ki < j < st.len() ==> crate::tree::node_name(d.nodes()[(#[trigger] st[j]).0 as int]) != nm0);
                    let kk = choose|kk: int| 0 <= kk < st.len() && crate::tree::node_name(d.nodes()[(#[trigger] st[kk]).0 as int]) == nm0
                        && forall|j: int| kk < j < st.len() ==> crate::tree::node_name(d.nodes()[(#[trigger] st[j]).0 as int]) != nm0;
                    if kk < ki {
                        assert(crate::tree::node_name(d.nodes()[st[ki].0 as int]) != nm0);
                    } else if kk > ki {
                        assert(crate::tree::node_name(d.nodes()[st[kk].0 as int]) != nm0);
                    }
                    assert(kk == ki);
                    assert(self.stack@ =~= st.take(ki));
                }
                return;
            }
        }
    }
}

/// The text is whitespace only.
fn all_ws(s: &str) -> (r: bool)
    ensures
        r == forall|k: int| 0 <= k < s@.len() ==> blank_char(#[trigger] s@[k]),
{
    let cs = chars_of(s);
    let mut i: usize = 0;
    while i < cs.len()
        invariant
            i <= cs@.len(),
            cs@ == s@,
            forall|k: int| 0 <= k < i ==> blank_char(#[trigger] s@[k]),
        decreases cs.len() - i,
    {
        if !is_html_ws(cs[i]) && cs[i] != '\u{a0}' && cs[i] != '\u{85}' {
            return false;
        }
        i += 1;
    }
    true
}

/// A quoted literal at `i` of `cs`, after whitespace: its text and the
/// position after it.
fn doctype_literal(cs: &Vec<char>, i: usize) -> (r: Option<(String, usize)>)
    requires
        i <= cs@.len(),
    ensures
        r matches Some((_, e)) ==> i < e <= cs@.len(),
        match literal_at(cs@, i as int) {
            Some((t, e)) => r matches Some((v, f)) && v@ == t && f as int == e,
            None => r is None,
        },
{
    let mut j = i;
    while j < cs.len() && is_html_ws(cs[j])
        invariant
            i <= j <= cs@.len(),
            skip_ws_from(cs@, i as int) == skip_ws_from(cs@, j as int),
        decreases cs.len() - j,
    {
        j += 1;
    }
    if j >= cs.len() || (cs[j] != '"' && cs[j] != '\'') {
        return None;
    }
    let q = cs[j];
    let mut e = j + 1;
    let mut v = String::new();
    while e < cs.len() && cs[e] != q
        invariant
            j < e <= cs@.len(),
            j < cs@.len(),
            q == cs@[j as int],
            v@ == cs@.subrange(j + 1, e as int),
            find_char(cs@, j + 1, q) == find_char(cs@, e as int, q),
        decreases cs.len() - e,
    {
        push_char(&mut v, cs[e]);
        e += 1;
        assert(v@ =~= cs@.subrange(j + 1, e as int));
    }
    if e >= cs.len() {
        return None;
    }
    Some((v, e + 1))
}

/// Split the body of an HTML `<!DOCTYPE ...>` into name, public and system
/// identifiers; anything else degrades to a bare name.
pub fn parse_html_doctype(body: &str) -> (r: XmlDtd)
    ensures
        (crate::tree::opt_string_view(r.name), crate::tree::opt_string_view(r.public_id), crate::tree::opt_string_view(r.system_id))
            == doctype_parts(body@),
        r.int_subset is None,
        r.entities@.len() == 0 && r.parameter_entities@.len() == 0 && r.elements@.len() == 0 && r.attributes@.len() == 0,
        r.notations@.len() == 0 && r.unparsed_entities@.len() == 0 && r.ndata_notations@.len() == 0,
        r.duplicate_elements@.len() == 0 && !r.has_parameter_entity_refs,
{
    let mut dtd = XmlDtd::new();
    let cs = chars_of(body);
    let mut i: usize = 0;
    while i < cs.len() && is_html_ws(cs[i])
        invariant
            cs@ == body@,
            i <= cs@.len(),
            skip_ws_from(cs@, 0) == skip_ws_from(cs@, i as int),
        decreases cs.len() - i,
    {
        i += 1;
    }
    let start = i;
    let mut name = String::new();
    while i < cs.len() && !is_html_ws(cs[i])
        invariant
            cs@ == body@,
            start <= i <= cs@.len(),
            name@ == cs@.subrange(start as int, i as int),
            word_end(cs@, start as int) == word_end(cs@, i as int),
        decreases cs.len() - i,
    {
        push_char(&mut name, cs[i]);
        i += 1;
        assert(name@ =~= cs@.subrange(start as int, i as int));
    }
    if i > start {
        dtd.name = Some(name);
    }
    let i1 = i;
    while i < cs.len() && is_html_ws(cs[i])
        invariant
            cs@ == body@,
            i1 <= i <= cs@.len(),
            skip_ws_from(cs@, i1 as int) == skip_ws_from(cs@, i as int),
        decreases cs.len() - i,
    {
        i += 1;
    }
    if cs.len() - i >= 6 {
        let mut kw = String::new();
        let mut k = i;
        let end = i + 6;
        while k < end
            invariant
                i <= k <= end <= cs@.len(),
                end == i + 6,
                kw@ == cs@.subrange(i as int, k as int),
            decreases end - k,
        {
            push_char(&mut kw, cs[k]);
            k += 1;
            assert(kw@ =~= cs@.subrange(i as int, k as int));
        }
        let kwl = to_ascii_lower(kw.as_str());
        if str_eq(kwl.as_str(), "public") {
            match doctype_literal(&cs, i + 6) {
                Some((p, e)) => {
                    dtd.public_id = Some(p);
                    match doctype_literal(&cs, e) {
                        Some((s, _)) => {
                            dtd.system_id = Some(s);
                        },
                        None => {},
                    }
                },
                None => {},
            }
        } else if str_eq(kwl.as_str(), "system") {
            match doctype_literal(&cs, i + 6) {
                Some((s, _)) => {
                    dtd.system_id = Some(s);
                },
                None => {},
            }
        }
    }
    dtd
}

fn html_parse_utf8(bytes: &[u8], options: i32) -> (r: Result<XmlDoc, XmlError>)
    ensures
        bytes@.len() == 0 ==> r is Ok,
        r matches Err(e) ==> e.code == crate::error::XML_ERR_NO_MEMORY,
        r matches Ok(d) ==> d.wf(),
        r matches Ok(d) ==> d.nodes()[0].kind == NodeKind::HtmlDocument && crate::tree::opt_string_view(d.encoding) == Some("HTML"@),
{
    proof {
        if bytes@.len() == 0 {
            assert(vstd::utf8::valid_utf8(bytes@));
            assert(vstd::utf8::decode_utf8(bytes@) =~= Seq::<char>::empty());
        }
    }
    let text = crate::sax::utf8_lossy(bytes);
    let mut doc = XmlDoc::xml_new_doc(Some("1.0"));
    doc.encoding = Some(String::from_str("HTML"));
    doc.set_kind(NodeId::document(), NodeKind::HtmlDocument);
    let cs = chars_of(text.as_str());
    if cs.len() == usize::MAX {
        return Err(XmlError::new(crate::error::XML_ERR_NO_MEMORY, String::from_str("input too large"), 0, 0));
    }
    let mut p = HtmlParser {
        cs,
        pos: 0,
        doc,
        stack: Vec::new(),
        noimplied: (options & HTML_PARSE_NOIMPLIED) != 0,
        html: None,
        head: None,
        body: None,
    };
    p.parse()?;
    Ok(p.doc)
}

/// `htmlReadMemory`.
pub fn html_read_memory(buffer: &[u8], url: Option<&str>, encoding: Option<&str>, options: i32) -> (r: Result<XmlDoc, XmlError>)
    ensures
        buffer@.len() == 0 && crate::encoding::passes_through(
            crate::encoding::chosen_encoding(buffer@, crate::tree::opt_str_view(encoding)),
        ) ==> r is Ok,
        r matches Err(e) ==> e.code == crate::error::XML_ERR_NO_MEMORY
            || crate::encoding::conversion_fails(buffer@, crate::tree::opt_str_view(encoding)),
        r matches Ok(d) ==> d.wf(),
        r matches Ok(d) ==> d.nodes()[0].kind == NodeKind::HtmlDocument && crate::tree::opt_string_view(d.encoding) == Some("HTML"@),
{
    let (utf8, _) = crate::encoding::xml_convert_to_utf8(buffer, encoding)?;
    html_parse_utf8(utf8.as_slice(), options)
}

/// `htmlReadDoc`.
pub fn html_read_doc(cur: &str, url: Option<&str>, encoding: Option<&str>, options: i32) -> (r: Result<XmlDoc, XmlError>)
    ensures
        r matches Ok(d) ==> d.wf(),
        r matches Ok(d) ==> d.nodes()[0].kind == NodeKind::HtmlDocument && crate::tree::opt_string_view(d.encoding) == Some("HTML"@),
{
    html_read_memory(cur.as_bytes(), url, encoding, options)
}

} // verus!
