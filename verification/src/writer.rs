//! Serialization (`xmlsave`) and the in-memory `xmlTextWriter`.

use vstd::prelude::*;
use crate::tree::{NodeId, NodeKind, XmlDoc, XmlDtd};
use crate::util::{push_char, str_eq, char_from_u32};

verus! {

/// libxml2 `xmlSaveOption` bits.
pub const XML_SAVE_FORMAT: i32 = 1;
pub const XML_SAVE_NO_DECL: i32 = 2;
pub const XML_SAVE_NO_EMPTY: i32 = 4;
pub const XML_SAVE_NO_XHTML: i32 = 8;
pub const XML_SAVE_XHTML: i32 = 16;
pub const XML_SAVE_AS_XML: i32 = 32;
pub const XML_SAVE_AS_HTML: i32 = 64;
pub const XML_SAVE_WSNONSIG: i32 = 128;
pub const XML_SAVE_EMPTY: i32 = 256;
pub const XML_SAVE_NO_INDENT: i32 = 512;
pub const XML_SAVE_INDENT: i32 = 1024;

/// Serialize by HTML rules; set from the document kind, never by a caller.
pub const SAVE_AS_HTML: i32 = 536870912;

/// Indentation never grows past this many columns.
pub const MAX_INDENT: usize = 60;

/// An uppercase hexadecimal digit.
pub open spec fn hex_digit_char(d: nat) -> char {
    if d < 10 {
        (48 + d) as char
    } else {
        (55 + d) as char
    }
}

/// Uppercase hexadecimal notation of `n`.
pub open spec fn hex_chars(n: nat) -> Seq<char>
    decreases n,
{
    if n < 16 {
        seq![hex_digit_char(n)]
    } else {
        hex_chars(n / 16).push(hex_digit_char(n % 16))
    }
}

/// A hexadecimal character reference.
pub open spec fn char_ref_chars(v: nat) -> Seq<char> {
    "&#x"@ + hex_chars(v) + seq![';']
}

/// How one character is written: markup characters as references, in
/// attributes also quotes and whitespace other than space, non-ASCII as a
/// reference when the document has no declared encoding, and C0 controls
/// (illegal in XML) as U+FFFD except in HTML, which keeps them.
pub open spec fn esc_char(c: char, attr: bool, non_ascii: bool, html: bool) -> Seq<char> {
    let u = c as u32;
    if non_ascii && u >= 0x80 {
        char_ref_chars(u as nat)
    } else if c == '&' {
        "&amp;"@
    } else if c == '<' {
        "&lt;"@
    } else if c == '>' {
        "&gt;"@
    } else if c == '"' && attr {
        "&quot;"@
    } else if c == '\r' {
        "&#13;"@
    } else if c == '\t' && attr {
        "&#9;"@
    } else if c == '\n' && attr {
        "&#10;"@
    } else if u < 0x20 && c != '\t' && c != '\n' {
        if html {
            seq![c]
        } else {
            char_ref_chars(0xfffd)
        }
    } else {
        seq![c]
    }
}

/// The escaped form of a text.
pub open spec fn escaped(s: Seq<char>, attr: bool, non_ascii: bool, html: bool) -> Seq<char>
    decreases s.len(),
{
    if s.len() == 0 {
        seq![]
    } else {
        escaped(s.drop_last(), attr, non_ascii, html) + esc_char(s.last(), attr, non_ascii, html)
    }
}

pub(crate) fn push_hex(out: &mut String, n: u32)
    ensures
        final(out)@ == old(out)@ + hex_chars(n as nat),
    decreases n,
{
    if n >= 16 {
        push_hex(out, n / 16);
    }
    let d = n % 16;
    let c: char = if d < 10 { (48u8 + d as u8) as char } else { (55u8 + d as u8) as char };
    push_char(out, c);
    proof {
        if n >= 16 {
            assert(old(out)@ + hex_chars(n as nat) =~= old(out)@ + hex_chars((n / 16) as nat) + seq![hex_digit_char((n % 16) as nat)]);
        } else {
            assert(old(out)@ + hex_chars(n as nat) =~= old(out)@.push(hex_digit_char(n as nat)));
        }
    }
}

fn push_char_ref(out: &mut String, v: u32)
    ensures
        final(out)@ == old(out)@ + char_ref_chars(v as nat),
{
    out.append("&#x");
    push_hex(out, v);
    push_char(out, ';');
    assert(out@ =~= old(out)@ + char_ref_chars(v as nat));
}

fn push_esc_char(out: &mut String, c: char, attr: bool, non_ascii: bool, html: bool)
    ensures
        final(out)@ == old(out)@ + esc_char(c, attr, non_ascii, html),
{
    let u = c as u32;
    if non_ascii && u >= 0x80 {
        push_char_ref(out, u);
    } else if c == '&' {
        out.append("&amp;");
    } else if c == '<' {
        out.append("&lt;");
    } else if c == '>' {
        out.append("&gt;");
    } else if c == '"' && attr {
        out.append("&quot;");
    } else if c == '\r' {
        out.append("&#13;");
    } else if c == '\t' && attr {
        out.append("&#9;");
    } else if c == '\n' && attr {
        out.append("&#10;");
    } else if u < 0x20 && c != '\t' && c != '\n' {
        if html {
            push_char(out, c);
            assert(out@ =~= old(out)@ + seq![c]);
        } else {
            push_char_ref(out, 0xfffd);
        }
    } else {
        push_char(out, c);
        assert(out@ =~= old(out)@ + seq![c]);
    }
}

/// Append the escaped form of `s`.
pub fn push_escaped(out: &mut String, s: &str, attr: bool, non_ascii: bool, html: bool)
    ensures
        final(out)@ == old(out)@ + escaped(s@, attr, non_ascii, html),
{
    for c in it: s.chars()
        invariant
            it.seq() == s@,
            out@ == old(out)@ + escaped(s@.take(it.index() as int), attr, non_ascii, html),
    {
        proof {
            assert(s@.take(it.index() + 1).drop_last() =~= s@.take(it.index() as int));
        }
        push_esc_char(out, c, attr, non_ascii, html);
    }
    assert(s@.take(s@.len() as int) =~= s@);
}


/// How a serialization is to be done.
struct SaveCfg {
    opts: i32,
    html: bool,
    xhtml: bool,
    non_ascii: bool,
    unit: String,
}

/// How a serialization is to be done, as contracts see it: the option bits,
/// HTML rules, XHTML empty tags, character references for non-ASCII, and
/// the indentation unit.
pub struct SaveMode {
    pub opts: i32,
    pub html: bool,
    pub xhtml: bool,
    pub non_ascii: bool,
    pub unit: Seq<char>,
}

spec fn mode_of(cfg: SaveCfg) -> SaveMode {
    SaveMode { opts: cfg.opts, html: cfg.html, xhtml: cfg.xhtml, non_ascii: cfg.non_ascii, unit: cfg.unit@ }
}

/// `n` spaces.
pub open spec fn spaces(n: nat) -> Seq<char> {
    Seq::new(n, |i: int| ' ')
}

/// Indentation: `left` more units of `ul` bytes each after `written`
/// bytes, never past `MAX_INDENT` bytes, padded with spaces where a whole
/// unit no longer fits.
pub open spec fn indent_from(unit: Seq<char>, ul: nat, left: nat, written: nat) -> Seq<char>
    decreases left,
{
    if left == 0 || ul == 0 || written >= MAX_INDENT {
        seq![]
    } else if MAX_INDENT - written < ul {
        spaces((MAX_INDENT - written) as nat)
    } else {
        unit + indent_from(unit, ul, (left - 1) as nat, written + ul)
    }
}

/// `level` units of indentation.
pub open spec fn indent_text(unit: Seq<char>, level: nat) -> Seq<char> {
    indent_from(unit, (vstd::utf8::encode_utf8(unit).len() as usize) as nat, level, 0)
}

/// `prefix:name`, or the name alone when the prefix is absent or empty.
pub open spec fn qname_text(n: crate::tree::Node) -> Seq<char> {
    match n.prefix {
        Some(p) => if p@.len() > 0 { p@ + seq![':'] + crate::tree::node_name(n) } else { crate::tree::node_name(n) },
        None => crate::tree::node_name(n),
    }
}

/// The namespace declarations of a start tag.
pub open spec fn ns_defs_text(defs: Seq<(Option<String>, String)>, non_ascii: bool) -> Seq<char>
    decreases defs.len(),
{
    if defs.len() == 0 {
        seq![]
    } else {
        ns_defs_text(defs.drop_last(), non_ascii) + ns_def_text(defs.last(), non_ascii)
    }
}

/// One namespace declaration of a start tag.
pub open spec fn ns_def_text(def: (Option<String>, String), non_ascii: bool) -> Seq<char> {
    " xmlns"@ + (match def.0 {
        Some(p) => seq![':'] + p@,
        None => seq![],
    }) + "=\""@ + escaped(def.1@, true, non_ascii, false) + seq!['"']
}

fn push_ns_def(out: &mut String, def: &(Option<String>, String), non_ascii: bool)
    ensures
        final(out)@ == old(out)@ + ns_def_text(*def, non_ascii),
{
    let ghost o1 = out@;
    out.append(" xmlns");
    match &def.0 {
        Some(p) => {
            push_char(out, ':');
            out.append(p.as_str());
        },
        None => {},
    }
    out.append("=\"");
    push_escaped(out, def.1.as_str(), true, non_ascii, false);
    push_char(out, '"');
    assert(out@ =~= o1 + ns_def_text(*def, non_ascii));
}

/// The attributes `attrs` of a start tag.
pub open spec fn attrs_text(doc: XmlDoc, attrs: Seq<NodeId>, non_ascii: bool, html: bool) -> Seq<char>
    decreases attrs.len(),
{
    if attrs.len() == 0 {
        seq![]
    } else {
        let n = doc.nodes()[attrs.last().0 as int];
        attrs_text(doc, attrs.drop_last(), non_ascii, html) + seq![' '] + qname_text(n) + "=\""@
            + escaped(n.content@, true, non_ascii, html) + seq!['"']
    }
}

/// Some of `kids` is text or CDATA: the element has mixed content and its
/// children are not indented.
pub open spec fn has_text_kid(doc: XmlDoc, kids: Seq<NodeId>) -> bool {
    exists|i: int| 0 <= i < kids.len() && (#[trigger] doc.nodes()[kids[i].0 as int].kind == NodeKind::Text
        || doc.nodes()[kids[i].0 as int].kind == NodeKind::CData)
}

/// ASCII letters lowered.
pub open spec fn lower_chars(s: Seq<char>) -> Seq<char> {
    s.map_values(|c: char| if 'A' <= c && c <= 'Z' { ((c as u32) + 32) as char } else { c })
}

/// HTML elements written without an end tag, in any letter case.
pub open spec fn save_void(n: Seq<char>) -> bool {
    let l = lower_chars(n);
    l == "area"@ || l == "base"@ || l == "basefont"@ || l == "br"@ || l == "col"@ || l == "embed"@
        || l == "frame"@ || l == "hr"@ || l == "img"@ || l == "input"@ || l == "isindex"@ || l == "link"@
        || l == "meta"@ || l == "param"@ || l == "source"@ || l == "track"@ || l == "wbr"@
}

/// CDATA sections for `s[start..]`, scanning from `i`: a section ends
/// before each `]]>`, which the next one starts with its `>`.
pub open spec fn cdata_from(s: Seq<char>, start: int, i: int) -> Seq<char>
    decreases s.len() - i,
{
    if i < 0 || i + 3 > s.len() {
        if start < s.len() { "<![CDATA["@ + s.subrange(start, s.len() as int) + "]]>"@ } else { seq![] }
    } else if s[i] == ']' && s[i + 1] == ']' && s[i + 2] == '>' {
        "<![CDATA["@ + s.subrange(start, i + 2) + "]]>"@ + cdata_from(s, i + 2, i + 3)
    } else {
        cdata_from(s, start, i + 1)
    }
}

/// The CDATA sections that hold `s`.
pub open spec fn cdata_text(s: Seq<char>) -> Seq<char> {
    if s.len() == 0 { "<![CDATA[]]>"@ } else { cdata_from(s, 0, 0) }
}

/// What closes an element with no children.
pub open spec fn empty_elem_text(m: SaveMode, q: Seq<char>) -> Seq<char> {
    if m.xhtml && !m.html && m.opts & XML_SAVE_NO_EMPTY == 0 {
        " />"@
    } else if m.opts & XML_SAVE_NO_EMPTY == 0 && !m.html {
        "/>"@
    } else {
        "></"@ + q + seq!['>']
    }
}

/// The indentation level of children.
pub open spec fn next_level(l: nat) -> nat {
    if l < 1000000000 { l + 1 } else { l }
}

/// The serialization of node `id` at indentation `level`, indenting its
/// children when `format` allows; `budget` bounds how deep it goes.
pub open spec fn node_text(doc: XmlDoc, m: SaveMode, id: NodeId, level: nat, format: bool, budget: nat) -> Seq<char>
    decreases budget, 0nat, 0nat,
{
    if budget == 0 {
        seq![]
    } else {
        let n = doc.nodes()[id.0 as int];
        match n.kind {
            NodeKind::Element => {
                let start = start_text(doc, m, id);
                if m.html && save_void(crate::tree::node_name(n)) {
                    start + seq!['>']
                } else if n.first_child is None {
                    start + empty_elem_text(m, qname_text(n))
                } else {
                    let kids = crate::valid::kids_of(doc, id);
                    let cf = format && !has_text_kid(doc, kids);
                    start + seq!['>'] + (if cf { seq!['\n'] } else { seq![] })
                        + kids_text(doc, m, kids, next_level(level), cf, (budget - 1) as nat)
                        + (if cf { indent_text(m.unit, level) } else { seq![] }) + "</"@ + qname_text(n) + seq!['>']
                }
            },
            NodeKind::Text => escaped(n.content@, false, m.non_ascii, m.html),
            NodeKind::CData => cdata_text(n.content@),
            NodeKind::Comment => "<!--"@ + n.content@ + "-->"@,
            NodeKind::Pi => "<?"@ + crate::tree::node_name(n) + (if n.content@.len() > 0 { seq![' '] + n.content@ } else { seq![] }) + "?>"@,
            _ => seq![],
        }
    }
}

/// The serialization of the children `kids`, each on a line of its own and
/// indented to `level` when `cf`.
pub open spec fn kids_text(doc: XmlDoc, m: SaveMode, kids: Seq<NodeId>, level: nat, cf: bool, budget: nat) -> Seq<char>
    decreases budget, 1nat, kids.len(),
{
    if kids.len() == 0 {
        seq![]
    } else {
        (if cf { indent_text(m.unit, level) } else { seq![] }) + node_text(doc, m, kids[0], level, cf, budget)
            + (if cf { seq!['\n'] } else { seq![] }) + kids_text(doc, m, kids.drop_first(), level, cf, budget)
    }
}

/// One unit of serialization work, in place of recursion into children.
enum Step {
    /// Emit the node at this level with this budget, scheduling its
    /// children and end tag.
    Open(NodeId, usize, bool, usize),
    /// Emit the end tag of an element whose children are done.
    Close(NodeId, usize, bool),
    Indent(usize),
    Newline,
}

/// What a scheduled step writes.
spec fn step_text(doc: XmlDoc, m: SaveMode, s: Step) -> Seq<char> {
    match s {
        Step::Open(n, l, f, b) => node_text(doc, m, n, l as nat, f, b as nat),
        Step::Close(e, l, cf) => (if cf { indent_text(m.unit, l as nat) } else { seq![] }) + "</"@
            + qname_text(doc.nodes()[e.0 as int]) + seq!['>'],
        Step::Indent(l) => indent_text(m.unit, l as nat),
        Step::Newline => seq!['\n'],
    }
}

/// What the scheduled steps write, the last scheduled first.
spec fn pending(doc: XmlDoc, m: SaveMode, s: Seq<Step>) -> Seq<char>
    decreases s.len(),
{
    if s.len() == 0 {
        seq![]
    } else {
        step_text(doc, m, s.last()) + pending(doc, m, s.drop_last())
    }
}

/// A bound on the steps the work at `id` still takes.
spec fn work(doc: XmlDoc, id: NodeId, budget: nat) -> nat
    decreases budget, 0nat, 0nat,
{
    if budget == 0 { 1 } else { 2 + kids_work(doc, crate::valid::kids_of(doc, id), (budget - 1) as nat) }
}

spec fn kids_work(doc: XmlDoc, kids: Seq<NodeId>, budget: nat) -> nat
    decreases budget, 1nat, kids.len(),
{
    if kids.len() == 0 { 0 } else { 3 + work(doc, kids[0], budget) + kids_work(doc, kids.drop_first(), budget) }
}

spec fn step_work(doc: XmlDoc, s: Step) -> nat {
    match s {
        Step::Open(n, _, _, b) => work(doc, n, b as nat),
        _ => 1,
    }
}

spec fn stack_work(doc: XmlDoc, s: Seq<Step>) -> nat
    decreases s.len(),
{
    if s.len() == 0 { 0 } else { stack_work(doc, s.drop_last()) + step_work(doc, s.last()) }
}

/// A scheduled step names nodes of the document.
spec fn step_ok(s: Step, doc: XmlDoc) -> bool {
    match s {
        Step::Open(n, _, _, _) => doc.has(n),
        Step::Close(n, _, _) => doc.has(n),
        _ => true,
    }
}

/// HTML elements that take no end tag.
fn is_void(name: &str) -> (r: bool)
    ensures
        r == save_void(name@),
{
    let cs = chars_of(name);
    let mut l = String::new();
    let mut i: usize = 0;
    while i < cs.len()
        invariant
            cs@ == name@,
            i <= cs@.len(),
            l@ == lower_chars(name@.take(i as int)),
        decreases cs.len() - i,
    {
        let c = cs[i];
        let d = if 'A' <= c && c <= 'Z' { char_from_u32((c as u32) + 32) } else { Some(c) };
        match d {
            Some(d) => push_char(&mut l, d),
            None => {},
        }
        proof {
            assert(name@.take(i + 1) =~= name@.take(i as int).push(c));
        }
        assert(l@ =~= lower_chars(name@.take(i + 1)));
        i += 1;
    }
    assert(name@.take(i as int) =~= name@);
    let s = l.as_str();
    str_eq(s, "area") || str_eq(s, "base") || str_eq(s, "basefont") || str_eq(s, "br") || str_eq(s, "col")
        || str_eq(s, "embed") || str_eq(s, "frame") || str_eq(s, "hr") || str_eq(s, "img") || str_eq(s, "input")
        || str_eq(s, "isindex") || str_eq(s, "link") || str_eq(s, "meta") || str_eq(s, "param")
        || str_eq(s, "source") || str_eq(s, "track") || str_eq(s, "wbr")
}

/// The characters of `s`.
fn chars_of(s: &str) -> (r: Vec<char>)
    ensures
        r@ == s@,
{
    let mut v: Vec<char> = Vec::new();
    for c in it: s.chars()
        invariant
            it.seq() == s@,
            v@ == s@.take(it.index() as int),
    {
        proof {
            assert(s@.take(it.index() + 1) =~= s@.take(it.index() as int).push(c));
        }
        v.push(c);
    }
    assert(s@.take(s@.len() as int) =~= s@);
    v
}

/// Append `cs[from..to]`.
fn push_range(out: &mut String, cs: &Vec<char>, from: usize, to: usize)
    requires
        from <= to <= cs@.len(),
    ensures
        final(out)@ == old(out)@ + cs@.subrange(from as int, to as int),
{
    let mut k = from;
    while k < to
        invariant
            from <= k <= to <= cs@.len(),
            out@ == old(out)@ + cs@.subrange(from as int, k as int),
        decreases to - k,
    {
        push_char(out, cs[k]);
        k += 1;
        assert(out@ =~= old(out)@ + cs@.subrange(from as int, k as int));
    }
}

/// `level` indentation units, never more than `MAX_INDENT` bytes.
fn push_indent(out: &mut String, unit: &str, level: usize)
    ensures
        final(out)@ == old(out)@ + indent_text(unit@, level as nat),
{
    let ul = unit.len();
    let mut written: usize = 0;
    let mut k: usize = 0;
    while k < level
        invariant
            k <= level,
            written <= MAX_INDENT,
            ul == (vstd::utf8::encode_utf8(unit@).len() as usize),
            out@ + indent_from(unit@, ul as nat, (level - k) as nat, written as nat) == old(out)@ + indent_text(unit@, level as nat),
        decreases level - k,
    {
        if ul == 0 || written >= MAX_INDENT {
            assert(out@ =~= out@ + indent_from(unit@, ul as nat, (level - k) as nat, written as nat));
            return;
        }
        if MAX_INDENT - written < ul {
            let ghost base = out@;
            let mut j: usize = 0;
            while j < MAX_INDENT - written
                invariant
                    written <= MAX_INDENT,
                    j <= MAX_INDENT - written,
                    out@ == base + spaces(j as nat),
                decreases MAX_INDENT - written - j,
            {
                push_char(out, ' ');
                j += 1;
                assert(out@ =~= base + spaces(j as nat));
            }
            return;
        }
        out.append(unit);
        assert(out@ + indent_from(unit@, ul as nat, (level - k - 1) as nat, (written + ul) as nat)
            =~= old(out)@ + indent_text(unit@, level as nat));
        written = written + ul;
        k += 1;
    }
    assert(out@ =~= out@ + indent_from(unit@, ul as nat, 0, written as nat));
}

/// `prefix:local`, or `local`.
fn push_qname(out: &mut String, doc: &XmlDoc, id: NodeId)
    requires
        doc.has(id),
    ensures
        final(out)@ == old(out)@ + qname_text(doc.nodes()[id.0 as int]),
{
    match doc.prefix(id) {
        Some(p) => {
            if !p.is_empty() {
                out.append(p);
                push_char(out, ':');
                out.append(doc.name(id));
                assert(out@ =~= old(out)@ + (p@ + seq![':'] + crate::tree::node_name(doc.nodes()[id.0 as int])));
                return;
            }
        },
        None => {},
    }
    out.append(doc.name(id));
}

/// Some child of the element is text or CDATA.
fn has_text_child(doc: &XmlDoc, kids: &Vec<NodeId>) -> (r: bool)
    requires
        doc.wf(),
        forall|k: int| 0 <= k < kids@.len() ==> doc.has(#[trigger] kids@[k]),
    ensures
        r == has_text_kid(*doc, kids@),
{
    let mut i: usize = 0;
    while i < kids.len()
        invariant
            doc.wf(),
            forall|k: int| 0 <= k < kids@.len() ==> doc.has(#[trigger] kids@[k]),
            i <= kids@.len(),
            forall|k: int| 0 <= k < i ==> !(#[trigger] doc.nodes()[kids@[k].0 as int].kind == NodeKind::Text
                || doc.nodes()[kids@[k].0 as int].kind == NodeKind::CData),
        decreases kids.len() - i,
    {
        let k = doc.kind(kids[i]);
        if k == NodeKind::Text || k == NodeKind::CData {
            return true;
        }
        i += 1;
    }
    false
}

/// Serialize the subtree at `id`, driven by an explicit stack so that the
/// depth of the tree costs no call stack.
fn write_node(doc: &XmlDoc, id: NodeId, out: &mut String, cfg: &SaveCfg, level: usize, format: bool, budget: usize)
    requires
        doc.wf(),
        doc.has(id),
    ensures
        final(out)@ == old(out)@ + node_text(*doc, mode_of(*cfg), id, level as nat, format, budget as nat),
{
    let ghost m = mode_of(*cfg);
    let ghost total = old(out)@ + node_text(*doc, m, id, level as nat, format, budget as nat);
    let mut stack: Vec<Step> = Vec::new();
    stack.push(Step::Open(id, level, format, budget));
    proof {
        assert(stack@.drop_last() =~= Seq::<Step>::empty());
        assert(pending(*doc, m, stack@.drop_last()) == Seq::<char>::empty());
        assert(out@ + pending(*doc, m, stack@) =~= total);
    }
    while stack.len() > 0
        invariant
            doc.wf(),
            m == mode_of(*cfg),
            forall|i: int| 0 <= i < stack@.len() ==> step_ok(#[trigger] stack@[i], *doc),
            out@ + pending(*doc, m, stack@) == total,
        decreases stack_work(*doc, stack@),
    {
        let ghost before = stack@;
        let step = stack.pop().unwrap();
        proof {
            assert(before.drop_last() =~= stack@);
            assert(before.last() == step);
            assert(step_ok(before[before.len() - 1], *doc));
        }
        let ghost o0 = out@;
        let ghost rest = stack@;
        run_step(doc, step, out, cfg, &mut stack);
        proof {
            assert(pending(*doc, m, before) == step_text(*doc, m, step) + pending(*doc, m, rest));
            assert(out@ + pending(*doc, m, stack@) =~= o0 + step_text(*doc, m, step) + pending(*doc, m, rest));
        }
    }
    assert(pending(*doc, m, stack@) == Seq::<char>::empty());
    assert(out@ + pending(*doc, m, stack@) =~= out@);
}

/// Carry out one scheduled step.
fn run_step(doc: &XmlDoc, step: Step, out: &mut String, cfg: &SaveCfg, stack: &mut Vec<Step>)
    requires
        doc.wf(),
        step_ok(step, *doc),
        forall|i: int| 0 <= i < old(stack)@.len() ==> step_ok(#[trigger] old(stack)@[i], *doc),
    ensures
        forall|i: int| 0 <= i < final(stack)@.len() ==> step_ok(#[trigger] final(stack)@[i], *doc),
        final(out)@ + pending(*doc, mode_of(*cfg), final(stack)@) == old(out)@ + step_text(*doc, mode_of(*cfg), step)
            + pending(*doc, mode_of(*cfg), old(stack)@),
        stack_work(*doc, final(stack)@) < stack_work(*doc, old(stack)@) + step_work(*doc, step),
{
    let ghost o0 = out@;
    match step {
        Step::Indent(l) => {
            push_indent(out, cfg.unit.as_str(), l);
        },
        Step::Newline => {
            push_char(out, '\n');
            assert(out@ =~= o0 + seq!['\n']);
        },
        Step::Close(e, l, child_format) => {
            if child_format {
                push_indent(out, cfg.unit.as_str(), l);
            }
            out.append("</");
            push_qname(out, doc, e);
            push_char(out, '>');
            assert(out@ =~= o0 + step_text(*doc, mode_of(*cfg), step));
        },
        Step::Open(n, l, f, b) => {
            write_one(doc, n, out, cfg, l, f, b, stack);
        },
    }
}

/// Emit one node, scheduling the work its children need.
fn write_one(doc: &XmlDoc, id: NodeId, out: &mut String, cfg: &SaveCfg, level: usize, format: bool, budget: usize, stack: &mut Vec<Step>)
    requires
        doc.wf(),
        doc.has(id),
        forall|i: int| 0 <= i < old(stack)@.len() ==> step_ok(#[trigger] old(stack)@[i], *doc),
    ensures
        forall|i: int| 0 <= i < final(stack)@.len() ==> step_ok(#[trigger] final(stack)@[i], *doc),
        final(out)@ + pending(*doc, mode_of(*cfg), final(stack)@) == old(out)@ + node_text(*doc, mode_of(*cfg), id, level as nat, format, budget as nat)
            + pending(*doc, mode_of(*cfg), old(stack)@),
        stack_work(*doc, final(stack)@) < stack_work(*doc, old(stack)@) + work(*doc, id, budget as nat),
        doc.nodes()[id.0 as int].kind != NodeKind::Element || budget == 0 ==> final(stack)@ == old(stack)@,
{
    let ghost m = mode_of(*cfg);
    if budget == 0 {
        return;
    }
    match doc.kind(id) {
        NodeKind::Element => {
            write_element(doc, id, out, cfg, level, format, budget, stack);
        },
        NodeKind::Text => {
            push_escaped(out, doc.content(id), false, cfg.non_ascii, cfg.html);
        },
        NodeKind::CData => {
            push_cdata(out, doc.content(id));
        },
        NodeKind::Comment => {
            out.append("<!--");
            out.append(doc.content(id));
            out.append("-->");
        },
        NodeKind::Pi => {
            let ghost o0 = out@;
            out.append("<?");
            out.append(doc.name(id));
            if !doc.content(id).is_empty() {
                push_char(out, ' ');
                out.append(doc.content(id));
            }
            out.append("?>");
            assert(out@ =~= o0 + node_text(*doc, m, id, level as nat, format, budget as nat));
        },
        _ => {},
    }
}

/// The start of an element's start tag: its name, namespace declarations
/// and attributes.
pub open spec fn start_text(doc: XmlDoc, m: SaveMode, id: NodeId) -> Seq<char> {
    let n = doc.nodes()[id.0 as int];
    seq!['<'] + qname_text(n) + ns_defs_text(n.ns_defs@, m.non_ascii)
        + attrs_text(doc, crate::valid::attrs_of(doc, id), m.non_ascii, m.html)
}

fn write_start_tag(doc: &XmlDoc, id: NodeId, out: &mut String, cfg: &SaveCfg)
    requires
        doc.wf(),
        doc.has(id),
    ensures
        final(out)@ == old(out)@ + start_text(*doc, mode_of(*cfg), id),
{
    let ghost n = doc.nodes()[id.0 as int];
    let ghost o0 = out@;
    push_char(out, '<');
    push_qname(out, doc, id);
    let defs = doc.ns_defs(id);
    let mut k: usize = 0;
    while k < defs.len()
        invariant
            k <= defs@.len(),
            defs@ == n.ns_defs@,
            out@ == o0 + seq!['<'] + qname_text(n) + ns_defs_text(defs@.take(k as int), cfg.non_ascii),
        decreases defs.len() - k,
    {
        push_ns_def(out, &defs[k], cfg.non_ascii);
        proof {
            assert(defs@.take(k + 1).drop_last() =~= defs@.take(k as int));
            assert(defs@.take(k + 1).last() == defs@[k as int]);
        }
        k += 1;
    }
    assert(defs@.take(k as int) =~= defs@);
    let attrs = doc.attrs(id);
    let ghost o2 = out@;
    let mut a: usize = 0;
    while a < attrs.len()
        invariant
            doc.wf(),
            attrs@ == crate::valid::attrs_of(*doc, id),
            forall|j: int| 0 <= j < attrs@.len() ==> doc.has(#[trigger] attrs@[j]),
            a <= attrs@.len(),
            out@ == o2 + attrs_text(*doc, attrs@.take(a as int), cfg.non_ascii, cfg.html),
        decreases attrs.len() - a,
    {
        let x = attrs[a];
        let ghost o1 = out@;
        push_char(out, ' ');
        push_qname(out, doc, x);
        out.append("=\"");
        push_escaped(out, doc.content(x), true, cfg.non_ascii, cfg.html);
        push_char(out, '"');
        proof {
            assert(attrs@.take(a + 1).drop_last() =~= attrs@.take(a as int));
            assert(attrs@.take(a + 1).last() == x);
            assert(out@ =~= o1 + seq![' '] + qname_text(doc.nodes()[x.0 as int]) + "=\""@
                + escaped(doc.nodes()[x.0 as int].content@, true, cfg.non_ascii, cfg.html) + seq!['"']);
        }
        a += 1;
    }
    assert(attrs@.take(a as int) =~= attrs@);
    assert(out@ =~= o0 + start_text(*doc, mode_of(*cfg), id));
}

/// Emit an element's start tag, and schedule its children and end tag.
#[verifier::spinoff_prover]
#[verifier::rlimit(50)]
fn write_element(doc: &XmlDoc, id: NodeId, out: &mut String, cfg: &SaveCfg, level: usize, format: bool, budget: usize, stack: &mut Vec<Step>)
    requires
        doc.wf(),
        doc.has(id),
        doc.nodes()[id.0 as int].kind == NodeKind::Element,
        budget > 0,
        forall|i: int| 0 <= i < old(stack)@.len() ==> step_ok(#[trigger] old(stack)@[i], *doc),
    ensures
        forall|i: int| 0 <= i < final(stack)@.len() ==> step_ok(#[trigger] final(stack)@[i], *doc),
        final(out)@ + pending(*doc, mode_of(*cfg), final(stack)@) == old(out)@ + node_text(*doc, mode_of(*cfg), id, level as nat, format, budget as nat)
            + pending(*doc, mode_of(*cfg), old(stack)@),
        stack_work(*doc, final(stack)@) < stack_work(*doc, old(stack)@) + work(*doc, id, budget as nat),
{
    let ghost m = mode_of(*cfg);
    let ghost n = doc.nodes()[id.0 as int];
    let ghost o0 = out@;
    let ghost nt = node_text(*doc, m, id, level as nat, format, budget as nat);
    write_start_tag(doc, id, out, cfg);
    let ghost st = out@;
    if cfg.html && is_void(doc.name(id)) {
        push_char(out, '>');
        proof {
            assert(nt == start_text(*doc, m, id) + seq!['>']);
            assert(out@ =~= o0 + nt);
        }
        return;
    }
    if doc.first_child(id).is_none() {
        push_empty_end(out, doc, id, cfg);
        proof {
            assert(nt == start_text(*doc, m, id) + empty_elem_text(m, qname_text(n)));
            assert(out@ =~= o0 + nt);
        }
        return;
    }
    let kids = doc.children(id);
    let mixed = has_text_child(doc, &kids);
    push_char(out, '>');
    let child_format = format && !mixed;
    if child_format {
        push_char(out, '\n');
    }
    let ghost s0 = stack@;
    stack.push(Step::Close(id, level, child_format));
    let next: usize = if level < 1000000000 { level + 1 } else { level };
    let ghost close = step_text(*doc, m, Step::Close(id, level, child_format));
    proof {
        assert(stack@.drop_last() =~= s0);
        assert(pending(*doc, m, stack@) == close + pending(*doc, m, s0));
        assert(stack_work(*doc, stack@) == stack_work(*doc, s0) + 1);
    }
    schedule_children(doc, &kids, child_format, next, budget - 1, stack, Ghost(m), Ghost(close), Ghost(s0));
    proof {
        let cf = child_format;
        let kt = kids_text(*doc, m, kids@, next as nat, cf, (budget - 1) as nat);
        assert(nt == start_text(*doc, m, id) + seq!['>'] + (if cf { seq!['\n'] } else { seq![] }) + kt
            + (if cf { indent_text(m.unit, level as nat) } else { seq![] }) + "</"@ + qname_text(n) + seq!['>']);
        assert(work(*doc, id, budget as nat) == 2 + kids_work(*doc, kids@, (budget - 1) as nat));
        assert(out@ + pending(*doc, m, stack@) =~= o0 + nt + pending(*doc, m, s0));
    }
}

/// What closes an element with no children.
fn push_empty_end(out: &mut String, doc: &XmlDoc, id: NodeId, cfg: &SaveCfg)
    requires
        doc.has(id),
    ensures
        final(out)@ == old(out)@ + empty_elem_text(mode_of(*cfg), qname_text(doc.nodes()[id.0 as int])),
{
    let ghost o = out@;
    if cfg.xhtml && !cfg.html && (cfg.opts & XML_SAVE_NO_EMPTY) == 0 {
        out.append(" />");
    } else if (cfg.opts & XML_SAVE_NO_EMPTY) == 0 && !cfg.html {
        out.append("/>");
    } else {
        out.append("></");
        push_qname(out, doc, id);
        push_char(out, '>');
        assert(out@ =~= o + ("></"@ + qname_text(doc.nodes()[id.0 as int]) + seq!['>']));
    }
}

/// Schedule the children `kids`, each indented and on a line of its own
/// when `cf`, above whatever `close` the stack already holds on top of `s0`.
fn schedule_children(
    doc: &XmlDoc,
    kids: &Vec<NodeId>,
    cf: bool,
    next: usize,
    budget: usize,
    stack: &mut Vec<Step>,
    Ghost(m): Ghost<SaveMode>,
    Ghost(close): Ghost<Seq<char>>,
    Ghost(s0): Ghost<Seq<Step>>,
)
    requires
        doc.wf(),
        forall|j: int| 0 <= j < kids@.len() ==> doc.has(#[trigger] kids@[j]),
        forall|j: int| 0 <= j < old(stack)@.len() ==> step_ok(#[trigger] old(stack)@[j], *doc),
        pending(*doc, m, old(stack)@) == close + pending(*doc, m, s0),
        stack_work(*doc, old(stack)@) == stack_work(*doc, s0) + 1,
    ensures
        forall|j: int| 0 <= j < final(stack)@.len() ==> step_ok(#[trigger] final(stack)@[j], *doc),
        pending(*doc, m, final(stack)@) == kids_text(*doc, m, kids@, next as nat, cf, budget as nat) + close + pending(*doc, m, s0),
        stack_work(*doc, final(stack)@) <= stack_work(*doc, s0) + 1 + kids_work(*doc, kids@, budget as nat),
{
    let mut i = kids.len();
    proof {
        assert(kids@.subrange(i as int, kids@.len() as int) =~= Seq::<NodeId>::empty());
        assert(close + pending(*doc, m, s0) =~= kids_text(*doc, m, Seq::<NodeId>::empty(), next as nat, cf, budget as nat) + close
            + pending(*doc, m, s0));
    }
    while i > 0
        invariant
            doc.wf(),
            forall|j: int| 0 <= j < kids@.len() ==> doc.has(#[trigger] kids@[j]),
            i <= kids@.len(),
            forall|j: int| 0 <= j < stack@.len() ==> step_ok(#[trigger] stack@[j], *doc),
            pending(*doc, m, stack@) == kids_text(*doc, m, kids@.subrange(i as int, kids@.len() as int), next as nat, cf, budget as nat)
                + close + pending(*doc, m, s0),
            stack_work(*doc, stack@) <= stack_work(*doc, s0) + 1 + kids_work(*doc, kids@.subrange(i as int, kids@.len() as int), budget as nat),
        decreases i,
    {
        let ghost after = kids@.subrange(i as int, kids@.len() as int);
        i -= 1;
        let ch = kids[i];
        let ghost sub = kids@.subrange(i as int, kids@.len() as int);
        proof {
            assert(sub[0] == ch);
            assert(sub.drop_first() =~= after);
        }
        let ghost sa = stack@;
        if cf {
            stack.push(Step::Newline);
        }
        let ghost sb = stack@;
        stack.push(Step::Open(ch, next, cf, budget));
        let ghost sc = stack@;
        if cf {
            stack.push(Step::Indent(next));
        }
        proof {
            let ind = if cf { indent_text(m.unit, next as nat) } else { seq![] };
            let nl = if cf { seq!['\n'] } else { seq![] };
            let t = node_text(*doc, m, ch, next as nat, cf, budget as nat);
            assert(sc.drop_last() =~= sb);
            assert(sc.last() == Step::Open(ch, next, cf, budget));
            assert(pending(*doc, m, sc) == t + pending(*doc, m, sb));
            assert(stack_work(*doc, sc) == stack_work(*doc, sb) + work(*doc, ch, budget as nat));
            if cf {
                assert(sb.drop_last() =~= sa);
                assert(sb.last() == Step::Newline);
                assert(pending(*doc, m, sb) == nl + pending(*doc, m, sa));
                assert(stack_work(*doc, sb) == stack_work(*doc, sa) + 1);
                assert(stack@.drop_last() =~= sc);
                assert(stack@.last() == Step::Indent(next));
                assert(pending(*doc, m, stack@) == ind + pending(*doc, m, sc));
                assert(stack_work(*doc, stack@) == stack_work(*doc, sc) + 1);
            } else {
                assert(sb =~= sa);
                assert(stack@ =~= sc);
            }
            assert(kids_text(*doc, m, sub, next as nat, cf, budget as nat) == ind + t + nl + kids_text(*doc, m, after, next as nat, cf, budget as nat));
            assert(kids_work(*doc, sub, budget as nat) == 3 + work(*doc, ch, budget as nat) + kids_work(*doc, after, budget as nat));
            assert(pending(*doc, m, stack@) =~= kids_text(*doc, m, sub, next as nat, cf, budget as nat) + close + pending(*doc, m, s0));
        }
    }
    assert(kids@.subrange(0, kids@.len() as int) =~= kids@);
}

/// CDATA sections for `content`, split before every `]]>` it holds, as C does.
fn push_cdata(out: &mut String, content: &str)
    ensures
        final(out)@ == old(out)@ + cdata_text(content@),
{
    let cs = chars_of(content);
    if cs.len() == 0 {
        out.append("<![CDATA[]]>");
        return;
    }
    let mut start: usize = 0;
    let mut i: usize = 0;
    while cs.len() - i > 2
        invariant
            cs@ == content@,
            cs@.len() > 0,
            start <= i <= cs@.len(),
            out@ + cdata_from(cs@, start as int, i as int) == old(out)@ + cdata_from(cs@, 0, 0),
        decreases cs.len() - i,
    {
        if cs[i] == ']' && cs[i + 1] == ']' && cs[i + 2] == '>' {
            let ghost o = out@;
            out.append("<![CDATA[");
            push_range(out, &cs, start, i + 2);
            out.append("]]>");
            assert(out@ + cdata_from(cs@, (i + 2) as int, (i + 3) as int)
                =~= o + cdata_from(cs@, start as int, i as int));
            start = i + 2;
            i += 3;
        } else {
            i += 1;
        }
    }
    let ghost o = out@;
    if start < cs.len() {
        out.append("<![CDATA[");
        push_range(out, &cs, start, cs.len());
        out.append("]]>");
    }
    assert(out@ =~= o + cdata_from(cs@, start as int, i as int));
}

/// The DTD names an XHTML 1.0 public identifier.
pub open spec fn xhtml_doc(doc: XmlDoc) -> bool {
    match doc.dtd {
        Some(d) => match d.public_id {
            Some(p) => {
                let a = vstd::utf8::encode_utf8(p@);
                let q = vstd::utf8::encode_utf8("-//W3C//DTD XHTML"@);
                q.len() <= a.len() && a.subrange(0, q.len() as int) == q
            },
            None => false,
        },
        None => false,
    }
}

/// The document is XHTML: its DTD has an XHTML 1.0 public identifier.
fn is_xhtml(doc: &XmlDoc) -> (r: bool)
    ensures
        r == xhtml_doc(*doc),
{
    match &doc.dtd {
        Some(d) => match &d.public_id {
            Some(p) => crate::util::starts_with(p.as_str().as_bytes(), "-//W3C//DTD XHTML".as_bytes()),
            None => false,
        },
        None => false,
    }
}

/// The external identifiers of a document type declaration.
pub open spec fn doctype_ids_text(public_id: Option<String>, system_id: Option<String>) -> Seq<char> {
    match public_id {
        Some(p) => " PUBLIC \""@ + p@ + seq!['"'] + (match system_id { Some(s) => " \""@ + s@ + seq!['"'], None => seq![] }),
        None => match system_id { Some(s) => " SYSTEM \""@ + s@ + seq!['"'], None => seq![] },
    }
}

/// `<!DOCTYPE name PUBLIC "p" "s" [subset]>` and a line break, the subset verbatim.
pub open spec fn doctype_text(d: XmlDtd) -> Seq<char> {
    "<!DOCTYPE "@ + (match d.name { Some(n) => n@, None => "html"@ }) + doctype_ids_text(d.public_id, d.system_id)
        + (match d.int_subset { Some(s) => " ["@ + s@ + seq![']'], None => seq![] }) + ">\n"@
}

fn push_doctype_ids(out: &mut String, d: &XmlDtd)
    ensures
        final(out)@ == old(out)@ + doctype_ids_text(d.public_id, d.system_id),
{
    let ghost o = out@;
    match &d.public_id {
        Some(p) => {
            out.append(" PUBLIC \"");
            out.append(p.as_str());
            push_char(out, '"');
            match &d.system_id {
                Some(s) => {
                    out.append(" \"");
                    out.append(s.as_str());
                    push_char(out, '"');
                },
                None => {},
            }
        },
        None => match &d.system_id {
            Some(s) => {
                out.append(" SYSTEM \"");
                out.append(s.as_str());
                push_char(out, '"');
            },
            None => {},
        },
    }
    assert(out@ =~= o + doctype_ids_text(d.public_id, d.system_id));
}

fn push_doctype(out: &mut String, d: &XmlDtd)
    ensures
        final(out)@ == old(out)@ + doctype_text(*d),
{
    let ghost o = out@;
    out.append("<!DOCTYPE ");
    match &d.name {
        Some(n) => out.append(n.as_str()),
        None => out.append("html"),
    }
    push_doctype_ids(out, d);
    let ghost o2 = out@;
    match &d.int_subset {
        Some(s) => {
            out.append(" [");
            out.append(s.as_str());
            push_char(out, ']');
        },
        None => {},
    }
    assert(out@ =~= o2 + (match d.int_subset { Some(s) => " ["@ + s@ + seq![']'], None => seq![] }));
    out.append(">\n");
    assert(out@ =~= o + doctype_text(*d));
}

fn string_bytes(s: &String) -> (r: Vec<u8>)
    ensures
        r@ == vstd::utf8::encode_utf8(s@),
{
    let mut v: Vec<u8> = Vec::new();
    crate::util::push_bytes(&mut v, s.as_str().as_bytes());
    v
}

/// The mode a document is serialized in with `options` and indentation `unit`.
pub open spec fn save_mode(doc: XmlDoc, options: i32, unit: Seq<char>) -> SaveMode {
    let html = doc.nodes()[0].kind == NodeKind::HtmlDocument;
    SaveMode {
        opts: if html { options | SAVE_AS_HTML } else { options },
        html,
        xhtml: xhtml_doc(doc),
        non_ascii: doc.encoding is None && !html,
        unit,
    }
}

/// What comes before the top-level nodes: for HTML the document type (a
/// transitional HTML 4.0 one when there is none), for XML the declaration
/// and then the document type; no declaration with `XML_SAVE_NO_DECL`.
pub open spec fn prolog_text(doc: XmlDoc, options: i32) -> Seq<char> {
    let nodecl = options & XML_SAVE_NO_DECL != 0;
    if doc.nodes()[0].kind == NodeKind::HtmlDocument {
        if nodecl {
            seq![]
        } else {
            match doc.dtd {
                Some(d) => doctype_text(d),
                None => "<!DOCTYPE html PUBLIC \"-//W3C//DTD HTML 4.0 Transitional//EN\" \"http://www.w3.org/TR/REC-html40/loose.dtd\">\n"@,
            }
        }
    } else {
        (if nodecl {
            seq![]
        } else {
            "<?xml version=\""@ + (if doc.version@.len() == 0 { "1.0"@ } else { doc.version@ }) + seq!['"']
                + (match doc.encoding { Some(e) => " encoding=\""@ + e@ + seq!['"'], None => seq![] })
                + (match doc.standalone {
                    Some(true) => " standalone=\"yes\""@,
                    Some(false) => " standalone=\"no\""@,
                    None => seq![],
                }) + "?>\n"@
        }) + (match doc.dtd { Some(d) => doctype_text(d), None => seq![] })
    }
}

/// The top-level nodes `kids`, each followed by a line break.
pub open spec fn top_text(doc: XmlDoc, m: SaveMode, kids: Seq<NodeId>, format: bool) -> Seq<char>
    decreases kids.len(),
{
    if kids.len() == 0 {
        seq![]
    } else {
        top_text(doc, m, kids.drop_last(), format) + node_text(doc, m, kids.last(), 0, format, doc.nodes().len())
            + seq!['\n']
    }
}

/// The serialization of `doc` with `options` and indentation unit `unit`.
pub open spec fn save_text(doc: XmlDoc, options: i32, unit: Seq<char>) -> Seq<char> {
    prolog_text(doc, options) + top_text(
        doc,
        save_mode(doc, options, unit),
        crate::valid::kids_of(doc, NodeId(0)),
        options & XML_SAVE_FORMAT != 0,
    )
}

/// The serialization of `doc` with indentation unit `unit`.
pub fn xml_save_doc_with_indent(doc: &XmlDoc, options: i32, unit: &str) -> (r: Vec<u8>)
    requires
        doc.wf(),
    ensures
        r@ == vstd::utf8::encode_utf8(save_text(*doc, options, unit@)),
        vstd::utf8::valid_utf8(r@),
{
    let mut out = String::new();
    let html = doc.kind(NodeId::document()) == NodeKind::HtmlDocument;
    let cfg = SaveCfg {
        opts: if html { options | SAVE_AS_HTML } else { options },
        html,
        xhtml: is_xhtml(doc),
        non_ascii: doc.encoding.is_none() && !html,
        unit: String::from_str(unit),
    };
    if html {
        if (options & XML_SAVE_NO_DECL) == 0 {
            match &doc.dtd {
                Some(d) => push_doctype(&mut out, d),
                None => out.append(
                    "<!DOCTYPE html PUBLIC \"-//W3C//DTD HTML 4.0 Transitional//EN\" \"http://www.w3.org/TR/REC-html40/loose.dtd\">\n",
                ),
            }
        }
    } else {
        if (options & XML_SAVE_NO_DECL) == 0 {
            let ghost o = out@;
            out.append("<?xml version=\"");
            if doc.version.as_str().is_empty() {
                out.append("1.0");
            } else {
                out.append(doc.version.as_str());
            }
            push_char(&mut out, '"');
            match &doc.encoding {
                Some(e) => {
                    out.append(" encoding=\"");
                    out.append(e.as_str());
                    push_char(&mut out, '"');
                },
                None => {},
            }
            let ghost o1 = out@;
            match doc.standalone {
                Some(true) => out.append(" standalone=\"yes\""),
                Some(false) => out.append(" standalone=\"no\""),
                None => {},
            }
            out.append("?>\n");
            assert(out@ =~= o + ("<?xml version=\""@ + (if doc.version@.len() == 0 { "1.0"@ } else { doc.version@ }) + seq!['"']
                + (match doc.encoding { Some(e) => " encoding=\""@ + e@ + seq!['"'], None => seq![] })
                + (match doc.standalone {
                    Some(true) => " standalone=\"yes\""@,
                    Some(false) => " standalone=\"no\""@,
                    None => seq![],
                }) + "?>\n"@));
        }
        match &doc.dtd {
            Some(d) => push_doctype(&mut out, d),
            None => {},
        }
    }
    let ghost pro = out@;
    assert(pro =~= prolog_text(*doc, options));
    let format = (options & XML_SAVE_FORMAT) != 0;
    let kids = doc.children(NodeId::document());
    let n = doc.len();
    let mut i: usize = 0;
    while i < kids.len()
        invariant
            doc.wf(),
            kids@ == crate::valid::kids_of(*doc, NodeId(0)),
            forall|j: int| 0 <= j < kids@.len() ==> doc.has(#[trigger] kids@[j]),
            n == doc.nodes().len(),
            i <= kids@.len(),
            mode_of(cfg) == save_mode(*doc, options, unit@),
            out@ == pro + top_text(*doc, mode_of(cfg), kids@.take(i as int), format),
        decreases kids.len() - i,
    {
        write_node(doc, kids[i], &mut out, &cfg, 0, format, n);
        push_char(&mut out, '\n');
        proof {
            assert(kids@.take(i + 1).drop_last() =~= kids@.take(i as int));
            assert(kids@.take(i + 1).last() == kids@[i as int]);
        }
        i += 1;
    }
    assert(kids@.take(i as int) =~= kids@);
    proof {
        vstd::utf8::encode_utf8_valid_utf8(out@);
    }
    string_bytes(&out)
}

/// `xmlSaveDoc` / `xmlDocDumpMemory` with `xmlSaveOption` bits, indenting
/// by two spaces.
pub fn xml_save_doc(doc: &XmlDoc, options: i32) -> (r: Vec<u8>)
    requires
        doc.wf(),
    ensures
        r@ == vstd::utf8::encode_utf8(save_text(*doc, options, "  "@)),
        vstd::utf8::valid_utf8(r@),
{
    xml_save_doc_with_indent(doc, options, "  ")
}

/// `xmlDocDumpFormatMemory`.
pub fn xml_doc_dump_format_memory(doc: &XmlDoc, format: bool) -> (r: Vec<u8>)
    requires
        doc.wf(),
    ensures
        r@ == vstd::utf8::encode_utf8(save_text(*doc, if format { XML_SAVE_FORMAT } else { 0 }, "  "@)),
        vstd::utf8::valid_utf8(r@),
{
    xml_save_doc(doc, if format { XML_SAVE_FORMAT } else { 0 })
}

/// `xmlDocDumpMemory`.
pub fn xml_doc_dump_memory(doc: &XmlDoc) -> (r: Vec<u8>)
    requires
        doc.wf(),
    ensures
        r@ == vstd::utf8::encode_utf8(save_text(*doc, 0, "  "@)),
        vstd::utf8::valid_utf8(r@),
{
    xml_save_doc(doc, 0)
}

/// `xmlNodeDump` of a subtree, without an XML declaration.
pub fn xml_node_dump(doc: &XmlDoc, node: NodeId, options: i32) -> (r: Vec<u8>)
    requires
        doc.wf(),
        doc.has(node),
    ensures
        r@ == vstd::utf8::encode_utf8(node_text(*doc, save_mode(*doc, options, "  "@), node, 0, options & XML_SAVE_FORMAT != 0, doc.nodes().len())),
        vstd::utf8::valid_utf8(r@),
{
    let mut out = String::new();
    let html = doc.kind(NodeId::document()) == NodeKind::HtmlDocument;
    let cfg = SaveCfg {
        opts: if html { options | SAVE_AS_HTML } else { options },
        html,
        xhtml: is_xhtml(doc),
        non_ascii: doc.encoding.is_none() && !html,
        unit: String::from_str("  "),
    };
    write_node(doc, node, &mut out, &cfg, 0, (options & XML_SAVE_FORMAT) != 0, doc.len());
    proof {
        vstd::utf8::encode_utf8_valid_utf8(out@);
    }
    string_bytes(&out)
}


/// What an open writer frame is.
#[derive(Clone, Copy, PartialEq, Eq, Structural)]
enum FrameKind {
    Document,
    Element,
}

/// An open document or element of a text writer.
struct Frame {
    kind: FrameKind,
    name: String,
    prefix: Option<String>,
    /// The start tag has been closed with `>`.
    open: bool,
}

/// An open frame of a text writer, as contracts see it.
pub struct OpenFrame {
    /// An element, not the document.
    pub element: bool,
    /// The element's qualified name.
    pub qname: Seq<char>,
    /// The start tag has been closed with `>`.
    pub open: bool,
}

/// `prefix:name`, or the name alone when the prefix is absent or empty.
pub open spec fn qname_chars(prefix: Option<Seq<char>>, name: Seq<char>) -> Seq<char> {
    match prefix {
        Some(p) => if p.len() > 0 { p + seq![':'] + name } else { name },
        None => name,
    }
}

spec fn frame_view(f: Frame) -> OpenFrame {
    OpenFrame {
        element: f.kind == FrameKind::Element,
        qname: qname_chars(crate::tree::opt_string_view(f.prefix), f.name@),
        open: f.open,
    }
}

/// The innermost frame is an element whose start tag still waits for `>`.
pub open spec fn tag_pending(fs: Seq<OpenFrame>) -> bool {
    fs.len() > 0 && fs.last().element && !fs.last().open
}

/// What closing a pending start tag writes.
pub open spec fn close_text(fs: Seq<OpenFrame>) -> Seq<char> {
    if tag_pending(fs) { seq!['>'] } else { seq![] }
}

/// The frames once a pending start tag is closed.
pub open spec fn after_close(fs: Seq<OpenFrame>) -> Seq<OpenFrame> {
    if tag_pending(fs) {
        fs.update(fs.len() - 1, OpenFrame { element: fs.last().element, qname: fs.last().qname, open: true })
    } else {
        fs
    }
}

/// How many open frames are elements.
pub open spec fn element_depth(fs: Seq<OpenFrame>) -> nat
    decreases fs.len(),
{
    if fs.len() == 0 {
        0
    } else {
        element_depth(fs.drop_last()) + if fs.last().element { 1nat } else { 0nat }
    }
}

/// `unit` written `n` times.
pub open spec fn repeat_chars(unit: Seq<char>, n: nat) -> Seq<char>
    decreases n,
{
    if n == 0 { seq![] } else { repeat_chars(unit, (n - 1) as nat) + unit }
}

/// What ending an element writes: `/>` while its start tag is pending,
/// else its end tag.
pub open spec fn end_tag(f: OpenFrame) -> Seq<char> {
    if f.open { "</"@ + f.qname + seq!['>'] } else { "/>"@ }
}

/// What ending the open elements writes, innermost first, down to the
/// first frame that is no element.
pub open spec fn close_all(fs: Seq<OpenFrame>) -> Seq<char>
    decreases fs.len(),
{
    if fs.len() > 0 && fs.last().element {
        end_tag(fs.last()) + close_all(fs.drop_last())
    } else {
        seq![]
    }
}

/// The XML declaration a text writer starts a document with.
pub open spec fn decl_text(version: Option<Seq<char>>, encoding: Option<Seq<char>>, standalone: Option<Seq<char>>) -> Seq<char> {
    "<?xml version=\""@ + (match version { Some(v) => v, None => "1.0"@ }) + seq!['"']
        + (match encoding { Some(e) => " encoding=\""@ + e + seq!['"'], None => seq![] })
        + (match standalone { Some(s) => " standalone=\""@ + s + seq!['"'], None => seq![] })
        + "?>\n"@
}

/// The namespace declaration a start tag carries for `ns_uri`.
pub open spec fn ns_decl_text(prefix: Option<Seq<char>>, ns_uri: Option<Seq<char>>) -> Seq<char> {
    match ns_uri {
        Some(u) => (match prefix { Some(p) => " xmlns:"@ + p, None => " xmlns"@ })
            + "=\""@ + escaped(u, true, false, false) + seq!['"'],
        None => seq![],
    }
}

/// What starting an element writes after `text`, with the frames `fs`
/// open: the pending `>`, then when indenting a line break (unless the
/// text is empty or ends in one) and one `unit` per open element, then the
/// start tag and its namespace declaration.
pub open spec fn start_tag_text(
    text: Seq<char>,
    fs: Seq<OpenFrame>,
    indent: bool,
    unit: Seq<char>,
    prefix: Option<Seq<char>>,
    name: Seq<char>,
    ns_uri: Option<Seq<char>>,
) -> Seq<char> {
    let t = text + close_text(fs);
    let nl = if indent && t.len() > 0 && t.last() != '\n' { seq!['\n'] } else { seq![] };
    let ind = if indent { repeat_chars(unit, element_depth(fs)) } else { seq![] };
    t + nl + ind + seq!['<'] + qname_chars(prefix, name) + ns_decl_text(prefix, ns_uri)
}

/// `text` ending in a line break: as it is if it does, else with one added.
pub open spec fn with_newline(text: Seq<char>) -> Seq<char> {
    if text.len() > 0 && text.last() == '\n' { text } else { text.push('\n') }
}

proof fn lemma_depth_after_close(fs: Seq<OpenFrame>)
    ensures
        element_depth(after_close(fs)) == element_depth(fs),
        after_close(fs).len() == fs.len(),
{
    if tag_pending(fs) {
        assert(after_close(fs).drop_last() =~= fs.drop_last());
    }
}

/// The UTF-8 encoding of a text is empty exactly when the text is, and its
/// last byte is a line feed exactly when the text's last character is.
proof fn lemma_encode_last(s: Seq<char>)
    ensures
        (s.len() == 0) == (vstd::utf8::encode_utf8(s).len() == 0),
        s.len() > 0 ==> ((vstd::utf8::encode_utf8(s).last() == 0x0au8) == (s.last() == '\n')),
    decreases s.len(),
{
    if s.len() > 0 {
        let v = s[0] as u32;
        let e = vstd::utf8::encode_scalar(v);
        assert(e.len() > 0);
        if s.len() == 1 {
            assert(s.drop_first().len() == 0);
            assert(vstd::utf8::encode_utf8(s.drop_first()) =~= Seq::<u8>::empty());
            assert(vstd::utf8::encode_utf8(s) =~= e);
            assert(s.last() == s[0]);
            if vstd::utf8::has_width_1_encoding(v) {
                assert(((v & 0x7F) as u8 == 0x0au8) == (v == 10u32)) by (bit_vector)
                    requires v <= 0x7F;
            } else {
                assert((0x80u8 | (v & 0x3F) as u8) != 0x0au8) by (bit_vector);
                assert(v != 10u32);
            }
            assert((s.last() == '\n') == (v == 10u32)) by {
                broadcast use vstd::utf8::char_u32_cast;
                if v == 10u32 {
                    vstd::utf8::char_u32_cast(s[0], v);
                    assert((v as char) == s[0]);
                    assert((10u32 as char) == '\n');
                }
            }
        } else {
            lemma_encode_last(s.drop_first());
            assert(s.drop_first().last() == s.last());
        }
    }
}

/// Append `prefix:name`, or the name alone when the prefix is absent or empty.
fn push_qname_str(out: &mut String, prefix: Option<&str>, name: &str)
    ensures
        final(out)@ == old(out)@ + qname_chars(crate::tree::opt_str_view(prefix), name@),
{
    match prefix {
        Some(p) => {
            if !p.is_empty() {
                out.append(p);
                push_char(out, ':');
                out.append(name);
                assert(out@ =~= old(out)@ + (p@ + seq![':'] + name@));
                assert(p@.len() > 0);
            } else {
                out.append(name);
                assert(p@.len() == 0);
            }
        },
        None => {
            out.append(name);
        },
    }
}

/// Append the namespace declaration of a start tag.
fn push_ns_decl(out: &mut String, prefix: Option<&str>, ns_uri: Option<&str>)
    ensures
        final(out)@ == old(out)@ + ns_decl_text(crate::tree::opt_str_view(prefix), crate::tree::opt_str_view(ns_uri)),
{
    match ns_uri {
        Some(uri) => {
            match prefix {
                Some(p) => {
                    out.append(" xmlns:");
                    out.append(p);
                },
                None => out.append(" xmlns"),
            }
            out.append("=\"");
            push_escaped(out, uri, true, false, false);
            push_char(out, '"');
            assert(out@ =~= old(out)@ + ns_decl_text(crate::tree::opt_str_view(prefix), crate::tree::opt_str_view(ns_uri)));
        },
        None => {
            assert(out@ =~= old(out)@ + ns_decl_text(crate::tree::opt_str_view(prefix), crate::tree::opt_str_view(ns_uri)));
        },
    }
}

/// Append `unit` `n` times.
fn push_units(out: &mut String, unit: &str, n: usize)
    ensures
        final(out)@ == old(out)@ + repeat_chars(unit@, n as nat),
{
    let mut k: usize = 0;
    while k < n
        invariant
            k <= n,
            out@ == old(out)@ + repeat_chars(unit@, k as nat),
        decreases n - k,
    {
        out.append(unit);
        k += 1;
        assert(out@ =~= old(out)@ + repeat_chars(unit@, k as nat));
    }
}

/// `xmlTextWriter` writing into an in-memory buffer.
pub struct XmlTextWriter {
    buf: String,
    stack: Vec<Frame>,
    indent: bool,
    indent_unit: String,
    started: bool,
}

impl XmlTextWriter {
    /// The text written so far.
    pub closed spec fn text(&self) -> Seq<char> {
        self.buf@
    }

    /// The open document and elements, outermost first.
    pub closed spec fn frames(&self) -> Seq<OpenFrame> {
        self.stack@.map_values(|f: Frame| frame_view(f))
    }

    /// Start tags are put on lines of their own and indented.
    pub closed spec fn indenting(&self) -> bool {
        self.indent
    }

    /// One level of indentation.
    pub closed spec fn unit(&self) -> Seq<char> {
        self.indent_unit@
    }

    /// `xmlNewTextWriterMemory`: an empty writer.
    pub fn xml_new_text_writer_memory() -> (r: Self)
        ensures
            r.text().len() == 0,
            r.frames().len() == 0,
            !r.indenting(),
            r.unit() == "  "@,
    {
        let r = XmlTextWriter {
            buf: String::new(),
            stack: Vec::new(),
            indent: false,
            indent_unit: String::from_str("  "),
            started: false,
        };
        assert(r.frames() =~= Seq::<OpenFrame>::empty());
        r
    }

    /// Indent nested start tags.
    pub fn set_indent(&mut self, indent: bool)
        ensures
            final(self).text() == old(self).text(),
            final(self).frames() == old(self).frames(),
            final(self).indenting() == indent,
            final(self).unit() == old(self).unit(),
    {
        self.indent = indent;
    }

    /// Close a pending start tag with `>`.
    fn close_start_tag(&mut self)
        ensures
            final(self).text() == old(self).text() + close_text(old(self).frames()),
            final(self).frames() == after_close(old(self).frames()),
            final(self).indenting() == old(self).indenting(),
            final(self).unit() == old(self).unit(),
    {
        let n = self.stack.len();
        if n > 0 {
            let k = self.stack[n - 1].kind;
            let o = self.stack[n - 1].open;
            if k == FrameKind::Element && !o {
                push_char(&mut self.buf, '>');
                let f = Frame {
                    kind: k,
                    name: self.stack[n - 1].name.clone(),
                    prefix: self.stack[n - 1].prefix.clone(),
                    open: true,
                };
                proof {
                    assert(frame_view(f) == OpenFrame {
                        element: old(self).frames().last().element,
                        qname: old(self).frames().last().qname,
                        open: true,
                    });
                }
                self.stack.set(n - 1, f);
                assert(self.frames() =~= after_close(old(self).frames()));
            } else {
                assert(self.buf@ =~= old(self).buf@ + close_text(old(self).frames()));
            }
        } else {
            assert(self.buf@ =~= old(self).buf@ + close_text(old(self).frames()));
        }
    }

    /// `xmlTextWriterStartDocument`: the XML declaration.
    #[verifier::rlimit(30)]
    pub fn start_document(&mut self, version: Option<&str>, encoding: Option<&str>, standalone: Option<&str>) -> (r: Result<(), String>)
        ensures
            r is Ok,
            final(self).text() == old(self).text() + decl_text(
                crate::tree::opt_str_view(version),
                crate::tree::opt_str_view(encoding),
                crate::tree::opt_str_view(standalone),
            ),
            final(self).frames() == old(self).frames().push(OpenFrame { element: false, qname: "#document"@, open: true }),
            final(self).indenting() == old(self).indenting(),
            final(self).unit() == old(self).unit(),
    {
        self.buf.append("<?xml version=\"");
        match version {
            Some(v) => self.buf.append(v),
            None => self.buf.append("1.0"),
        }
        push_char(&mut self.buf, '"');
        match encoding {
            Some(e) => {
                self.buf.append(" encoding=\"");
                self.buf.append(e);
                push_char(&mut self.buf, '"');
            },
            None => {},
        }
        match standalone {
            Some(s) => {
                self.buf.append(" standalone=\"");
                self.buf.append(s);
                push_char(&mut self.buf, '"');
            },
            None => {},
        }
        self.buf.append("?>\n");
        let f = Frame { kind: FrameKind::Document, name: String::from_str("#document"), prefix: None, open: true };
        self.stack.push(f);
        self.started = true;
        assert(self.frames() =~= old(self).frames().push(OpenFrame { element: false, qname: "#document"@, open: true }));
        assert(self.buf@ =~= old(self).buf@ + decl_text(
            crate::tree::opt_str_view(version),
            crate::tree::opt_str_view(encoding),
            crate::tree::opt_str_view(standalone),
        ));
        Ok(())
    }

    /// `xmlTextWriterStartElement`.
    pub fn start_element(&mut self, name: &str) -> (r: Result<(), String>)
        ensures
            r is Ok,
            final(self).text() == start_tag_text(old(self).text(), old(self).frames(), old(self).indenting(), old(self).unit(), None, name@, None),
            final(self).frames() == after_close(old(self).frames()).push(OpenFrame { element: true, qname: name@, open: false }),
            final(self).indenting() == old(self).indenting(),
            final(self).unit() == old(self).unit(),
    {
        self.start_element_ns(None, name, None)
    }

    /// How many open frames are elements.
    fn element_count(&self) -> (r: usize)
        ensures
            r == element_depth(self.frames()),
    {
        let mut depth: usize = 0;
        let mut i: usize = 0;
        while i < self.stack.len()
            invariant
                i <= self.stack.len(),
                depth <= i,
                depth == element_depth(self.frames().take(i as int)),
            decreases self.stack.len() - i,
        {
            proof {
                assert(self.frames().take(i + 1).drop_last() =~= self.frames().take(i as int));
            }
            if self.stack[i].kind == FrameKind::Element {
                depth += 1;
            }
            i += 1;
        }
        proof {
            assert(self.frames().take(i as int) =~= self.frames());
        }
        depth
    }

    /// `xmlTextWriterStartElementNS`: a start tag, declaring `ns_uri` for the
    /// prefix when it is given.
    pub fn start_element_ns(&mut self, prefix: Option<&str>, name: &str, ns_uri: Option<&str>) -> (r: Result<(), String>)
        ensures
            r is Ok,
            final(self).text() == start_tag_text(
                old(self).text(),
                old(self).frames(),
                old(self).indenting(),
                old(self).unit(),
                crate::tree::opt_str_view(prefix),
                name@,
                crate::tree::opt_str_view(ns_uri),
            ),
            final(self).frames() == after_close(old(self).frames()).push(OpenFrame {
                element: true,
                qname: qname_chars(crate::tree::opt_str_view(prefix), name@),
                open: false,
            }),
            final(self).indenting() == old(self).indenting(),
            final(self).unit() == old(self).unit(),
    {
        self.close_start_tag();
        let ghost t = self.buf@;
        proof {
            lemma_encode_last(self.buf@);
            lemma_depth_after_close(old(self).frames());
        }
        if self.indent && !self.buf.as_str().is_empty() && !ends_with_newline(self.buf.as_str()) {
            push_char(&mut self.buf, '\n');
        }
        let ghost t1 = self.buf@;
        let ghost nl: Seq<char> = if old(self).indenting() && t.len() > 0 && t.last() != '\n' { seq!['\n'] } else { seq![] };
        assert(t1 =~= t + nl);
        if self.indent {
            let depth = self.element_count();
            push_units(&mut self.buf, self.indent_unit.as_str(), depth);
        }
        let ghost t2 = self.buf@;
        let ghost ind: Seq<char> = if old(self).indenting() { repeat_chars(old(self).unit(), element_depth(old(self).frames())) } else { seq![] };
        assert(t2 =~= t1 + ind);
        push_char(&mut self.buf, '<');
        push_qname_str(&mut self.buf, prefix, name);
        push_ns_decl(&mut self.buf, prefix, ns_uri);
        assert(self.buf@ =~= t + nl + ind + seq!['<'] + qname_chars(crate::tree::opt_str_view(prefix), name@)
            + ns_decl_text(crate::tree::opt_str_view(prefix), crate::tree::opt_str_view(ns_uri)));
        let f = Frame {
            kind: FrameKind::Element,
            name: String::from_str(name),
            prefix: match prefix {
                Some(p) => Some(String::from_str(p)),
                None => None,
            },
            open: false,
        };
        let ghost mid = self.frames();
        self.stack.push(f);
        assert(self.frames() =~= mid.push(frame_view(f)));
        assert(self.buf@ =~= start_tag_text(
            old(self).text(),
            old(self).frames(),
            old(self).indenting(),
            old(self).unit(),
            crate::tree::opt_str_view(prefix),
            name@,
            crate::tree::opt_str_view(ns_uri),
        ));
        Ok(())
    }

    /// `xmlTextWriterWriteAttribute`: only while a start tag is pending.
    pub fn write_attribute(&mut self, name: &str, value: &str) -> (r: Result<(), String>)
        ensures
            r is Ok <==> tag_pending(old(self).frames()),
            r is Ok ==> final(self).text() == old(self).text() + seq![' '] + name@ + "=\""@ + escaped(value@, true, false, false) + seq!['"'],
            r is Err ==> final(self).text() == old(self).text(),
            final(self).frames() == old(self).frames(),
            final(self).indenting() == old(self).indenting(),
            final(self).unit() == old(self).unit(),
    {
        let n = self.stack.len();
        if n == 0 {
            return Err(String::from_str("no open element"));
        }
        if self.stack[n - 1].kind != FrameKind::Element || self.stack[n - 1].open {
            return Err(String::from_str("attribute after element content"));
        }
        push_char(&mut self.buf, ' ');
        self.buf.append(name);
        self.buf.append("=\"");
        push_escaped(&mut self.buf, value, true, false, false);
        push_char(&mut self.buf, '"');
        assert(self.buf@ =~= old(self).buf@ + seq![' '] + name@ + "=\""@ + escaped(value@, true, false, false) + seq!['"']);
        Ok(())
    }

    /// `xmlTextWriterWriteAttributeNS`: the attribute under its qualified name.
    pub fn write_attribute_ns(&mut self, prefix: Option<&str>, name: &str, ns_uri: Option<&str>, value: &str) -> (r: Result<(), String>)
        ensures
            r is Ok <==> tag_pending(old(self).frames()),
            r is Ok ==> final(self).text() == old(self).text() + seq![' '] + qname_chars(crate::tree::opt_str_view(prefix), name@)
                + "=\""@ + escaped(value@, true, false, false) + seq!['"'],
            r is Err ==> final(self).text() == old(self).text(),
            final(self).frames() == old(self).frames(),
            final(self).indenting() == old(self).indenting(),
            final(self).unit() == old(self).unit(),
    {
        let mut q = String::new();
        push_qname_str(&mut q, prefix, name);
        self.write_attribute(q.as_str(), value)
    }

    /// `xmlTextWriterWriteString`: escaped text.
    pub fn write_string(&mut self, content: &str) -> (r: Result<(), String>)
        ensures
            r is Ok,
            final(self).text() == old(self).text() + close_text(old(self).frames()) + escaped(content@, false, false, false),
            final(self).frames() == after_close(old(self).frames()),
            final(self).indenting() == old(self).indenting(),
            final(self).unit() == old(self).unit(),
    {
        self.close_start_tag();
        push_escaped(&mut self.buf, content, false, false, false);
        Ok(())
    }

    /// `xmlTextWriterWriteComment`.
    pub fn write_comment(&mut self, content: &str) -> (r: Result<(), String>)
        ensures
            r is Ok,
            final(self).text() == old(self).text() + close_text(old(self).frames()) + "<!--"@ + content@ + "-->"@,
            final(self).frames() == after_close(old(self).frames()),
            final(self).indenting() == old(self).indenting(),
            final(self).unit() == old(self).unit(),
    {
        self.close_start_tag();
        self.buf.append("<!--");
        self.buf.append(content);
        self.buf.append("-->");
        Ok(())
    }

    /// `xmlTextWriterWritePI`.
    pub fn write_pi(&mut self, target: &str, data: Option<&str>) -> (r: Result<(), String>)
        ensures
            r is Ok,
            final(self).text() == old(self).text() + close_text(old(self).frames()) + "<?"@ + target@
                + (match data { Some(d) => seq![' '] + d@, None => seq![] }) + "?>"@,
            final(self).frames() == after_close(old(self).frames()),
            final(self).indenting() == old(self).indenting(),
            final(self).unit() == old(self).unit(),
    {
        self.close_start_tag();
        let ghost t = self.buf@;
        self.buf.append("<?");
        self.buf.append(target);
        match data {
            Some(d) => {
                push_char(&mut self.buf, ' ');
                self.buf.append(d);
            },
            None => {},
        }
        self.buf.append("?>");
        assert(self.buf@ =~= t + "<?"@ + target@ + (match data { Some(d) => seq![' '] + d@, None => seq![] }) + "?>"@);
        Ok(())
    }

    /// `xmlTextWriterWriteCDATA`.
    pub fn write_cdata(&mut self, content: &str) -> (r: Result<(), String>)
        ensures
            r is Ok,
            final(self).text() == old(self).text() + close_text(old(self).frames()) + "<![CDATA["@ + content@ + "]]>"@,
            final(self).frames() == after_close(old(self).frames()),
            final(self).indenting() == old(self).indenting(),
            final(self).unit() == old(self).unit(),
    {
        self.close_start_tag();
        self.buf.append("<![CDATA[");
        self.buf.append(content);
        self.buf.append("]]>");
        Ok(())
    }

    /// `xmlTextWriterWriteRaw`: the text as given.
    pub fn write_raw(&mut self, content: &str) -> (r: Result<(), String>)
        ensures
            r is Ok,
            final(self).text() == old(self).text() + close_text(old(self).frames()) + content@,
            final(self).frames() == after_close(old(self).frames()),
            final(self).indenting() == old(self).indenting(),
            final(self).unit() == old(self).unit(),
    {
        self.close_start_tag();
        self.buf.append(content);
        Ok(())
    }

    /// `xmlTextWriterEndElement`: `/>` for an element with no content, else
    /// its end tag. An error when no element is open; the document frame is
    /// dropped all the same.
    pub fn end_element(&mut self) -> (r: Result<(), String>)
        ensures
            r is Ok <==> (old(self).frames().len() > 0 && old(self).frames().last().element),
            r is Ok ==> final(self).text() == old(self).text() + end_tag(old(self).frames().last()),
            r is Err ==> final(self).text() == old(self).text(),
            old(self).frames().len() > 0 ==> final(self).frames() == old(self).frames().drop_last(),
            old(self).frames().len() == 0 ==> final(self).frames() == old(self).frames(),
            final(self).indenting() == old(self).indenting(),
            final(self).unit() == old(self).unit(),
    {
        let f = match self.stack.pop() {
            Some(f) => f,
            None => {
                return Err(String::from_str("no open element"));
            },
        };
        proof {
            assert(self.frames() =~= old(self).frames().drop_last());
            assert(frame_view(f) == old(self).frames().last());
        }
        if f.kind != FrameKind::Element {
            return Err(String::from_str("end_element on document"));
        }
        let ghost t = self.buf@;
        if !f.open {
            self.buf.append("/>");
        } else {
            self.buf.append("</");
            let pre: Option<&str> = match &f.prefix {
                Some(p) => Some(p.as_str()),
                None => None,
            };
            push_qname_str(&mut self.buf, pre, f.name.as_str());
            push_char(&mut self.buf, '>');
        }
        assert(self.buf@ =~= t + end_tag(frame_view(f)));
        Ok(())
    }

    /// `xmlTextWriterEndDocument`: close every open element and end with a
    /// line break.
    pub fn end_document(&mut self) -> (r: Result<(), String>)
        ensures
            r is Ok,
            final(self).text() == with_newline(old(self).text() + close_all(old(self).frames())),
            final(self).frames().len() == 0,
            final(self).indenting() == old(self).indenting(),
            final(self).unit() == old(self).unit(),
    {
        proof {
            assert(self.stack@.len() == self.frames().len());
        }
        while self.stack.len() > 0 && self.stack[self.stack.len() - 1].kind == FrameKind::Element
            invariant
                self.text() + close_all(self.frames()) == old(self).text() + close_all(old(self).frames()),
                self.stack@.len() == self.frames().len(),
                self.indenting() == old(self).indenting(),
                self.unit() == old(self).unit(),
            decreases self.stack.len(),
        {
            let ghost t = self.text();
            let ghost fs = self.frames();
            proof {
                assert(fs.last() == frame_view(self.stack@.last()));
            }
            let _ = self.end_element();
            proof {
                assert(self.stack@.len() == self.frames().len());
                assert(close_all(fs) == end_tag(fs.last()) + close_all(fs.drop_last()));
                assert(self.text() + close_all(self.frames()) =~= t + close_all(fs));
            }
        }
        proof {
            if self.frames().len() > 0 {
                assert(self.frames().last() == frame_view(self.stack@.last()));
            }
            assert(self.text() + close_all(self.frames()) =~= self.text());
            lemma_encode_last(self.buf@);
        }
        if !ends_with_newline(self.buf.as_str()) {
            push_char(&mut self.buf, '\n');
        }
        self.stack = Vec::new();
        assert(self.frames() =~= Seq::<OpenFrame>::empty());
        Ok(())
    }

    /// The document written, as bytes.
    pub fn into_bytes(self) -> (r: Vec<u8>)
        ensures
            r@ == vstd::utf8::encode_utf8(self.text()),
    {
        string_bytes(&self.buf)
    }

    /// The document written so far.
    pub fn as_str(&self) -> (r: &str)
        ensures
            r@ == self.text(),
    {
        self.buf.as_str()
    }
}

/// `xmlNewTextWriterMemory`.
pub fn xml_new_text_writer_memory() -> (r: XmlTextWriter)
    ensures
        r.text().len() == 0,
        r.frames().len() == 0,
        !r.indenting(),
        r.unit() == "  "@,
{
    XmlTextWriter::xml_new_text_writer_memory()
}

/// The text ends with a line feed.
fn ends_with_newline(s: &str) -> (r: bool)
    ensures
        r == (vstd::utf8::encode_utf8(s@).len() > 0 && vstd::utf8::encode_utf8(s@).last() == 0x0au8),
{
    let b = s.as_bytes();
    b.len() > 0 && b[b.len() - 1] == 0x0a
}

} // verus!
