//! XML Schema, a subset: global and local elements with occurrence bounds,
//! required attributes, sequence, choice and all.

use vstd::prelude::*;
use crate::tree::{XmlDoc, NodeId, NodeKind};
use crate::util::str_eq;

verus! {

/// The XML Schema namespace.
pub const XS_NS: &'static str = "http://www.w3.org/2001/XMLSchema";

/// A declared element.
#[derive(Debug)]
pub struct XsdElement {
    pub name: String,
    pub min: u32,
    pub max: u32,
    pub attrs: Vec<XsdAttr>,
    pub content: XsdContent,
}

/// A declared attribute.
#[derive(Debug)]
pub struct XsdAttr {
    pub name: String,
    pub required: bool,
}

/// What an element may contain.
#[derive(Debug)]
pub enum XsdContent {
    Any,
    Empty,
    Text,
    Sequence(Vec<XsdElement>),
    Choice(Vec<XsdElement>),
}

/// How deep schema compilation and checking may nest.
pub const XSD_FUEL: usize = 100000;

/// The value of the decimal digits `s`.
pub open spec fn digits_value(s: Seq<char>) -> nat
    decreases s.len(),
{
    if s.len() == 0 {
        0
    } else {
        digits_value(s.drop_last()) * 10 + ((s.last() as u32) - 48) as nat
    }
}

pub open spec fn all_digits(s: Seq<char>) -> bool {
    forall|i: int| 0 <= i < s.len() ==> '0' <= #[trigger] s[i] <= '9'
}

/// What `u32::from_str` accepts: an optional `+`, then one or more decimal
/// digits whose value fits.
pub open spec fn u32_text(s: Seq<char>) -> Option<u32> {
    let d = if s.len() > 0 && s[0] == '+' { s.drop_first() } else { s };
    if d.len() > 0 && all_digits(d) && digits_value(d) <= u32::MAX {
        Some(digits_value(d) as u32)
    } else {
        None
    }
}

/// The characters of `s`.
fn chars_of(s: &str) -> (r: Vec<char>)
    ensures
        r@ == s@,
{
    let mut v: Vec<char> = Vec::new();
    for c in it: s.chars()
        invariant
            it.seq() == s@,
            v@ == s@.take(it.index() as int),
    {
        proof {
            assert(s@.take(it.index() + 1) =~= s@.take(it.index() as int).push(c));
        }
        v.push(c);
    }
    assert(s@.take(s@.len() as int) =~= s@);
    v
}

/// `u32::from_str`.
pub fn parse_u32(s: &str) -> (r: Option<u32>)
    ensures
        r == u32_text(s@),
{
    let cs = chars_of(s);
    let start: usize = if cs.len() > 0 && cs[0] == '+' { 1 } else { 0 };
    let ghost d = if s@.len() > 0 && s@[0] == '+' { s@.drop_first() } else { s@ };
    proof {
        assert(d =~= cs@.subrange(start as int, cs@.len() as int));
    }
    if start >= cs.len() {
        return None;
    }
    let mut v: u64 = 0;
    let mut i = start;
    while i < cs.len()
        invariant
            cs@ == s@,
            d == (if s@.len() > 0 && s@[0] == '+' { s@.drop_first() } else { s@ }),
            d == cs@.subrange(start as int, cs@.len() as int),
            start <= i <= cs@.len(),
            all_digits(cs@.subrange(start as int, i as int)),
            v == digits_value(cs@.subrange(start as int, i as int)),
            v <= u32::MAX,
        decreases cs.len() - i,
    {
        let c = cs[i];
        proof {
            assert(cs@.subrange(start as int, i + 1).drop_last() =~= cs@.subrange(start as int, i as int));
        }
        if c < '0' || c > '9' {
            proof {
                assert(d[i - start] == c);
                assert(!all_digits(d));
            }
            return None;
        }
        v = v * 10 + ((c as u32) - 48) as u64;
        proof {
            let pre = cs@.subrange(start as int, i + 1);
            assert(pre.last() == c);
            assert(v == digits_value(pre));
            assert(d.take(i + 1 - start) =~= pre);
        }
        if v > 0xffff_ffff {
            proof {
                lemma_digits_grow(d, (i + 1 - start) as int);
            }
            return None;
        }
        proof {
            assert forall|k: int| 0 <= k < i + 1 - start implies '0' <= #[trigger] cs@.subrange(start as int, i + 1)[k] <= '9' by {
                if k < i - start {
                    assert(cs@.subrange(start as int, i + 1)[k] == cs@.subrange(start as int, i as int)[k]);
                }
            }
        }
        i += 1;
    }
    Some(v as u32)
}

/// Digits past a prefix only make the value larger.
proof fn lemma_digits_grow(d: Seq<char>, n: int)
    requires
        0 <= n <= d.len(),
        all_digits(d.take(n)) || true,
    ensures
        all_digits(d) ==> digits_value(d.take(n)) <= digits_value(d),
    decreases d.len() - n,
{
    if n < d.len() {
        lemma_digits_grow(d, n + 1);
        if all_digits(d) {
            assert(d.take(n + 1).drop_last() =~= d.take(n));
        }
    } else {
        assert(d.take(n) =~= d);
    }
}

/// `id` is the XML Schema element `name`.
fn is_xs(doc: &XmlDoc, id: NodeId, name: &str) -> (r: bool)
    requires
        doc.has(id),
    ensures
        r == crate::tree::named_in(*doc, id, name@, XS_NS@),
{
    if doc.kind(id) != NodeKind::Element || !str_eq(doc.name(id), name) {
        return false;
    }
    match doc.ns_uri(id) {
        Some(u) => str_eq(u, XS_NS),
        None => true,
    }
}

/// The elements among `kids`, in order.
pub open spec fn elements_among(doc: XmlDoc, kids: Seq<NodeId>) -> Seq<NodeId>
    decreases kids.len(),
{
    if kids.len() == 0 {
        seq![]
    } else {
        let r = elements_among(doc, kids.drop_last());
        if doc.nodes()[kids.last().0 as int].kind == NodeKind::Element { r.push(kids.last()) } else { r }
    }
}

/// The element children of `id`, in order.
pub open spec fn element_kids(doc: XmlDoc, id: NodeId) -> Seq<NodeId> {
    elements_among(doc, crate::valid::kids_of(doc, id))
}

/// The element children of `id`, in order.
fn element_children(doc: &XmlDoc, id: NodeId) -> (r: Vec<NodeId>)
    requires
        doc.wf(),
        doc.has(id),
    ensures
        r@ == element_kids(*doc, id),
        forall|k: int| 0 <= k < r@.len() ==> doc.has(#[trigger] r@[k]),
{
    let kids = doc.children(id);
    let mut out: Vec<NodeId> = Vec::new();
    let mut i: usize = 0;
    while i < kids.len()
        invariant
            doc.wf(),
            kids@ == crate::valid::kids_of(*doc, id),
            forall|k: int| 0 <= k < kids@.len() ==> doc.has(#[trigger] kids@[k]),
            i <= kids@.len(),
            out@ == elements_among(*doc, kids@.take(i as int)),
            forall|k: int| 0 <= k < out@.len() ==> doc.has(#[trigger] out@[k]),
        decreases kids.len() - i,
    {
        let x = kids[i];
        proof {
            assert(kids@.take(i + 1).drop_last() =~= kids@.take(i as int));
            assert(kids@.take(i + 1).last() == x);
        }
        if doc.kind(x) == NodeKind::Element {
            out.push(x);
        }
        i += 1;
    }
    assert(kids@.take(i as int) =~= kids@);
    out
}

fn find(doc: &XmlDoc, id: NodeId, name: &str) -> (r: Option<NodeId>)
    requires
        doc.wf(),
        doc.has(id),
    ensures
        r matches Some(x) ==> doc.has(x),
        r matches Some(x) ==> exists|k: int| 0 <= k < crate::xsd::element_kids(*doc, id).len()
            && crate::xsd::element_kids(*doc, id)[k] == x && crate::tree::named_in(*doc, x, name@, XS_NS@)
            && forall|j: int| 0 <= j < k ==> !crate::tree::named_in(*doc, #[trigger] crate::xsd::element_kids(*doc, id)[j], name@, XS_NS@),
        r is None ==> forall|j: int| 0 <= j < crate::xsd::element_kids(*doc, id).len()
            ==> !crate::tree::named_in(*doc, #[trigger] crate::xsd::element_kids(*doc, id)[j], name@, XS_NS@),
{
    let kids = element_children(doc, id);
    let mut k: usize = 0;
    while k < kids.len()
        invariant
            doc.wf(),
            k <= kids@.len(),
            kids@ == crate::xsd::element_kids(*doc, id),
            forall|j: int| 0 <= j < kids@.len() ==> doc.has(#[trigger] kids@[j]),
            forall|j: int| 0 <= j < k ==> !crate::tree::named_in(*doc, #[trigger] kids@[j], name@, XS_NS@),
        decreases kids.len() - k,
    {
        if is_xs(doc, kids[k], name) {
            return Some(kids[k]);
        }
        k += 1;
    }
    None
}

/// The value of attribute `name` of `id`, when it has one.
pub open spec fn prop_text(doc: XmlDoc, id: NodeId, name: Seq<char>) -> Option<Seq<char>> {
    match crate::tree::prop_of(doc, id, name) {
        Some(a) => Some(doc.nodes()[a.0 as int].content@),
        None => None,
    }
}

/// An occurrence bound as written: a number, `unbounded` where that is
/// allowed, and 1 for anything else or nothing.
pub open spec fn bound_of(t: Option<Seq<char>>, unbounded_ok: bool) -> u32 {
    match t {
        Some(s) => if unbounded_ok && s == "unbounded"@ {
            u32::MAX
        } else {
            match u32_text(s) {
                Some(v) => v,
                None => 1,
            }
        },
        None => 1,
    }
}

/// `minOccurs` and `maxOccurs` of element `id` (`unbounded` is `u32::MAX`;
/// what does not read as a number is 1).
fn occurs(doc: &XmlDoc, id: NodeId) -> (r: (u32, u32))
    requires
        doc.wf(),
        doc.has(id),
    ensures
        r == (bound_of(prop_text(*doc, id, "minOccurs"@), false), bound_of(prop_text(*doc, id, "maxOccurs"@), true)),
{
    let min = match doc.xml_get_prop(id, "minOccurs") {
        Some(s) => match parse_u32(s.as_str()) {
            Some(v) => v,
            None => 1,
        },
        None => 1,
    };
    let max = match doc.xml_get_prop(id, "maxOccurs") {
        Some(s) => {
            if str_eq(s.as_str(), "unbounded") {
                u32::MAX
            } else {
                match parse_u32(s.as_str()) {
                    Some(v) => v,
                    None => 1,
                }
            }
        },
        None => 1,
    };
    (min, max)
}

/// Where the text after the last `:` among the first `i` characters begins.
pub open spec fn after_colon(s: Seq<char>, i: int) -> int
    decreases i,
{
    if i <= 0 {
        0
    } else if s[i - 1] == ':' {
        i
    } else {
        after_colon(s, i - 1)
    }
}

/// The part of a qualified name after its last `:`.
fn local_name(qn: &str) -> (r: String)
    ensures
        r@ == qn@.subrange(after_colon(qn@, qn@.len() as int), qn@.len() as int),
{
    let cs = chars_of(qn);
    let mut start: usize = 0;
    let mut i: usize = 0;
    while i < cs.len()
        invariant
            start <= i <= cs@.len(),
            cs@ == qn@,
            start == after_colon(qn@, i as int),
        decreases cs.len() - i,
    {
        if cs[i] == ':' {
            start = i + 1;
        }
        i += 1;
    }
    let mut out = String::new();
    let mut k = start;
    while k < cs.len()
        invariant
            start <= k <= cs@.len(),
            out@ == cs@.subrange(start as int, k as int),
        decreases cs.len() - k,
    {
        crate::util::push_char(&mut out, cs[k]);
        assert(cs@.subrange(start as int, k + 1) =~= cs@.subrange(start as int, k as int).push(cs@[k as int]));
        k += 1;
    }
    out
}

/// `x` is an `xs:sequence`, `xs:all`, `xs:choice`, `xs:simpleContent` or
/// `xs:complexContent`: a child of a complex type that decides its content.
pub open spec fn is_particle(doc: XmlDoc, x: NodeId) -> bool {
    ||| crate::tree::named_in(doc, x, "sequence"@, XS_NS@)
    ||| crate::tree::named_in(doc, x, "all"@, XS_NS@)
    ||| crate::tree::named_in(doc, x, "choice"@, XS_NS@)
    ||| crate::tree::named_in(doc, x, "simpleContent"@, XS_NS@)
    ||| crate::tree::named_in(doc, x, "complexContent"@, XS_NS@)
}

/// The last particle among `kids`.
pub open spec fn last_particle(doc: XmlDoc, kids: Seq<NodeId>) -> Option<NodeId>
    decreases kids.len(),
{
    if kids.len() == 0 {
        None
    } else if is_particle(doc, kids.last()) {
        Some(kids.last())
    } else {
        last_particle(doc, kids.drop_last())
    }
}

/// The content a complex type whose last particle is `p` has: empty
/// without one, a choice for `xs:choice`, a sequence for `xs:sequence` and
/// `xs:all`, anything for simple or complex content.
pub open spec fn content_follows(doc: XmlDoc, content: XsdContent, p: Option<NodeId>) -> bool {
    match p {
        None => content is Empty,
        Some(x) => {
            &&& crate::tree::named_in(doc, x, "choice"@, XS_NS@) ==> content is Choice
            &&& (crate::tree::named_in(doc, x, "sequence"@, XS_NS@) || crate::tree::named_in(doc, x, "all"@, XS_NS@))
                ==> content is Sequence
            &&& (crate::tree::named_in(doc, x, "simpleContent"@, XS_NS@)
                || crate::tree::named_in(doc, x, "complexContent"@, XS_NS@)) ==> content is Any
        },
    }
}

/// The attributes the `xs:attribute` children among `kids` declare: each
/// named one, required when its `use` is `required`.
pub open spec fn declared_attrs(doc: XmlDoc, kids: Seq<NodeId>) -> Seq<(Seq<char>, bool)>
    decreases kids.len(),
{
    if kids.len() == 0 {
        seq![]
    } else {
        let rest = declared_attrs(doc, kids.drop_last());
        let x = kids.last();
        if crate::tree::named_in(doc, x, "attribute"@, XS_NS@) {
            match prop_text(doc, x, "name"@) {
                Some(n) => rest.push((n, prop_text(doc, x, "use"@) == Some("required"@))),
                None => rest,
            }
        } else {
            rest
        }
    }
}

/// The names and requiredness of declared attributes.
pub open spec fn attr_view(v: Seq<XsdAttr>) -> Seq<(Seq<char>, bool)> {
    v.map_values(|a: XsdAttr| (a.name@, a.required))
}

/// `kids[c]` is the first XML Schema element `name` among `kids`.
pub open spec fn first_xs_at(doc: XmlDoc, kids: Seq<NodeId>, name: Seq<char>, c: int) -> bool {
    &&& 0 <= c < kids.len()
    &&& crate::tree::named_in(doc, kids[c], name, XS_NS@)
    &&& forall|j: int| 0 <= j < c ==> !crate::tree::named_in(doc, #[trigger] kids[j], name, XS_NS@)
}

/// Compile the `xs:element` at `id`; `None` when it has no name.
fn compile_element(doc: &XmlDoc, id: NodeId, fuel: usize) -> (r: Option<XsdElement>)
    requires
        doc.wf(),
        doc.has(id),
    ensures
        r is Some <==> fuel > 0 && prop_text(*doc, id, "name"@) is Some,
        r matches Some(e) ==> {
            &&& prop_text(*doc, id, "name"@) == Some(e.name@)
            &&& e.min == bound_of(prop_text(*doc, id, "minOccurs"@), false)
            &&& e.max == bound_of(prop_text(*doc, id, "maxOccurs"@), true)
            &&& (forall|j: int| 0 <= j < element_kids(*doc, id).len()
                ==> !crate::tree::named_in(*doc, #[trigger] element_kids(*doc, id)[j], "complexType"@, XS_NS@))
                ==> e.content is Text
            &&& forall|c: int| #[trigger] first_xs_at(*doc, element_kids(*doc, id), "complexType"@, c)
                ==> content_follows(*doc, e.content, last_particle(*doc, element_kids(*doc, element_kids(*doc, id)[c])))
                    && attr_view(e.attrs@) == declared_attrs(*doc, element_kids(*doc, element_kids(*doc, id)[c]))
            &&& (forall|j: int| 0 <= j < element_kids(*doc, id).len()
                ==> !crate::tree::named_in(*doc, #[trigger] element_kids(*doc, id)[j], "complexType"@, XS_NS@))
                ==> e.attrs@.len() == 0
        },
    decreases fuel, 0nat,
{
    if fuel == 0 {
        return None;
    }
    proof {
        reveal_strlit("sequence");
        reveal_strlit("all");
        reveal_strlit("choice");
        reveal_strlit("attribute");
        reveal_strlit("simpleContent");
        reveal_strlit("complexContent");
        assert("sequence"@.len() == 8 && "all"@.len() == 3 && "choice"@.len() == 6 && "attribute"@.len() == 9
            && "simpleContent"@.len() == 13 && "complexContent"@.len() == 14);
    }
    let name = match doc.xml_get_prop(id, "name") {
        Some(n) => n,
        None => {
            return None;
        },
    };
    let (min, max) = occurs(doc, id);
    let mut attrs: Vec<XsdAttr> = Vec::new();
    let mut content = XsdContent::Text;
    match find(doc, id, "complexType") {
        Some(ct) => {
            content = XsdContent::Empty;
            let kids = element_children(doc, ct);
            let mut k: usize = 0;
            while k < kids.len()
                invariant
                    doc.wf(),
                    k <= kids@.len(),
                    fuel > 0,
                    forall|j: int| 0 <= j < kids@.len() ==> doc.has(#[trigger] kids@[j]),
                    kids@ == element_kids(*doc, ct),
                    content_follows(*doc, content, last_particle(*doc, kids@.take(k as int))),
                    attr_view(attrs@) == declared_attrs(*doc, kids@.take(k as int)),
                    "sequence"@.len() == 8 && "all"@.len() == 3 && "choice"@.len() == 6 && "attribute"@.len() == 9
                        && "simpleContent"@.len() == 13 && "complexContent"@.len() == 14,
                decreases kids.len() - k,
            {
                let x = kids[k];
                proof {
                    assert(kids@.take(k + 1).drop_last() =~= kids@.take(k as int));
                    assert(kids@.take(k + 1).last() == x);
                }
                if is_xs(doc, x, "sequence") || is_xs(doc, x, "all") {
                    content = XsdContent::Sequence(child_elements(doc, x, fuel - 1));
                } else if is_xs(doc, x, "choice") {
                    content = XsdContent::Choice(child_elements(doc, x, fuel - 1));
                } else if is_xs(doc, x, "attribute") {
                    match doc.xml_get_prop(x, "name") {
                        Some(n) => {
                            let required = match doc.xml_get_prop(x, "use") {
                                Some(u) => str_eq(u.as_str(), "required"),
                                None => false,
                            };
                            let ghost before = attrs@;
                            attrs.push(XsdAttr { name: n, required });
                            assert(attr_view(attrs@) =~= attr_view(before).push((n@, required)));
                        },
                        None => {},
                    }
                } else if is_xs(doc, x, "simpleContent") || is_xs(doc, x, "complexContent") {
                    content = XsdContent::Any;
                }
                k += 1;
            }
            proof {
                assert(kids@.take(k as int) =~= kids@);
                let ek = element_kids(*doc, id);
                let k0 = choose|k0: int| 0 <= k0 < ek.len() && ek[k0] == ct && crate::tree::named_in(*doc, ct, "complexType"@, XS_NS@)
                    && forall|j: int| 0 <= j < k0 ==> !crate::tree::named_in(*doc, #[trigger] ek[j], "complexType"@, XS_NS@);
                assert forall|c: int| #[trigger] first_xs_at(*doc, ek, "complexType"@, c) implies c == k0 by {
                    if c < k0 {
                        assert(!crate::tree::named_in(*doc, ek[c], "complexType"@, XS_NS@));
                    } else if c > k0 {
                        assert(!crate::tree::named_in(*doc, ek[k0], "complexType"@, XS_NS@));
                    }
                }
            }
        },
        None => {},
    }
    Some(XsdElement { name, min, max, attrs, content })
}

/// The element particles of a sequence, choice or all: local declarations,
/// and references to global ones.
fn child_elements(doc: &XmlDoc, id: NodeId, fuel: usize) -> (r: Vec<XsdElement>)
    requires
        doc.wf(),
        doc.has(id),
    decreases fuel, 1nat,
{
    let kids = element_children(doc, id);
    let mut v: Vec<XsdElement> = Vec::new();
    let mut k: usize = 0;
    while k < kids.len()
        invariant
            doc.wf(),
            k <= kids@.len(),
            forall|j: int| 0 <= j < kids@.len() ==> doc.has(#[trigger] kids@[j]),
        decreases kids.len() - k,
    {
        let x = kids[k];
        if is_xs(doc, x, "element") {
            match compile_element(doc, x, fuel) {
                Some(d) => v.push(d),
                None => match doc.xml_get_prop(x, "ref") {
                    Some(r) => {
                        let (min, max) = occurs(doc, x);
                        v.push(XsdElement { name: local_name(r.as_str()), min, max, attrs: Vec::new(), content: XsdContent::Any });
                    },
                    None => {},
                },
            }
        }
        k += 1;
    }
    v
}

/// The global element declarations of the schema document (a later one of
/// a name overrides an earlier one).
fn compile(doc: &XmlDoc) -> (r: Result<Vec<XsdElement>, String>)
    requires
        doc.wf(),
{
    let root = match doc.xml_doc_get_root_element() {
        Some(r) => r,
        None => {
            return Err(String::from_str("empty schema"));
        },
    };
    let kids = element_children(doc, root);
    let mut elements: Vec<XsdElement> = Vec::new();
    let mut k: usize = 0;
    while k < kids.len()
        invariant
            doc.wf(),
            k <= kids@.len(),
            forall|j: int| 0 <= j < kids@.len() ==> doc.has(#[trigger] kids@[j]),
        decreases kids.len() - k,
    {
        if is_xs(doc, kids[k], "element") {
            match compile_element(doc, kids[k], XSD_FUEL) {
                Some(d) => elements.push(d),
                None => {},
            }
        }
        k += 1;
    }
    Ok(elements)
}

/// The last declaration named `name`.
pub open spec fn global_decl(els: Seq<XsdElement>, name: Seq<char>) -> Option<XsdElement>
    decreases els.len(),
{
    if els.len() == 0 {
        None
    } else if els.last().name@ == name {
        Some(els.last())
    } else {
        global_decl(els.drop_last(), name)
    }
}

/// The declaration a particle stands for: the global one of its name when
/// there is one, else the particle itself.
pub open spec fn resolve_decl(els: Seq<XsdElement>, part: XsdElement) -> XsdElement {
    match global_decl(els, part.name@) {
        Some(g) => g,
        None => part,
    }
}

/// `cuts` splits `0..len` into `n` consecutive runs.
pub open spec fn cut_points(cuts: Seq<int>, n: nat, len: nat) -> bool {
    &&& cuts.len() == n + 1
    &&& cuts[0] == 0
    &&& cuts[n as int] == len
    &&& forall|p: int, q: int| 0 <= p <= q <= n ==> #[trigger] cuts[p] <= #[trigger] cuts[q]
}

/// Element `id` is valid against `decl`, the global declarations being
/// `els`, nesting at most `fuel` deep: its required attributes are
/// present; empty content has no element children; a choice has one child,
/// named as some alternative and valid against it; a sequence's children
/// split into consecutive runs, one per particle, each as long as the
/// particle's occurrence bounds allow, of children named as the particle
/// and valid against it.
pub open spec fn xsd_valid(doc: XmlDoc, id: NodeId, decl: XsdElement, els: Seq<XsdElement>, fuel: nat) -> bool
    decreases fuel,
{
    if fuel == 0 {
        false
    } else {
        let kids = element_kids(doc, id);
        &&& forall|k: int| 0 <= k < decl.attrs@.len() && (#[trigger] decl.attrs@[k]).required
            ==> crate::tree::prop_of(doc, id, decl.attrs@[k].name@) is Some
        &&& match decl.content {
            XsdContent::Any => true,
            XsdContent::Text => true,
            XsdContent::Empty => kids.len() == 0,
            XsdContent::Sequence(parts) => exists|cuts: Seq<int>|
                #[trigger] cut_points(cuts, parts@.len(), kids.len())
                && (forall|p: int| 0 <= p < parts@.len() ==> (#[trigger] parts@[p]).min <= cuts[p + 1] - cuts[p]
                    && (parts@[p].max == 0 || cuts[p + 1] - cuts[p] <= parts@[p].max))
                && (forall|p: int, i: int| #![trigger parts@[p], kids[i]]
                    0 <= p < parts@.len() && cuts[p] <= i < cuts[p + 1]
                    ==> crate::tree::node_name(doc.nodes()[kids[i].0 as int]) == parts@[p].name@
                        && xsd_valid(doc, kids[i], resolve_decl(els, parts@[p]), els, (fuel - 1) as nat)),
            XsdContent::Choice(alts) => kids.len() == 1 && exists|a: int|
                0 <= a < alts@.len() && crate::tree::node_name(doc.nodes()[kids[0].0 as int]) == (#[trigger] alts@[a]).name@
                    && xsd_valid(doc, kids[0], resolve_decl(els, alts@[a]), els, (fuel - 1) as nat),
        }
    }
}

/// The last global declaration named `name`.
fn global<'a>(elements: &'a Vec<XsdElement>, name: &str) -> (r: Option<&'a XsdElement>)
    ensures
        r == (match global_decl(elements@, name@) { Some(g) => Some(&g), None => None::<&XsdElement> }),
{
    let mut k = elements.len();
    assert(elements@.take(k as int) =~= elements@);
    while k > 0
        invariant
            k <= elements@.len(),
            global_decl(elements@, name@) == global_decl(elements@.take(k as int), name@),
        decreases k,
    {
        let ghost t = elements@.take(k as int);
        k -= 1;
        proof {
            assert(t.drop_last() =~= elements@.take(k as int));
            assert(t.last() == elements@[k as int]);
        }
        if str_eq(elements[k].name.as_str(), name) {
            return Some(&elements[k]);
        }
    }
    None
}

fn msg2(a: &str, b: &str, c: &str) -> (r: String) {
    let mut m = String::from_str(a);
    m.append(b);
    m.append(c);
    m
}

/// `decl` asks nothing of an element: no required attribute, and any
/// content or text.
pub open spec fn asks_nothing(decl: XsdElement) -> bool {
    &&& decl.content is Any || decl.content is Text
    &&& forall|k: int| 0 <= k < decl.attrs@.len() ==> !(#[trigger] decl.attrs@[k]).required
}

/// `alts[a]` is the first alternative named `n`.
pub open spec fn first_alt_named(alts: Seq<XsdElement>, n: Seq<char>, a: int) -> bool {
    &&& 0 <= a < alts.len()
    &&& alts[a].name@ == n
    &&& forall|j: int| 0 <= j < a ==> (#[trigger] alts[j]).name@ != n
}

/// Element `id` is made of exactly one child, named as an alternative of
/// the choice `alts` whose declaration asks nothing of it.
pub open spec fn one_plain_alternative(doc: XmlDoc, id: NodeId, alts: Seq<XsdElement>, els: Seq<XsdElement>) -> bool {
    &&& element_kids(doc, id).len() == 1
    &&& exists|a: int| #[trigger] first_alt_named(alts, crate::tree::node_name(doc.nodes()[element_kids(doc, id)[0].0 as int]), a)
        && asks_nothing(resolve_decl(els, alts[a]))
}

/// Element `id` against its declaration.
fn check_element(doc: &XmlDoc, id: NodeId, decl: &XsdElement, elements: &Vec<XsdElement>, fuel: usize) -> (r: Result<(), String>)
    requires
        doc.wf(),
        doc.has(id),
    ensures
        r is Ok ==> xsd_valid(*doc, id, *decl, elements@, fuel as nat),
        fuel > 0 && asks_nothing(*decl) ==> r is Ok,
        fuel > 1 && (forall|k: int| 0 <= k < decl.attrs@.len() ==> !(#[trigger] decl.attrs@[k]).required) ==> match decl.content {
            XsdContent::Choice(alts) => one_plain_alternative(*doc, id, alts@, elements@) ==> r is Ok,
            _ => true,
        },
    decreases fuel, 2nat,
{
    if fuel == 0 {
        return Err(String::from_str("document nested too deeply"));
    }
    let mut k: usize = 0;
    while k < decl.attrs.len()
        invariant
            doc.wf(),
            doc.has(id),
            k <= decl.attrs@.len(),
            forall|j: int| 0 <= j < k && (#[trigger] decl.attrs@[j]).required
                ==> crate::tree::prop_of(*doc, id, decl.attrs@[j].name@) is Some,
        decreases decl.attrs.len() - k,
    {
        if decl.attrs[k].required && doc.xml_get_prop(id, decl.attrs[k].name.as_str()).is_none() {
            return Err(msg2("required attribute ", decl.attrs[k].name.as_str(), " missing"));
        }
        k += 1;
    }
    let kids = element_children(doc, id);
    match &decl.content {
        XsdContent::Any | XsdContent::Text => Ok(()),
        XsdContent::Empty => {
            if kids.len() > 0 {
                Err(msg2(decl.name.as_str(), " must be empty", ""))
            } else {
                Ok(())
            }
        },
        XsdContent::Sequence(parts) => {
            check_sequence(doc, &kids, parts, elements, fuel)?;
            Ok(())
        },
        XsdContent::Choice(alts) => {
            if kids.len() != 1 {
                return Err(String::from_str("choice expects one child"));
            }
            let n = doc.name(kids[0]);
            let mut a: usize = 0;
            while a < alts.len()
                invariant
                    doc.wf(),
                    a <= alts@.len(),
                    fuel > 0,
                    kids@.len() == 1,
                    forall|j: int| 0 <= j < kids@.len() ==> doc.has(#[trigger] kids@[j]),
                    n@ == crate::tree::node_name(doc.nodes()[kids@[0].0 as int]),
                    doc.has(id),
                    kids@ == element_kids(*doc, id),
                    decl.content == XsdContent::Choice(*alts),
                    forall|j: int| 0 <= j < decl.attrs@.len() && (#[trigger] decl.attrs@[j]).required
                        ==> crate::tree::prop_of(*doc, id, decl.attrs@[j].name@) is Some,
                    forall|j: int| 0 <= j < a ==> (#[trigger] alts@[j]).name@ != n@,
                decreases alts.len() - a,
            {
                let same = str_eq(alts[a].name.as_str(), n);
                assert(same == (alts@[a as int].name@ == n@));
                assert(n@ == crate::tree::node_name(doc.nodes()[kids@[0].0 as int]));
                if same {
                    let sub = match global(elements, alts[a].name.as_str()) {
                        Some(g) => g,
                        None => &alts[a],
                    };
                    assert(*sub == resolve_decl(elements@, alts@[a as int]));
                    proof {
                        if fuel > 1 && one_plain_alternative(*doc, id, alts@, elements@) {
                            let a0 = choose|a0: int| #[trigger] first_alt_named(alts@, n@, a0)
                                && asks_nothing(resolve_decl(elements@, alts@[a0]));
                            assert(first_alt_named(alts@, n@, a as int));
                            if a0 < a {
                                assert(alts@[a0].name@ != n@);
                            } else if a0 > a {
                                assert(alts@[a as int].name@ != n@);
                            }
                            assert(asks_nothing(*sub));
                        }
                    }
                    let res = check_element(doc, kids[0], sub, elements, fuel - 1);
                    proof {
                        if res is Ok {
                            assert(crate::tree::node_name(doc.nodes()[kids@[0].0 as int]) == alts@[a as int].name@);
                            assert(xsd_valid(*doc, kids@[0], resolve_decl(elements@, alts@[a as int]), elements@, (fuel - 1) as nat));
                            assert(decl.content == XsdContent::Choice(*alts));
                            assert(element_kids(*doc, id) == kids@);
                            assert(exists|b: int| 0 <= b < alts@.len() && crate::tree::node_name(doc.nodes()[kids@[0].0 as int]) == (#[trigger] alts@[b]).name@
                                && xsd_valid(*doc, kids@[0], resolve_decl(elements@, alts@[b]), elements@, (fuel - 1) as nat));
                        }
                    }
                    return res;
                }
                a += 1;
            }
            proof {
                if one_plain_alternative(*doc, id, alts@, elements@) {
                    let a0 = choose|a0: int| #[trigger] first_alt_named(alts@, n@, a0)
                        && asks_nothing(resolve_decl(elements@, alts@[a0]));
                    assert(alts@[a0].name@ != n@);
                }
            }
            Err(String::from_str("choice mismatch"))
        },
    }
}

/// The run of children from `start` named as `part`: as many as it may
/// take, each valid against it. The end of the run, and its length capped
/// to fit a `u32`.
fn take_run(doc: &XmlDoc, kids: &Vec<NodeId>, start: usize, part: &XsdElement, elements: &Vec<XsdElement>, fuel: usize) -> (r: Result<(usize, u32), String>)
    requires
        doc.wf(),
        fuel > 0,
        start <= kids@.len(),
        forall|j: int| 0 <= j < kids@.len() ==> doc.has(#[trigger] kids@[j]),
    ensures
        r is Ok ==> start <= r.unwrap().0 <= kids@.len(),
        r is Ok ==> r.unwrap().1 as int == (if r.unwrap().0 - start > u32::MAX { u32::MAX as int } else { r.unwrap().0 - start }),
        r is Ok ==> (part.max == 0 || r.unwrap().0 - start <= part.max),
        r is Ok ==> forall|j: int| #![trigger kids@[j]] start <= j < r.unwrap().0 ==> crate::tree::node_name(doc.nodes()[kids@[j].0 as int]) == part.name@
            && xsd_valid(*doc, kids@[j], resolve_decl(elements@, *part), elements@, (fuel - 1) as nat),
    decreases fuel, 0nat,
{
    let mut i = start;
    let mut seen: u32 = 0;
    loop
        invariant
            doc.wf(),
            start <= i <= kids@.len(),
            fuel > 0,
            forall|j: int| 0 <= j < kids@.len() ==> doc.has(#[trigger] kids@[j]),
            seen as int == (if i - start > u32::MAX { u32::MAX as int } else { i - start }),
            part.max == 0 || i - start < part.max,
            forall|j: int| #![trigger kids@[j]] start <= j < i ==> crate::tree::node_name(doc.nodes()[kids@[j].0 as int]) == part.name@
                && xsd_valid(*doc, kids@[j], resolve_decl(elements@, *part), elements@, (fuel - 1) as nat),
        decreases kids.len() - i,
    {
        if i >= kids.len() {
            return Ok((i, seen));
        }
        let nm = doc.name(kids[i]);
        if !str_eq(nm, part.name.as_str()) {
            return Ok((i, seen));
        }
        assert(crate::tree::node_name(doc.nodes()[kids@[i as int].0 as int]) == part.name@);
        let sub = match global(elements, part.name.as_str()) {
            Some(g) => g,
            None => part,
        };
        assert(*sub == resolve_decl(elements@, *part));
        let res = check_element(doc, kids[i], sub, elements, fuel - 1);
        assert(res is Ok ==> xsd_valid(*doc, kids@[i as int], resolve_decl(elements@, *part), elements@, (fuel - 1) as nat));
        res?;
        i += 1;
        if seen < u32::MAX {
            seen += 1;
        }
        if seen == part.max {
            return Ok((i, seen));
        }
    }
}

/// The children `kids` against the particles `parts` of a sequence, each
/// taking as many children of its name as it may, at least as many as it must.
fn check_sequence(doc: &XmlDoc, kids: &Vec<NodeId>, parts: &Vec<XsdElement>, elements: &Vec<XsdElement>, fuel: usize) -> (r: Result<(), String>)
    requires
        doc.wf(),
        fuel > 0,
        forall|j: int| 0 <= j < kids@.len() ==> doc.has(#[trigger] kids@[j]),
    ensures
        r is Ok ==> exists|cuts: Seq<int>|
            #[trigger] cut_points(cuts, parts@.len(), kids@.len())
            && (forall|p: int| 0 <= p < parts@.len() ==> (#[trigger] parts@[p]).min <= cuts[p + 1] - cuts[p]
                && (parts@[p].max == 0 || cuts[p + 1] - cuts[p] <= parts@[p].max))
            && (forall|p: int, i: int| #![trigger parts@[p], kids@[i]]
                0 <= p < parts@.len() && cuts[p] <= i < cuts[p + 1]
                ==> crate::tree::node_name(doc.nodes()[kids@[i].0 as int]) == parts@[p].name@
                    && xsd_valid(*doc, kids@[i], resolve_decl(elements@, parts@[p]), elements@, (fuel - 1) as nat)),
    decreases fuel, 1nat,
{
    let mut i: usize = 0;
    let mut p: usize = 0;
    let ghost mut cuts: Seq<int> = seq![0];
    while p < parts.len()
        invariant
            doc.wf(),
            i <= kids@.len(),
            p <= parts@.len(),
            fuel > 0,
            forall|j: int| 0 <= j < kids@.len() ==> doc.has(#[trigger] kids@[j]),
            cuts.len() == p + 1,
            cuts[0] == 0,
            cuts[p as int] == i,
            forall|x: int, y: int| 0 <= x <= y <= p ==> #[trigger] cuts[x] <= #[trigger] cuts[y],
            forall|q: int| 0 <= q < p ==> (#[trigger] parts@[q]).min <= cuts[q + 1] - cuts[q]
                && (parts@[q].max == 0 || cuts[q + 1] - cuts[q] <= parts@[q].max),
            forall|q: int, j: int| #![trigger parts@[q], kids@[j]]
                0 <= q < p && cuts[q] <= j < cuts[q + 1]
                ==> crate::tree::node_name(doc.nodes()[kids@[j].0 as int]) == parts@[q].name@
                    && xsd_valid(*doc, kids@[j], resolve_decl(elements@, parts@[q]), elements@, (fuel - 1) as nat),
        decreases parts.len() - p,
    {
        let part = &parts[p];
        let start = i;
        let (i2, seen) = take_run(doc, kids, start, part, elements, fuel)?;
        i = i2;
        if seen < part.min {
            return Err(msg2("too few occurrences of ", part.name.as_str(), ""));
        }
        proof {
            let old_cuts = cuts;
            cuts = cuts.push(i as int);
            assert forall|x: int, y: int| 0 <= x <= y <= p + 1 implies #[trigger] cuts[x] <= #[trigger] cuts[y] by {
                if y == p + 1 {
                    if x <= p {
                        assert(old_cuts[x] <= old_cuts[p as int]);
                    }
                } else {
                    assert(old_cuts[x] <= old_cuts[y]);
                }
            }
            assert forall|q: int, j: int| #![trigger parts@[q], kids@[j]]
                0 <= q < p + 1 && cuts[q] <= j < cuts[q + 1]
                implies crate::tree::node_name(doc.nodes()[kids@[j].0 as int]) == parts@[q].name@
                    && xsd_valid(*doc, kids@[j], resolve_decl(elements@, parts@[q]), elements@, (fuel - 1) as nat) by {
                if q == p {
                    assert(cuts[q] == start);
                } else {
                    assert(cuts[q] == old_cuts[q] && cuts[q + 1] == old_cuts[q + 1]);
                }
            }
        }
        p += 1;
    }
    if i != kids.len() {
        return Err(String::from_str("extra children in sequence"));
    }
    assert(cut_points(cuts, parts@.len(), kids@.len()));
    Ok(())
}

/// `doc` against the compiled global declarations `elements`: its root
/// element against the last declaration of its name.
pub fn xml_schema_validate_compiled(elements: &Vec<XsdElement>, doc: &XmlDoc) -> (r: Result<(), String>)
    requires
        doc.wf(),
    ensures
        crate::tree::root_of(*doc) is None ==> r is Err,
        crate::tree::root_of(*doc) matches Some(root) ==> (global_decl(elements@, crate::tree::node_name(doc.nodes()[root.0 as int])) is None ==> r is Err),
        r is Ok ==> (crate::tree::root_of(*doc) matches Some(root) && global_decl(elements@, crate::tree::node_name(doc.nodes()[root.0 as int])) matches Some(d)
            && xsd_valid(*doc, root, d, elements@, XSD_FUEL as nat)),
        crate::tree::root_of(*doc) matches Some(root) ==> match global_decl(elements@, crate::tree::node_name(doc.nodes()[root.0 as int])) {
            Some(d) => {
                &&& asks_nothing(d) ==> r is Ok
                &&& (d.content matches XsdContent::Choice(alts)
                    && (forall|k: int| 0 <= k < d.attrs@.len() ==> !(#[trigger] d.attrs@[k]).required)
                    && one_plain_alternative(*doc, root, alts@, elements@)) ==> r is Ok
            },
            None => true,
        },
{
    let root = match doc.xml_doc_get_root_element() {
        Some(r) => r,
        None => {
            return Err(String::from_str("no root"));
        },
    };
    let name = doc.name(root);
    match global(elements, name) {
        Some(d) => check_element(doc, root, d, elements, XSD_FUEL),
        None => Err(msg2("element ", name, " not declared")),
    }
}

/// `xmlSchemaValidateDoc`: compile the schema held in `xsd` and validate
/// `doc` against the global declaration of its root element.
pub fn xml_schema_validate_doc(xsd: &[u8], doc: &XmlDoc) -> (r: Result<(), String>)
    requires
        doc.wf(),
    ensures
        crate::tree::root_of(*doc) is None ==> r is Err,
{
    let sdoc = match crate::parse::xml_read_memory(xsd, None, None, crate::parse::default_parse_options()) {
        Ok(d) => d,
        Err(e) => {
            return Err(e.to_string());
        },
    };
    let elements = compile(&sdoc)?;
    xml_schema_validate_compiled(&elements, doc)
}

} // verus!
