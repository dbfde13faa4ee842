//! RelaxNG, simplified: element, attribute, group, choice, interleave,
//! repetition, text, value, data, list and named definitions.

use vstd::prelude::*;
use crate::tree::{XmlDoc, NodeId, NodeKind};
use crate::util::{push_char, str_eq};

verus! {

/// The RelaxNG structure namespace.
pub const RNG_NS: &'static str = "http://relaxng.org/ns/structure/1.0";

/// A compiled pattern.
#[derive(Debug)]
pub enum Pat {
    Empty,
    Text,
    NotAllowed,
    Element { name: String, inner: Box<Pat> },
    Attribute { name: String, inner: Box<Pat> },
    Group(Vec<Pat>),
    Choice(Vec<Pat>),
    Interleave(Vec<Pat>),
    Optional(Box<Pat>),
    ZeroOrMore(Box<Pat>),
    OneOrMore(Box<Pat>),
    Value(String),
    Data(String),
    Ref(String),
    List(Box<Pat>),
}

/// A compiled schema: the start pattern and the named definitions (a later
/// definition of a name overrides an earlier one).
pub struct Schema {
    pub start: Pat,
    pub defs: Vec<(String, Pat)>,
}

/// How deep compilation and matching may nest.
const RNG_FUEL: usize = 100000;

/// `char::is_whitespace`.
pub open spec fn is_unicode_ws(c: char) -> bool {
    c == ' ' || ('\t' <= c && c <= '\r') || c == '\u{85}' || c == '\u{a0}' || c == '\u{1680}'
        || ('\u{2000}' <= c && c <= '\u{200a}') || c == '\u{2028}' || c == '\u{2029}' || c == '\u{202f}'
        || c == '\u{205f}' || c == '\u{3000}'
}

fn is_ws(c: char) -> (r: bool)
    ensures
        r == is_unicode_ws(c),
{
    c == ' ' || ('\t' <= c && c <= '\r') || c == '\u{85}' || c == '\u{a0}' || c == '\u{1680}'
        || ('\u{2000}' <= c && c <= '\u{200a}') || c == '\u{2028}' || c == '\u{2029}' || c == '\u{202f}'
        || c == '\u{205f}' || c == '\u{3000}'
}

/// The characters of `s`.
fn chars_of(s: &str) -> (r: Vec<char>)
    ensures
        r@ == s@,
{
    let mut v: Vec<char> = Vec::new();
    for c in it: s.chars()
        invariant
            it.seq() == s@,
            v@ == s@.take(it.index() as int),
    {
        proof {
            assert(s@.take(it.index() + 1) =~= s@.take(it.index() as int).push(c));
        }
        v.push(c);
    }
    assert(s@.take(s@.len() as int) =~= s@);
    v
}

/// `s` without leading and trailing whitespace (`str::trim`).
pub fn trim(s: &str) -> (r: String)
    ensures
        exists|a: int, b: int| 0 <= a <= b <= s@.len() && r@ == s@.subrange(a, b)
            && (forall|k: int| 0 <= k < a ==> is_unicode_ws(#[trigger] s@[k]))
            && (forall|k: int| b <= k < s@.len() ==> is_unicode_ws(#[trigger] s@[k]))
            && (a < b ==> !is_unicode_ws(s@[a]) && !is_unicode_ws(s@[b - 1])),
{
    let cs = chars_of(s);
    let mut a: usize = 0;
    while a < cs.len() && is_ws(cs[a])
        invariant
            cs@ == s@,
            a <= cs@.len(),
            forall|k: int| 0 <= k < a ==> is_unicode_ws(#[trigger] s@[k]),
        decreases cs.len() - a,
    {
        a += 1;
    }
    let mut b = cs.len();
    while b > a && is_ws(cs[b - 1])
        invariant
            cs@ == s@,
            a <= b <= cs@.len(),
            forall|k: int| b <= k < s@.len() ==> is_unicode_ws(#[trigger] s@[k]),
        decreases b - a,
    {
        b -= 1;
    }
    let mut out = String::new();
    let mut i = a;
    while i < b
        invariant
            cs@ == s@,
            a <= i <= b <= cs@.len(),
            out@ == s@.subrange(a as int, i as int),
        decreases b - i,
    {
        push_char(&mut out, cs[i]);
        assert(s@.subrange(a as int, i + 1) =~= s@.subrange(a as int, i as int).push(cs@[i as int]));
        i += 1;
    }
    out
}

/// `id` is the RelaxNG element `name`.
fn is_rng(doc: &XmlDoc, id: NodeId, name: &str) -> (r: bool)
    requires
        doc.has(id),
    ensures
        r == crate::tree::named_in(*doc, id, name@, RNG_NS@),
{
    if doc.kind(id) != NodeKind::Element || !str_eq(doc.name(id), name) {
        return false;
    }
    match doc.ns_uri(id) {
        Some(u) => str_eq(u, RNG_NS),
        None => true,
    }
}

/// The element children of `id`, in order.
fn element_children(doc: &XmlDoc, id: NodeId) -> (r: Vec<NodeId>)
    requires
        doc.wf(),
        doc.has(id),
    ensures
        r@ == crate::xsd::element_kids(*doc, id),
        forall|k: int| 0 <= k < r@.len() ==> doc.has(#[trigger] r@[k]),
{
    let kids = doc.children(id);
    let mut out: Vec<NodeId> = Vec::new();
    let mut i: usize = 0;
    while i < kids.len()
        invariant
            doc.wf(),
            kids@ == crate::valid::kids_of(*doc, id),
            forall|k: int| 0 <= k < kids@.len() ==> doc.has(#[trigger] kids@[k]),
            i <= kids@.len(),
            out@ == crate::xsd::elements_among(*doc, kids@.take(i as int)),
            forall|k: int| 0 <= k < out@.len() ==> doc.has(#[trigger] out@[k]),
        decreases kids.len() - i,
    {
        let x = kids[i];
        proof {
            assert(kids@.take(i + 1).drop_last() =~= kids@.take(i as int));
            assert(kids@.take(i + 1).last() == x);
        }
        if doc.kind(x) == NodeKind::Element {
            out.push(x);
        }
        i += 1;
    }
    assert(kids@.take(i as int) =~= kids@);
    out
}

fn first_pat_child(doc: &XmlDoc, id: NodeId) -> (r: Option<NodeId>)
    requires
        doc.wf(),
        doc.has(id),
    ensures
        r matches Some(x) ==> doc.has(x),
{
    let kids = element_children(doc, id);
    if kids.len() > 0 {
        Some(kids[0])
    } else {
        None
    }
}

fn find_child_named(doc: &XmlDoc, id: NodeId, name: &str) -> (r: Option<NodeId>)
    requires
        doc.wf(),
        doc.has(id),
    ensures
        r matches Some(x) ==> doc.has(x),
        r matches Some(x) ==> exists|k: int| 0 <= k < crate::xsd::element_kids(*doc, id).len()
            && crate::xsd::element_kids(*doc, id)[k] == x && crate::tree::named_in(*doc, x, name@, RNG_NS@)
            && forall|j: int| 0 <= j < k ==> !crate::tree::named_in(*doc, #[trigger] crate::xsd::element_kids(*doc, id)[j], name@, RNG_NS@),
        r is None ==> forall|j: int| 0 <= j < crate::xsd::element_kids(*doc, id).len()
            ==> !crate::tree::named_in(*doc, #[trigger] crate::xsd::element_kids(*doc, id)[j], name@, RNG_NS@),
{
    let kids = element_children(doc, id);
    let mut k: usize = 0;
    while k < kids.len()
        invariant
            doc.wf(),
            k <= kids@.len(),
            kids@ == crate::xsd::element_kids(*doc, id),
            forall|j: int| 0 <= j < kids@.len() ==> doc.has(#[trigger] kids@[j]),
            forall|j: int| 0 <= j < k ==> !crate::tree::named_in(*doc, #[trigger] kids@[j], name@, RNG_NS@),
        decreases kids.len() - k,
    {
        if is_rng(doc, kids[k], name) {
            return Some(kids[k]);
        }
        k += 1;
    }
    None
}

fn prop_or_empty(doc: &XmlDoc, id: NodeId, name: &str) -> (r: String)
    requires
        doc.wf(),
        doc.has(id),
{
    match doc.xml_get_prop(id, name) {
        Some(v) => v,
        None => String::new(),
    }
}

/// Compile the pattern element `id`.
fn compile_pat(doc: &XmlDoc, id: NodeId, fuel: usize) -> (r: Pat)
    requires
        doc.wf(),
        doc.has(id),
    ensures
        fuel > 0 ==> ({
            let n = crate::tree::node_name(doc.nodes()[id.0 as int]);
            &&& n == "element"@ ==> r is Element
            &&& n == "attribute"@ ==> r is Attribute
            &&& n == "empty"@ ==> r == Pat::Empty
            &&& n == "text"@ ==> r == Pat::Text
            &&& n == "notAllowed"@ ==> r == Pat::NotAllowed
            &&& n == "optional"@ ==> r is Optional
            &&& n == "zeroOrMore"@ ==> r is ZeroOrMore
            &&& n == "oneOrMore"@ ==> r is OneOrMore
            &&& n == "choice"@ ==> r is Choice
            &&& n == "group"@ ==> r is Group
            &&& n == "interleave"@ ==> r is Interleave
            &&& n == "value"@ ==> r is Value
            &&& n == "data"@ ==> r is Data
            &&& n == "ref"@ ==> r is Ref
            &&& n == "list"@ ==> r is List
            &&& n == "mixed"@ ==> r is Interleave
        }),
        fuel > 1 && crate::tree::node_name(doc.nodes()[id.0 as int]) == "optional"@
            && crate::xsd::element_kids(*doc, id).len() == 1
            && crate::tree::node_name(doc.nodes()[crate::xsd::element_kids(*doc, id)[0].0 as int]) == "element"@
            ==> (r matches Pat::Optional(q) && *q is Element),
    decreases fuel, 0nat,
{
    if fuel == 0 {
        return Pat::NotAllowed;
    }
    proof {
        reveal_strlit("element");
        reveal_strlit("attribute");
        reveal_strlit("empty");
        reveal_strlit("text");
        reveal_strlit("notAllowed");
        reveal_strlit("optional");
        reveal_strlit("zeroOrMore");
        reveal_strlit("oneOrMore");
        reveal_strlit("choice");
        reveal_strlit("group");
        reveal_strlit("interleave");
        reveal_strlit("value");
        reveal_strlit("data");
        reveal_strlit("ref");
        reveal_strlit("list");
        reveal_strlit("mixed");
        assert("element"@[0] == 'e' && "element"@.len() == 7);
        assert("attribute"@[0] == 'a' && "attribute"@.len() == 9);
        assert("empty"@[0] == 'e' && "empty"@.len() == 5);
        assert("text"@[0] == 't' && "text"@.len() == 4);
        assert("notAllowed"@[0] == 'n' && "notAllowed"@.len() == 10);
        assert("optional"@[0] == 'o' && "optional"@.len() == 8);
        assert("zeroOrMore"@[0] == 'z' && "zeroOrMore"@.len() == 10);
        assert("oneOrMore"@[0] == 'o' && "oneOrMore"@.len() == 9);
        assert("choice"@[0] == 'c' && "choice"@.len() == 6);
        assert("group"@[0] == 'g' && "group"@.len() == 5);
        assert("interleave"@[0] == 'i' && "interleave"@.len() == 10);
        assert("value"@[0] == 'v' && "value"@.len() == 5);
        assert("data"@[0] == 'd' && "data"@.len() == 4);
        assert("ref"@[0] == 'r' && "ref"@.len() == 3);
        assert("list"@[0] == 'l' && "list"@.len() == 4);
        assert("mixed"@[0] == 'm' && "mixed"@.len() == 5);
    }
    let name = doc.name(id);
    if str_eq(name, "element") {
        Pat::Element { name: prop_or_empty(doc, id, "name"), inner: Box::new(compile_group_children(doc, id, fuel - 1)) }
    } else if str_eq(name, "attribute") {
        Pat::Attribute { name: prop_or_empty(doc, id, "name"), inner: Box::new(compile_group_children(doc, id, fuel - 1)) }
    } else if str_eq(name, "empty") {
        Pat::Empty
    } else if str_eq(name, "text") {
        Pat::Text
    } else if str_eq(name, "notAllowed") {
        Pat::NotAllowed
    } else if str_eq(name, "optional") {
        Pat::Optional(Box::new(compile_group_children(doc, id, fuel - 1)))
    } else if str_eq(name, "zeroOrMore") {
        Pat::ZeroOrMore(Box::new(compile_group_children(doc, id, fuel - 1)))
    } else if str_eq(name, "oneOrMore") {
        Pat::OneOrMore(Box::new(compile_group_children(doc, id, fuel - 1)))
    } else if str_eq(name, "choice") {
        Pat::Choice(compile_child_pats(doc, id, fuel - 1))
    } else if str_eq(name, "group") {
        Pat::Group(compile_child_pats(doc, id, fuel - 1))
    } else if str_eq(name, "interleave") {
        Pat::Interleave(compile_child_pats(doc, id, fuel - 1))
    } else if str_eq(name, "value") {
        Pat::Value(trim(doc.xml_node_get_content(id).as_str()))
    } else if str_eq(name, "data") {
        match doc.xml_get_prop(id, "type") {
            Some(t) => Pat::Data(t),
            None => Pat::Data(String::from_str("string")),
        }
    } else if str_eq(name, "ref") {
        Pat::Ref(prop_or_empty(doc, id, "name"))
    } else if str_eq(name, "list") {
        Pat::List(Box::new(compile_group_children(doc, id, fuel - 1)))
    } else if str_eq(name, "mixed") {
        let mut v: Vec<Pat> = Vec::new();
        v.push(Pat::Text);
        v.push(compile_group_children(doc, id, fuel - 1));
        Pat::Interleave(v)
    } else if str_eq(name, "grammar") {
        match find_child_named(doc, id, "start") {
            Some(s) => match first_pat_child(doc, s) {
                Some(c) => compile_pat(doc, c, fuel - 1),
                None => Pat::NotAllowed,
            },
            None => Pat::NotAllowed,
        }
    } else {
        compile_group_children(doc, id, fuel - 1)
    }
}

fn compile_child_pats(doc: &XmlDoc, id: NodeId, fuel: usize) -> (r: Vec<Pat>)
    requires
        doc.wf(),
        doc.has(id),
    ensures
        r@.len() == crate::xsd::element_kids(*doc, id).len(),
        fuel > 0 ==> forall|j: int| 0 <= j < r@.len()
            && crate::tree::node_name(doc.nodes()[crate::xsd::element_kids(*doc, id)[j].0 as int]) == "element"@
            ==> (#[trigger] r@[j]) is Element,
    decreases fuel, 1nat,
{
    let kids = element_children(doc, id);
    let mut v: Vec<Pat> = Vec::new();
    let mut k: usize = 0;
    while k < kids.len()
        invariant
            doc.wf(),
            k <= kids@.len(),
            v@.len() == k,
            kids@ == crate::xsd::element_kids(*doc, id),
            forall|j: int| 0 <= j < kids@.len() ==> doc.has(#[trigger] kids@[j]),
            fuel > 0 ==> forall|j: int| 0 <= j < v@.len()
                && crate::tree::node_name(doc.nodes()[kids@[j].0 as int]) == "element"@
                ==> (#[trigger] v@[j]) is Element,
        decreases kids.len() - k,
    {
        v.push(compile_pat(doc, kids[k], fuel));
        k += 1;
    }
    v
}

/// The children of `id` as one pattern: nothing is `Empty`, one is itself,
/// more are a group.
fn compile_group_children(doc: &XmlDoc, id: NodeId, fuel: usize) -> (r: Pat)
    requires
        doc.wf(),
        doc.has(id),
    ensures
        crate::xsd::element_kids(*doc, id).len() == 0 ==> r == Pat::Empty,
        crate::xsd::element_kids(*doc, id).len() > 1 ==> r is Group,
        crate::xsd::element_kids(*doc, id).len() == 1 && fuel > 0
            && crate::tree::node_name(doc.nodes()[crate::xsd::element_kids(*doc, id)[0].0 as int]) == "element"@
            ==> r is Element,
    decreases fuel, 2nat,
{
    let mut v = compile_child_pats(doc, id, fuel);
    if v.len() == 0 {
        Pat::Empty
    } else if v.len() == 1 {
        v.pop().unwrap()
    } else {
        Pat::Group(v)
    }
}

/// Collect the `define` elements of the schema document.
fn harvest_defs(doc: &XmlDoc, root: NodeId) -> (r: Vec<(String, Pat)>)
    requires
        doc.wf(),
        doc.has(root),
{
    let mut defs: Vec<(String, Pat)> = Vec::new();
    let mut stack: Vec<NodeId> = Vec::new();
    stack.push(root);
    let mut fuel = doc.len();
    while stack.len() > 0 && fuel > 0
        invariant
            doc.wf(),
            forall|k: int| 0 <= k < stack@.len() ==> doc.has(#[trigger] stack@[k]),
        decreases fuel,
    {
        fuel -= 1;
        let id = stack.pop().unwrap();
        if is_rng(doc, id, "define") {
            match doc.xml_get_prop(id, "name") {
                Some(name) => match first_pat_child(doc, id) {
                    Some(ch) => defs.push((name, compile_pat(doc, ch, RNG_FUEL))),
                    None => {},
                },
                None => {},
            }
        }
        let kids = crate::tree::XmlDoc::children(doc, id);
        proof {
            assert(doc.nodes()[id.0 as int].links_ok(doc.nodes().len()));
        }
        let mut k = kids.len();
        while k > 0
            invariant
                doc.wf(),
                k <= kids@.len(),
                forall|j: int| 0 <= j < stack@.len() ==> doc.has(#[trigger] stack@[j]),
                kids@ == crate::tree::chain_of(doc.nodes(), doc.nodes()[id.0 as int].first_child, doc.nodes().len()),
                crate::tree::link_ok(doc.nodes()[id.0 as int].first_child, doc.nodes().len()),
            decreases k,
        {
            k -= 1;
            proof {
                lemma_chain_has(doc, doc.nodes()[id.0 as int].first_child, doc.nodes().len(), k as int);
            }
            stack.push(kids[k]);
        }
    }
    defs
}

/// Every node of a sibling chain is a node of the document.
proof fn lemma_chain_has(doc: &XmlDoc, c: Option<NodeId>, fuel: nat, k: int)
    requires
        doc.wf(),
        crate::tree::link_ok(c, doc.nodes().len()),
        0 <= k < crate::tree::chain_of(doc.nodes(), c, fuel).len(),
    ensures
        doc.has(crate::tree::chain_of(doc.nodes(), c, fuel)[k]),
    decreases fuel,
{
    match c {
        Some(id) => {
            assert(doc.nodes()[id.0 as int].links_ok(doc.nodes().len()));
            if k > 0 && fuel > 0 {
                lemma_chain_has(doc, doc.nodes()[id.0 as int].next_sibling, (fuel - 1) as nat, k - 1);
            }
        },
        None => {},
    }
}

/// The pattern of the last definition named `name` among `defs`.
pub open spec fn last_def(defs: Seq<(String, Pat)>, name: Seq<char>) -> Option<Pat>
    decreases defs.len(),
{
    if defs.len() == 0 {
        None
    } else if defs.last().0@ == name {
        Some(defs.last().1)
    } else {
        last_def(defs.drop_last(), name)
    }
}

/// The last definition named `name`.
fn find_def<'a>(defs: &'a Vec<(String, Pat)>, name: &str) -> (r: Option<&'a Pat>)
    ensures
        match r {
            Some(p) => last_def(defs@, name@) == Some(*p),
            None => last_def(defs@, name@) is None,
        },
{
    let mut k = defs.len();
    assert(defs@.take(k as int) =~= defs@);
    while k > 0
        invariant
            k <= defs@.len(),
            last_def(defs@, name@) == last_def(defs@.take(k as int), name@),
        decreases k,
    {
        k -= 1;
        assert(defs@.take(k + 1).last() == defs@[k as int]);
        assert(defs@.take(k + 1).drop_last() =~= defs@.take(k as int));
        if str_eq(defs[k].0.as_str(), name) {
            return Some(&defs[k].1);
        }
    }
    None
}

fn has_name(v: &Vec<String>, n: &str) -> (r: bool)
    ensures
        r == exists|k: int| 0 <= k < v@.len() && (#[trigger] v@[k])@ == n@,
{
    let mut k: usize = 0;
    while k < v.len()
        invariant
            k <= v@.len(),
            forall|j: int| 0 <= j < k ==> (#[trigger] v@[j])@ != n@,
        decreases v.len() - k,
    {
        if str_eq(v[k].as_str(), n) {
            return true;
        }
        k += 1;
    }
    false
}

fn cycle_msg(n: &str) -> (r: String) {
    let mut m = String::from_str("cyclic ref ");
    m.append(n);
    m.append(" in schema");
    m
}

/// A reference cycle that consumes no element: following references from
/// `pat` without passing an `element` returns to a name on `stack`.
fn walk_refs(schema: &Schema, pat: &Pat, stack: &mut Vec<String>, fuel: usize) -> (r: Result<(), String>)
    decreases fuel,
{
    if fuel == 0 {
        return Err(String::from_str("schema nested too deeply"));
    }
    match pat {
        Pat::Element { .. } => Ok(()),
        Pat::Ref(n) => {
            if has_name(stack, n.as_str()) {
                return Err(cycle_msg(n.as_str()));
            }
            match find_def(&schema.defs, n.as_str()) {
                None => Ok(()),
                Some(next) => {
                    stack.push(n.clone());
                    let r = walk_refs(schema, next, stack, fuel - 1);
                    stack.pop();
                    r
                },
            }
        },
        Pat::Attribute { inner, .. } => walk_refs(schema, inner, stack, fuel - 1),
        Pat::Optional(inner) => walk_refs(schema, inner, stack, fuel - 1),
        Pat::ZeroOrMore(inner) => walk_refs(schema, inner, stack, fuel - 1),
        Pat::OneOrMore(inner) => walk_refs(schema, inner, stack, fuel - 1),
        Pat::List(inner) => walk_refs(schema, inner, stack, fuel - 1),
        Pat::Group(v) | Pat::Choice(v) | Pat::Interleave(v) => {
            let mut k: usize = 0;
            while k < v.len()
                invariant
                    k <= v@.len(),
                    fuel > 0,
                decreases v.len() - k,
            {
                walk_refs(schema, &v[k], stack, fuel - 1)?;
                k += 1;
            }
            Ok(())
        },
        _ => Ok(()),
    }
}

/// Reject a schema whose definitions refer to each other in a cycle that
/// consumes no element: such a grammar can never match anything.
fn check_no_ref_cycle(schema: &Schema) -> (r: Result<(), String>) {
    let mut stack: Vec<String> = Vec::new();
    walk_refs(schema, &schema.start, &mut stack, RNG_FUEL)?;
    let mut k: usize = 0;
    while k < schema.defs.len()
        invariant
            k <= schema.defs@.len(),
        decreases schema.defs.len() - k,
    {
        let mut stack: Vec<String> = Vec::new();
        stack.push(schema.defs[k].0.clone());
        walk_refs(schema, &schema.defs[k].1, &mut stack, RNG_FUEL)?;
        k += 1;
    }
    Ok(())
}

/// Compile the schema document.
fn compile(doc: &XmlDoc) -> (r: Result<Schema, String>)
    requires
        doc.wf(),
{
    let root = match doc.xml_doc_get_root_element() {
        Some(r) => r,
        None => {
            return Err(String::from_str("empty rng"));
        },
    };
    let defs = harvest_defs(doc, root);
    let start = if is_rng(doc, root, "grammar") {
        match find_child_named(doc, root, "start") {
            Some(s) => match first_pat_child(doc, s) {
                Some(c) => compile_pat(doc, c, RNG_FUEL),
                None => {
                    return Err(String::from_str("empty start"));
                },
            },
            None => compile_pat(doc, root, RNG_FUEL),
        }
    } else {
        compile_pat(doc, root, RNG_FUEL)
    };
    let schema = Schema { start, defs };
    check_no_ref_cycle(&schema)?;
    Ok(schema)
}

fn undefined(n: &str) -> (r: String) {
    let mut m = String::from_str("undefined ref ");
    m.append(n);
    m
}

/// `pat`, with a reference replaced by its definition.
fn deref_pat<'a>(schema: &'a Schema, pat: &'a Pat) -> (r: Result<&'a Pat, String>)
    ensures
        match *pat {
            Pat::Ref(n) => match last_def(schema.defs@, n@) {
                Some(p) => r matches Ok(q) && *q == p,
                None => r is Err,
            },
            _ => r matches Ok(q) && *q == *pat,
        },
{
    match pat {
        Pat::Ref(n) => match find_def(&schema.defs, n.as_str()) {
            Some(p) => Ok(p),
            None => Err(undefined(n.as_str())),
        },
        p => Ok(p),
    }
}

/// The document element `id` against `pat`.
fn match_element(schema: &Schema, pat: &Pat, doc: &XmlDoc, id: NodeId, fuel: usize) -> (r: Result<(), String>)
    requires
        doc.wf(),
        doc.has(id),
    ensures
        fuel > 3 ==> match deref_spec(*schema, *pat) {
            Some(Pat::Element { inner, .. }) => match deref_spec(*schema, *inner) {
                Some(Pat::Optional(q)) => match deref_spec(*schema, *q) {
                    Some(Pat::Element { name, .. }) => count_named(*doc, crate::valid::kids_of(*doc, id), name@) >= 2 ==> r is Err,
                    _ => true,
                },
                _ => true,
            },
            _ => true,
        },
    decreases fuel,
{
    if fuel == 0 {
        return Err(String::from_str("document nested too deeply"));
    }
    let p = deref_pat(schema, pat)?;
    match p {
        Pat::Element { name, inner } => {
            if !str_eq(doc.name(id), name.as_str()) {
                let mut m = String::from_str("expected element ");
                m.append(name.as_str());
                m.append(", got ");
                m.append(doc.name(id));
                return Err(m);
            }
            match_content(schema, inner, doc, id, fuel - 1)
        },
        Pat::Choice(alts) => {
            let mut k: usize = 0;
            while k < alts.len()
                invariant
                    doc.wf(),
                    doc.has(id),
                    k <= alts@.len(),
                    fuel > 0,
                    deref_spec(*schema, *pat) == Some(*p),
                    *p is Choice,
                decreases alts.len() - k,
            {
                if match_element(schema, &alts[k], doc, id, fuel - 1).is_ok() {
                    return Ok(());
                }
                k += 1;
            }
            Err(String::from_str("choice failed"))
        },
        Pat::Ref(n) => match find_def(&schema.defs, n.as_str()) {
            Some(q) => match_element(schema, q, doc, id, fuel - 1),
            None => Err(undefined(n.as_str())),
        },
        other => match_content(schema, other, doc, id, fuel - 1),
    }
}

/// The nodes of `s` that a pattern matches against: elements, and text
/// or CDATA that is not all blank.
pub open spec fn content_nodes(doc: XmlDoc, s: Seq<NodeId>) -> Seq<NodeId>
    decreases s.len(),
{
    if s.len() == 0 {
        seq![]
    } else {
        let rest = content_nodes(doc, s.drop_last());
        let n = doc.nodes()[s.last().0 as int];
        if n.kind == NodeKind::Element || ((n.kind == NodeKind::Text || n.kind == NodeKind::CData)
            && !crate::tree::all_blank_bytes(vstd::utf8::encode_utf8(n.content@))) {
            rest.push(s.last())
        } else {
            rest
        }
    }
}

/// How many elements named `name` `s` holds.
pub open spec fn count_named(doc: XmlDoc, s: Seq<NodeId>, name: Seq<char>) -> nat
    decreases s.len(),
{
    if s.len() == 0 {
        0
    } else {
        count_named(doc, s.drop_last(), name) + (if doc.nodes()[s.last().0 as int].kind == NodeKind::Element
            && crate::tree::node_name(doc.nodes()[s.last().0 as int]) == name { 1nat } else { 0nat })
    }
}

/// Keeping the content nodes keeps every element.
proof fn lemma_count_content(doc: XmlDoc, s: Seq<NodeId>, name: Seq<char>)
    ensures
        count_named(doc, content_nodes(doc, s), name) == count_named(doc, s, name),
    decreases s.len(),
{
    if s.len() > 0 {
        lemma_count_content(doc, s.drop_last(), name);
        let rest = content_nodes(doc, s.drop_last());
        if content_nodes(doc, s) != rest {
            assert(content_nodes(doc, s).drop_last() =~= rest);
        }
    }
}

/// Removing one element named `name` counts one fewer.
proof fn lemma_count_remove(doc: XmlDoc, s: Seq<NodeId>, name: Seq<char>, k: int)
    requires
        0 <= k < s.len(),
        doc.nodes()[s[k].0 as int].kind == NodeKind::Element,
        crate::tree::node_name(doc.nodes()[s[k].0 as int]) == name,
    ensures
        count_named(doc, s.remove(k), name) + 1 == count_named(doc, s, name),
    decreases s.len(),
{
    if k < s.len() - 1 {
        lemma_count_remove(doc, s.drop_last(), name, k);
        assert(s.remove(k).drop_last() =~= s.drop_last().remove(k));
        assert(s.remove(k).last() == s.last());
    } else {
        assert(s.remove(k) =~= s.drop_last());
    }
}

/// A positive count has an element to show for it.
proof fn lemma_count_some(doc: XmlDoc, s: Seq<NodeId>, name: Seq<char>)
    requires
        count_named(doc, s, name) > 0,
    ensures
        exists|i: int| 0 <= i < s.len() && doc.nodes()[(#[trigger] s[i]).0 as int].kind == NodeKind::Element,
    decreases s.len(),
{
    if doc.nodes()[s.last().0 as int].kind == NodeKind::Element && crate::tree::node_name(doc.nodes()[s.last().0 as int]) == name {
        assert(doc.nodes()[s[s.len() - 1].0 as int].kind == NodeKind::Element);
    } else {
        lemma_count_some(doc, s.drop_last(), name);
        let i = choose|i: int| 0 <= i < s.drop_last().len() && doc.nodes()[(#[trigger] s.drop_last()[i]).0 as int].kind == NodeKind::Element;
        assert(s[i] == s.drop_last()[i]);
    }
}

/// The attributes (bar namespace declarations) and the element and
/// non-blank text children of `id`, against `pat`; everything must be used.
/// An optional element matches at most one child: with two children of its
/// name, the second is left over and the content is rejected.
fn match_content(schema: &Schema, pat: &Pat, doc: &XmlDoc, id: NodeId, fuel: usize) -> (r: Result<(), String>)
    requires
        doc.wf(),
        doc.has(id),
    ensures
        fuel > 2 ==> match deref_spec(*schema, *pat) {
            Some(Pat::Optional(q)) => match deref_spec(*schema, *q) {
                Some(Pat::Element { name, .. }) => count_named(*doc, crate::valid::kids_of(*doc, id), name@) >= 2 ==> r is Err,
                _ => true,
            },
            _ => true,
        },
    decreases fuel,
{
    if fuel == 0 {
        return Err(String::from_str("document nested too deeply"));
    }
    let mut attrs: Vec<(String, String)> = Vec::new();
    let mut a = doc.first_attr(id);
    let mut af = doc.len();
    proof {
        assert(doc.nodes()[id.0 as int].links_ok(doc.nodes().len()));
    }
    while af > 0
        invariant
            doc.wf(),
            crate::tree::link_ok(a, doc.nodes().len()),
        decreases af,
    {
        match a {
            None => {
                break;
            },
            Some(x) => {
                proof {
                    assert(doc.nodes()[x.0 as int].links_ok(doc.nodes().len()));
                }
                let an = doc.name(x);
                if !crate::util::starts_with(an.as_bytes(), "xmlns".as_bytes()) {
                    attrs.push((String::from_str(an), String::from_str(doc.content(x))));
                }
                a = doc.next_sibling(x);
            },
        }
        af -= 1;
    }
    let mut kids: Vec<NodeId> = Vec::new();
    let all = doc.children(id);
    let mut i: usize = 0;
    while i < all.len()
        invariant
            doc.wf(),
            i <= all@.len(),
            all@ == crate::valid::kids_of(*doc, id),
            forall|k: int| 0 <= k < all@.len() ==> doc.has(#[trigger] all@[k]),
            forall|k: int| 0 <= k < kids@.len() ==> doc.has(#[trigger] kids@[k]),
            kids@ == content_nodes(*doc, all@.take(i as int)),
        decreases all.len() - i,
    {
        let x = all[i];
        proof {
            assert(all@.take(i + 1).drop_last() =~= all@.take(i as int));
            assert(all@.take(i + 1).last() == x);
        }
        let k = doc.kind(x);
        if k == NodeKind::Element {
            kids.push(x);
        } else if (k == NodeKind::Text || k == NodeKind::CData) && !doc.xml_is_blank_node(x) {
            kids.push(x);
        }
        i += 1;
    }
    proof {
        assert(all@.take(i as int) =~= all@);
        if fuel > 2 {
            match deref_spec(*schema, *pat) {
                Some(Pat::Optional(q)) => match deref_spec(*schema, *q) {
                    Some(Pat::Element { name, .. }) => {
                        lemma_count_content(*doc, all@, name@);
                    },
                    _ => {},
                },
                _ => {},
            }
        }
    }
    let ghost k0 = kids@;
    consume(schema, pat, doc, &mut kids, &mut attrs, fuel - 1)?;
    proof {
        if fuel > 2 {
            match deref_spec(*schema, *pat) {
                Some(Pat::Optional(q)) => match deref_spec(*schema, *q) {
                    Some(Pat::Element { name, .. }) => {
                        if count_named(*doc, crate::valid::kids_of(*doc, id), name@) >= 2 {
                            if kids@ != k0 {
                                let k = choose|k: int| first_elem_named(*doc, k0, name@, k) && kids@ == k0.remove(k);
                                lemma_count_remove(*doc, k0, name@, k);
                            }
                            lemma_count_some(*doc, kids@, name@);
                        }
                    },
                    _ => {},
                },
                _ => {},
            }
        }
    }
    if attrs.len() > 0 {
        let mut m = String::from_str("undeclared attribute ");
        m.append(attrs[0].0.as_str());
        return Err(m);
    }
    let mut k: usize = 0;
    while k < kids.len()
        invariant
            doc.wf(),
            k <= kids@.len(),
            forall|j: int| 0 <= j < kids@.len() ==> doc.has(#[trigger] kids@[j]),
            forall|j: int| 0 <= j < k ==> doc.nodes()[(#[trigger] kids@[j]).0 as int].kind != NodeKind::Element,
        decreases kids.len() - k,
    {
        if doc.kind(kids[k]) == NodeKind::Element {
            return Err(String::from_str("extra element content"));
        }
        k += 1;
    }
    Ok(())
}

/// Keep only the element nodes of `kids`.
fn drop_text(doc: &XmlDoc, kids: &mut Vec<NodeId>)
    requires
        forall|k: int| 0 <= k < old(kids)@.len() ==> doc.has(#[trigger] old(kids)@[k]),
    ensures
        forall|k: int| 0 <= k < final(kids)@.len() ==> doc.has(#[trigger] final(kids)@[k]),
        final(kids)@.len() <= old(kids)@.len(),
        final(kids)@ == crate::xsd::elements_among(*doc, old(kids)@),
{
    let mut out: Vec<NodeId> = Vec::new();
    let mut k: usize = 0;
    while k < kids.len()
        invariant
            forall|j: int| 0 <= j < kids@.len() ==> doc.has(#[trigger] kids@[j]),
            forall|j: int| 0 <= j < out@.len() ==> doc.has(#[trigger] out@[j]),
            k <= kids@.len(),
            out@.len() <= k,
            kids@ == old(kids)@,
            out@ == crate::xsd::elements_among(*doc, kids@.take(k as int)),
        decreases kids.len() - k,
    {
        proof {
            assert(kids@.take(k + 1).drop_last() =~= kids@.take(k as int));
            assert(kids@.take(k + 1).last() == kids@[k as int]);
        }
        if doc.kind(kids[k]) == NodeKind::Element {
            out.push(kids[k]);
        }
        k += 1;
    }
    assert(kids@.take(k as int) =~= kids@);
    *kids = out;
}

fn copy_ids(v: &Vec<NodeId>) -> (r: Vec<NodeId>)
    ensures
        r@ == v@,
{
    let mut out: Vec<NodeId> = Vec::new();
    let mut k: usize = 0;
    while k < v.len()
        invariant
            k <= v@.len(),
            out@ == v@.subrange(0, k as int),
        decreases v.len() - k,
    {
        out.push(v[k]);
        assert(v@.subrange(0, k + 1) =~= v@.subrange(0, k as int).push(v@[k as int]));
        k += 1;
    }
    assert(v@.subrange(0, v@.len() as int) =~= v@);
    out
}

fn copy_attrs(v: &Vec<(String, String)>) -> (r: Vec<(String, String)>)
    ensures
        r@.len() == v@.len(),
{
    let mut out: Vec<(String, String)> = Vec::new();
    let mut k: usize = 0;
    while k < v.len()
        invariant
            k <= v@.len(),
            out@.len() == k,
        decreases v.len() - k,
    {
        out.push((v[k].0.clone(), v[k].1.clone()));
        k += 1;
    }
    out
}

/// The pattern `pat` stands for: a reference is replaced by the last
/// definition of its name.
pub open spec fn deref_spec(schema: Schema, pat: Pat) -> Option<Pat> {
    match pat {
        Pat::Ref(n) => last_def(schema.defs@, n@),
        _ => Some(pat),
    }
}

/// `k` is the first position of `attrs` whose name is `name`.
pub open spec fn first_attr_named(attrs: Seq<(String, String)>, name: Seq<char>, k: int) -> bool {
    &&& 0 <= k < attrs.len()
    &&& attrs[k].0@ == name
    &&& forall|j: int| 0 <= j < k ==> (#[trigger] attrs[j]).0@ != name
}

/// `k` is the first position of `kids` holding an element named `name`.
pub open spec fn first_elem_named(doc: XmlDoc, kids: Seq<NodeId>, name: Seq<char>, k: int) -> bool {
    &&& 0 <= k < kids.len()
    &&& doc.nodes()[kids[k].0 as int].kind == NodeKind::Element
    &&& crate::tree::node_name(doc.nodes()[kids[k].0 as int]) == name
    &&& forall|j: int| 0 <= j < k ==> !(doc.nodes()[(#[trigger] kids[j]).0 as int].kind == NodeKind::Element
        && crate::tree::node_name(doc.nodes()[kids[j].0 as int]) == name)
}

/// Consume from `kids` and `attrs` what `pat` matches.
fn consume(
    schema: &Schema,
    pat: &Pat,
    doc: &XmlDoc,
    kids: &mut Vec<NodeId>,
    attrs: &mut Vec<(String, String)>,
    fuel: usize,
) -> (r: Result<(), String>)
    requires
        doc.wf(),
        forall|k: int| 0 <= k < old(kids)@.len() ==> doc.has(#[trigger] old(kids)@[k]),
    ensures
        forall|k: int| 0 <= k < final(kids)@.len() ==> doc.has(#[trigger] final(kids)@[k]),
        fuel == 0 ==> r is Err,
        fuel > 0 ==> match deref_spec(*schema, *pat) {
            None => r is Err,
            Some(Pat::Empty) => r is Ok && final(kids)@ == old(kids)@ && final(attrs)@ == old(attrs)@,
            Some(Pat::NotAllowed) => r is Err,
            Some(Pat::Text) => r is Ok && final(kids)@ == crate::xsd::elements_among(*doc, old(kids)@)
                && final(attrs)@ == old(attrs)@,
            Some(Pat::Data(_)) => r is Ok && final(kids)@ == crate::xsd::elements_among(*doc, old(kids)@)
                && final(attrs)@ == old(attrs)@,
            Some(Pat::List(_)) => r is Ok && final(kids)@ == crate::xsd::elements_among(*doc, old(kids)@)
                && final(attrs)@ == old(attrs)@,
            Some(Pat::Attribute { name, .. }) => {
                &&& final(kids)@ == old(kids)@
                &&& (forall|k: int| 0 <= k < old(attrs)@.len() ==> (#[trigger] old(attrs)@[k]).0@ != name@) ==> r is Err
                &&& r is Ok ==> exists|k: int| first_attr_named(old(attrs)@, name@, k)
                    && final(attrs)@ == old(attrs)@.remove(k)
            },
            Some(Pat::Element { name, .. }) => {
                &&& final(attrs)@ == old(attrs)@
                &&& (forall|k: int| 0 <= k < old(kids)@.len() ==> !(doc.nodes()[(#[trigger] old(kids)@[k]).0 as int].kind
                    == NodeKind::Element && crate::tree::node_name(doc.nodes()[old(kids)@[k].0 as int]) == name@)) ==> r is Err
                &&& r is Ok ==> exists|k: int| first_elem_named(*doc, old(kids)@, name@, k)
                    && final(kids)@ == old(kids)@.remove(k)
            },
            Some(Pat::Choice(_)) => r is Err ==> final(kids)@ == old(kids)@ && final(attrs)@ == old(attrs)@,
            Some(Pat::Optional(q)) => {
                &&& r is Ok
                &&& match deref_spec(*schema, *q) {
                    Some(Pat::Element { name, .. }) => fuel > 1 ==> {
                        ||| final(kids)@ == old(kids)@
                        ||| exists|k: int| first_elem_named(*doc, old(kids)@, name@, k)
                            && final(kids)@ == old(kids)@.remove(k)
                    },
                    _ => true,
                }
            },
            Some(Pat::ZeroOrMore(_)) => r is Ok,
            _ => true,
        },
    decreases fuel,
{
    if fuel == 0 {
        return Err(String::from_str("schema nested too deeply"));
    }
    let p = deref_pat(schema, pat)?;
    match p {
        Pat::Empty => Ok(()),
        Pat::Text => {
            drop_text(doc, kids);
            Ok(())
        },
        Pat::NotAllowed => Err(String::from_str("notAllowed")),
        Pat::Attribute { name, inner } => {
            let mut k: usize = 0;
            while k < attrs.len()
                invariant
                    k <= attrs@.len(),
                    forall|j: int| 0 <= j < kids@.len() ==> doc.has(#[trigger] kids@[j]),
                    kids@ == old(kids)@,
                    attrs@ == old(attrs)@,
                    forall|j: int| 0 <= j < k ==> (#[trigger] attrs@[j]).0@ != name@,
                    fuel > 0,
                    deref_spec(*schema, *pat) == Some(*p),
                    *p == (Pat::Attribute { name: *name, inner: *inner }),
                decreases attrs.len() - k,
            {
                if str_eq(attrs[k].0.as_str(), name.as_str()) {
                    assert(first_attr_named(old(attrs)@, name@, k as int));
                    let (_, val) = attrs.remove(k);
                    return match &**inner {
                        Pat::Value(v) => {
                            if str_eq(v.as_str(), val.as_str()) {
                                Ok(())
                            } else {
                                let mut m = String::from_str("attr ");
                                m.append(name.as_str());
                                m.append(" expected ");
                                m.append(v.as_str());
                                Err(m)
                            }
                        },
                        _ => Ok(()),
                    };
                }
                k += 1;
            }
            let mut m = String::from_str("missing attribute ");
            m.append(name.as_str());
            Err(m)
        },
        Pat::Element { name, inner } => {
            let mut k: usize = 0;
            while k < kids.len()
                invariant
                    doc.wf(),
                    k <= kids@.len(),
                    fuel > 0,
                    forall|j: int| 0 <= j < kids@.len() ==> doc.has(#[trigger] kids@[j]),
                    kids@ == old(kids)@,
                    attrs@ == old(attrs)@,
                    forall|j: int| 0 <= j < k ==> !(doc.nodes()[(#[trigger] kids@[j]).0 as int].kind == NodeKind::Element
                        && crate::tree::node_name(doc.nodes()[kids@[j].0 as int]) == name@),
                    deref_spec(*schema, *pat) == Some(*p),
                    *p == (Pat::Element { name: *name, inner: *inner }),
                decreases kids.len() - k,
            {
                if doc.kind(kids[k]) == NodeKind::Element && str_eq(doc.name(kids[k]), name.as_str()) {
                    assert(first_elem_named(*doc, old(kids)@, name@, k as int));
                    let n = kids.remove(k);
                    return match_content(schema, inner, doc, n, fuel - 1);
                }
                k += 1;
            }
            let mut m = String::from_str("missing element ");
            m.append(name.as_str());
            Err(m)
        },
        Pat::Group(ps) | Pat::Interleave(ps) => {
            let mut k: usize = 0;
            while k < ps.len()
                invariant
                    doc.wf(),
                    k <= ps@.len(),
                    fuel > 0,
                    forall|j: int| 0 <= j < kids@.len() ==> doc.has(#[trigger] kids@[j]),
                    deref_spec(*schema, *pat) == Some(*p),
                    *p is Group || *p is Interleave,
                decreases ps.len() - k,
            {
                consume(schema, &ps[k], doc, kids, attrs, fuel - 1)?;
                k += 1;
            }
            Ok(())
        },
        Pat::Choice(ps) => {
            let mut k: usize = 0;
            while k < ps.len()
                invariant
                    doc.wf(),
                    k <= ps@.len(),
                    fuel > 0,
                    forall|j: int| 0 <= j < kids@.len() ==> doc.has(#[trigger] kids@[j]),
                    deref_spec(*schema, *pat) == Some(*p),
                    *p is Choice,
                    kids@ == old(kids)@,
                    attrs@ == old(attrs)@,
                decreases ps.len() - k,
            {
                let mut k2 = copy_ids(kids);
                let mut a2 = copy_attrs(attrs);
                if consume(schema, &ps[k], doc, &mut k2, &mut a2, fuel - 1).is_ok() {
                    *kids = k2;
                    *attrs = a2;
                    return Ok(());
                }
                k += 1;
            }
            Err(String::from_str("choice failed"))
        },
        Pat::Optional(q) => {
            let mut k2 = copy_ids(kids);
            let mut a2 = copy_attrs(attrs);
            if consume(schema, q, doc, &mut k2, &mut a2, fuel - 1).is_ok() {
                *kids = k2;
                *attrs = a2;
            }
            Ok(())
        },
        Pat::ZeroOrMore(q) => {
            consume_repeat(schema, q, doc, kids, attrs, fuel - 1);
            Ok(())
        },
        Pat::OneOrMore(q) => {
            consume(schema, q, doc, kids, attrs, fuel - 1)?;
            consume_repeat(schema, q, doc, kids, attrs, fuel - 1);
            Ok(())
        },
        Pat::Value(v) => {
            let mut text = String::new();
            let mut k: usize = 0;
            while k < kids.len()
                invariant
                    doc.wf(),
                    k <= kids@.len(),
                    forall|j: int| 0 <= j < kids@.len() ==> doc.has(#[trigger] kids@[j]),
                decreases kids.len() - k,
            {
                if doc.kind(kids[k]) != NodeKind::Element {
                    text.append(doc.content(kids[k]));
                }
                k += 1;
            }
            drop_text(doc, kids);
            let t = trim(text.as_str());
            if str_eq(t.as_str(), v.as_str()) {
                Ok(())
            } else {
                let mut m = String::from_str("value ");
                m.append(v.as_str());
                m.append(" != ");
                m.append(t.as_str());
                Err(m)
            }
        },
        Pat::Data(_) | Pat::List(_) => {
            drop_text(doc, kids);
            Ok(())
        },
        Pat::Ref(n) => match find_def(&schema.defs, n.as_str()) {
            Some(q) => consume(schema, q, doc, kids, attrs, fuel - 1),
            None => Err(undefined(n.as_str())),
        },
    }
}

/// Consume `q` as often as it matches and takes something.
fn consume_repeat(
    schema: &Schema,
    q: &Pat,
    doc: &XmlDoc,
    kids: &mut Vec<NodeId>,
    attrs: &mut Vec<(String, String)>,
    fuel: usize,
)
    requires
        doc.wf(),
        forall|k: int| 0 <= k < old(kids)@.len() ==> doc.has(#[trigger] old(kids)@[k]),
    ensures
        forall|k: int| 0 <= k < final(kids)@.len() ==> doc.has(#[trigger] final(kids)@[k]),
    decreases fuel,
{
    if fuel == 0 {
        return;
    }
    loop
        invariant
            doc.wf(),
            fuel > 0,
            forall|j: int| 0 <= j < kids@.len() ==> doc.has(#[trigger] kids@[j]),
        decreases kids@.len() + attrs@.len(),
    {
        let mut k2 = copy_ids(kids);
        let mut a2 = copy_attrs(attrs);
        if consume(schema, q, doc, &mut k2, &mut a2, fuel - 1).is_ok() && (k2.len() < kids.len() || a2.len() < attrs.len())
            && k2.len() <= kids.len() && a2.len() <= attrs.len() {
            *kids = k2;
            *attrs = a2;
        } else {
            break;
        }
    }
}

/// `xmlRelaxNGParse` and `xmlRelaxNGValidateDoc`: compile the schema held
/// in `rng_xml` and validate `doc` against it.
pub fn xml_relaxng_validate_doc(rng_xml: &[u8], doc: &XmlDoc) -> (r: Result<(), String>)
    requires
        doc.wf(),
    ensures
        crate::tree::root_of(*doc) is None ==> r is Err,
{
    let rng_doc = match crate::parse::xml_read_memory(rng_xml, None, None, crate::parse::default_parse_options()) {
        Ok(d) => d,
        Err(e) => {
            return Err(e.to_string());
        },
    };
    let schema = compile(&rng_doc)?;
    let root = match doc.xml_doc_get_root_element() {
        Some(r) => r,
        None => {
            return Err(String::from_str("no root"));
        },
    };
    match_element(&schema, &schema.start, doc, root, RNG_FUEL)
}

} // verus!
