//! XInclude 1.0. Resources come from a loader the caller supplies; the
//! library itself never opens a file or the network.

use vstd::prelude::*;
use crate::error::{XmlError, XML_ERR_DOCUMENT_EMPTY, XML_ERR_NO_MEMORY};
use crate::tree::{XmlDoc, NodeId, NodeKind};
use crate::util::str_eq;

verus! {

/// The XInclude namespace.
pub const XINCLUDE_NS: &'static str = "http://www.w3.org/2001/XInclude";

/// Room left in an arena before it is full.
pub const MAX_ARENA: usize = 4294967040;

/// `id` is an element named `include` in the XInclude namespace or with
/// the prefix `xi`.
pub open spec fn include_elem(doc: XmlDoc, id: NodeId) -> bool {
    let n = doc.nodes()[id.0 as int];
    &&& n.kind == NodeKind::Element
    &&& crate::tree::node_name(n) == "include"@
    &&& ((n.ns_uri matches Some(u) && u@ == XINCLUDE_NS@) || (n.prefix matches Some(p) && p@ == "xi"@))
}

/// The first element named `fallback` among `kids`.
pub open spec fn first_fallback(doc: XmlDoc, kids: Seq<NodeId>) -> Option<NodeId>
    decreases kids.len(),
{
    if kids.len() == 0 {
        None
    } else if doc.nodes()[kids[0].0 as int].kind == NodeKind::Element
        && crate::tree::node_name(doc.nodes()[kids[0].0 as int]) == "fallback"@ {
        Some(kids[0])
    } else {
        first_fallback(doc, kids.drop_first())
    }
}

/// `id` is an `xi:include` element.
fn is_include(doc: &XmlDoc, id: NodeId) -> (r: bool)
    requires
        doc.has(id),
    ensures
        r == include_elem(*doc, id),
{
    if doc.kind(id) != NodeKind::Element || !str_eq(doc.name(id), "include") {
        return false;
    }
    let ns_ok = match doc.ns_uri(id) {
        Some(u) => str_eq(u, XINCLUDE_NS),
        None => false,
    };
    let prefix_ok = match doc.prefix(id) {
        Some(p) => str_eq(p, "xi"),
        None => false,
    };
    ns_ok || prefix_ok
}

/// The include elements under `start`, in document order; an include's own
/// content (its fallback) is not searched.
fn collect_includes(doc: &XmlDoc, start: NodeId) -> (r: Vec<NodeId>)
    requires
        doc.wf(),
        doc.has(start),
    ensures
        forall|k: int| 0 <= k < r@.len() ==> doc.has(#[trigger] r@[k]),
        forall|k: int| 0 <= k < r@.len() ==> include_elem(*doc, #[trigger] r@[k]),
{
    let mut out: Vec<NodeId> = Vec::new();
    let mut stack: Vec<NodeId> = Vec::new();
    stack.push(start);
    let mut fuel = doc.len();
    while stack.len() > 0 && fuel > 0
        invariant
            doc.wf(),
            forall|k: int| 0 <= k < stack@.len() ==> doc.has(#[trigger] stack@[k]),
            forall|k: int| 0 <= k < out@.len() ==> doc.has(#[trigger] out@[k]),
            forall|k: int| 0 <= k < out@.len() ==> include_elem(*doc, #[trigger] out@[k]),
        decreases fuel,
    {
        fuel -= 1;
        let id = stack.pop().unwrap();
        if is_include(doc, id) {
            out.push(id);
            continue;
        }
        let mut c = doc.last_child(id);
        let mut cf = doc.len();
        proof {
            assert(doc.nodes()[id.0 as int].links_ok(doc.nodes().len()));
        }
        while cf > 0
            invariant
                doc.wf(),
                crate::tree::link_ok(c, doc.nodes().len()),
                forall|k: int| 0 <= k < stack@.len() ==> doc.has(#[trigger] stack@[k]),
            decreases cf,
        {
            match c {
                None => {
                    break;
                },
                Some(x) => {
                    proof {
                        assert(doc.nodes()[x.0 as int].links_ok(doc.nodes().len()));
                    }
                    stack.push(x);
                    c = doc.prev_sibling(x);
                },
            }
            cf -= 1;
        }
    }
    out
}

/// The `fallback` child of an include element.
fn find_fallback(doc: &XmlDoc, inc: NodeId) -> (r: Option<NodeId>)
    requires
        doc.wf(),
        doc.has(inc),
    ensures
        r matches Some(x) ==> doc.has(x),
        r == first_fallback(*doc, crate::valid::kids_of(*doc, inc)),
{
    let mut c = doc.first_child(inc);
    let mut fuel = doc.len();
    proof {
        assert(doc.nodes()[inc.0 as int].links_ok(doc.nodes().len()));
    }
    while fuel > 0
        invariant
            doc.wf(),
            crate::tree::link_ok(c, doc.nodes().len()),
            first_fallback(*doc, crate::tree::chain_of(doc.nodes(), c, fuel as nat))
                == first_fallback(*doc, crate::valid::kids_of(*doc, inc)),
        decreases fuel,
    {
        match c {
            None => {
                return None;
            },
            Some(x) => {
                proof {
                    assert(doc.nodes()[x.0 as int].links_ok(doc.nodes().len()));
                    let rest = crate::tree::chain_of(doc.nodes(), doc.nodes()[x.0 as int].next_sibling, (fuel - 1) as nat);
                    let all = crate::tree::chain_of(doc.nodes(), c, fuel as nat);
                    assert(all == seq![x] + rest);
                    assert(all[0] == x);
                    assert(all.drop_first() =~= rest);
                }
                if doc.kind(x) == NodeKind::Element && str_eq(doc.name(x), "fallback") {
                    return Some(x);
                }
                c = doc.next_sibling(x);
            },
        }
        fuel -= 1;
    }
    None
}

fn no_room() -> (r: XmlError) {
    XmlError::new(XML_ERR_NO_MEMORY, String::from_str("Too many nodes"), 0, 0)
}

/// Copy node `id` of `src`, with its attributes and everything under it,
/// into `dst` as an unlinked subtree.
fn copy_node(dst: &mut XmlDoc, src: &XmlDoc, id: NodeId, fuel: usize) -> (r: Result<NodeId, XmlError>)
    requires
        old(dst).wf(),
        src.wf(),
        src.has(id),
    ensures
        final(dst).wf(),
        final(dst).nodes().len() >= old(dst).nodes().len(),
        r matches Ok(n) ==> final(dst).has(n),
    decreases fuel,
{
    if fuel == 0 {
        return Err(XmlError::new(XML_ERR_NO_MEMORY, String::from_str("included tree too deep"), 0, 0));
    }
    if dst.len() >= MAX_ARENA {
        return Err(no_room());
    }
    let n = dst.alloc_node(src.kind(id), String::from_str(src.name(id)));
    let prefix = match src.prefix(id) {
        Some(p) => Some(String::from_str(p)),
        None => None,
    };
    let ns_uri = match src.ns_uri(id) {
        Some(u) => Some(String::from_str(u)),
        None => None,
    };
    dst.set_ns_parts(n, prefix, ns_uri);
    dst.set_content(n, String::from_str(src.content(id)));
    let defs = src.ns_defs(id);
    let mut k: usize = 0;
    while k < defs.len()
        invariant
            dst.wf(),
            dst.has(n),
            k <= defs@.len(),
            dst.nodes().len() >= old(dst).nodes().len(),
        decreases defs.len() - k,
    {
        let p = match &defs[k].0 {
            Some(p) => Some(p.clone()),
            None => None,
        };
        dst.push_ns_def(n, p, defs[k].1.clone());
        k += 1;
    }
    let mut a = src.first_attr(id);
    let mut af = src.len();
    proof {
        assert(src.nodes()[id.0 as int].links_ok(src.nodes().len()));
    }
    while af > 0
        invariant
            dst.wf(),
            dst.has(n),
            src.wf(),
            crate::tree::link_ok(a, src.nodes().len()),
            dst.nodes().len() >= old(dst).nodes().len(),
        decreases af,
    {
        match a {
            None => {
                break;
            },
            Some(x) => {
                proof {
                    assert(src.nodes()[x.0 as int].links_ok(src.nodes().len()));
                }
                if dst.len() >= MAX_ARENA {
                    return Err(no_room());
                }
                dst.xml_set_prop(n, src.name(x), src.content(x));
                a = src.next_sibling(x);
            },
        }
        af -= 1;
    }
    let mut c = src.first_child(id);
    let mut cf = src.len();
    while cf > 0
        invariant
            dst.wf(),
            dst.has(n),
            src.wf(),
            crate::tree::link_ok(c, src.nodes().len()),
            dst.nodes().len() >= old(dst).nodes().len(),
            fuel > 0,
        decreases cf,
    {
        match c {
            None => {
                break;
            },
            Some(x) => {
                proof {
                    assert(src.nodes()[x.0 as int].links_ok(src.nodes().len()));
                }
                let ch = copy_node(dst, src, x, fuel - 1)?;
                dst.xml_add_child(n, ch);
                c = src.next_sibling(x);
            },
        }
        cf -= 1;
    }
    Ok(n)
}

/// Replace the include element `id` by what its loader gave back: the text
/// (`parse="text"`), the root element of the parsed resource, or, when the
/// load failed, the children of its fallback. `Ok(true)` when it was
/// replaced; a failed load with no fallback is an error.
pub fn apply_include(
    doc: &mut XmlDoc,
    id: NodeId,
    href: &str,
    parse_text: bool,
    loaded: Result<Vec<u8>, String>,
) -> (r: Result<bool, XmlError>)
    requires
        old(doc).wf(),
        old(doc).has(id),
    ensures
        final(doc).wf(),
        final(doc).nodes().len() >= old(doc).nodes().len(),
        loaded is Err && r is Ok ==> r == Ok::<bool, XmlError>(true),
        loaded is Err ==> (r matches Err(e) ==> e.code == XML_ERR_DOCUMENT_EMPTY),
        parse_text && loaded is Ok ==> (r is Ok <==> old(doc).nodes().len() < MAX_ARENA),
        parse_text && loaded is Ok && r is Ok ==> r == Ok::<bool, XmlError>(true)
            && final(doc).nodes().len() == old(doc).nodes().len() + 1,
        r == Ok::<bool, XmlError>(false) ==> *final(doc) == *old(doc),
        id.0 != 0 && r == Ok::<bool, XmlError>(true) ==> final(doc).nodes()[id.0 as int].parent is None,
{
    match loaded {
        Ok(bytes) => {
            if parse_text {
                if doc.len() >= MAX_ARENA {
                    return Err(no_room());
                }
                let text = crate::sax::utf8_lossy(bytes.as_slice());
                let n = doc.alloc_node(NodeKind::Text, String::from_str("#text"));
                doc.set_content(n, text);
                doc.xml_add_prev_sibling(id, n);
                doc.xml_unlink_node(id);
                return Ok(true);
            }
            let included = crate::parse::xml_read_memory(bytes.as_slice(), Some(href), None, crate::parse::default_parse_options())?;
            match included.xml_doc_get_root_element() {
                Some(root) => {
                    let new = copy_node(doc, &included, root, included.len())?;
                    doc.xml_add_prev_sibling(id, new);
                    doc.xml_unlink_node(id);
                    Ok(true)
                },
                None => Ok(false),
            }
        },
        Err(_) => {
            match find_fallback(doc, id) {
                Some(fb) => {
                    let mut kids: Vec<NodeId> = Vec::new();
                    let mut c = doc.first_child(fb);
                    let mut fuel = doc.len();
                    proof {
                        assert(doc.nodes()[fb.0 as int].links_ok(doc.nodes().len()));
                    }
                    while fuel > 0
                        invariant
                            doc.wf(),
                            crate::tree::link_ok(c, doc.nodes().len()),
                            forall|k: int| 0 <= k < kids@.len() ==> doc.has(#[trigger] kids@[k]),
                        decreases fuel,
                    {
                        match c {
                            None => {
                                break;
                            },
                            Some(x) => {
                                proof {
                                    assert(doc.nodes()[x.0 as int].links_ok(doc.nodes().len()));
                                }
                                kids.push(x);
                                c = doc.next_sibling(x);
                            },
                        }
                        fuel -= 1;
                    }
                    let mut k: usize = 0;
                    while k < kids.len()
                        invariant
                            doc.wf(),
                            doc.has(id),
                            doc.nodes().len() == old(doc).nodes().len(),
                            forall|j: int| 0 <= j < kids@.len() ==> doc.has(#[trigger] kids@[j]),
                        decreases kids.len() - k,
                    {
                        doc.xml_unlink_node(kids[k]);
                        doc.xml_add_prev_sibling(id, kids[k]);
                        k += 1;
                    }
                    doc.xml_unlink_node(id);
                    Ok(true)
                },
                None => {
                    let mut m = String::from_str("XInclude failed to load ");
                    m.append(href);
                    Err(XmlError::new(XML_ERR_DOCUMENT_EMPTY, m, 0, 0))
                },
            }
        },
    }
}

/// `xmlXIncludeProcess`: replace every include element of the document,
/// fetching each `href` through `loader`. Returns how many were replaced.
pub fn xml_xinclude_process<F>(doc: &mut XmlDoc, mut loader: F) -> (r: Result<i32, XmlError>)
    where
        F: FnMut(&str) -> Result<Vec<u8>, String>,
    requires
        old(doc).wf(),
        forall|s: &str| #[trigger] loader.requires((s,)),
    ensures
        final(doc).wf(),
        r matches Ok(n) ==> n >= 0,
        (forall|i: int| 0 <= i < old(doc).nodes().len() ==> !#[trigger] include_elem(*old(doc), NodeId(i as u32)))
            ==> r == Ok::<i32, XmlError>(0) && *final(doc) == *old(doc),
{
    let ghost none = forall|i: int| 0 <= i < old(doc).nodes().len() ==> !#[trigger] include_elem(*old(doc), NodeId(i as u32));
    let subs = collect_includes(doc, NodeId::document());
    proof {
        if forall|i: int| 0 <= i < old(doc).nodes().len() ==> !#[trigger] include_elem(*old(doc), NodeId(i as u32)) {
            if subs@.len() > 0 {
                let x = subs@[0];
                assert(include_elem(*doc, x));
                assert(NodeId(x.0 as int as u32) == x);
                assert(!include_elem(*old(doc), NodeId(x.0 as int as u32)));
            }
        }
        assert(none ==> subs@.len() == 0);
    }
    let mut n: i32 = 0;
    let mut k: usize = 0;
    while k < subs.len()
        invariant
            doc.wf(),
            forall|s: &str| #[trigger] loader.requires((s,)),
            forall|j: int| 0 <= j < subs@.len() ==> doc.has(#[trigger] subs@[j]),
            n >= 0,
            none ==> subs@.len() == 0 && n == 0 && *doc == *old(doc),
            none == (forall|i: int| 0 <= i < old(doc).nodes().len() ==> !#[trigger] include_elem(*old(doc), NodeId(i as u32))),
        decreases subs.len() - k,
    {
        let id = subs[k];
        let href = doc.xml_get_prop(id, "href");
        let parse_text = match doc.xml_get_prop(id, "parse") {
            Some(p) => str_eq(p.as_str(), "text"),
            None => false,
        };
        match href {
            Some(h) => {
                let loaded = loader(h.as_str());
                let done = apply_include(doc, id, h.as_str(), parse_text, loaded)?;
                if done && n < i32::MAX {
                    n += 1;
                }
            },
            None => {},
        }
        k += 1;
    }
    Ok(n)
}

} // verus!
