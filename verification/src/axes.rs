//! XPath 1.0 axes and node tests: the nodes a location step selects from a
//! context node, in document order.

use vstd::prelude::*;
use crate::tree::{XmlDoc, NodeId, NodeKind, Node, chain_of, link_ok, node_name};
use crate::util::str_eq;

verus! {

/// An XPath axis.
#[derive(Clone, Copy, Debug, PartialEq, Eq, Structural)]
pub enum XPathAxis {
    Child,
    Descendant,
    Parent,
    Ancestor,
    FollowingSibling,
    PrecedingSibling,
    Following,
    Preceding,
    Attribute,
    Namespace,
    SelfAxis,
    DescendantOrSelf,
    AncestorOrSelf,
}

/// An XPath node test: `*`, a (prefixed) name, `node()`, `text()`,
/// `comment()`, or `processing-instruction()` with an optional target.
#[derive(Clone, Debug)]
pub enum XPathNodeTest {
    Star,
    Name(String, Option<String>),
    Node,
    Text,
    Comment,
    Pi(Option<String>),
}

/// The subtrees of the sibling chain starting at `c`, each node before its
/// descendants and before its following siblings (document order), spending
/// one unit of `fuel` per step.
pub open spec fn desc_list(s: Seq<Node>, c: Option<NodeId>, fuel: nat) -> Seq<NodeId>
    decreases fuel,
{
    if fuel == 0 {
        Seq::empty()
    } else {
        match c {
            None => Seq::empty(),
            Some(x) => seq![x] + desc_list(s, s[x.0 as int].first_child, (fuel - 1) as nat) + desc_list(
                s,
                s[x.0 as int].next_sibling,
                (fuel - 1) as nat,
            ),
        }
    }
}

/// `c` and the nodes up its parent links, nearest first.
pub open spec fn up_chain(s: Seq<Node>, c: Option<NodeId>, fuel: nat) -> Seq<NodeId>
    decreases fuel,
{
    if fuel == 0 {
        Seq::empty()
    } else {
        match c {
            None => Seq::empty(),
            Some(x) => seq![x] + up_chain(s, s[x.0 as int].parent, (fuel - 1) as nat),
        }
    }
}

/// `c` and the nodes before it along its previous-sibling links, nearest first.
pub open spec fn prev_chain(s: Seq<Node>, c: Option<NodeId>, fuel: nat) -> Seq<NodeId>
    decreases fuel,
{
    if fuel == 0 {
        Seq::empty()
    } else {
        match c {
            None => Seq::empty(),
            Some(x) => seq![x] + prev_chain(s, s[x.0 as int].prev_sibling, (fuel - 1) as nat),
        }
    }
}

/// The `following` axis of `cur`: the subtrees of its following siblings,
/// then those of its parent's following siblings, and so on up.
pub open spec fn following_from(s: Seq<Node>, cur: NodeId, fuel: nat) -> Seq<NodeId>
    decreases fuel,
{
    if fuel == 0 {
        Seq::empty()
    } else {
        desc_list(s, s[cur.0 as int].next_sibling, s.len()) + match s[cur.0 as int].parent {
            Some(p) => following_from(s, p, (fuel - 1) as nat),
            None => Seq::empty(),
        }
    }
}

/// The nodes an axis (other than `preceding`) reaches from `n`, in
/// document order for the forward axes and nearest first for the reverse
/// ones (`ancestor`, `ancestor-or-self`); `preceding-sibling` in document
/// order; no namespace nodes.
pub open spec fn axis_seq(d: XmlDoc, n: NodeId, axis: XPathAxis) -> Seq<NodeId> {
    let s = d.nodes();
    let m = s[n.0 as int];
    match axis {
        XPathAxis::SelfAxis => seq![n],
        XPathAxis::Child => chain_of(s, m.first_child, s.len()),
        XPathAxis::Attribute => chain_of(s, m.first_attr, s.len()),
        XPathAxis::Parent => match m.parent {
            Some(p) => seq![p],
            None => Seq::empty(),
        },
        XPathAxis::Ancestor => up_chain(s, m.parent, s.len()),
        XPathAxis::AncestorOrSelf => seq![n] + up_chain(s, m.parent, s.len()),
        XPathAxis::Descendant => desc_list(s, m.first_child, s.len()),
        XPathAxis::DescendantOrSelf => seq![n] + desc_list(s, m.first_child, s.len()),
        XPathAxis::FollowingSibling => chain_of(s, m.next_sibling, s.len()),
        XPathAxis::PrecedingSibling => prev_chain(s, m.prev_sibling, s.len()).reverse(),
        XPathAxis::Following => following_from(s, n, s.len()),
        XPathAxis::Preceding => Seq::empty(),
        XPathAxis::Namespace => Seq::empty(),
    }
}

/// The URI the first registration of `p` among `ns` gives.
pub open spec fn ns_first(ns: Seq<(String, String)>, p: Seq<char>) -> Option<Seq<char>>
    decreases ns.len(),
{
    if ns.len() == 0 {
        None
    } else if ns[0].0@ == p {
        Some(ns[0].1@)
    } else {
        ns_first(ns.drop_first(), p)
    }
}

/// Node `x` passes `test` on `axis` (whose principal node kind is the
/// attribute for the attribute axis and the element otherwise), prefixes
/// resolved through `ns`, and by the node's own prefix when `ns` does not
/// register it.
pub open spec fn node_test_ok(d: XmlDoc, x: NodeId, test: XPathNodeTest, ns: Seq<(String, String)>, axis: XPathAxis) -> bool {
    let m = d.nodes()[x.0 as int];
    let principal = if axis == XPathAxis::Attribute { NodeKind::Attribute } else { NodeKind::Element };
    match test {
        XPathNodeTest::Node => true,
        XPathNodeTest::Star => m.kind == principal,
        XPathNodeTest::Text => m.kind == NodeKind::Text || m.kind == NodeKind::CData,
        XPathNodeTest::Comment => m.kind == NodeKind::Comment,
        XPathNodeTest::Pi(t) => m.kind == NodeKind::Pi && (t matches Some(tt) ==> tt@ == node_name(m)),
        XPathNodeTest::Name(local, prefix) => {
            &&& m.kind == principal
            &&& node_name(m) == local@
            &&& (prefix matches Some(p) ==> match ns_first(ns, p@) {
                Some(h) => crate::tree::opt_string_view(m.ns_uri) == Some(h),
                None => crate::tree::opt_string_view(m.prefix) == Some(p@),
            })
        },
    }
}

/// The nodes of `xs` that pass the test, in order.
pub open spec fn tested(d: XmlDoc, xs: Seq<NodeId>, test: XPathNodeTest, ns: Seq<(String, String)>, axis: XPathAxis) -> Seq<NodeId>
    decreases xs.len(),
{
    if xs.len() == 0 {
        Seq::empty()
    } else {
        let rest = tested(d, xs.drop_last(), test, ns, axis);
        if node_test_ok(d, xs.last(), test, ns, axis) { rest.push(xs.last()) } else { rest }
    }
}

/// Append the subtrees of the sibling chain at `c` to `out`.
fn push_desc(doc: &XmlDoc, c: Option<NodeId>, fuel: usize, out: &mut Vec<NodeId>)
    requires
        doc.wf(),
        link_ok(c, doc.nodes().len()),
    ensures
        final(out)@ == old(out)@ + desc_list(doc.nodes(), c, fuel as nat),
    decreases fuel,
{
    if fuel == 0 {
        assert(old(out)@ + Seq::<NodeId>::empty() =~= old(out)@);
        return;
    }
    match c {
        None => {
            assert(old(out)@ + Seq::<NodeId>::empty() =~= old(out)@);
        },
        Some(x) => {
            proof {
                assert(doc.nodes()[x.0 as int].links_ok(doc.nodes().len()));
            }
            out.push(x);
            let ghost o1 = out@;
            push_desc(doc, doc.first_child(x), fuel - 1, out);
            let ghost o2 = out@;
            push_desc(doc, doc.next_sibling(x), fuel - 1, out);
            proof {
                let a = desc_list(doc.nodes(), doc.nodes()[x.0 as int].first_child, (fuel - 1) as nat);
                let b = desc_list(doc.nodes(), doc.nodes()[x.0 as int].next_sibling, (fuel - 1) as nat);
                assert(out@ =~= old(out)@ + (seq![x] + a + b));
            }
        },
    }
}

/// Push `x` when it passes the test.
fn push_tested(doc: &XmlDoc, x: NodeId, test: &XPathNodeTest, ns: &Vec<(String, String)>, axis: XPathAxis, out: &mut Vec<NodeId>)
    requires
        doc.has(x),
    ensures
        final(out)@ == (if node_test_ok(*doc, x, *test, ns@, axis) { old(out)@.push(x) } else { old(out)@ }),
{
    if passes(doc, x, test, ns, axis) {
        out.push(x);
    }
}

/// The first registration of `p` among `ns`.
fn lookup_prefix<'a>(ns: &'a Vec<(String, String)>, p: &str) -> (r: Option<&'a str>)
    ensures
        crate::tree::opt_str_view(r) == ns_first(ns@, p@),
{
    let mut k: usize = 0;
    assert(ns@.skip(0) =~= ns@);
    while k < ns.len()
        invariant
            k <= ns@.len(),
            ns_first(ns@, p@) == ns_first(ns@.skip(k as int), p@),
        decreases ns.len() - k,
    {
        assert(ns@.skip(k as int)[0] == ns@[k as int]);
        assert(ns@.skip(k as int).drop_first() =~= ns@.skip(k + 1));
        if str_eq(ns[k].0.as_str(), p) {
            return Some(ns[k].1.as_str());
        }
        k += 1;
    }
    None
}

/// Node `x` passes `test` on `axis`.
fn passes(doc: &XmlDoc, x: NodeId, test: &XPathNodeTest, ns: &Vec<(String, String)>, axis: XPathAxis) -> (r: bool)
    requires
        doc.has(x),
    ensures
        r == node_test_ok(*doc, x, *test, ns@, axis),
{
    let k = doc.kind(x);
    let principal = if axis == XPathAxis::Attribute { NodeKind::Attribute } else { NodeKind::Element };
    match test {
        XPathNodeTest::Node => true,
        XPathNodeTest::Star => k == principal,
        XPathNodeTest::Text => k == NodeKind::Text || k == NodeKind::CData,
        XPathNodeTest::Comment => k == NodeKind::Comment,
        XPathNodeTest::Pi(t) => {
            if k != NodeKind::Pi {
                return false;
            }
            match t {
                Some(tt) => str_eq(tt.as_str(), doc.name(x)),
                None => true,
            }
        },
        XPathNodeTest::Name(local, prefix) => {
            if k != principal || !str_eq(doc.name(x), local.as_str()) {
                return false;
            }
            match prefix {
                None => true,
                Some(p) => match lookup_prefix(ns, p.as_str()) {
                    Some(h) => match doc.ns_uri(x) {
                        Some(u) => str_eq(u, h),
                        None => false,
                    },
                    None => match doc.prefix(x) {
                        Some(q) => str_eq(q, p.as_str()),
                        None => false,
                    },
                },
            }
        },
    }
}

/// Every node of a chain of links stays inside the document.
proof fn lemma_desc_has(d: XmlDoc, c: Option<NodeId>, fuel: nat)
    requires
        d.wf(),
        link_ok(c, d.nodes().len()),
    ensures
        forall|k: int| 0 <= k < desc_list(d.nodes(), c, fuel).len() ==> d.has(#[trigger] desc_list(d.nodes(), c, fuel)[k]),
    decreases fuel,
{
    if fuel > 0 {
        if let Some(x) = c {
            assert(d.nodes()[x.0 as int].links_ok(d.nodes().len()));
            lemma_desc_has(d, d.nodes()[x.0 as int].first_child, (fuel - 1) as nat);
            lemma_desc_has(d, d.nodes()[x.0 as int].next_sibling, (fuel - 1) as nat);
            let a = desc_list(d.nodes(), d.nodes()[x.0 as int].first_child, (fuel - 1) as nat);
            let b = desc_list(d.nodes(), d.nodes()[x.0 as int].next_sibling, (fuel - 1) as nat);
            assert forall|k: int| 0 <= k < desc_list(d.nodes(), c, fuel).len() implies d.has(#[trigger] desc_list(d.nodes(), c, fuel)[k]) by {
                if k >= 1 && k < 1 + a.len() {
                    assert(desc_list(d.nodes(), c, fuel)[k] == a[k - 1]);
                } else if k >= 1 + a.len() {
                    assert(desc_list(d.nodes(), c, fuel)[k] == b[k - 1 - a.len()]);
                }
            }
        }
    }
}

/// Every node of a chain of sibling links stays inside the document.
proof fn lemma_chain_in(d: XmlDoc, c: Option<NodeId>, fuel: nat)
    requires
        d.wf(),
        link_ok(c, d.nodes().len()),
    ensures
        forall|k: int| 0 <= k < chain_of(d.nodes(), c, fuel).len() ==> d.has(#[trigger] chain_of(d.nodes(), c, fuel)[k]),
    decreases fuel,
{
    if fuel > 0 {
        if let Some(x) = c {
            assert(d.nodes()[x.0 as int].links_ok(d.nodes().len()));
            lemma_chain_in(d, d.nodes()[x.0 as int].next_sibling, (fuel - 1) as nat);
            let b = chain_of(d.nodes(), d.nodes()[x.0 as int].next_sibling, (fuel - 1) as nat);
            assert forall|k: int| 0 <= k < chain_of(d.nodes(), c, fuel).len() implies d.has(#[trigger] chain_of(d.nodes(), c, fuel)[k]) by {
                if k >= 1 {
                    assert(chain_of(d.nodes(), c, fuel)[k] == b[k - 1]);
                }
            }
        }
    }
}

/// Filter `raw` by the node test, in order.
fn filter_tested(doc: &XmlDoc, raw: &Vec<NodeId>, test: &XPathNodeTest, ns: &Vec<(String, String)>, axis: XPathAxis) -> (r: Vec<NodeId>)
    requires
        forall|k: int| 0 <= k < raw@.len() ==> doc.has(#[trigger] raw@[k]),
    ensures
        r@ == tested(*doc, raw@, *test, ns@, axis),
{
    let mut out: Vec<NodeId> = Vec::new();
    let mut i: usize = 0;
    while i < raw.len()
        invariant
            i <= raw@.len(),
            forall|k: int| 0 <= k < raw@.len() ==> doc.has(#[trigger] raw@[k]),
            out@ == tested(*doc, raw@.take(i as int), *test, ns@, axis),
        decreases raw.len() - i,
    {
        assert(raw@.take(i + 1).drop_last() =~= raw@.take(i as int));
        assert(raw@.take(i + 1).last() == raw@[i as int]);
        push_tested(doc, raw[i], test, ns, axis, &mut out);
        i += 1;
    }
    assert(raw@.take(i as int) =~= raw@);
    out
}

/// The nodes `axis` reaches from `n`, as `axis_seq` lists them.
fn axis_raw(doc: &XmlDoc, n: NodeId, axis: XPathAxis) -> (r: Vec<NodeId>)
    requires
        doc.wf(),
        doc.has(n),
        axis != XPathAxis::Preceding,
    ensures
        r@ == axis_seq(*doc, n, axis),
        forall|k: int| 0 <= k < r@.len() ==> doc.has(#[trigger] r@[k]),
{
    let s = Ghost(doc.nodes());
    proof {
        assert(doc.nodes()[n.0 as int].links_ok(doc.nodes().len()));
    }
    let len = doc.len();
    let mut raw: Vec<NodeId> = Vec::new();
    match axis {
        XPathAxis::SelfAxis => {
            raw.push(n);
            assert(raw@ =~= seq![n]);
        },
        XPathAxis::Child => {
            raw = doc.children(n);
        },
        XPathAxis::Attribute => {
            raw = doc.attrs(n);
        },
        XPathAxis::Parent => {
            match doc.parent(n) {
                Some(p) => {
                    raw.push(p);
                    assert(raw@ =~= seq![p]);
                },
                None => {
                    assert(raw@ =~= Seq::<NodeId>::empty());
                },
            }
        },
        XPathAxis::Ancestor | XPathAxis::AncestorOrSelf => {
            if axis == XPathAxis::AncestorOrSelf {
                raw.push(n);
            }
            let ghost pre = raw@;
            let mut c = doc.parent(n);
            let mut fuel = len;
            assert(raw@ + up_chain(s@, c, fuel as nat) =~= pre + up_chain(s@, c, fuel as nat));
            let ghost start = c;
            while fuel > 0
                invariant_except_break
                    raw@ + up_chain(s@, c, fuel as nat) == pre + up_chain(s@, start, len as nat),
                invariant
                    doc.wf(),
                    s@ == doc.nodes(),
                    link_ok(c, doc.nodes().len()),
                    forall|k: int| 0 <= k < raw@.len() ==> doc.has(#[trigger] raw@[k]),
                ensures
                    raw@ == pre + up_chain(s@, start, len as nat),
                decreases fuel,
            {
                match c {
                    None => {
                        assert(raw@ + Seq::<NodeId>::empty() =~= raw@);
                        break;
                    },
                    Some(x) => {
                        proof {
                            assert(doc.nodes()[x.0 as int].links_ok(doc.nodes().len()));
                        }
                        let ghost r0 = raw@;
                        raw.push(x);
                        let nx = doc.parent(x);
                        assert(r0 + (seq![x] + up_chain(s@, nx, (fuel - 1) as nat)) =~= raw@ + up_chain(s@, nx, (fuel - 1) as nat));
                        c = nx;
                        fuel -= 1;
                    },
                }
            }
            proof {
                if fuel == 0 {
                    assert(raw@ + Seq::<NodeId>::empty() =~= raw@);
                }
            }
        },
        XPathAxis::Descendant | XPathAxis::DescendantOrSelf => {
            if axis == XPathAxis::DescendantOrSelf {
                raw.push(n);
            }
            push_desc(doc, doc.first_child(n), len, &mut raw);
            proof {
                lemma_desc_has(*doc, doc.nodes()[n.0 as int].first_child, len as nat);
            }
        },
        XPathAxis::FollowingSibling => {
            raw = doc.chain(doc.next_sibling(n));
        },
        XPathAxis::PrecedingSibling => {
            let mut back: Vec<NodeId> = Vec::new();
            let mut c = doc.prev_sibling(n);
            let ghost start = c;
            let mut fuel = len;
            while fuel > 0
                invariant_except_break
                    back@ + prev_chain(s@, c, fuel as nat) == prev_chain(s@, start, len as nat),
                invariant
                    doc.wf(),
                    s@ == doc.nodes(),
                    link_ok(c, doc.nodes().len()),
                    forall|k: int| 0 <= k < back@.len() ==> doc.has(#[trigger] back@[k]),
                ensures
                    back@ == prev_chain(s@, start, len as nat),
                decreases fuel,
            {
                match c {
                    None => {
                        assert(back@ + Seq::<NodeId>::empty() =~= back@);
                        break;
                    },
                    Some(x) => {
                        proof {
                            assert(doc.nodes()[x.0 as int].links_ok(doc.nodes().len()));
                        }
                        let ghost b0 = back@;
                        back.push(x);
                        let nx = doc.prev_sibling(x);
                        assert(b0 + (seq![x] + prev_chain(s@, nx, (fuel - 1) as nat)) =~= back@ + prev_chain(s@, nx, (fuel - 1) as nat));
                        c = nx;
                        fuel -= 1;
                    },
                }
            }
            proof {
                if fuel == 0 {
                    assert(back@ + Seq::<NodeId>::empty() =~= back@);
                }
            }
            let mut k = back.len();
            while k > 0
                invariant
                    k <= back@.len(),
                    raw@ == back@.subrange(k as int, back@.len() as int).reverse(),
                    forall|j: int| 0 <= j < back@.len() ==> doc.has(#[trigger] back@[j]),
                    forall|j: int| 0 <= j < raw@.len() ==> doc.has(#[trigger] raw@[j]),
                decreases k,
            {
                k -= 1;
                let ghost r0 = raw@;
                raw.push(back[k]);
                assert(raw@ =~= back@.subrange(k as int, back@.len() as int).reverse()) by {
                    assert(back@.subrange(k as int, back@.len() as int).reverse() =~= r0.push(back@[k as int]));
                }
            }
            assert(back@.subrange(0, back@.len() as int) =~= back@);
        },
        XPathAxis::Following => {
            let mut cur = n;
            let mut fuel = len;
            let ghost pre = raw@;
            assert(raw@ + following_from(s@, cur, fuel as nat) =~= following_from(s@, n, len as nat));
            while fuel > 0
                invariant_except_break
                    raw@ + following_from(s@, cur, fuel as nat) == following_from(s@, n, len as nat),
                invariant
                    doc.wf(),
                    s@ == doc.nodes(),
                    len == doc.nodes().len(),
                    doc.has(cur),
                    forall|k: int| 0 <= k < raw@.len() ==> doc.has(#[trigger] raw@[k]),
                ensures
                    raw@ == following_from(s@, n, len as nat),
                decreases fuel,
            {
                proof {
                    assert(doc.nodes()[cur.0 as int].links_ok(doc.nodes().len()));
                    lemma_desc_has(*doc, doc.nodes()[cur.0 as int].next_sibling, len as nat);
                }
                let ghost r0 = raw@;
                push_desc(doc, doc.next_sibling(cur), len, &mut raw);
                let ghost r1 = raw@;
                match doc.parent(cur) {
                    Some(p) => {
                        assert(r0 + (desc_list(s@, s@[cur.0 as int].next_sibling, len as nat)
                            + following_from(s@, p, (fuel - 1) as nat)) =~= raw@ + following_from(s@, p, (fuel - 1) as nat));
                        cur = p;
                        fuel -= 1;
                    },
                    None => {
                        assert(r0 + (desc_list(s@, s@[cur.0 as int].next_sibling, len as nat) + Seq::<NodeId>::empty())
                            =~= raw@);
                        break;
                    },
                }
            }
            proof {
                if fuel == 0 {
                    assert(raw@ + Seq::<NodeId>::empty() =~= raw@);
                }
            }
        },
        _ => {
            assert(raw@ =~= Seq::<NodeId>::empty());
        },
    }
    raw
}

/// The nodes before `n` in `xml_xpath_order_doc_elems` order, leaving out
/// `n`'s ancestors.
fn preceding_raw(doc: &XmlDoc, n: NodeId) -> (r: Vec<NodeId>)
    requires
        doc.wf(),
        doc.has(n),
    ensures
        forall|k: int| 0 <= k < r@.len() ==> doc.has(#[trigger] r@[k]),
        forall|k: int| 0 <= k < r@.len() ==> !up_chain(doc.nodes(), Some(n), doc.nodes().len()).contains(#[trigger] r@[k]),
{
    let order = crate::xpath::xml_xpath_order_doc_elems(doc);
    let mut anc: Vec<NodeId> = Vec::new();
    let mut c = Some(n);
    let mut fuel = doc.len();
    let ghost s = doc.nodes();
    while fuel > 0
        invariant_except_break
            anc@ + up_chain(s, c, fuel as nat) == up_chain(s, Some(n), doc.nodes().len()),
        invariant
            doc.wf(),
            s == doc.nodes(),
            link_ok(c, doc.nodes().len()),
        ensures
            anc@ == up_chain(s, Some(n), doc.nodes().len()),
        decreases fuel,
    {
        match c {
            None => {
                assert(anc@ + Seq::<NodeId>::empty() =~= anc@);
                break;
            },
            Some(x) => {
                proof {
                    assert(doc.nodes()[x.0 as int].links_ok(doc.nodes().len()));
                }
                let ghost a0 = anc@;
                anc.push(x);
                let nx = doc.parent(x);
                assert(a0 + (seq![x] + up_chain(s, nx, (fuel - 1) as nat)) =~= anc@ + up_chain(s, nx, (fuel - 1) as nat));
                c = nx;
                fuel -= 1;
            },
        }
    }
    proof {
        if fuel == 0 {
            assert(anc@ + Seq::<NodeId>::empty() =~= anc@);
        }
    }
    let mut idx = order.len();
    let mut i: usize = 0;
    while i < order.len()
        invariant
            i <= order@.len(),
            idx <= order@.len(),
        decreases order.len() - i,
    {
        if order[i] == n {
            idx = i;
            break;
        }
        i += 1;
    }
    let mut out: Vec<NodeId> = Vec::new();
    let mut j: usize = 0;
    while j < idx && j < order.len()
        invariant
            j <= order@.len(),
            forall|k: int| 0 <= k < order@.len() ==> doc.has(#[trigger] order@[k]),
            forall|k: int| 0 <= k < out@.len() ==> doc.has(#[trigger] out@[k]),
            forall|k: int| 0 <= k < out@.len() ==> !anc@.contains(#[trigger] out@[k]),
        decreases order.len() - j,
    {
        let x = order[j];
        let mut found = false;
        let mut a: usize = 0;
        while a < anc.len()
            invariant
                a <= anc@.len(),
                found == (exists|k: int| 0 <= k < a && #[trigger] anc@[k] == x),
            decreases anc.len() - a,
        {
            if anc[a] == x {
                found = true;
            }
            a += 1;
        }
        if !found {
            out.push(x);
        }
        j += 1;
    }
    out
}

/// The nodes location step `axis::test` selects from `n`: for every axis
/// but `preceding`, exactly the nodes of `axis_seq` that pass the test, in
/// that order; for `preceding`, nodes before `n` in document order that are
/// not its ancestors, filtered the same way.
pub fn xpath_axis_nodes(doc: &XmlDoc, n: NodeId, axis: XPathAxis, test: &XPathNodeTest, ns: &Vec<(String, String)>) -> (r: Vec<NodeId>)
    requires
        doc.wf(),
        doc.has(n),
    ensures
        axis != XPathAxis::Preceding ==> r@ == tested(*doc, axis_seq(*doc, n, axis), *test, ns@, axis),
        forall|k: int| 0 <= k < r@.len() ==> doc.has(#[trigger] r@[k]),
        axis == XPathAxis::Preceding ==> forall|k: int| 0 <= k < r@.len()
            ==> !up_chain(doc.nodes(), Some(n), doc.nodes().len()).contains(#[trigger] r@[k])
                && node_test_ok(*doc, r@[k], *test, ns@, axis),
{
    let raw = if axis == XPathAxis::Preceding { preceding_raw(doc, n) } else { axis_raw(doc, n, axis) };
    let r = filter_tested(doc, &raw, test, ns, axis);
    proof {
        lemma_tested_sub(*doc, raw@, *test, ns@, axis);
    }
    r
}

/// What passes the test is among the nodes tested, and passes it.
proof fn lemma_tested_sub(d: XmlDoc, xs: Seq<NodeId>, test: XPathNodeTest, ns: Seq<(String, String)>, axis: XPathAxis)
    ensures
        forall|k: int| 0 <= k < tested(d, xs, test, ns, axis).len() ==> xs.contains(#[trigger] tested(d, xs, test, ns, axis)[k])
            && node_test_ok(d, tested(d, xs, test, ns, axis)[k], test, ns, axis),
    decreases xs.len(),
{
    if xs.len() > 0 {
        lemma_tested_sub(d, xs.drop_last(), test, ns, axis);
        let rest = tested(d, xs.drop_last(), test, ns, axis);
        assert forall|k: int| 0 <= k < tested(d, xs, test, ns, axis).len() implies xs.contains(#[trigger] tested(d, xs, test, ns, axis)[k])
            && node_test_ok(d, tested(d, xs, test, ns, axis)[k], test, ns, axis) by {
            if k < rest.len() {
                assert(tested(d, xs, test, ns, axis)[k] == rest[k]);
                let w = choose|w: int| 0 <= w < xs.drop_last().len() && xs.drop_last()[w] == rest[k];
                assert(xs[w] == rest[k]);
            } else {
                assert(xs[xs.len() - 1] == xs.last());
            }
        }
    }
}

} // verus!
