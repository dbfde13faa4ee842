//! The XPath evaluation context and document order.

use vstd::prelude::*;
use crate::tree::{XmlDoc, NodeId};

verus! {

/// `xmlXPathObjectType`: undefined.
pub const XPATH_UNDEFINED: i32 = 0;
/// `xmlXPathObjectType`: a node-set.
pub const XPATH_NODESET: i32 = 1;
/// `xmlXPathObjectType`: a boolean.
pub const XPATH_BOOLEAN: i32 = 2;
/// `xmlXPathObjectType`: a number.
pub const XPATH_NUMBER: i32 = 3;
/// `xmlXPathObjectType`: a string.
pub const XPATH_STRING: i32 = 4;

/// `xmlXPathContext`: the document, the context node, position and size,
/// and the registered namespace prefixes.
pub struct XmlXPathContext<'a> {
    pub doc: &'a XmlDoc,
    pub node: NodeId,
    pub position: usize,
    pub size: usize,
    pub ns: Vec<(String, String)>,
}

impl<'a> XmlXPathContext<'a> {
    /// The registered prefixes and their URIs, in registration order.
    pub open spec fn namespaces(&self) -> Seq<(Seq<char>, Seq<char>)> {
        self.ns@.map_values(|p: (String, String)| (p.0@, p.1@))
    }

    /// `xmlXPathNewContext`: the root element (or the document node) as
    /// context node, at position 1 of 1, with no prefixes.
    pub fn xml_xpath_new_context(doc: &'a XmlDoc) -> (r: Self)
        requires
            doc.wf(),
        ensures
            r.doc == doc,
            r.node == (match crate::tree::root_of(*doc) {
                Some(x) => x,
                None => NodeId(0),
            }),
            r.position == 1,
            r.size == 1,
            r.namespaces().len() == 0,
    {
        let node = match doc.xml_doc_get_root_element() {
            Some(x) => x,
            None => NodeId::document(),
        };
        let r = XmlXPathContext { doc, node, position: 1, size: 1, ns: Vec::new() };
        assert(r.namespaces() =~= Seq::<(Seq<char>, Seq<char>)>::empty());
        r
    }

    /// `xmlXPathSetContextNode`.
    pub fn xml_xpath_set_context_node(&mut self, node: NodeId)
        ensures
            final(self).node == node,
            final(self).doc == old(self).doc,
            final(self).position == old(self).position,
            final(self).size == old(self).size,
            final(self).namespaces() == old(self).namespaces(),
    {
        self.node = node;
    }

    /// `xmlXPathRegisterNs`: bind `prefix` to `href` for later lookups.
    pub fn register_ns(&mut self, prefix: &str, href: &str)
        ensures
            final(self).namespaces() == old(self).namespaces().push((prefix@, href@)),
            final(self).node == old(self).node,
            final(self).doc == old(self).doc,
            final(self).position == old(self).position,
            final(self).size == old(self).size,
    {
        self.ns.push((String::from_str(prefix), String::from_str(href)));
        assert(self.namespaces() =~= old(self).namespaces().push((prefix@, href@)));
    }

    /// The URI bound to `prefix`: the latest registration wins.
    pub fn lookup_ns(&self, prefix: &str) -> (r: Option<String>)
        ensures
            crate::tree::opt_string_view(r) == last_binding(self.namespaces(), prefix@),
    {
        let mut k = self.ns.len();
        assert(self.namespaces().take(k as int) =~= self.namespaces());
        while k > 0
            invariant
                k <= self.ns@.len(),
                self.namespaces().len() == self.ns@.len(),
                last_binding(self.namespaces(), prefix@) == last_binding(self.namespaces().take(k as int), prefix@),
            decreases k,
        {
            let ghost t = self.namespaces().take(k as int);
            k -= 1;
            assert(t.drop_last() =~= self.namespaces().take(k as int));
            assert(t.last() == self.namespaces()[k as int]);
            if crate::util::str_eq(self.ns[k].0.as_str(), prefix) {
                let u = self.ns[k].1.clone();
                assert(self.namespaces()[k as int] == (prefix@, u@));
                return Some(u);
            }
        }
        None
    }
}

/// The URI bound to `prefix` in `ns`: the latest binding wins.
pub open spec fn last_binding(ns: Seq<(Seq<char>, Seq<char>)>, prefix: Seq<char>) -> Option<Seq<char>>
    decreases ns.len(),
{
    if ns.len() == 0 {
        None
    } else if ns.last().0 == prefix {
        Some(ns.last().1)
    } else {
        last_binding(ns.drop_last(), prefix)
    }
}

/// Work of the document-order walk, in place of recursion.
enum OrderStep {
    Node(NodeId),
}

/// `xmlXPathOrderDocElems`: every node reachable from the document node, in
/// document order: a node, then its attributes, then its children's
/// subtrees. Each listed node is a node of the document.
pub fn xml_xpath_order_doc_elems(doc: &XmlDoc) -> (r: Vec<NodeId>)
    requires
        doc.wf(),
    ensures
        r@.len() >= 1,
        r@[0] == NodeId(0),
        forall|k: int| 0 <= k < r@.len() ==> doc.has(#[trigger] r@[k]),
{
    let mut out: Vec<NodeId> = Vec::new();
    let mut work: Vec<OrderStep> = Vec::new();
    work.push(OrderStep::Node(NodeId::document()));
    let mut fuel = doc.len();
    while work.len() > 0 && fuel > 0
        invariant
            doc.wf(),
            forall|k: int| 0 <= k < work@.len() ==> match #[trigger] work@[k] {
                OrderStep::Node(n) => doc.has(n),
            },
            forall|k: int| 0 <= k < out@.len() ==> doc.has(#[trigger] out@[k]),
            out@.len() == 0 ==> (work@.len() == 1 && work@[0] == OrderStep::Node(NodeId(0)) && fuel >= 1),
            out@.len() > 0 ==> out@[0] == NodeId(0),
        decreases fuel,
    {
        fuel -= 1;
        let OrderStep::Node(id) = work.pop().unwrap();
        out.push(id);
        proof {
            assert(doc.nodes()[id.0 as int].links_ok(doc.nodes().len()));
        }
        let mut a = doc.first_attr(id);
        let mut af = doc.len();
        while af > 0
            invariant
                doc.wf(),
                crate::tree::link_ok(a, doc.nodes().len()),
                forall|k: int| 0 <= k < out@.len() ==> doc.has(#[trigger] out@[k]),
                out@.len() > 0,
                out@[0] == NodeId(0),
            decreases af,
        {
            match a {
                None => {
                    break;
                },
                Some(x) => {
                    proof {
                        assert(doc.nodes()[x.0 as int].links_ok(doc.nodes().len()));
                    }
                    out.push(x);
                    a = doc.next_sibling(x);
                },
            }
            af -= 1;
        }
        let mut c = doc.last_child(id);
        let mut cf = doc.len();
        while cf > 0
            invariant
                doc.wf(),
                crate::tree::link_ok(c, doc.nodes().len()),
                forall|k: int| 0 <= k < work@.len() ==> match #[trigger] work@[k] {
                    OrderStep::Node(n) => doc.has(n),
                },
            decreases cf,
        {
            match c {
                None => {
                    break;
                },
                Some(x) => {
                    proof {
                        assert(doc.nodes()[x.0 as int].links_ok(doc.nodes().len()));
                    }
                    work.push(OrderStep::Node(x));
                    c = doc.prev_sibling(x);
                },
            }
            cf -= 1;
        }
    }
    out
}

/// The index of `n` in `v`.
fn position_of(v: &Vec<NodeId>, n: NodeId) -> (r: Option<usize>)
    ensures
        r matches Some(k) ==> k < v@.len() && v@[k as int] == n && forall|j: int| 0 <= j < k ==> v@[j] != n,
        r is None ==> forall|j: int| 0 <= j < v@.len() ==> v@[j] != n,
{
    let mut k: usize = 0;
    while k < v.len()
        invariant
            k <= v@.len(),
            forall|j: int| 0 <= j < k ==> v@[j] != n,
        decreases v.len() - k,
    {
        if v[k] == n {
            return Some(k);
        }
        k += 1;
    }
    None
}

/// `xmlXPathCmpNodes`, as the three-way comparison of the two nodes'
/// places in document order (`-1`, `0` or `1`); nodes outside the order
/// compare by arena index.
pub fn xml_xpath_cmp_nodes(doc: &XmlDoc, a: NodeId, b: NodeId) -> (r: i32)
    requires
        doc.wf(),
    ensures
        -1 <= r <= 1,
        a == b ==> r == 0,
{
    let order = xml_xpath_order_doc_elems(doc);
    match (position_of(&order, a), position_of(&order, b)) {
        (Some(x), Some(y)) => {
            if x < y {
                -1
            } else if x > y {
                1
            } else {
                0
            }
        },
        _ => {
            if a.0 < b.0 {
                -1
            } else if a.0 > b.0 {
                1
            } else {
                0
            }
        },
    }
}

} // verus!
