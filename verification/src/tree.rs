//! Arena document tree with libxml2 `tree.h` ownership: the document owns
//! every node and handles are indices into its arena.

use vstd::prelude::*;
use crate::util::{str_eq, push_char};

verus! {

/// libxml2 `xmlElementType`.
#[derive(Clone, Copy, PartialEq, Eq, Debug, Structural)]
pub enum NodeKind {
    Element,
    Attribute,
    Text,
    CData,
    EntityRef,
    Entity,
    Pi,
    Comment,
    Document,
    DocumentType,
    DocumentFrag,
    Notation,
    HtmlDocument,
    Dtd,
    ElementDecl,
    AttributeDecl,
    EntityDecl,
    Namespace,
    XIncludeStart,
    XIncludeEnd,
}

/// Element content model of a DTD declaration.
#[derive(Clone, Debug)]
pub enum ElementDecl {
    Empty,
    Any,
    /// `(#PCDATA | a | b)*`: the element names allowed among the text.
    Mixed(Vec<String>),
    /// A children model, kept as its source text.
    Children(String),
}

/// Default declaration of an attribute.
#[derive(Clone, Copy, Debug, PartialEq, Eq, Structural)]
pub enum AttrDefault {
    Required,
    Implied,
    Fixed,
    Value,
}

/// One `<!ATTLIST>` attribute definition.
#[derive(Clone, Debug)]
pub struct AttrDecl {
    pub att_type: String,
    pub default: AttrDefault,
    pub default_value: Option<String>,
    pub enumerated: Vec<String>,
}

/// Parsed DTD attached to a document (`xmlDtd`). Declarations are kept in
/// source order; lookups return the binding one.
#[derive(Clone, Debug)]
pub struct XmlDtd {
    pub name: Option<String>,
    pub public_id: Option<String>,
    pub system_id: Option<String>,
    pub int_subset: Option<String>,
    /// General entity name and replacement text; the first declaration binds.
    pub entities: Vec<(String, String)>,
    /// Parameter entity name and replacement; the first declaration binds.
    pub parameter_entities: Vec<(String, String)>,
    /// Element name and content model; a later declaration replaces an earlier one.
    pub elements: Vec<(String, ElementDecl)>,
    /// (element, attribute) and declaration; the first declaration binds.
    pub attributes: Vec<(String, String, AttrDecl)>,
    /// Declared notation names.
    pub notations: Vec<String>,
    /// Entities declared with NDATA.
    pub unparsed_entities: Vec<String>,
    /// The notations named by NDATA annotations.
    pub ndata_notations: Vec<String>,
    /// Element names declared more than once.
    pub duplicate_elements: Vec<String>,
    /// The subset referenced a parameter entity.
    pub has_parameter_entity_refs: bool,
}

impl XmlDtd {
    /// A DTD with no declarations.
    pub fn new() -> (r: Self)
        ensures
            r.name is None,
            r.public_id is None,
            r.system_id is None,
            r.int_subset is None,
            r.entities@.len() == 0,
            r.parameter_entities@.len() == 0,
            r.elements@.len() == 0,
            r.attributes@.len() == 0,
            r.notations@.len() == 0,
            r.unparsed_entities@.len() == 0,
            r.ndata_notations@.len() == 0,
            r.duplicate_elements@.len() == 0,
            !r.has_parameter_entity_refs,
    {
        XmlDtd {
            name: None,
            public_id: None,
            system_id: None,
            int_subset: None,
            entities: Vec::new(),
            parameter_entities: Vec::new(),
            elements: Vec::new(),
            attributes: Vec::new(),
            notations: Vec::new(),
            unparsed_entities: Vec::new(),
            ndata_notations: Vec::new(),
            duplicate_elements: Vec::new(),
            has_parameter_entity_refs: false,
        }
    }
}

/// Stable handle into an [`XmlDoc`] arena.
#[derive(Clone, Copy, PartialEq, Eq, Hash, Debug, Structural)]
pub struct NodeId(pub u32);

impl NodeId {
    /// The document node, always slot 0.
    pub fn document() -> (r: NodeId)
        ensures
            r.0 == 0,
    {
        NodeId(0)
    }

    /// The arena index.
    pub fn index(self) -> (r: usize)
        ensures
            r == self.0,
    {
        self.0 as usize
    }
}

/// One node of the arena.
#[derive(Clone, Debug)]
pub struct Node {
    pub kind: NodeKind,
    pub name: String,
    pub prefix: Option<String>,
    pub ns_uri: Option<String>,
    pub content: String,
    pub parent: Option<NodeId>,
    pub first_child: Option<NodeId>,
    pub last_child: Option<NodeId>,
    pub prev_sibling: Option<NodeId>,
    pub next_sibling: Option<NodeId>,
    pub first_attr: Option<NodeId>,
    pub last_attr: Option<NodeId>,
    /// Namespace declarations on this element, in source order.
    pub ns_defs: Vec<(Option<String>, String)>,
}

/// A link is absent or names a slot of an arena of `n` nodes.
pub open spec fn link_ok(l: Option<NodeId>, n: nat) -> bool {
    match l {
        Some(id) => (id.0 as nat) < n,
        None => true,
    }
}

/// A freshly allocated node: the given kind and name, nothing else.
pub open spec fn fresh_node(n: Node, kind: NodeKind, name: Seq<char>) -> bool {
    &&& n.kind == kind
    &&& n.name@ == name
    &&& n.prefix is None
    &&& n.ns_uri is None
    &&& n.content@.len() == 0
    &&& n.parent is None
    &&& n.first_child is None
    &&& n.last_child is None
    &&& n.prev_sibling is None
    &&& n.next_sibling is None
    &&& n.first_attr is None
    &&& n.last_attr is None
    &&& n.ns_defs@.len() == 0
}

impl Node {
    /// Every link of the node stays inside an arena of `n` nodes.
    pub open spec fn links_ok(&self, n: nat) -> bool {
        &&& link_ok(self.parent, n)
        &&& link_ok(self.first_child, n)
        &&& link_ok(self.last_child, n)
        &&& link_ok(self.prev_sibling, n)
        &&& link_ok(self.next_sibling, n)
        &&& link_ok(self.first_attr, n)
        &&& link_ok(self.last_attr, n)
    }

    fn new(kind: NodeKind, name: String) -> (r: Node)
        ensures
            fresh_node(r, kind, name@),
    {
        Node {
            kind,
            name,
            prefix: None,
            ns_uri: None,
            content: String::new(),
            parent: None,
            first_child: None,
            last_child: None,
            prev_sibling: None,
            next_sibling: None,
            first_attr: None,
            last_attr: None,
            ns_defs: Vec::new(),
        }
    }
}

/// Setters on the arena's abstract node sequence, used to state exactly what
/// each operation changes.
pub open spec fn set_parent(s: Seq<Node>, i: int, v: Option<NodeId>) -> Seq<Node> {
    s.update(i, Node { parent: v, ..s[i] })
}

pub open spec fn set_first_child(s: Seq<Node>, i: int, v: Option<NodeId>) -> Seq<Node> {
    s.update(i, Node { first_child: v, ..s[i] })
}

pub open spec fn set_last_child(s: Seq<Node>, i: int, v: Option<NodeId>) -> Seq<Node> {
    s.update(i, Node { last_child: v, ..s[i] })
}

pub open spec fn set_prev(s: Seq<Node>, i: int, v: Option<NodeId>) -> Seq<Node> {
    s.update(i, Node { prev_sibling: v, ..s[i] })
}

pub open spec fn set_next(s: Seq<Node>, i: int, v: Option<NodeId>) -> Seq<Node> {
    s.update(i, Node { next_sibling: v, ..s[i] })
}

pub open spec fn set_first_attr(s: Seq<Node>, i: int, v: Option<NodeId>) -> Seq<Node> {
    s.update(i, Node { first_attr: v, ..s[i] })
}

pub open spec fn set_last_attr(s: Seq<Node>, i: int, v: Option<NodeId>) -> Seq<Node> {
    s.update(i, Node { last_attr: v, ..s[i] })
}

/// The arena after detaching `id` from its parent and siblings: the
/// neighbours are joined, the parent's first/last child are moved past it,
/// and its own parent and sibling links are cleared.
pub open spec fn unlink_nodes(s: Seq<Node>, id: int) -> Seq<Node> {
    let n = s[id];
    let s1 = match n.prev_sibling {
        Some(p) => set_next(s, p.0 as int, n.next_sibling),
        None => s,
    };
    let s2 = match n.next_sibling {
        Some(x) => set_prev(s1, x.0 as int, n.prev_sibling),
        None => s1,
    };
    let s3 = match n.parent {
        Some(par) => {
            let a = if s2[par.0 as int].first_child == Some(NodeId(id as u32)) {
                set_first_child(s2, par.0 as int, n.next_sibling)
            } else {
                s2
            };
            if a[par.0 as int].last_child == Some(NodeId(id as u32)) {
                set_last_child(a, par.0 as int, n.prev_sibling)
            } else {
                a
            }
        },
        None => s2,
    };
    set_next(set_prev(set_parent(s3, id, None), id, None), id, None)
}

/// Detaching `id` leaves the parent link of every other node.
proof fn lemma_unlink_keeps_parent(s: Seq<Node>, id: int, other: int)
    requires
        0 <= id < s.len(),
        0 <= other < s.len(),
        other != id,
        s[id].links_ok(s.len()),
    ensures
        unlinked(s, id)[other].parent == s[other].parent,
        unlinked(s, id).len() == s.len(),
{
    if id != 0 {
        let n = s[id];
        let s1 = match n.prev_sibling {
            Some(p) => set_next(s, p.0 as int, n.next_sibling),
            None => s,
        };
        assert(s1[other].parent == s[other].parent && s1.len() == s.len());
        let s2 = match n.next_sibling {
            Some(x) => set_prev(s1, x.0 as int, n.prev_sibling),
            None => s1,
        };
        assert(s2[other].parent == s[other].parent && s2.len() == s.len());
        let s3 = match n.parent {
            Some(par) => {
                let a = if s2[par.0 as int].first_child == Some(NodeId(id as u32)) {
                    set_first_child(s2, par.0 as int, n.next_sibling)
                } else {
                    s2
                };
                assert(a[other].parent == s[other].parent && a.len() == s.len());
                if a[par.0 as int].last_child == Some(NodeId(id as u32)) {
                    set_last_child(a, par.0 as int, n.prev_sibling)
                } else {
                    a
                }
            },
            None => s2,
        };
        assert(s3[other].parent == s[other].parent && s3.len() == s.len());
        assert(unlink_nodes(s, id) == set_next(set_prev(set_parent(s3, id, None), id, None), id, None));
    }
}

/// Appending `child` under `parent` leaves the parent link of every other node.
proof fn lemma_append_keeps_parent(s: Seq<Node>, parent: int, child: int, other: int)
    requires
        0 <= parent < s.len(),
        0 <= child < s.len(),
        0 <= other < s.len(),
        other != child,
        s[parent].last_child matches Some(l) ==> 0 <= l.0 < s.len(),
    ensures
        append_child_nodes(s, parent, child)[other].parent == s[other].parent,
{
    let s1 = set_parent(s, child, Some(NodeId(parent as u32)));
    assert(s1[other].parent == s[other].parent);
    let s2 = match s1[parent].last_child {
        Some(l) => set_prev(set_next(s1, l.0 as int, Some(NodeId(child as u32))), child, Some(l)),
        None => set_first_child(s1, parent, Some(NodeId(child as u32))),
    };
    assert(s2[other].parent == s[other].parent);
}

/// Moving `child` under `parent` leaves the parent link of every other node.
pub proof fn lemma_relink_keeps_parent(s: Seq<Node>, parent: int, child: int, other: int)
    requires
        0 <= parent < s.len(),
        0 <= child < s.len(),
        0 <= other < s.len(),
        other != child,
        arena_ok(s),
    ensures
        append_child_nodes(unlinked(s, child), parent, child)[other].parent == s[other].parent,
{
    assert(s[child].links_ok(s.len()));
    lemma_unlink_keeps_parent(s, child, other);
    let u = unlinked(s, child);
    if child != 0 {
        lemma_unlink_ok(s, child);
    }
    assert(arena_ok(u));
    assert(u[parent].links_ok(u.len()));
    lemma_append_keeps_parent(u, parent, child, other);
}

/// The arena after appending the detached node `child` as the last child of
/// `parent`.
pub open spec fn append_child_nodes(s: Seq<Node>, parent: int, child: int) -> Seq<Node> {
    let s1 = set_parent(s, child, Some(NodeId(parent as u32)));
    let s2 = match s1[parent].last_child {
        Some(l) => set_prev(set_next(s1, l.0 as int, Some(NodeId(child as u32))), child, Some(l)),
        None => set_first_child(s1, parent, Some(NodeId(child as u32))),
    };
    set_last_child(s2, parent, Some(NodeId(child as u32)))
}

/// libxml2 `xmlDoc`.
#[derive(Clone, Debug)]
pub struct XmlDoc {
    /// The arena; slot 0 is the document node.
    pub nodes: Vec<Node>,
    /// XML version string; default `"1.0"`.
    pub version: String,
    /// Encoding name from the XML declaration, if any.
    pub encoding: Option<String>,
    /// `standalone` from the XML declaration, `None` if omitted.
    pub standalone: Option<bool>,
    /// The cached root element.
    pub root: Option<NodeId>,
    /// Internal / attached DTD, if any.
    pub dtd: Option<XmlDtd>,
}

impl XmlDoc {
    /// The arena as a sequence of nodes.
    pub open spec fn nodes(&self) -> Seq<Node> {
        self.nodes@
    }

    /// The cached root element.
    pub open spec fn root(&self) -> Option<NodeId> {
        self.root
    }

    /// Node count of the arena.
    pub open spec fn len_spec(&self) -> nat {
        self.nodes().len()
    }

    /// `id` names a node of this document.
    pub open spec fn has(&self, id: NodeId) -> bool {
        (id.0 as nat) < self.nodes().len()
    }

    /// Well-formed arena: the document node exists, ids fit in `u32`, and
    /// every link (and the cached root) names a node of the arena.
    pub open spec fn wf(&self) -> bool {
        &&& 1 <= self.nodes().len() <= u32::MAX
        &&& forall|i: int|
            0 <= i < self.nodes().len() ==> (#[trigger] self.nodes()[i]).links_ok(
                self.nodes().len(),
            )
        &&& link_ok(self.root(), self.nodes().len())
    }

    /// `xmlNewDoc`: a document holding only its document node.
    pub fn xml_new_doc(version: Option<&str>) -> (r: Self)
        ensures
            r.wf(),
            r.nodes().len() == 1,
            fresh_node(r.nodes()[0], NodeKind::Document, "#document"@),
            r.root() is None,
            r.version@ == (match version {
                Some(v) => v@,
                None => "1.0"@,
            }),
            r.encoding is None,
            r.standalone is None,
            r.dtd is None,
    {
        let mut nodes: Vec<Node> = Vec::new();
        nodes.push(Node::new(NodeKind::Document, String::from_str("#document")));
        let version = match version {
            Some(v) => String::from_str(v),
            None => String::from_str("1.0"),
        };
        XmlDoc { nodes, version, encoding: None, standalone: None, root: None, dtd: None }
    }

    /// Pre-size the node arena for about `n` more nodes (capped at 2^20).
    pub fn reserve_nodes(&mut self, n: usize)
        ensures
            final(self).nodes() == old(self).nodes(),
            final(self).root() == old(self).root(),
            final(self).version == old(self).version,
            final(self).encoding == old(self).encoding,
            final(self).standalone == old(self).standalone,
            final(self).dtd == old(self).dtd,
    {
        let k = if n < 0x10_0000 {
            n
        } else {
            0x10_0000
        };
        self.nodes.reserve(k);
    }

    /// The node `id`.
    pub fn node(&self, id: NodeId) -> (r: &Node)
        requires
            self.has(id),
        ensures
            *r == self.nodes()[id.0 as int],
    {
        &self.nodes[id.index()]
    }

    /// Mutable access to the node `id`.
    pub fn node_mut(&mut self, id: NodeId) -> (r: &mut Node)
        requires
            old(self).has(id),
        ensures
            *r == old(self).nodes()[id.0 as int],
            final(self).nodes() == old(self).nodes().update(id.0 as int, *final(r)),
            final(self).root() == old(self).root(),
            final(self).version == old(self).version,
            final(self).encoding == old(self).encoding,
            final(self).standalone == old(self).standalone,
            final(self).dtd == old(self).dtd,
    {
        &mut self.nodes[id.index()]
    }

    pub fn kind(&self, id: NodeId) -> (r: NodeKind)
        requires
            self.has(id),
        ensures
            r == self.nodes()[id.0 as int].kind,
    {
        self.nodes[id.index()].kind
    }

    /// The name of a node; kinds with a fixed name (`#text`, `#cdata-section`,
    /// `#comment`, `#document`) report it when none is stored.
    pub fn name(&self, id: NodeId) -> (r: &str)
        requires
            self.has(id),
        ensures
            r@ == node_name(self.nodes()[id.0 as int]),
    {
        let n = &self.nodes[id.index()];
        if n.name.as_str().is_empty() {
            return match n.kind {
                NodeKind::Text => "#text",
                NodeKind::CData => "#cdata-section",
                NodeKind::Comment => "#comment",
                NodeKind::Document => "#document",
                _ => "",
            };
        }
        n.name.as_str()
    }

    pub fn prefix(&self, id: NodeId) -> (r: Option<&str>)
        requires
            self.has(id),
        ensures
            opt_str_view(r) == opt_string_view(self.nodes()[id.0 as int].prefix),
    {
        match &self.nodes[id.index()].prefix {
            Some(p) => Some(p.as_str()),
            None => None,
        }
    }

    pub fn ns_uri(&self, id: NodeId) -> (r: Option<&str>)
        requires
            self.has(id),
        ensures
            opt_str_view(r) == opt_string_view(self.nodes()[id.0 as int].ns_uri),
    {
        match &self.nodes[id.index()].ns_uri {
            Some(p) => Some(p.as_str()),
            None => None,
        }
    }

    pub fn content(&self, id: NodeId) -> (r: &str)
        requires
            self.has(id),
        ensures
            r@ == self.nodes()[id.0 as int].content@,
    {
        self.nodes[id.index()].content.as_str()
    }

    pub fn parent(&self, id: NodeId) -> (r: Option<NodeId>)
        requires
            self.has(id),
        ensures
            r == self.nodes()[id.0 as int].parent,
    {
        self.nodes[id.index()].parent
    }

    pub fn first_child(&self, id: NodeId) -> (r: Option<NodeId>)
        requires
            self.has(id),
        ensures
            r == self.nodes()[id.0 as int].first_child,
    {
        self.nodes[id.index()].first_child
    }

    pub fn last_child(&self, id: NodeId) -> (r: Option<NodeId>)
        requires
            self.has(id),
        ensures
            r == self.nodes()[id.0 as int].last_child,
    {
        self.nodes[id.index()].last_child
    }

    pub fn next_sibling(&self, id: NodeId) -> (r: Option<NodeId>)
        requires
            self.has(id),
        ensures
            r == self.nodes()[id.0 as int].next_sibling,
    {
        self.nodes[id.index()].next_sibling
    }

    pub fn prev_sibling(&self, id: NodeId) -> (r: Option<NodeId>)
        requires
            self.has(id),
        ensures
            r == self.nodes()[id.0 as int].prev_sibling,
    {
        self.nodes[id.index()].prev_sibling
    }

    pub fn first_attr(&self, id: NodeId) -> (r: Option<NodeId>)
        requires
            self.has(id),
        ensures
            r == self.nodes()[id.0 as int].first_attr,
    {
        self.nodes[id.index()].first_attr
    }

    pub fn ns_defs(&self, id: NodeId) -> (r: &[(Option<String>, String)])
        requires
            self.has(id),
        ensures
            r@ == self.nodes()[id.0 as int].ns_defs@,
    {
        self.nodes[id.index()].ns_defs.as_slice()
    }

    /// Number of nodes in the arena.
    pub fn len(&self) -> (r: usize)
        ensures
            r == self.nodes().len(),
    {
        self.nodes.len()
    }

    /// Allocate a node whose name is implied by its kind.
    pub fn alloc_unnamed(&mut self, kind: NodeKind) -> (r: NodeId)
        requires
            old(self).wf(),
            old(self).nodes().len() < u32::MAX,
        ensures
            final(self).wf(),
            r.0 == old(self).nodes().len(),
            final(self).nodes().len() == old(self).nodes().len() + 1,
            final(self).nodes().subrange(0, r.0 as int) == old(self).nodes(),
            fresh_node(final(self).nodes()[r.0 as int], kind, Seq::empty()),
            final(self).root() == old(self).root(),
            final(self).version == old(self).version,
            final(self).encoding == old(self).encoding,
            final(self).standalone == old(self).standalone,
            final(self).dtd == old(self).dtd,
    {
        self.alloc_node(kind, String::new())
    }

    /// Allocate a detached node of the given kind and name.
    pub fn alloc_node(&mut self, kind: NodeKind, name: String) -> (r: NodeId)
        requires
            old(self).wf(),
            old(self).nodes().len() < u32::MAX,
        ensures
            final(self).wf(),
            r.0 == old(self).nodes().len(),
            final(self).nodes().len() == old(self).nodes().len() + 1,
            final(self).nodes().subrange(0, r.0 as int) == old(self).nodes(),
            fresh_node(final(self).nodes()[r.0 as int], kind, name@),
            final(self).root() == old(self).root(),
            final(self).version == old(self).version,
            final(self).encoding == old(self).encoding,
            final(self).standalone == old(self).standalone,
            final(self).dtd == old(self).dtd,
    {
        let id = NodeId(self.nodes.len() as u32);
        self.nodes.push(Node::new(kind, name));
        proof {
            assert(self.nodes@.subrange(0, id.0 as int) =~= old(self).nodes@);
            assert forall|i: int| 0 <= i < self.nodes().len() implies (
            #[trigger] self.nodes()[i]).links_ok(self.nodes().len()) by {
                if i < old(self).nodes().len() {
                    assert(old(self).nodes()[i].links_ok(old(self).nodes().len()));
                }
            }
        }
        id
    }
}


/// The two nodes agree on everything but their links.
pub open spec fn same_payload(a: Node, b: Node) -> bool {
    &&& a.kind == b.kind
    &&& a.name == b.name
    &&& a.prefix == b.prefix
    &&& a.ns_uri == b.ns_uri
    &&& a.content == b.content
    &&& a.ns_defs == b.ns_defs
}

/// Two arenas of the same size whose nodes agree on everything but links.
pub open spec fn same_payloads(a: Seq<Node>, b: Seq<Node>) -> bool {
    &&& a.len() == b.len()
    &&& forall|i: int| 0 <= i < a.len() ==> same_payload(#[trigger] a[i], b[i])
}

/// Every link of every node of `s` names a node of `s`.
pub open spec fn arena_ok(s: Seq<Node>) -> bool {
    forall|i: int| 0 <= i < s.len() ==> (#[trigger] s[i]).links_ok(s.len())
}

/// The arena after `unlink_nodes`, except that the document node is never detached.
pub open spec fn unlinked(s: Seq<Node>, id: int) -> Seq<Node> {
    if id == 0 {
        s
    } else {
        unlink_nodes(s, id)
    }
}

/// The cached root after detaching `id`.
pub open spec fn root_after_unlink(root: Option<NodeId>, id: NodeId) -> Option<NodeId> {
    if id.0 != 0 && root == Some(id) {
        None
    } else {
        root
    }
}

proof fn lemma_update_ok(s: Seq<Node>, i: int, n: Node)
    requires
        arena_ok(s),
        0 <= i < s.len(),
        n.links_ok(s.len()),
    ensures
        arena_ok(s.update(i, n)),
{
    assert forall|j: int| 0 <= j < s.len() implies (#[trigger] s.update(i, n)[j]).links_ok(
        s.len(),
    ) by {
        if j != i {
            assert(s[j].links_ok(s.len()));
        }
    }
}

proof fn lemma_payload_update(s: Seq<Node>, i: int, n: Node)
    requires
        0 <= i < s.len(),
        same_payload(n, s[i]),
    ensures
        same_payloads(s.update(i, n), s),
{
}

proof fn lemma_payload_trans(a: Seq<Node>, b: Seq<Node>, c: Seq<Node>)
    requires
        same_payloads(a, b),
        same_payloads(b, c),
    ensures
        same_payloads(a, c),
{
    assert forall|i: int| 0 <= i < a.len() implies same_payload(#[trigger] a[i], c[i]) by {
        assert(same_payload(a[i], b[i]));
        assert(same_payload(b[i], c[i]));
    }
}

proof fn lemma_unlink_payload(s: Seq<Node>, id: int)
    requires
        arena_ok(s),
        0 <= id < s.len(),
    ensures
        same_payloads(unlink_nodes(s, id), s),
{
    let n = s[id];
    assert(n.links_ok(s.len()));
    let s1 = match n.prev_sibling {
        Some(p) => set_next(s, p.0 as int, n.next_sibling),
        None => s,
    };
    if let Some(p) = n.prev_sibling {
        lemma_payload_update(s, p.0 as int, Node { next_sibling: n.next_sibling, ..s[p.0 as int] });
    }
    assert(same_payloads(s1, s));
    let s2 = match n.next_sibling {
        Some(x) => set_prev(s1, x.0 as int, n.prev_sibling),
        None => s1,
    };
    if let Some(x) = n.next_sibling {
        lemma_payload_update(s1, x.0 as int, Node { prev_sibling: n.prev_sibling, ..s1[x.0 as int] });
        lemma_payload_trans(s2, s1, s);
    }
    assert(same_payloads(s2, s));
    let s3 = match n.parent {
        Some(par) => {
            let a = if s2[par.0 as int].first_child == Some(NodeId(id as u32)) {
                set_first_child(s2, par.0 as int, n.next_sibling)
            } else {
                s2
            };
            if a[par.0 as int].last_child == Some(NodeId(id as u32)) {
                set_last_child(a, par.0 as int, n.prev_sibling)
            } else {
                a
            }
        },
        None => s2,
    };
    if let Some(par) = n.parent {
        let pi = par.0 as int;
        let a = if s2[pi].first_child == Some(NodeId(id as u32)) {
            set_first_child(s2, pi, n.next_sibling)
        } else {
            s2
        };
        if s2[pi].first_child == Some(NodeId(id as u32)) {
            lemma_payload_update(s2, pi, Node { first_child: n.next_sibling, ..s2[pi] });
            lemma_payload_trans(a, s2, s);
        }
        assert(same_payloads(a, s));
        if a[pi].last_child == Some(NodeId(id as u32)) {
            lemma_payload_update(a, pi, Node { last_child: n.prev_sibling, ..a[pi] });
            lemma_payload_trans(s3, a, s);
        }
    }
    assert(same_payloads(s3, s));
    let t1 = set_parent(s3, id, None);
    lemma_payload_update(s3, id, Node { parent: None, ..s3[id] });
    lemma_payload_trans(t1, s3, s);
    let t2 = set_prev(t1, id, None);
    lemma_payload_update(t1, id, Node { prev_sibling: None, ..t1[id] });
    lemma_payload_trans(t2, t1, s);
    let t3 = set_next(t2, id, None);
    lemma_payload_update(t2, id, Node { next_sibling: None, ..t2[id] });
    lemma_payload_trans(t3, t2, s);
}

proof fn lemma_append_payload(s: Seq<Node>, parent: int, child: int)
    requires
        arena_ok(s),
        0 <= parent < s.len() <= u32::MAX,
        0 <= child < s.len(),
    ensures
        same_payloads(append_child_nodes(s, parent, child), s),
{
    let cid = Some(NodeId(child as u32));
    let s1 = set_parent(s, child, Some(NodeId(parent as u32)));
    lemma_payload_update(s, child, Node { parent: Some(NodeId(parent as u32)), ..s[child] });
    let s2 = match s1[parent].last_child {
        Some(l) => set_prev(set_next(s1, l.0 as int, cid), child, Some(l)),
        None => set_first_child(s1, parent, cid),
    };
    match s1[parent].last_child {
        Some(l) => {
            assert(s[parent].links_ok(s.len()));
            let s1b = set_next(s1, l.0 as int, cid);
            lemma_payload_update(s1, l.0 as int, Node { next_sibling: cid, ..s1[l.0 as int] });
            lemma_payload_trans(s1b, s1, s);
            lemma_payload_update(s1b, child, Node { prev_sibling: Some(l), ..s1b[child] });
            lemma_payload_trans(s2, s1b, s);
        },
        None => {
            lemma_payload_update(s1, parent, Node { first_child: cid, ..s1[parent] });
            lemma_payload_trans(s2, s1, s);
        },
    }
    lemma_payload_update(s2, parent, Node { last_child: cid, ..s2[parent] });
    lemma_payload_trans(append_child_nodes(s, parent, child), s2, s);
}

proof fn lemma_unlink_ok(s: Seq<Node>, id: int)
    requires
        arena_ok(s),
        0 <= id < s.len(),
    ensures
        arena_ok(unlink_nodes(s, id)),
        unlink_nodes(s, id).len() == s.len(),
{
    let n = s[id];
    assert(n.links_ok(s.len()));
    let s1 = match n.prev_sibling {
        Some(p) => set_next(s, p.0 as int, n.next_sibling),
        None => s,
    };
    if let Some(p) = n.prev_sibling {
        assert(s[p.0 as int].links_ok(s.len()));
        lemma_update_ok(s, p.0 as int, Node { next_sibling: n.next_sibling, ..s[p.0 as int] });
    }
    let s2 = match n.next_sibling {
        Some(x) => set_prev(s1, x.0 as int, n.prev_sibling),
        None => s1,
    };
    if let Some(x) = n.next_sibling {
        assert(s1[x.0 as int].links_ok(s.len()));
        lemma_update_ok(s1, x.0 as int, Node { prev_sibling: n.prev_sibling, ..s1[x.0 as int] });
    }
    if let Some(par) = n.parent {
        let pi = par.0 as int;
        let a = if s2[pi].first_child == Some(NodeId(id as u32)) {
            set_first_child(s2, pi, n.next_sibling)
        } else {
            s2
        };
        if s2[pi].first_child == Some(NodeId(id as u32)) {
            assert(s2[pi].links_ok(s.len()));
            lemma_update_ok(s2, pi, Node { first_child: n.next_sibling, ..s2[pi] });
        }
        if a[pi].last_child == Some(NodeId(id as u32)) {
            assert(a[pi].links_ok(s.len()));
            lemma_update_ok(a, pi, Node { last_child: n.prev_sibling, ..a[pi] });
        }
    }
    let s3 = unlink_nodes(s, id);
}

proof fn lemma_append_ok(s: Seq<Node>, parent: int, child: int)
    requires
        arena_ok(s),
        0 <= parent < s.len() <= u32::MAX,
        0 <= child < s.len(),
    ensures
        arena_ok(append_child_nodes(s, parent, child)),
        append_child_nodes(s, parent, child).len() == s.len(),
{
    let cid = Some(NodeId(child as u32));
    assert(s[child].links_ok(s.len()));
    lemma_update_ok(s, child, Node { parent: Some(NodeId(parent as u32)), ..s[child] });
    let s1 = set_parent(s, child, Some(NodeId(parent as u32)));
    assert(s1[parent].links_ok(s.len()));
    match s1[parent].last_child {
        Some(l) => {
            assert(s1[l.0 as int].links_ok(s.len()));
            lemma_update_ok(s1, l.0 as int, Node { next_sibling: cid, ..s1[l.0 as int] });
            let s1b = set_next(s1, l.0 as int, cid);
            assert(s1b[child].links_ok(s.len()));
            lemma_update_ok(s1b, child, Node { prev_sibling: Some(l), ..s1b[child] });
            let s2 = set_prev(s1b, child, Some(l));
            assert(s2[parent].links_ok(s.len()));
            lemma_update_ok(s2, parent, Node { last_child: cid, ..s2[parent] });
        },
        None => {
            lemma_update_ok(s1, parent, Node { first_child: cid, ..s1[parent] });
            let s2 = set_first_child(s1, parent, cid);
            assert(s2[parent].links_ok(s.len()));
            lemma_update_ok(s2, parent, Node { last_child: cid, ..s2[parent] });
        },
    }
}

impl XmlDoc {
    /// `xmlUnlinkNode`: detach `id` from its parent and siblings. The
    /// document node is never detached.
    pub fn xml_unlink_node(&mut self, id: NodeId)
        requires
            old(self).wf(),
            old(self).has(id),
        ensures
            final(self).wf(),
            final(self).nodes().len() == old(self).nodes().len(),
            final(self).nodes() == unlinked(old(self).nodes(), id.0 as int),
            same_payloads(final(self).nodes(), old(self).nodes()),
            final(self).root() == root_after_unlink(old(self).root(), id),
            final(self).version == old(self).version,
            final(self).encoding == old(self).encoding,
            final(self).standalone == old(self).standalone,
            final(self).dtd == old(self).dtd,
    {
        if id.0 == 0 {
            return;
        }
        proof {
            lemma_unlink_ok(self.nodes@, id.0 as int);
            lemma_unlink_payload(self.nodes@, id.0 as int);
        }
        let i = id.index();
        let parent = self.nodes[i].parent;
        let prev = self.nodes[i].prev_sibling;
        let next = self.nodes[i].next_sibling;
        if let Some(p) = prev {
            self.nodes[p.index()].next_sibling = next;
        }
        if let Some(n) = next {
            self.nodes[n.index()].prev_sibling = prev;
        }
        if let Some(par) = parent {
            if self.nodes[par.index()].first_child == Some(id) {
                self.nodes[par.index()].first_child = next;
            }
            if self.nodes[par.index()].last_child == Some(id) {
                self.nodes[par.index()].last_child = prev;
            }
        }
        if self.root == Some(id) {
            self.root = None;
        }
        self.nodes[i].parent = None;
        self.nodes[i].prev_sibling = None;
        self.nodes[i].next_sibling = None;
        assert(self.nodes@ =~= unlink_nodes(old(self).nodes@, id.0 as int));
    }

    /// `xmlAddChild`: detach `child` and append it as the last child of
    /// `parent`. An element added under the document node becomes the root.
    pub fn xml_add_child(&mut self, parent: NodeId, child: NodeId)
        requires
            old(self).wf(),
            old(self).has(parent),
            old(self).has(child),
        ensures
            final(self).wf(),
            final(self).nodes().len() == old(self).nodes().len(),
            child == parent ==> *final(self) == *old(self),
            child != parent ==> final(self).nodes() == append_child_nodes(
                unlinked(old(self).nodes(), child.0 as int),
                parent.0 as int,
                child.0 as int,
            ),
            same_payloads(final(self).nodes(), old(self).nodes()),
            child != parent ==> final(self).nodes()[child.0 as int].parent == Some(parent),
            child != parent ==> final(self).nodes()[parent.0 as int].last_child == Some(child),
            child != parent ==> final(self).root() == (if parent.0 == 0
                && old(self).nodes()[child.0 as int].kind == NodeKind::Element {
                Some(child)
            } else {
                root_after_unlink(old(self).root(), child)
            }),
            final(self).version == old(self).version,
            final(self).encoding == old(self).encoding,
            final(self).standalone == old(self).standalone,
            final(self).dtd == old(self).dtd,
    {
        if child == parent {
            return;
        }
        self.xml_unlink_node(child);
        let ghost u = self.nodes@;
        proof {
            lemma_append_ok(u, parent.0 as int, child.0 as int);
            lemma_append_payload(u, parent.0 as int, child.0 as int);
        }
        let c = child.index();
        let p = parent.index();
        self.nodes[c].parent = Some(parent);
        let last = self.nodes[p].last_child;
        if let Some(l) = last {
            self.nodes[l.index()].next_sibling = Some(child);
            self.nodes[c].prev_sibling = Some(l);
        } else {
            self.nodes[p].first_child = Some(child);
        }
        self.nodes[p].last_child = Some(child);
        if parent.0 == 0 && self.nodes[c].kind == NodeKind::Element {
            self.root = Some(child);
        }
        assert(self.nodes@ =~= append_child_nodes(u, parent.0 as int, child.0 as int));
    }
}


/// The arena after placing the detached node `elem` right after `cur`.
pub open spec fn insert_after_nodes(s: Seq<Node>, cur: int, elem: int) -> Seq<Node> {
    let parent = s[cur].parent;
    let next = s[cur].next_sibling;
    let e = Some(NodeId(elem as u32));
    let s1 = set_next(
        set_prev(set_parent(s, elem, parent), elem, Some(NodeId(cur as u32))),
        elem,
        next,
    );
    let s2 = set_next(s1, cur, e);
    match next {
        Some(n) => set_prev(s2, n.0 as int, e),
        None => match parent {
            Some(p) => set_last_child(s2, p.0 as int, e),
            None => s2,
        },
    }
}

/// The arena after placing the detached node `elem` right before `cur`.
pub open spec fn insert_before_nodes(s: Seq<Node>, cur: int, elem: int) -> Seq<Node> {
    let parent = s[cur].parent;
    let prev = s[cur].prev_sibling;
    let e = Some(NodeId(elem as u32));
    let s1 = set_prev(
        set_next(set_parent(s, elem, parent), elem, Some(NodeId(cur as u32))),
        elem,
        prev,
    );
    let s2 = set_prev(s1, cur, e);
    match prev {
        Some(p) => set_next(s2, p.0 as int, e),
        None => match parent {
            Some(par) => set_first_child(s2, par.0 as int, e),
            None => s2,
        },
    }
}

impl XmlDoc {

    fn put_parent(&mut self, i: NodeId, v: Option<NodeId>)
        requires
            old(self).wf(),
            old(self).has(i),
            link_ok(v, old(self).nodes().len()),
        ensures
            final(self).wf(),
            final(self).nodes() == set_parent(old(self).nodes(), i.0 as int, v),
            final(self).root == old(self).root,
            final(self).version == old(self).version,
            final(self).encoding == old(self).encoding,
            final(self).standalone == old(self).standalone,
            final(self).dtd == old(self).dtd,
    {
        proof {
            assert(old(self).nodes()[i.0 as int].links_ok(old(self).nodes().len()));
            lemma_update_ok(
                old(self).nodes(),
                i.0 as int,
                Node { parent: v, ..old(self).nodes()[i.0 as int] },
            );
        }
        self.nodes[i.index()].parent = v;
    }

    fn put_first_child(&mut self, i: NodeId, v: Option<NodeId>)
        requires
            old(self).wf(),
            old(self).has(i),
            link_ok(v, old(self).nodes().len()),
        ensures
            final(self).wf(),
            final(self).nodes() == set_first_child(old(self).nodes(), i.0 as int, v),
            final(self).root == old(self).root,
            final(self).version == old(self).version,
            final(self).encoding == old(self).encoding,
            final(self).standalone == old(self).standalone,
            final(self).dtd == old(self).dtd,
    {
        proof {
            assert(old(self).nodes()[i.0 as int].links_ok(old(self).nodes().len()));
            lemma_update_ok(
                old(self).nodes(),
                i.0 as int,
                Node { first_child: v, ..old(self).nodes()[i.0 as int] },
            );
        }
        self.nodes[i.index()].first_child = v;
    }

    fn put_last_child(&mut self, i: NodeId, v: Option<NodeId>)
        requires
            old(self).wf(),
            old(self).has(i),
            link_ok(v, old(self).nodes().len()),
        ensures
            final(self).wf(),
            final(self).nodes() == set_last_child(old(self).nodes(), i.0 as int, v),
            final(self).root == old(self).root,
            final(self).version == old(self).version,
            final(self).encoding == old(self).encoding,
            final(self).standalone == old(self).standalone,
            final(self).dtd == old(self).dtd,
    {
        proof {
            assert(old(self).nodes()[i.0 as int].links_ok(old(self).nodes().len()));
            lemma_update_ok(
                old(self).nodes(),
                i.0 as int,
                Node { last_child: v, ..old(self).nodes()[i.0 as int] },
            );
        }
        self.nodes[i.index()].last_child = v;
    }

    fn put_prev_sibling(&mut self, i: NodeId, v: Option<NodeId>)
        requires
            old(self).wf(),
            old(self).has(i),
            link_ok(v, old(self).nodes().len()),
        ensures
            final(self).wf(),
            final(self).nodes() == set_prev(old(self).nodes(), i.0 as int, v),
            final(self).root == old(self).root,
            final(self).version == old(self).version,
            final(self).encoding == old(self).encoding,
            final(self).standalone == old(self).standalone,
            final(self).dtd == old(self).dtd,
    {
        proof {
            assert(old(self).nodes()[i.0 as int].links_ok(old(self).nodes().len()));
            lemma_update_ok(
                old(self).nodes(),
                i.0 as int,
                Node { prev_sibling: v, ..old(self).nodes()[i.0 as int] },
            );
        }
        self.nodes[i.index()].prev_sibling = v;
    }

    fn put_next_sibling(&mut self, i: NodeId, v: Option<NodeId>)
        requires
            old(self).wf(),
            old(self).has(i),
            link_ok(v, old(self).nodes().len()),
        ensures
            final(self).wf(),
            final(self).nodes() == set_next(old(self).nodes(), i.0 as int, v),
            final(self).root == old(self).root,
            final(self).version == old(self).version,
            final(self).encoding == old(self).encoding,
            final(self).standalone == old(self).standalone,
            final(self).dtd == old(self).dtd,
    {
        proof {
            assert(old(self).nodes()[i.0 as int].links_ok(old(self).nodes().len()));
            lemma_update_ok(
                old(self).nodes(),
                i.0 as int,
                Node { next_sibling: v, ..old(self).nodes()[i.0 as int] },
            );
        }
        self.nodes[i.index()].next_sibling = v;
    }

    fn put_first_attr(&mut self, i: NodeId, v: Option<NodeId>)
        requires
            old(self).wf(),
            old(self).has(i),
            link_ok(v, old(self).nodes().len()),
        ensures
            final(self).wf(),
            final(self).nodes() == set_first_attr(old(self).nodes(), i.0 as int, v),
            final(self).root == old(self).root,
            final(self).version == old(self).version,
            final(self).encoding == old(self).encoding,
            final(self).standalone == old(self).standalone,
            final(self).dtd == old(self).dtd,
    {
        proof {
            assert(old(self).nodes()[i.0 as int].links_ok(old(self).nodes().len()));
            lemma_update_ok(
                old(self).nodes(),
                i.0 as int,
                Node { first_attr: v, ..old(self).nodes()[i.0 as int] },
            );
        }
        self.nodes[i.index()].first_attr = v;
    }

    fn put_last_attr(&mut self, i: NodeId, v: Option<NodeId>)
        requires
            old(self).wf(),
            old(self).has(i),
            link_ok(v, old(self).nodes().len()),
        ensures
            final(self).wf(),
            final(self).nodes() == set_last_attr(old(self).nodes(), i.0 as int, v),
            final(self).root == old(self).root,
            final(self).version == old(self).version,
            final(self).encoding == old(self).encoding,
            final(self).standalone == old(self).standalone,
            final(self).dtd == old(self).dtd,
    {
        proof {
            assert(old(self).nodes()[i.0 as int].links_ok(old(self).nodes().len()));
            lemma_update_ok(
                old(self).nodes(),
                i.0 as int,
                Node { last_attr: v, ..old(self).nodes()[i.0 as int] },
            );
        }
        self.nodes[i.index()].last_attr = v;
    }

    /// `xmlAddNextSibling`: detach `elem` and place it right after `cur`.
    pub fn xml_add_next_sibling(&mut self, cur: NodeId, elem: NodeId)
        requires
            old(self).wf(),
            old(self).has(cur),
            old(self).has(elem),
        ensures
            final(self).wf(),
            final(self).nodes().len() == old(self).nodes().len(),
            final(self).nodes() == insert_after_nodes(
                unlinked(old(self).nodes(), elem.0 as int),
                cur.0 as int,
                elem.0 as int,
            ),
            final(self).root() == root_after_unlink(old(self).root(), elem),
            final(self).version == old(self).version,
            final(self).encoding == old(self).encoding,
            final(self).standalone == old(self).standalone,
            final(self).dtd == old(self).dtd,
    {
        self.xml_unlink_node(elem);
        proof {
            assert(self.nodes()[cur.0 as int].links_ok(self.nodes().len()));
        }
        let parent = self.nodes[cur.index()].parent;
        let next = self.nodes[cur.index()].next_sibling;
        self.put_parent(elem, parent);
        self.put_prev_sibling(elem, Some(cur));
        self.put_next_sibling(elem, next);
        self.put_next_sibling(cur, Some(elem));
        if let Some(n) = next {
            self.put_prev_sibling(n, Some(elem));
        } else if let Some(p) = parent {
            self.put_last_child(p, Some(elem));
        }
    }

    /// `xmlAddPrevSibling`: detach `elem` and place it right before `cur`.
    pub fn xml_add_prev_sibling(&mut self, cur: NodeId, elem: NodeId)
        requires
            old(self).wf(),
            old(self).has(cur),
            old(self).has(elem),
        ensures
            final(self).wf(),
            final(self).nodes().len() == old(self).nodes().len(),
            final(self).nodes() == insert_before_nodes(
                unlinked(old(self).nodes(), elem.0 as int),
                cur.0 as int,
                elem.0 as int,
            ),
            final(self).root() == root_after_unlink(old(self).root(), elem),
            final(self).version == old(self).version,
            final(self).encoding == old(self).encoding,
            final(self).standalone == old(self).standalone,
            final(self).dtd == old(self).dtd,
    {
        self.xml_unlink_node(elem);
        proof {
            assert(self.nodes()[cur.0 as int].links_ok(self.nodes().len()));
        }
        let parent = self.nodes[cur.index()].parent;
        let prev = self.nodes[cur.index()].prev_sibling;
        self.put_parent(elem, parent);
        self.put_next_sibling(elem, Some(cur));
        self.put_prev_sibling(elem, prev);
        self.put_prev_sibling(cur, Some(elem));
        if let Some(p) = prev {
            self.put_next_sibling(p, Some(elem));
        } else if let Some(par) = parent {
            self.put_first_child(par, Some(elem));
        }
    }

    /// `xmlReplaceNode`: put `new` where `old` was and detach `old`.
    /// Returns `new`.
    pub fn xml_replace_node(&mut self, old_node: NodeId, new_node: NodeId) -> (r: NodeId)
        requires
            old(self).wf(),
            old(self).has(old_node),
            old(self).has(new_node),
        ensures
            final(self).wf(),
            r == new_node,
            final(self).nodes() == unlinked(
                insert_after_nodes(
                    unlinked(old(self).nodes(), new_node.0 as int),
                    old_node.0 as int,
                    new_node.0 as int,
                ),
                old_node.0 as int,
            ),
            final(self).root() == root_after_unlink(
                root_after_unlink(old(self).root(), new_node),
                old_node,
            ),
            final(self).version == old(self).version,
            final(self).encoding == old(self).encoding,
            final(self).standalone == old(self).standalone,
            final(self).dtd == old(self).dtd,
    {
        self.xml_add_next_sibling(old_node, new_node);
        self.xml_unlink_node(old_node);
        new_node
    }

    /// `xmlDocSetRootElement`: replace the root element by `elem`. Returns
    /// the previous root, if any.
    pub fn xml_doc_set_root_element(&mut self, elem: NodeId) -> (r: Option<NodeId>)
        requires
            old(self).wf(),
            old(self).has(elem),
        ensures
            final(self).wf(),
            r == root_of(*old(self)),
            final(self).nodes().len() == old(self).nodes().len(),
            elem.0 != 0 ==> final(self).root() == Some(elem),
            elem.0 != 0 ==> final(self).nodes()[elem.0 as int].parent == Some(NodeId(0)),
            forall|i: int| 0 <= i < old(self).nodes().len() ==> (#[trigger] final(self).nodes()[i]).kind == old(self).nodes()[i].kind,
            final(self).version == old(self).version,
            final(self).encoding == old(self).encoding,
            final(self).standalone == old(self).standalone,
            final(self).dtd == old(self).dtd,
            r matches Some(p) ==> (p != elem && p.0 != 0 ==> final(self).nodes()[p.0 as int].parent is None),
    {
        let prev = self.xml_doc_get_root_element();
        if let Some(p) = prev {
            self.xml_unlink_node(p);
            proof {
                if p.0 != 0 {
                    assert(self.nodes()[p.0 as int].parent is None);
                }
            }
        }
        let ghost mid = self.nodes();
        self.xml_add_child(NodeId(0), elem);
        proof {
            if let Some(p) = prev {
                if p != elem && p.0 != 0 && elem.0 != 0 {
                    lemma_relink_keeps_parent(mid, 0, elem.0 as int, p.0 as int);
                }
            }
        }
        if elem.0 != 0 {
            self.root = Some(elem);
        }
        prev
    }

    /// `xmlDocGetRootElement`: the cached root, else the first element child
    /// of the document node.
    pub fn xml_doc_get_root_element(&self) -> (r: Option<NodeId>)
        requires
            self.wf(),
        ensures
            r == root_of(*self),
            link_ok(r, self.nodes().len()),
    {
        if let Some(r) = self.root {
            return Some(r);
        }
        let mut c = self.nodes[0].first_child;
        let mut fuel = self.nodes.len();
        proof {
            assert(self.nodes()[0].links_ok(self.nodes().len()));
        }
        while fuel > 0
            invariant
                self.wf(),
                self.root is None,
                link_ok(c, self.nodes().len()),
                first_element_from(self.nodes(), c, fuel as nat) == first_element_from(
                    self.nodes(),
                    self.nodes()[0].first_child,
                    self.nodes().len(),
                ),
            decreases fuel,
        {
            match c {
                None => {
                    return None;
                },
                Some(id) => {
                    proof {
                        assert(self.nodes()[id.0 as int].links_ok(self.nodes().len()));
                    }
                    if self.nodes[id.index()].kind == NodeKind::Element {
                        return Some(id);
                    }
                    c = self.nodes[id.index()].next_sibling;
                    fuel -= 1;
                },
            }
        }
        None
    }
}

/// The first element in the sibling chain starting at `c`, looking at most
/// `fuel` nodes along it.
pub open spec fn first_element_from(s: Seq<Node>, c: Option<NodeId>, fuel: nat) -> Option<NodeId>
    decreases fuel,
{
    if fuel == 0 {
        None
    } else {
        match c {
            None => None,
            Some(id) => if s[id.0 as int].kind == NodeKind::Element {
                Some(id)
            } else {
                first_element_from(s, s[id.0 as int].next_sibling, (fuel - 1) as nat)
            },
        }
    }
}

/// What `xmlDocGetRootElement` reports.
pub open spec fn root_of(d: XmlDoc) -> Option<NodeId> {
    match d.root {
        Some(r) => Some(r),
        None => first_element_from(d.nodes(), d.nodes()[0].first_child, d.nodes().len()),
    }
}


/// The first unprefixed attribute named `name` in the chain starting at `c`,
/// looking at most `fuel` nodes along it.
pub open spec fn find_attr(s: Seq<Node>, c: Option<NodeId>, name: Seq<char>, fuel: nat) -> Option<
    NodeId,
>
    decreases fuel,
{
    if fuel == 0 {
        None
    } else {
        match c {
            None => None,
            Some(id) => if s[id.0 as int].prefix is None && s[id.0 as int].name@ == name {
                Some(id)
            } else {
                find_attr(s, s[id.0 as int].next_sibling, name, (fuel - 1) as nat)
            },
        }
    }
}

/// The unprefixed attribute `name` of `node`, as `xmlGetProp` finds it.
pub open spec fn prop_of(d: XmlDoc, node: NodeId, name: Seq<char>) -> Option<NodeId> {
    find_attr(d.nodes(), d.nodes()[node.0 as int].first_attr, name, d.nodes().len())
}

/// The arena after linking the attribute node `a` at the end of the
/// attribute list of `elem`.
pub open spec fn link_attr_nodes(s: Seq<Node>, elem: int, a: int) -> Seq<Node> {
    let an = Some(NodeId(a as u32));
    let s1 = match s[elem].last_attr {
        Some(l) => set_next(s, l.0 as int, an),
        None => set_first_attr(s, elem, an),
    };
    set_last_attr(s1, elem, an)
}

/// The nodes of the sibling chain starting at `c`, at most `fuel` of them.
pub open spec fn chain_of(s: Seq<Node>, c: Option<NodeId>, fuel: nat) -> Seq<NodeId>
    decreases fuel,
{
    if fuel == 0 {
        Seq::empty()
    } else {
        match c {
            None => Seq::empty(),
            Some(id) => seq![id] + chain_of(s, s[id.0 as int].next_sibling, (fuel - 1) as nat),
        }
    }
}

/// Concatenated text and CDATA content of the chain starting at `c` and of
/// the elements inside it, in document order, spending one unit of `fuel`
/// per node visited.
pub open spec fn text_of(s: Seq<Node>, c: Option<NodeId>, fuel: nat) -> Seq<char>
    decreases fuel,
{
    if fuel == 0 {
        Seq::empty()
    } else {
        match c {
            None => Seq::empty(),
            Some(id) => {
                let n = s[id.0 as int];
                let here = match n.kind {
                    NodeKind::Text => n.content@,
                    NodeKind::CData => n.content@,
                    NodeKind::Element => text_of(s, n.first_child, (fuel - 1) as nat),
                    _ => Seq::empty(),
                };
                here + text_of(s, n.next_sibling, (fuel - 1) as nat)
            },
        }
    }
}

/// Kinds whose content is their own `content` string.
pub open spec fn is_leaf_kind(k: NodeKind) -> bool {
    k == NodeKind::Text || k == NodeKind::CData || k == NodeKind::Comment || k == NodeKind::Pi
        || k == NodeKind::Attribute
}

/// What `xmlNodeGetContent` reports for `id`.
pub open spec fn content_of(d: XmlDoc, id: NodeId) -> Seq<char> {
    let n = d.nodes()[id.0 as int];
    if is_leaf_kind(n.kind) {
        n.content@
    } else {
        text_of(d.nodes(), n.first_child, d.nodes().len())
    }
}

/// Every byte is XML whitespace.
pub open spec fn all_blank_bytes(b: Seq<u8>) -> bool {
    forall|i: int| 0 <= i < b.len() ==> (b[i] == 0x20 || b[i] == 0x09 || b[i] == 0x0a || b[i] == 0x0d)
}

/// The namespace bound to `prefix` in a list of declarations, the first one winning.
pub open spec fn ns_in_defs(defs: Seq<(Option<String>, String)>, prefix: Option<Seq<char>>) -> Option<Seq<char>>
    decreases defs.len(),
{
    if defs.len() == 0 {
        None
    } else if opt_string_view(defs[0].0) == prefix {
        Some(defs[0].1@)
    } else {
        ns_in_defs(defs.drop_first(), prefix)
    }
}

/// The namespace bound to `prefix` on `cur` or its nearest ancestor that
/// declares it, looking at most `fuel` nodes up.
pub open spec fn ns_lookup(s: Seq<Node>, cur: Option<NodeId>, prefix: Option<Seq<char>>, fuel: nat) -> Option<Seq<char>>
    decreases fuel,
{
    if fuel == 0 {
        None
    } else {
        match cur {
            None => None,
            Some(id) => match ns_in_defs(s[id.0 as int].ns_defs@, prefix) {
                Some(u) => Some(u),
                None => ns_lookup(s, s[id.0 as int].parent, prefix, (fuel - 1) as nat),
            },
        }
    }
}

/// What `xmlSearchNs` reports: the reserved `xml` and `xmlns` prefixes, else
/// the nearest declaration in scope.
pub open spec fn search_ns_of(d: XmlDoc, node: NodeId, prefix: Option<Seq<char>>) -> Option<Seq<char>> {
    if prefix == Some("xml"@) {
        Some("http://www.w3.org/XML/1998/namespace"@)
    } else if prefix == Some("xmlns"@) {
        Some("http://www.w3.org/2000/xmlns/"@)
    } else {
        ns_lookup(d.nodes(), Some(node), prefix, d.nodes().len())
    }
}

impl XmlDoc {
    /// `xmlNewNode`: a detached element.
    pub fn xml_new_node(&mut self, ns_uri: Option<&str>, name: &str) -> (r: NodeId)
        requires
            old(self).wf(),
            old(self).nodes().len() < u32::MAX,
        ensures
            final(self).wf(),
            r.0 == old(self).nodes().len(),
            final(self).nodes().len() == old(self).nodes().len() + 1,
            final(self).nodes().subrange(0, r.0 as int) == old(self).nodes(),
            fresh_node(
                Node { ns_uri: None, ..final(self).nodes()[r.0 as int] },
                NodeKind::Element,
                name@,
            ),
            opt_string_view(final(self).nodes()[r.0 as int].ns_uri) == opt_str_view(ns_uri),
            final(self).root() == old(self).root(),
            final(self).version == old(self).version,
            final(self).encoding == old(self).encoding,
            final(self).standalone == old(self).standalone,
            final(self).dtd == old(self).dtd,
    {
        let id = self.alloc_node(NodeKind::Element, String::from_str(name));
        let u = match ns_uri {
            Some(u) => Some(String::from_str(u)),
            None => None,
        };
        self.nodes[id.index()].ns_uri = u;
        proof {
            assert(self.nodes@.subrange(0, id.0 as int) =~= old(self).nodes@);
            assert forall|i: int| 0 <= i < self.nodes().len() implies (
            #[trigger] self.nodes()[i]).links_ok(self.nodes().len()) by {
                if i < old(self).nodes().len() {
                    assert(old(self).nodes()[i].links_ok(old(self).nodes().len()));
                }
            }
        }
        id
    }

    /// A detached text node holding `content`.
    pub fn xml_new_text(&mut self, content: &str) -> (r: NodeId)
        requires
            old(self).wf(),
            old(self).nodes().len() < u32::MAX,
        ensures
            final(self).wf(),
            r.0 == old(self).nodes().len(),
            final(self).nodes().len() == old(self).nodes().len() + 1,
            final(self).nodes().subrange(0, r.0 as int) == old(self).nodes(),
            fresh_node(
                Node { content: final(self).nodes()[r.0 as int].name, ..final(self).nodes()[r.0 as int] },
                NodeKind::Text,
                Seq::empty(),
            ),
            final(self).nodes()[r.0 as int].content@ == content@,
            final(self).root() == old(self).root(),
            final(self).version == old(self).version,
            final(self).encoding == old(self).encoding,
            final(self).standalone == old(self).standalone,
            final(self).dtd == old(self).dtd,
    {
        let t = self.alloc_unnamed(NodeKind::Text);
        self.nodes[t.index()].content = String::from_str(content);
        proof {
            assert(self.nodes@.subrange(0, t.0 as int) =~= old(self).nodes@);
            assert forall|i: int| 0 <= i < self.nodes().len() implies (
            #[trigger] self.nodes()[i]).links_ok(self.nodes().len()) by {
                if i < old(self).nodes().len() {
                    assert(old(self).nodes()[i].links_ok(old(self).nodes().len()));
                }
            }
        }
        t
    }

    /// `xmlNewDocNode`: a detached element, with a text child when
    /// `content` is given and not empty.
    pub fn xml_new_doc_node(&mut self, ns_uri: Option<&str>, name: &str, content: Option<&str>) -> (r: NodeId)
        requires
            old(self).wf(),
            old(self).nodes().len() + 2 <= u32::MAX,
        ensures
            final(self).wf(),
            r.0 == old(self).nodes().len(),
            final(self).nodes()[r.0 as int].kind == NodeKind::Element,
            final(self).nodes()[r.0 as int].name@ == name@,
            final(self).nodes()[r.0 as int].parent is None,
            old(self).nodes().len() + 1 <= final(self).nodes().len() <= old(self).nodes().len() + 2,
            opt_string_view(final(self).nodes()[r.0 as int].ns_uri) == opt_str_view(ns_uri),
            content_of(*final(self), r) == (match content { Some(c) => c@, None => Seq::empty() }),
            final(self).nodes().subrange(0, r.0 as int) == old(self).nodes(),
            final(self).root() == old(self).root(),
            final(self).version == old(self).version,
            final(self).encoding == old(self).encoding,
            final(self).standalone == old(self).standalone,
            final(self).dtd == old(self).dtd,
    {
        let id = self.xml_new_node(ns_uri, name);
        let ghost s0 = self.nodes();
        if let Some(c) = content {
            if !c.is_empty() {
                let t = self.xml_new_text(c);
                self.xml_add_child(id, t);
                proof {
                    let s = self.nodes();
                    assert(s[id.0 as int].first_child == Some(t));
                    assert(s[t.0 as int].next_sibling is None);
                    reveal_with_fuel(text_of, 3);
                    assert(text_of(s, s[t.0 as int].next_sibling, (s.len() - 2) as nat) =~= Seq::<char>::empty());
                    assert(content_of(*self, id) =~= c@);
                    assert(self.nodes().subrange(0, id.0 as int) =~= old(self).nodes());
                }
                return id;
            }
        }
        proof {
            reveal_with_fuel(text_of, 2);
            assert(content_of(*self, id) =~= Seq::<char>::empty());
            if let Some(c) = content {
                assert(c@ =~= Seq::<char>::empty());
            }
        }
        id
    }

    /// `xmlNewChild`: a new element appended under `parent`.
    pub fn xml_new_child(&mut self, parent: NodeId, ns_uri: Option<&str>, name: &str, content: Option<&str>) -> (r: NodeId)
        requires
            old(self).wf(),
            old(self).has(parent),
            old(self).nodes().len() + 2 <= u32::MAX,
        ensures
            final(self).wf(),
            r.0 == old(self).nodes().len(),
            final(self).nodes()[r.0 as int].kind == NodeKind::Element,
            final(self).nodes()[r.0 as int].name@ == name@,
            final(self).nodes()[r.0 as int].parent == Some(parent),
            final(self).nodes()[parent.0 as int].last_child == Some(r),
            final(self).version == old(self).version,
            final(self).encoding == old(self).encoding,
            final(self).standalone == old(self).standalone,
            final(self).dtd == old(self).dtd,
    {
        let id = self.xml_new_doc_node(ns_uri, name, content);
        self.xml_add_child(parent, id);
        id
    }

    /// Append a new attribute node to `elem`, taking ownership of its parts.
    pub fn add_attr_owned(&mut self, elem: NodeId, name: String, prefix: Option<String>, value: String) -> (r: NodeId)
        requires
            old(self).wf(),
            old(self).has(elem),
            old(self).nodes().len() < u32::MAX,
        ensures
            final(self).wf(),
            r.0 == old(self).nodes().len(),
            final(self).nodes().len() == old(self).nodes().len() + 1,
            final(self).nodes().subrange(0, r.0 as int) == link_attr_nodes(
                old(self).nodes(),
                elem.0 as int,
                r.0 as int,
            ),
            final(self).nodes()[r.0 as int].kind == NodeKind::Attribute,
            final(self).nodes()[r.0 as int].name@ == name@,
            opt_string_view(final(self).nodes()[r.0 as int].prefix) == opt_string_view(prefix),
            final(self).nodes()[r.0 as int].content@ == value@,
            final(self).nodes()[r.0 as int].parent == Some(elem),
            final(self).nodes()[r.0 as int].prev_sibling == old(self).nodes()[elem.0 as int].last_attr,
            final(self).nodes()[r.0 as int].next_sibling is None,
            final(self).nodes()[r.0 as int].ns_uri is None,
            forall|i: int| 0 <= i < old(self).nodes().len() ==> (#[trigger] final(self).nodes()[i]).kind == old(self).nodes()[i].kind,
            final(self).root() == old(self).root(),
            final(self).version == old(self).version,
            final(self).encoding == old(self).encoding,
            final(self).standalone == old(self).standalone,
            final(self).dtd == old(self).dtd,
    {
        let id = self.alloc_node(NodeKind::Attribute, name);
        let ghost s1 = self.nodes();
        self.nodes[id.index()].prefix = prefix;
        self.nodes[id.index()].content = value;
        proof {
            assert(self.nodes()[id.0 as int].links_ok(self.nodes().len()));
            lemma_update_ok(s1, id.0 as int, self.nodes()[id.0 as int]);
            assert(self.nodes() =~= s1.update(id.0 as int, self.nodes()[id.0 as int]));
            assert(self.nodes().subrange(0, id.0 as int) =~= old(self).nodes());
        }
        self.put_parent(id, Some(elem));
        let last = self.nodes[elem.index()].last_attr;
        proof {
            assert(old(self).nodes()[elem.0 as int].links_ok(old(self).nodes().len()));
        }
        if let Some(l) = last {
            self.put_next_sibling(l, Some(id));
            self.put_prev_sibling(id, Some(l));
        } else {
            self.put_first_attr(elem, Some(id));
        }
        self.put_last_attr(elem, Some(id));
        proof {
            assert(self.nodes().subrange(0, id.0 as int) =~= link_attr_nodes(
                old(self).nodes(),
                elem.0 as int,
                id.0 as int,
            ));
        }
        id
    }

    /// Append a new attribute node to `elem`.
    pub fn add_attr(&mut self, elem: NodeId, name: &str, prefix: Option<&str>, value: &str) -> (r: NodeId)
        requires
            old(self).wf(),
            old(self).has(elem),
            old(self).nodes().len() < u32::MAX,
        ensures
            final(self).wf(),
            r.0 == old(self).nodes().len(),
            final(self).nodes().len() == old(self).nodes().len() + 1,
            final(self).nodes().subrange(0, r.0 as int) == link_attr_nodes(
                old(self).nodes(),
                elem.0 as int,
                r.0 as int,
            ),
            final(self).nodes()[r.0 as int].kind == NodeKind::Attribute,
            final(self).nodes()[r.0 as int].name@ == name@,
            opt_string_view(final(self).nodes()[r.0 as int].prefix) == opt_str_view(prefix),
            final(self).nodes()[r.0 as int].content@ == value@,
            final(self).nodes()[r.0 as int].parent == Some(elem),
            final(self).nodes()[r.0 as int].prev_sibling == old(self).nodes()[elem.0 as int].last_attr,
            final(self).nodes()[r.0 as int].next_sibling is None,
            final(self).nodes()[r.0 as int].ns_uri is None,
            forall|i: int| 0 <= i < old(self).nodes().len() ==> (#[trigger] final(self).nodes()[i]).kind == old(self).nodes()[i].kind,
            final(self).root() == old(self).root(),
            final(self).version == old(self).version,
            final(self).encoding == old(self).encoding,
            final(self).standalone == old(self).standalone,
            final(self).dtd == old(self).dtd,
    {
        let p = match prefix {
            Some(p) => Some(String::from_str(p)),
            None => None,
        };
        self.add_attr_owned(elem, String::from_str(name), p, String::from_str(value))
    }

    /// Replace the content of a node; its links and other fields stay.
    pub(crate) fn set_content(&mut self, id: NodeId, content: String)
        requires
            old(self).wf(),
            old(self).has(id),
        ensures
            final(self).wf(),
            final(self).nodes() == old(self).nodes().update(
                id.0 as int,
                Node { content: content, ..old(self).nodes()[id.0 as int] },
            ),
            final(self).root() == old(self).root(),
            final(self).version == old(self).version,
            final(self).encoding == old(self).encoding,
            final(self).standalone == old(self).standalone,
            final(self).dtd == old(self).dtd,
    {
        self.nodes[id.index()].content = content;
        proof {
            lemma_update_ok(old(self).nodes(), id.0 as int, self.nodes()[id.0 as int]);
        }
    }

    /// Change the kind of a node.
    pub(crate) fn set_kind(&mut self, id: NodeId, kind: NodeKind)
        requires
            old(self).wf(),
            old(self).has(id),
        ensures
            final(self).wf(),
            final(self).nodes() == old(self).nodes().update(
                id.0 as int,
                Node { kind: kind, ..old(self).nodes()[id.0 as int] },
            ),
            final(self).root() == old(self).root(),
            final(self).version == old(self).version,
            final(self).encoding == old(self).encoding,
            final(self).standalone == old(self).standalone,
            final(self).dtd == old(self).dtd,
    {
        self.nodes[id.index()].kind = kind;
        proof {
            lemma_update_ok(old(self).nodes(), id.0 as int, self.nodes()[id.0 as int]);
            assert(self.nodes() =~= old(self).nodes().update(
                id.0 as int,
                Node { kind: kind, ..old(self).nodes()[id.0 as int] },
            ));
        }
    }

    /// Replace the namespace prefix and URI of a node.
    pub(crate) fn set_ns_parts(&mut self, id: NodeId, prefix: Option<String>, ns_uri: Option<String>)
        requires
            old(self).wf(),
            old(self).has(id),
        ensures
            final(self).wf(),
            final(self).nodes() == old(self).nodes().update(
                id.0 as int,
                Node { prefix: prefix, ns_uri: ns_uri, ..old(self).nodes()[id.0 as int] },
            ),
            final(self).root() == old(self).root(),
            final(self).version == old(self).version,
            final(self).encoding == old(self).encoding,
            final(self).standalone == old(self).standalone,
            final(self).dtd == old(self).dtd,
    {
        self.nodes[id.index()].prefix = prefix;
        self.nodes[id.index()].ns_uri = ns_uri;
        proof {
            lemma_update_ok(old(self).nodes(), id.0 as int, self.nodes()[id.0 as int]);
            assert(self.nodes() =~= old(self).nodes().update(
                id.0 as int,
                Node { prefix: prefix, ns_uri: ns_uri, ..old(self).nodes()[id.0 as int] },
            ));
        }
    }

    /// Record a namespace declaration on `elem`.
    pub fn push_ns_def(&mut self, elem: NodeId, prefix: Option<String>, uri: String)
        requires
            old(self).wf(),
            old(self).has(elem),
        ensures
            final(self).wf(),
            final(self).nodes() == old(self).nodes().update(
                elem.0 as int,
                Node { ns_defs: final(self).nodes()[elem.0 as int].ns_defs, ..old(self).nodes()[elem.0 as int] },
            ),
            final(self).nodes()[elem.0 as int].ns_defs@ == old(self).nodes()[elem.0 as int].ns_defs@.push((prefix, uri)),
            final(self).root() == old(self).root(),
            final(self).version == old(self).version,
            final(self).encoding == old(self).encoding,
            final(self).standalone == old(self).standalone,
            final(self).dtd == old(self).dtd,
    {
        let ghost s0 = self.nodes();
        self.nodes[elem.index()].ns_defs.push((prefix, uri));
        proof {
            assert(s0[elem.0 as int].links_ok(s0.len()));
            lemma_update_ok(s0, elem.0 as int, self.nodes()[elem.0 as int]);
            assert(self.nodes() =~= s0.update(elem.0 as int, self.nodes()[elem.0 as int]));
        }
    }

    /// Walk the attribute chain of `node` for the unprefixed attribute `name`.
    fn find_prop(&self, node: NodeId, name: &str) -> (r: Option<NodeId>)
        requires
            self.wf(),
            self.has(node),
        ensures
            r == prop_of(*self, node, name@),
            link_ok(r, self.nodes().len()),
    {
        proof {
            assert(self.nodes()[node.0 as int].links_ok(self.nodes().len()));
        }
        let mut a = self.nodes[node.index()].first_attr;
        let mut fuel = self.nodes.len();
        while fuel > 0
            invariant
                self.wf(),
                link_ok(a, self.nodes().len()),
                find_attr(self.nodes(), a, name@, fuel as nat) == prop_of(*self, node, name@),
            decreases fuel,
        {
            match a {
                None => {
                    return None;
                },
                Some(id) => {
                    proof {
                        assert(self.nodes()[id.0 as int].links_ok(self.nodes().len()));
                    }
                    let n = &self.nodes[id.index()];
                    if n.prefix.is_none() && str_eq(n.name.as_str(), name) {
                        return Some(id);
                    }
                    a = n.next_sibling;
                    fuel -= 1;
                },
            }
        }
        None
    }

    /// `xmlGetProp`: the value of the unprefixed attribute `name`.
    pub fn xml_get_prop(&self, node: NodeId, name: &str) -> (r: Option<String>)
        requires
            self.wf(),
            self.has(node),
        ensures
            opt_string_view(r) == (match prop_of(*self, node, name@) {
                Some(a) => Some(self.nodes()[a.0 as int].content@),
                None => None,
            }),
    {
        match self.find_prop(node, name) {
            Some(a) => Some(self.nodes[a.index()].content.clone()),
            None => None,
        }
    }

    /// `xmlHasProp`.
    pub fn xml_has_prop(&self, node: NodeId, name: &str) -> (r: bool)
        requires
            self.wf(),
            self.has(node),
        ensures
            r == prop_of(*self, node, name@) is Some,
    {
        self.xml_get_prop(node, name).is_some()
    }

    /// `xmlSetProp`: overwrite the unprefixed attribute `name`, or append it.
    pub fn xml_set_prop(&mut self, node: NodeId, name: &str, value: &str) -> (r: NodeId)
        requires
            old(self).wf(),
            old(self).has(node),
            old(self).nodes().len() < u32::MAX,
        ensures
            final(self).wf(),
            final(self).nodes().len() >= old(self).nodes().len(),
            final(self).nodes()[r.0 as int].content@ == value@,
            match prop_of(*old(self), node, name@) {
                Some(a) => {
                    &&& r == a
                    &&& final(self).nodes() == old(self).nodes().update(
                        a.0 as int,
                        Node { content: final(self).nodes()[a.0 as int].content, ..old(self).nodes()[a.0 as int] },
                    )
                },
                None => {
                    &&& r.0 == old(self).nodes().len()
                    &&& final(self).nodes().len() == old(self).nodes().len() + 1
                    &&& final(self).nodes().subrange(0, r.0 as int) == link_attr_nodes(
                        old(self).nodes(),
                        node.0 as int,
                        r.0 as int,
                    )
                    &&& final(self).nodes()[r.0 as int].kind == NodeKind::Attribute
                    &&& final(self).nodes()[r.0 as int].name@ == name@
                    &&& final(self).nodes()[r.0 as int].prefix is None
                    &&& final(self).nodes()[r.0 as int].parent == Some(node)
                    &&& final(self).nodes()[r.0 as int].prev_sibling == old(self).nodes()[node.0 as int].last_attr
                    &&& final(self).nodes()[r.0 as int].next_sibling is None
                },
            },
            forall|i: int| 0 <= i < old(self).nodes().len() ==> (#[trigger] final(self).nodes()[i]).kind == old(self).nodes()[i].kind,
            final(self).root() == old(self).root(),
            final(self).version == old(self).version,
            final(self).encoding == old(self).encoding,
            final(self).standalone == old(self).standalone,
            final(self).dtd == old(self).dtd,
    {
        match self.find_prop(node, name) {
            Some(id) => {
                let ghost s0 = self.nodes();
                self.nodes[id.index()].content = String::from_str(value);
                proof {
                    assert(s0[id.0 as int].links_ok(s0.len()));
                    lemma_update_ok(s0, id.0 as int, self.nodes()[id.0 as int]);
                    assert(self.nodes() =~= s0.update(id.0 as int, Node { content: self.nodes()[id.0 as int].content, ..s0[id.0 as int] }));
                }
                id
            },
            None => self.add_attr(node, name, None, value),
        }
    }
}


impl XmlDoc {
    /// `xmlUnsetProp`: detach the unprefixed attribute `name`. Reports
    /// whether one was found.
    #[verifier::spinoff_prover]
    pub fn xml_unset_prop(&mut self, node: NodeId, name: &str) -> (r: bool)
        requires
            old(self).wf(),
            old(self).has(node),
        ensures
            final(self).wf(),
            r == prop_of(*old(self), node, name@) is Some,
            !r ==> final(self).nodes() == old(self).nodes(),
            r ==> final(self).nodes()[prop_of(*old(self), node, name@).unwrap().0 as int].parent is None,
            r ==> final(self).nodes()[prop_of(*old(self), node, name@).unwrap().0 as int].prev_sibling is None,
            r ==> final(self).nodes()[prop_of(*old(self), node, name@).unwrap().0 as int].next_sibling is None,
            same_payloads(final(self).nodes(), old(self).nodes()),
            final(self).root() == old(self).root(),
            final(self).version == old(self).version,
            final(self).encoding == old(self).encoding,
            final(self).standalone == old(self).standalone,
            final(self).dtd == old(self).dtd,
    {
        proof {
            assert(self.nodes()[node.0 as int].links_ok(self.nodes().len()));
        }
        let mut a = self.nodes[node.index()].first_attr;
        let mut prev: Option<NodeId> = None;
        let mut fuel = self.nodes.len();
        while fuel > 0
            invariant
                self.wf(),
                *self == *old(self),
                old(self).has(node),
                self.has(node),
                link_ok(a, self.nodes().len()),
                link_ok(prev, self.nodes().len()),
                find_attr(self.nodes(), a, name@, fuel as nat) == prop_of(*old(self), node, name@),
            decreases fuel,
        {
            match a {
                None => {
                    return false;
                },
                Some(id) => {
                    proof {
                        assert(self.nodes()[id.0 as int].links_ok(self.nodes().len()));
                    }
                    let next = self.nodes[id.index()].next_sibling;
                    if self.nodes[id.index()].prefix.is_none() && str_eq(
                        self.nodes[id.index()].name.as_str(),
                        name,
                    ) {
                        let ghost s0 = self.nodes();
                        if let Some(p) = prev {
                            self.put_next_sibling(p, next);
                            proof { lemma_payload_update(s0, p.0 as int, self.nodes()[p.0 as int]); }
                        } else {
                            self.put_first_attr(node, next);
                            proof { lemma_payload_update(s0, node.0 as int, self.nodes()[node.0 as int]); }
                        }
                        let ghost s1 = self.nodes();
                        if next.is_none() {
                            self.put_last_attr(node, prev);
                            proof {
                                lemma_payload_update(s1, node.0 as int, self.nodes()[node.0 as int]);
                                lemma_payload_trans(self.nodes(), s1, s0);
                            }
                        }
                        let ghost s2 = self.nodes();
                        if let Some(n) = next {
                            self.put_prev_sibling(n, prev);
                            proof {
                                lemma_payload_update(s2, n.0 as int, self.nodes()[n.0 as int]);
                                lemma_payload_trans(self.nodes(), s2, s0);
                            }
                        }
                        let ghost s3 = self.nodes();
                        self.put_parent(id, None);
                        proof { lemma_payload_update(s3, id.0 as int, self.nodes()[id.0 as int]); lemma_payload_trans(self.nodes(), s3, s0); }
                        let ghost s4 = self.nodes();
                        self.put_prev_sibling(id, None);
                        proof { lemma_payload_update(s4, id.0 as int, self.nodes()[id.0 as int]); lemma_payload_trans(self.nodes(), s4, s0); }
                        let ghost s5 = self.nodes();
                        self.put_next_sibling(id, None);
                        proof { lemma_payload_update(s5, id.0 as int, self.nodes()[id.0 as int]); lemma_payload_trans(self.nodes(), s5, s0); }
                        return true;
                    }
                    prev = Some(id);
                    a = next;
                    fuel -= 1;
                },
            }
        }
        false
    }

    /// Append the text of the chain starting at `c` (descending into
    /// elements) to `out`.
    fn collect_text(&self, c: Option<NodeId>, fuel: usize, out: &mut String)
        requires
            self.wf(),
            link_ok(c, self.nodes().len()),
        ensures
            final(out)@ == old(out)@ + text_of(self.nodes(), c, fuel as nat),
        decreases fuel,
    {
        let mut cur = c;
        let mut f = fuel;
        while f > 0
            invariant
                self.wf(),
                link_ok(cur, self.nodes().len()),
                f <= fuel,
                out@ + text_of(self.nodes(), cur, f as nat) == old(out)@ + text_of(self.nodes(), c, fuel as nat),
            decreases f,
        {
            match cur {
                None => {
                    assert(out@ + text_of(self.nodes(), cur, f as nat) =~= out@);
                    return;
                },
                Some(id) => {
                    proof {
                        assert(self.nodes()[id.0 as int].links_ok(self.nodes().len()));
                    }
                    let ghost before = out@;
                    let n = &self.nodes[id.index()];
                    match n.kind {
                        NodeKind::Text | NodeKind::CData => out.append(n.content.as_str()),
                        NodeKind::Element => self.collect_text(n.first_child, f - 1, out),
                        _ => {},
                    }
                    proof {
                        let here = match n.kind {
                            NodeKind::Text => n.content@,
                            NodeKind::CData => n.content@,
                            NodeKind::Element => text_of(self.nodes(), n.first_child, (f - 1) as nat),
                            _ => Seq::empty(),
                        };
                        assert(out@ =~= before + here);
                        assert(text_of(self.nodes(), cur, f as nat) == here + text_of(self.nodes(), n.next_sibling, (f - 1) as nat));
                        assert(before + text_of(self.nodes(), cur, f as nat) =~= out@ + text_of(self.nodes(), n.next_sibling, (f - 1) as nat));
                    }
                    cur = n.next_sibling;
                    f -= 1;
                },
            }
        }
        assert(out@ + text_of(self.nodes(), cur, f as nat) =~= out@);
    }

    /// `xmlNodeGetContent`: a leaf's own content, or the concatenated text
    /// and CDATA of the descendants.
    pub fn xml_node_get_content(&self, id: NodeId) -> (r: String)
        requires
            self.wf(),
            self.has(id),
        ensures
            r@ == content_of(*self, id),
    {
        let n = &self.nodes[id.index()];
        match n.kind {
            NodeKind::Text | NodeKind::CData | NodeKind::Comment | NodeKind::Pi
            | NodeKind::Attribute => n.content.clone(),
            _ => {
                proof {
                    assert(n.links_ok(self.nodes().len()));
                }
                let mut out = String::new();
                self.collect_text(n.first_child, self.nodes.len(), &mut out);
                assert(out@ =~= content_of(*self, id));
                out
            },
        }
    }

    /// `xmlNodeSetContent`: a leaf's content is replaced; any other node
    /// loses its children and gets a single text child holding `content`
    /// (none when `content` is empty).
    pub fn xml_node_set_content(&mut self, id: NodeId, content: &str)
        requires
            old(self).wf(),
            old(self).has(id),
            old(self).nodes().len() < u32::MAX,
        ensures
            final(self).wf(),
            is_leaf_kind(old(self).nodes()[id.0 as int].kind) ==> {
                &&& final(self).nodes() == old(self).nodes().update(
                    id.0 as int,
                    Node { content: final(self).nodes()[id.0 as int].content, ..old(self).nodes()[id.0 as int] },
                )
                &&& final(self).nodes()[id.0 as int].content@ == content@
            },
            !is_leaf_kind(old(self).nodes()[id.0 as int].kind) && content@.len() > 0 ==> {
                let t = final(self).nodes()[id.0 as int].last_child;
                &&& t == Some(NodeId(old(self).nodes().len() as u32))
                &&& final(self).nodes()[t.unwrap().0 as int].kind == NodeKind::Text
                &&& final(self).nodes()[t.unwrap().0 as int].content@ == content@
            },
            final(self).version == old(self).version,
            final(self).encoding == old(self).encoding,
            final(self).standalone == old(self).standalone,
            final(self).dtd == old(self).dtd,
    {
        let k = self.nodes[id.index()].kind;
        match k {
            NodeKind::Text | NodeKind::CData | NodeKind::Comment | NodeKind::Pi
            | NodeKind::Attribute => {
                let ghost s0 = self.nodes();
                self.nodes[id.index()].content = String::from_str(content);
                proof {
                    assert(s0[id.0 as int].links_ok(s0.len()));
                    lemma_update_ok(s0, id.0 as int, self.nodes()[id.0 as int]);
                    assert(self.nodes() =~= s0.update(id.0 as int, Node { content: self.nodes()[id.0 as int].content, ..s0[id.0 as int] }));
                }
            },
            _ => {
                proof {
                    assert(self.nodes()[id.0 as int].links_ok(self.nodes().len()));
                }
                let mut c = self.nodes[id.index()].first_child;
                let mut fuel = self.nodes.len();
                while fuel > 0
                    invariant
                        self.wf(),
                        self.has(id),
                        self.nodes().len() == old(self).nodes().len(),
                        link_ok(c, self.nodes().len()),
                        self.version == old(self).version,
                        self.encoding == old(self).encoding,
                        self.standalone == old(self).standalone,
                        self.dtd == old(self).dtd,
                    decreases fuel,
                {
                    match c {
                        None => break,
                        Some(ch) => {
                            let next = self.nodes[ch.index()].next_sibling;
                            proof {
                                assert(self.nodes()[ch.0 as int].links_ok(self.nodes().len()));
                            }
                            self.xml_unlink_node(ch);
                            c = next;
                            fuel -= 1;
                        },
                    }
                }
                if !content.is_empty() {
                    let t = self.xml_new_text(content);
                    self.xml_add_child(id, t);
                }
            },
        }
    }

    /// `xmlIsBlankNode`: a text or CDATA node holding only XML whitespace.
    #[verifier::spinoff_prover]
    pub fn xml_is_blank_node(&self, id: NodeId) -> (r: bool)
        requires
            self.has(id),
        ensures
            r == ((self.nodes()[id.0 as int].kind == NodeKind::Text
                || self.nodes()[id.0 as int].kind == NodeKind::CData) && all_blank_bytes(
                vstd::utf8::encode_utf8(self.nodes()[id.0 as int].content@),
            )),
    {
        let n = &self.nodes[id.index()];
        match n.kind {
            NodeKind::Text | NodeKind::CData => {
                let b = n.content.as_str().as_bytes();
                assert(b@ == vstd::utf8::encode_utf8(n.content@));
                let mut i: usize = 0;
                while i < b.len()
                    invariant
                        i <= b@.len(),
                        b@ == vstd::utf8::encode_utf8(self.nodes()[id.0 as int].content@),
                        all_blank_bytes(b@.subrange(0, i as int)),
                    decreases b.len() - i,
                {
                    let x = b[i];
                    if !(x == 0x20 || x == 0x09 || x == 0x0a || x == 0x0d) {
                        assert(!all_blank_bytes(b@));
                        return false;
                    }
                    i += 1;
                    assert(all_blank_bytes(b@.subrange(0, i as int))) by {
                        assert forall|j: int| 0 <= j < i implies (#[trigger] b@.subrange(0, i as int)[j] == 0x20 || b@.subrange(0, i as int)[j] == 0x09 || b@.subrange(0, i as int)[j] == 0x0a || b@.subrange(0, i as int)[j] == 0x0d) by {
                            if j < i - 1 {
                                assert(b@.subrange(0, i as int)[j] == b@.subrange(0, i - 1)[j]);
                            }
                        }
                    }
                }
                assert(b@.subrange(0, b@.len() as int) =~= b@);
                true
            },
            _ => false,
        }
    }

    /// `xmlSearchNs`: the namespace bound to `prefix` at `node`.
    #[verifier::spinoff_prover]
    pub fn xml_search_ns(&self, node: NodeId, prefix: Option<&str>) -> (r: Option<String>)
        requires
            self.wf(),
            self.has(node),
        ensures
            opt_string_view(r) == search_ns_of(*self, node, opt_str_view(prefix)),
    {
        proof {
            reveal_strlit("xml");
            reveal_strlit("xmlns");
        }
        if let Some(p) = prefix {
            if str_eq(p, "xml") {
                return Some(String::from_str("http://www.w3.org/XML/1998/namespace"));
            }
            if str_eq(p, "xmlns") {
                return Some(String::from_str("http://www.w3.org/2000/xmlns/"));
            }
        }
        let mut cur = Some(node);
        let mut fuel = self.nodes.len();
        while fuel > 0
            invariant
                self.wf(),
                link_ok(cur, self.nodes().len()),
                ns_lookup(self.nodes(), cur, opt_str_view(prefix), fuel as nat) == search_ns_of(*self, node, opt_str_view(prefix)),
            decreases fuel,
        {
            match cur {
                None => return None,
                Some(id) => {
                    proof {
                        assert(self.nodes()[id.0 as int].links_ok(self.nodes().len()));
                    }
                    let defs = &self.nodes[id.index()].ns_defs;
                    let mut k: usize = 0;
                    assert(defs@.subrange(0, defs@.len() as int) =~= defs@);
                    while k < defs.len()
                        invariant
                            k <= defs@.len(),
                            self.wf(),
                            (id.0 as int) < self.nodes().len(),
                            fuel > 0,
                            cur == Some(id),
                            defs@ == self.nodes()[id.0 as int].ns_defs@,
                            ns_lookup(self.nodes(), cur, opt_str_view(prefix), fuel as nat) == search_ns_of(*self, node, opt_str_view(prefix)),
                            ns_in_defs(defs@, opt_str_view(prefix)) == ns_in_defs(defs@.subrange(k as int, defs@.len() as int), opt_str_view(prefix)),
                        decreases defs.len() - k,
                    {
                        let same = match (&defs[k].0, prefix) {
                            (Some(a), Some(b)) => str_eq(a.as_str(), b),
                            (None, None) => true,
                            _ => false,
                        };
                        assert(defs@.subrange(k as int, defs@.len() as int).drop_first() =~= defs@.subrange(k + 1, defs@.len() as int));
                        if same {
                            return Some(defs[k].1.clone());
                        }
                        k += 1;
                    }
                    cur = self.nodes[id.index()].parent;
                    fuel -= 1;
                },
            }
        }
        None
    }

    /// `xmlNewNs`: declare `prefix` (or the default namespace) as `href` on `node`.
    pub fn xml_new_ns(&mut self, node: NodeId, href: &str, prefix: Option<&str>)
        requires
            old(self).wf(),
            old(self).has(node),
        ensures
            final(self).wf(),
            final(self).nodes()[node.0 as int].ns_defs@.len() == old(self).nodes()[node.0 as int].ns_defs@.len() + 1,
            opt_string_view(final(self).nodes()[node.0 as int].ns_defs@.last().0) == opt_str_view(prefix),
            final(self).nodes()[node.0 as int].ns_defs@.last().1@ == href@,
    {
        let p = match prefix {
            Some(p) => Some(String::from_str(p)),
            None => None,
        };
        self.push_ns_def(node, p, String::from_str(href));
    }

    /// `xmlSetNs`: set the namespace URI and prefix of `node`.
    pub fn xml_set_ns(&mut self, node: NodeId, href: Option<&str>, prefix: Option<&str>)
        requires
            old(self).wf(),
            old(self).has(node),
        ensures
            final(self).wf(),
            final(self).nodes().len() == old(self).nodes().len(),
            opt_string_view(final(self).nodes()[node.0 as int].ns_uri) == opt_str_view(href),
            opt_string_view(final(self).nodes()[node.0 as int].prefix) == opt_str_view(prefix),
            forall|i: int| 0 <= i < old(self).nodes().len() && i != node.0 ==> final(self).nodes()[i] == old(self).nodes()[i],
    {
        let h = match href {
            Some(p) => Some(String::from_str(p)),
            None => None,
        };
        let p = match prefix {
            Some(p) => Some(String::from_str(p)),
            None => None,
        };
        let ghost s0 = self.nodes();
        self.nodes[node.index()].ns_uri = h;
        self.nodes[node.index()].prefix = p;
        proof {
            assert(s0[node.0 as int].links_ok(s0.len()));
            lemma_update_ok(s0, node.0 as int, self.nodes()[node.0 as int]);
            assert(self.nodes() =~= s0.update(node.0 as int, self.nodes()[node.0 as int]));
        }
    }

    /// The qualified name `prefix:name`, or the name alone.
    pub fn qname(&self, id: NodeId) -> (r: String)
        requires
            self.has(id),
        ensures
            r@ == (match self.nodes()[id.0 as int].prefix {
                Some(p) => p@ + seq![':'] + node_name(self.nodes()[id.0 as int]),
                None => node_name(self.nodes()[id.0 as int]),
            }),
    {
        match &self.nodes[id.index()].prefix {
            Some(p) => {
                let mut s = p.clone();
                push_char(&mut s, ':');
                s.append(self.name(id));
                s
            },
            None => String::from_str(self.name(id)),
        }
    }

    pub(crate) fn chain(&self, start: Option<NodeId>) -> (r: Vec<NodeId>)
        requires
            self.wf(),
            link_ok(start, self.nodes().len()),
        ensures
            r@ == chain_of(self.nodes(), start, self.nodes().len()),
            forall|k: int| 0 <= k < r@.len() ==> self.has(#[trigger] r@[k]),
    {
        let mut out: Vec<NodeId> = Vec::new();
        let mut c = start;
        let mut fuel = self.nodes.len();
        while fuel > 0
            invariant
                self.wf(),
                link_ok(c, self.nodes().len()),
                forall|k: int| 0 <= k < out@.len() ==> self.has(#[trigger] out@[k]),
                out@ + chain_of(self.nodes(), c, fuel as nat) == chain_of(self.nodes(), start, self.nodes().len()),
            decreases fuel,
        {
            match c {
                None => {
                    assert(out@ + chain_of(self.nodes(), c, fuel as nat) =~= out@);
                    return out;
                },
                Some(id) => {
                    proof {
                        assert(self.nodes()[id.0 as int].links_ok(self.nodes().len()));
                    }
                    let ghost before = out@;
                    out.push(id);
                    assert(before + chain_of(self.nodes(), c, fuel as nat) =~= out@ + chain_of(self.nodes(), self.nodes()[id.0 as int].next_sibling, (fuel - 1) as nat));
                    c = self.nodes[id.index()].next_sibling;
                    fuel -= 1;
                },
            }
        }
        assert(out@ + chain_of(self.nodes(), c, fuel as nat) =~= out@);
        out
    }

    /// The children of `id`, in order.
    pub fn children(&self, id: NodeId) -> (r: Vec<NodeId>)
        requires
            self.wf(),
            self.has(id),
        ensures
            r@ == chain_of(self.nodes(), self.nodes()[id.0 as int].first_child, self.nodes().len()),
            forall|k: int| 0 <= k < r@.len() ==> self.has(#[trigger] r@[k]),
    {
        proof {
            assert(self.nodes()[id.0 as int].links_ok(self.nodes().len()));
        }
        self.chain(self.nodes[id.index()].first_child)
    }

    /// The attributes of `id`, in order.
    pub fn attrs(&self, id: NodeId) -> (r: Vec<NodeId>)
        requires
            self.wf(),
            self.has(id),
        ensures
            r@ == chain_of(self.nodes(), self.nodes()[id.0 as int].first_attr, self.nodes().len()),
            forall|k: int| 0 <= k < r@.len() ==> self.has(#[trigger] r@[k]),
    {
        proof {
            assert(self.nodes()[id.0 as int].links_ok(self.nodes().len()));
        }
        self.chain(self.nodes[id.index()].first_attr)
    }
}

/// The links and text of `b` are those of `a`.
pub open spec fn same_node(a: Node, b: Node) -> bool {
    &&& a.kind == b.kind
    &&& a.name@ == b.name@
    &&& opt_string_view(a.prefix) == opt_string_view(b.prefix)
    &&& opt_string_view(a.ns_uri) == opt_string_view(b.ns_uri)
    &&& a.content@ == b.content@
    &&& a.parent == b.parent
    &&& a.first_child == b.first_child
    &&& a.last_child == b.last_child
    &&& a.prev_sibling == b.prev_sibling
    &&& a.next_sibling == b.next_sibling
    &&& a.first_attr == b.first_attr
    &&& a.last_attr == b.last_attr
    &&& a.ns_defs@.len() == b.ns_defs@.len()
}

fn copy_opt(o: &Option<String>) -> (r: Option<String>)
    ensures
        opt_string_view(r) == opt_string_view(*o),
{
    match o {
        Some(s) => Some(s.clone()),
        None => None,
    }
}

fn copy_node_value(n: &Node) -> (r: Node)
    ensures
        same_node(r, *n),
{
    let mut defs: Vec<(Option<String>, String)> = Vec::new();
    let mut k: usize = 0;
    while k < n.ns_defs.len()
        invariant
            k <= n.ns_defs@.len(),
            defs@.len() == k,
        decreases n.ns_defs.len() - k,
    {
        defs.push((copy_opt(&n.ns_defs[k].0), n.ns_defs[k].1.clone()));
        k += 1;
    }
    Node {
        kind: n.kind,
        name: n.name.clone(),
        prefix: copy_opt(&n.prefix),
        ns_uri: copy_opt(&n.ns_uri),
        content: n.content.clone(),
        parent: n.parent,
        first_child: n.first_child,
        last_child: n.last_child,
        prev_sibling: n.prev_sibling,
        next_sibling: n.next_sibling,
        first_attr: n.first_attr,
        last_attr: n.last_attr,
        ns_defs: defs,
    }
}

impl XmlDoc {
    /// `xmlCopyDoc`: a copy of the whole document, node for node.
    pub fn xml_copy_doc(&self) -> (r: XmlDoc)
        requires
            self.wf(),
        ensures
            r.wf(),
            r.nodes().len() == self.nodes().len(),
            forall|i: int| 0 <= i < r.nodes().len() ==> #[trigger] same_node(r.nodes()[i], self.nodes()[i]),
            r.root() == self.root(),
            r.version@ == self.version@,
            r.standalone == self.standalone,
    {
        let mut nodes: Vec<Node> = Vec::new();
        let mut i: usize = 0;
        while i < self.nodes.len()
            invariant
                self.wf(),
                i <= self.nodes().len(),
                nodes@.len() == i,
                forall|k: int| 0 <= k < i ==> #[trigger] same_node(nodes@[k], self.nodes()[k]),
            decreases self.nodes.len() - i,
        {
            nodes.push(copy_node_value(&self.nodes[i]));
            i += 1;
        }
        let r = XmlDoc {
            nodes,
            version: self.version.clone(),
            encoding: copy_opt(&self.encoding),
            standalone: self.standalone,
            root: self.root,
            dtd: self.dtd.clone(),
        };
        proof {
            assert forall|k: int| 0 <= k < r.nodes().len() implies (#[trigger] r.nodes()[k]).links_ok(r.nodes().len()) by {
                assert(same_node(r.nodes()[k], self.nodes()[k]));
                assert(self.nodes()[k].links_ok(self.nodes().len()));
            }
        }
        r
    }

    /// The children of `id`, as a cursor.
    pub fn children_iter(&self, id: NodeId) -> (r: NodeIter)
        requires
            self.wf(),
            self.has(id),
        ensures
            r.rest() == chain_of(self.nodes(), self.nodes()[id.0 as int].first_child, self.nodes().len()),
    {
        NodeIter::new(self.children(id))
    }

    /// The attributes of `id`, as a cursor.
    pub fn attrs_iter(&self, id: NodeId) -> (r: NodeIter)
        requires
            self.wf(),
            self.has(id),
        ensures
            r.rest() == chain_of(self.nodes(), self.nodes()[id.0 as int].first_attr, self.nodes().len()),
    {
        NodeIter::new(self.attrs(id))
    }
}

/// A cursor over the nodes of a sibling chain.
pub struct NodeIter {
    items: Vec<NodeId>,
    pos: usize,
}

impl NodeIter {
    /// The nodes not handed out yet.
    pub closed spec fn rest(&self) -> Seq<NodeId> {
        self.items@.subrange(self.pos as int, self.items@.len() as int)
    }

    #[verifier::type_invariant]
    spec fn ok(&self) -> bool {
        self.pos <= self.items@.len()
    }

    /// A cursor over `items`, in order.
    pub fn new(items: Vec<NodeId>) -> (r: NodeIter)
        ensures
            r.rest() == items@,
    {
        let r = NodeIter { items, pos: 0 };
        assert(r.rest() =~= r.items@);
        r
    }

    /// The next node, or `None` at the end.
    pub fn next(&mut self) -> (r: Option<NodeId>)
        ensures
            old(self).rest().len() == 0 ==> r is None && final(self).rest() == old(self).rest(),
            old(self).rest().len() > 0 ==> r == Some(old(self).rest()[0]) && final(self).rest() == old(self).rest().drop_first(),
    {
        proof {
            use_type_invariant(&*self);
        }
        if self.pos < self.items.len() {
            let x = self.items[self.pos];
            self.pos = self.pos + 1;
            assert(self.rest() =~= old(self).rest().drop_first());
            Some(x)
        } else {
            None
        }
    }
}

/// Changing what the nodes hold, and nothing of their names or sibling
/// links, changes no attribute lookup.
proof fn lemma_find_attr_stable(s: Seq<Node>, t: Seq<Node>, c: Option<NodeId>, name: Seq<char>, fuel: nat)
    requires
        t.len() == s.len(),
        link_ok(c, s.len()),
        forall|i: int| 0 <= i < s.len() ==> link_ok(#[trigger] s[i].next_sibling, s.len()),
        forall|i: int| 0 <= i < s.len() ==> (#[trigger] t[i]).prefix == s[i].prefix && t[i].name@ == s[i].name@
            && t[i].next_sibling == s[i].next_sibling,
    ensures
        find_attr(t, c, name, fuel) == find_attr(s, c, name, fuel),
        find_attr(s, c, name, fuel) matches Some(a) ==> (a.0 as int) < s.len(),
    decreases fuel,
{
    if fuel > 0 {
        match c {
            Some(id) => {
                assert(t[id.0 as int].prefix == s[id.0 as int].prefix);
                lemma_find_attr_stable(s, t, s[id.0 as int].next_sibling, name, (fuel - 1) as nat);
            },
            None => {},
        }
    }
}

/// What a read gives back of a write: after `xml_set_prop` overwrites the
/// attribute `name` of `node`, `xml_get_prop` of `name` returns the value
/// written. (`d1` is the document `xml_set_prop` leaves when the attribute
/// `a` was there.)
pub proof fn law_set_prop_then_get_prop(d0: XmlDoc, d1: XmlDoc, node: NodeId, name: Seq<char>, a: NodeId, v: Seq<char>)
    requires
        d0.wf(),
        d0.has(node),
        prop_of(d0, node, name) == Some(a),
        d1.nodes() == d0.nodes().update(a.0 as int, Node { content: d1.nodes()[a.0 as int].content, ..d0.nodes()[a.0 as int] }),
        d1.nodes()[a.0 as int].content@ == v,
    ensures
        (match prop_of(d1, node, name) {
            Some(x) => Some(d1.nodes()[x.0 as int].content@),
            None => None,
        }) == Some(v),
{
    let s = d0.nodes();
    let t = d1.nodes();
    assert(s[node.0 as int].links_ok(s.len()));
    assert forall|i: int| 0 <= i < s.len() implies link_ok(#[trigger] s[i].next_sibling, s.len()) by {
        assert(s[i].links_ok(s.len()));
    }
    assert forall|i: int| 0 <= i < s.len() implies (#[trigger] s[i]).prefix == s[i].prefix && s[i].name@ == s[i].name@
        && s[i].next_sibling == s[i].next_sibling by {
    }
    lemma_find_attr_stable(s, s, s[node.0 as int].first_attr, name, s.len());
    assert(t.len() == s.len());
    lemma_find_attr_stable(s, t, s[node.0 as int].first_attr, name, s.len());
    assert(t[node.0 as int].first_attr == s[node.0 as int].first_attr);
}

/// A node just unlinked has no parent and no siblings.
pub proof fn law_unlinked_node_is_detached(s: Seq<Node>, id: int)
    requires
        arena_ok(s),
        0 < id < s.len(),
    ensures
        unlinked(s, id)[id].parent is None,
        unlinked(s, id)[id].prev_sibling is None,
        unlinked(s, id)[id].next_sibling is None,
        unlinked(s, id).len() == s.len(),
{
}

/// After `xml_add_child`, the child hangs under the parent as its last
/// child.
pub proof fn law_added_child_is_last(s: Seq<Node>, parent: int, child: int)
    requires
        arena_ok(s),
        0 <= parent < s.len(),
        0 < child < s.len(),
        parent != child,
    ensures
        append_child_nodes(unlinked(s, child), parent, child)[child].parent == Some(NodeId(parent as u32)),
        append_child_nodes(unlinked(s, child), parent, child)[parent].last_child == Some(NodeId(child as u32)),
{
}

/// `xmlFreeDoc`: the document is released when dropped.
pub fn xml_free_doc(doc: XmlDoc) {
}

/// The reported name of a node: its stored name, or the fixed name of its kind.
pub open spec fn node_name(n: Node) -> Seq<char> {
    if n.name@.len() == 0 {
        match n.kind {
            NodeKind::Text => "#text"@,
            NodeKind::CData => "#cdata-section"@,
            NodeKind::Comment => "#comment"@,
            NodeKind::Document => "#document"@,
            _ => ""@,
        }
    } else {
        n.name@
    }
}

pub open spec fn opt_str_view(o: Option<&str>) -> Option<Seq<char>> {
    match o {
        Some(s) => Some(s@),
        None => None,
    }
}

/// `id` is an element named `name`, in namespace `ns` or in none.
pub open spec fn named_in(d: XmlDoc, id: NodeId, name: Seq<char>, ns: Seq<char>) -> bool {
    &&& d.nodes()[id.0 as int].kind == NodeKind::Element
    &&& node_name(d.nodes()[id.0 as int]) == name
    &&& (d.nodes()[id.0 as int].ns_uri matches Some(u) ==> u@ == ns)
}

pub open spec fn opt_string_view(o: Option<String>) -> Option<Seq<char>> {
    match o {
        Some(s) => Some(s@),
        None => None,
    }
}

} // verus!
