//! `xmlTextReader`: a pull cursor over a parsed document.

use vstd::prelude::*;
use crate::error::XmlError;
use crate::tree::{NodeId, NodeKind, XmlDoc, link_ok};

verus! {

/// libxml2 `xmlReaderTypes`.
#[derive(Clone, Copy, PartialEq, Eq, Debug, Structural)]
pub enum ReaderType {
    NoType,
    Element,
    Attribute,
    Text,
    CData,
    EntityReference,
    Entity,
    ProcessingInstruction,
    Comment,
    Document,
    DocumentType,
    DocumentFragment,
    Notation,
    Whitespace,
    SignificantWhitespace,
    EndElement,
    EndEntity,
    XmlDeclaration,
}

/// Where the reader stands: a node, or an element's end.
#[derive(Clone, Copy)]
struct Cursor {
    id: NodeId,
    end: bool,
}

/// `xmlTextReader`.
pub struct XmlTextReader {
    doc: XmlDoc,
    cur: Option<Cursor>,
    started: bool,
    eof: bool,
    attr: Option<NodeId>,
}

/// The reader type of a node.
pub open spec fn reader_type_of(doc: XmlDoc, id: NodeId, end: bool, blank: bool) -> ReaderType {
    if end {
        ReaderType::EndElement
    } else {
        match doc.nodes()[id.0 as int].kind {
            NodeKind::Element => ReaderType::Element,
            NodeKind::Attribute => ReaderType::Attribute,
            NodeKind::Text => if blank {
                ReaderType::SignificantWhitespace
            } else {
                ReaderType::Text
            },
            NodeKind::CData => ReaderType::CData,
            NodeKind::Pi => ReaderType::ProcessingInstruction,
            NodeKind::Comment => ReaderType::Comment,
            NodeKind::Document => ReaderType::Document,
            _ => ReaderType::NoType,
        }
    }
}

/// Where a read goes after node `id` is done: its next sibling, else the
/// end of its parent element, else nowhere.
pub open spec fn next_after(doc: XmlDoc, id: NodeId) -> Option<(NodeId, bool)> {
    let n = doc.nodes()[id.0 as int];
    match n.next_sibling {
        Some(s) => Some((s, false)),
        None => match n.parent {
            Some(p) => if p.0 != 0 && doc.nodes()[p.0 as int].kind == NodeKind::Element {
                Some((p, true))
            } else {
                None
            },
            None => None,
        },
    }
}

/// Where a read goes from the cursor `c`: into the first child of an
/// element, else past the node.
pub open spec fn next_from(doc: XmlDoc, c: (NodeId, bool)) -> Option<(NodeId, bool)> {
    if !c.1 && doc.nodes()[c.0.0 as int].kind == NodeKind::Element && doc.nodes()[c.0.0 as int].first_child is Some {
        Some((doc.nodes()[c.0.0 as int].first_child.unwrap(), false))
    } else {
        next_after(doc, c.0)
    }
}

/// A read from the state (`begun`, `finished`, `cursor`): the new state and
/// the result.
pub open spec fn read_step(doc: XmlDoc, begun: bool, finished: bool, cursor: Option<(NodeId, bool)>) -> (
    bool,
    bool,
    Option<(NodeId, bool)>,
    i32,
) {
    if finished {
        (begun, true, cursor, 0)
    } else if !begun {
        match doc.nodes()[0].first_child {
            Some(f) => (true, false, Some((f, false)), 1),
            None => (true, true, cursor, 0),
        }
    } else {
        match cursor {
            None => (true, true, None, 0),
            Some(c) => match next_from(doc, c) {
                Some(n) => (true, false, Some(n), 1),
                None => (true, true, None, 0),
            },
        }
    }
}

/// How many ancestors of `id` stand below the document node, looking at
/// most `fuel` steps up.
pub open spec fn ancestors(doc: XmlDoc, id: NodeId, fuel: nat) -> nat
    decreases fuel,
{
    if fuel == 0 {
        0
    } else {
        match doc.nodes()[id.0 as int].parent {
            None => 0,
            Some(p) => if p.0 == 0 { 0 } else { 1 + ancestors(doc, p, (fuel - 1) as nat) },
        }
    }
}

/// `n` capped to fit an `i32`.
pub open spec fn cap_i32(n: int) -> int {
    if n > 0x7fff_ffff { 0x7fff_ffff } else { n }
}

impl XmlTextReader {
    /// The document is well formed and the cursor and attribute name nodes of it.
    #[verifier::type_invariant]
    spec fn inv(&self) -> bool {
        &&& self.doc.wf()
        &&& match self.cur {
            Some(c) => self.doc.has(c.id),
            None => true,
        }
        &&& link_ok(self.attr, self.doc.nodes().len())
    }

    /// The document being read.
    pub closed spec fn document(&self) -> XmlDoc {
        self.doc
    }

    /// The cursor: a node, and whether it stands on that element's end.
    pub closed spec fn cursor(&self) -> Option<(NodeId, bool)> {
        match self.cur {
            Some(c) => Some((c.id, c.end)),
            None => None,
        }
    }

    /// The first read has happened.
    pub closed spec fn begun(&self) -> bool {
        self.started
    }

    /// A read has found nothing more.
    pub closed spec fn finished(&self) -> bool {
        self.eof
    }

    /// The node under the cursor, if any.
    pub closed spec fn current(&self) -> Option<NodeId> {
        match self.cur {
            Some(c) => Some(c.id),
            None => None,
        }
    }

    /// The attribute the cursor has moved to, if any.
    pub closed spec fn on_attr(&self) -> Option<NodeId> {
        self.attr
    }

    /// The cursor stands on an element's end.
    pub closed spec fn at_end(&self) -> bool {
        match self.cur {
            Some(c) => c.end,
            None => false,
        }
    }

    /// `xmlReaderForMemory`: parse and stand before the first node.
    pub fn xml_reader_for_memory(buffer: &[u8], url: Option<&str>, encoding: Option<&str>, options: i32) -> (r: Result<Self, XmlError>)
        ensures
            r matches Ok(x) ==> x.cursor() is None && !x.begun() && !x.finished() && x.on_attr() is None,
            r matches Ok(x) ==> x.current() is None,
            !crate::parse::has_opt(options, crate::parse::XML_PARSE_RECOVER)
                ==> (r matches Ok(x) ==> crate::parse::has_root_element(x.document())),
            crate::parse::lone_empty_element(buffer@) && crate::encoding::passes_through(
                crate::encoding::chosen_encoding(buffer@, crate::tree::opt_str_view(encoding)),
            ) && !crate::parse::has_opt(options, crate::parse::XML_PARSE_OLD10) ==> (r matches Ok(x)
                && crate::parse::lone_element_doc(x.document(), crate::parse::ascii_text(buffer@, 1, buffer@.len() - 2))),
            crate::parse::lone_text_element(buffer@) && crate::encoding::passes_through(
                crate::encoding::chosen_encoding(buffer@, crate::tree::opt_str_view(encoding)),
            ) && !crate::parse::has_opt(options, crate::parse::XML_PARSE_OLD10)
                && !crate::parse::has_opt(options, crate::parse::XML_PARSE_NO_TREE)
                && !crate::parse::has_opt(options, crate::parse::XML_PARSE_NOBLANKS) ==> (r matches Ok(x)
                && crate::parse::text_element_doc(x.document(), crate::parse::ascii_text(buffer@, 1,
                crate::parse::letters_end(buffer@, 1)), crate::parse::lone_text(buffer@))),
    {
        let doc = crate::parse::xml_read_memory(buffer, url, encoding, options)?;
        Ok(XmlTextReader { doc, cur: None, started: false, eof: false, attr: None })
    }

    /// `xmlReaderWalker`: a reader over an existing document.
    pub fn xml_reader_walker(doc: XmlDoc) -> (r: Self)
        requires
            doc.wf(),
        ensures
            r.document() == doc,
            r.current() is None,
            r.cursor() is None && !r.begun() && !r.finished() && r.on_attr() is None,
    {
        XmlTextReader { doc, cur: None, started: false, eof: false, attr: None }
    }

    /// `xmlTextReaderRead`: move to the next node in document order, with an
    /// end for each element that has children. 1 when there is one, 0 at the end.
    pub fn read(&mut self) -> (r: i32)
        ensures
            (final(self).begun(), final(self).finished(), final(self).cursor(), r) == read_step(
                old(self).document(),
                old(self).begun(),
                old(self).finished(),
                old(self).cursor(),
            ),
            final(self).on_attr() is None,
            r == 0 || r == 1,
            r == 1 ==> final(self).current() is Some,
            final(self).document() == old(self).document(),
    {
        proof {
            use_type_invariant(&*self);
        }
        self.attr = None;
        if self.eof {
            return 0;
        }
        if !self.started {
            self.started = true;
            let first = self.doc.first_child(NodeId::document());
            proof {
                assert(self.doc.nodes()[0].links_ok(self.doc.nodes().len()));
            }
            match first {
                Some(id) => {
                    self.cur = Some(Cursor { id, end: false });
                    return 1;
                },
                None => {
                    self.eof = true;
                    return 0;
                },
            }
        }
        let c = match self.cur {
            Some(c) => c,
            None => {
                self.eof = true;
                return 0;
            },
        };
        proof {
            assert(self.doc.nodes()[c.id.0 as int].links_ok(self.doc.nodes().len()));
        }
        if !c.end && self.doc.kind(c.id) == NodeKind::Element {
            match self.doc.first_child(c.id) {
                Some(ch) => {
                    self.cur = Some(Cursor { id: ch, end: false });
                    return 1;
                },
                None => {},
            }
        }
        self.advance_after(c.id)
    }

    fn advance_after(&mut self, id: NodeId) -> (r: i32)
        requires
            old(self).doc.has(id),
            old(self).started,
            !old(self).eof,
            old(self).attr is None,
        ensures
            (final(self).begun(), final(self).finished(), final(self).cursor(), r) == (match next_after(old(self).document(), id) {
                Some(n) => (true, false, Some(n), 1i32),
                None => (true, true, None, 0i32),
            }),
            final(self).on_attr() is None,
            r == 0 || r == 1,
            r == 1 ==> final(self).current() is Some,
            final(self).document() == old(self).document(),
    {
        proof {
            use_type_invariant(&*self);
            assert(self.doc.nodes()[id.0 as int].links_ok(self.doc.nodes().len()));
        }
        match self.doc.next_sibling(id) {
            Some(n) => {
                self.cur = Some(Cursor { id: n, end: false });
                return 1;
            },
            None => {},
        }
        match self.doc.parent(id) {
            Some(p) => {
                if p.0 != 0 && self.doc.kind(p) == NodeKind::Element {
                    self.cur = Some(Cursor { id: p, end: true });
                    return 1;
                }
            },
            None => {},
        }
        self.eof = true;
        self.cur = None;
        0
    }

    /// The type of the current node.
    pub fn node_type(&self) -> (r: ReaderType)
        ensures
            self.current() is None ==> r == ReaderType::NoType,
            self.current() matches Some(id) ==> r == reader_type_of(
                self.document(),
                id,
                self.at_end(),
                self.document().nodes()[id.0 as int].kind == NodeKind::Text
                    && crate::tree::all_blank_bytes(vstd::utf8::encode_utf8(self.document().nodes()[id.0 as int].content@)),
            ),
    {
        proof {
            use_type_invariant(self);
        }
        match self.cur {
            None => ReaderType::NoType,
            Some(c) => {
                if c.end {
                    return ReaderType::EndElement;
                }
                match self.doc.kind(c.id) {
                    NodeKind::Element => ReaderType::Element,
                    NodeKind::Attribute => ReaderType::Attribute,
                    NodeKind::Text => {
                        if self.doc.xml_is_blank_node(c.id) {
                            ReaderType::SignificantWhitespace
                        } else {
                            ReaderType::Text
                        }
                    },
                    NodeKind::CData => ReaderType::CData,
                    NodeKind::Pi => ReaderType::ProcessingInstruction,
                    NodeKind::Comment => ReaderType::Comment,
                    NodeKind::Document => ReaderType::Document,
                    _ => ReaderType::NoType,
                }
            },
        }
    }

    /// Ancestors between the current node and the document, capped to fit
    /// an `i32`.
    pub fn depth(&self) -> (r: i32)
        ensures
            self.current() is None ==> r == 0,
            self.current() matches Some(id) ==> r == cap_i32(ancestors(self.document(), id, self.document().nodes().len()) as int),
    {
        proof {
            use_type_invariant(self);
        }
        let mut d: i32 = 0;
        let mut id = match self.cur {
            Some(c) => c.id,
            None => {
                return 0;
            },
        };
        let ghost start = id;
        let ghost mut k: nat = 0;
        let mut fuel = self.doc.len();
        while fuel > 0
            invariant
                self.doc.wf(),
                self.doc.has(id),
                ancestors(self.doc, start, self.doc.nodes().len()) == k + ancestors(self.doc, id, fuel as nat),
                d == cap_i32(k as int),
            ensures
                ancestors(self.doc, start, self.doc.nodes().len()) == k,
                d == cap_i32(k as int),
            decreases fuel,
        {
            proof {
                assert(self.doc.nodes()[id.0 as int].links_ok(self.doc.nodes().len()));
            }
            match self.doc.parent(id) {
                None => {
                    break;
                },
                Some(p) => {
                    if p.0 == 0 {
                        break;
                    }
                    if d < i32::MAX {
                        d += 1;
                    }
                    proof {
                        k = k + 1;
                    }
                    id = p;
                },
            }
            fuel -= 1;
        }
        d
    }

    /// The current node is an element with no children.
    pub fn is_empty_element(&self) -> (r: bool)
        ensures
            r == (self.current() is Some && !self.at_end()
                && self.document().nodes()[self.current().unwrap().0 as int].kind == NodeKind::Element
                && self.document().nodes()[self.current().unwrap().0 as int].first_child is None),
    {
        proof {
            use_type_invariant(self);
        }
        match self.cur {
            Some(c) => !c.end && self.doc.kind(c.id) == NodeKind::Element && self.doc.first_child(c.id).is_none(),
            None => false,
        }
    }

    /// The local name of the current node.
    pub fn local_name(&self) -> (r: Option<&str>)
        ensures
            self.current() is None ==> r is None,
            self.current() matches Some(id) ==> r matches Some(s) && s@ == crate::tree::node_name(
                self.document().nodes()[id.0 as int],
            ),
    {
        proof {
            use_type_invariant(self);
        }
        match self.cur {
            Some(c) => Some(self.doc.name(c.id)),
            None => None,
        }
    }

    /// The namespace prefix of the current node.
    pub fn prefix(&self) -> (r: Option<&str>)
        ensures
            self.current() is None ==> r is None,
            self.current() matches Some(id) ==> crate::tree::opt_str_view(r) == crate::tree::opt_string_view(
                self.document().nodes()[id.0 as int].prefix,
            ),
    {
        proof {
            use_type_invariant(self);
        }
        match self.cur {
            Some(c) => self.doc.prefix(c.id),
            None => None,
        }
    }

    /// The namespace URI of the current node.
    pub fn namespace_uri(&self) -> (r: Option<&str>)
        ensures
            self.current() is None ==> r is None,
            self.current() matches Some(id) ==> crate::tree::opt_str_view(r) == crate::tree::opt_string_view(
                self.document().nodes()[id.0 as int].ns_uri,
            ),
    {
        proof {
            use_type_invariant(self);
        }
        match self.cur {
            Some(c) => self.doc.ns_uri(c.id),
            None => None,
        }
    }

    /// The value of the current attribute, or of the current text, CDATA,
    /// comment or PI node.
    pub fn value(&self) -> (r: Option<&str>)
        ensures
            crate::tree::opt_str_view(r) == (match self.on_attr() {
                Some(a) => Some(self.document().nodes()[a.0 as int].content@),
                None => match self.cursor() {
                    Some((id, end)) => if !end && crate::tree::is_leaf_kind(self.document().nodes()[id.0 as int].kind)
                        && self.document().nodes()[id.0 as int].kind != NodeKind::Attribute {
                        Some(self.document().nodes()[id.0 as int].content@)
                    } else {
                        None
                    },
                    None => None,
                },
            }),
    {
        proof {
            use_type_invariant(self);
        }
        match self.attr {
            Some(a) => {
                return Some(self.doc.content(a));
            },
            None => {},
        }
        match self.cur {
            Some(c) => {
                if c.end {
                    return None;
                }
                match self.doc.kind(c.id) {
                    NodeKind::Text | NodeKind::CData | NodeKind::Comment | NodeKind::Pi => Some(self.doc.content(c.id)),
                    _ => None,
                }
            },
            None => None,
        }
    }

    /// The qualified name of the current node.
    pub fn name(&self) -> (r: Option<String>)
        ensures
            self.current() is None ==> r is None,
            self.current() matches Some(id) ==> r matches Some(s) && s@ == crate::valid::qname_of(self.document().nodes()[id.0 as int]),
    {
        proof {
            use_type_invariant(self);
        }
        match self.cur {
            Some(c) => Some(self.doc.qname(c.id)),
            None => None,
        }
    }

    /// How many attributes the current element carries.
    pub fn attribute_count(&self) -> (r: i32)
        ensures
            r == self.attribute_count_spec(),
            r >= 0,
    {
        proof {
            use_type_invariant(self);
        }
        match self.cur {
            Some(c) => {
                if c.end || self.doc.kind(c.id) != NodeKind::Element {
                    return 0;
                }
                let n = self.doc.attrs(c.id).len();
                if n > 0x7fff_ffff {
                    0x7fff_ffff
                } else {
                    n as i32
                }
            },
            None => 0,
        }
    }

    /// How many attributes the current element carries, capped to fit an
    /// `i32`; none off an element's start.
    pub closed spec fn attribute_count_spec(&self) -> int {
        match self.cursor() {
            Some((id, end)) => if !end && self.doc.nodes()[id.0 as int].kind == NodeKind::Element {
                cap_i32(crate::tree::chain_of(self.doc.nodes(), self.doc.nodes()[id.0 as int].first_attr, self.doc.nodes().len()).len() as int)
            } else {
                0
            },
            None => 0,
        }
    }

    /// The current element carries attributes.
    pub fn has_attributes(&self) -> (r: bool)
        ensures
            r == (self.attribute_count_spec() > 0),
    {
        self.attribute_count() > 0
    }

    /// `xmlTextReaderGetAttribute`: the value of the unprefixed attribute `name`.
    pub fn get_attribute(&self, name: &str) -> (r: Option<String>)
        ensures
            (self.current() is None || self.at_end()) ==> r is None,
            self.current() is Some && !self.at_end() ==> crate::tree::opt_string_view(r) == (match crate::tree::prop_of(self.document(), self.current().unwrap(), name@) {
                Some(a) => Some(self.document().nodes()[a.0 as int].content@),
                None => None,
            }),
    {
        proof {
            use_type_invariant(self);
        }
        match self.cur {
            Some(c) => {
                if c.end {
                    return None;
                }
                self.doc.xml_get_prop(c.id, name)
            },
            None => None,
        }
    }

    /// `xmlTextReaderMoveToFirstAttribute`.
    pub fn move_to_first_attribute(&mut self) -> (r: i32)
        ensures
            r == 0 || r == 1,
            r == 1 <==> (old(self).cursor() matches Some((id, end)) && !end && old(self).document().nodes()[id.0 as int].first_attr is Some),
            r == 1 ==> final(self).on_attr() == old(self).document().nodes()[old(self).current().unwrap().0 as int].first_attr,
            r == 0 ==> final(self).on_attr() == old(self).on_attr(),
            final(self).document() == old(self).document(),
            final(self).current() == old(self).current(),
            final(self).cursor() == old(self).cursor(),
            final(self).begun() == old(self).begun(),
            final(self).finished() == old(self).finished(),
    {
        proof {
            use_type_invariant(&*self);
        }
        let c = match self.cur {
            Some(c) => c,
            None => {
                return 0;
            },
        };
        if c.end {
            return 0;
        }
        proof {
            assert(self.doc.nodes()[c.id.0 as int].links_ok(self.doc.nodes().len()));
        }
        match self.doc.first_attr(c.id) {
            Some(a) => {
                self.attr = Some(a);
                1
            },
            None => 0,
        }
    }

    /// `xmlTextReaderMoveToNextAttribute`.
    pub fn move_to_next_attribute(&mut self) -> (r: i32)
        ensures
            r == 0 || r == 1,
            old(self).on_attr() matches Some(a) ==> (match old(self).document().nodes()[a.0 as int].next_sibling {
                Some(n) => r == 1 && final(self).on_attr() == Some(n),
                None => r == 0 && final(self).on_attr() == old(self).on_attr(),
            }),
            old(self).on_attr() is None ==> (r == 1 <==> (old(self).cursor() matches Some((id, end)) && !end
                && old(self).document().nodes()[id.0 as int].first_attr is Some)),
            old(self).on_attr() is None && r == 1 ==> final(self).on_attr() == old(self).document().nodes()[old(self).current().unwrap().0 as int].first_attr,
            final(self).document() == old(self).document(),
            final(self).current() == old(self).current(),
            final(self).cursor() == old(self).cursor(),
            final(self).begun() == old(self).begun(),
            final(self).finished() == old(self).finished(),
    {
        proof {
            use_type_invariant(&*self);
        }
        match self.attr {
            Some(a) => {
                proof {
                    assert(self.doc.nodes()[a.0 as int].links_ok(self.doc.nodes().len()));
                }
                match self.doc.next_sibling(a) {
                    Some(n) => {
                        self.attr = Some(n);
                        1
                    },
                    None => 0,
                }
            },
            None => self.move_to_first_attribute(),
        }
    }

    /// `xmlTextReaderMoveToElement`: back from an attribute to its element.
    pub fn move_to_element(&mut self) -> (r: i32)
        ensures
            r == (if old(self).on_attr() is Some { 1i32 } else { 0i32 }),
            final(self).on_attr() is None,
            final(self).document() == old(self).document(),
            final(self).current() == old(self).current(),
            final(self).cursor() == old(self).cursor(),
            final(self).begun() == old(self).begun(),
            final(self).finished() == old(self).finished(),
    {
        proof {
            use_type_invariant(&*self);
        }
        if self.attr.is_some() {
            self.attr = None;
            1
        } else {
            0
        }
    }

    /// The document being read.
    pub fn doc(&self) -> (r: &XmlDoc)
        ensures
            *r == self.document(),
            r.wf(),
    {
        proof {
            use_type_invariant(self);
        }
        &self.doc
    }
}

/// `xmlReaderForMemory`.
pub fn xml_reader_for_memory(buffer: &[u8], url: Option<&str>, encoding: Option<&str>, options: i32) -> (r: Result<XmlTextReader, XmlError>)
    ensures
        r matches Ok(x) ==> x.cursor() is None && !x.begun() && !x.finished() && x.on_attr() is None,
        r matches Ok(x) ==> x.current() is None,
        !crate::parse::has_opt(options, crate::parse::XML_PARSE_RECOVER)
            ==> (r matches Ok(x) ==> crate::parse::has_root_element(x.document())),
        crate::parse::lone_empty_element(buffer@) && crate::encoding::passes_through(
                crate::encoding::chosen_encoding(buffer@, crate::tree::opt_str_view(encoding)),
            ) && !crate::parse::has_opt(options, crate::parse::XML_PARSE_OLD10) ==> (r matches Ok(x)
                && crate::parse::lone_element_doc(x.document(), crate::parse::ascii_text(buffer@, 1, buffer@.len() - 2))),
        crate::parse::lone_text_element(buffer@) && crate::encoding::passes_through(
            crate::encoding::chosen_encoding(buffer@, crate::tree::opt_str_view(encoding)),
        ) && !crate::parse::has_opt(options, crate::parse::XML_PARSE_OLD10)
            && !crate::parse::has_opt(options, crate::parse::XML_PARSE_NO_TREE)
            && !crate::parse::has_opt(options, crate::parse::XML_PARSE_NOBLANKS) ==> (r matches Ok(x)
            && crate::parse::text_element_doc(x.document(), crate::parse::ascii_text(buffer@, 1,
            crate::parse::letters_end(buffer@, 1)), crate::parse::lone_text(buffer@))),
{
    XmlTextReader::xml_reader_for_memory(buffer, url, encoding, options)
}

/// `xmlReaderForDoc`.
pub fn xml_reader_for_doc(cur: &str, url: Option<&str>, encoding: Option<&str>, options: i32) -> (r: Result<XmlTextReader, XmlError>)
    ensures
        r matches Ok(x) ==> x.cursor() is None && !x.begun() && !x.finished() && x.on_attr() is None,
        r matches Ok(x) ==> x.current() is None,
        !crate::parse::has_opt(options, crate::parse::XML_PARSE_RECOVER)
            ==> (r matches Ok(x) ==> crate::parse::has_root_element(x.document())),
{
    xml_reader_for_memory(cur.as_bytes(), url, encoding, options)
}

} // verus!
