//! SAX2 events, the handler trait, a recorder, and the `xmllint --sax`
//! debug dump of recorded events.

use vstd::prelude::*;
use vstd::utf8::*;
use crate::util::{decimal_chars, signed_decimal_chars, push_decimal_str, i64_to_string, push_char};

verus! {

/// Attribute as delivered to `startElementNs`. Two attributes are equal when
/// they agree on everything but `value_input_off`.
#[derive(Clone, Debug)]
pub struct SaxAttr {
    pub local: String,
    pub prefix: Option<String>,
    pub uri: Option<String>,
    pub value: String,
    /// Byte offset in the original input of the first value character (after
    /// the quote). Used only to reproduce xmllint's `%.4s` debug print.
    pub value_input_off: Option<usize>,
}

/// One SAX2 callback as recorded.
#[derive(Clone, Debug, PartialEq, Eq)]
pub enum SaxEvent {
    SetDocumentLocator,
    StartDocument,
    EndDocument,
    StartElementNs {
        local: String,
        prefix: Option<String>,
        uri: Option<String>,
        namespaces: Vec<(Option<String>, String)>,
        attributes: Vec<SaxAttr>,
        nb_defaulted: i32,
    },
    EndElementNs { local: String, prefix: Option<String>, uri: Option<String> },
    Characters { data: String },
    CData { data: String },
    Comment(String),
    ProcessingInstruction { target: String, data: Option<String> },
    Warning(String),
    Error(String),
}

/// The text `String::from_utf8_lossy` makes of `b`.
pub uninterp spec fn utf8_lossy_of(b: Seq<u8>) -> Seq<char>;

/// `String::from_utf8_lossy`: the bytes as text, each invalid sequence
/// replaced by U+FFFD. Claimed: the result depends on the bytes alone, and
/// well-formed UTF-8 comes back as exactly the characters it encodes.
#[verifier::external_body]
pub(crate) fn utf8_lossy(b: &[u8]) -> (r: String)
    ensures
        r@ == utf8_lossy_of(b@),
        valid_utf8(b@) ==> r@ == decode_utf8(b@),
{
    String::from_utf8_lossy(b).into_owned()
}

/// At most the first `n` bytes of `s`, as text.
pub open spec fn trunc_chars(s: Seq<char>, n: int) -> Seq<char> {
    let b = encode_utf8(s);
    utf8_lossy_of(b.subrange(0, if b.len() < n { b.len() as int } else { n }))
}

fn trunc_bytes(s: &str, n: usize) -> (r: String)
    ensures
        r@ == trunc_chars(s@, n as int),
{
    let b = s.as_bytes();
    let k = if b.len() < n { b.len() } else { n };
    utf8_lossy(&b[0..k])
}

/// `NULL` or the name.
pub open spec fn opt_name_chars(p: Option<String>) -> Seq<char> {
    match p {
        None => "NULL"@,
        Some(s) => s@,
    }
}

/// `NULL` or the URI in single quotes.
pub open spec fn opt_uri_chars(u: Option<String>) -> Seq<char> {
    match u {
        None => "NULL"@,
        Some(s) => "'"@ + s@ + "'"@,
    }
}

/// One namespace of a start-element line.
pub open spec fn ns_item_chars(n: (Option<String>, String)) -> Seq<char> {
    ", xmlns"@ + (match n.0 {
        Some(p) => ":"@ + p@,
        None => seq![],
    }) + "='"@ + n.1@ + "'"@
}

/// The namespaces of a start-element line.
pub open spec fn ns_list_chars(ns: Seq<(Option<String>, String)>) -> Seq<char>
    decreases ns.len(),
{
    if ns.len() == 0 {
        seq![]
    } else {
        ns_list_chars(ns.drop_last()) + ns_item_chars(ns.last())
    }
}

/// The first four bytes of an attribute value as xmllint prints them: read
/// from the input at the value's offset when it has one.
pub open spec fn four_chars(a: SaxAttr, input: Seq<u8>) -> Seq<char> {
    match a.value_input_off {
        Some(off) => if off < input.len() {
            utf8_lossy_of(input.subrange(off as int, if off + 4 < input.len() { off + 4 } else { input.len() as int }))
        } else {
            trunc_chars(a.value@, 4)
        },
        None => trunc_chars(a.value@, 4),
    }
}

/// One attribute of a start-element line.
pub open spec fn attr_item_chars(a: SaxAttr, input: Seq<u8>) -> Seq<char> {
    ", "@ + (match a.prefix {
        Some(p) => p@ + ":"@,
        None => seq![],
    }) + a.local@ + "='"@ + four_chars(a, input) + "...', "@ + decimal_chars(encode_utf8(a.value@).len())
}

/// The attributes of a start-element line.
pub open spec fn attr_list_chars(attrs: Seq<SaxAttr>, input: Seq<u8>) -> Seq<char>
    decreases attrs.len(),
{
    if attrs.len() == 0 {
        seq![]
    } else {
        attr_list_chars(attrs.drop_last(), input) + attr_item_chars(attrs.last(), input)
    }
}

/// The line pinned `xmllint --sax` prints for one event.
pub open spec fn xmllint_line(ev: SaxEvent, input: Seq<u8>) -> Seq<char> {
    match ev {
        SaxEvent::SetDocumentLocator => "SAX.setDocumentLocator()\n"@,
        SaxEvent::StartDocument => "SAX.startDocument()\n"@,
        SaxEvent::EndDocument => "SAX.endDocument()\n"@,
        SaxEvent::StartElementNs { local, prefix, uri, namespaces, attributes, nb_defaulted } =>
            "SAX.startElementNs("@ + local@ + ", "@ + opt_name_chars(prefix) + ", "@ + opt_uri_chars(uri)
            + ", "@ + decimal_chars(namespaces@.len()) + ns_list_chars(namespaces@) + ", "@
            + decimal_chars(attributes@.len()) + ", "@ + signed_decimal_chars(nb_defaulted as int)
            + attr_list_chars(attributes@, input) + ")\n"@,
        SaxEvent::EndElementNs { local, prefix, uri } => "SAX.endElementNs("@ + local@ + ", "@
            + opt_name_chars(prefix) + ", "@ + opt_uri_chars(uri) + ")\n"@,
        SaxEvent::Characters { data } => "SAX.characters("@ + trunc_chars(data@, 30) + ", "@
            + decimal_chars(encode_utf8(data@).len()) + ")\n"@,
        SaxEvent::CData { data } => "SAX.pcdata("@ + trunc_chars(data@, 20) + ", "@ + decimal_chars(
            encode_utf8(data@).len(),
        ) + ")\n"@,
        SaxEvent::Comment(c) => "SAX.comment("@ + c@ + ")\n"@,
        SaxEvent::ProcessingInstruction { target, data } => match data {
            Some(d) => "SAX.processingInstruction("@ + target@ + ", "@ + d@ + ")\n"@,
            None => "SAX.processingInstruction("@ + target@ + ", NULL)\n"@,
        },
        SaxEvent::Warning(m) => "SAX.warning: "@ + m@,
        SaxEvent::Error(m) => "SAX.error: "@ + m@,
    }
}

fn push_opt_name(s: &mut String, p: &Option<String>)
    ensures
        final(s)@ == old(s)@ + opt_name_chars(*p),
{
    match p {
        None => s.append("NULL"),
        Some(x) => s.append(x.as_str()),
    }
}

fn push_opt_uri(s: &mut String, u: &Option<String>)
    ensures
        final(s)@ == old(s)@ + opt_uri_chars(*u),
{
    match u {
        None => s.append("NULL"),
        Some(x) => {
            s.append("'");
            s.append(x.as_str());
            s.append("'");
            assert(s@ =~= old(s)@ + ("'"@ + x@ + "'"@));
        },
    }
}

fn push_len(s: &mut String, n: usize)
    ensures
        final(s)@ == old(s)@ + decimal_chars(n as nat),
{
    push_decimal_str(s, n as u64);
}

fn push_namespaces(s: &mut String, ns: &Vec<(Option<String>, String)>)
    ensures
        final(s)@ == old(s)@ + ns_list_chars(ns@),
{
    let mut i: usize = 0;
    while i < ns.len()
        invariant
            i <= ns.len(),
            s@ == old(s)@ + ns_list_chars(ns@.subrange(0, i as int)),
        decreases ns.len() - i,
    {
        let ghost before = s@;
        s.append(", xmlns");
        match &ns[i].0 {
            Some(p) => {
                s.append(":");
                s.append(p.as_str());
            },
            None => {},
        }
        s.append("='");
        s.append(ns[i].1.as_str());
        s.append("'");
        proof {
            let item = ns@[i as int];
            assert(ns@.subrange(0, i + 1).drop_last() =~= ns@.subrange(0, i as int));
            assert(ns@.subrange(0, i + 1).last() == item);
            if item.0 is Some {
                assert(s@ =~= before + ns_item_chars(item));
            } else {
                assert(s@ =~= before + ns_item_chars(item));
            }
            assert(s@ =~= old(s)@ + ns_list_chars(ns@.subrange(0, i + 1)));
        }
        i += 1;
    }
    assert(ns@.subrange(0, ns@.len() as int) =~= ns@);
}

fn push_attr(s: &mut String, a: &SaxAttr, input: &[u8])
    ensures
        final(s)@ == old(s)@ + attr_item_chars(*a, input@),
{
    s.append(", ");
    match &a.prefix {
        Some(p) => {
            s.append(p.as_str());
            s.append(":");
        },
        None => {},
    }
    s.append(a.local.as_str());
    s.append("='");
    let four = match a.value_input_off {
        Some(off) => {
            if off < input.len() {
                let end = if input.len() - off > 4 { off + 4 } else { input.len() };
                utf8_lossy(&input[off..end])
            } else {
                trunc_bytes(a.value.as_str(), 4)
            }
        },
        None => trunc_bytes(a.value.as_str(), 4),
    };
    s.append(four.as_str());
    s.append("...', ");
    push_len(s, a.value.as_str().as_bytes().len());
    proof {
        if a.prefix is Some {
            assert(s@ =~= old(s)@ + attr_item_chars(*a, input@));
        } else {
            assert(s@ =~= old(s)@ + attr_item_chars(*a, input@));
        }
    }
}

fn push_attrs(s: &mut String, attrs: &Vec<SaxAttr>, input: &[u8])
    ensures
        final(s)@ == old(s)@ + attr_list_chars(attrs@, input@),
{
    let mut i: usize = 0;
    while i < attrs.len()
        invariant
            i <= attrs.len(),
            s@ == old(s)@ + attr_list_chars(attrs@.subrange(0, i as int), input@),
        decreases attrs.len() - i,
    {
        push_attr(s, &attrs[i], input);
        proof {
            assert(attrs@.subrange(0, i + 1).drop_last() =~= attrs@.subrange(0, i as int));
            assert(s@ =~= old(s)@ + attr_list_chars(attrs@.subrange(0, i + 1), input@));
        }
        i += 1;
    }
    assert(attrs@.subrange(0, attrs@.len() as int) =~= attrs@);
}

/// Format one event the way pinned `xmllint --sax` prints it.
pub fn event_to_xmllint_debug(ev: &SaxEvent, input: &[u8]) -> (r: String)
    ensures
        r@ == xmllint_line(*ev, input@),
{
    let mut s = String::new();
    match ev {
        SaxEvent::SetDocumentLocator => s.append("SAX.setDocumentLocator()\n"),
        SaxEvent::StartDocument => s.append("SAX.startDocument()\n"),
        SaxEvent::EndDocument => s.append("SAX.endDocument()\n"),
        SaxEvent::StartElementNs { local, prefix, uri, namespaces, attributes, nb_defaulted } => {
            s.append("SAX.startElementNs(");
            s.append(local.as_str());
            s.append(", ");
            push_opt_name(&mut s, prefix);
            s.append(", ");
            push_opt_uri(&mut s, uri);
            s.append(", ");
            push_len(&mut s, namespaces.len());
            push_namespaces(&mut s, namespaces);
            s.append(", ");
            push_len(&mut s, attributes.len());
            s.append(", ");
            let d = i64_to_string(*nb_defaulted as i64);
            s.append(d.as_str());
            push_attrs(&mut s, attributes, input);
            s.append(")\n");
        },
        SaxEvent::EndElementNs { local, prefix, uri } => {
            s.append("SAX.endElementNs(");
            s.append(local.as_str());
            s.append(", ");
            push_opt_name(&mut s, prefix);
            s.append(", ");
            push_opt_uri(&mut s, uri);
            s.append(")\n");
        },
        SaxEvent::Characters { data } => {
            s.append("SAX.characters(");
            let t = trunc_bytes(data.as_str(), 30);
            s.append(t.as_str());
            s.append(", ");
            push_len(&mut s, data.as_str().as_bytes().len());
            s.append(")\n");
        },
        SaxEvent::CData { data } => {
            s.append("SAX.pcdata(");
            let t = trunc_bytes(data.as_str(), 20);
            s.append(t.as_str());
            s.append(", ");
            push_len(&mut s, data.as_str().as_bytes().len());
            s.append(")\n");
        },
        SaxEvent::Comment(c) => {
            s.append("SAX.comment(");
            s.append(c.as_str());
            s.append(")\n");
        },
        SaxEvent::ProcessingInstruction { target, data } => {
            s.append("SAX.processingInstruction(");
            s.append(target.as_str());
            match data {
                Some(d) => {
                    s.append(", ");
                    s.append(d.as_str());
                    s.append(")\n");
                },
                None => s.append(", NULL)\n"),
            }
        },
        SaxEvent::Warning(m) => {
            s.append("SAX.warning: ");
            s.append(m.as_str());
        },
        SaxEvent::Error(m) => {
            s.append("SAX.error: ");
            s.append(m.as_str());
        },
    }
    assert(s@ =~= xmllint_line(*ev, input@));
    s
}


fn opt_string_eq(a: &Option<String>, b: &Option<String>) -> (r: bool)
    ensures
        r == (crate::tree::opt_string_view(*a) == crate::tree::opt_string_view(*b)),
{
    match (a, b) {
        (None, None) => true,
        (Some(x), Some(y)) => crate::util::str_eq(x.as_str(), y.as_str()),
        _ => false,
    }
}

impl PartialEq for SaxAttr {
    fn eq(&self, other: &Self) -> (r: bool) {
        crate::util::str_eq(self.local.as_str(), other.local.as_str()) && opt_string_eq(
            &self.prefix,
            &other.prefix,
        ) && opt_string_eq(&self.uri, &other.uri) && crate::util::str_eq(
            self.value.as_str(),
            other.value.as_str(),
        )
    }
}

impl vstd::std_specs::cmp::PartialEqSpecImpl for SaxAttr {
    open spec fn obeys_eq_spec() -> bool {
        true
    }

    open spec fn eq_spec(&self, other: &SaxAttr) -> bool {
        &&& self.local@ == other.local@
        &&& crate::tree::opt_string_view(self.prefix) == crate::tree::opt_string_view(other.prefix)
        &&& crate::tree::opt_string_view(self.uri) == crate::tree::opt_string_view(other.uri)
        &&& self.value@ == other.value@
    }
}

impl Eq for SaxAttr {}

/// SAX2 handler. Every method has a no-op default, so a handler overrides
/// the callbacks it wants.
pub trait SaxHandler {
    fn set_document_locator(&mut self) {
    }

    fn start_document(&mut self) {
    }

    fn end_document(&mut self) {
    }

    fn start_element_ns(
        &mut self,
        local: &str,
        prefix: Option<&str>,
        uri: Option<&str>,
        namespaces: &[(Option<String>, String)],
        attributes: &[SaxAttr],
        nb_defaulted: i32,
    ) {
    }

    fn end_element_ns(&mut self, local: &str, prefix: Option<&str>, uri: Option<&str>) {
    }

    fn characters(&mut self, data: &str) {
    }

    fn cdata_block(&mut self, data: &str) {
    }

    fn comment(&mut self, data: &str) {
    }

    fn processing_instruction(&mut self, target: &str, data: Option<&str>) {
    }

    fn warning(&mut self, msg: &str) {
    }

    fn error(&mut self, msg: &str) {
    }
}

/// A handler that discards every callback.
#[derive(Clone, Copy, Debug, Default)]
pub struct NullSax;

impl SaxHandler for NullSax {

}

/// Records every callback.
#[derive(Clone, Debug, Default)]
pub struct SaxRecorder {
    pub events: Vec<SaxEvent>,
}

fn opt_owned(o: Option<&str>) -> (r: Option<String>)
    ensures
        crate::tree::opt_string_view(r) == crate::tree::opt_str_view(o),
{
    match o {
        Some(s) => Some(String::from_str(s)),
        None => None,
    }
}

fn slice_to_vec_clone<T: Clone>(s: &[T]) -> (r: Vec<T>)
    ensures
        r@.len() == s@.len(),
        forall|i: int| 0 <= i < s@.len() ==> cloned::<T>(s@[i], #[trigger] r@[i]),
{
    let mut v: Vec<T> = Vec::new();
    let mut i: usize = 0;
    while i < s.len()
        invariant
            i <= s.len(),
            v@.len() == i,
            forall|j: int| 0 <= j < i ==> cloned::<T>(s@[j], #[trigger] v@[j]),
        decreases s.len() - i,
    {
        v.push(s[i].clone());
        i += 1;
    }
    v
}

impl SaxHandler for SaxRecorder {
    fn set_document_locator(&mut self)
        ensures
            final(self).events@ == old(self).events@.push(SaxEvent::SetDocumentLocator),
    {
        self.events.push(SaxEvent::SetDocumentLocator);
    }

    fn start_document(&mut self)
        ensures
            final(self).events@ == old(self).events@.push(SaxEvent::StartDocument),
    {
        self.events.push(SaxEvent::StartDocument);
    }

    fn end_document(&mut self)
        ensures
            final(self).events@ == old(self).events@.push(SaxEvent::EndDocument),
    {
        self.events.push(SaxEvent::EndDocument);
    }

    fn start_element_ns(
        &mut self,
        local: &str,
        prefix: Option<&str>,
        uri: Option<&str>,
        namespaces: &[(Option<String>, String)],
        attributes: &[SaxAttr],
        nb_defaulted: i32,
    )
        ensures
            final(self).events@.len() == old(self).events@.len() + 1,
            final(self).events@.subrange(0, old(self).events@.len() as int) == old(self).events@,
            final(self).events@.last() matches SaxEvent::StartElementNs {
                local: l,
                prefix: p,
                uri: u,
                namespaces: ns,
                attributes: at,
                nb_defaulted: nd,
            } && l@ == local@ && crate::tree::opt_string_view(p) == crate::tree::opt_str_view(prefix)
                && crate::tree::opt_string_view(u) == crate::tree::opt_str_view(uri)
                && ns@.len() == namespaces@.len() && at@.len() == attributes@.len() && nd == nb_defaulted,
    {
        self.events.push(
            SaxEvent::StartElementNs {
                local: String::from_str(local),
                prefix: opt_owned(prefix),
                uri: opt_owned(uri),
                namespaces: slice_to_vec_clone(namespaces),
                attributes: slice_to_vec_clone(attributes),
                nb_defaulted,
            },
        );
        assert(self.events@.subrange(0, old(self).events@.len() as int) =~= old(self).events@);
    }

    fn end_element_ns(&mut self, local: &str, prefix: Option<&str>, uri: Option<&str>)
        ensures
            final(self).events@.len() == old(self).events@.len() + 1,
            final(self).events@.subrange(0, old(self).events@.len() as int) == old(self).events@,
            final(self).events@.last() matches SaxEvent::EndElementNs { local: l, prefix: p, uri: u }
                && l@ == local@ && crate::tree::opt_string_view(p) == crate::tree::opt_str_view(prefix)
                && crate::tree::opt_string_view(u) == crate::tree::opt_str_view(uri),
    {
        self.events.push(
            SaxEvent::EndElementNs {
                local: String::from_str(local),
                prefix: opt_owned(prefix),
                uri: opt_owned(uri),
            },
        );
        assert(self.events@.subrange(0, old(self).events@.len() as int) =~= old(self).events@);
    }

    fn characters(&mut self, data: &str)
        ensures
            final(self).events@.len() == old(self).events@.len() + 1,
            final(self).events@.subrange(0, old(self).events@.len() as int) == old(self).events@,
            final(self).events@.last() matches SaxEvent::Characters { data: d } && d@ == data@,
    {
        self.events.push(SaxEvent::Characters { data: String::from_str(data) });
        assert(self.events@.subrange(0, old(self).events@.len() as int) =~= old(self).events@);
    }

    fn cdata_block(&mut self, data: &str)
        ensures
            final(self).events@.len() == old(self).events@.len() + 1,
            final(self).events@.subrange(0, old(self).events@.len() as int) == old(self).events@,
            final(self).events@.last() matches SaxEvent::CData { data: d } && d@ == data@,
    {
        self.events.push(SaxEvent::CData { data: String::from_str(data) });
        assert(self.events@.subrange(0, old(self).events@.len() as int) =~= old(self).events@);
    }

    fn comment(&mut self, data: &str)
        ensures
            final(self).events@.len() == old(self).events@.len() + 1,
            final(self).events@.subrange(0, old(self).events@.len() as int) == old(self).events@,
            final(self).events@.last() matches SaxEvent::Comment(d) && d@ == data@,
    {
        self.events.push(SaxEvent::Comment(String::from_str(data)));
        assert(self.events@.subrange(0, old(self).events@.len() as int) =~= old(self).events@);
    }

    fn processing_instruction(&mut self, target: &str, data: Option<&str>)
        ensures
            final(self).events@.len() == old(self).events@.len() + 1,
            final(self).events@.subrange(0, old(self).events@.len() as int) == old(self).events@,
            final(self).events@.last() matches SaxEvent::ProcessingInstruction { target: t, data: d }
                && t@ == target@ && crate::tree::opt_string_view(d) == crate::tree::opt_str_view(data),
    {
        self.events.push(
            SaxEvent::ProcessingInstruction { target: String::from_str(target), data: opt_owned(data) },
        );
        assert(self.events@.subrange(0, old(self).events@.len() as int) =~= old(self).events@);
    }

    fn warning(&mut self, msg: &str)
        ensures
            final(self).events@.len() == old(self).events@.len() + 1,
            final(self).events@.subrange(0, old(self).events@.len() as int) == old(self).events@,
            final(self).events@.last() matches SaxEvent::Warning(m) && m@ == msg@,
    {
        self.events.push(SaxEvent::Warning(String::from_str(msg)));
        assert(self.events@.subrange(0, old(self).events@.len() as int) =~= old(self).events@);
    }

    fn error(&mut self, msg: &str)
        ensures
            final(self).events@.len() == old(self).events@.len() + 1,
            final(self).events@.subrange(0, old(self).events@.len() as int) == old(self).events@,
            final(self).events@.last() matches SaxEvent::Error(m) && m@ == msg@,
    {
        self.events.push(SaxEvent::Error(String::from_str(msg)));
        assert(self.events@.subrange(0, old(self).events@.len() as int) =~= old(self).events@);
    }
}

/// The dump of a whole event log.
pub open spec fn xmllint_dump(evs: Seq<SaxEvent>, input: Seq<u8>) -> Seq<char>
    decreases evs.len(),
{
    if evs.len() == 0 {
        seq![]
    } else {
        xmllint_dump(evs.drop_last(), input) + xmllint_line(evs.last(), input)
    }
}

impl SaxRecorder {
    /// An empty log.
    pub fn new() -> (r: Self)
        ensures
            r.events@.len() == 0,
    {
        SaxRecorder { events: Vec::new() }
    }

    /// Line-for-line dump matching xmllint's debug SAX handlers.
    pub fn to_xmllint_debug(&self, input: &[u8]) -> (r: String)
        ensures
            r@ == xmllint_dump(self.events@, input@),
    {
        let mut out = String::new();
        let mut i: usize = 0;
        while i < self.events.len()
            invariant
                i <= self.events.len(),
                out@ == xmllint_dump(self.events@.subrange(0, i as int), input@),
            decreases self.events.len() - i,
        {
            let line = event_to_xmllint_debug(&self.events[i], input);
            out.append(line.as_str());
            proof {
                assert(self.events@.subrange(0, i + 1).drop_last() =~= self.events@.subrange(0, i as int));
            }
            i += 1;
        }
        assert(self.events@.subrange(0, self.events@.len() as int) =~= self.events@);
        out
    }
}

/// `xmlSAX2InitDefaultSAXHandler`: a fresh recorder.
pub fn xml_sax2_init_default_sax_handler() -> (r: SaxRecorder)
    ensures
        r.events@.len() == 0,
{
    SaxRecorder::new()
}

/// `xmlSAXVersion`: this library speaks SAX2.
pub fn xml_sax_version() -> (r: i32)
    ensures
        r == 2,
{
    2
}

} // verus!
