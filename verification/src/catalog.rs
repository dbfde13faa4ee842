//! Local XML Catalogs (OASIS): public, system and URI entries and their
//! rewrite rules. Reading the catalog file is the caller's part.

use vstd::prelude::*;
use crate::tree::{XmlDoc, NodeId, NodeKind};
use crate::util::{push_char, str_eq};

verus! {

/// The OASIS catalog namespace.
pub const CATALOG_NS: &'static str = "urn:oasis:names:tc:entity:xmlns:xml:catalog";

/// A loaded catalog. For `public`, `system` and `uri` a later entry for the
/// same key overrides an earlier one; rewrite rules are tried in order.
#[derive(Clone, Debug)]
pub struct XmlCatalog {
    pub public: Vec<(String, String)>,
    pub system: Vec<(String, String)>,
    pub uri: Vec<(String, String)>,
    pub rewrite_system: Vec<(String, String)>,
    pub rewrite_uri: Vec<(String, String)>,
    pub next_catalog: Vec<String>,
}

/// The value of the last entry of `v` whose key is `key`.
pub open spec fn last_value(v: Seq<(String, String)>, key: Seq<char>) -> Option<Seq<char>>
    decreases v.len(),
{
    if v.len() == 0 {
        None
    } else if v.last().0@ == key {
        Some(v.last().1@)
    } else {
        last_value(v.drop_last(), key)
    }
}

/// The first rewrite rule of `v` whose prefix starts `s`, applied.
pub open spec fn rewrite(v: Seq<(String, String)>, s: Seq<char>) -> Option<Seq<char>>
    decreases v.len(),
{
    if v.len() == 0 {
        None
    } else if v[0].0@.len() <= s.len() && s.subrange(0, v[0].0@.len() as int) == v[0].0@ {
        Some(v[0].1@ + s.subrange(v[0].0@.len() as int, s.len() as int))
    } else {
        rewrite(v.drop_first(), s)
    }
}

/// The characters of `s`.
fn chars_of(s: &str) -> (r: Vec<char>)
    ensures
        r@ == s@,
{
    let mut v: Vec<char> = Vec::new();
    for c in it: s.chars()
        invariant
            it.seq() == s@,
            v@ == s@.take(it.index() as int),
    {
        proof {
            assert(s@.take(it.index() + 1) =~= s@.take(it.index() as int).push(c));
        }
        v.push(c);
    }
    assert(s@.take(s@.len() as int) =~= s@);
    v
}

fn find_last(v: &Vec<(String, String)>, key: &str) -> (r: Option<String>)
    ensures
        crate::tree::opt_string_view(r) == last_value(v@, key@),
{
    let mut k = v.len();
    assert(v@.take(k as int) =~= v@);
    while k > 0
        invariant
            k <= v@.len(),
            last_value(v@, key@) == last_value(v@.take(k as int), key@),
        decreases k,
    {
        proof {
            assert(v@.take(k as int).drop_last() =~= v@.take(k - 1));
        }
        if str_eq(v[k - 1].0.as_str(), key) {
            return Some(v[k - 1].1.clone());
        }
        k -= 1;
    }
    None
}

/// `s` begins with `p`, compared character by character.
fn starts_with_str(s: &str, p: &str) -> (r: bool)
    ensures
        r == (p@.len() <= s@.len() && s@.subrange(0, p@.len() as int) == p@),
{
    let a = chars_of(s);
    let b = chars_of(p);
    if b.len() > a.len() {
        return false;
    }
    let mut i: usize = 0;
    while i < b.len()
        invariant
            a@ == s@,
            b@ == p@,
            b@.len() <= a@.len(),
            i <= b@.len(),
            forall|k: int| 0 <= k < i ==> a@[k] == b@[k],
        decreases b.len() - i,
    {
        if a[i] != b[i] {
            return false;
        }
        i += 1;
    }
    assert(s@.subrange(0, p@.len() as int) =~= p@);
    true
}

/// `s` from character `n` on.
fn chars_from(s: &str, n: usize) -> (r: String)
    requires
        n <= s@.len(),
    ensures
        r@ == s@.subrange(n as int, s@.len() as int),
{
    let a = chars_of(s);
    let mut out = String::new();
    let mut i = n;
    while i < a.len()
        invariant
            a@ == s@,
            n <= i <= a@.len(),
            out@ == s@.subrange(n as int, i as int),
        decreases a.len() - i,
    {
        push_char(&mut out, a[i]);
        assert(s@.subrange(n as int, i + 1) =~= s@.subrange(n as int, i as int).push(a@[i as int]));
        i += 1;
    }
    out
}

fn apply_rewrite(v: &Vec<(String, String)>, s: &str) -> (r: Option<String>)
    ensures
        crate::tree::opt_string_view(r) == rewrite(v@, s@),
{
    let mut k: usize = 0;
    assert(v@.subrange(0, v@.len() as int) =~= v@);
    while k < v.len()
        invariant
            k <= v@.len(),
            rewrite(v@, s@) == rewrite(v@.subrange(k as int, v@.len() as int), s@),
        decreases v.len() - k,
    {
        proof {
            assert(v@.subrange(k as int, v@.len() as int).drop_first() =~= v@.subrange(k + 1, v@.len() as int));
        }
        let p = v[k].0.as_str();
        if starts_with_str(s, p) {
            let mut out = v[k].1.clone();
            let tail = chars_from(s, p.unicode_len());
            out.append(tail.as_str());
            return Some(out);
        }
        k += 1;
    }
    None
}

impl XmlCatalog {
    /// A catalog with no entries.
    pub fn new() -> (r: Self)
        ensures
            r.public@.len() == 0,
            r.system@.len() == 0,
            r.uri@.len() == 0,
            r.rewrite_system@.len() == 0,
            r.rewrite_uri@.len() == 0,
            r.next_catalog@.len() == 0,
    {
        XmlCatalog {
            public: Vec::new(),
            system: Vec::new(),
            uri: Vec::new(),
            rewrite_system: Vec::new(),
            rewrite_uri: Vec::new(),
            next_catalog: Vec::new(),
        }
    }

    /// `xmlCatalogResolve`: the public entry first, then the system entry,
    /// then the first system rewrite rule that applies.
    pub fn xml_catalog_resolve(&self, public_id: Option<&str>, system_id: Option<&str>) -> (r: Option<String>)
        ensures
            crate::tree::opt_string_view(r) == (match (public_id, system_id) {
                (Some(p), _) if last_value(self.public@, p@) is Some => last_value(self.public@, p@),
                (_, Some(s)) => match last_value(self.system@, s@) {
                    Some(u) => Some(u),
                    None => rewrite(self.rewrite_system@, s@),
                },
                _ => None,
            }),
    {
        match public_id {
            Some(p) => {
                match find_last(&self.public, p) {
                    Some(u) => {
                        return Some(u);
                    },
                    None => {},
                }
            },
            None => {},
        }
        match system_id {
            Some(s) => {
                match find_last(&self.system, s) {
                    Some(u) => Some(u),
                    None => apply_rewrite(&self.rewrite_system, s),
                }
            },
            None => None,
        }
    }

    /// `xmlCatalogResolveURI`: the URI entry, else the first URI rewrite rule
    /// that applies.
    pub fn xml_catalog_resolve_uri(&self, uri: &str) -> (r: Option<String>)
        ensures
            crate::tree::opt_string_view(r) == (match last_value(self.uri@, uri@) {
                Some(u) => Some(u),
                None => rewrite(self.rewrite_uri@, uri@),
            }),
    {
        match find_last(&self.uri, uri) {
            Some(u) => Some(u),
            None => apply_rewrite(&self.rewrite_uri, uri),
        }
    }
}

/// `u` holds `://` somewhere: it names its scheme.
pub open spec fn has_scheme(u: Seq<char>) -> bool {
    exists|i: int| 0 <= i && i + 3 <= u.len() && #[trigger] u[i] == ':' && u[i + 1] == '/' && u[i + 2] == '/'
}

/// `uri` against the directory `base`.
pub open spec fn resolved(base: Seq<char>, uri: Seq<char>) -> Seq<char> {
    if has_scheme(uri) || (uri.len() > 0 && uri[0] == '/') || base.len() == 0 {
        uri
    } else if base.last() == '/' {
        base + uri
    } else {
        base + seq!['/'] + uri
    }
}

/// Whether `cs` holds `://`.
fn names_scheme(cs: &Vec<char>) -> (r: bool)
    ensures
        r == has_scheme(cs@),
{
    let mut i: usize = 0;
    while i < cs.len()
        invariant
            i <= cs@.len(),
            forall|k: int| 0 <= k < i && k + 3 <= cs@.len() ==> !(#[trigger] cs@[k] == ':' && cs@[k + 1] == '/' && cs@[k + 2] == '/'),
        decreases cs.len() - i,
    {
        if cs[i] == ':' && cs.len() - i >= 3 && cs[i + 1] == '/' && cs[i + 2] == '/' {
            assert(cs@[i as int] == ':' && cs@[i + 1] == '/' && cs@[i + 2] == '/');
            return true;
        }
        i += 1;
    }
    false
}

/// `uri` against the directory `base`: kept when it has a scheme or is
/// absolute, otherwise appended to `base` with a `/`.
pub fn resolve_uri(base: &str, uri: &str) -> (r: String)
    ensures
        r@ == resolved(base@, uri@),
{
    let cs = chars_of(uri);
    let scheme = names_scheme(&cs);
    if scheme || (cs.len() > 0 && cs[0] == '/') || base.is_empty() {
        return String::from_str(uri);
    }
    let mut out = String::from_str(base);
    let bs = chars_of(base);
    if bs.len() == 0 || bs[bs.len() - 1] != '/' {
        push_char(&mut out, '/');
    }
    out.append(uri);
    out
}

/// `new_v` is `old_v` with the pair `(key, base-resolved u)` pushed when the
/// element gave both, and `old_v` unchanged otherwise.
pub open spec fn pushed_pair(
    old_v: Seq<(String, String)>,
    new_v: Seq<(String, String)>,
    key: Option<Seq<char>>,
    u: Option<Seq<char>>,
    base: Seq<char>,
) -> bool {
    match (key, u) {
        (Some(k), Some(x)) => {
            &&& new_v.len() == old_v.len() + 1
            &&& new_v == old_v.push(new_v.last())
            &&& new_v.last().0@ == k
            &&& new_v.last().1@ == resolved(base, x)
        },
        _ => new_v == old_v,
    }
}

/// The entry list of kind `kind` after element `id` of a catalog document
/// was read, given the list before.
pub open spec fn entry_list_after(
    doc: XmlDoc,
    id: NodeId,
    kind: Seq<char>,
    key_attr: Seq<char>,
    uri_attr: Seq<char>,
    old_v: Seq<(String, String)>,
    new_v: Seq<(String, String)>,
    base: Seq<char>,
) -> bool {
    if crate::tree::node_name(doc.nodes()[id.0 as int]) == kind {
        pushed_pair(old_v, new_v, crate::xsd::prop_text(doc, id, key_attr), crate::xsd::prop_text(doc, id, uri_attr), base)
    } else {
        new_v == old_v
    }
}

fn prop_pair(doc: &XmlDoc, id: NodeId, a: &str, b: &str) -> (r: Option<(String, String)>)
    requires
        doc.wf(),
        doc.has(id),
    ensures
        r is None <==> (crate::xsd::prop_text(*doc, id, a@) is None || crate::xsd::prop_text(*doc, id, b@) is None),
        r matches Some((x, y)) ==> crate::xsd::prop_text(*doc, id, a@) == Some(x@) && crate::xsd::prop_text(*doc, id, b@) == Some(y@),
{
    match (doc.xml_get_prop(id, a), doc.xml_get_prop(id, b)) {
        (Some(x), Some(y)) => Some((x, y)),
        _ => None,
    }
}

/// Add the entry that element `id` of a catalog document declares.
fn add_entry(doc: &XmlDoc, id: NodeId, cat: &mut XmlCatalog, base: &str)
    requires
        doc.wf(),
        doc.has(id),
    ensures
        entry_list_after(*doc, id, "public"@, "publicId"@, "uri"@, old(cat).public@, final(cat).public@, base@),
        entry_list_after(*doc, id, "system"@, "systemId"@, "uri"@, old(cat).system@, final(cat).system@, base@),
        entry_list_after(*doc, id, "uri"@, "name"@, "uri"@, old(cat).uri@, final(cat).uri@, base@),
        entry_list_after(*doc, id, "rewriteSystem"@, "systemIdStartString"@, "rewritePrefix"@, old(cat).rewrite_system@,
            final(cat).rewrite_system@, base@),
        entry_list_after(*doc, id, "rewriteURI"@, "uriStartString"@, "rewritePrefix"@, old(cat).rewrite_uri@,
            final(cat).rewrite_uri@, base@),
        if crate::tree::node_name(doc.nodes()[id.0 as int]) == "nextCatalog"@ {
            match crate::xsd::prop_text(*doc, id, "catalog"@) {
                Some(c) => final(cat).next_catalog@.len() == old(cat).next_catalog@.len() + 1
                    && final(cat).next_catalog@ == old(cat).next_catalog@.push(final(cat).next_catalog@.last())
                    && final(cat).next_catalog@.last()@ == resolved(base@, c),
                None => final(cat).next_catalog@ == old(cat).next_catalog@,
            }
        } else {
            final(cat).next_catalog@ == old(cat).next_catalog@
        },
{
    proof {
        reveal_strlit("public");
        reveal_strlit("system");
        reveal_strlit("uri");
        reveal_strlit("rewriteSystem");
        reveal_strlit("rewriteURI");
        reveal_strlit("nextCatalog");
        assert("public"@[0] != "system"@[0]);
        assert("public"@ != "system"@);
        assert("public"@ != "uri"@);
        assert("system"@ != "uri"@);
        assert("public"@[0] != "rewriteSystem"@[0]);
        assert("public"@[0] != "rewriteURI"@[0]);
        assert("public"@[0] != "nextCatalog"@[0]);
        assert("system"@[0] != "rewriteSystem"@[0]);
        assert("system"@[0] != "rewriteURI"@[0]);
        assert("system"@[0] != "nextCatalog"@[0]);
        assert("uri"@[0] != "rewriteSystem"@[0]);
        assert("uri"@[0] != "rewriteURI"@[0]);
        assert("uri"@[0] != "nextCatalog"@[0]);
        assert("rewriteSystem"@.len() != "rewriteURI"@.len());
        assert("rewriteSystem"@[0] != "nextCatalog"@[0]);
        assert("rewriteURI"@[0] != "nextCatalog"@[0]);
    }
    let name = doc.name(id);
    if str_eq(name, "public") {
        match prop_pair(doc, id, "publicId", "uri") {
            Some((k, u)) => cat.public.push((k, resolve_uri(base, u.as_str()))),
            None => {},
        }
    } else if str_eq(name, "system") {
        match prop_pair(doc, id, "systemId", "uri") {
            Some((k, u)) => cat.system.push((k, resolve_uri(base, u.as_str()))),
            None => {},
        }
    } else if str_eq(name, "uri") {
        match prop_pair(doc, id, "name", "uri") {
            Some((k, u)) => cat.uri.push((k, resolve_uri(base, u.as_str()))),
            None => {},
        }
    } else if str_eq(name, "rewriteSystem") {
        match prop_pair(doc, id, "systemIdStartString", "rewritePrefix") {
            Some((k, u)) => cat.rewrite_system.push((k, resolve_uri(base, u.as_str()))),
            None => {},
        }
    } else if str_eq(name, "rewriteURI") {
        match prop_pair(doc, id, "uriStartString", "rewritePrefix") {
            Some((k, u)) => cat.rewrite_uri.push((k, resolve_uri(base, u.as_str()))),
            None => {},
        }
    } else if str_eq(name, "nextCatalog") {
        match doc.xml_get_prop(id, "catalog") {
            Some(c) => cat.next_catalog.push(resolve_uri(base, c.as_str())),
            None => {},
        }
    }
}

/// The catalog a parsed catalog document declares; relative URIs are taken
/// against `base`, the directory of the catalog file.
pub fn xml_catalog_from_doc(doc: &XmlDoc, base: &str) -> (r: XmlCatalog)
    requires
        doc.wf(),
{
    let mut cat = XmlCatalog::new();
    let root = match doc.xml_doc_get_root_element() {
        Some(r) => r,
        None => {
            return cat;
        },
    };
    let mut stack: Vec<NodeId> = Vec::new();
    stack.push(root);
    let mut fuel = doc.len();
    while stack.len() > 0 && fuel > 0
        invariant
            doc.wf(),
            forall|k: int| 0 <= k < stack@.len() ==> doc.has(#[trigger] stack@[k]),
        decreases fuel,
    {
        fuel -= 1;
        let id = stack.pop().unwrap();
        if doc.kind(id) != NodeKind::Element {
            continue;
        }
        let in_cat = match doc.ns_uri(id) {
            Some(u) => str_eq(u, CATALOG_NS),
            None => true,
        };
        if in_cat {
            add_entry(doc, id, &mut cat, base);
        }
        let mut c = doc.last_child(id);
        let mut cf = doc.len();
        proof {
            assert(doc.nodes()[id.0 as int].links_ok(doc.nodes().len()));
        }
        while cf > 0
            invariant
                doc.wf(),
                crate::tree::link_ok(c, doc.nodes().len()),
                forall|k: int| 0 <= k < stack@.len() ==> doc.has(#[trigger] stack@[k]),
            decreases cf,
        {
            match c {
                None => {
                    break;
                },
                Some(x) => {
                    proof {
                        assert(doc.nodes()[x.0 as int].links_ok(doc.nodes().len()));
                    }
                    stack.push(x);
                    c = doc.prev_sibling(x);
                },
            }
            cf -= 1;
        }
    }
    cat
}

/// A later catalog entry for a key overrides every earlier one.
pub proof fn law_later_entry_overrides(v: Seq<(String, String)>, k: String, u: String)
    ensures
        last_value(v.push((k, u)), k@) == Some(u@),
{
    assert(v.push((k, u)).last() == (k, u));
}

/// The first rewrite rule whose prefix matches is the one applied: rules
/// after it do not change the result.
pub proof fn law_first_rewrite_rule_wins(v: Seq<(String, String)>, w: Seq<(String, String)>, s: Seq<char>)
    requires
        rewrite(v, s) is Some,
    ensures
        rewrite(v + w, s) == rewrite(v, s),
    decreases v.len(),
{
    assert((v + w)[0] == v[0]);
    if !(v[0].0@.len() <= s.len() && s.subrange(0, v[0].0@.len() as int) == v[0].0@) {
        assert((v + w).drop_first() =~= v.drop_first() + w);
        law_first_rewrite_rule_wins(v.drop_first(), w, s);
    }
}

/// `xmlInitializeCatalog`: there is no process-wide catalog to set up.
pub fn xml_initialize_catalog() {
}

/// `xmlCatalogCleanup`: there is no process-wide catalog to release.
pub fn xml_catalog_cleanup() {
}

} // verus!
