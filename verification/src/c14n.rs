//! Canonical XML 1.0 and exclusive canonicalization of a document tree.

use vstd::prelude::*;
use crate::tree::{XmlDoc, NodeId, NodeKind, Node};
use crate::util::{push_char, str_eq};

verus! {

/// `xmlC14NMode`: inclusive 1.0.
pub const XML_C14N_1_0: i32 = 0;
/// `xmlC14NMode`: exclusive 1.0.
pub const XML_C14N_EXCLUSIVE_1_0: i32 = 1;
/// `xmlC14NMode`: inclusive 1.1.
pub const XML_C14N_1_1: i32 = 2;

/// The character `c` of text content, canonicalized.
pub open spec fn text_esc(c: char) -> Seq<char> {
    if c == '&' {
        "&amp;"@
    } else if c == '<' {
        "&lt;"@
    } else if c == '>' {
        "&gt;"@
    } else if c == '\r' {
        "&#xD;"@
    } else {
        seq![c]
    }
}

/// The character `c` of an attribute value, canonicalized.
pub open spec fn attr_esc(c: char) -> Seq<char> {
    if c == '&' {
        "&amp;"@
    } else if c == '<' {
        "&lt;"@
    } else if c == '"' {
        "&quot;"@
    } else if c == '\t' {
        "&#x9;"@
    } else if c == '\n' {
        "&#xA;"@
    } else if c == '\r' {
        "&#xD;"@
    } else {
        seq![c]
    }
}

/// `s` with each character escaped for text (`attr` false) or an attribute
/// value (`attr` true).
pub open spec fn c14n_escaped(s: Seq<char>, attr: bool) -> Seq<char>
    decreases s.len(),
{
    if s.len() == 0 {
        seq![]
    } else {
        c14n_escaped(s.drop_last(), attr) + (if attr { attr_esc(s.last()) } else { text_esc(s.last()) })
    }
}

fn push_esc(out: &mut String, c: char, attr: bool)
    ensures
        final(out)@ == old(out)@ + (if attr { attr_esc(c) } else { text_esc(c) }),
{
    if c == '&' {
        out.append("&amp;");
    } else if c == '<' {
        out.append("&lt;");
    } else if c == '>' && !attr {
        out.append("&gt;");
    } else if c == '"' && attr {
        out.append("&quot;");
    } else if c == '\t' && attr {
        out.append("&#x9;");
    } else if c == '\n' && attr {
        out.append("&#xA;");
    } else if c == '\r' {
        out.append("&#xD;");
    } else {
        push_char(out, c);
        assert(out@ =~= old(out)@ + seq![c]);
    }
}

/// Append `s` canonicalized as text or as an attribute value.
pub fn push_c14n_escaped(out: &mut String, s: &str, attr: bool)
    ensures
        final(out)@ == old(out)@ + c14n_escaped(s@, attr),
{
    for c in it: s.chars()
        invariant
            it.seq() == s@,
            out@ == old(out)@ + c14n_escaped(s@.take(it.index() as int), attr),
    {
        proof {
            assert(s@.take(it.index() + 1).drop_last() =~= s@.take(it.index() as int));
        }
        push_esc(out, c, attr);
    }
    assert(s@.take(s@.len() as int) =~= s@);
}

/// Canonical text holds no raw `<` or `>` and no carriage return, and an
/// attribute value holds no raw `<`, `"`, tab, line feed or carriage return:
/// what canonicalization writes cannot be read back as markup or normalized
/// away.
pub proof fn law_canonical_text_has_no_markup(s: Seq<char>, attr: bool)
    ensures
        forall|i: int| 0 <= i < c14n_escaped(s, attr).len() ==> {
            let c = #[trigger] c14n_escaped(s, attr)[i];
            c != '<' && c != '\r' && (!attr ==> c != '>') && (attr ==> c != '"' && c != '\t' && c != '\n')
        },
    decreases s.len(),
{
    if s.len() > 0 {
        law_canonical_text_has_no_markup(s.drop_last(), attr);
        let pre = c14n_escaped(s.drop_last(), attr);
        let e = if attr { attr_esc(s.last()) } else { text_esc(s.last()) };
        reveal_strlit("&amp;");
        reveal_strlit("&lt;");
        reveal_strlit("&gt;");
        reveal_strlit("&quot;");
        reveal_strlit("&#x9;");
        reveal_strlit("&#xA;");
        reveal_strlit("&#xD;");
        assert forall|i: int| 0 <= i < c14n_escaped(s, attr).len() implies {
            let c = #[trigger] c14n_escaped(s, attr)[i];
            c != '<' && c != '\r' && (!attr ==> c != '>') && (attr ==> c != '"' && c != '\t' && c != '\n')
        } by {
            if i >= pre.len() {
                assert(c14n_escaped(s, attr)[i] == e[i - pre.len()]);
            } else {
                assert(c14n_escaped(s, attr)[i] == pre[i]);
            }
        }
    }
}

/// `a` sorts strictly before `b`, byte by byte.
pub open spec fn bytes_before(a: Seq<u8>, b: Seq<u8>) -> bool
    decreases a.len(),
{
    if a.len() == 0 {
        b.len() > 0
    } else if b.len() == 0 {
        false
    } else if a[0] != b[0] {
        a[0] < b[0]
    } else {
        bytes_before(a.drop_first(), b.drop_first())
    }
}

/// Byte-wise order of strings, as `str`'s `Ord` has it.
pub fn str_before(a: &str, b: &str) -> (r: bool)
    ensures
        r == bytes_before(vstd::utf8::encode_utf8(a@), vstd::utf8::encode_utf8(b@)),
{
    let x = a.as_bytes();
    let y = b.as_bytes();
    let mut i: usize = 0;
    proof {
        assert(x@.subrange(0, x@.len() as int) =~= x@);
        assert(y@.subrange(0, y@.len() as int) =~= y@);
        assert(x@.subrange(0, 0) =~= y@.subrange(0, 0));
    }
    while i < x.len() && i < y.len()
        invariant
            x@ == vstd::utf8::encode_utf8(a@),
            y@ == vstd::utf8::encode_utf8(b@),
            i <= x@.len(),
            i <= y@.len(),
            x@.subrange(0, i as int) == y@.subrange(0, i as int),
            bytes_before(x@, y@) == bytes_before(x@.subrange(i as int, x@.len() as int), y@.subrange(i as int, y@.len() as int)),
        decreases x.len() - i,
    {
        proof {
            let xs = x@.subrange(i as int, x@.len() as int);
            let ys = y@.subrange(i as int, y@.len() as int);
            assert(xs.drop_first() =~= x@.subrange(i + 1, x@.len() as int));
            assert(ys.drop_first() =~= y@.subrange(i + 1, y@.len() as int));
            assert(xs[0] == x@[i as int]);
            assert(ys[0] == y@[i as int]);
        }
        if x[i] != y[i] {
            proof {
                let xs = x@.subrange(i as int, x@.len() as int);
                let ys = y@.subrange(i as int, y@.len() as int);
                assert(xs.len() > 0 && ys.len() > 0 && xs[0] != ys[0]);
                assert(bytes_before(xs, ys) == (xs[0] < ys[0]));
            }
            return x[i] < y[i];
        }
        proof {
            assert(x@.subrange(0, i + 1) =~= x@.subrange(0, i as int).push(x@[i as int]));
            assert(y@.subrange(0, i + 1) =~= y@.subrange(0, i as int).push(y@[i as int]));
        }
        i += 1;
    }
    proof {
        let xs = x@.subrange(i as int, x@.len() as int);
        let ys = y@.subrange(i as int, y@.len() as int);
        assert(xs.len() == 0 || ys.len() == 0);
    }
    i == x.len() && i < y.len()
}

/// Where the bytes after the last `:` among the first `i` begin.
pub open spec fn after_colon_byte(b: Seq<u8>, i: int) -> int
    decreases i,
{
    if i <= 0 {
        0
    } else if b[i - 1] == 0x3a {
        i
    } else {
        after_colon_byte(b, i - 1)
    }
}

/// The local part of the qualified name `qn`: the text after its last `:`.
pub open spec fn local_text(qn: Seq<char>) -> Seq<char> {
    let b = vstd::utf8::encode_utf8(qn);
    crate::sax::utf8_lossy_of(b.subrange(after_colon_byte(b, b.len() as int), b.len() as int))
}

/// Attribute order of canonical XML over (namespace URI, qualified name, value).
pub open spec fn attr_precedes(a: (String, String, String), b: (String, String, String)) -> bool {
    let ea = vstd::utf8::encode_utf8(a.0@);
    let eb = vstd::utf8::encode_utf8(b.0@);
    if ea.len() == 0 && eb.len() != 0 {
        true
    } else if ea.len() != 0 && eb.len() == 0 {
        false
    } else if bytes_before(ea, eb) {
        true
    } else if bytes_before(eb, ea) {
        false
    } else {
        bytes_before(vstd::utf8::encode_utf8(local_text(a.1@)), vstd::utf8::encode_utf8(local_text(b.1@)))
    }
}

/// The qualified name of node `id` as canonical XML writes it.
pub open spec fn c14n_qname(d: XmlDoc, id: NodeId) -> Seq<char> {
    let n = d.nodes()[id.0 as int];
    let pre = match n.prefix {
        Some(p) => if vstd::utf8::encode_utf8(p@).len() > 0 { p@.push(':') } else { Seq::<char>::empty() },
        None => Seq::<char>::empty(),
    };
    pre + crate::tree::node_name(n)
}

/// A processing instruction as canonical XML writes it.
pub open spec fn c14n_pi(d: XmlDoc, id: NodeId) -> Seq<char> {
    let n = d.nodes()[id.0 as int];
    let data = if vstd::utf8::encode_utf8(n.content@).len() > 0 { seq![' '] + n.content@ } else { Seq::<char>::empty() };
    "<?"@ + crate::tree::node_name(n) + data + "?>"@
}

/// The local part of a qualified name: what follows its last `:`.
fn local_part(qn: &str) -> (r: String)
    ensures
        r@ == local_text(qn@),
{
    let b = qn.as_bytes();
    let mut start: usize = 0;
    let mut i: usize = 0;
    while i < b.len()
        invariant
            start <= b@.len(),
            i <= b@.len(),
            b@ == vstd::utf8::encode_utf8(qn@),
            start == after_colon_byte(b@, i as int),
        decreases b.len() - i,
    {
        if b[i] == 0x3a {
            start = i + 1;
        }
        i += 1;
    }
    crate::sax::utf8_lossy(&b[start..b.len()])
}

/// Attribute order of canonical XML: attributes in no namespace first, then
/// by namespace URI, then by local name.
fn attr_before(a: &(String, String, String), b: &(String, String, String)) -> (r: bool)
    ensures
        r == attr_precedes(*a, *b),
{
    let ae = a.0.as_str().as_bytes().len() == 0;
    let be = b.0.as_str().as_bytes().len() == 0;
    if ae && !be {
        return true;
    }
    if !ae && be {
        return false;
    }
    if str_before(a.0.as_str(), b.0.as_str()) {
        return true;
    }
    if str_before(b.0.as_str(), a.0.as_str()) {
        return false;
    }
    let al = local_part(a.1.as_str());
    let bl = local_part(b.1.as_str());
    str_before(al.as_str(), bl.as_str())
}

/// No two byte strings each sort before the other.
proof fn lemma_bytes_before_asym(a: Seq<u8>, b: Seq<u8>)
    ensures
        bytes_before(a, b) ==> !bytes_before(b, a),
    decreases a.len(),
{
    if a.len() > 0 && b.len() > 0 && a[0] == b[0] {
        lemma_bytes_before_asym(a.drop_first(), b.drop_first());
    }
}

/// An empty sequence holds an empty multiset.
proof fn lemma_empty_multiset<T>(s: Seq<T>)
    requires
        s.len() == 0,
    ensures
        s.to_multiset() =~= vstd::multiset::Multiset::<T>::empty(),
{
    broadcast use vstd::seq_lib::group_to_multiset_ensures, vstd::multiset::group_multiset_axioms;

    vstd::multiset::lemma_multiset_empty_len(s.to_multiset());
}

/// Moving the first of `v` into `o` at `p` keeps what the two hold together.
proof fn lemma_move_first<T>(o: Seq<T>, v: Seq<T>, p: int)
    requires
        0 <= p <= o.len(),
        v.len() > 0,
    ensures
        o.insert(p, v[0]).to_multiset().add(v.remove(0).to_multiset()) == o.to_multiset().add(v.to_multiset()),
{
    broadcast use vstd::seq_lib::group_to_multiset_ensures, vstd::multiset::group_multiset_axioms;

    let x = v[0];
    assert(v.contains(x));
    assert(v.to_multiset().count(x) > 0);
    assert(v.remove(0).to_multiset() == v.to_multiset().remove(x));
    assert(o.insert(p, x).to_multiset() == o.to_multiset().insert(x));
    assert(o.insert(p, x).to_multiset().add(v.remove(0).to_multiset()) =~= o.to_multiset().add(v.to_multiset()));
}

/// Namespace declarations sort by prefix, byte by byte.
pub open spec fn ns_precedes(a: (String, String), b: (String, String)) -> bool {
    bytes_before(vstd::utf8::encode_utf8(a.0@), vstd::utf8::encode_utf8(b.0@))
}

/// Stable insertion of the attributes in canonical order.
fn sort_attrs(v: Vec<(String, String, String)>) -> (r: Vec<(String, String, String)>)
    ensures
        r@.len() == v@.len(),
        r@.to_multiset() == v@.to_multiset(),
        forall|i: int| 0 < i < r@.len() ==> !attr_precedes(#[trigger] r@[i], r@[i - 1]),
{
    let mut out: Vec<(String, String, String)> = Vec::new();
    let ghost v0 = v@;
    let mut v = v;
    let n = v.len();
    proof {
        lemma_empty_multiset(out@);
    }
    while v.len() > 0
        invariant
            out@.len() + v@.len() == n,
            n == v0.len(),
            out@.to_multiset().add(v@.to_multiset()) == v0.to_multiset(),
            forall|i: int| 0 < i < out@.len() ==> !attr_precedes(#[trigger] out@[i], out@[i - 1]),
        decreases v@.len(),
    {
        let ghost vb = v@;
        let ghost ob = out@;
        let x = v.remove(0);
        let mut p = out.len();
        while p > 0 && attr_before(&x, &out[p - 1])
            invariant
                p <= out@.len(),
                out@ == ob,
                p < out@.len() ==> attr_precedes(x, out@[p as int]),
            decreases p,
        {
            p -= 1;
        }
        out.insert(p, x);
        proof {
            lemma_move_first(ob, vb, p as int);
            assert forall|i: int| 0 < i < out@.len() implies !attr_precedes(#[trigger] out@[i], out@[i - 1]) by {
                if i == p + 1 {
                    lemma_attr_precedes_asym(x, ob[p as int]);
                } else if i > p + 1 {
                    assert(out@[i] == ob[i - 1] && out@[i - 1] == ob[i - 2]);
                } else if i < p {
                    assert(out@[i] == ob[i] && out@[i - 1] == ob[i - 1]);
                }
            }
        }
    }
    proof {
        lemma_empty_multiset(v@);
        assert(out@.to_multiset().add(v@.to_multiset()) =~= out@.to_multiset());
    }
    out
}

/// No two attributes each sort before the other.
proof fn lemma_attr_precedes_asym(a: (String, String, String), b: (String, String, String))
    ensures
        attr_precedes(a, b) ==> !attr_precedes(b, a),
{
    let ea = vstd::utf8::encode_utf8(a.0@);
    let eb = vstd::utf8::encode_utf8(b.0@);
    lemma_bytes_before_asym(ea, eb);
    lemma_bytes_before_asym(
        vstd::utf8::encode_utf8(local_text(a.1@)),
        vstd::utf8::encode_utf8(local_text(b.1@)),
    );
}

/// Stable insertion of namespace declarations in prefix order.
fn sort_ns(v: Vec<(String, String)>) -> (r: Vec<(String, String)>)
    ensures
        r@.len() == v@.len(),
        r@.to_multiset() == v@.to_multiset(),
        forall|i: int| 0 < i < r@.len() ==> !ns_precedes(#[trigger] r@[i], r@[i - 1]),
{
    let mut out: Vec<(String, String)> = Vec::new();
    let ghost v0 = v@;
    let mut v = v;
    let n = v.len();
    proof {
        lemma_empty_multiset(out@);
    }
    while v.len() > 0
        invariant
            out@.len() + v@.len() == n,
            n == v0.len(),
            out@.to_multiset().add(v@.to_multiset()) == v0.to_multiset(),
            forall|i: int| 0 < i < out@.len() ==> !ns_precedes(#[trigger] out@[i], out@[i - 1]),
        decreases v@.len(),
    {
        let ghost vb = v@;
        let ghost ob = out@;
        let x = v.remove(0);
        let mut p = out.len();
        while p > 0 && str_before(x.0.as_str(), out[p - 1].0.as_str())
            invariant
                p <= out@.len(),
                out@ == ob,
                p < out@.len() ==> ns_precedes(x, out@[p as int]),
            decreases p,
        {
            p -= 1;
        }
        out.insert(p, x);
        proof {
            lemma_move_first(ob, vb, p as int);
            assert forall|i: int| 0 < i < out@.len() implies !ns_precedes(#[trigger] out@[i], out@[i - 1]) by {
                if i == p + 1 {
                    lemma_bytes_before_asym(vstd::utf8::encode_utf8(x.0@), vstd::utf8::encode_utf8(ob[p as int].0@));
                } else if i > p + 1 {
                    assert(out@[i] == ob[i - 1] && out@[i - 1] == ob[i - 2]);
                } else if i < p {
                    assert(out@[i] == ob[i] && out@[i - 1] == ob[i - 1]);
                }
            }
        }
    }
    proof {
        lemma_empty_multiset(v@);
        assert(out@.to_multiset().add(v@.to_multiset()) =~= out@.to_multiset());
    }
    out
}

/// Namespace declarations as contracts see them: prefix (empty for the
/// default namespace) and URI.
pub open spec fn pairs_view(v: Seq<(String, String)>) -> Seq<(Seq<char>, Seq<char>)> {
    v.map_values(|p: (String, String)| (p.0@, p.1@))
}

/// Some declaration binds prefix `p`.
pub open spec fn has_key_spec(v: Seq<(Seq<char>, Seq<char>)>, p: Seq<char>) -> bool {
    exists|k: int| 0 <= k < v.len() && (#[trigger] v[k]).0 == p
}

/// Some declaration binds prefix `p` to `h`.
pub open spec fn has_pair_spec(v: Seq<(Seq<char>, Seq<char>)>, p: Seq<char>, h: Seq<char>) -> bool {
    exists|k: int| 0 <= k < v.len() && (#[trigger] v[k]).0 == p && v[k].1 == h
}

/// A default namespace with a non-empty URI is among the declarations.
pub open spec fn default_rendered_spec(v: Seq<(Seq<char>, Seq<char>)>) -> bool {
    exists|k: int| 0 <= k < v.len() && (#[trigger] v[k]).0.len() == 0 && v[k].1.len() > 0
}

fn has_pair(v: &Vec<(String, String)>, p: &str, h: &str) -> (r: bool)
    ensures
        r == has_pair_spec(pairs_view(v@), p@, h@),
{
    let mut k: usize = 0;
    while k < v.len()
        invariant
            k <= v@.len(),
            forall|j: int| 0 <= j < k ==> !(#[trigger] pairs_view(v@)[j].0 == p@ && pairs_view(v@)[j].1 == h@),
        decreases v.len() - k,
    {
        if str_eq(v[k].0.as_str(), p) && str_eq(v[k].1.as_str(), h) {
            assert(pairs_view(v@)[k as int] == (v@[k as int].0@, v@[k as int].1@));
            return true;
        }
        assert(pairs_view(v@)[k as int] == (v@[k as int].0@, v@[k as int].1@));
        k += 1;
    }
    false
}

fn has_key(v: &Vec<(String, String)>, p: &str) -> (r: bool)
    ensures
        r == has_key_spec(pairs_view(v@), p@),
{
    let mut k: usize = 0;
    while k < v.len()
        invariant
            k <= v@.len(),
            forall|j: int| 0 <= j < k ==> (#[trigger] pairs_view(v@)[j]).0 != p@,
        decreases v.len() - k,
    {
        assert(pairs_view(v@)[k as int] == (v@[k as int].0@, v@[k as int].1@));
        if str_eq(v[k].0.as_str(), p) {
            return true;
        }
        k += 1;
    }
    false
}

/// A default namespace with a non-empty URI is rendered in scope.
fn default_rendered(v: &Vec<(String, String)>) -> (r: bool)
    ensures
        r == default_rendered_spec(pairs_view(v@)),
{
    let mut k: usize = 0;
    while k < v.len()
        invariant
            k <= v@.len(),
            forall|j: int| 0 <= j < k ==> !((#[trigger] pairs_view(v@)[j]).0.len() == 0 && pairs_view(v@)[j].1.len() > 0),
        decreases v.len() - k,
    {
        assert(pairs_view(v@)[k as int] == (v@[k as int].0@, v@[k as int].1@));
        if v[k].0.as_str().is_empty() && !v[k].1.as_str().is_empty() {
            return true;
        }
        k += 1;
    }
    false
}

/// The prefix a namespace declaration binds: empty for the default one.
pub open spec fn def_key(d: (Option<String>, String)) -> Seq<char> {
    match d.0 {
        Some(p) => p@,
        None => seq![],
    }
}

/// `acc` with the declarations `defs[..k]`, last first, each unless its
/// prefix is already bound.
pub open spec fn add_defs(acc: Seq<(Seq<char>, Seq<char>)>, defs: Seq<(Option<String>, String)>, k: int) -> Seq<(Seq<char>, Seq<char>)>
    decreases k,
{
    if k <= 0 || k > defs.len() {
        acc
    } else {
        let d = defs[k - 1];
        let acc2 = if has_key_spec(acc, def_key(d)) { acc } else { acc.push((def_key(d), d.1@)) };
        add_defs(acc2, defs, k - 1)
    }
}

/// The declarations in scope from `cur` up to the document, nearest first,
/// one per prefix, looking at most `fuel` nodes up.
pub open spec fn scope_walk(doc: XmlDoc, cur: Option<NodeId>, fuel: nat, acc: Seq<(Seq<char>, Seq<char>)>) -> Seq<(Seq<char>, Seq<char>)>
    decreases fuel,
{
    if fuel == 0 {
        acc
    } else {
        match cur {
            None => acc,
            Some(n) => {
                let defs = doc.nodes()[n.0 as int].ns_defs@;
                let acc2 = add_defs(acc, defs, defs.len() as int);
                let p = doc.nodes()[n.0 as int].parent;
                if p == Some(NodeId(0)) { acc2 } else { scope_walk(doc, p, (fuel - 1) as nat, acc2) }
            },
        }
    }
}

/// The namespace declarations in scope at `id`.
pub open spec fn in_scope(doc: XmlDoc, id: NodeId) -> Seq<(Seq<char>, Seq<char>)> {
    scope_walk(doc, Some(id), doc.nodes().len(), seq![])
}

/// The namespace declarations in scope at `id`, nearest first, one per prefix
/// (`""` for the default namespace).
fn in_scope_ns(doc: &XmlDoc, id: NodeId) -> (r: Vec<(String, String)>)
    requires
        doc.wf(),
        doc.has(id),
    ensures
        pairs_view(r@) == in_scope(*doc, id),
{
    let mut map: Vec<(String, String)> = Vec::new();
    let mut cur = Some(id);
    let mut fuel = doc.len();
    assert(pairs_view(map@) =~= Seq::<(Seq<char>, Seq<char>)>::empty());
    while fuel > 0
        invariant_except_break
            in_scope(*doc, id) == scope_walk(*doc, cur, fuel as nat, pairs_view(map@)),
        invariant
            doc.wf(),
            crate::tree::link_ok(cur, doc.nodes().len()),
            fuel <= doc.nodes().len(),
        ensures
            in_scope(*doc, id) == pairs_view(map@),
        decreases fuel,
    {
        let n = match cur {
            Some(n) => n,
            None => {
                break;
            },
        };
        proof {
            assert(doc.nodes()[n.0 as int].links_ok(doc.nodes().len()));
        }
        let defs = doc.ns_defs(n);
        let ghost acc0 = pairs_view(map@);
        let mut k = defs.len();
        while k > 0
            invariant
                k <= defs@.len(),
                defs@ == doc.nodes()[n.0 as int].ns_defs@,
                add_defs(acc0, defs@, defs@.len() as int) == add_defs(pairs_view(map@), defs@, k as int),
            decreases k,
        {
            k -= 1;
            let key = match &defs[k].0 {
                Some(p) => p.clone(),
                None => String::new(),
            };
            assert(key@ == def_key(defs@[k as int]));
            let ghost before = map@;
            if !has_key(&map, key.as_str()) {
                map.push((key, defs[k].1.clone()));
                assert(pairs_view(map@) =~= pairs_view(before).push((def_key(defs@[k as int]), defs@[k as int].1@)));
            }
        }
        cur = doc.parent(n);
        if cur == Some(NodeId::document()) {
            break;
        }
        fuel -= 1;
    }
    map
}

/// `id` or one of its attributes visibly uses prefix `pre` (the empty prefix:
/// `id` has none).
pub open spec fn visibly_uses(doc: XmlDoc, id: NodeId, pre: Seq<char>) -> bool {
    let n = doc.nodes()[id.0 as int];
    if pre.len() == 0 {
        n.prefix is None
    } else {
        (n.prefix matches Some(p) && p@ == pre) || exists|k: int|
            0 <= k < crate::valid::attrs_of(doc, id).len()
                && ((#[trigger] doc.nodes()[crate::valid::attrs_of(doc, id)[k].0 as int]).prefix matches Some(p) && p@ == pre)
    }
}

/// Whether prefix `pre` is visibly used by element `id` or its attributes.
fn visibly_used(doc: &XmlDoc, id: NodeId, pre: &str) -> (r: bool)
    requires
        doc.wf(),
        doc.has(id),
    ensures
        r == visibly_uses(*doc, id, pre@),
{
    if pre.is_empty() {
        return doc.prefix(id).is_none();
    }
    match doc.prefix(id) {
        Some(p) => {
            if str_eq(p, pre) {
                return true;
            }
        },
        None => {},
    }
    let attrs = doc.attrs(id);
    let mut k: usize = 0;
    while k < attrs.len()
        invariant
            doc.wf(),
            attrs@ == crate::valid::attrs_of(*doc, id),
            forall|j: int| 0 <= j < attrs@.len() ==> doc.has(#[trigger] attrs@[j]),
            k <= attrs@.len(),
            forall|j: int| 0 <= j < k ==> !(((#[trigger] doc.nodes()[attrs@[j].0 as int]).prefix matches Some(p) && p@ == pre@)),
            pre@.len() != 0,
            !(doc.nodes()[id.0 as int].prefix matches Some(p) && p@ == pre@),
        decreases attrs.len() - k,
    {
        match doc.prefix(attrs[k]) {
            Some(p) => {
                if str_eq(p, pre) {
                    let ghost a = crate::valid::attrs_of(*doc, id);
                    assert(attrs@[k as int] == a[k as int]);
                    assert(doc.nodes()[a[k as int].0 as int].prefix matches Some(q) && q@ == pre@);
                    assert(exists|j: int| 0 <= j < a.len()
                        && ((#[trigger] doc.nodes()[a[j].0 as int]).prefix matches Some(q) && q@ == pre@));
                    assert(pre@.len() != 0);
                    return true;
                }
            },
            None => {},
        }
        k += 1;
    }
    false
}

/// Whether the declaration of `pre` to `href` in scope at `id` is rendered
/// there, given those its ancestors rendered.
pub open spec fn keep_ns(doc: XmlDoc, id: NodeId, exclusive: bool, rendered: Seq<(Seq<char>, Seq<char>)>, pre: Seq<char>, href: Seq<char>) -> bool {
    if pre == "xml"@ && href == "http://www.w3.org/XML/1998/namespace"@ {
        false
    } else if exclusive {
        if !visibly_uses(doc, id, pre) {
            false
        } else if pre.len() == 0 && href.len() == 0 {
            default_rendered_spec(rendered)
        } else {
            !has_pair_spec(rendered, pre, href)
        }
    } else if has_pair_spec(rendered, pre, href) {
        false
    } else if pre.len() == 0 && href.len() == 0 {
        default_rendered_spec(rendered)
    } else {
        true
    }
}

/// The declarations of `all` that element `id` renders.
pub open spec fn kept_ns(doc: XmlDoc, id: NodeId, exclusive: bool, rendered: Seq<(Seq<char>, Seq<char>)>, all: Seq<(Seq<char>, Seq<char>)>) -> Seq<(Seq<char>, Seq<char>)>
    decreases all.len(),
{
    if all.len() == 0 {
        seq![]
    } else {
        let rest = kept_ns(doc, id, exclusive, rendered, all.drop_last());
        if keep_ns(doc, id, exclusive, rendered, all.last().0, all.last().1) { rest.push(all.last()) } else { rest }
    }
}

/// The namespace declarations element `id` renders, given those its
/// ancestors rendered.
fn namespaces_to_emit(doc: &XmlDoc, id: NodeId, exclusive: bool, rendered: &Vec<(String, String)>) -> (r: Vec<(String, String)>)
    requires
        doc.wf(),
        doc.has(id),
    ensures
        pairs_view(r@) == kept_ns(*doc, id, exclusive, pairs_view(rendered@), in_scope(*doc, id)),
{
    let all = in_scope_ns(doc, id);
    let mut out: Vec<(String, String)> = Vec::new();
    let mut k: usize = 0;
    assert(pairs_view(out@) =~= Seq::<(Seq<char>, Seq<char>)>::empty());
    while k < all.len()
        invariant
            doc.wf(),
            doc.has(id),
            k <= all@.len(),
            pairs_view(all@) == in_scope(*doc, id),
            pairs_view(out@) == kept_ns(*doc, id, exclusive, pairs_view(rendered@), pairs_view(all@).take(k as int)),
        decreases all.len() - k,
    {
        let pre = all[k].0.as_str();
        let href = all[k].1.as_str();
        proof {
            reveal_strlit("xml");
            assert(pairs_view(all@)[k as int] == (pre@, href@));
            assert(pairs_view(all@).take(k + 1).drop_last() =~= pairs_view(all@).take(k as int));
            assert(pairs_view(all@).take(k + 1).last() == (pre@, href@));
        }
        let keep = if str_eq(pre, "xml") && str_eq(href, "http://www.w3.org/XML/1998/namespace") {
            false
        } else if exclusive {
            if !visibly_used(doc, id, pre) {
                false
            } else if pre.is_empty() && href.is_empty() {
                default_rendered(rendered)
            } else {
                !has_pair(rendered, pre, href)
            }
        } else if has_pair(rendered, pre, href) {
            false
        } else if pre.is_empty() && href.is_empty() {
            default_rendered(rendered)
        } else {
            true
        };
        assert(keep == keep_ns(*doc, id, exclusive, pairs_view(rendered@), pre@, href@));
        let ghost before = out@;
        if keep {
            out.push((all[k].0.clone(), all[k].1.clone()));
            assert(pairs_view(out@) =~= pairs_view(before).push((pre@, href@)));
        }
        k += 1;
    }
    assert(pairs_view(all@).take(k as int) =~= pairs_view(all@));
    out
}

fn push_qname(out: &mut String, doc: &XmlDoc, id: NodeId)
    requires
        doc.has(id),
    ensures
        final(out)@ == old(out)@ + c14n_qname(*doc, id),
{
    let ghost o = out@;
    match doc.prefix(id) {
        Some(p) => {
            if p.as_bytes().len() > 0 {
                out.append(p);
                push_char(out, ':');
            }
        },
        None => {},
    }
    let nm = doc.name(id);
    out.append(nm);
    assert(out@ =~= o + c14n_qname(*doc, id));
}

/// Open tag of element `id`: its namespace declarations and attributes in
/// canonical order. Returns what its children see as rendered.
fn emit_start_tag(doc: &XmlDoc, id: NodeId, exclusive: bool, rendered: &Vec<(String, String)>, out: &mut String) -> (r: Vec<(String, String)>)
    requires
        doc.wf(),
        doc.has(id),
    ensures
        exists|mid: Seq<char>| {
            &&& #[trigger] final(out)@ == old(out)@ + seq!['<'] + c14n_qname(*doc, id) + mid + seq!['>']
            &&& (kept_ns(*doc, id, exclusive, pairs_view(rendered@), in_scope(*doc, id)).len() == 0
                && doc.nodes()[id.0 as int].first_attr is None) ==> mid.len() == 0
        },
{
    let ghost o = out@;
    push_char(out, '<');
    push_qname(out, doc, id);
    let ghost o1 = out@;
    assert(o1 == o + seq!['<'] + c14n_qname(*doc, id));
    let ghost bare = kept_ns(*doc, id, exclusive, pairs_view(rendered@), in_scope(*doc, id)).len() == 0
        && doc.nodes()[id.0 as int].first_attr is None;
    let ns0 = namespaces_to_emit(doc, id, exclusive, rendered);
    assert(pairs_view(ns0@).len() == ns0@.len());
    let ns = sort_ns(ns0);
    let mut k: usize = 0;
    while k < ns.len()
        invariant
            k <= ns@.len(),
            o1.len() <= out@.len(),
            out@.subrange(0, o1.len() as int) == o1,
            bare ==> ns@.len() == 0 && out@ == o1,
        decreases ns.len() - k,
    {
        push_char(out, ' ');
        if ns[k].0.as_str().len() == 0 {
            out.append("xmlns");
        } else {
            out.append("xmlns:");
            out.append(ns[k].0.as_str());
        }
        out.append("=\"");
        push_c14n_escaped(out, ns[k].1.as_str(), true);
        push_char(out, '"');
        k += 1;
    }
    let ghost o2 = out@;
    assert(bare ==> o2 == o1);
    let mut child: Vec<(String, String)> = Vec::new();
    let mut k: usize = 0;
    while k < rendered.len()
        invariant
            k <= rendered@.len(),
        decreases rendered.len() - k,
    {
        if !has_key(&ns, rendered[k].0.as_str()) {
            child.push((rendered[k].0.clone(), rendered[k].1.clone()));
        }
        k += 1;
    }
    let mut k: usize = 0;
    while k < ns.len()
        invariant
            k <= ns@.len(),
        decreases ns.len() - k,
    {
        child.push((ns[k].0.clone(), ns[k].1.clone()));
        k += 1;
    }
    let mut attrs: Vec<(String, String, String)> = Vec::new();
    let mut a = doc.first_attr(id);
    let mut fuel = doc.len();
    proof {
        assert(doc.nodes()[id.0 as int].links_ok(doc.nodes().len()));
    }
    while fuel > 0
        invariant
            doc.wf(),
            crate::tree::link_ok(a, doc.nodes().len()),
            bare ==> a is None && attrs@.len() == 0,
        decreases fuel,
    {
        match a {
            None => {
                break;
            },
            Some(x) => {
                proof {
                    assert(doc.nodes()[x.0 as int].links_ok(doc.nodes().len()));
                }
                let ns_uri = match doc.ns_uri(x) {
                    Some(u) => String::from_str(u),
                    None => String::new(),
                };
                attrs.push((ns_uri, doc.qname(x), String::from_str(doc.content(x))));
                a = doc.next_sibling(x);
            },
        }
        fuel -= 1;
    }
    let attrs = sort_attrs(attrs);
    let mut k: usize = 0;
    while k < attrs.len()
        invariant
            k <= attrs@.len(),
            o1.len() <= out@.len(),
            out@.subrange(0, o1.len() as int) == o1,
            bare ==> attrs@.len() == 0 && out@ == o1,
        decreases attrs.len() - k,
    {
        push_char(out, ' ');
        out.append(attrs[k].1.as_str());
        out.append("=\"");
        push_c14n_escaped(out, attrs[k].2.as_str(), true);
        push_char(out, '"');
        k += 1;
    }
    let ghost mid = out@.subrange(o1.len() as int, out@.len() as int);
    assert(out@ =~= o1 + mid);
    push_char(out, '>');
    assert(out@ == o + seq!['<'] + c14n_qname(*doc, id) + mid + seq!['>']);
    child
}

fn emit_pi(doc: &XmlDoc, id: NodeId, out: &mut String)
    requires
        doc.has(id),
    ensures
        final(out)@ == old(out)@ + c14n_pi(*doc, id),
{
    let ghost o = out@;
    out.append("<?");
    out.append(doc.name(id));
    let data = doc.content(id);
    if data.as_bytes().len() > 0 {
        push_char(out, ' ');
        out.append(data);
    }
    out.append("?>");
    assert(out@ =~= o + c14n_pi(*doc, id));
}

fn emit_comment(doc: &XmlDoc, id: NodeId, out: &mut String)
    requires
        doc.has(id),
{
    out.append("<!--");
    out.append(doc.content(id));
    out.append("-->");
}

/// Canonicalization work, in place of recursion into children.
enum C14nStep {
    /// The node, and the index of the rendered-namespace scope it sees.
    Visit(NodeId, usize),
    /// The end tag of an element whose children are done.
    Close(NodeId),
}

/// The children of an element from `c`, its last child, back along the
/// previous-sibling links, at most `fuel` of them.
pub open spec fn back_children(nodes: Seq<Node>, c: Option<NodeId>, fuel: nat) -> Seq<NodeId>
    decreases fuel,
{
    if fuel == 0 {
        seq![]
    } else {
        match c {
            None => seq![],
            Some(x) => seq![x] + back_children(nodes, nodes[x.0 as int].prev_sibling, (fuel - 1) as nat),
        }
    }
}

/// The canonical text of the nodes `back`, which are listed last first:
/// the first child's text comes first.
pub open spec fn texts_forward(doc: XmlDoc, back: Seq<NodeId>) -> Seq<char>
    decreases back.len(),
{
    if back.len() == 0 {
        seq![]
    } else {
        texts_forward(doc, back.drop_first()) + c14n_escaped(doc.nodes()[back[0].0 as int].content@, false)
    }
}

/// The children of element `root`, last first.
pub open spec fn children_back(doc: XmlDoc, root: NodeId) -> Seq<NodeId> {
    back_children(doc.nodes(), doc.nodes()[root.0 as int].last_child, doc.nodes().len())
}

/// Element `root` has no attribute, renders no namespace declaration, and
/// all its children are text or CDATA sections.
pub open spec fn text_only_element(doc: XmlDoc, root: NodeId, exclusive: bool) -> bool {
    let n = doc.nodes()[root.0 as int];
    let back = children_back(doc, root);
    &&& n.kind == NodeKind::Element
    &&& n.first_attr is None
    &&& kept_ns(doc, root, exclusive, seq![], in_scope(doc, root)).len() == 0
    &&& back.len() < doc.nodes().len()
    &&& forall|i: int| 0 <= i < back.len() ==> (doc.nodes()[(#[trigger] back[i]).0 as int].kind == NodeKind::Text
        || doc.nodes()[back[i].0 as int].kind == NodeKind::CData)
}

/// Steps that visit `ws` in the scope `s`.
spec fn visits(ws: Seq<NodeId>, s: usize) -> Seq<C14nStep> {
    ws.map_values(|x: NodeId| C14nStep::Visit(x, s))
}

/// Canonicalize the element `root` and everything under it. An element
/// whose children are all text or CDATA sections is written as its start
/// tag, the escaped text of each child in order, and its end tag.
fn emit_element_tree(doc: &XmlDoc, root: NodeId, exclusive: bool, with_comments: bool, out: &mut String) -> (r: Result<(), String>)
    requires
        doc.wf(),
        doc.has(root),
    ensures
        text_only_element(*doc, root, exclusive) ==> r is Ok
            && final(out)@ == old(out)@ + seq!['<'] + c14n_qname(*doc, root) + seq!['>']
                + texts_forward(*doc, children_back(*doc, root)) + "</"@ + c14n_qname(*doc, root) + seq!['>'],
{
    proof {
        reveal_strlit("</");
    }
    let ghost o = out@;
    let ghost h = text_only_element(*doc, root, exclusive);
    let ghost back = children_back(*doc, root);
    let ghost n = back.len();
    let ghost start = seq!['<'] + c14n_qname(*doc, root) + seq!['>'];
    let ghost mut phase: int = 0;
    let ghost mut j: int = 0;
    let mut scopes: Vec<Vec<(String, String)>> = Vec::new();
    scopes.push(Vec::new());
    let mut work: Vec<C14nStep> = Vec::new();
    work.push(C14nStep::Visit(root, 0));
    let mut fuel: usize = doc.len();
    assert(work@ == seq![C14nStep::Visit(root, 0)]);
    while work.len() > 0
        invariant
            doc.wf(),
            scopes@.len() >= 1,
            forall|k: int| 0 <= k < work@.len() ==> match #[trigger] work@[k] {
                C14nStep::Visit(n, s) => doc.has(n) && s < scopes@.len(),
                C14nStep::Close(n) => doc.has(n),
            },
            h == text_only_element(*doc, root, exclusive),
            back == children_back(*doc, root),
            n == back.len(),
            start == seq!['<'] + c14n_qname(*doc, root) + seq!['>'],
            h ==> (if phase == 0 {
                &&& work@ == seq![C14nStep::Visit(root, 0)]
                &&& out@ == o
                &&& fuel == doc.nodes().len()
                &&& scopes@.len() == 1
                &&& scopes@[0]@.len() == 0
            } else if phase == 1 {
                &&& 0 <= j <= n
                &&& work@ == seq![C14nStep::Close(root)] + visits(back.take(j), 1)
                &&& out@ == o + start + texts_forward(*doc, back.skip(j))
                &&& fuel == doc.nodes().len() - 1 - (n - j)
                &&& scopes@.len() >= 2
            } else {
                &&& phase == 2
                &&& work@.len() == 0
                &&& out@ == o + start + texts_forward(*doc, back) + "</"@ + c14n_qname(*doc, root) + seq!['>']
            }),
        decreases fuel, work@.len(),
    {
        let ghost w0 = work@;
        let step = work.pop().unwrap();
        match step {
            C14nStep::Close(id) => {
                out.append("</");
                push_qname(out, doc, id);
                push_char(out, '>');
                proof {
                    if h {
                        if phase == 1 && j > 0 {
                            assert(w0.last() == visits(back.take(j), 1)[j - 1]);
                        }
                        assert(phase == 1 && j == 0);
                        assert(back.skip(0) =~= back);
                        phase = 2;
                    }
                }
            },
            C14nStep::Visit(id, s) => {
                proof {
                    if h && phase == 1 {
                        if j == 0 {
                            assert(visits(back.take(0), 1) =~= seq![]);
                            assert(w0 =~= seq![C14nStep::Close(root)]);
                        }
                        assert(w0.last() == visits(back.take(j), 1)[j - 1]);
                        assert(id == back[j - 1]);
                        assert(doc.nodes()[back[j - 1].0 as int].kind == NodeKind::Text
                            || doc.nodes()[back[j - 1].0 as int].kind == NodeKind::CData);
                    }
                    if h && phase == 0 {
                        assert(id == root);
                    }
                }
                if fuel == 0 {
                    return Err(String::from_str("the document is not a tree"));
                }
                fuel -= 1;
                let k = doc.kind(id);
                if k == NodeKind::Element {
                    proof {
                        if h && phase == 0 {
                            assert(pairs_view(scopes@[0]@) =~= seq![]);
                        }
                    }
                    let child = emit_start_tag(doc, id, exclusive, &scopes[s], out);
                    scopes.push(child);
                    let cs = scopes.len() - 1;
                    work.push(C14nStep::Close(id));
                    let mut c = doc.last_child(id);
                    let mut cf = doc.len();
                    let ghost mut t: int = 0;
                    proof {
                        assert(doc.nodes()[id.0 as int].links_ok(doc.nodes().len()));
                        if h && phase == 0 {
                            assert(back.skip(0) =~= back);
                            assert(back.take(0) =~= seq![]);
                            assert(work@ =~= seq![C14nStep::Close(root)] + visits(back.take(0), 1));
                        }
                    }
                    while cf > 0
                        invariant
                            doc.wf(),
                            crate::tree::link_ok(c, doc.nodes().len()),
                            cs < scopes@.len(),
                            scopes@.len() >= 1,
                            forall|k: int| 0 <= k < work@.len() ==> match #[trigger] work@[k] {
                                C14nStep::Visit(n, s) => doc.has(n) && s < scopes@.len(),
                                C14nStep::Close(n) => doc.has(n),
                            },
                            (h && phase == 0) ==> {
                                &&& id == root
                                &&& cs == 1
                                &&& 0 <= t <= n
                                &&& t == doc.nodes().len() - cf
                                &&& back.skip(t) == back_children(doc.nodes(), c, cf as nat)
                                &&& work@ == seq![C14nStep::Close(root)] + visits(back.take(t), 1)
                            },
                            back == children_back(*doc, root),
                            n == back.len(),
                        ensures
                            (h && phase == 0) ==> back.skip(t).len() == 0 && t == doc.nodes().len() - cf
                                && work@ == seq![C14nStep::Close(root)] + visits(back.take(t), 1),
                        decreases cf,
                    {
                        match c {
                            None => {
                                break;
                            },
                            Some(x) => {
                                proof {
                                    assert(doc.nodes()[x.0 as int].links_ok(doc.nodes().len()));
                                }
                                work.push(C14nStep::Visit(x, cs));
                                proof {
                                    if h && phase == 0 {
                                        assert(back.skip(t)[0] == x);
                                        assert(back.skip(t).drop_first() =~= back.skip(t + 1));
                                        assert(back.take(t + 1) =~= back.take(t).push(x));
                                        assert(visits(back.take(t + 1), 1) =~= visits(back.take(t), 1).push(C14nStep::Visit(x, 1)));
                                        assert(work@ =~= seq![C14nStep::Close(root)] + visits(back.take(t + 1), 1));
                                        t = t + 1;
                                    }
                                }
                                c = doc.prev_sibling(x);
                            },
                        }
                        cf -= 1;
                    }
                    proof {
                        if h && phase == 0 {
                            assert(back.skip(t).len() == 0);
                            assert(t == n);
                            assert(back.take(n as int) =~= back);
                            assert(back.skip(n as int) =~= seq![]);
                            assert(texts_forward(*doc, back.skip(n as int)) =~= seq![]);
                            assert(out@ =~= o + start + texts_forward(*doc, back.skip(n as int)));
                            phase = 1;
                            j = n as int;
                        }
                    }
                } else if k == NodeKind::Text || k == NodeKind::CData {
                    push_c14n_escaped(out, doc.content(id), false);
                    proof {
                        if h {
                            assert(phase == 1);
                            assert(back.skip(j - 1).drop_first() =~= back.skip(j));
                            assert(back.skip(j - 1)[0] == back[j - 1]);
                            assert(work@ =~= seq![C14nStep::Close(root)] + visits(back.take(j - 1), 1));
                            assert(out@ =~= o + start + texts_forward(*doc, back.skip(j - 1)));
                            j = j - 1;
                        }
                    }
                } else if k == NodeKind::Pi {
                    emit_pi(doc, id, out);
                } else if k == NodeKind::Comment && with_comments {
                    emit_comment(doc, id, out);
                }
            },
        }
    }
    Ok(())
}

/// The canonical form of an element whose children are all text or CDATA
/// sections: its start tag, the escaped text of each child in order, its
/// end tag.
pub open spec fn text_element_form(doc: XmlDoc, e: NodeId) -> Seq<char> {
    seq!['<'] + c14n_qname(doc, e) + seq!['>'] + texts_forward(doc, children_back(doc, e)) + "</"@
        + c14n_qname(doc, e) + seq!['>']
}

/// The document holds one node, an element with only text and CDATA
/// children, no attribute and no namespace declaration to render.
pub open spec fn lone_text_root(doc: XmlDoc, exclusive: bool) -> bool {
    &&& doc.nodes()[0].first_child matches Some(e)
    &&& doc.nodes()[e.0 as int].next_sibling is None
    &&& text_only_element(doc, e, exclusive)
}

/// `xmlC14NDocDumpMemory`: the canonical form of the whole document, in
/// UTF-8; `exclusive` selects exclusive canonicalization.
pub fn xml_c14n_doc_dump_memory(doc: &XmlDoc, exclusive: bool, with_comments: bool) -> (r: Result<Vec<u8>, String>)
    requires
        doc.wf(),
    ensures
        r matches Ok(b) ==> vstd::utf8::valid_utf8(b@),
        doc.nodes()[0].first_child is None ==> (r matches Ok(b) && b@.len() == 0),
        lone_text_root(*doc, exclusive) ==> (r matches Ok(b)
            && b@ == vstd::utf8::encode_utf8(text_element_form(*doc, doc.nodes()[0].first_child.unwrap()))),
{
    let ghost h = lone_text_root(*doc, exclusive);
    let ghost mut done = false;
    let mut out = String::new();
    let mut after_element = false;
    let mut before_element = true;
    let mut seen_pi_or_comment = false;
    let mut c = doc.first_child(NodeId::document());
    let mut fuel = doc.len();
    proof {
        assert(doc.nodes()[0].links_ok(doc.nodes().len()));
    }
    while fuel > 0
        invariant
            doc.wf(),
            crate::tree::link_ok(c, doc.nodes().len()),
            doc.nodes()[0].first_child is None ==> c is None && out@.len() == 0,
            h == lone_text_root(*doc, exclusive),
            h ==> if !done {
                c == doc.nodes()[0].first_child && out@.len() == 0 && fuel == doc.nodes().len()
            } else {
                c is None && out@ == text_element_form(*doc, doc.nodes()[0].first_child.unwrap())
            },
        ensures
            h ==> done && out@ == text_element_form(*doc, doc.nodes()[0].first_child.unwrap()),
        decreases fuel,
    {
        let x = match c {
            Some(x) => x,
            None => {
                break;
            },
        };
        proof {
            assert(doc.nodes()[x.0 as int].links_ok(doc.nodes().len()));
        }
        let k = doc.kind(x);
        if k == NodeKind::Element {
            before_element = false;
            emit_element_tree(doc, x, exclusive, with_comments, &mut out)?;
            after_element = true;
            proof {
                if h {
                    assert(out@ =~= text_element_form(*doc, x));
                    done = true;
                }
            }
        } else if k == NodeKind::Pi || (k == NodeKind::Comment && with_comments) {
            if after_element || seen_pi_or_comment {
                push_char(&mut out, '\n');
            }
            if k == NodeKind::Pi {
                emit_pi(doc, x, &mut out);
            } else {
                emit_comment(doc, x, &mut out);
            }
            if before_element {
                push_char(&mut out, '\n');
            }
            seen_pi_or_comment = true;
        }
        c = doc.next_sibling(x);
        fuel -= 1;
    }
    let mut bytes: Vec<u8> = Vec::new();
    crate::util::push_str_bytes(&mut bytes, out.as_str());
    proof {
        assert(bytes@ =~= vstd::utf8::encode_utf8(out@));
        vstd::utf8::encode_utf8_valid_utf8(out@);
    }
    Ok(bytes)
}

/// Inclusive canonical XML 1.0 without comments.
pub fn xml_c14n_1_0(doc: &XmlDoc) -> (r: Result<Vec<u8>, String>)
    requires
        doc.wf(),
    ensures
        r matches Ok(b) ==> vstd::utf8::valid_utf8(b@),
        doc.nodes()[0].first_child is None ==> (r matches Ok(b) && b@.len() == 0),
        lone_text_root(*doc, false) ==> (r matches Ok(b)
            && b@ == vstd::utf8::encode_utf8(text_element_form(*doc, doc.nodes()[0].first_child.unwrap()))),
{
    xml_c14n_doc_dump_memory(doc, false, false)
}

/// Exclusive canonical XML 1.0 without comments.
pub fn xml_exc_c14n_1_0(doc: &XmlDoc) -> (r: Result<Vec<u8>, String>)
    requires
        doc.wf(),
    ensures
        r matches Ok(b) ==> vstd::utf8::valid_utf8(b@),
        doc.nodes()[0].first_child is None ==> (r matches Ok(b) && b@.len() == 0),
        lone_text_root(*doc, true) ==> (r matches Ok(b)
            && b@ == vstd::utf8::encode_utf8(text_element_form(*doc, doc.nodes()[0].first_child.unwrap()))),
{
    xml_c14n_doc_dump_memory(doc, true, false)
}

} // verus!
