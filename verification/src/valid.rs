//! DTD validation: children content models, attribute declarations, and the
//! validity constraints XML 1.0 puts on a document and its DTD.

use vstd::prelude::*;
use crate::chvalid::{is_name_start, is_name_char, xml_is_name_start_char, xml_is_name_char};
use crate::tree::{XmlDoc, XmlDtd, NodeId, NodeKind, ElementDecl, AttrDefault, Node};
use crate::util::{str_eq, push_char};

verus! {

/// A content particle of a children model (`cp` in XML 1.0 production 48):
/// a sequence `a,b` is `Cat`, a choice `a|b` is `Alt`, and `Group` is a
/// pair of parentheses.
#[derive(Debug)]
pub enum Particle {
    Name(String),
    Group(Box<Particle>),
    Cat(Box<Particle>, Box<Particle>),
    Alt(Box<Particle>, Box<Particle>),
    Opt(Box<Particle>),
    Star(Box<Particle>),
    Plus(Box<Particle>),
}

/// `m` lies in `i..=j`: the split points a match may take.
pub open spec fn split(i: int, m: int, j: int) -> bool {
    i <= m <= j
}

/// `p` matches the element names `kids[i..j]`. A repetition after the first
/// takes at least one name, which changes no language.
pub open spec fn accepts(p: Particle, kids: Seq<Seq<char>>, i: int, j: int) -> bool
    decreases p, j - i,
{
    match p {
        Particle::Name(n) => 0 <= i && j == i + 1 && j <= kids.len() && kids[i] == n@,
        Particle::Group(a) => accepts(*a, kids, i, j),
        Particle::Cat(a, b) => exists|m: int| #[trigger] split(i, m, j) && accepts(*a, kids, i, m) && accepts(*b, kids, m, j),
        Particle::Alt(a, b) => accepts(*a, kids, i, j) || accepts(*b, kids, i, j),
        Particle::Opt(a) => i == j || accepts(*a, kids, i, j),
        Particle::Star(a) => i == j || (i < j && exists|m: int| #[trigger] split(i, m, j - 1) && accepts(p, kids, i, m) && accepts(*a, kids, m, j)),
        Particle::Plus(a) => accepts(*a, kids, i, j) || (i < j && exists|m: int| #[trigger] split(i, m, j - 1) && accepts(p, kids, i, m) && accepts(*a, kids, m, j)),
    }
}

/// Some start position marked in `s` reaches `j` through `p`.
pub open spec fn reach(p: Particle, kids: Seq<Seq<char>>, s: Seq<bool>, j: int) -> bool {
    exists|i: int| 0 <= i <= j && s[i] && #[trigger] accepts(p, kids, i, j)
}

/// The positions marked in `base`, closed under one more match of `a`.
pub open spec fn closure(a: Particle, kids: Seq<Seq<char>>, base: Seq<bool>, j: int) -> bool
    decreases j,
{
    base[j] || (0 < j && exists|m: int| #[trigger] split(0, m, j - 1) && closure(a, kids, base, m) && accepts(a, kids, m, j))
}

/// The names of `kids`, as the model sees them.
pub open spec fn names_of(kids: Seq<String>) -> Seq<Seq<char>> {
    kids.map_values(|k: String| k@)
}

/// A match runs forward.
pub proof fn lemma_accepts_ordered(p: Particle, kids: Seq<Seq<char>>, i: int, j: int)
    requires
        accepts(p, kids, i, j),
    ensures
        i <= j,
    decreases p, j - i,
{
    match p {
        Particle::Cat(a, b) => {
            let m = choose|m: int| #[trigger] split(i, m, j) && accepts(*a, kids, i, m) && accepts(*b, kids, m, j);
        },
        Particle::Group(a) => {
            lemma_accepts_ordered(*a, kids, i, j);
        },
        Particle::Alt(a, b) => {
            if accepts(*a, kids, i, j) {
                lemma_accepts_ordered(*a, kids, i, j);
            } else {
                lemma_accepts_ordered(*b, kids, i, j);
            }
        },
        Particle::Opt(a) => {
            if i != j {
                lemma_accepts_ordered(*a, kids, i, j);
            }
        },
        Particle::Plus(a) => {
            if accepts(*a, kids, i, j) {
                lemma_accepts_ordered(*a, kids, i, j);
            }
        },
        _ => {},
    }
}

/// Repetition reaches exactly the closure of the start marks (`Star`), or
/// of what one match reaches (`Plus`).
proof fn lemma_rep_closure(p: Particle, a: Particle, kids: Seq<Seq<char>>, s: Seq<bool>, base: Seq<bool>, j: int)
    requires
        p == Particle::Star(Box::new(a)) || p == Particle::Plus(Box::new(a)),
        base.len() == s.len(),
        0 <= j < s.len(),
        p is Star ==> base == s,
        p is Plus ==> forall|x: int| 0 <= x < s.len() ==> base[x] == reach(a, kids, s, x),
    ensures
        reach(p, kids, s, j) == closure(a, kids, base, j),
    decreases j,
{
    if reach(p, kids, s, j) {
        let i = choose|i: int| 0 <= i <= j && s[i] && #[trigger] accepts(p, kids, i, j);
        if p is Star && i == j {
        } else if p is Plus && accepts(a, kids, i, j) {
            assert(reach(a, kids, s, j));
        } else {
            let m = choose|m: int| #[trigger] split(i, m, j - 1) && accepts(p, kids, i, m) && accepts(a, kids, m, j);
            assert(reach(p, kids, s, m));
            lemma_rep_closure(p, a, kids, s, base, m);
            assert(closure(a, kids, base, m));
            assert(split(0, m, j - 1));
        }
    }
    if closure(a, kids, base, j) {
        if base[j] {
            if p is Star {
                assert(accepts(p, kids, j, j));
            } else {
                let i = choose|i: int| 0 <= i <= j && s[i] && #[trigger] accepts(a, kids, i, j);
                assert(accepts(p, kids, i, j));
            }
        } else {
            let m = choose|m: int| #[trigger] split(0, m, j - 1) && closure(a, kids, base, m) && accepts(a, kids, m, j);
            lemma_rep_closure(p, a, kids, s, base, m);
            let i = choose|i: int| 0 <= i <= m && s[i] && #[trigger] accepts(p, kids, i, m);
            assert(split(i, m, j - 1));
            assert(accepts(p, kids, i, j));
        }
    }
}

/// A start set marking `m` alone.
fn single(len: usize, m: usize) -> (r: Vec<bool>)
    requires
        m < len,
    ensures
        r@.len() == len,
        forall|i: int| 0 <= i < len ==> r@[i] == (i == m),
{
    let mut v: Vec<bool> = Vec::new();
    let mut i: usize = 0;
    while i < len
        invariant
            i <= len,
            v@.len() == i,
            forall|k: int| 0 <= k < i ==> v@[k] == (k == m),
        decreases len - i,
    {
        v.push(i == m);
        i += 1;
    }
    v
}

fn copy_marks(s: &Vec<bool>) -> (r: Vec<bool>)
    ensures
        r@ == s@,
{
    let mut v: Vec<bool> = Vec::new();
    let mut i: usize = 0;
    while i < s.len()
        invariant
            i <= s.len(),
            v@ == s@.subrange(0, i as int),
        decreases s.len() - i,
    {
        v.push(s[i]);
        i += 1;
    }
    v
}

/// The positions that `Name(n)` reaches from `s`.
fn name_ends(n: &String, kids: &Vec<String>, s: &Vec<bool>) -> (r: Vec<bool>)
    requires
        s@.len() == kids@.len() + 1,
    ensures
        r@.len() == s@.len(),
        forall|j: int| 0 <= j < r@.len() ==> r@[j] == (1 <= j && s@[j - 1] && names_of(kids@)[j - 1] == n@),
{
    let mut v: Vec<bool> = Vec::new();
    v.push(false);
    let mut j: usize = 1;
    while j < s.len()
        invariant
            s@.len() == kids@.len() + 1,
            1 <= j <= s@.len(),
            v@.len() == j,
            forall|k: int| 0 <= k < j ==> v@[k] == (1 <= k && s@[k - 1] && names_of(kids@)[k - 1] == n@),
        decreases s.len() - j,
    {
        let hit = s[j - 1] && crate::util::str_eq(kids[j - 1].as_str(), n.as_str());
        v.push(hit);
        j += 1;
    }
    v
}

proof fn lemma_reach_name(n: String, kids: Seq<Seq<char>>, s: Seq<bool>, j: int)
    requires
        0 <= j < s.len(),
        s.len() == kids.len() + 1,
    ensures
        reach(Particle::Name(n), kids, s, j) == (1 <= j && s[j - 1] && kids[j - 1] == n@),
{
    let p = Particle::Name(n);
    if 1 <= j && s[j - 1] && kids[j - 1] == n@ {
        assert(accepts(p, kids, j - 1, j));
    }
}

proof fn lemma_reach_cat(a: Particle, b: Particle, ks: Seq<Seq<char>>, s: Seq<bool>, t: Seq<bool>, r: Seq<bool>)
    requires
        t.len() == s.len(),
        r.len() == s.len(),
        forall|j: int| 0 <= j < t.len() ==> t[j] == reach(a, ks, s, j),
        forall|j: int| 0 <= j < r.len() ==> r[j] == reach(b, ks, t, j),
    ensures
        forall|j: int| 0 <= j < r.len() ==> r[j] == reach(Particle::Cat(Box::new(a), Box::new(b)), ks, s, j),
{
    let p = Particle::Cat(Box::new(a), Box::new(b));
    assert forall|j: int| 0 <= j < r.len() implies r[j] == reach(p, ks, s, j) by {
        if r[j] {
            let m = choose|m: int| 0 <= m <= j && t[m] && #[trigger] accepts(b, ks, m, j);
            let i = choose|i: int| 0 <= i <= m && s[i] && #[trigger] accepts(a, ks, i, m);
            assert(split(i, m, j));
            assert(accepts(p, ks, i, j));
        }
        if reach(p, ks, s, j) {
            let i = choose|i: int| 0 <= i <= j && s[i] && #[trigger] accepts(p, ks, i, j);
            let m = choose|m: int| #[trigger] split(i, m, j) && accepts(a, ks, i, m) && accepts(b, ks, m, j);
            assert(reach(a, ks, s, m));
            assert(t[m]);
        }
    }
}

proof fn lemma_reach_alt(a: Particle, b: Particle, ks: Seq<Seq<char>>, s: Seq<bool>, ea: Seq<bool>, eb: Seq<bool>, r: Seq<bool>)
    requires
        ea.len() == s.len(),
        eb.len() == s.len(),
        r.len() == s.len(),
        forall|j: int| 0 <= j < s.len() ==> ea[j] == reach(a, ks, s, j),
        forall|j: int| 0 <= j < s.len() ==> eb[j] == reach(b, ks, s, j),
        forall|j: int| 0 <= j < s.len() ==> r[j] == (ea[j] || eb[j]),
    ensures
        forall|j: int| 0 <= j < r.len() ==> r[j] == reach(Particle::Alt(Box::new(a), Box::new(b)), ks, s, j),
{
    let p = Particle::Alt(Box::new(a), Box::new(b));
    assert forall|j: int| 0 <= j < r.len() implies r[j] == reach(p, ks, s, j) by {
        if ea[j] {
            let i = choose|i: int| 0 <= i <= j && s[i] && #[trigger] accepts(a, ks, i, j);
            assert(accepts(p, ks, i, j));
        }
        if eb[j] {
            let i = choose|i: int| 0 <= i <= j && s[i] && #[trigger] accepts(b, ks, i, j);
            assert(accepts(p, ks, i, j));
        }
        if reach(p, ks, s, j) {
            let i = choose|i: int| 0 <= i <= j && s[i] && #[trigger] accepts(p, ks, i, j);
            assert(accepts(a, ks, i, j) || accepts(b, ks, i, j));
            if accepts(a, ks, i, j) {
                assert(reach(a, ks, s, j));
            } else {
                assert(reach(b, ks, s, j));
            }
        }
    }
}

proof fn lemma_reach_group(a: Particle, ks: Seq<Seq<char>>, s: Seq<bool>, r: Seq<bool>)
    requires
        r.len() == s.len(),
        forall|j: int| 0 <= j < s.len() ==> r[j] == reach(a, ks, s, j),
    ensures
        forall|j: int| 0 <= j < r.len() ==> r[j] == reach(Particle::Group(Box::new(a)), ks, s, j),
{
    let p = Particle::Group(Box::new(a));
    assert forall|j: int| 0 <= j < r.len() implies r[j] == reach(p, ks, s, j) by {
        if r[j] {
            let i = choose|i: int| 0 <= i <= j && s[i] && #[trigger] accepts(a, ks, i, j);
            assert(accepts(p, ks, i, j));
        }
        if reach(p, ks, s, j) {
            let i = choose|i: int| 0 <= i <= j && s[i] && #[trigger] accepts(p, ks, i, j);
            assert(accepts(a, ks, i, j));
            assert(reach(a, ks, s, j));
        }
    }
}

proof fn lemma_reach_opt(a: Particle, ks: Seq<Seq<char>>, s: Seq<bool>, e: Seq<bool>, r: Seq<bool>)
    requires
        e.len() == s.len(),
        r.len() == s.len(),
        forall|j: int| 0 <= j < s.len() ==> e[j] == reach(a, ks, s, j),
        forall|j: int| 0 <= j < s.len() ==> r[j] == (s[j] || e[j]),
    ensures
        forall|j: int| 0 <= j < r.len() ==> r[j] == reach(Particle::Opt(Box::new(a)), ks, s, j),
{
    let p = Particle::Opt(Box::new(a));
    assert forall|j: int| 0 <= j < r.len() implies r[j] == reach(p, ks, s, j) by {
        if s[j] {
            assert(accepts(p, ks, j, j));
        }
        if e[j] {
            let i = choose|i: int| 0 <= i <= j && s[i] && #[trigger] accepts(a, ks, i, j);
            assert(accepts(p, ks, i, j));
        }
        if reach(p, ks, s, j) {
            let i = choose|i: int| 0 <= i <= j && s[i] && #[trigger] accepts(p, ks, i, j);
            assert(i == j || accepts(a, ks, i, j));
            if i != j {
                assert(reach(a, ks, s, j));
            }
        }
    }
}

/// The positions in `base` closed under further matches of `a`.
fn closure_ends(a: &Particle, kids: &Vec<String>, base: &Vec<bool>) -> (r: Vec<bool>)
    requires
        base@.len() == kids@.len() + 1,
    ensures
        r@.len() == base@.len(),
        forall|j: int| 0 <= j < r@.len() ==> r@[j] == closure(*a, names_of(kids@), base@, j),
    decreases *a, 3int,
{
    let ghost ks = names_of(kids@);
    let n1 = base.len();
    let mut r = copy_marks(base);
    let mut m: usize = 0;
    while m < n1
        invariant
            n1 == base@.len(),
            base@.len() == kids@.len() + 1,
            ks == names_of(kids@),
            m <= n1,
            r@.len() == n1,
            forall|j: int| 0 <= j < m ==> r@[j] == closure(*a, ks, base@, j),
            forall|j: int| m <= j < n1 ==> r@[j] == (base@[j] || exists|mm: int| 0 <= mm < m && mm < j && #[trigger] closure(*a, ks, base@, mm) && accepts(*a, ks, mm, j)),
        decreases n1 - m,
    {
        proof {
            let mi = m as int;
            if exists|mm: int| 0 <= mm < mi && mm < mi && #[trigger] closure(*a, ks, base@, mm) && accepts(*a, ks, mm, mi) {
                let mm = choose|mm: int| 0 <= mm < mi && mm < mi && #[trigger] closure(*a, ks, base@, mm) && accepts(*a, ks, mm, mi);
                assert(split(0, mm, mi - 1));
            }
            if closure(*a, ks, base@, mi) && !base@[mi] {
                let mm = choose|mm: int| #[trigger] split(0, mm, mi - 1) && closure(*a, ks, base@, mm) && accepts(*a, ks, mm, mi);
                assert(0 <= mm < mi && mm < mi && closure(*a, ks, base@, mm) && accepts(*a, ks, mm, mi));
            }
        }
        assert(r@[m as int] == closure(*a, ks, base@, m as int));
        if r[m] {
            let st = single(n1, m);
            let e = ends(a, kids, &st);
            proof {
                assert forall|j: int| m <= j < n1 implies e@[j] == #[trigger] accepts(*a, ks, m as int, j) by {
                    if e@[j] {
                        let i = choose|i: int| 0 <= i <= j && st@[i] && #[trigger] accepts(*a, ks, i, j);
                        assert(i == m);
                    }
                    if accepts(*a, ks, m as int, j) {
                        assert(st@[m as int]);
                    }
                }
            }
            let mut j: usize = m + 1;
            let ghost r0 = r@;
            while j < n1
                invariant
                    n1 == base@.len(),
                    m < n1,
                    m + 1 <= j <= n1,
                    r@.len() == n1,
                    r0.len() == n1,
                    e@.len() == n1,
                    forall|k: int| 0 <= k < j ==> r@[k] == (r0[k] || (m < k && e@[k])),
                    forall|k: int| j <= k < n1 ==> r@[k] == r0[k],
                decreases n1 - j,
            {
                let ghost rb = r@;
                if e[j] {
                    r.set(j, true);
                }
                assert(forall|k: int| 0 <= k < n1 && k != j ==> r@[k] == rb[k]);
                assert(r@[j as int] == (r0[j as int] || (m < j && e@[j as int])));
                j += 1;
            }
            assert(r@[m as int] == r0[m as int]);
            assert forall|x: int| 0 <= x <= m implies r@[x] == closure(*a, ks, base@, x) by {
                assert(r@[x] == r0[x]);
            }
            proof {
                assert forall|k: int| m + 1 <= k < n1 implies r@[k] == (base@[k] || exists|mm: int| 0 <= mm < m + 1 && mm < k && #[trigger] closure(*a, ks, base@, mm) && accepts(*a, ks, mm, k)) by {
                    if r0[k] && !base@[k] {
                        let mm = choose|mm: int| 0 <= mm < m && mm < k && #[trigger] closure(*a, ks, base@, mm) && accepts(*a, ks, mm, k);
                        assert(0 <= mm < m + 1 && mm < k && closure(*a, ks, base@, mm) && accepts(*a, ks, mm, k));
                    }
                    if e@[k] {
                        assert(accepts(*a, ks, m as int, k));
                        assert(0 <= m < m + 1 && m < k && closure(*a, ks, base@, m as int) && accepts(*a, ks, m as int, k));
                    }
                    if exists|mm: int| 0 <= mm < m + 1 && mm < k && #[trigger] closure(*a, ks, base@, mm) && accepts(*a, ks, mm, k) {
                        let mm = choose|mm: int| 0 <= mm < m + 1 && mm < k && #[trigger] closure(*a, ks, base@, mm) && accepts(*a, ks, mm, k);
                        if mm < m {
                            assert(0 <= mm < m && mm < k && closure(*a, ks, base@, mm) && accepts(*a, ks, mm, k));
                        } else {
                            assert(e@[k]);
                        }
                    }
                }
            }
        } else {
            proof {
                assert forall|k: int| m + 1 <= k < n1 implies r@[k] == (base@[k] || exists|mm: int| 0 <= mm < m + 1 && mm < k && #[trigger] closure(*a, ks, base@, mm) && accepts(*a, ks, mm, k)) by {
                    if exists|mm: int| 0 <= mm < m + 1 && mm < k && #[trigger] closure(*a, ks, base@, mm) && accepts(*a, ks, mm, k) {
                        let mm = choose|mm: int| 0 <= mm < m + 1 && mm < k && #[trigger] closure(*a, ks, base@, mm) && accepts(*a, ks, mm, k);
                        assert(mm != m);
                        assert(0 <= mm < m && mm < k && closure(*a, ks, base@, mm) && accepts(*a, ks, mm, k));
                    }
                }
            }
        }
        m += 1;
    }
    r
}

fn or_marks(a: &Vec<bool>, b: &Vec<bool>) -> (r: Vec<bool>)
    requires
        a@.len() == b@.len(),
    ensures
        r@.len() == a@.len(),
        forall|j: int| 0 <= j < r@.len() ==> r@[j] == (a@[j] || b@[j]),
{
    let mut v: Vec<bool> = Vec::new();
    let mut i: usize = 0;
    while i < a.len()
        invariant
            a@.len() == b@.len(),
            i <= a@.len(),
            v@.len() == i,
            forall|k: int| 0 <= k < i ==> v@[k] == (a@[k] || b@[k]),
        decreases a.len() - i,
    {
        v.push(a[i] || b[i]);
        i += 1;
    }
    v
}

/// The positions that `p` reaches from the marked start positions `s`.
fn ends(p: &Particle, kids: &Vec<String>, s: &Vec<bool>) -> (r: Vec<bool>)
    requires
        s@.len() == kids@.len() + 1,
    ensures
        r@.len() == s@.len(),
        forall|j: int| 0 <= j < r@.len() ==> r@[j] == reach(*p, names_of(kids@), s@, j),
    decreases *p, 2int,
{
    let ghost ks = names_of(kids@);
    match p {
        Particle::Name(n) => {
            let r = name_ends(n, kids, s);
            proof {
                assert forall|j: int| 0 <= j < r@.len() implies r@[j] == reach(*p, ks, s@, j) by {
                    lemma_reach_name(*n, ks, s@, j);
                }
            }
            r
        },
        Particle::Group(a) => {
            let r = ends(a, kids, s);
            proof {
                lemma_reach_group(**a, ks, s@, r@);
            }
            r
        },
        Particle::Cat(a, b) => {
            let t = ends(a, kids, s);
            let r = ends(b, kids, &t);
            proof {
                lemma_reach_cat(**a, **b, ks, s@, t@, r@);
            }
            r
        },
        Particle::Alt(a, b) => {
            let ea = ends(a, kids, s);
            let eb = ends(b, kids, s);
            let r = or_marks(&ea, &eb);
            proof {
                lemma_reach_alt(**a, **b, ks, s@, ea@, eb@, r@);
            }
            r
        },
        Particle::Opt(a) => {
            let e = ends(a, kids, s);
            let r = or_marks(s, &e);
            proof {
                lemma_reach_opt(**a, ks, s@, e@, r@);
            }
            r
        },
        Particle::Star(a) => {
            let r = closure_ends(a, kids, s);
            proof {
                assert forall|j: int| 0 <= j < r@.len() implies r@[j] == reach(*p, ks, s@, j) by {
                    lemma_rep_closure(*p, **a, ks, s@, s@, j);
                }
            }
            r
        },
        Particle::Plus(a) => {
            let t = ends(a, kids, s);
            let r = closure_ends(a, kids, &t);
            proof {
                assert forall|j: int| 0 <= j < r@.len() implies r@[j] == reach(*p, ks, s@, j) by {
                    lemma_rep_closure(*p, **a, ks, s@, t@, j);
                }
            }
            r
        },
    }
}

/// Whether the element names `kids` form a word of the model `p`.
pub fn match_children_model(p: &Particle, kids: &Vec<String>) -> (r: bool)
    requires
        kids@.len() < usize::MAX,
    ensures
        r == accepts(*p, names_of(kids@), 0, kids@.len() as int),
{
    let n1 = kids.len() + 1;
    let st = single(n1, 0);
    let e = ends(p, kids, &st);
    let ghost ks = names_of(kids@);
    proof {
        let j = kids@.len() as int;
        if e@[j] {
            let i = choose|i: int| 0 <= i <= j && st@[i] && #[trigger] accepts(*p, ks, i, j);
            assert(i == 0);
        }
        if accepts(*p, ks, 0, j) {
            assert(st@[0]);
        }
    }
    e[kids.len()]
}


/// The characters of `s`.
fn chars_of(s: &str) -> (r: Vec<char>)
    ensures
        r@ == s@,
{
    let mut v: Vec<char> = Vec::new();
    for c in it: s.chars()
        invariant
            it.seq() == s@,
            v@ == s@.take(it.index() as int),
    {
        proof {
            assert(s@.take(it.index() + 1) =~= s@.take(it.index() as int).push(c));
        }
        v.push(c);
    }
    assert(s@.take(s@.len() as int) =~= s@);
    v
}

/// ASCII whitespace, as `split_ascii_whitespace` takes it.
pub open spec fn is_ascii_ws(c: char) -> bool {
    c == ' ' || c == '\t' || c == '\n' || c == '\x0C' || c == '\r'
}

/// The whitespace-separated tokens of `s`.
pub open spec fn ws_tokens(s: Seq<char>) -> Seq<Seq<char>>
    decreases s.len(),
{
    if s.len() == 0 {
        seq![]
    } else {
        let t = ws_tokens(s.drop_last());
        let c = s.last();
        if is_ascii_ws(c) {
            t
        } else if s.len() >= 2 && !is_ascii_ws(s[s.len() - 2]) && t.len() > 0 {
            t.update(t.len() - 1, t.last().push(c))
        } else {
            t.push(seq![c])
        }
    }
}

/// An XML `Name`.
pub open spec fn is_xml_name(s: Seq<char>) -> bool {
    s.len() > 0 && is_name_start(s[0] as u32, false) && forall|i: int| 1 <= i < s.len() ==> #[trigger] is_name_char(s[i] as u32, false)
}

/// An XML `Nmtoken`.
pub open spec fn is_xml_nmtoken(s: Seq<char>) -> bool {
    s.len() > 0 && forall|i: int| 0 <= i < s.len() ==> #[trigger] is_name_char(s[i] as u32, false)
}

fn is_ws_char(c: char) -> (r: bool)
    ensures
        r == is_ascii_ws(c),
{
    c == ' ' || c == '\t' || c == '\n' || c == '\x0C' || c == '\r'
}

/// Whether `v` is an XML `Name`.
pub fn is_name(v: &str) -> (r: bool)
    ensures
        r == is_xml_name(v@),
{
    let cs = chars_of(v);
    if cs.len() == 0 {
        return false;
    }
    if !xml_is_name_start_char(cs[0] as u32, false) {
        return false;
    }
    let mut i: usize = 1;
    while i < cs.len()
        invariant
            cs@ == v@,
            1 <= i <= cs@.len(),
            forall|k: int| 1 <= k < i ==> #[trigger] is_name_char(cs@[k] as u32, false),
        decreases cs.len() - i,
    {
        if !xml_is_name_char(cs[i] as u32, false) {
            return false;
        }
        i += 1;
    }
    true
}

/// Whether `v` is an XML `Nmtoken`.
pub fn is_nmtoken(v: &str) -> (r: bool)
    ensures
        r == is_xml_nmtoken(v@),
{
    let cs = chars_of(v);
    if cs.len() == 0 {
        return false;
    }
    let mut i: usize = 0;
    while i < cs.len()
        invariant
            cs@ == v@,
            0 <= i <= cs@.len(),
            forall|k: int| 0 <= k < i ==> #[trigger] is_name_char(cs@[k] as u32, false),
        decreases cs.len() - i,
    {
        if !xml_is_name_char(cs[i] as u32, false) {
            return false;
        }
        i += 1;
    }
    true
}

pub open spec fn views(v: Seq<String>) -> Seq<Seq<char>> {
    v.map_values(|x: String| x@)
}

/// The whitespace-separated tokens of `v`.
pub fn split_ws(v: &str) -> (r: Vec<String>)
    ensures
        views(r@) == ws_tokens(v@),
{
    let cs = chars_of(v);
    let mut out: Vec<String> = Vec::new();
    let mut i: usize = 0;
    while i < cs.len()
        invariant
            cs@ == v@,
            i <= cs@.len(),
            views(out@) == ws_tokens(cs@.take(i as int)),
        decreases cs.len() - i,
    {
        let c = cs[i];
        let ghost before = out@;
        proof {
            assert(cs@.take(i + 1).drop_last() =~= cs@.take(i as int));
            assert(cs@.take(i + 1).last() == c);
        }
        if is_ws_char(c) {
        } else if i >= 1 && !is_ws_char(cs[i - 1]) && out.len() > 0 {
            let k = out.len() - 1;
            let mut last = out[k].clone();
            push_char(&mut last, c);
            proof {
                assert(cs@.take(i + 1)[i - 1] == cs@[i - 1]);
            }
            out.set(k, last);
            proof {
                assert(views(out@) =~= views(before).update(k as int, views(before).last().push(c)));
            }
        } else {
            let mut t = String::new();
            push_char(&mut t, c);
            out.push(t);
            proof {
                if i >= 1 {
                    assert(cs@.take(i + 1)[i - 1] == cs@[i - 1]);
                }
                assert(views(out@) =~= views(before).push(seq![c]));
            }
        }
        i += 1;
    }
    assert(cs@.take(cs@.len() as int) =~= cs@);
    out
}

/// Every token is a name, and there is one.
pub open spec fn names_ok(v: Seq<char>) -> bool {
    ws_tokens(v).len() > 0 && forall|k: int| 0 <= k < ws_tokens(v).len() ==> #[trigger] is_xml_name(ws_tokens(v)[k])
}

/// Every token is an nmtoken, and there is one.
pub open spec fn nmtokens_ok(v: Seq<char>) -> bool {
    ws_tokens(v).len() > 0 && forall|k: int| 0 <= k < ws_tokens(v).len() ==> #[trigger] is_xml_nmtoken(ws_tokens(v)[k])
}

fn all_names(v: &str) -> (r: bool)
    ensures
        r == names_ok(v@),
{
    let t = split_ws(v);
    if t.len() == 0 {
        return false;
    }
    let mut k: usize = 0;
    while k < t.len()
        invariant
            views(t@) == ws_tokens(v@),
            k <= t@.len(),
            forall|x: int| 0 <= x < k ==> #[trigger] is_xml_name(ws_tokens(v@)[x]),
        decreases t.len() - k,
    {
        let ok = is_name(t[k].as_str());
        assert(views(t@)[k as int] == t@[k as int]@);
        if !ok {
            return false;
        }
        k += 1;
    }
    true
}

fn all_nmtokens(v: &str) -> (r: bool)
    ensures
        r == nmtokens_ok(v@),
{
    let t = split_ws(v);
    if t.len() == 0 {
        return false;
    }
    let mut k: usize = 0;
    while k < t.len()
        invariant
            views(t@) == ws_tokens(v@),
            k <= t@.len(),
            forall|x: int| 0 <= x < k ==> #[trigger] is_xml_nmtoken(ws_tokens(v@)[x]),
        decreases t.len() - k,
    {
        let ok = is_nmtoken(t[k].as_str());
        assert(views(t@)[k as int] == t@[k as int]@);
        if !ok {
            return false;
        }
        k += 1;
    }
    true
}

/// A default value satisfies the attribute type it is declared with.
pub open spec fn default_syntax_ok(att_type: Seq<char>, d: Seq<char>) -> bool {
    if att_type == "ID"@ || att_type == "IDREF"@ || att_type == "ENTITY"@ {
        is_xml_name(d)
    } else if att_type == "IDREFS"@ || att_type == "ENTITIES"@ {
        names_ok(d)
    } else if att_type == "NMTOKEN"@ {
        is_xml_nmtoken(d)
    } else if att_type == "NMTOKENS"@ {
        nmtokens_ok(d)
    } else {
        true
    }
}

fn default_syntax(att_type: &str, d: &str) -> (r: bool)
    ensures
        r == default_syntax_ok(att_type@, d@),
{
    if str_eq(att_type, "ID") || str_eq(att_type, "IDREF") || str_eq(att_type, "ENTITY") {
        is_name(d)
    } else if str_eq(att_type, "IDREFS") || str_eq(att_type, "ENTITIES") {
        all_names(d)
    } else if str_eq(att_type, "NMTOKEN") {
        is_nmtoken(d)
    } else if str_eq(att_type, "NMTOKENS") {
        all_nmtokens(d)
    } else {
        true
    }
}

/// `x` is among the views of `v`.
pub open spec fn has_view(v: Seq<String>, x: Seq<char>) -> bool {
    exists|k: int| 0 <= k < v.len() && #[trigger] v[k]@ == x
}

fn contains_str(v: &Vec<String>, x: &str) -> (r: bool)
    ensures
        r == has_view(v@, x@),
{
    let mut k: usize = 0;
    while k < v.len()
        invariant
            k <= v@.len(),
            forall|j: int| 0 <= j < k ==> v@[j]@ != x@,
        decreases v.len() - k,
    {
        if str_eq(v[k].as_str(), x) {
            return true;
        }
        k += 1;
    }
    false
}

/// No two entries of `v` are the same text.
pub open spec fn distinct_views(v: Seq<String>) -> bool {
    forall|a: int, b: int| 0 <= a < b < v.len() ==> v[a]@ != v[b]@
}

fn all_distinct(v: &Vec<String>) -> (r: bool)
    ensures
        r == distinct_views(v@),
{
    let mut b: usize = 0;
    while b < v.len()
        invariant
            b <= v@.len(),
            forall|x: int, y: int| 0 <= x < y < b ==> v@[x]@ != v@[y]@,
        decreases v.len() - b,
    {
        let mut a: usize = 0;
        while a < b
            invariant
                a <= b < v@.len(),
                forall|x: int| 0 <= x < a ==> v@[x]@ != v@[b as int]@,
            decreases b - a,
        {
            if str_eq(v[a].as_str(), v[b].as_str()) {
                return false;
            }
            a += 1;
        }
        b += 1;
    }
    true
}

/// The index of the binding declaration of element `name`.
pub open spec fn elem_index_from(els: Seq<(String, ElementDecl)>, name: Seq<char>, k: int) -> int
    decreases els.len() - k,
{
    if k < 0 || k >= els.len() {
        -1
    } else if els[k].0@ == name {
        k
    } else {
        elem_index_from(els, name, k + 1)
    }
}

pub open spec fn elem_decl_of(dtd: XmlDtd, name: Seq<char>) -> Option<ElementDecl> {
    let k = elem_index_from(dtd.elements@, name, 0);
    if k < 0 { None } else { Some(dtd.elements@[k].1) }
}

proof fn lemma_elem_index_range(els: Seq<(String, ElementDecl)>, name: Seq<char>, k: int)
    requires
        0 <= k,
    ensures
        elem_index_from(els, name, k) == -1 || (k <= elem_index_from(els, name, k) < els.len()
            && els[elem_index_from(els, name, k)].0@ == name),
    decreases els.len() - k,
{
    if k < els.len() && els[k].0@ != name {
        lemma_elem_index_range(els, name, k + 1);
    }
}

fn find_elem_decl<'a>(dtd: &'a XmlDtd, name: &str) -> (r: Option<&'a ElementDecl>)
    ensures
        r == (match elem_decl_of(*dtd, name@) { Some(d) => Some(&d), None => None::<&ElementDecl> }),
{
    let mut k: usize = 0;
    while k < dtd.elements.len()
        invariant
            k <= dtd.elements@.len(),
            elem_index_from(dtd.elements@, name@, 0) == elem_index_from(dtd.elements@, name@, k as int),
        decreases dtd.elements.len() - k,
    {
        if str_eq(dtd.elements[k].0.as_str(), name) {
            return Some(&dtd.elements[k].1);
        }
        k += 1;
    }
    None
}

/// One attribute declaration meets the constraints XML 1.0 puts on it: no
/// default on an ID, no NOTATION on an EMPTY element, a default of the
/// declared type and among the enumerated values, no repeated token, and
/// only declared notations named.
pub open spec fn attr_decl_ok(dtd: XmlDtd, k: int) -> bool {
    let e = dtd.attributes@[k].0;
    let ad = dtd.attributes@[k].2;
    &&& !(ad.att_type@ == "ID"@ && (ad.default == AttrDefault::Value || ad.default == AttrDefault::Fixed))
    &&& !(ad.att_type@ == "NOTATION"@ && elem_decl_of(dtd, e@) matches Some(ElementDecl::Empty))
    &&& (ad.default_value matches Some(d) ==> default_syntax_ok(ad.att_type@, d@)
        && (ad.enumerated@.len() > 0 ==> has_view(ad.enumerated@, d@)))
    &&& distinct_views(ad.enumerated@)
    &&& (ad.att_type@ == "NOTATION"@ ==> forall|j: int| 0 <= j < ad.enumerated@.len() ==> #[trigger] has_view(dtd.notations@, ad.enumerated@[j]@))
}

/// The declarations of `dtd` meet the validity constraints on declarations.
pub open spec fn declarations_ok(dtd: XmlDtd) -> bool {
    &&& dtd.duplicate_elements@.len() == 0
    &&& forall|k: int| 0 <= k < dtd.attributes@.len() ==> #[trigger] attr_decl_ok(dtd, k)
    &&& forall|k: int| 0 <= k < dtd.ndata_notations@.len() ==> #[trigger] has_view(dtd.notations@, dtd.ndata_notations@[k]@)
    &&& forall|k: int| 0 <= k < dtd.elements@.len() ==> (#[trigger] dtd.elements@[k].1 matches ElementDecl::Mixed(names) ==> distinct_views(names@))
}

fn check_attr_decl(dtd: &XmlDtd, k: usize) -> (r: Result<(), String>)
    requires
        k < dtd.attributes@.len(),
    ensures
        r is Ok <==> attr_decl_ok(*dtd, k as int),
{
    let e = dtd.attributes[k].0.as_str();
    let a = dtd.attributes[k].1.as_str();
    let ad = &dtd.attributes[k].2;
    let t = ad.att_type.as_str();
    if str_eq(t, "ID") && (ad.default == AttrDefault::Value || ad.default == AttrDefault::Fixed) {
        return Err(decl_msg("ID attribute ", a, e, " must be #IMPLIED or #REQUIRED"));
    }
    if str_eq(t, "NOTATION") {
        match find_elem_decl(dtd, e) {
            Some(ElementDecl::Empty) => {
                return Err(decl_msg("NOTATION attribute type on EMPTY element ", e, "", ""));
            },
            _ => {},
        }
    }
    match &ad.default_value {
        Some(d) => {
            if !default_syntax(t, d.as_str()) {
                return Err(decl_msg("invalid default value for attribute ", a, " of ", e));
            }
            if ad.enumerated.len() > 0 && !contains_str(&ad.enumerated, d.as_str()) {
                return Err(decl_msg("invalid default value for attribute ", a, " of ", e));
            }
        },
        None => {},
    }
    if !all_distinct(&ad.enumerated) {
        return Err(decl_msg("duplicate token in the enumeration of attribute ", a, " of ", e));
    }
    if str_eq(t, "NOTATION") {
        let mut j: usize = 0;
        while j < ad.enumerated.len()
            invariant
                k < dtd.attributes@.len(),
                *ad == dtd.attributes@[k as int].2,
                ad.att_type@ == "NOTATION"@,
                j <= ad.enumerated@.len(),
                forall|x: int| 0 <= x < j ==> #[trigger] has_view(dtd.notations@, ad.enumerated@[x]@),
            decreases ad.enumerated.len() - j,
        {
            if !contains_str(&dtd.notations, ad.enumerated[j].as_str()) {
                return Err(decl_msg("undeclared notation in attribute ", a, " of ", e));
            }
            j += 1;
        }
    }
    Ok(())
}

fn decl_msg(a: &str, b: &str, c: &str, d: &str) -> (r: String)
    ensures
        r@ == a@ + b@ + c@ + d@,
{
    let mut m = String::from_str(a);
    m.append(b);
    m.append(c);
    m.append(d);
    m
}

/// Check the declarations themselves, before any instance of them.
pub fn check_declarations(dtd: &XmlDtd) -> (r: Result<(), String>)
    ensures
        r is Ok <==> declarations_ok(*dtd),
{
    if dtd.duplicate_elements.len() > 0 {
        return Err(decl_msg("Redefinition of element ", dtd.duplicate_elements[0].as_str(), "", ""));
    }
    let mut k: usize = 0;
    while k < dtd.attributes.len()
        invariant
            dtd.duplicate_elements@.len() == 0,
            k <= dtd.attributes@.len(),
            forall|x: int| 0 <= x < k ==> #[trigger] attr_decl_ok(*dtd, x),
        decreases dtd.attributes.len() - k,
    {
        check_attr_decl(dtd, k)?;
        k += 1;
    }
    let mut k: usize = 0;
    while k < dtd.ndata_notations.len()
        invariant
            dtd.duplicate_elements@.len() == 0,
            forall|x: int| 0 <= x < dtd.attributes@.len() ==> #[trigger] attr_decl_ok(*dtd, x),
            k <= dtd.ndata_notations@.len(),
            forall|x: int| 0 <= x < k ==> #[trigger] has_view(dtd.notations@, dtd.ndata_notations@[x]@),
        decreases dtd.ndata_notations.len() - k,
    {
        if !contains_str(&dtd.notations, dtd.ndata_notations[k].as_str()) {
            return Err(decl_msg("NDATA names an undeclared notation ", dtd.ndata_notations[k].as_str(), "", ""));
        }
        k += 1;
    }
    let mut k: usize = 0;
    while k < dtd.elements.len()
        invariant
            dtd.duplicate_elements@.len() == 0,
            forall|x: int| 0 <= x < dtd.attributes@.len() ==> #[trigger] attr_decl_ok(*dtd, x),
            forall|x: int| 0 <= x < dtd.ndata_notations@.len() ==> #[trigger] has_view(dtd.notations@, dtd.ndata_notations@[x]@),
            k <= dtd.elements@.len(),
            forall|x: int| 0 <= x < k ==> (#[trigger] dtd.elements@[x].1 matches ElementDecl::Mixed(names) ==> distinct_views(names@)),
        decreases dtd.elements.len() - k,
    {
        match &dtd.elements[k].1 {
            ElementDecl::Mixed(names) => {
                if !all_distinct(names) {
                    return Err(decl_msg("duplicate name in the mixed content of ", dtd.elements[k].0.as_str(), "", ""));
                }
            },
            _ => {},
        }
        k += 1;
    }
    Ok(())
}


const MAX_MODEL_DEPTH: u32 = 256;

/// The characters of `s` that are not whitespace, in order.
pub open spec fn strip_ws(s: Seq<char>) -> Seq<char>
    decreases s.len(),
{
    if s.len() == 0 {
        seq![]
    } else if is_ascii_ws(s.last()) {
        strip_ws(s.drop_last())
    } else {
        strip_ws(s.drop_last()).push(s.last())
    }
}

/// The text of a particle, as a content model writes it without
/// whitespace.
pub open spec fn model_text(p: Particle) -> Seq<char>
    decreases p,
{
    match p {
        Particle::Name(n) => n@,
        Particle::Group(a) => seq!['('] + model_text(*a) + seq![')'],
        Particle::Cat(a, b) => model_text(*a) + seq![','] + model_text(*b),
        Particle::Alt(a, b) => model_text(*a) + seq!['|'] + model_text(*b),
        Particle::Opt(a) => model_text(*a).push('?'),
        Particle::Star(a) => model_text(*a).push('*'),
        Particle::Plus(a) => model_text(*a).push('+'),
    }
}

proof fn lemma_strip_concat(a: Seq<char>, b: Seq<char>)
    ensures
        strip_ws(a + b) == strip_ws(a) + strip_ws(b),
    decreases b.len(),
{
    if b.len() == 0 {
        assert(a + b =~= a);
        assert(strip_ws(b) =~= seq![]);
        assert(strip_ws(a) + strip_ws(b) =~= strip_ws(a));
    } else {
        assert((a + b).drop_last() =~= a + b.drop_last());
        assert((a + b).last() == b.last());
        lemma_strip_concat(a, b.drop_last());
        if is_ascii_ws(b.last()) {
        } else {
            assert(strip_ws(a) + strip_ws(b.drop_last()).push(b.last()) =~= (strip_ws(a) + strip_ws(b.drop_last())).push(b.last()));
        }
    }
}

/// Splitting a stretch of text splits what is left of it without
/// whitespace.
proof fn lemma_strip_split(s: Seq<char>, x: int, y: int, z: int)
    requires
        0 <= x <= y <= z <= s.len(),
    ensures
        strip_ws(s.subrange(x, z)) == strip_ws(s.subrange(x, y)) + strip_ws(s.subrange(y, z)),
{
    assert(s.subrange(x, z) =~= s.subrange(x, y) + s.subrange(y, z));
    lemma_strip_concat(s.subrange(x, y), s.subrange(y, z));
}

/// One character that is not whitespace.
proof fn lemma_strip_one(s: Seq<char>, x: int)
    requires
        0 <= x < s.len(),
        !is_ascii_ws(s[x]),
    ensures
        strip_ws(s.subrange(x, x + 1)) == seq![s[x]],
{
    let t = s.subrange(x, x + 1);
    assert(t.drop_last() =~= seq![]);
    assert(strip_ws(t.drop_last()) =~= seq![]);
}

/// Reads a children content model into particles.
struct ModelParser {
    cs: Vec<char>,
    i: usize,
}

impl ModelParser {
    spec fn ok(&self) -> bool {
        self.i <= self.cs@.len()
    }

    /// What the parser has read since position `from`, without whitespace.
    spec fn read_since(&self, from: int) -> Seq<char> {
        strip_ws(self.cs@.subrange(from, self.i as int))
    }

    fn ws(&mut self)
        requires
            old(self).ok(),
        ensures
            final(self).ok(),
            final(self).cs == old(self).cs,
            final(self).i >= old(self).i,
            final(self).read_since(old(self).i as int) == Seq::<char>::empty(),
            forall|k: int| old(self).i <= k < final(self).i ==> is_ascii_ws(#[trigger] final(self).cs@[k]),
            final(self).i == final(self).cs@.len() || !is_ascii_ws(final(self).cs@[final(self).i as int]),
    {
        let start = self.i;
        assert(self.cs@.subrange(start as int, start as int) =~= Seq::<char>::empty());
        while self.i < self.cs.len() && is_ws_char(self.cs[self.i])
            invariant
                self.ok(),
                self.cs == old(self).cs,
                start == old(self).i <= self.i,
                forall|k: int| old(self).i <= k < self.i ==> is_ascii_ws(#[trigger] self.cs@[k]),
                strip_ws(self.cs@.subrange(start as int, self.i as int)) == Seq::<char>::empty(),
            decreases self.cs@.len() - self.i,
        {
            proof {
                let t = self.cs@.subrange(start as int, self.i + 1);
                assert(t.drop_last() =~= self.cs@.subrange(start as int, self.i as int));
            }
            self.i = self.i + 1;
        }
    }

    fn name(&mut self) -> (r: Option<Particle>)
        requires
            old(self).ok(),
        ensures
            final(self).ok(),
            final(self).cs == old(self).cs,
            r is Some ==> final(self).i > old(self).i,
            r is None ==> final(self).i == old(self).i,
            r matches Some(p) ==> model_text(p) == final(self).read_since(old(self).i as int),
            r is None <==> !(old(self).i < old(self).cs@.len()
                && crate::chvalid::is_name_char(old(self).cs@[old(self).i as int] as u32, false)),
            forall|k: int| old(self).i <= k < final(self).i ==> crate::chvalid::is_name_char(#[trigger] final(self).cs@[k] as u32, false),
            final(self).i == final(self).cs@.len() || !crate::chvalid::is_name_char(final(self).cs@[final(self).i as int] as u32, false),
            r is Some ==> (r matches Some(Particle::Name(n)) && n@ == old(self).cs@.subrange(old(self).i as int, final(self).i as int)),
    {
        let start = self.i;
        let mut n = String::new();
        assert(self.cs@.subrange(start as int, start as int) =~= Seq::<char>::empty());
        while self.i < self.cs.len() && xml_is_name_char(self.cs[self.i] as u32, false)
            invariant
                self.ok(),
                self.cs == old(self).cs,
                start == old(self).i <= self.i,
                forall|k: int| old(self).i <= k < self.i ==> crate::chvalid::is_name_char(#[trigger] self.cs@[k] as u32, false),
                n@ == self.cs@.subrange(start as int, self.i as int),
                strip_ws(self.cs@.subrange(start as int, self.i as int)) == n@,
            decreases self.cs@.len() - self.i,
        {
            let c = self.cs[self.i];
            proof {
                let t = self.cs@.subrange(start as int, self.i + 1);
                assert(t.drop_last() =~= self.cs@.subrange(start as int, self.i as int));
                assert(t.last() == c);
                assert(!is_ascii_ws(c));
                assert(t =~= n@.push(c));
            }
            push_char(&mut n, c);
            self.i = self.i + 1;
        }
        if self.i == start {
            None
        } else {
            Some(Particle::Name(n))
        }
    }

    /// A particle with its occurrence indicator.
    fn cp(&mut self, depth: u32) -> (r: Option<Particle>)
        requires
            old(self).ok(),
        ensures
            final(self).ok(),
            final(self).cs == old(self).cs,
            final(self).i >= old(self).i,
            r is Some ==> final(self).i > old(self).i,
            r matches Some(p) ==> model_text(p) == final(self).read_since(old(self).i as int),
        decreases MAX_MODEL_DEPTH - depth, 1nat,
    {
        let i0 = self.i;
        self.ws();
        let i1 = self.i;
        let base = if self.i < self.cs.len() && self.cs[self.i] == '(' {
            if depth >= MAX_MODEL_DEPTH {
                return None;
            }
            self.group(depth + 1)
        } else {
            self.name()
        };
        let inner = match base {
            Some(p) => p,
            None => {
                return None;
            },
        };
        let i2 = self.i;
        proof {
            lemma_strip_split(self.cs@, i0 as int, i1 as int, i2 as int);
            assert(model_text(inner) == self.read_since(i0 as int));
        }
        if self.i < self.cs.len() {
            let q = self.cs[self.i];
            if q == '?' || q == '*' || q == '+' {
                self.i = self.i + 1;
                proof {
                    lemma_strip_split(self.cs@, i0 as int, i2 as int, i2 + 1);
                    lemma_strip_one(self.cs@, i2 as int);
                }
                let r = if q == '?' {
                    Particle::Opt(Box::new(inner))
                } else if q == '*' {
                    Particle::Star(Box::new(inner))
                } else {
                    Particle::Plus(Box::new(inner))
                };
                return Some(r);
            }
        }
        Some(inner)
    }

    /// `( cp (sep cp)* )` with one kind of separator.
    fn group(&mut self, depth: u32) -> (r: Option<Particle>)
        requires
            old(self).ok(),
            depth <= MAX_MODEL_DEPTH,
        ensures
            final(self).ok(),
            final(self).cs == old(self).cs,
            final(self).i >= old(self).i,
            r is Some ==> final(self).i > old(self).i,
            r matches Some(p) ==> model_text(p) == final(self).read_since(old(self).i as int),
        decreases MAX_MODEL_DEPTH - depth, 2nat,
    {
        if self.i >= self.cs.len() || self.cs[self.i] != '(' {
            return None;
        }
        let i0 = self.i;
        self.i = self.i + 1;
        proof {
            lemma_strip_one(self.cs@, i0 as int);
        }
        let first = match self.cp(depth) {
            Some(p) => p,
            None => {
                return None;
            },
        };
        let i1 = self.i;
        self.ws();
        let i2 = self.i;
        proof {
            lemma_strip_split(self.cs@, i0 as int, i0 + 1, i1 as int);
            lemma_strip_split(self.cs@, i0 as int, i1 as int, i2 as int);
            assert(self.read_since(i0 as int) == seq!['('] + model_text(first));
        }
        if self.i >= self.cs.len() {
            return None;
        }
        let sep = self.cs[self.i];
        if sep == ')' {
            self.i = self.i + 1;
            proof {
                lemma_strip_split(self.cs@, i0 as int, i2 as int, i2 + 1);
                lemma_strip_one(self.cs@, i2 as int);
            }
            return Some(Particle::Group(Box::new(first)));
        }
        if sep != ',' && sep != '|' {
            return None;
        }
        let mut acc = first;
        loop
            invariant
                self.ok(),
                self.cs == old(self).cs,
                self.i > old(self).i,
                i0 == old(self).i,
                sep == ',' || sep == '|',
                self.read_since(i0 as int) == seq!['('] + model_text(acc),
            decreases self.cs@.len() - self.i,
        {
            if self.i >= self.cs.len() || self.cs[self.i] != sep {
                return None;
            }
            let j0 = self.i;
            self.i = self.i + 1;
            proof {
                lemma_strip_split(self.cs@, i0 as int, j0 as int, j0 + 1);
                lemma_strip_one(self.cs@, j0 as int);
            }
            let next = match self.cp(depth) {
                Some(p) => p,
                None => {
                    return None;
                },
            };
            let j1 = self.i;
            proof {
                lemma_strip_split(self.cs@, i0 as int, j0 + 1, j1 as int);
            }
            let ghost before = acc;
            acc = if sep == ',' {
                Particle::Cat(Box::new(acc), Box::new(next))
            } else {
                Particle::Alt(Box::new(acc), Box::new(next))
            };
            proof {
                assert(self.read_since(i0 as int) == seq!['('] + model_text(acc));
            }
            self.ws();
            let j2 = self.i;
            proof {
                lemma_strip_split(self.cs@, i0 as int, j1 as int, j2 as int);
            }
            if self.i < self.cs.len() && self.cs[self.i] == ')' {
                self.i = self.i + 1;
                proof {
                    lemma_strip_split(self.cs@, i0 as int, j2 as int, j2 + 1);
                    lemma_strip_one(self.cs@, j2 as int);
                }
                return Some(Particle::Group(Box::new(acc)));
            }
        }
    }
}

/// The particles of a children content model: what reads back, without
/// whitespace, as the model's own text; `None` when the text is not one
/// particle.
fn parse_model(spec: &str) -> (r: Option<Particle>)
    ensures
        r matches Some(p) ==> model_text(p) == strip_ws(spec@),
{
    let mut p = ModelParser { cs: chars_of(spec), i: 0 };
    let r = p.cp(0);
    let i1 = p.i;
    p.ws();
    if p.i != p.cs.len() {
        return None;
    }
    proof {
        if r is Some {
            lemma_strip_split(p.cs@, 0, i1 as int, p.i as int);
            assert(p.cs@.subrange(0, p.cs@.len() as int) =~= spec@);
        }
    }
    r
}

/// The qualified name of node `id`, as declarations name it.
pub open spec fn qname_of(n: Node) -> Seq<char> {
    match n.prefix {
        Some(p) => p@ + seq![':'] + crate::tree::node_name(n),
        None => crate::tree::node_name(n),
    }
}

/// The children of `id`, in order.
pub open spec fn kids_of(doc: XmlDoc, id: NodeId) -> Seq<NodeId> {
    crate::tree::chain_of(doc.nodes(), doc.nodes()[id.0 as int].first_child, doc.nodes().len())
}

/// The attributes of `id`, in order.
pub open spec fn attrs_of(doc: XmlDoc, id: NodeId) -> Seq<NodeId> {
    crate::tree::chain_of(doc.nodes(), doc.nodes()[id.0 as int].first_attr, doc.nodes().len())
}

/// Character data that a children model leaves no room for: text that is
/// not all whitespace, or a CDATA section.
pub open spec fn is_char_data(n: Node) -> bool {
    (n.kind == NodeKind::Text && !crate::tree::all_blank_bytes(vstd::utf8::encode_utf8(n.content@)))
        || n.kind == NodeKind::CData
}

/// The qualified names of the elements among `kids`, in order.
pub open spec fn element_names(doc: XmlDoc, kids: Seq<NodeId>) -> Seq<Seq<char>>
    decreases kids.len(),
{
    if kids.len() == 0 {
        seq![]
    } else {
        let rest = element_names(doc, kids.drop_last());
        let n = doc.nodes()[kids.last().0 as int];
        if n.kind == NodeKind::Element { rest.push(qname_of(n)) } else { rest }
    }
}

/// The content of element `id` is what `decl` allows: nothing for EMPTY,
/// anything for ANY, only the listed elements beside text for mixed
/// content, and for a children model no character data and element names
/// that form a word of a model reading back as the declared one.
pub open spec fn content_ok(doc: XmlDoc, id: NodeId, decl: ElementDecl) -> bool {
    let kids = kids_of(doc, id);
    match decl {
        ElementDecl::Empty => doc.nodes()[id.0 as int].first_child is None,
        ElementDecl::Any => true,
        ElementDecl::Mixed(allowed) => forall|i: int|
            0 <= i < kids.len() && (#[trigger] doc.nodes()[kids[i].0 as int]).kind == NodeKind::Element && allowed@.len() > 0
                ==> has_view(allowed@, qname_of(doc.nodes()[kids[i].0 as int])),
        ElementDecl::Children(spec) => {
            &&& forall|i: int| 0 <= i < kids.len() ==> !is_char_data(#[trigger] doc.nodes()[kids[i].0 as int])
            &&& exists|p: Particle|
                model_text(p) == strip_ws(spec@) && #[trigger] accepts(p, element_names(doc, kids), 0, element_names(doc, kids).len() as int)
        },
    }
}

/// The value of the first attribute among `attrs` whose qualified name is `qn`.
pub open spec fn qattr_value(doc: XmlDoc, attrs: Seq<NodeId>, qn: Seq<char>) -> Option<Seq<char>>
    decreases attrs.len(),
{
    if attrs.len() == 0 {
        None
    } else if qname_of(doc.nodes()[attrs[0].0 as int]) == qn {
        Some(doc.nodes()[attrs[0].0 as int].content@)
    } else {
        qattr_value(doc, attrs.drop_first(), qn)
    }
}

/// A value has the syntax its attribute type asks for, and the entities it
/// names are declared unparsed entities.
pub open spec fn value_ok(dtd: XmlDtd, att_type: Seq<char>, v: Seq<char>) -> bool {
    if att_type == "ID"@ || att_type == "IDREF"@ {
        is_xml_name(v)
    } else if att_type == "IDREFS"@ {
        names_ok(v)
    } else if att_type == "NMTOKEN"@ {
        is_xml_nmtoken(v)
    } else if att_type == "NMTOKENS"@ {
        nmtokens_ok(v)
    } else if att_type == "ENTITY"@ || att_type == "ENTITIES"@ {
        forall|k: int| 0 <= k < ws_tokens(v).len() ==> is_xml_name(#[trigger] ws_tokens(v)[k])
            && has_view(dtd.unparsed_entities@, ws_tokens(v)[k])
    } else {
        true
    }
}

/// The IDs an attribute value of type `att_type` refers to.
pub open spec fn ref_tokens(att_type: Seq<char>, v: Seq<char>) -> Seq<Seq<char>> {
    if att_type == "IDREF"@ {
        seq![v]
    } else if att_type == "IDREFS"@ {
        ws_tokens(v)
    } else {
        seq![]
    }
}

/// Element `id` meets attribute declaration `k`: a required attribute is
/// present, a fixed one has the fixed value, and a value present is among
/// the enumerated ones and of the declared type.
pub open spec fn attr_decl_met(doc: XmlDoc, id: NodeId, dtd: XmlDtd, k: int) -> bool {
    let ad = dtd.attributes@[k].2;
    match qattr_value(doc, attrs_of(doc, id), dtd.attributes@[k].1@) {
        None => ad.default != AttrDefault::Required,
        Some(v) => {
            &&& (ad.default == AttrDefault::Fixed && ad.default_value is Some ==> v == ad.default_value.unwrap()@)
            &&& (ad.enumerated@.len() > 0 ==> has_view(ad.enumerated@, v))
            &&& value_ok(dtd, ad.att_type@, v)
        },
    }
}

/// Declaration `k` binds an attribute of element `name` and has type `t`.
pub open spec fn binds(dtd: XmlDtd, name: Seq<char>, k: int, t: Seq<char>) -> bool {
    dtd.attributes@[k].0@ == name && crate::dtd::binding_decl(dtd, k) && dtd.attributes@[k].2.att_type@ == t
}

/// How many of the first `k` declarations bind an ID attribute of `name`.
pub open spec fn id_decls(dtd: XmlDtd, name: Seq<char>, k: int) -> nat
    decreases k,
{
    if k <= 0 {
        0
    } else {
        id_decls(dtd, name, k - 1) + if binds(dtd, name, k - 1, "ID"@) { 1nat } else { 0nat }
    }
}

/// Element `id` meets the DTD on its own: it is declared when the DTD
/// declares elements, its content matches its declaration, it meets every
/// binding attribute declaration for it, at most one of them is of type ID,
/// and when the DTD declares elements each of its attributes is declared.
pub open spec fn element_ok(doc: XmlDoc, id: NodeId, dtd: XmlDtd) -> bool {
    let n = doc.nodes()[id.0 as int];
    let name = qname_of(n);
    n.kind == NodeKind::Element ==> {
        &&& (dtd.elements@.len() > 0 ==> elem_decl_of(dtd, name) is Some)
        &&& (elem_decl_of(dtd, name) matches Some(d) ==> content_ok(doc, id, d))
        &&& forall|k: int|
            0 <= k < dtd.attributes@.len() && (#[trigger] dtd.attributes@[k]).0@ == name && crate::dtd::binding_decl(dtd, k)
                ==> attr_decl_met(doc, id, dtd, k)
        &&& id_decls(dtd, name, dtd.attributes@.len() as int) <= 1
        &&& (dtd.elements@.len() > 0 ==> forall|i: int|
            0 <= i < attrs_of(doc, id).len() ==> crate::dtd::attr_declared(dtd, name, qname_of(#[trigger] doc.nodes()[attrs_of(doc, id)[i].0 as int])))
    }
}

/// The ID values element `id` carries, by the first `k` declarations.
pub open spec fn id_values(doc: XmlDoc, id: NodeId, dtd: XmlDtd, k: int) -> Seq<Seq<char>>
    decreases k,
{
    if k <= 0 {
        seq![]
    } else {
        let n = doc.nodes()[id.0 as int];
        let rest = id_values(doc, id, dtd, k - 1);
        if n.kind == NodeKind::Element && binds(dtd, qname_of(n), k - 1, "ID"@) {
            match qattr_value(doc, attrs_of(doc, id), dtd.attributes@[k - 1].1@) {
                Some(v) => rest.push(v),
                None => rest,
            }
        } else {
            rest
        }
    }
}

/// No ID value that element `id` carries is among `seen`.
pub open spec fn ids_fresh(doc: XmlDoc, id: NodeId, dtd: XmlDtd, seen: Seq<String>) -> bool {
    let vals = id_values(doc, id, dtd, dtd.attributes@.len() as int);
    forall|j: int| 0 <= j < vals.len() ==> !has_view(seen, #[trigger] vals[j])
}

/// The declaration of element `id`, if any, is not a children content model.
pub open spec fn no_children_model(doc: XmlDoc, id: NodeId, dtd: XmlDtd) -> bool {
    !(elem_decl_of(dtd, qname_of(doc.nodes()[id.0 as int])) matches Some(ElementDecl::Children(_)))
}

/// ID declarations only add up.
proof fn lemma_id_decls_mono(dtd: XmlDtd, name: Seq<char>, j: int, k: int)
    requires
        0 <= j <= k,
    ensures
        id_decls(dtd, name, j) <= id_decls(dtd, name, k),
    decreases k - j,
{
    if j < k {
        lemma_id_decls_mono(dtd, name, j, k - 1);
    }
}

/// With no ID declaration among the first `k`, no ID value is collected.
proof fn lemma_no_id_values(doc: XmlDoc, id: NodeId, dtd: XmlDtd, k: int)
    requires
        doc.nodes()[id.0 as int].kind == NodeKind::Element,
        id_decls(dtd, qname_of(doc.nodes()[id.0 as int]), k) == 0,
    ensures
        id_values(doc, id, dtd, k) == Seq::<Seq<char>>::empty(),
    decreases k,
{
    if k > 0 {
        lemma_no_id_values(doc, id, dtd, k - 1);
    }
}

/// The ID values of the first `j` declarations begin those of the first `k`.
proof fn lemma_id_values_prefix(doc: XmlDoc, id: NodeId, dtd: XmlDtd, j: int, k: int)
    requires
        0 <= j <= k,
    ensures
        id_values(doc, id, dtd, j).len() <= id_values(doc, id, dtd, k).len(),
        forall|m: int| 0 <= m < id_values(doc, id, dtd, j).len()
            ==> #[trigger] id_values(doc, id, dtd, k)[m] == id_values(doc, id, dtd, j)[m],
    decreases k - j,
{
    if j < k {
        lemma_id_values_prefix(doc, id, dtd, j, k - 1);
    }
}

/// The IDs element `id` refers to, by the first `k` declarations.
pub open spec fn ref_values(doc: XmlDoc, id: NodeId, dtd: XmlDtd, k: int) -> Seq<Seq<char>>
    decreases k,
{
    if k <= 0 {
        seq![]
    } else {
        let n = doc.nodes()[id.0 as int];
        let rest = ref_values(doc, id, dtd, k - 1);
        let e = dtd.attributes@[k - 1];
        if n.kind == NodeKind::Element && e.0@ == qname_of(n) && crate::dtd::binding_decl(dtd, k - 1) {
            match qattr_value(doc, attrs_of(doc, id), e.1@) {
                Some(v) => rest + ref_tokens(e.2.att_type@, v),
                None => rest,
            }
        } else {
            rest
        }
    }
}

/// The value of the attribute of `id` whose qualified name is `qn`.
fn attr_by_qname(doc: &XmlDoc, id: NodeId, qn: &str) -> (r: Option<String>)
    requires
        doc.wf(),
        doc.has(id),
    ensures
        crate::tree::opt_string_view(r) == qattr_value(*doc, attrs_of(*doc, id), qn@),
{
    let attrs = doc.attrs(id);
    let mut i: usize = 0;
    assert(attrs@.skip(0) =~= attrs@);
    while i < attrs.len()
        invariant
            doc.wf(),
            attrs@ == attrs_of(*doc, id),
            forall|k: int| 0 <= k < attrs@.len() ==> doc.has(#[trigger] attrs@[k]),
            i <= attrs@.len(),
            qattr_value(*doc, attrs@, qn@) == qattr_value(*doc, attrs@.skip(i as int), qn@),
        decreases attrs.len() - i,
    {
        let x = attrs[i];
        proof {
            assert(attrs@.skip(i as int)[0] == x);
            assert(attrs@.skip(i as int).drop_first() =~= attrs@.skip(i + 1));
        }
        if str_eq(doc.qname(x).as_str(), qn) {
            return Some(String::from_str(doc.content(x)));
        }
        i += 1;
    }
    assert(attrs@.skip(i as int).len() == 0);
    None
}

fn syntax_err(aname: &str, name: &str) -> (r: String) {
    decl_msg("Syntax of value for attribute ", aname, " of ", name)
}

/// The validity of one attribute value against its binding declaration;
/// ID values and IDREF targets are collected for the document-wide checks.
fn check_attr_value(
    dtd: &XmlDtd,
    name: &str,
    aname: &str,
    att_type: &str,
    v: &str,
    ids: &mut Vec<String>,
    idrefs: &mut Vec<String>,
) -> (r: Result<(), String>)
    ensures
        r is Ok ==> value_ok(*dtd, att_type@, v@),
        r is Ok ==> views(final(ids)@) == views(old(ids)@) + (if att_type@ == "ID"@ { seq![v@] } else { seq![] }),
        r is Ok && att_type@ == "ID"@ ==> !has_view(old(ids)@, v@),
        r is Ok ==> views(final(idrefs)@) == views(old(idrefs)@) + ref_tokens(att_type@, v@),
        r is Ok <==> (value_ok(*dtd, att_type@, v@) && !(att_type@ == "ID"@ && has_view(old(ids)@, v@))),
{
    proof {
        reveal_strlit("ID");
        reveal_strlit("IDREF");
        reveal_strlit("IDREFS");
        reveal_strlit("NMTOKEN");
        reveal_strlit("NMTOKENS");
        reveal_strlit("ENTITY");
        reveal_strlit("ENTITIES");
    }
    if str_eq(att_type, "ID") || str_eq(att_type, "IDREF") {
        if !is_name(v) {
            return Err(syntax_err(aname, name));
        }
        if str_eq(att_type, "ID") {
            if contains_str(ids, v) {
                return Err(decl_msg("ID ", v, " already defined", ""));
            }
            ids.push(String::from_str(v));
            assert(views(ids@) =~= views(old(ids)@) + seq![v@]);
            assert(att_type@ == "ID"@);
            assert("ID"@.len() == 2);
            assert("IDREF"@.len() == 5);
            assert("IDREFS"@.len() == 6);
            assert(ref_tokens(att_type@, v@) =~= Seq::<Seq<char>>::empty());
            assert(views(idrefs@) =~= views(old(idrefs)@) + ref_tokens(att_type@, v@));
        } else {
            idrefs.push(String::from_str(v));
            assert(views(idrefs@) =~= views(old(idrefs)@) + seq![v@]);
            assert(views(ids@) =~= views(old(ids)@) + seq![]);
        }
    } else if str_eq(att_type, "IDREFS") {
        let parts = split_ws(v);
        if parts.len() == 0 {
            return Err(syntax_err(aname, name));
        }
        let mut k: usize = 0;
        while k < parts.len()
            invariant
                views(parts@) == ws_tokens(v@),
                k <= parts@.len(),
                ids@ == old(ids)@,
                views(idrefs@) == views(old(idrefs)@) + ws_tokens(v@).take(k as int),
                att_type@ == "IDREFS"@,
                forall|x: int| 0 <= x < k ==> #[trigger] is_xml_name(ws_tokens(v@)[x]),
            decreases parts.len() - k,
        {
            assert(views(parts@)[k as int] == parts@[k as int]@);
            if !is_name(parts[k].as_str()) {
                proof {
                    reveal_strlit("ID");
                    reveal_strlit("IDREF");
                    reveal_strlit("IDREFS");
                    assert("IDREFS"@.len() == 6 && "ID"@.len() == 2 && "IDREF"@.len() == 5);
                }
                assert(!is_xml_name(ws_tokens(v@)[k as int]));
                return Err(syntax_err(aname, name));
            }
            let ghost before = idrefs@;
            idrefs.push(parts[k].clone());
            assert(views(idrefs@) =~= views(before).push(ws_tokens(v@)[k as int]));
            assert(ws_tokens(v@).take(k + 1) =~= ws_tokens(v@).take(k as int).push(ws_tokens(v@)[k as int]));
            k += 1;
        }
        assert(ws_tokens(v@).take(k as int) =~= ws_tokens(v@));
        assert(views(ids@) =~= views(old(ids)@) + seq![]);
    } else if str_eq(att_type, "NMTOKEN") {
        if !is_nmtoken(v) {
            return Err(syntax_err(aname, name));
        }
        assert(views(ids@) =~= views(old(ids)@) + seq![]);
        assert(views(idrefs@) =~= views(old(idrefs)@) + seq![]);
    } else if str_eq(att_type, "NMTOKENS") {
        if !all_nmtokens(v) {
            return Err(syntax_err(aname, name));
        }
        assert(views(ids@) =~= views(old(ids)@) + seq![]);
        assert(views(idrefs@) =~= views(old(idrefs)@) + seq![]);
    } else if str_eq(att_type, "ENTITY") || str_eq(att_type, "ENTITIES") {
        let parts = split_ws(v);
        let mut k: usize = 0;
        while k < parts.len()
            invariant
                views(parts@) == ws_tokens(v@),
                k <= parts@.len(),
                forall|x: int| 0 <= x < k ==> is_xml_name(#[trigger] ws_tokens(v@)[x]) && has_view(dtd.unparsed_entities@, ws_tokens(v@)[x]),
                att_type@ == "ENTITY"@ || att_type@ == "ENTITIES"@,
            decreases parts.len() - k,
        {
            assert(views(parts@)[k as int] == parts@[k as int]@);
            if !is_name(parts[k].as_str()) {
                proof {
                    reveal_strlit("ID");
                    reveal_strlit("IDREF");
                    reveal_strlit("IDREFS");
                    reveal_strlit("NMTOKEN");
                    reveal_strlit("NMTOKENS");
                    reveal_strlit("ENTITY");
                    reveal_strlit("ENTITIES");
                    assert("ID"@[0] != "ENTITY"@[0] && "ID"@[0] != "ENTITIES"@[0]);
                    assert("IDREF"@[0] != "ENTITY"@[0] && "IDREF"@[0] != "ENTITIES"@[0]);
                    assert("IDREFS"@[0] != "ENTITY"@[0] && "IDREFS"@[0] != "ENTITIES"@[0]);
                    assert("NMTOKEN"@[0] != "ENTITY"@[0] && "NMTOKEN"@[0] != "ENTITIES"@[0]);
                    assert("NMTOKENS"@[0] != "ENTITY"@[0] && "NMTOKENS"@[0] != "ENTITIES"@[0]);
                }
                assert(!is_xml_name(ws_tokens(v@)[k as int]));
                return Err(syntax_err(aname, name));
            }
            if !contains_str(&dtd.unparsed_entities, parts[k].as_str()) {
                proof {
                    reveal_strlit("ID");
                    reveal_strlit("IDREF");
                    reveal_strlit("IDREFS");
                    reveal_strlit("NMTOKEN");
                    reveal_strlit("NMTOKENS");
                    reveal_strlit("ENTITY");
                    reveal_strlit("ENTITIES");
                    assert("ID"@[0] != "ENTITY"@[0] && "ID"@[0] != "ENTITIES"@[0]);
                    assert("IDREF"@[0] != "ENTITY"@[0] && "IDREF"@[0] != "ENTITIES"@[0]);
                    assert("IDREFS"@[0] != "ENTITY"@[0] && "IDREFS"@[0] != "ENTITIES"@[0]);
                    assert("NMTOKEN"@[0] != "ENTITY"@[0] && "NMTOKEN"@[0] != "ENTITIES"@[0]);
                    assert("NMTOKENS"@[0] != "ENTITY"@[0] && "NMTOKENS"@[0] != "ENTITIES"@[0]);
                }
                assert(!has_view(dtd.unparsed_entities@, ws_tokens(v@)[k as int]));
                return Err(decl_msg("ENTITY attribute ", aname, " references an unknown entity ", parts[k].as_str()));
            }
            k += 1;
        }
        assert(views(ids@) =~= views(old(ids)@) + seq![]);
        assert(views(idrefs@) =~= views(old(idrefs)@) + seq![]);
    } else {
        assert(views(ids@) =~= views(old(ids)@) + seq![]);
        assert(views(idrefs@) =~= views(old(idrefs)@) + seq![]);
    }
    Ok(())
}

/// The qualified names of the element children among `kids`.
fn element_child_names(doc: &XmlDoc, kids: &Vec<NodeId>) -> (r: Vec<String>)
    requires
        doc.wf(),
        forall|k: int| 0 <= k < kids@.len() ==> doc.has(#[trigger] kids@[k]),
    ensures
        names_of(r@) == element_names(*doc, kids@),
        r@.len() <= kids@.len(),
{
    let mut out: Vec<String> = Vec::new();
    let mut i: usize = 0;
    while i < kids.len()
        invariant
            doc.wf(),
            forall|k: int| 0 <= k < kids@.len() ==> doc.has(#[trigger] kids@[k]),
            i <= kids@.len(),
            names_of(out@) == element_names(*doc, kids@.take(i as int)),
            out@.len() <= i,
        decreases kids.len() - i,
    {
        let x = kids[i];
        proof {
            assert(kids@.take(i + 1).drop_last() =~= kids@.take(i as int));
            assert(kids@.take(i + 1).last() == x);
        }
        if doc.kind(x) == NodeKind::Element {
            let ghost before = out@;
            out.push(doc.qname(x));
            assert(names_of(out@) =~= names_of(before).push(qname_of(doc.nodes()[x.0 as int])));
        }
        i += 1;
    }
    assert(kids@.take(i as int) =~= kids@);
    out
}

/// The content of element `id` against its declaration.
fn check_content(doc: &XmlDoc, id: NodeId, name: &str, decl: &ElementDecl) -> (r: Result<(), String>)
    requires
        doc.wf(),
        doc.has(id),
    ensures
        r is Ok ==> content_ok(*doc, id, *decl),
        !(decl is Children) ==> (r is Ok <==> content_ok(*doc, id, *decl)),
        decl is Children ==> ((exists|i: int| 0 <= i < kids_of(*doc, id).len()
            && is_char_data(#[trigger] doc.nodes()[kids_of(*doc, id)[i].0 as int]))
            <==> (r matches Err(m) && m@ == "character data not allowed in "@ + name@)),
{
    proof {
        reveal_strlit("character data not allowed in ");
        reveal_strlit("too many children in ");
        reveal_strlit("content of ");
        reveal_strlit("");
        assert("character data not allowed in "@[0] == 'c' && "character data not allowed in "@[1] == 'h');
        assert("too many children in "@[0] == 't');
        assert("content of "@[1] == 'o');
    }
    match decl {
        ElementDecl::Empty => {
            if doc.first_child(id).is_some() {
                return Err(decl_msg("element ", name, " must be EMPTY", ""));
            }
            Ok(())
        },
        ElementDecl::Any => Ok(()),
        ElementDecl::Mixed(allowed) => {
            let kids = doc.children(id);
            let mut i: usize = 0;
            while i < kids.len()
                invariant
                    doc.wf(),
                    kids@ == kids_of(*doc, id),
                    forall|k: int| 0 <= k < kids@.len() ==> doc.has(#[trigger] kids@[k]),
                    i <= kids@.len(),
                    forall|k: int|
                        0 <= k < i && (#[trigger] doc.nodes()[kids@[k].0 as int]).kind == NodeKind::Element && allowed@.len() > 0
                            ==> has_view(allowed@, qname_of(doc.nodes()[kids@[k].0 as int])),
                    *decl == ElementDecl::Mixed(*allowed),
                decreases kids.len() - i,
            {
                let x = kids[i];
                if doc.kind(x) == NodeKind::Element && allowed.len() > 0 && !contains_str(allowed, doc.qname(x).as_str()) {
                    assert(!has_view(allowed@, qname_of(doc.nodes()[kids@[i as int].0 as int])));
                    return Err(decl_msg("element ", doc.qname(x).as_str(), " not allowed in mixed ", name));
                }
                i += 1;
            }
            Ok(())
        },
        ElementDecl::Children(spec) => {
            let kids = doc.children(id);
            let mut i: usize = 0;
            while i < kids.len()
                invariant
                    doc.wf(),
                    kids@ == kids_of(*doc, id),
                    forall|k: int| 0 <= k < kids@.len() ==> doc.has(#[trigger] kids@[k]),
                    i <= kids@.len(),
                    forall|k: int| 0 <= k < i ==> !is_char_data(#[trigger] doc.nodes()[kids@[k].0 as int]),
                    *decl == ElementDecl::Children(*spec),
                decreases kids.len() - i,
            {
                let x = kids[i];
                let k = doc.kind(x);
                if (k == NodeKind::Text && !doc.xml_is_blank_node(x)) || k == NodeKind::CData {
                    let m = decl_msg("character data not allowed in ", name, "", "");
                    proof {
                        reveal_strlit("");
                        assert(is_char_data(doc.nodes()[kids_of(*doc, id)[i as int].0 as int]));
                        assert(m@ =~= "character data not allowed in "@ + name@);
                    }
                    return Err(m);
                }
                i += 1;
            }
            assert(forall|j: int| 0 <= j < kids_of(*doc, id).len() ==> !is_char_data(#[trigger] doc.nodes()[kids_of(*doc, id)[j].0 as int]));
            let names = element_child_names(doc, &kids);
            if names.len() >= usize::MAX {
                let m = decl_msg("too many children in ", name, "", "");
                assert(m@[0] != ("character data not allowed in "@ + name@)[0]);
                return Err(m);
            }
            let m = decl_msg("content of ", name, " does not match ", spec.as_str());
            assert(m@[1] != ("character data not allowed in "@ + name@)[1]);
            match parse_model(spec.as_str()) {
                Some(p) => {
                    if match_children_model(&p, &names) {
                        assert(names@.len() == element_names(*doc, kids_of(*doc, id)).len());
                        assert(accepts(p, element_names(*doc, kids_of(*doc, id)), 0, element_names(*doc, kids_of(*doc, id)).len() as int));
                        Ok(())
                    } else {
                        Err(m)
                    }
                },
                None => Err(m),
            }
        },
    }
}

/// `xmlValidateOneElement`: element `id` against the DTD. Its ID values are
/// added to `ids`, which must not hold them yet, and the IDs it refers to
/// to `idrefs`.
fn validate_element(
    doc: &XmlDoc,
    id: NodeId,
    dtd: &XmlDtd,
    ids: &mut Vec<String>,
    idrefs: &mut Vec<String>,
) -> (r: Result<(), String>)
    requires
        doc.wf(),
        doc.has(id),
    ensures
        r is Ok ==> element_ok(*doc, id, *dtd),
        r is Ok ==> views(final(ids)@) == views(old(ids)@) + id_values(*doc, id, *dtd, dtd.attributes@.len() as int),
        r is Ok ==> (distinct_views(old(ids)@) ==> distinct_views(final(ids)@)),
        r is Ok ==> views(final(idrefs)@) == views(old(idrefs)@) + ref_values(*doc, id, *dtd, dtd.attributes@.len() as int),
        element_ok(*doc, id, *dtd) && no_children_model(*doc, id, *dtd) && ids_fresh(*doc, id, *dtd, old(ids)@) ==> r is Ok,
{
    if doc.kind(id) != NodeKind::Element {
        proof {
            lemma_no_values(*doc, id, *dtd, dtd.attributes@.len() as int);
        }
        assert(views(ids@) =~= views(old(ids)@) + seq![]);
        assert(views(idrefs@) =~= views(old(idrefs)@) + seq![]);
        return Ok(());
    }
    let name = doc.qname(id);
    let decl = find_elem_decl(dtd, name.as_str());
    let ghost good = element_ok(*doc, id, *dtd) && no_children_model(*doc, id, *dtd) && ids_fresh(*doc, id, *dtd, old(ids)@);
    if dtd.elements.len() > 0 && decl.is_none() {
        return Err(decl_msg("No declaration for element ", name.as_str(), "", ""));
    }
    match decl {
        Some(d) => {
            check_content(doc, id, name.as_str(), d)?;
        },
        None => {},
    }
    proof {
        if good {
            lemma_id_decls_mono(*dtd, name@, 0, dtd.attributes@.len() as int);
        }
    }
    let mut id_attrs: usize = 0;
    let mut k: usize = 0;
    assert(views(ids@) =~= views(old(ids)@) + id_values(*doc, id, *dtd, 0));
    assert(views(idrefs@) =~= views(old(idrefs)@) + ref_values(*doc, id, *dtd, 0));
    while k < dtd.attributes.len()
        invariant
            doc.wf(),
            doc.has(id),
            doc.nodes()[id.0 as int].kind == NodeKind::Element,
            name@ == qname_of(doc.nodes()[id.0 as int]),
            k <= dtd.attributes@.len(),
            id_attrs <= k,
            id_attrs == id_decls(*dtd, name@, k as int),
            forall|j: int|
                0 <= j < k && (#[trigger] dtd.attributes@[j]).0@ == name@ && crate::dtd::binding_decl(*dtd, j)
                    ==> attr_decl_met(*doc, id, *dtd, j),
            views(ids@) == views(old(ids)@) + id_values(*doc, id, *dtd, k as int),
            distinct_views(old(ids)@) ==> distinct_views(ids@),
            views(idrefs@) == views(old(idrefs)@) + ref_values(*doc, id, *dtd, k as int),
            good == (element_ok(*doc, id, *dtd) && no_children_model(*doc, id, *dtd) && ids_fresh(*doc, id, *dtd, old(ids)@)),
        decreases dtd.attributes.len() - k,
    {
        if !str_eq(dtd.attributes[k].0.as_str(), name.as_str()) || !crate::dtd::is_binding_attr_decl(dtd, k) {
            k += 1;
            continue;
        }
        let aname = dtd.attributes[k].1.as_str();
        let ad = &dtd.attributes[k].2;
        if str_eq(ad.att_type.as_str(), "ID") {
            id_attrs += 1;
        }
        let have = attr_by_qname(doc, id, aname);
        match (&have, &ad.default) {
            (None, AttrDefault::Required) => {
                return Err(decl_msg("attribute ", aname, " is required on ", name.as_str()));
            },
            (Some(v), AttrDefault::Fixed) => {
                match &ad.default_value {
                    Some(fix) => {
                        if !str_eq(v.as_str(), fix.as_str()) {
                            return Err(decl_msg("attribute ", aname, " must be ", fix.as_str()));
                        }
                    },
                    None => {},
                }
            },
            _ => {},
        }
        let ghost ids0 = ids@;
        match &have {
            Some(v) => {
                if ad.enumerated.len() > 0 && !contains_str(&ad.enumerated, v.as_str()) {
                    return Err(decl_msg("attribute ", aname, " value not in the enumeration of ", name.as_str()));
                }
                proof {
                    if good && ad.att_type@ == "ID"@ {
                        let len = dtd.attributes@.len() as int;
                        let ki = k as int;
                        lemma_id_decls_mono(*dtd, name@, ki + 1, len);
                        assert(binds(*dtd, name@, ki, "ID"@));
                        assert(id_decls(*dtd, name@, ki) == 0);
                        lemma_no_id_values(*doc, id, *dtd, ki);
                        assert(id_values(*doc, id, *dtd, ki + 1) =~= seq![v@]);
                        lemma_id_values_prefix(*doc, id, *dtd, ki + 1, len);
                        assert(id_values(*doc, id, *dtd, len)[0] == v@);
                        assert(!has_view(old(ids)@, v@));
                        assert(views(ids@) =~= views(old(ids)@));
                        if has_view(ids@, v@) {
                            let w = choose|w: int| 0 <= w < ids@.len() && #[trigger] ids@[w]@ == v@;
                            assert(views(ids@)[w] == ids@[w]@);
                            assert(old(ids)@[w]@ == views(old(ids)@)[w]);
                        }
                    }
                }
                check_attr_value(dtd, name.as_str(), aname, ad.att_type.as_str(), v.as_str(), ids, idrefs)?;
                proof {
                    if distinct_views(old(ids)@) {
                        lemma_distinct_push(ids0, ids@, if ad.att_type@ == "ID"@ { seq![v@] } else { seq![] });
                    }
                }
            },
            None => {},
        }
        assert(views(ids@) =~= views(old(ids)@) + id_values(*doc, id, *dtd, k + 1));
        assert(views(idrefs@) =~= views(old(idrefs)@) + ref_values(*doc, id, *dtd, k + 1));
        k += 1;
    }
    if id_attrs > 1 {
        return Err(decl_msg("Element ", name.as_str(), " has more than one ID attribute", ""));
    }
    if dtd.elements.len() > 0 {
        let attrs = doc.attrs(id);
        let mut i: usize = 0;
        while i < attrs.len()
            invariant
                doc.wf(),
                attrs@ == attrs_of(*doc, id),
                forall|k: int| 0 <= k < attrs@.len() ==> doc.has(#[trigger] attrs@[k]),
                i <= attrs@.len(),
                forall|j: int| 0 <= j < i ==> crate::dtd::attr_declared(*dtd, name@, qname_of(#[trigger] doc.nodes()[attrs@[j].0 as int])),
                good == (element_ok(*doc, id, *dtd) && no_children_model(*doc, id, *dtd) && ids_fresh(*doc, id, *dtd, old(ids)@)),
                name@ == qname_of(doc.nodes()[id.0 as int]),
                doc.nodes()[id.0 as int].kind == NodeKind::Element,
                dtd.elements@.len() > 0,
            decreases attrs.len() - i,
        {
            let x = attrs[i];
            let qn = doc.qname(x);
            if crate::dtd::attr_decl_of(dtd, name.as_str(), qn.as_str()).is_none() {
                proof {
                    if good {
                        assert(crate::dtd::attr_declared(*dtd, name@, qname_of(doc.nodes()[attrs_of(*doc, id)[i as int].0 as int])));
                    }
                }
                return Err(decl_msg("No declaration for attribute ", qn.as_str(), " of element ", name.as_str()));
            }
            i += 1;
        }
    }
    Ok(())
}

/// A node that is no element carries no ID and refers to none.
proof fn lemma_no_values(doc: XmlDoc, id: NodeId, dtd: XmlDtd, k: int)
    requires
        doc.nodes()[id.0 as int].kind != NodeKind::Element,
    ensures
        id_values(doc, id, dtd, k) == Seq::<Seq<char>>::empty(),
        ref_values(doc, id, dtd, k) == Seq::<Seq<char>>::empty(),
    decreases k,
{
    if k > 0 {
        lemma_no_values(doc, id, dtd, k - 1);
    }
}

/// Adding at most one value not yet present keeps the values distinct.
proof fn lemma_distinct_push(a: Seq<String>, b: Seq<String>, extra: Seq<Seq<char>>)
    requires
        distinct_views(a),
        extra.len() <= 1,
        extra.len() == 1 ==> !has_view(a, extra[0]),
        views(b) == views(a) + extra,
    ensures
        distinct_views(b),
{
    assert(views(b).len() == b.len());
    assert(views(a).len() == a.len());
    assert forall|x: int, y: int| 0 <= x < y < b.len() implies b[x]@ != b[y]@ by {
        assert(views(b)[x] == b[x]@);
        assert(views(b)[y] == b[y]@);
        if y < a.len() {
            assert(views(a)[x] == a[x]@);
            assert(views(a)[y] == a[y]@);
        } else {
            assert(views(a)[x] == a[x]@);
        }
    }
}

/// `b` is an element among the children of `a`.
pub open spec fn elem_child(doc: XmlDoc, a: NodeId, b: NodeId) -> bool {
    kids_of(doc, a).contains(b) && doc.nodes()[b.0 as int].kind == NodeKind::Element
}

/// `path` runs from its first node down through element children to its last.
pub open spec fn elem_path(doc: XmlDoc, path: Seq<NodeId>) -> bool
    decreases path.len(),
{
    if path.len() <= 1 {
        path.len() == 1
    } else {
        elem_child(doc, path[0], path[1]) && elem_path(doc, path.drop_first())
    }
}

/// `x` is `top` or an element below it.
pub open spec fn below(doc: XmlDoc, top: NodeId, x: NodeId) -> bool {
    exists|path: Seq<NodeId>| #[trigger] elem_path(doc, path) && path[0] == top && path.last() == x
}

/// The ID values the nodes `xs` carry, in order.
pub open spec fn ids_of(doc: XmlDoc, dtd: XmlDtd, xs: Seq<NodeId>) -> Seq<Seq<char>>
    decreases xs.len(),
{
    if xs.len() == 0 {
        seq![]
    } else {
        ids_of(doc, dtd, xs.drop_last()) + id_values(doc, xs.last(), dtd, dtd.attributes@.len() as int)
    }
}

/// The IDs the nodes `xs` refer to, in order.
pub open spec fn refs_of(doc: XmlDoc, dtd: XmlDtd, xs: Seq<NodeId>) -> Seq<Seq<char>>
    decreases xs.len(),
{
    if xs.len() == 0 {
        seq![]
    } else {
        refs_of(doc, dtd, xs.drop_last()) + ref_values(doc, xs.last(), dtd, dtd.attributes@.len() as int)
    }
}

/// `x` is an element under `root` that carries the ID `v`.
pub open spec fn carries_id(doc: XmlDoc, dtd: XmlDtd, root: NodeId, x: NodeId, v: Seq<char>) -> bool {
    below(doc, root, x) && id_values(doc, x, dtd, dtd.attributes@.len() as int).contains(v)
}

/// Every node under `root` is visited, or lies below a node still to visit.
spec fn covered(doc: XmlDoc, root: NodeId, visited: Seq<NodeId>, stack: Seq<NodeId>) -> bool {
    forall|x: NodeId| #[trigger] below(doc, root, x)
        ==> visited.contains(x) || exists|j: int| 0 <= j < stack.len() && #[trigger] below(doc, stack[j], x)
}

proof fn lemma_below_self(doc: XmlDoc, x: NodeId)
    ensures
        below(doc, x, x),
{
    let p = seq![x];
    assert(elem_path(doc, p));
}

/// A path through an element child extends to the nodes below that child.
proof fn lemma_below_child(doc: XmlDoc, top: NodeId, c: NodeId, x: NodeId)
    requires
        below(doc, top, c),
        elem_child(doc, c, x),
    ensures
        below(doc, top, x),
{
    let p = choose|path: Seq<NodeId>| #[trigger] elem_path(doc, path) && path[0] == top && path.last() == c;
    lemma_path_push(doc, p, x);
    assert(p.push(x)[0] == top);
}

proof fn lemma_path_push(doc: XmlDoc, p: Seq<NodeId>, x: NodeId)
    requires
        elem_path(doc, p),
        elem_child(doc, p.last(), x),
    ensures
        elem_path(doc, p.push(x)),
    decreases p.len(),
{
    if p.len() == 1 {
        assert(p.push(x).drop_first() =~= seq![x]);
        assert(elem_path(doc, seq![x]));
    } else {
        lemma_path_push(doc, p.drop_first(), x);
        assert(p.push(x).drop_first() =~= p.drop_first().push(x));
    }
}

/// What lies below a node is the node itself or lies below one of its
/// element children.
proof fn lemma_below_split(doc: XmlDoc, top: NodeId, x: NodeId) -> (c: NodeId)
    requires
        below(doc, top, x),
        x != top,
    ensures
        elem_child(doc, top, c),
        below(doc, c, x),
{
    let p = choose|path: Seq<NodeId>| #[trigger] elem_path(doc, path) && path[0] == top && path.last() == x;
    assert(p.len() > 1);
    let q = p.drop_first();
    assert(elem_path(doc, q));
    assert(q[0] == p[1]);
    assert(q.last() == x);
    p[1]
}

/// The walk keeps every node under the root covered when it visits the top
/// of the stack and pushes its element children.
proof fn lemma_walk_step(doc: XmlDoc, root: NodeId, visited: Seq<NodeId>, stack: Seq<NodeId>, id: NodeId, next: Seq<NodeId>)
    requires
        covered(doc, root, visited, stack),
        stack.len() > 0,
        stack.last() == id,
        next.len() >= stack.len() - 1,
        forall|j: int| 0 <= j < stack.len() - 1 ==> next[j] == stack[j],
        forall|c: NodeId| #[trigger] elem_child(doc, id, c) ==> next.contains(c),
    ensures
        covered(doc, root, visited.push(id), next),
{
    assert forall|x: NodeId| #[trigger] below(doc, root, x)
        implies visited.push(id).contains(x) || exists|j: int| 0 <= j < next.len() && #[trigger] below(doc, next[j], x) by {
        if visited.contains(x) {
            let k = choose|k: int| 0 <= k < visited.len() && visited[k] == x;
            assert(visited.push(id)[k] == x);
        } else {
            let j = choose|j: int| 0 <= j < stack.len() && #[trigger] below(doc, stack[j], x);
            if j < stack.len() - 1 {
                assert(below(doc, next[j], x));
            } else if x == id {
                assert(visited.push(id)[visited.len() as int] == x);
            } else {
                let c = lemma_below_split(doc, id, x);
                assert(next.contains(c));
                let m = choose|m: int| 0 <= m < next.len() && next[m] == c;
                assert(below(doc, next[m], x));
            }
        }
    }
}

/// A value is among the IDs of some of the nodes, and each node's IDs are
/// among those of all of them.
proof fn lemma_ids_of(doc: XmlDoc, dtd: XmlDtd, xs: Seq<NodeId>)
    ensures
        forall|v: Seq<char>| #[trigger] ids_of(doc, dtd, xs).contains(v)
            ==> exists|k: int| 0 <= k < xs.len() && #[trigger] id_values(doc, xs[k], dtd, dtd.attributes@.len() as int).contains(v),
        forall|k: int, v: Seq<char>| 0 <= k < xs.len() && #[trigger] id_values(doc, xs[k], dtd, dtd.attributes@.len() as int).contains(v)
            ==> ids_of(doc, dtd, xs).contains(v),
    decreases xs.len(),
{
    let n = dtd.attributes@.len() as int;
    if xs.len() > 0 {
        let ys = xs.drop_last();
        lemma_ids_of(doc, dtd, ys);
        let t = ids_of(doc, dtd, ys);
        let u = id_values(doc, xs.last(), dtd, n);
        assert(ids_of(doc, dtd, xs) == t + u);
        assert forall|v: Seq<char>| #[trigger] ids_of(doc, dtd, xs).contains(v)
            implies exists|k: int| 0 <= k < xs.len() && #[trigger] id_values(doc, xs[k], dtd, n).contains(v) by {
            let i = choose|i: int| 0 <= i < (t + u).len() && (t + u)[i] == v;
            if i < t.len() {
                assert(t.contains(v));
                let k = choose|k: int| 0 <= k < ys.len() && #[trigger] id_values(doc, ys[k], dtd, n).contains(v);
                assert(xs[k] == ys[k]);
            } else {
                assert(u[i - t.len()] == v);
                assert(u.contains(v));
                assert(xs[xs.len() - 1] == xs.last());
            }
        }
        assert forall|k: int, v: Seq<char>| 0 <= k < xs.len() && #[trigger] id_values(doc, xs[k], dtd, n).contains(v)
            implies ids_of(doc, dtd, xs).contains(v) by {
            if k < xs.len() - 1 {
                assert(ys[k] == xs[k]);
                assert(t.contains(v));
                let i = choose|i: int| 0 <= i < t.len() && t[i] == v;
                assert((t + u)[i] == v);
            } else {
                let i = choose|i: int| 0 <= i < u.len() && u[i] == v;
                assert((t + u)[t.len() + i] == v);
            }
        }
    }
}

/// Each node's references are among those of all of them.
proof fn lemma_refs_of(doc: XmlDoc, dtd: XmlDtd, xs: Seq<NodeId>)
    ensures
        forall|k: int, v: Seq<char>| 0 <= k < xs.len() && #[trigger] ref_values(doc, xs[k], dtd, dtd.attributes@.len() as int).contains(v)
            ==> refs_of(doc, dtd, xs).contains(v),
    decreases xs.len(),
{
    let n = dtd.attributes@.len() as int;
    if xs.len() > 0 {
        let ys = xs.drop_last();
        lemma_refs_of(doc, dtd, ys);
        let t = refs_of(doc, dtd, ys);
        let u = ref_values(doc, xs.last(), dtd, n);
        assert(refs_of(doc, dtd, xs) == t + u);
        assert forall|k: int, v: Seq<char>| 0 <= k < xs.len() && #[trigger] ref_values(doc, xs[k], dtd, n).contains(v)
            implies refs_of(doc, dtd, xs).contains(v) by {
            if k < xs.len() - 1 {
                assert(ys[k] == xs[k]);
                assert(t.contains(v));
                let i = choose|i: int| 0 <= i < t.len() && t[i] == v;
                assert((t + u)[i] == v);
            } else {
                let i = choose|i: int| 0 <= i < u.len() && u[i] == v;
                assert((t + u)[t.len() + i] == v);
            }
        }
    }
}

/// With distinct IDs overall, no ID is carried by two different visits.
proof fn lemma_ids_unique(doc: XmlDoc, dtd: XmlDtd, xs: Seq<NodeId>, a: int, b: int, v: Seq<char>)
    requires
        0 <= a < b < xs.len(),
        id_values(doc, xs[a], dtd, dtd.attributes@.len() as int).contains(v),
        id_values(doc, xs[b], dtd, dtd.attributes@.len() as int).contains(v),
    ensures
        exists|i: int, j: int| 0 <= i < j < ids_of(doc, dtd, xs).len() && ids_of(doc, dtd, xs)[i] == v && ids_of(doc, dtd, xs)[j] == v,
    decreases xs.len(),
{
    let n = dtd.attributes@.len() as int;
    let ys = xs.drop_last();
    let t = ids_of(doc, dtd, ys);
    let u = id_values(doc, xs.last(), dtd, n);
    assert(ids_of(doc, dtd, xs) == t + u);
    if b < xs.len() - 1 {
        assert(ys[a] == xs[a] && ys[b] == xs[b]);
        lemma_ids_unique(doc, dtd, ys, a, b, v);
        let (i, j) = choose|i: int, j: int| 0 <= i < j < t.len() && t[i] == v && t[j] == v;
        assert((t + u)[i] == v && (t + u)[j] == v);
    } else {
        lemma_ids_of(doc, dtd, ys);
        assert(ys[a] == xs[a]);
        assert(t.contains(v));
        let i = choose|i: int| 0 <= i < t.len() && t[i] == v;
        let j = choose|j: int| 0 <= j < u.len() && u[j] == v;
        assert((t + u)[i] == v && (t + u)[t.len() + j] == v);
    }
}

/// `doc` is valid against `dtd`: it has a root element named as the DTD
/// names it, the declarations meet their own constraints, every element
/// under the root meets the DTD, every ID reference names an ID that some
/// such element carries, and no two of them carry the same ID.
pub open spec fn valid_under(doc: XmlDoc, dtd: XmlDtd) -> bool {
    let root = crate::tree::root_of(doc).unwrap();
    &&& crate::tree::root_of(doc) is Some
    &&& (dtd.name matches Some(n) ==> n@ == qname_of(doc.nodes()[root.0 as int]))
    &&& declarations_ok(dtd)
    &&& forall|x: NodeId| #[trigger] below(doc, root, x) ==> element_ok(doc, x, dtd)
    &&& forall|x: NodeId, v: Seq<char>|
        below(doc, root, x) && #[trigger] ref_values(doc, x, dtd, dtd.attributes@.len() as int).contains(v)
            ==> exists|y: NodeId| #[trigger] carries_id(doc, dtd, root, y, v)
    &&& forall|x: NodeId, y: NodeId, v: Seq<char>|
        #[trigger] carries_id(doc, dtd, root, x, v) && #[trigger] carries_id(doc, dtd, root, y, v) ==> x == y
}

/// `xmlValidateDtd`: the document against `dtd`; `Ok` only for a document
/// valid under it.
/// The DTD declares nothing.
pub open spec fn declares_nothing(dtd: XmlDtd) -> bool {
    &&& dtd.elements@.len() == 0
    &&& dtd.attributes@.len() == 0
    &&& dtd.ndata_notations@.len() == 0
    &&& dtd.duplicate_elements@.len() == 0
}

/// The DTD names no root, or names the root of `doc`.
pub open spec fn root_name_fits(doc: XmlDoc, dtd: XmlDtd) -> bool {
    dtd.name matches Some(n) ==> n@ == qname_of(doc.nodes()[doc.root().unwrap().0 as int])
}

/// The root of `doc` is an element without attributes or children.
pub open spec fn bare_root(doc: XmlDoc) -> bool {
    doc.root() matches Some(r) && doc.has(r) && doc.nodes()[r.0 as int].kind == NodeKind::Element
        && doc.nodes()[r.0 as int].first_child is None && doc.nodes()[r.0 as int].first_attr is None
}

pub fn xml_validate_dtd(doc: &XmlDoc, dtd: &XmlDtd) -> (r: Result<(), String>)
    requires
        doc.wf(),
    ensures
        r is Ok ==> valid_under(*doc, *dtd),
        bare_root(*doc) && declares_nothing(*dtd) && root_name_fits(*doc, *dtd) ==> r is Ok,
{
    let ghost law = bare_root(*doc) && declares_nothing(*dtd) && root_name_fits(*doc, *dtd);
    let root = match doc.xml_doc_get_root_element() {
        Some(r) => r,
        None => {
            return Err(String::from_str("document has no root"));
        },
    };
    let rq = doc.qname(root);
    match &dtd.name {
        Some(n) => {
            if !str_eq(rq.as_str(), n.as_str()) {
                return Err(decl_msg("root element ", rq.as_str(), " does not match DOCTYPE ", n.as_str()));
            }
        },
        None => {},
    }
    check_declarations(dtd)?;
    let mut ids: Vec<String> = Vec::new();
    let mut idrefs: Vec<String> = Vec::new();
    let mut stack: Vec<NodeId> = Vec::new();
    stack.push(root);
    let ghost mut visited: Seq<NodeId> = seq![];
    proof {
        assert forall|x: NodeId| #[trigger] below(*doc, root, x)
            implies visited.contains(x) || exists|j: int| 0 <= j < stack@.len() && #[trigger] below(*doc, stack@[j], x) by {
            assert(below(*doc, stack@[0], x));
        }
        lemma_below_self(*doc, root);
    }
    let mut fuel = doc.len();
    while stack.len() > 0
        invariant
            doc.wf(),
            doc.has(root),
            forall|k: int| 0 <= k < stack@.len() ==> doc.has(#[trigger] stack@[k]),
            forall|k: int| 0 <= k < stack@.len() ==> #[trigger] below(*doc, root, stack@[k]),
            forall|k: int| 0 <= k < visited.len() ==> #[trigger] below(*doc, root, visited[k]),
            forall|k: int| 0 <= k < visited.len() ==> #[trigger] element_ok(*doc, visited[k], *dtd),
            covered(*doc, root, visited, stack@),
            views(ids@) == ids_of(*doc, *dtd, visited),
            distinct_views(ids@),
            views(idrefs@) == refs_of(*doc, *dtd, visited),
            law == (bare_root(*doc) && declares_nothing(*dtd) && root_name_fits(*doc, *dtd)),
            law ==> doc.root() == Some(root),
            law ==> (stack@ == seq![root] && visited.len() == 0 && fuel == doc.nodes().len())
                || (stack@.len() == 0 && visited == seq![root]),
        decreases fuel,
    {
        if fuel == 0 {
            return Err(String::from_str("the document is not a tree"));
        }
        fuel -= 1;
        let ghost before = stack@;
        let id = stack.pop().unwrap();
        proof {
            assert(id == before.last());
            assert(before[before.len() - 1] == id);
        }
        validate_element(doc, id, dtd, &mut ids, &mut idrefs)?;
        proof {
            assert(visited.push(id).drop_last() =~= visited);
        }
        let kids = doc.children(id);
        proof {
            if law {
                assert(kids@ =~= Seq::<NodeId>::empty());
            }
        }
        let mut i = kids.len();
        while i > 0
            invariant
                law ==> kids@.len() == 0,
                law ==> stack@.len() == before.len() - 1,
                doc.wf(),
                kids@ == kids_of(*doc, id),
                forall|k: int| 0 <= k < kids@.len() ==> doc.has(#[trigger] kids@[k]),
                i <= kids@.len(),
                below(*doc, root, id),
                stack@.len() >= before.len() - 1,
                forall|j: int| 0 <= j < before.len() - 1 ==> stack@[j] == before[j],
                forall|k: int| 0 <= k < stack@.len() ==> doc.has(#[trigger] stack@[k]),
                forall|k: int| 0 <= k < stack@.len() ==> #[trigger] below(*doc, root, stack@[k]),
                forall|k: int| i <= k < kids@.len() && doc.nodes()[kids@[k].0 as int].kind == NodeKind::Element
                    ==> stack@.contains(#[trigger] kids@[k]),
            decreases i,
        {
            i -= 1;
            let x = kids[i];
            if doc.kind(x) == NodeKind::Element {
                let ghost s0 = stack@;
                stack.push(x);
                proof {
                    assert(elem_child(*doc, id, x));
                    lemma_below_child(*doc, root, id, x);
                    assert(stack@[s0.len() as int] == x);
                    assert forall|k: int| i < k < kids@.len() && doc.nodes()[kids@[k].0 as int].kind == NodeKind::Element
                        implies stack@.contains(#[trigger] kids@[k]) by {
                        let m = choose|m: int| 0 <= m < s0.len() && s0[m] == kids@[k];
                        assert(stack@[m] == kids@[k]);
                    }
                }
            }
        }
        proof {
            assert forall|c: NodeId| #[trigger] elem_child(*doc, id, c) implies stack@.contains(c) by {
                let k = choose|k: int| 0 <= k < kids@.len() && kids@[k] == c;
            }
            lemma_walk_step(*doc, root, visited, before, id, stack@);
            visited = visited.push(id);
            assert(ids_of(*doc, *dtd, visited) == ids_of(*doc, *dtd, visited.drop_last()) + id_values(*doc, id, *dtd, dtd.attributes@.len() as int));
        }
    }
    proof {
        if law {
            assert(visited =~= seq![root]);
            assert(visited.drop_last() =~= Seq::<NodeId>::empty());
            assert(refs_of(*doc, *dtd, Seq::<NodeId>::empty()) =~= Seq::<Seq<char>>::empty());
            assert(ref_values(*doc, root, *dtd, 0) =~= Seq::<Seq<char>>::empty());
            assert(visited.last() == root);
            assert(refs_of(*doc, *dtd, visited) =~= Seq::<Seq<char>>::empty());
            assert(views(idrefs@).len() == idrefs@.len());
        }
    }
    let mut k: usize = 0;
    while k < idrefs.len()
        invariant
            k <= idrefs@.len(),
            forall|j: int| 0 <= j < k ==> #[trigger] has_view(ids@, idrefs@[j]@),
            law ==> idrefs@.len() == 0,
            law == (bare_root(*doc) && declares_nothing(*dtd) && root_name_fits(*doc, *dtd)),
        decreases idrefs.len() - k,
    {
        if !contains_str(&ids, idrefs[k].as_str()) {
            return Err(decl_msg("IDREF attribute references unknown ID ", idrefs[k].as_str(), "", ""));
        }
        k += 1;
    }
    proof {
        lemma_ids_of(*doc, *dtd, visited);
        lemma_refs_of(*doc, *dtd, visited);
        assert forall|x: NodeId| #[trigger] below(*doc, root, x) implies element_ok(*doc, x, *dtd) by {
            let m = choose|m: int| 0 <= m < visited.len() && visited[m] == x;
        }
        assert forall|x: NodeId, v: Seq<char>|
            below(*doc, root, x) && #[trigger] ref_values(*doc, x, *dtd, dtd.attributes@.len() as int).contains(v)
            implies exists|y: NodeId| #[trigger] carries_id(*doc, *dtd, root, y, v) by {
            let m = choose|m: int| 0 <= m < visited.len() && visited[m] == x;
            assert(refs_of(*doc, *dtd, visited).contains(v));
            let i = choose|i: int| 0 <= i < refs_of(*doc, *dtd, visited).len() && refs_of(*doc, *dtd, visited)[i] == v;
            assert(views(idrefs@)[i] == idrefs@[i]@);
            assert(has_view(ids@, idrefs@[i]@));
            let q = choose|q: int| 0 <= q < ids@.len() && #[trigger] ids@[q]@ == idrefs@[i]@;
            assert(views(ids@)[q] == ids@[q]@);
            assert(ids_of(*doc, *dtd, visited).contains(v));
            let kk = choose|kk: int| 0 <= kk < visited.len() && #[trigger] id_values(*doc, visited[kk], *dtd, dtd.attributes@.len() as int).contains(v);
            assert(carries_id(*doc, *dtd, root, visited[kk], v));
        }
        assert forall|x: NodeId, y: NodeId, v: Seq<char>|
            #[trigger] carries_id(*doc, *dtd, root, x, v) && #[trigger] carries_id(*doc, *dtd, root, y, v) implies x == y by {
            let a = choose|a: int| 0 <= a < visited.len() && visited[a] == x;
            let b = choose|b: int| 0 <= b < visited.len() && visited[b] == y;
            if a != b {
                let (lo, hi) = if a < b { (a, b) } else { (b, a) };
                lemma_ids_unique(*doc, *dtd, visited, lo, hi, v);
                let (i, j) = choose|i: int, j: int| 0 <= i < j < ids_of(*doc, *dtd, visited).len()
                    && ids_of(*doc, *dtd, visited)[i] == v && ids_of(*doc, *dtd, visited)[j] == v;
                assert(views(ids@)[i] == ids@[i]@);
                assert(views(ids@)[j] == ids@[j]@);
            }
        }
    }
    Ok(())
}

/// `xmlValidateDocument`: the document against its own DTD.
pub fn xml_validate_document(doc: &XmlDoc) -> (r: Result<(), String>)
    requires
        doc.wf(),
    ensures
        doc.dtd is None ==> r is Err,
        r is Ok ==> valid_under(*doc, doc.dtd.unwrap()),
        doc.dtd matches Some(d) && bare_root(*doc) && declares_nothing(d) && root_name_fits(*doc, d) ==> r is Ok,
{
    match &doc.dtd {
        Some(d) => xml_validate_dtd(doc, d),
        None => Err(String::from_str("no DTD")),
    }
}

} // verus!
