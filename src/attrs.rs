//! Attribute lists: the pairs of an element as written are merged into an
//! ordered list in which each key stands once, at the place of its first
//! occurrence, with the value of its last.

use vstd::prelude::*;
use indexmap::IndexMap;
use crate::outside::{
    entries_inserted, entries_of, index_map_entry, index_map_insert, index_map_len,
    index_map_new, key_index,
};

verus! {

/// The value of an attribute: none (a bare key), a literal, or an expression
/// that is looked up when the template is rendered.
pub enum AttributeValue {
    Bare,
    Lit(String),
    Expr(String),
}

/// An attribute value as a mathematical value.
pub enum AttrVal {
    Bare,
    Lit(Seq<char>),
    Expr(Seq<char>),
}

impl View for AttributeValue {
    type V = AttrVal;

    open spec fn view(&self) -> AttrVal {
        match self {
            AttributeValue::Bare => AttrVal::Bare,
            AttributeValue::Lit(s) => AttrVal::Lit(s@),
            AttributeValue::Expr(s) => AttrVal::Expr(s@),
        }
    }
}

impl AttributeValue {
    /// A copy of the value.
    pub fn copy(&self) -> (r: AttributeValue)
        ensures
            r@ == self@,
    {
        match self {
            AttributeValue::Bare => AttributeValue::Bare,
            AttributeValue::Lit(s) => AttributeValue::Lit(s.clone()),
            AttributeValue::Expr(s) => AttributeValue::Expr(s.clone()),
        }
    }
}

/// One attribute: a key and its value.
pub struct Attr {
    pub key: String,
    pub value: AttributeValue,
}

impl View for Attr {
    type V = (Seq<char>, AttrVal);

    open spec fn view(&self) -> (Seq<char>, AttrVal) {
        (self.key@, self.value@)
    }
}

impl Attr {
    /// A copy of the attribute.
    pub fn copy(&self) -> (r: Attr)
        ensures
            r@ == self@,
    {
        Attr { key: self.key.clone(), value: self.value.copy() }
    }
}

/// The views of a list of attributes.
pub open spec fn attrs_view(a: Seq<Attr>) -> Seq<(Seq<char>, AttrVal)> {
    a.map_values(|x: Attr| x@)
}

/// The keys of a list of pairs, in order.
pub open spec fn keys_of(ps: Seq<(Seq<char>, AttrVal)>) -> Seq<Seq<char>> {
    ps.map_values(|p: (Seq<char>, AttrVal)| p.0)
}

/// The distinct keys, each at the place of its first occurrence.
pub open spec fn first_occurrences(ks: Seq<Seq<char>>) -> Seq<Seq<char>>
    decreases ks.len(),
{
    if ks.len() == 0 {
        Seq::empty()
    } else {
        let m = first_occurrences(ks.drop_last());
        if m.contains(ks.last()) {
            m
        } else {
            m.push(ks.last())
        }
    }
}

/// The position of the last pair with key `k`, or -1.
pub open spec fn last_index(ps: Seq<(Seq<char>, AttrVal)>, k: Seq<char>) -> int
    decreases ps.len(),
{
    if ps.len() == 0 {
        -1
    } else if ps.last().0 == k {
        ps.len() - 1
    } else {
        last_index(ps.drop_last(), k)
    }
}

/// The merged attribute list: each key once, in the order of first occurrence,
/// with the value of its last occurrence.
pub open spec fn merged(ps: Seq<(Seq<char>, AttrVal)>) -> Seq<(Seq<char>, AttrVal)> {
    first_occurrences(keys_of(ps)).map_values(
        |k: Seq<char>| (k, ps[last_index(ps, k)].1),
    )
}

/// Keys with the position of their last occurrence, as the resolver's map holds them.
pub open spec fn positions(ps: Seq<(Seq<char>, AttrVal)>) -> Seq<(Seq<char>, usize)> {
    first_occurrences(keys_of(ps)).map_values(|k: Seq<char>| (k, last_index(ps, k) as usize))
}

pub proof fn lemma_first_occurrences(ks: Seq<Seq<char>>)
    ensures
        first_occurrences(ks).no_duplicates(),
        forall|k: Seq<char>| first_occurrences(ks).contains(k) <==> ks.contains(k),
    decreases ks.len(),
{
    if ks.len() > 0 {
        lemma_first_occurrences(ks.drop_last());
        assert forall|k: Seq<char>| ks.contains(k) <==> (ks.drop_last().contains(k) || k
            == ks.last()) by {
            if ks.contains(k) {
                let j = choose|j: int| 0 <= j < ks.len() && ks[j] == k;
                if j < ks.len() - 1 {
                    assert(ks.drop_last()[j] == k);
                }
            }
            if ks.drop_last().contains(k) {
                let j = choose|j: int| 0 <= j < ks.len() - 1 && ks.drop_last()[j] == k;
                assert(ks[j] == k);
            }
            if k == ks.last() {
                assert(ks[ks.len() - 1] == k);
            }
        }
        let m = first_occurrences(ks.drop_last());
        if !m.contains(ks.last()) {
            assert forall|k: Seq<char>| m.push(ks.last()).contains(k) <==> (m.contains(k) || k
                == ks.last()) by {
                if m.push(ks.last()).contains(k) {
                    let j = choose|j: int| 0 <= j < m.len() + 1 && m.push(ks.last())[j] == k;
                    if j < m.len() {
                        assert(m[j] == k);
                    }
                }
                if m.contains(k) {
                    let j = choose|j: int| 0 <= j < m.len() && m[j] == k;
                    assert(m.push(ks.last())[j] == k);
                }
                assert(m.push(ks.last())[m.len() as int] == ks.last());
            }
            assert forall|a: int, b: int|
                0 <= a < m.len() + 1 && 0 <= b < m.len() + 1 && a != b implies m.push(
                ks.last(),
            )[a] != m.push(ks.last())[b] by {
                if a < m.len() && b == m.len() {
                    assert(m.contains(m[a]));
                }
                if b < m.len() && a == m.len() {
                    assert(m.contains(m[b]));
                }
            }
        }
    }
}

pub proof fn lemma_last_index(ps: Seq<(Seq<char>, AttrVal)>, k: Seq<char>)
    ensures
        -1 <= last_index(ps, k) < ps.len(),
        keys_of(ps).contains(k) ==> 0 <= last_index(ps, k) && ps[last_index(ps, k)].0 == k,
    decreases ps.len(),
{
    if ps.len() > 0 {
        lemma_last_index(ps.drop_last(), k);
        if keys_of(ps).contains(k) && ps.last().0 != k {
            let j = choose|j: int| 0 <= j < ps.len() && keys_of(ps)[j] == k;
            assert(keys_of(ps.drop_last())[j] == k);
        }
    }
}

proof fn lemma_key_index(e: Seq<(Seq<char>, usize)>, k: Seq<char>)
    ensures
        0 <= key_index(e, k) <= e.len(),
        key_index(e, k) < e.len() ==> e[key_index(e, k)].0 == k,
        key_index(e, k) == e.len() ==> forall|j: int| 0 <= j < e.len() ==> e[j].0 != k,
    decreases e.len(),
{
    if e.len() > 0 && e[0].0 != k {
        lemma_key_index(e.drop_first(), k);
        assert forall|j: int| 0 < j < e.len() implies e[j] == e.drop_first()[j - 1] by {}
    }
}

proof fn lemma_positions_push(ps: Seq<(Seq<char>, AttrVal)>, p: (Seq<char>, AttrVal))
    ensures
        positions(ps.push(p)) == entries_inserted(positions(ps), p.0, ps.len() as usize),
{
    let q = ps.push(p);
    let k = p.0;
    assert(keys_of(q).drop_last() =~= keys_of(ps));
    let m = first_occurrences(keys_of(ps));
    let e = positions(ps);
    lemma_first_occurrences(keys_of(ps));
    lemma_key_index(e, k);
    assert forall|k2: Seq<char>| k2 != k implies last_index(q, k2) == last_index(ps, k2) by {
        assert(q.drop_last() =~= ps);
    }
    assert(q.drop_last() =~= ps);
    let j = key_index(e, k);
    if j < e.len() {
        assert(m.contains(k)) by {
            assert(m[j] == k);
        }
        assert(positions(q) =~= e.update(j, (k, ps.len() as usize))) by {
            assert forall|i: int| 0 <= i < m.len() && i != j implies m[i] != k by {
                assert(m[j] == k);
            }
        }
    } else {
        assert forall|i: int| 0 <= i < m.len() implies m[i] != k by {
            assert(e[i].0 == m[i]);
        }
        assert(!m.contains(k));
        assert(positions(q) =~= e.push((k, ps.len() as usize)));
    }
}

/// Merges the attribute pairs as written into the ordered attribute list: each
/// key once, in the order of its first occurrence, with the value of its last.
pub fn resolve_attributes(pairs: &Vec<Attr>) -> (r: Vec<Attr>)
    ensures
        attrs_view(r@) == merged(attrs_view(pairs@)),
{
    let ghost ps = attrs_view(pairs@);
    let mut m: IndexMap<String, usize> = index_map_new();
    let n = pairs.len();
    let mut i: usize = 0;
    while i < n
        invariant
            n == pairs@.len(),
            ps == attrs_view(pairs@),
            i <= n,
            entries_of(m) == positions(ps.take(i as int)),
        decreases n - i,
    {
        proof {
            assert(ps.take(i as int + 1) =~= ps.take(i as int).push(ps[i as int]));
            lemma_positions_push(ps.take(i as int), ps[i as int]);
        }
        index_map_insert(&mut m, pairs[i].key.clone(), i);
        i = i + 1;
    }
    assert(ps.take(n as int) =~= ps);
    let len = index_map_len(&m);
    let mut out: Vec<Attr> = Vec::new();
    let mut j: usize = 0;
    while j < len
        invariant
            len == entries_of(m).len(),
            entries_of(m) == positions(ps),
            ps == attrs_view(pairs@),
            n == pairs@.len(),
            j <= len,
            attrs_view(out@) == merged(ps).take(j as int),
        decreases len - j,
    {
        let (k, idx) = index_map_entry(&m, j);
        proof {
            let fo = first_occurrences(keys_of(ps));
            lemma_first_occurrences(keys_of(ps));
            assert(keys_of(ps).contains(fo[j as int]));
            lemma_last_index(ps, fo[j as int]);
            assert(idx as int == last_index(ps, fo[j as int]));
            assert(ps[idx as int].1 == pairs@[idx as int].value@);
        }
        let a = Attr { key: k, value: pairs[idx].value.copy() };
        assert(a@ == merged(ps)[j as int]);
        let ghost before = out@;
        out.push(a);
        j = j + 1;
        proof {
            assert(out@ =~= before.push(a));
            assert(attrs_view(out@) =~= attrs_view(before).push(a@));
            assert(merged(ps).take(j as int) =~= merged(ps).take(j - 1).push(merged(ps)[j - 1]));
            assert(attrs_view(out@) =~= merged(ps).take(j as int));
        }
    }
    assert(merged(ps).take(len as int) =~= merged(ps));
    out
}

} // verus!
