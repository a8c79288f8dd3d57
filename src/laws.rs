//! Properties of the library that relate several of its parts, stated over the
//! same spec functions that the contracts use, and proved.

use vstd::prelude::*;
use crate::ast::{
    Binding, Content, Node, attrs_out, close_tag, escape_ok, hoisted_for, node_escape_ok,
    node_out, nodes_out, open_tag, raw_text_out, script_tag,
};
use crate::attrs::{Attr, AttrVal, first_occurrences, keys_of, last_index, merged};
use crate::outside::{minified, tag_free};

verus! {

/// The position of the first occurrence of `k`, or the length when there is none.
pub open spec fn first_index(ks: Seq<Seq<char>>, k: Seq<char>) -> int
    decreases ks.len(),
{
    if ks.len() == 0 {
        0
    } else if ks.drop_last().contains(k) {
        first_index(ks.drop_last(), k)
    } else if ks.last() == k {
        ks.len() - 1
    } else {
        ks.len() as int
    }
}

proof fn lemma_first_index_contained(ks: Seq<Seq<char>>, k: Seq<char>)
    requires
        ks.contains(k),
    ensures
        0 <= first_index(ks, k) < ks.len(),
        ks[first_index(ks, k)] == k,
    decreases ks.len(),
{
    if ks.drop_last().contains(k) {
        lemma_first_index_contained(ks.drop_last(), k);
    } else {
        let j = choose|j: int| 0 <= j < ks.len() && ks[j] == k;
        if j < ks.len() - 1 {
            assert(ks.drop_last()[j] == k);
        }
    }
}

proof fn lemma_order(ks: Seq<Seq<char>>)
    ensures
        forall|k: Seq<char>| first_occurrences(ks).contains(k) <==> ks.contains(k),
        forall|i: int, j: int|
            0 <= i < j < first_occurrences(ks).len() ==> first_index(ks, first_occurrences(ks)[i])
                < first_index(ks, first_occurrences(ks)[j]),
    decreases ks.len(),
{
    if ks.len() > 0 {
        let d = ks.drop_last();
        let m = first_occurrences(d);
        lemma_order(d);
        assert forall|k: Seq<char>| d.contains(k) implies first_index(ks, k) == first_index(d, k) by {}
        assert forall|k: Seq<char>| ks.contains(k) <==> (d.contains(k) || k == ks.last()) by {
            if ks.contains(k) {
                let j = choose|j: int| 0 <= j < ks.len() && ks[j] == k;
                if j < ks.len() - 1 {
                    assert(d[j] == k);
                }
            }
            if d.contains(k) {
                let j = choose|j: int| 0 <= j < d.len() && d[j] == k;
                assert(ks[j] == k);
            }
            if k == ks.last() {
                assert(ks[ks.len() - 1] == k);
            }
        }
        if !m.contains(ks.last()) {
            let m2 = m.push(ks.last());
            assert forall|k: Seq<char>| m2.contains(k) <==> (m.contains(k) || k == ks.last()) by {
                if m2.contains(k) {
                    let j = choose|j: int| 0 <= j < m2.len() && m2[j] == k;
                    if j < m.len() {
                        assert(m[j] == k);
                    }
                }
                if m.contains(k) {
                    let j = choose|j: int| 0 <= j < m.len() && m[j] == k;
                    assert(m2[j] == k);
                }
                assert(m2[m.len() as int] == ks.last());
            }
            assert forall|i: int, j: int| 0 <= i < j < m2.len() implies first_index(ks, m2[i])
                < first_index(ks, m2[j]) by {
                assert(m.contains(m2[i])) by {
                    assert(m[i] == m2[i]);
                }
                lemma_first_index_contained(d, m2[i]);
                if j < m.len() {
                    assert(m.contains(m2[j])) by {
                        assert(m[j] == m2[j]);
                    }
                }
            }
        }
    }
}

/// Merging attributes keeps each key once; the keys are exactly those written,
/// in the order of their first occurrence; and each value is that of the last
/// occurrence of its key.
pub proof fn law_attribute_order(ps: Seq<(Seq<char>, AttrVal)>)
    ensures
        forall|i: int, j: int|
            0 <= i < j < merged(ps).len() ==> merged(ps)[i].0 != merged(ps)[j].0,
        forall|k: Seq<char>|
            (exists|i: int| 0 <= i < merged(ps).len() && merged(ps)[i].0 == k) <==> keys_of(
                ps,
            ).contains(k),
        forall|i: int, j: int|
            0 <= i < j < merged(ps).len() ==> first_index(keys_of(ps), merged(ps)[i].0)
                < first_index(keys_of(ps), merged(ps)[j].0),
        forall|i: int|
            0 <= i < merged(ps).len() ==> exists|l: int|
                0 <= l < ps.len() && (#[trigger] ps[l]).0 == (#[trigger] merged(ps)[i]).0
                    && merged(ps)[i].1 == ps[l].1 && forall|m: int|
                    l < m < ps.len() ==> (#[trigger] ps[m]).0 != merged(ps)[i].0,
{
    let ks = keys_of(ps);
    let fo = first_occurrences(ks);
    lemma_order(ks);
    crate::attrs::lemma_first_occurrences(ks);
    assert forall|i: int, j: int| 0 <= i < j < merged(ps).len() implies merged(ps)[i].0
        != merged(ps)[j].0 by {
        assert(merged(ps)[i].0 == fo[i] && merged(ps)[j].0 == fo[j]);
    }
    assert forall|k: Seq<char>|
        (exists|i: int| 0 <= i < merged(ps).len() && merged(ps)[i].0 == k) <==> ks.contains(k) by {
        if ks.contains(k) {
            assert(fo.contains(k));
            let i = choose|i: int| 0 <= i < fo.len() && fo[i] == k;
            assert(merged(ps)[i].0 == k);
        }
        if exists|i: int| 0 <= i < merged(ps).len() && merged(ps)[i].0 == k {
            let i = choose|i: int| 0 <= i < merged(ps).len() && merged(ps)[i].0 == k;
            assert(fo[i] == k);
            assert(fo.contains(k));
        }
    }
    assert forall|i: int| 0 <= i < merged(ps).len() implies exists|l: int|
        0 <= l < ps.len() && (#[trigger] ps[l]).0 == (#[trigger] merged(ps)[i]).0 && merged(ps)[i].1
            == ps[l].1 && forall|m: int| l < m < ps.len() ==> (#[trigger] ps[m]).0 != merged(
            ps,
        )[i].0 by {
        let k = fo[i];
        assert(fo.contains(k));
        crate::attrs::lemma_last_index(ps, k);
        lemma_last_index_is_last(ps, k);
        let l = last_index(ps, k);
        assert(merged(ps)[i] == (k, ps[l].1));
    }
}

proof fn lemma_last_index_is_last(ps: Seq<(Seq<char>, AttrVal)>, k: Seq<char>)
    ensures
        forall|m: int| last_index(ps, k) < m < ps.len() ==> ps[m].0 != k,
    decreases ps.len(),
{
    if ps.len() > 0 && ps.last().0 != k {
        lemma_last_index_is_last(ps.drop_last(), k);
        crate::attrs::lemma_last_index(ps.drop_last(), k);
        assert forall|m: int| last_index(ps, k) < m < ps.len() implies ps[m].0 != k by {
            if m < ps.len() - 1 {
                assert(ps[m] == ps.drop_last()[m]);
            }
        }
    }
}

/// An element without a body renders as `<tag attrs/>`, with no closing tag.
pub proof fn law_self_closing(
    tag: String,
    attrs: Vec<Attr>,
    marker: Option<bool>,
    env: Seq<(Seq<char>, Seq<Binding>)>,
    root: Seq<Node>,
)
    ensures
        node_out(Node::Element { tag, attrs, body: None, marker }, env, root) == open_tag(tag@) + attrs_out(
            attrs@,
            env,
        ) + seq!['/', '>'],
{
}

/// What a sequence of nodes renders to is what its parts render to, one after
/// the other: two calls render independently of each other, whatever props each
/// was given.
pub proof fn law_composition(
    a: Seq<Node>,
    b: Seq<Node>,
    env: Seq<(Seq<char>, Seq<Binding>)>,
    root: Seq<Node>,
)
    ensures
        nodes_out(a + b, env, root) == nodes_out(a, env, root) + nodes_out(b, env, root),
    decreases b.len(),
{
    if b.len() == 0 {
        assert(a + b =~= a);
        assert(nodes_out(a, env, root) + nodes_out(b, env, root) =~= nodes_out(a, env, root));
    } else {
        law_composition(a, b.drop_last(), env, root);
        assert((a + b).drop_last() =~= a + b.drop_last());
        assert((a + b).last() == b.last());
        assert(nodes_out(a + b, env, root) =~= nodes_out(a, env, root) + nodes_out(b, env, root));
    }
}

/// A hoisted script renders nothing where it is declared; a use of its name
/// renders the markup of the last script hoisted under that name before the
/// first use of the name in document order, however deep it was declared.
pub proof fn law_script_hoisting(
    root: Seq<Node>,
    name: String,
    declared: Node,
    env: Seq<(Seq<char>, Seq<Binding>)>,
)
    requires
        declared is Script,
        declared->Script_hoist is Some,
    ensures
        node_out(declared, env, root) == Seq::<char>::empty(),
        match hoisted_for(root, name@) {
            Some(Node::Script { attrs, content, minify, .. }) => node_out(
                Node::ScriptUse { name },
                env,
                root,
            ) == raw_text_out(script_tag(), attrs@, content, minify, true, env),
            _ => node_out(Node::ScriptUse { name }, env, root) == Seq::<char>::empty(),
        },
{
}

/// A static script body is written as it stands when minification is off for
/// it, and as the minifier returns it when it is on (for a body in which no
/// HTML tag opens).
pub proof fn law_minify_toggle(
    attrs: Vec<Attr>,
    text: String,
    env: Seq<(Seq<char>, Seq<Binding>)>,
    root: Seq<Node>,
)
    ensures
        node_out(
            Node::Script { attrs, content: Content::Static(text), minify: false, hoist: None },
            env,
            root,
        ) == open_tag(script_tag()) + attrs_out(attrs@, env) + seq!['>'] + text@ + close_tag(
            script_tag(),
        ),
        tag_free(text@) ==> node_out(
            Node::Script { attrs, content: Content::Static(text), minify: true, hoist: None },
            env,
            root,
        ) == open_tag(script_tag()) + attrs_out(attrs@, env) + seq!['>'] + minified(
            text@,
            true,
            false,
        ) + close_tag(script_tag()),
{
}

/// Escape settings pass down the tree: in nodes parsed in setting `e`, every
/// node is judged in `e`, whatever markers its siblings carry; text and
/// expressions are escaped exactly when `e` is on and they are not marked `!`;
/// an element without a marker hands `e` on to its children, and one with a
/// marker hands on the marker's setting, as far as escaping is available.
pub proof fn law_escape_inheritance(ns: Seq<Node>, e: bool, cap: bool)
    requires
        escape_ok(ns, e, cap),
    ensures
        forall|i: int| 0 <= i < ns.len() ==> node_escape_ok(#[trigger] ns[i], e, cap),
        forall|i: int|
            0 <= i < ns.len() ==> match #[trigger] ns[i] {
                Node::Text { escape, raw, .. } => escape == (e && !raw),
                Node::Expr { escape, raw, .. } => escape == (e && !raw),
                Node::Element { body: Some(b), marker: None, .. } => escape_ok(b@, e && cap, cap),
                Node::Element { body: Some(b), marker: Some(m), .. } => escape_ok(b@, m && cap, cap),
                _ => true,
            },
    decreases ns.len(),
{
    if ns.len() > 0 {
        law_escape_inheritance(ns.drop_last(), e, cap);
        assert forall|i: int| 0 <= i < ns.len() implies node_escape_ok(#[trigger] ns[i], e, cap) by {
            if i < ns.len() - 1 {
                assert(ns[i] == ns.drop_last()[i]);
            }
        }
    }
}

} // verus!
