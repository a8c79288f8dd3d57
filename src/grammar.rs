//! The grammar of templates as spec functions over the token view: what a
//! sequence of tokens parses to, with calls expanded, or `None` where it does
//! not parse. The parser's functions are proved to compute exactly these.

use vstd::prelude::*;
use crate::ast::{ArmV, BranchV, ContentV, NodeV, inner_esc};
use crate::attrs::{AttrVal, merged};
use crate::component::{ComponentKind, Templates, Component, names_view};
use crate::lexer::{TokV, toks_view};
use crate::parser::{attrs_from, cond_at, operand_at, path_at};
use crate::splice::{fills_view, spliced};

verus! {

/// The token at `p` is the punctuation mark `c`.
pub open spec fn punct(tv: Seq<(TokV, usize)>, p: int, c: char) -> bool {
    0 <= p < tv.len() && tv[p].0 == TokV::Punct(c)
}

/// The token at `p` is the bare word `w`.
pub open spec fn word(tv: Seq<(TokV, usize)>, p: int, w: Seq<char>) -> bool {
    0 <= p < tv.len() && tv[p].0 == TokV::Ident(w)
}

/// The token at `p` is a bare word.
pub open spec fn ident(tv: Seq<(TokV, usize)>, p: int) -> bool {
    0 <= p < tv.len() && tv[p].0 is Ident
}

/// An optional `escape` or `noescape` marker at `p`, and the position after it.
pub open spec fn marker_at(tv: Seq<(TokV, usize)>, p: int) -> (Option<bool>, int) {
    if word(tv, p, seq!['e', 's', 'c', 'a', 'p', 'e']) {
        (Some(true), p + 1)
    } else if word(tv, p, seq!['n', 'o', 'e', 's', 'c', 'a', 'p', 'e']) {
        (Some(false), p + 1)
    } else {
        (None, p)
    }
}

/// Whether a `!` stands at `p`, and the position after it.
pub open spec fn bang_at(tv: Seq<(TokV, usize)>, p: int) -> (bool, int) {
    if punct(tv, p, '!') {
        (true, p + 1)
    } else {
        (false, p)
    }
}

/// The rest of a `{ ... }` group from `i`, at brace depth `d`: the tokens
/// from `start` up to the matching `}`, and the position after it.
pub open spec fn balanced_rest(tv: Seq<(TokV, usize)>, i: int, d: nat, start: int) -> Option<
    (Seq<(TokV, usize)>, int),
>
    decreases (tv.len() - i) as nat,
{
    if !(0 <= i < tv.len()) {
        None
    } else if tv[i].0 == TokV::Punct('}') {
        if d <= 1 {
            Some((tv.subrange(start, i), i + 1))
        } else {
            balanced_rest(tv, i + 1, (d - 1) as nat, start)
        }
    } else if tv[i].0 == TokV::Punct('{') {
        balanced_rest(tv, i + 1, d + 1, start)
    } else {
        balanced_rest(tv, i + 1, d, start)
    }
}

/// A `{ ... }` group at `p` with balanced braces: its inner tokens and the
/// position after it.
pub open spec fn balanced_at(tv: Seq<(TokV, usize)>, p: int) -> Option<(Seq<(TokV, usize)>, int)> {
    if punct(tv, p, '{') {
        balanced_rest(tv, p + 1, 1, p + 1)
    } else {
        None
    }
}

/// The props of a call from `p`, `name { ... } ,?` each, up to the closing
/// `}`: the fills and the position of that `}`.
pub open spec fn fills_rest(
    tv: Seq<(TokV, usize)>,
    p: int,
    acc: Seq<(Seq<char>, Seq<(TokV, usize)>)>,
) -> Option<(Seq<(Seq<char>, Seq<(TokV, usize)>)>, int)>
    decreases (tv.len() - p) as nat,
{
    if punct(tv, p, '}') {
        Some((acc, p))
    } else if ident(tv, p) {
        match balanced_at(tv, p + 1) {
            Some((toks, q)) => {
                let q2 = if punct(tv, q, ',') {
                    q + 1
                } else {
                    q
                };
                if p < q2 <= tv.len() {
                    fills_rest(tv, q2, acc.push((tv[p].0->Ident_0, toks)))
                } else {
                    None
                }
            },
            None => None,
        }
    } else {
        None
    }
}

/// The props of a call fit the declared names: each bound prop is declared and
/// bound once, and each declared prop is bound.
pub open spec fn props_fit_v(
    declared: Seq<Seq<char>>,
    fs: Seq<(Seq<char>, Seq<(TokV, usize)>)>,
) -> bool {
    &&& forall|i: int|
        0 <= i < fs.len() ==> declared.contains(#[trigger] fs[i].0)
            && crate::splice::fill_index(fs, fs[i].0) == i
    &&& forall|j: int|
        0 <= j < declared.len() ==> crate::splice::fill_index(fs, #[trigger] declared[j])
            < fs.len()
}

/// An empty fill for each name.
pub open spec fn empty_fills_v(names: Seq<Seq<char>>) -> Seq<(Seq<char>, Seq<(TokV, usize)>)> {
    names.map_values(|n: Seq<char>| (n, Seq::<(TokV, usize)>::empty()))
}

/// The index of the first definition named `name`, or the number of definitions.
pub open spec fn find_index(cs: Seq<Component>, name: Seq<char>) -> int
    decreases cs.len(),
{
    if cs.len() == 0 {
        0
    } else if cs[0].name@ == name {
        0
    } else {
        1 + find_index(cs.drop_first(), name)
    }
}

/// The tokens that a call of definition `k` with the given props expands to.
pub open spec fn call_tokens(
    lib: Templates,
    k: int,
    fills: Seq<(Seq<char>, Seq<(TokV, usize)>)>,
) -> Option<Seq<(TokV, usize)>> {
    let cs = lib.components@;
    let c = cs[k];
    match c.kind {
        ComponentKind::Plain => if props_fit_v(names_view(c.props@), fills) {
            Some(spliced(toks_view(c.body@), true, fills))
        } else {
            None
        },
        ComponentKind::Layout => if fills.len() == 0 {
            Some(spliced(toks_view(c.body@), false, empty_fills_v(names_view(c.props@))))
        } else {
            None
        },
        ComponentKind::Extends(l) => {
            let j = find_index(cs, l@);
            if fills.len() == 0 && 0 <= j < cs.len() && cs[j].kind is Layout && (forall|i: int|
                0 <= i < c.blocks@.len() ==> names_view(cs[j].props@).contains(
                    #[trigger] c.blocks@[i].name@,
                )) {
                Some(
                    spliced(
                        toks_view(cs[j].body@),
                        false,
                        fills_view(c.blocks@) + empty_fills_v(names_view(cs[j].props@)),
                    ),
                )
            } else {
                None
            }
        },
    }
}

/// What a call of `name` with the given props expands to, its body parsed in
/// escape setting `e`, with calls nested at most `depth` deep.
pub open spec fn expand_at(
    lib: Templates,
    name: Seq<char>,
    fills: Seq<(Seq<char>, Seq<(TokV, usize)>)>,
    e: bool,
    depth: nat,
) -> Option<Seq<NodeV>>
    decreases depth, 0nat, 0nat,
{
    if depth == 0 {
        None
    } else {
        let k = find_index(lib.components@, name);
        if 0 <= k < lib.components@.len() {
            match call_tokens(lib, k, fills) {
                Some(t) => match children_rest(lib, t, 0, e, false, (depth - 1) as nat, Seq::empty()) {
                    Some((ns, _)) => Some(ns),
                    None => None,
                },
                None => None,
            }
        } else {
            None
        }
    }
}

/// The children from `p` on, after `acc`: up to the `}` that closes the block
/// (when `closing`), or up to the end. Gives the nodes and the position after.
pub open spec fn children_rest(
    lib: Templates,
    tv: Seq<(TokV, usize)>,
    p: int,
    e: bool,
    closing: bool,
    depth: nat,
    acc: Seq<NodeV>,
) -> Option<(Seq<NodeV>, int)>
    decreases depth, (tv.len() - p) as nat, 4nat,
{
    if p < 0 || p > tv.len() {
        None
    } else if p == tv.len() {
        if closing {
            None
        } else {
            Some((acc, p))
        }
    } else if tv[p].0 == TokV::Punct('}') {
        if closing {
            Some((acc, p + 1))
        } else {
            None
        }
    } else {
        match node_at(lib, tv, p, e, depth) {
            Some((n, q)) => if p < q <= tv.len() {
                children_rest(lib, tv, q, e, closing, depth, acc.push(n))
            } else {
                None
            },
            None => None,
        }
    }
}

/// The node at `p` and the position after it.
pub open spec fn node_at(lib: Templates, tv: Seq<(TokV, usize)>, p: int, e: bool, depth: nat) -> Option<
    (NodeV, int),
>
    decreases depth, (tv.len() - p) as nat, 3nat,
{
    if !(0 <= p < tv.len()) {
        None
    } else {
        match tv[p].0 {
            TokV::Str(s) => {
                let (raw, q) = bang_at(tv, p + 1);
                Some((NodeV::Text { content: s, escape: e && !raw, raw }, q))
            },
            TokV::Punct(c) => if c == '@' {
                match path_at(tv, p + 1) {
                    Some((path, q)) => {
                        let (raw, q2) = bang_at(tv, q);
                        Some((NodeV::Expr { path, escape: e && !raw, raw }, q2))
                    },
                    None => None,
                }
            } else {
                None
            },
            TokV::Ident(w) => if w == seq!['i', 'f'] {
                if_at(lib, tv, p, e, depth)
            } else if w == seq!['f', 'o', 'r'] {
                for_at(lib, tv, p, e, depth)
            } else if w == seq!['m', 'a', 't', 'c', 'h'] {
                match_at(lib, tv, p, e, depth)
            } else if w == seq!['c', 'a', 'l', 'l'] {
                call_at(lib, tv, p, e, depth)
            } else if w == seq!['s', 'c', 'r', 'i', 'p', 't'] {
                raw_at(lib, tv, p, true)
            } else if w == seq!['s', 't', 'y', 'l', 'e'] {
                raw_at(lib, tv, p, false)
            } else if w == seq!['s', 'c', 'r', 'i', 'p', 't', '_', 'u', 's', 'e'] {
                if ident(tv, p + 1) && punct(tv, p + 2, ';') {
                    Some((NodeV::ScriptUse { name: tv[p + 1].0->Ident_0 }, p + 3))
                } else {
                    None
                }
            } else if w == seq!['b', 'l', 'o', 'c', 'k'] || w == seq!['e', 'x', 't', 'e', 'n', 'd'] {
                None
            } else if w == seq!['i'] && p + 1 < tv.len() && tv[p + 1].0 is Str {
                match crate::component::include_of(lib.includes@, tv[p + 1].0->Str_0) {
                    Some(t) => {
                        let (raw, q) = bang_at(tv, p + 2);
                        Some((NodeV::Text { content: t, escape: e && !raw, raw }, q))
                    },
                    None => None,
                }
            } else {
                element_at(lib, tv, p, e, depth)
            },
        }
    }
}

/// A block at `p`: an optional marker and `{ children }`. Gives the children,
/// the marker and the position after the block.
pub open spec fn block_at(lib: Templates, tv: Seq<(TokV, usize)>, p: int, e: bool, depth: nat) -> Option<
    (Seq<NodeV>, Option<bool>, int),
>
    decreases depth, (tv.len() - p) as nat, 2nat,
{
    let (m, q) = marker_at(tv, p);
    if 0 <= p <= q && punct(tv, q, '{') {
        match children_rest(lib, tv, q + 1, inner_esc(m, e, lib.escaping), true, depth, Seq::empty()) {
            Some((ns, r)) => Some((ns, m, r)),
            None => None,
        }
    } else {
        None
    }
}

/// `if cond; block` at `p`, then its `else` parts.
pub open spec fn if_at(lib: Templates, tv: Seq<(TokV, usize)>, p: int, e: bool, depth: nat) -> Option<
    (NodeV, int),
>
    decreases depth, (tv.len() - p) as nat, 2nat,
{
    if !(0 <= p < tv.len()) {
        None
    } else {
        match cond_at(tv, p + 1) {
            Some((l, eq, rt, q)) => if p < q && punct(tv, q, ';') {
                match block_at(lib, tv, q + 1, e, depth) {
                    Some((body, m, r)) => if p < r <= tv.len() {
                        else_rest(
                            lib,
                            tv,
                            r,
                            e,
                            depth,
                            seq![BranchV { cond: (l, eq, rt), body, marker: m }],
                        )
                    } else {
                        None
                    },
                    None => None,
                }
            } else {
                None
            },
            None => None,
        }
    }
}

/// The `else if cond; block` and `else block` parts from `p`, after branches `bs`.
pub open spec fn else_rest(
    lib: Templates,
    tv: Seq<(TokV, usize)>,
    p: int,
    e: bool,
    depth: nat,
    bs: Seq<BranchV>,
) -> Option<(NodeV, int)>
    decreases depth, (tv.len() - p) as nat, 1nat,
{
    if word(tv, p, seq!['e', 'l', 's', 'e']) {
        if word(tv, p + 1, seq!['i', 'f']) {
            match cond_at(tv, p + 2) {
                Some((l, eq, rt, q)) => if p < q && punct(tv, q, ';') {
                    match block_at(lib, tv, q + 1, e, depth) {
                        Some((body, m, r)) => if p < r <= tv.len() {
                            else_rest(
                                lib,
                                tv,
                                r,
                                e,
                                depth,
                                bs.push(BranchV { cond: (l, eq, rt), body, marker: m }),
                            )
                        } else {
                            None
                        },
                        None => None,
                    }
                } else {
                    None
                },
                None => None,
            }
        } else {
            match block_at(lib, tv, p + 1, e, depth) {
                Some((body, m, r)) => Some(
                    (NodeV::If { branches: bs, otherwise: body, otherwise_marker: m }, r),
                ),
                None => None,
            }
        }
    } else {
        Some((NodeV::If { branches: bs, otherwise: Seq::empty(), otherwise_marker: None }, p))
    }
}

/// `for var in @path;; block` at `p`.
pub open spec fn for_at(lib: Templates, tv: Seq<(TokV, usize)>, p: int, e: bool, depth: nat) -> Option<
    (NodeV, int),
>
    decreases depth, (tv.len() - p) as nat, 2nat,
{
    if 0 <= p && ident(tv, p + 1) && word(tv, p + 2, seq!['i', 'n']) && punct(tv, p + 3, '@') {
        match path_at(tv, p + 4) {
            Some((src, q)) => if p < q && punct(tv, q, ';') {
                match block_at(lib, tv, q + 1, e, depth) {
                    Some((body, m, r)) => Some(
                        (
                            NodeV::For {
                                var: tv[p + 1].0->Ident_0,
                                source: src,
                                body,
                                marker: m,
                            },
                            r,
                        ),
                    ),
                    None => None,
                }
            } else {
                None
            },
            None => None,
        }
    } else {
        None
    }
}

/// `match operand; marker? { arms }` at `p`.
pub open spec fn match_at(lib: Templates, tv: Seq<(TokV, usize)>, p: int, e: bool, depth: nat) -> Option<
    (NodeV, int),
>
    decreases depth, (tv.len() - p) as nat, 2nat,
{
    if !(0 <= p < tv.len()) {
        None
    } else {
        match operand_at(tv, p + 1) {
            Some((subject, q)) => if p < q && punct(tv, q, ';') {
                let (m, q2) = marker_at(tv, q + 1);
                if punct(tv, q2, '{') && p < q2 {
                    match arms_rest(
                        lib,
                        tv,
                        q2 + 1,
                        inner_esc(m, e, lib.escaping),
                        depth,
                        Seq::empty(),
                    ) {
                        Some((arms, r)) => Some((NodeV::Match { subject, arms, marker: m }, r)),
                        None => None,
                    }
                } else {
                    None
                }
            } else {
                None
            },
            None => None,
        }
    }
}

/// The arms of a `match` from `p`, after `acc`, up to and past the closing `}`.
pub open spec fn arms_rest(
    lib: Templates,
    tv: Seq<(TokV, usize)>,
    p: int,
    esc: bool,
    depth: nat,
    acc: Seq<ArmV>,
) -> Option<(Seq<ArmV>, int)>
    decreases depth, (tv.len() - p) as nat, 1nat,
{
    if !(0 <= p < tv.len()) {
        None
    } else if tv[p].0 == TokV::Punct('}') {
        Some((acc, p + 1))
    } else {
        let pat: Option<Option<Seq<char>>> = match tv[p].0 {
            TokV::Str(s) => Some(Some(s)),
            TokV::Ident(w) => if w == seq!['_'] {
                Some(None)
            } else {
                None
            },
            TokV::Punct(_) => None,
        };
        match pat {
            None => None,
            Some(pattern) => {
                let g: Option<(Option<((bool, Seq<char>), bool, (bool, Seq<char>))>, int)> = if word(
                    tv,
                    p + 1,
                    seq!['i', 'f'],
                ) {
                    match cond_at(tv, p + 2) {
                        Some((l, eq, rt, q)) => Some((Some((l, eq, rt)), q)),
                        None => None,
                    }
                } else {
                    Some((None, p + 1))
                };
                match g {
                    None => None,
                    Some((guard, q)) => if p < q && punct(tv, q, '=') && punct(tv, q + 1, '>') {
                        match block_at(lib, tv, q + 2, esc, depth) {
                            Some((body, am, r)) => {
                                let r2 = if punct(tv, r, ',') {
                                    r + 1
                                } else {
                                    r
                                };
                                if p < r2 <= tv.len() {
                                    arms_rest(
                                        lib,
                                        tv,
                                        r2,
                                        esc,
                                        depth,
                                        acc.push(ArmV { pattern, guard, body, marker: am }),
                                    )
                                } else {
                                    None
                                }
                            },
                            None => None,
                        }
                    } else {
                        None
                    },
                }
            },
        }
    }
}

/// The body of a `script` or `style` element at `c`, and the position after it.
/// A `!` after a literal body is read and has no effect: such a body is never escaped.
pub open spec fn content_at(tv: Seq<(TokV, usize)>, c: int) -> Option<(ContentV, int)> {
    if punct(tv, c, '}') {
        Some((ContentV::Empty, c))
    } else if 0 <= c < tv.len() && tv[c].0 is Str {
        Some((ContentV::Static(tv[c].0->Str_0), if punct(tv, c + 1, '!') {
            c + 2
        } else {
            c + 1
        }))
    } else if punct(tv, c, '@') {
        match path_at(tv, c + 1) {
            Some((path, q)) => Some((ContentV::Dynamic(path), q)),
            None => None,
        }
    } else {
        None
    }
}

/// `script (name)? attrs { content }` (`js`) or `style attrs { content }` at `p`.
pub open spec fn raw_at(lib: Templates, tv: Seq<(TokV, usize)>, p: int, js: bool) -> Option<
    (NodeV, int),
> {
    if !(0 <= p < tv.len()) {
        None
    } else {
        let hoisted = js && punct(tv, p + 1, '(');
        let pre: Option<(Option<Seq<char>>, int)> = if hoisted {
            if ident(tv, p + 2) && punct(tv, p + 3, ')') {
                Some((Some(tv[p + 2].0->Ident_0), p + 4))
            } else {
                None
            }
        } else {
            Some((None, p + 1))
        };
        match pre {
            None => None,
            Some((hoist, a)) => match attrs_from(tv, a, Seq::empty(), None, false) {
                Some((pairs, esc, nom, end)) => if esc is None && punct(tv, end, '{') {
                    match content_at(tv, end + 1) {
                        Some((content, q)) => if punct(tv, q, '}') {
                            let minify = !nom && lib.minifying;
                            if js {
                                Some(
                                    (
                                        NodeV::Script { attrs: merged(pairs), content, minify, hoist },
                                        q + 1,
                                    ),
                                )
                            } else {
                                Some((NodeV::Style { attrs: merged(pairs), content, minify }, q + 1))
                            }
                        } else {
                            None
                        },
                        None => None,
                    }
                } else {
                    None
                },
                None => None,
            },
        }
    }
}

/// `tag attrs ;` or `tag attrs { children }` at `p`.
pub open spec fn element_at(lib: Templates, tv: Seq<(TokV, usize)>, p: int, e: bool, depth: nat) -> Option<
    (NodeV, int),
>
    decreases depth, (tv.len() - p) as nat, 2nat,
{
    if ident(tv, p) {
        match attrs_from(tv, p + 1, Seq::empty(), None, false) {
            Some((pairs, esc, nom, end)) => if nom || !(p < end) {
                None
            } else if punct(tv, end, ';') {
                Some(
                    (
                        NodeV::Element {
                            tag: tv[p].0->Ident_0,
                            attrs: merged(pairs),
                            body: None,
                            marker: esc,
                        },
                        end + 1,
                    ),
                )
            } else if punct(tv, end, '{') {
                match children_rest(
                    lib,
                    tv,
                    end + 1,
                    inner_esc(esc, e, lib.escaping),
                    true,
                    depth,
                    Seq::empty(),
                ) {
                    Some((ns, r)) => Some(
                        (
                            NodeV::Element {
                                tag: tv[p].0->Ident_0,
                                attrs: merged(pairs),
                                body: Some(ns),
                                marker: esc,
                            },
                            r,
                        ),
                    ),
                    None => None,
                }
            } else {
                None
            },
            None => None,
        }
    } else {
        None
    }
}

/// `call name { props } !?` at `p`: a call node holding the expansion.
pub open spec fn call_at(lib: Templates, tv: Seq<(TokV, usize)>, p: int, e: bool, depth: nat) -> Option<
    (NodeV, int),
>
    decreases depth, (tv.len() - p) as nat, 2nat,
{
    if 0 <= p < tv.len() && ident(tv, p + 1) && punct(tv, p + 2, '{') {
        match fills_rest(tv, p + 3, Seq::empty()) {
            Some((fs, q)) => {
                let (raw, r) = bang_at(tv, q + 1);
                match expand_at(lib, tv[p + 1].0->Ident_0, fs, e && !raw, depth) {
                    Some(body) => Some(
                        (NodeV::Call { name: tv[p + 1].0->Ident_0, body, raw }, r),
                    ),
                    None => None,
                }
            },
            None => None,
        }
    } else {
        None
    }
}

/// What a template of tokens parses to against the definitions, from the
/// start, with escaping as available and calls nested at most `MAX_DEPTH` deep.
pub open spec fn template_of(lib: Templates, tv: Seq<(TokV, usize)>) -> Option<Seq<NodeV>> {
    match children_rest(
        lib,
        tv,
        0,
        lib.escaping,
        false,
        crate::parser::MAX_DEPTH as nat,
        Seq::empty(),
    ) {
        Some((ns, _)) => Some(ns),
        None => None,
    }
}

/// The kind of a definition as a value.
pub enum KindV {
    Plain,
    Layout,
    Extends(Seq<char>),
}

/// A definition as a value: name, props (for a layout its slots), kind, body
/// tokens, and the blocks of an extending template.
pub type DefV = (Seq<char>, Seq<Seq<char>>, KindV, Seq<(TokV, usize)>, Seq<(Seq<char>, Seq<(TokV, usize)>)>);

pub open spec fn def_view(c: Component) -> DefV {
    (
        c.name@,
        names_view(c.props@),
        match c.kind {
            ComponentKind::Plain => KindV::Plain,
            ComponentKind::Layout => KindV::Layout,
            ComponentKind::Extends(l) => KindV::Extends(l@),
        },
        toks_view(c.body@),
        fills_view(c.blocks@),
    )
}

pub open spec fn block_word_v() -> Seq<char> {
    seq!['b', 'l', 'o', 'c', 'k']
}

/// The slots that a layout body uses, `block name;`, each once in order of
/// first use, scanning from `i` after `acc`.
pub open spec fn slots_from(body: Seq<(TokV, usize)>, i: int, acc: Seq<Seq<char>>) -> Seq<Seq<char>>
    decreases body.len() - i,
{
    if i < 0 || !(i < body.len() && body.len() - i > 2) {
        acc
    } else {
        let acc2 = if body[i].0 == TokV::Ident(block_word_v()) && body[i + 2].0 == TokV::Punct(';')
            && body[i + 1].0 is Ident && !acc.contains(body[i + 1].0->Ident_0) {
            acc.push(body[i + 1].0->Ident_0)
        } else {
            acc
        };
        slots_from(body, i + 1, acc2)
    }
}

/// The `extend name { ... }` blocks from `p` to the end, after `acc`.
pub open spec fn blocks_rest(
    tv: Seq<(TokV, usize)>,
    p: int,
    acc: Seq<(Seq<char>, Seq<(TokV, usize)>)>,
) -> Option<Seq<(Seq<char>, Seq<(TokV, usize)>)>>
    decreases (tv.len() - p) as nat,
{
    if p < 0 {
        None
    } else if p >= tv.len() {
        Some(acc)
    } else if word(tv, p, seq!['e', 'x', 't', 'e', 'n', 'd']) && ident(tv, p + 1) {
        match balanced_at(tv, p + 2) {
            Some((toks, q)) => if p < q <= tv.len() {
                blocks_rest(tv, q, acc.push((tv[p + 1].0->Ident_0, toks)))
            } else {
                None
            },
            None => None,
        }
    } else {
        None
    }
}

/// A definition: `layout name => body`, `name @layout => blocks`,
/// `name(props) => body` with distinct props, or `name => body`.
pub open spec fn def_at(tv: Seq<(TokV, usize)>) -> Option<DefV> {
    if word(tv, 0, seq!['l', 'a', 'y', 'o', 'u', 't']) {
        if ident(tv, 1) && punct(tv, 2, '=') && punct(tv, 3, '>') {
            let body = tv.subrange(4, tv.len() as int);
            Some(
                (
                    tv[1].0->Ident_0,
                    slots_from(body, 0, Seq::empty()),
                    KindV::Layout,
                    body,
                    Seq::empty(),
                ),
            )
        } else {
            None
        }
    } else if ident(tv, 0) {
        let name = tv[0].0->Ident_0;
        if punct(tv, 1, '@') {
            if ident(tv, 2) && punct(tv, 3, '=') && punct(tv, 4, '>') {
                match blocks_rest(tv, 5, Seq::empty()) {
                    Some(bs) => Some(
                        (name, Seq::empty(), KindV::Extends(tv[2].0->Ident_0), Seq::empty(), bs),
                    ),
                    None => None,
                }
            } else {
                None
            }
        } else if punct(tv, 1, '(') {
            match crate::component::props_rest(tv, 2, Seq::empty()) {
                Some((ps, q)) => if ps.no_duplicates() && punct(tv, q, '=') && punct(tv, q + 1, '>') {
                    Some((name, ps, KindV::Plain, tv.subrange(q + 2, tv.len() as int), Seq::empty()))
                } else {
                    None
                },
                None => None,
            }
        } else if punct(tv, 1, '=') && punct(tv, 2, '>') {
            Some((name, Seq::empty(), KindV::Plain, tv.subrange(3, tv.len() as int), Seq::empty()))
        } else {
            None
        }
    } else {
        None
    }
}

/// A component definition whose prop list is well formed but names a prop twice.
pub open spec fn dup_props(tv: Seq<(TokV, usize)>) -> bool {
    &&& !word(tv, 0, seq!['l', 'a', 'y', 'o', 'u', 't'])
    &&& ident(tv, 0)
    &&& punct(tv, 1, '(')
    &&& crate::component::props_rest(tv, 2, Seq::empty()) matches Some((ps, _))
    &&& !ps.no_duplicates()
}

} // verus!
