//! The grammar: tokens become template nodes. Calls of components and layouts
//! are expanded where they stand, and the escape context is threaded down the
//! tree: a block inherits it unless it is marked `escape` or `noescape`.

use vstd::prelude::*;
use crate::ast::{
    Arm, ArmV, Branch, BranchV, Cond, Content, Node, NodeV, Operand, arms_escape_ok, arms_v,
    block_esc, branches_escape_ok, branches_v, cond_view, escape_ok, inner_esc, node_escape_ok,
    node_v, nodes_v, operand_view,
};
use crate::grammar::{
    arms_rest, bang_at, block_at, call_at, element_at, else_rest, empty_fills_v, expand_at, fills_rest,
    for_at, if_at, marker_at, match_at, node_at, children_rest, props_fit_v, raw_at, call_tokens,
};
use crate::attrs::{Attr, AttrVal, AttributeValue, attrs_view, merged, resolve_attributes};
use crate::laws::law_attribute_order;
use crate::component::{
    ComponentKind, Templates, balanced, error_at, expect_ident, expect_punct, has_name, names_view,
    lemma_names_contains,
    punct_at, word_at,
};
use crate::error::{Error, ErrorKind};
use crate::lexer::{Tok, TokV, Token, toks_view};
use crate::splice::{Fill, fill_index, fills_view, find_fill, splice};
use crate::grammar::find_index;

verus! {

/// How deep calls may nest.
pub const MAX_DEPTH: usize = 64;

/// The escape setting of a block: its own marker where it has one, else the
/// setting it inherits.
pub fn block_escape(marker: Option<bool>, inherited: bool) -> (r: bool)
    ensures
        r == block_esc(marker, inherited),
{
    match marker {
        Some(m) => m,
        None => inherited,
    }
}

/// A key of an attribute as written: a name, a quoted string, or one of the
/// markers that are no attributes.
pub enum AttributeKey {
    Name(String),
    Quoted(String),
    Escape,
    NoEscape,
    NoMinify,
}

/// The attributes of a tag: the merged list and the markers found among them.
pub struct Attributes {
    pub list: Vec<Attr>,
    /// The last `escape` (true) or `noescape` (false), if any.
    pub escape: Option<bool>,
    /// Whether `nominify` is present.
    pub nominify: bool,
}

/// Checks the props of a call against the declaration.
pub fn check_props(declared: &Vec<String>, fills: &Vec<Fill>, at: usize) -> (r: Result<(), Error>)
    ensures
        r is Ok <==> props_fit_v(names_view(declared@), fills_view(fills@)),
        r is Err ==> r->Err_0.kind == ErrorKind::UnknownProp || r->Err_0.kind
            == ErrorKind::MissingProp,
        r is Err && r->Err_0.kind == ErrorKind::UnknownProp ==> (r->Err_0.name matches Some(nm)
            && exists|i: int|
            0 <= i < fills@.len() && fills@[i].name@ == nm@ && (!names_view(declared@).contains(nm@)
                || fill_index(fills_view(fills@), nm@) != i)),
        r is Err && r->Err_0.kind == ErrorKind::MissingProp ==> (r->Err_0.name matches Some(nm)
            && names_view(declared@).contains(nm@) && fill_index(fills_view(fills@), nm@)
            >= fills@.len()),
{
    let ghost fv = fills_view(fills@);
    let ghost dv = names_view(declared@);
    let mut i: usize = 0;
    while i < fills.len()
        invariant
            i <= fills@.len(),
            fv == fills_view(fills@),
            dv == names_view(declared@),
            forall|k: int|
                0 <= k < i ==> dv.contains(#[trigger] fv[k].0) && fill_index(fv, fv[k].0) == k,
        decreases fills@.len() - i,
    {
        assert(fv[i as int].0 == fills@[i as int].name@);
        proof {
            lemma_names_contains(declared@, fills@[i as int].name@);
        }
        if !has_name(declared, &fills[i].name) || find_fill(fills, &fills[i].name) != i {
            return Err(Error { kind: ErrorKind::UnknownProp, at, name: Some(fills[i].name.clone()) });
        }
        i = i + 1;
    }
    let mut j: usize = 0;
    while j < declared.len()
        invariant
            j <= declared@.len(),
            fv == fills_view(fills@),
            dv == names_view(declared@),
            forall|k: int|
                0 <= k < fills@.len() ==> dv.contains(#[trigger] fv[k].0) && fill_index(fv, fv[k].0)
                    == k,
            forall|k: int| 0 <= k < j ==> fill_index(fv, #[trigger] dv[k]) < fv.len(),
        decreases declared@.len() - j,
    {
        assert(dv[j as int] == declared@[j as int]@);
        if find_fill(fills, &declared[j]) >= fills.len() {
            return Err(Error { kind: ErrorKind::MissingProp, at, name: Some(declared[j].clone()) });
        }
        j = j + 1;
    }
    Ok(())
}

/// The rest of a path after `acc`: more `.segment`s, then `;`. Gives the
/// path and the position after the `;`.
pub open spec fn path_rest(tv: Seq<(TokV, usize)>, pos: int, acc: Seq<char>) -> Option<
    (Seq<char>, int),
>
    decreases tv.len() - pos,
{
    if pos < 0 || pos >= tv.len() {
        None
    } else if tv[pos].0 == TokV::Punct('.') {
        if pos + 1 < tv.len() && tv[pos + 1].0 is Ident {
            path_rest(tv, pos + 2, acc + seq!['.'] + tv[pos + 1].0->Ident_0)
        } else {
            None
        }
    } else if tv[pos].0 == TokV::Punct(';') {
        Some((acc, pos + 1))
    } else {
        None
    }
}

/// A path `a.b.c;` at `pos`: its text, segments joined by `.`, and the position
/// after the `;`.
pub open spec fn path_at(tv: Seq<(TokV, usize)>, pos: int) -> Option<(Seq<char>, int)> {
    if 0 <= pos < tv.len() && tv[pos].0 is Ident {
        path_rest(tv, pos + 1, tv[pos].0->Ident_0)
    } else {
        None
    }
}

/// Reads a path, `a.b.c`, and the `;` after it.
fn parse_path(ts: &Vec<Token>, pos: usize) -> (r: Result<(String, usize), Error>)
    ensures
        r is Ok ==> pos < r->Ok_0.1 <= ts@.len(),
        r is Ok <==> path_at(toks_view(ts@), pos as int) is Some,
        r is Ok ==> path_at(toks_view(ts@), pos as int) == Some(
            (r->Ok_0.0@, r->Ok_0.1 as int),
        ),
{
    let ghost tv = toks_view(ts@);
    if pos < ts.len() {
        assert(tv[pos as int] == ts@[pos as int]@);
    }
    let (mut path, mut p) = expect_ident(ts, pos)?;
    while punct_at(ts, p, '.')
        invariant
            pos < p <= ts@.len(),
            tv == toks_view(ts@),
            path_at(tv, pos as int) == path_rest(tv, p as int, path@),
        decreases ts@.len() - p,
    {
        assert(tv[p as int] == ts@[p as int]@);
        if p + 1 < ts.len() {
            assert(tv[p + 1] == ts@[p + 1]@);
        }
        let (seg, q) = expect_ident(ts, p + 1)?;
        let ghost acc = path@;
        path.append(".");
        proof {
            reveal_strlit(".");
        }
        path.append(seg.as_str());
        assert(path@ =~= acc + seq!['.'] + seg@);
        p = q;
    }
    if p < ts.len() {
        assert(tv[p as int] == ts@[p as int]@);
    }
    let p = expect_punct(ts, p, ';')?;
    Ok((path, p))
}

/// An operand at `pos`: a string literal, or `@` and a path.
pub open spec fn operand_at(tv: Seq<(TokV, usize)>, pos: int) -> Option<((bool, Seq<char>), int)> {
    if 0 <= pos < tv.len() && tv[pos].0 is Str {
        Some(((true, tv[pos].0->Str_0), pos + 1))
    } else if 0 <= pos < tv.len() && tv[pos].0 == TokV::Punct('@') {
        match path_at(tv, pos + 1) {
            Some((path, q)) => Some(((false, path), q)),
            None => None,
        }
    } else {
        None
    }
}

/// A comparison at `pos`: an operand, `==` or `!=`, an operand. Gives the two
/// operands, whether it tests equality, and the position after it.
pub open spec fn cond_at(tv: Seq<(TokV, usize)>, pos: int) -> Option<
    ((bool, Seq<char>), bool, (bool, Seq<char>), int),
> {
    match operand_at(tv, pos) {
        Some((lhs, p)) => if 0 <= p && p + 1 < tv.len() && (tv[p].0 == TokV::Punct('=')
            || tv[p].0 == TokV::Punct('!')) && tv[p + 1].0 == TokV::Punct('=') {
            match operand_at(tv, p + 2) {
                Some((rhs, q)) => Some((lhs, tv[p].0 == TokV::Punct('='), rhs, q)),
                None => None,
            }
        } else {
            None
        },
        None => None,
    }
}

/// Reads an operand: a string literal or `@path;`.
fn parse_operand(ts: &Vec<Token>, pos: usize) -> (r: Result<(Operand, usize), Error>)
    ensures
        r is Ok ==> pos < r->Ok_0.1 <= ts@.len(),
        r is Ok <==> operand_at(toks_view(ts@), pos as int) is Some,
        r is Ok ==> operand_at(toks_view(ts@), pos as int) == Some(
            (operand_view(r->Ok_0.0), r->Ok_0.1 as int),
        ),
{
    let ghost tv = toks_view(ts@);
    if pos < ts.len() {
        assert(tv[pos as int] == ts@[pos as int]@);
        match &ts[pos].tok {
            Tok::Str(s) => {
                return Ok((Operand::Lit(s.clone()), pos + 1));
            },
            _ => {},
        }
    }
    let p = expect_punct(ts, pos, '@')?;
    let (path, q) = parse_path(ts, p)?;
    Ok((Operand::Path(path), q))
}

/// Reads a comparison: `operand == operand` or `operand != operand`.
fn parse_cond(ts: &Vec<Token>, pos: usize) -> (r: Result<(Cond, usize), Error>)
    ensures
        r is Ok ==> pos < r->Ok_0.1 <= ts@.len(),
        r is Ok <==> cond_at(toks_view(ts@), pos as int) is Some,
        r is Ok ==> cond_at(toks_view(ts@), pos as int) == Some(
            (
                operand_view(r->Ok_0.0.lhs),
                r->Ok_0.0.equal,
                operand_view(r->Ok_0.0.rhs),
                r->Ok_0.1 as int,
            ),
        ),
{
    let ghost tv = toks_view(ts@);
    let (lhs, p) = parse_operand(ts, pos)?;
    proof {
        if p < tv.len() {
            assert(tv[p as int] == ts@[p as int]@);
        }
        if p + 1 < tv.len() {
            assert(tv[p + 1] == ts@[p + 1]@);
        }
    }
    let equal = if punct_at(ts, p, '!') {
        false
    } else {
        let _ = expect_punct(ts, p, '=')?;
        true
    };
    let p = expect_punct(ts, p + 1, '=')?;
    let (rhs, p) = parse_operand(ts, p)?;
    Ok((Cond { lhs, equal, rhs }, p))
}

pub open spec fn escape_word() -> Seq<char> {
    seq!['e', 's', 'c', 'a', 'p', 'e']
}

pub open spec fn noescape_word() -> Seq<char> {
    seq!['n', 'o', 'e', 's', 'c', 'a', 'p', 'e']
}

pub open spec fn nominify_word() -> Seq<char> {
    seq!['n', 'o', 'm', 'i', 'n', 'i', 'f', 'y']
}

/// The text of a key token: a bare word or a string literal.
pub open spec fn key_text(t: TokV) -> Seq<char> {
    match t {
        TokV::Ident(s) => s,
        TokV::Str(s) => s,
        TokV::Punct(_) => Seq::empty(),
    }
}

/// The attributes as written from `pos` on, up to the `{` or `;` that ends
/// them, after `pairs`, `esc` and `nominify` so far: the pairs, the last escape
/// marker, whether `nominify` occurs, and the position of the `{` or `;`.
pub open spec fn attrs_from(
    tv: Seq<(TokV, usize)>,
    pos: int,
    pairs: Seq<(Seq<char>, AttrVal)>,
    esc: Option<bool>,
    nominify: bool,
) -> Option<(Seq<(Seq<char>, AttrVal)>, Option<bool>, bool, int)>
    decreases tv.len() - pos,
{
    if pos < 0 || pos >= tv.len() {
        None
    } else if tv[pos].0 == TokV::Punct('{') || tv[pos].0 == TokV::Punct(';') {
        Some((pairs, esc, nominify, pos))
    } else if tv[pos].0 == TokV::Ident(escape_word()) {
        attrs_from(tv, pos + 1, pairs, Some(true), nominify)
    } else if tv[pos].0 == TokV::Ident(noescape_word()) {
        attrs_from(tv, pos + 1, pairs, Some(false), nominify)
    } else if tv[pos].0 == TokV::Ident(nominify_word()) {
        attrs_from(tv, pos + 1, pairs, esc, true)
    } else if tv[pos].0 is Punct {
        None
    } else {
        let k = key_text(tv[pos].0);
        if pos + 1 < tv.len() && tv[pos + 1].0 == TokV::Punct('=') {
            if pos + 2 < tv.len() && tv[pos + 2].0 is Str {
                attrs_from(
                    tv,
                    pos + 3,
                    pairs.push((k, AttrVal::Lit(tv[pos + 2].0->Str_0))),
                    esc,
                    nominify,
                )
            } else if pos + 2 < tv.len() && tv[pos + 2].0 == TokV::Punct('@') {
                match path_at(tv, pos + 3) {
                    Some((path, q)) => if pos < q <= tv.len() {
                        attrs_from(tv, q, pairs.push((k, AttrVal::Expr(path))), esc, nominify)
                    } else {
                        None
                    },
                    None => None,
                }
            } else {
                None
            }
        } else {
            attrs_from(tv, pos + 1, pairs.push((k, AttrVal::Bare)), esc, nominify)
        }
    }
}

/// Reads one attribute key.
fn parse_attr_key(ts: &Vec<Token>, pos: usize) -> (r: Result<(AttributeKey, usize), Error>)
    ensures
        r is Ok <==> (pos < ts@.len() && !(ts@[pos as int]@.0 is Punct)),
        r is Ok ==> r->Ok_0.1 == pos + 1,
        r is Ok ==> match r->Ok_0.0 {
            AttributeKey::Escape => ts@[pos as int]@.0 == TokV::Ident(escape_word()),
            AttributeKey::NoEscape => ts@[pos as int]@.0 == TokV::Ident(noescape_word()),
            AttributeKey::NoMinify => ts@[pos as int]@.0 == TokV::Ident(nominify_word()),
            AttributeKey::Name(k) => ts@[pos as int]@.0 == TokV::Ident(k@) && k@ != escape_word()
                && k@ != noescape_word() && k@ != nominify_word(),
            AttributeKey::Quoted(k) => ts@[pos as int]@.0 == TokV::Str(k@),
        },
{
    proof {
        reveal_strlit("escape");
        reveal_strlit("noescape");
        reveal_strlit("nominify");
        assert("escape"@ =~= escape_word());
        assert("noescape"@ =~= noescape_word());
        assert("nominify"@ =~= nominify_word());
    }
    if pos >= ts.len() {
        return Err(error_at(ts, pos, ErrorKind::UnexpectedEnd));
    }
    match &ts[pos].tok {
        Tok::Ident(s) => {
            let key = if ts[pos].is_word("escape") {
                AttributeKey::Escape
            } else if ts[pos].is_word("noescape") {
                AttributeKey::NoEscape
            } else if ts[pos].is_word("nominify") {
                AttributeKey::NoMinify
            } else {
                AttributeKey::Name(s.clone())
            };
            Ok((key, pos + 1))
        },
        Tok::Str(s) => Ok((AttributeKey::Quoted(s.clone()), pos + 1)),
        _ => Err(error_at(ts, pos, ErrorKind::UnexpectedToken)),
    }
}

impl Attributes {
    /// Reads the attributes of a tag up to the `{` or `;` after them, which is
    /// not consumed, and merges them: each key once, in the order of its first
    /// occurrence, with its last value. The markers among them are kept apart:
    /// the last `escape` or `noescape`, and whether `nominify` occurs.
    pub fn parse(ts: &Vec<Token>, pos: usize) -> (r: Result<(Attributes, usize), Error>)
        requires
            pos <= ts@.len(),
        ensures
            r is Ok <==> attrs_from(toks_view(ts@), pos as int, Seq::empty(), None, false) is Some,
            r is Ok ==> (attrs_from(toks_view(ts@), pos as int, Seq::empty(), None, false) matches Some(
                (pairs, esc, nominify, end),
            ) && attrs_view(r->Ok_0.0.list@) == merged(pairs) && r->Ok_0.0.escape == esc
                && r->Ok_0.0.nominify == nominify && r->Ok_0.1 == end),
            r is Ok ==> pos <= r->Ok_0.1 < ts@.len(),
            r is Ok ==> forall|i: int, j: int|
                0 <= i < j < r->Ok_0.0.list@.len() ==> r->Ok_0.0.list@[i].key@
                    != r->Ok_0.0.list@[j].key@,
    {
        let ghost tv = toks_view(ts@);
        let mut pairs: Vec<Attr> = Vec::new();
        let mut escape: Option<bool> = None;
        let mut nominify = false;
        let mut p = pos;
        assert(attrs_view(pairs@) =~= Seq::<(Seq<char>, AttrVal)>::empty());
        while !punct_at(ts, p, '{') && !punct_at(ts, p, ';')
            invariant
                pos <= p <= ts@.len(),
                tv == toks_view(ts@),
                attrs_from(tv, pos as int, Seq::empty(), None, false) == attrs_from(
                    tv,
                    p as int,
                    attrs_view(pairs@),
                    escape,
                    nominify,
                ),
            decreases ts@.len() - p,
        {
            if p < ts.len() {
                assert(tv[p as int] == ts@[p as int]@);
            }
            let (key, q) = parse_attr_key(ts, p)?;
            let ghost before = attrs_view(pairs@);
            match key {
                AttributeKey::Escape => {
                    escape = Some(true);
                    p = q;
                },
                AttributeKey::NoEscape => {
                    escape = Some(false);
                    p = q;
                },
                AttributeKey::NoMinify => {
                    nominify = true;
                    p = q;
                },
                AttributeKey::Name(k) | AttributeKey::Quoted(k) => {
                    let ghost kv = k@;
                    proof {
                        assert(key_text(tv[p as int].0) == kv);
                        if q < tv.len() {
                            assert(tv[q as int] == ts@[q as int]@);
                        }
                        if q + 1 < tv.len() {
                            assert(tv[q + 1] == ts@[q + 1]@);
                        }
                    }
                    if punct_at(ts, q, '=') {
                        if q + 1 >= ts.len() {
                            return Err(error_at(ts, q + 1, ErrorKind::UnexpectedEnd));
                        }
                        match &ts[q + 1].tok {
                            Tok::Str(v) => {
                                let a = Attr { key: k, value: AttributeValue::Lit(v.clone()) };
                                pairs.push(a);
                                assert(attrs_view(pairs@) =~= before.push(a@));
                                p = q + 2;
                            },
                            _ => {
                                let r = expect_punct(ts, q + 1, '@')?;
                                let (path, r) = parse_path(ts, r)?;
                                let a = Attr { key: k, value: AttributeValue::Expr(path) };
                                pairs.push(a);
                                assert(attrs_view(pairs@) =~= before.push(a@));
                                p = r;
                            },
                        }
                    } else {
                        let a = Attr { key: k, value: AttributeValue::Bare };
                        pairs.push(a);
                        assert(attrs_view(pairs@) =~= before.push(a@));
                        p = q;
                    }
                },
            }
        }
        if p >= ts.len() {
            return Err(error_at(ts, p, ErrorKind::UnexpectedEnd));
        }
        assert(tv[p as int] == ts@[p as int]@);
        let list = resolve_attributes(&pairs);
        proof {
            law_attribute_order(attrs_view(pairs@));
            assert forall|i: int, j: int| 0 <= i < j < list@.len() implies list@[i].key@
                != list@[j].key@ by {
                assert(attrs_view(list@)[i].0 == list@[i].key@);
                assert(attrs_view(list@)[j].0 == list@[j].key@);
            }
        }
        Ok((Attributes { list, escape, nominify }, p))
    }
}

proof fn lemma_escape_push(ns: Seq<Node>, n: Node, e: bool, cap: bool)
    ensures
        escape_ok(ns.push(n), e, cap) == (escape_ok(ns, e, cap) && node_escape_ok(n, e, cap)),
        nodes_v(ns.push(n)) == nodes_v(ns).push(node_v(n)),
{
    assert(ns.push(n).drop_last() =~= ns);
}

/// Appends a node whose escape flags follow the rules.
fn push_node(nodes: &mut Vec<Node>, n: Node, Ghost(e): Ghost<bool>, Ghost(cap): Ghost<bool>)
    requires
        escape_ok(old(nodes)@, e, cap),
        node_escape_ok(n, e, cap),
    ensures
        final(nodes)@ == old(nodes)@.push(n),
        escape_ok(final(nodes)@, e, cap),
        nodes_v(final(nodes)@) == nodes_v(old(nodes)@).push(node_v(n)),
{
    proof {
        lemma_escape_push(old(nodes)@, n, e, cap);
    }
    nodes.push(n);
}

/// Reads the children of a block up to its `}` (when `closing`), or all the
/// tokens from `pos` on: exactly what the grammar gives (`children_rest`), and
/// an error where it gives nothing. Their escape flags follow the rules for
/// setting `escape`, with escaping available as the definitions say.
pub fn parse_children(
    lib: &Templates,
    ts: &Vec<Token>,
    pos: usize,
    escape: bool,
    closing: bool,
    depth: usize,
) -> (r: Result<(Vec<Node>, usize), Error>)
    requires
        pos <= ts@.len(),
    ensures
        r is Ok <==> children_rest(*lib, toks_view(ts@), pos as int, escape, closing, depth as nat, Seq::empty()) is Some,
        r is Ok ==> children_rest(*lib, toks_view(ts@), pos as int, escape, closing, depth as nat, Seq::empty())
            == Some((nodes_v(r->Ok_0.0@), r->Ok_0.1 as int)),
        r is Ok ==> pos <= r->Ok_0.1 <= ts@.len(),
        r is Ok && !closing ==> r->Ok_0.1 == ts@.len(),
        r is Ok ==> escape_ok(r->Ok_0.0@, escape, lib.escaping),
    decreases depth, ts@.len() - pos, 4nat,
{
    let ghost tv = toks_view(ts@);
    let ghost d = depth as nat;
    let mut nodes: Vec<Node> = Vec::new();
    let mut p = pos;
    assert(nodes_v(nodes@) =~= Seq::<NodeV>::empty());
    loop
        invariant
            pos <= p <= ts@.len(),
            tv == toks_view(ts@),
            d == depth as nat,
            escape_ok(nodes@, escape, lib.escaping),
            children_rest(*lib, tv, pos as int, escape, closing, d, Seq::empty()) == children_rest(
                *lib,
                tv,
                p as int,
                escape,
                closing,
                d,
                nodes_v(nodes@),
            ),
        decreases ts@.len() - p,
    {
        if p >= ts.len() {
            if closing {
                return Err(error_at(ts, p, ErrorKind::UnexpectedEnd));
            }
            return Ok((nodes, p));
        }
        assert(tv[p as int] == ts@[p as int]@);
        if ts[p].is_punct('}') {
            if closing {
                return Ok((nodes, p + 1));
            }
            return Err(error_at(ts, p, ErrorKind::UnexpectedToken));
        }
        p = parse_node(lib, ts, p, escape, depth, &mut nodes)?;
    }
}

/// Reads an optional `escape` or `noescape` marker.
fn parse_marker(ts: &Vec<Token>, pos: usize) -> (r: (Option<bool>, usize))
    requires
        pos <= ts@.len(),
    ensures
        pos <= r.1 <= ts@.len(),
        (r.0, r.1 as int) == marker_at(toks_view(ts@), pos as int),
{
    proof {
        reveal_strlit("escape");
        reveal_strlit("noescape");
        assert("escape"@ =~= seq!['e', 's', 'c', 'a', 'p', 'e']);
        assert("noescape"@ =~= seq!['n', 'o', 'e', 's', 'c', 'a', 'p', 'e']);
        if pos < ts@.len() {
            assert(toks_view(ts@)[pos as int] == ts@[pos as int]@);
        }
    }
    if word_at(ts, pos, "escape") {
        (Some(true), pos + 1)
    } else if word_at(ts, pos, "noescape") {
        (Some(false), pos + 1)
    } else {
        (None, pos)
    }
}

/// Reads a block: an optional `escape` or `noescape` marker, then `{ children }`.
/// Returns the children, the marker, and the position after the block.
fn parse_block(lib: &Templates, ts: &Vec<Token>, pos: usize, escape: bool, depth: usize) -> (r:
    Result<(Vec<Node>, Option<bool>, usize), Error>)
    requires
        pos <= ts@.len(),
    ensures
        r is Ok <==> block_at(*lib, toks_view(ts@), pos as int, escape, depth as nat) is Some,
        r is Ok ==> block_at(*lib, toks_view(ts@), pos as int, escape, depth as nat) == Some(
            (nodes_v(r->Ok_0.0@), r->Ok_0.1, r->Ok_0.2 as int),
        ),
        r is Ok ==> pos < r->Ok_0.2 <= ts@.len(),
        r is Ok ==> escape_ok(r->Ok_0.0@, inner_esc(r->Ok_0.1, escape, lib.escaping), lib.escaping),
    decreases depth, ts@.len() - pos, 2nat,
{
    let (marker, p) = parse_marker(ts, pos);
    if p < ts.len() {
        assert(toks_view(ts@)[p as int] == ts@[p as int]@);
    }
    let p = expect_punct(ts, p, '{')?;
    let (nodes, q) = parse_children(lib, ts, p, block_escape(marker, escape) && lib.escaping, true, depth)?;
    Ok((nodes, marker, q))
}

/// Whether the token is a string literal.
fn is_str(t: &Token) -> (r: bool)
    ensures
        r == (t@.0 is Str),
{
    match &t.tok {
        Tok::Str(_) => true,
        _ => false,
    }
}

/// The position after `pos`.
fn after(ts: &Vec<Token>, pos: usize) -> (r: usize)
    requires
        pos < ts@.len(),
    ensures
        r == pos + 1,
{
    let n = ts.len();
    if pos < n {
        pos + 1
    } else {
        n
    }
}

/// Whether a `!` follows at `pos`, and the position after it.
fn parse_bang(ts: &Vec<Token>, pos: usize) -> (r: (bool, usize))
    requires
        pos <= ts@.len(),
    ensures
        pos <= r.1 <= ts@.len(),
        (r.0, r.1 as int) == bang_at(toks_view(ts@), pos as int),
{
    proof {
        if pos < ts@.len() {
            assert(toks_view(ts@)[pos as int] == ts@[pos as int]@);
        }
    }
    if punct_at(ts, pos, '!') {
        (true, pos + 1)
    } else {
        (false, pos)
    }
}

#[verifier::rlimit(100)]
#[verifier::spinoff_prover]
/// Reads one node at `pos` and appends it to `nodes`: exactly the node that the
/// grammar gives there (`node_at`), and an error where it gives none.
fn parse_node(
    lib: &Templates,
    ts: &Vec<Token>,
    pos: usize,
    escape: bool,
    depth: usize,
    nodes: &mut Vec<Node>,
) -> (r: Result<usize, Error>)
    requires
        pos < ts@.len(),
        escape_ok(old(nodes)@, escape, lib.escaping),
    ensures
        r is Ok <==> node_at(*lib, toks_view(ts@), pos as int, escape, depth as nat) is Some,
        r is Ok ==> final(nodes)@.len() == old(nodes)@.len() + 1
            && final(nodes)@.drop_last() == old(nodes)@
            && nodes_v(final(nodes)@) == nodes_v(old(nodes)@).push(node_v(final(nodes)@.last()))
            && node_at(*lib, toks_view(ts@), pos as int, escape, depth as nat) == Some(
            (node_v(final(nodes)@.last()), r->Ok_0 as int),
        ),
        r is Ok ==> pos < r->Ok_0 <= ts@.len(),
        r is Ok ==> escape_ok(final(nodes)@, escape, lib.escaping),
        ts@[pos as int]@.0 == TokV::Ident(seq!['b', 'l', 'o', 'c', 'k']) ==> r is Err
            && r->Err_0.kind == ErrorKind::BlockOutsideLayout,
        ts@[pos as int]@.0 == TokV::Ident(seq!['e', 'x', 't', 'e', 'n', 'd']) ==> r is Err
            && r->Err_0.kind == ErrorKind::MisplacedExtend,
    decreases depth, ts@.len() - pos, 3nat,
{
    let ghost tv = toks_view(ts@);
    proof {
        reveal_strlit("block");
        reveal_strlit("extend");
        reveal_strlit("if");
        reveal_strlit("for");
        reveal_strlit("match");
        reveal_strlit("call");
        reveal_strlit("script");
        reveal_strlit("style");
        reveal_strlit("script_use");
        reveal_strlit("i");
        assert("i"@ =~= seq!['i']);
        assert("block"@ =~= seq!['b', 'l', 'o', 'c', 'k']);
        assert("extend"@ =~= seq!['e', 'x', 't', 'e', 'n', 'd']);
        assert("if"@ =~= seq!['i', 'f']);
        assert("for"@ =~= seq!['f', 'o', 'r']);
        assert("match"@ =~= seq!['m', 'a', 't', 'c', 'h']);
        assert("call"@ =~= seq!['c', 'a', 'l', 'l']);
        assert("script"@ =~= seq!['s', 'c', 'r', 'i', 'p', 't']);
        assert("style"@ =~= seq!['s', 't', 'y', 'l', 'e']);
        assert("script_use"@ =~= seq!['s', 'c', 'r', 'i', 'p', 't', '_', 'u', 's', 'e']);
        assert(tv[pos as int] == ts@[pos as int]@);
    }
    match &ts[pos].tok {
        Tok::Str(s) => {
            let (raw, p) = parse_bang(ts, after(ts, pos));
            push_node(
                nodes,
                Node::Text { content: s.clone(), escape: escape && !raw, raw },
                Ghost(escape),
                Ghost(lib.escaping),
            );
            return Ok(p);
        },
        Tok::Punct(c) => {
            if *c == '@' {
                let (path, p) = parse_path(ts, after(ts, pos))?;
                let (raw, p) = parse_bang(ts, p);
                push_node(
                    nodes,
                    Node::Expr { path, escape: escape && !raw, raw },
                    Ghost(escape),
                    Ghost(lib.escaping),
                );
                return Ok(p);
            }
            return Err(error_at(ts, pos, ErrorKind::UnexpectedToken));
        },
        Tok::Ident(_) => {},
    }
    if ts[pos].is_word("if") {
        parse_if(lib, ts, pos, escape, depth, nodes)
    } else if ts[pos].is_word("for") {
        parse_for(lib, ts, pos, escape, depth, nodes)
    } else if ts[pos].is_word("match") {
        parse_match(lib, ts, pos, escape, depth, nodes)
    } else if ts[pos].is_word("call") {
        parse_call(lib, ts, pos, escape, depth, nodes)
    } else if ts[pos].is_word("script") {
        parse_raw_text(lib, ts, pos, true, nodes, Ghost(escape))
    } else if ts[pos].is_word("style") {
        parse_raw_text(lib, ts, pos, false, nodes, Ghost(escape))
    } else if ts[pos].is_word("script_use") {
        let (name, p) = expect_ident(ts, after(ts, pos))?;
        if p < ts.len() {
            assert(tv[p as int] == ts@[p as int]@);
        }
        let p = expect_punct(ts, p, ';')?;
        push_node(nodes, Node::ScriptUse { name }, Ghost(escape), Ghost(lib.escaping));
        Ok(p)
    } else if ts[pos].is_word("block") {
        Err(error_at(ts, pos, ErrorKind::BlockOutsideLayout))
    } else if ts[pos].is_word("extend") {
        Err(error_at(ts, pos, ErrorKind::MisplacedExtend))
    } else if ts[pos].is_word("i") && ts.len() - pos > 1 && is_str(&ts[pos + 1]) {
        proof {
            assert(tv[pos + 1] == ts@[pos + 1]@);
        }
        let path = match &ts[pos + 1].tok {
            Tok::Str(s) => s.clone(),
            _ => String::new(),
        };
        match lib.find_include(&path) {
            Some(t) => {
                let (raw, p) = parse_bang(ts, pos + 2);
                push_node(
                    nodes,
                    Node::Text { content: t, escape: escape && !raw, raw },
                    Ghost(escape),
                    Ghost(lib.escaping),
                );
                Ok(p)
            },
            None => Err(error_at(ts, pos + 1, ErrorKind::UnknownInclude)),
        }
    } else {
        parse_element(lib, ts, pos, escape, depth, nodes)
    }
}

/// `if cond; block (else if cond; block)* (else block)?`
#[verifier::rlimit(100)]
#[verifier::spinoff_prover]
fn parse_if(
    lib: &Templates,
    ts: &Vec<Token>,
    pos: usize,
    escape: bool,
    depth: usize,
    nodes: &mut Vec<Node>,
) -> (r: Result<usize, Error>)
    requires
        pos < ts@.len(),
        escape_ok(old(nodes)@, escape, lib.escaping),
    ensures
        r is Ok <==> if_at(*lib, toks_view(ts@), pos as int, escape, depth as nat) is Some,
        r is Ok ==> final(nodes)@ == old(nodes)@.push(final(nodes)@.last())
            && nodes_v(final(nodes)@) == nodes_v(old(nodes)@).push(node_v(final(nodes)@.last()))
            && if_at(*lib, toks_view(ts@), pos as int, escape, depth as nat) == Some(
            (node_v(final(nodes)@.last()), r->Ok_0 as int),
        ),
        r is Ok ==> pos < r->Ok_0 <= ts@.len(),
        r is Ok ==> escape_ok(final(nodes)@, escape, lib.escaping),
    decreases depth, ts@.len() - pos, 2nat,
{
    let ghost tv = toks_view(ts@);
    let (cond, p) = parse_cond(ts, after(ts, pos))?;
    if p < ts.len() {
        assert(tv[p as int] == ts@[p as int]@);
    }
    let p = expect_punct(ts, p, ';')?;
    let (body, marker, p) = parse_block(lib, ts, p, escape, depth)?;
    let mut branches: Vec<Branch> = Vec::new();
    let ghost first = body@;
    let b = Branch { cond, body, marker };
    let ghost bv = BranchV { cond: cond_view(b.cond), body: nodes_v(b.body@), marker: b.marker };
    branches.push(b);
    assert(branches@.drop_last() =~= Seq::<Branch>::empty());
    assert(branches@.last().body@ == first && branches@.last().marker == marker);
    assert(branches_escape_ok(branches@.drop_last(), escape, lib.escaping));
    assert(branches_escape_ok(branches@, escape, lib.escaping));
    assert(branches_v(branches@.drop_last()) =~= Seq::<BranchV>::empty());
    assert(branches_v(branches@) =~= seq![bv]);
    let mut p = p;
    while word_at(ts, p, "else")
        invariant
            pos < p <= ts@.len(),
            tv == toks_view(ts@),
            branches_escape_ok(branches@, escape, lib.escaping),
            escape_ok(old(nodes)@, escape, lib.escaping),
            *nodes == *old(nodes),
            if_at(*lib, tv, pos as int, escape, depth as nat) == else_rest(
                *lib,
                tv,
                p as int,
                escape,
                depth as nat,
                branches_v(branches@),
            ),
        decreases ts@.len() - p,
    {
        proof {
            reveal_strlit("else");
            reveal_strlit("if");
            assert("if"@ =~= seq!['i', 'f']);
            assert("else"@ =~= seq!['e', 'l', 's', 'e']);
            assert(tv[p as int] == ts@[p as int]@);
            if p + 1 < tv.len() {
                assert(tv[p + 1] == ts@[p + 1]@);
            }
        }
        if word_at(ts, p + 1, "if") {
            let (cond, q) = parse_cond(ts, p + 2)?;
            if q < ts.len() {
                assert(tv[q as int] == ts@[q as int]@);
            }
            let q = expect_punct(ts, q, ';')?;
            let (body, marker, q) = parse_block(lib, ts, q, escape, depth)?;
            let ghost before = branches@;
            let b = Branch { cond, body, marker };
            let ghost bv = BranchV { cond: cond_view(b.cond), body: nodes_v(b.body@), marker: b.marker };
            branches.push(b);
            assert(branches@.drop_last() =~= before);
            assert(branches_v(branches@) == branches_v(before).push(bv));
            p = q;
        } else {
            let (body, marker, q) = parse_block(lib, ts, p + 1, escape, depth)?;
            let n = Node::If { branches, otherwise: body, otherwise_marker: marker };
            push_node(nodes, n, Ghost(escape), Ghost(lib.escaping));
            return Ok(q);
        }
    }
    proof {
        reveal_strlit("else");
        assert("else"@ =~= seq!['e', 'l', 's', 'e']);
        if p < tv.len() {
            assert(tv[p as int] == ts@[p as int]@);
        }
    }
    let otherwise: Vec<Node> = Vec::new();
    assert(nodes_v(otherwise@) =~= Seq::<NodeV>::empty());
    push_node(
        nodes,
        Node::If { branches, otherwise, otherwise_marker: None },
        Ghost(escape),
        Ghost(lib.escaping),
    );
    Ok(p)
}

/// `for var in @path;; block`
fn parse_for(
    lib: &Templates,
    ts: &Vec<Token>,
    pos: usize,
    escape: bool,
    depth: usize,
    nodes: &mut Vec<Node>,
) -> (r: Result<usize, Error>)
    requires
        pos < ts@.len(),
        escape_ok(old(nodes)@, escape, lib.escaping),
    ensures
        r is Ok <==> for_at(*lib, toks_view(ts@), pos as int, escape, depth as nat) is Some,
        r is Ok ==> final(nodes)@ == old(nodes)@.push(final(nodes)@.last())
            && nodes_v(final(nodes)@) == nodes_v(old(nodes)@).push(node_v(final(nodes)@.last()))
            && for_at(*lib, toks_view(ts@), pos as int, escape, depth as nat) == Some(
            (node_v(final(nodes)@.last()), r->Ok_0 as int),
        ),
        r is Ok ==> pos < r->Ok_0 <= ts@.len(),
        r is Ok ==> escape_ok(final(nodes)@, escape, lib.escaping),
    decreases depth, ts@.len() - pos, 2nat,
{
    let ghost tv = toks_view(ts@);
    proof {
        reveal_strlit("in");
        assert("in"@ =~= seq!['i', 'n']);
        if pos + 1 < tv.len() {
            assert(tv[pos + 1] == ts@[pos + 1]@);
        }
        if pos + 2 < tv.len() {
            assert(tv[pos + 2] == ts@[pos + 2]@);
        }
        if pos + 3 < tv.len() {
            assert(tv[pos + 3] == ts@[pos + 3]@);
        }
    }
    let (var, p) = expect_ident(ts, after(ts, pos))?;
    if !word_at(ts, p, "in") {
        return Err(error_at(ts, p, ErrorKind::UnexpectedToken));
    }
    let p = expect_punct(ts, p + 1, '@')?;
    let (source, p) = parse_path(ts, p)?;
    if p < ts.len() {
        assert(tv[p as int] == ts@[p as int]@);
    }
    let p = expect_punct(ts, p, ';')?;
    let (body, marker, p) = parse_block(lib, ts, p, escape, depth)?;
    push_node(nodes, Node::For { var, source, body, marker }, Ghost(escape), Ghost(lib.escaping));
    Ok(p)
}

/// `match operand; marker? { pattern (if cond)? => block ,? ... }`
#[verifier::rlimit(100)]
#[verifier::spinoff_prover]
fn parse_match(
    lib: &Templates,
    ts: &Vec<Token>,
    pos: usize,
    escape: bool,
    depth: usize,
    nodes: &mut Vec<Node>,
) -> (r: Result<usize, Error>)
    requires
        pos < ts@.len(),
        escape_ok(old(nodes)@, escape, lib.escaping),
    ensures
        r is Ok <==> match_at(*lib, toks_view(ts@), pos as int, escape, depth as nat) is Some,
        r is Ok ==> final(nodes)@ == old(nodes)@.push(final(nodes)@.last())
            && nodes_v(final(nodes)@) == nodes_v(old(nodes)@).push(node_v(final(nodes)@.last()))
            && match_at(*lib, toks_view(ts@), pos as int, escape, depth as nat) == Some(
            (node_v(final(nodes)@.last()), r->Ok_0 as int),
        ),
        r is Ok ==> pos < r->Ok_0 <= ts@.len(),
        r is Ok ==> escape_ok(final(nodes)@, escape, lib.escaping),
    decreases depth, ts@.len() - pos, 2nat,
{
    let ghost tv = toks_view(ts@);
    let (subject, p) = parse_operand(ts, after(ts, pos))?;
    if p < ts.len() {
        assert(tv[p as int] == ts@[p as int]@);
    }
    let p = expect_punct(ts, p, ';')?;
    let (marker, p) = parse_marker(ts, p);
    let esc = block_escape(marker, escape) && lib.escaping;
    if p < ts.len() {
        assert(tv[p as int] == ts@[p as int]@);
    }
    let ghost start = p + 1;
    let mut p = expect_punct(ts, p, '{')?;
    let mut arms: Vec<Arm> = Vec::new();
    assert(match_at(*lib, tv, pos as int, escape, depth as nat) == (match arms_rest(
        *lib,
        tv,
        start,
        esc,
        depth as nat,
        Seq::empty(),
    ) {
        Some((a, r)) => Some((NodeV::Match { subject: operand_view(subject), arms: a, marker }, r)),
        None => None,
    }));
    assert(arms_v(arms@) =~= Seq::<ArmV>::empty());
    while !punct_at(ts, p, '}')
        invariant
            pos < p <= ts@.len(),
            tv == toks_view(ts@),
            esc == inner_esc(marker, escape, lib.escaping),
            arms_escape_ok(arms@, esc, lib.escaping),
            arms_rest(*lib, tv, start, esc, depth as nat, Seq::empty()) == arms_rest(
                *lib,
                tv,
                p as int,
                esc,
                depth as nat,
                arms_v(arms@),
            ),
            match_at(*lib, tv, pos as int, escape, depth as nat) == (match arms_rest(
                *lib,
                tv,
                start,
                esc,
                depth as nat,
                Seq::empty(),
            ) {
                Some((a, r)) => Some(
                    (NodeV::Match { subject: operand_view(subject), arms: a, marker }, r),
                ),
                None => None,
            }),
        decreases ts@.len() - p,
    {
        if p >= ts.len() {
            return Err(error_at(ts, p, ErrorKind::UnexpectedEnd));
        }
        proof {
            reveal_strlit("_");
            reveal_strlit("if");
            assert("_"@ =~= seq!['_']);
            assert("if"@ =~= seq!['i', 'f']);
            assert(tv[p as int] == ts@[p as int]@);
            if p + 1 < tv.len() {
                assert(tv[p + 1] == ts@[p + 1]@);
            }
        }
        let pattern = match &ts[p].tok {
            Tok::Str(s) => Some(s.clone()),
            _ => {
                if !ts[p].is_word("_") {
                    return Err(error_at(ts, p, ErrorKind::UnexpectedToken));
                }
                None
            },
        };
        let mut q = p + 1;
        let mut guard: Option<Cond> = None;
        if word_at(ts, q, "if") {
            let (g, q2) = parse_cond(ts, q + 1)?;
            guard = Some(g);
            q = q2;
        }
        proof {
            if q < tv.len() {
                assert(tv[q as int] == ts@[q as int]@);
            }
            if q + 1 < tv.len() {
                assert(tv[q + 1] == ts@[q + 1]@);
            }
        }
        let q = expect_punct(ts, q, '=')?;
        let q = expect_punct(ts, q, '>')?;
        let (body, arm_marker, r) = parse_block(lib, ts, q, esc, depth)?;
        if r < ts.len() {
            assert(tv[r as int] == ts@[r as int]@);
        }
        let ghost before = arms@;
        let a = Arm { pattern, guard, body, marker: arm_marker };
        arms.push(a);
        assert(arms@.drop_last() =~= before);
        p = if punct_at(ts, r, ',') {
            r + 1
        } else {
            r
        };
    }
    push_node(nodes, Node::Match { subject, arms, marker }, Ghost(escape), Ghost(lib.escaping));
    Ok(p + 1)
}

/// `script (name)? attrs { content }` or `style attrs { content }`; the
/// content is empty, one string literal, or `@path;`.
fn parse_raw_text(
    lib: &Templates,
    ts: &Vec<Token>,
    pos: usize,
    js: bool,
    nodes: &mut Vec<Node>,
    Ghost(escape): Ghost<bool>,
) -> (r: Result<usize, Error>)
    requires
        pos < ts@.len(),
        escape_ok(old(nodes)@, escape, lib.escaping),
    ensures
        r is Ok <==> raw_at(*lib, toks_view(ts@), pos as int, js) is Some,
        r is Ok ==> final(nodes)@ == old(nodes)@.push(final(nodes)@.last())
            && nodes_v(final(nodes)@) == nodes_v(old(nodes)@).push(node_v(final(nodes)@.last()))
            && raw_at(*lib, toks_view(ts@), pos as int, js) == Some(
            (node_v(final(nodes)@.last()), r->Ok_0 as int),
        ),
        r is Ok ==> pos < r->Ok_0 <= ts@.len(),
        r is Ok ==> escape_ok(final(nodes)@, escape, lib.escaping),
        ({
            let tv = toks_view(ts@);
            let hoisted = js && pos + 1 < tv.len() && tv[pos + 1].0 == TokV::Punct('(');
            let a = if hoisted { pos + 4 } else { pos + 1 };
            (!hoisted || (pos + 3 < tv.len() && tv[pos + 2].0 is Ident && tv[pos + 3].0 == TokV::Punct(')')))
                && (attrs_from(tv, a, Seq::empty(), None, false) matches Some((_, esc, _, _)) && esc is Some)
                ==> r is Err && r->Err_0.kind == ErrorKind::EscapeOnRawText && r->Err_0.at == ts@[pos as int].start
        }),
{
    let ghost tv = toks_view(ts@);
    let mut p = after(ts, pos);
    let mut hoist: Option<String> = None;
    proof {
        if p < tv.len() {
            assert(tv[p as int] == ts@[p as int]@);
        }
        if p + 1 < tv.len() {
            assert(tv[p + 1] == ts@[p + 1]@);
        }
        if p + 2 < tv.len() {
            assert(tv[p + 2] == ts@[p + 2]@);
        }
    }
    if js && punct_at(ts, p, '(') {
        let (name, q) = expect_ident(ts, p + 1)?;
        let q = expect_punct(ts, q, ')')?;
        hoist = Some(name);
        p = q;
    }
    let (attrs, p) = Attributes::parse(ts, p)?;
    if attrs.escape.is_some() {
        return Err(Error { kind: ErrorKind::EscapeOnRawText, at: ts[pos].start, name: None });
    }
    assert(tv[p as int] == ts@[p as int]@);
    let p = expect_punct(ts, p, '{')?;
    if p < ts.len() {
        assert(tv[p as int] == ts@[p as int]@);
    }
    let (content, p) = if punct_at(ts, p, '}') {
        (Content::Empty, p)
    } else if p < ts.len() {
        match &ts[p].tok {
            Tok::Str(s) => {
                let q = after(ts, p);
                if q < ts.len() {
                    assert(tv[q as int] == ts@[q as int]@);
                }
                let (_, q) = parse_bang(ts, q);
                (Content::Static(s.clone()), q)
            },
            _ => {
                let q = expect_punct(ts, p, '@')?;
                let (path, q) = parse_path(ts, q)?;
                (Content::Dynamic(path), q)
            },
        }
    } else {
        return Err(error_at(ts, p, ErrorKind::UnexpectedEnd));
    };
    if p < ts.len() {
        assert(tv[p as int] == ts@[p as int]@);
    }
    let p = expect_punct(ts, p, '}')?;
    let minify = !attrs.nominify && lib.minifying;
    if js {
        push_node(
            nodes,
            Node::Script { attrs: attrs.list, content, minify, hoist },
            Ghost(escape),
            Ghost(lib.escaping),
        );
    } else {
        push_node(
            nodes,
            Node::Style { attrs: attrs.list, content, minify },
            Ghost(escape),
            Ghost(lib.escaping),
        );
    }
    Ok(p)
}

/// `tag attrs ;` (self-closing) or `tag attrs { children }`. `nominify` among
/// the attributes is an error at the tag.
fn parse_element(
    lib: &Templates,
    ts: &Vec<Token>,
    pos: usize,
    escape: bool,
    depth: usize,
    nodes: &mut Vec<Node>,
) -> (r: Result<usize, Error>)
    requires
        pos < ts@.len(),
        escape_ok(old(nodes)@, escape, lib.escaping),
    ensures
        r is Ok <==> element_at(*lib, toks_view(ts@), pos as int, escape, depth as nat) is Some,
        r is Ok ==> final(nodes)@ == old(nodes)@.push(final(nodes)@.last())
            && nodes_v(final(nodes)@) == nodes_v(old(nodes)@).push(node_v(final(nodes)@.last()))
            && element_at(*lib, toks_view(ts@), pos as int, escape, depth as nat) == Some(
            (node_v(final(nodes)@.last()), r->Ok_0 as int),
        ),
        r is Ok ==> pos < r->Ok_0 <= ts@.len(),
        r is Ok ==> escape_ok(final(nodes)@, escape, lib.escaping),
        ts@[pos as int]@.0 is Ident && (attrs_from(toks_view(ts@), pos + 1, Seq::empty(), None, false) matches Some(
            (_, _, nominify, _),
        ) && nominify) ==> r is Err && r->Err_0.kind == ErrorKind::NoMinifyOutsideRawText
            && r->Err_0.at == ts@[pos as int].start,
    decreases depth, ts@.len() - pos, 2nat,
{
    let ghost tv = toks_view(ts@);
    assert(tv[pos as int] == ts@[pos as int]@);
    let (tag, p) = expect_ident(ts, pos)?;
    let (attrs, p) = Attributes::parse(ts, p)?;
    if attrs.nominify {
        return Err(Error { kind: ErrorKind::NoMinifyOutsideRawText, at: ts[pos].start, name: None });
    }
    let marker = attrs.escape;
    assert(tv[p as int] == ts@[p as int]@);
    if punct_at(ts, p, ';') {
        push_node(
            nodes,
            Node::Element { tag, attrs: attrs.list, body: None, marker },
            Ghost(escape),
            Ghost(lib.escaping),
        );
        return Ok(p + 1);
    }
    let p = expect_punct(ts, p, '{')?;
    let (body, p) = parse_children(
        lib,
        ts,
        p,
        block_escape(marker, escape) && lib.escaping,
        true,
        depth,
    )?;
    push_node(
        nodes,
        Node::Element { tag, attrs: attrs.list, body: Some(body), marker },
        Ghost(escape),
        Ghost(lib.escaping),
    );
    Ok(p)
}

/// `call name { prop { ... }, ... } !?`: a call node holding the expansion.
fn parse_call(
    lib: &Templates,
    ts: &Vec<Token>,
    pos: usize,
    escape: bool,
    depth: usize,
    nodes: &mut Vec<Node>,
) -> (r: Result<usize, Error>)
    requires
        pos < ts@.len(),
        escape_ok(old(nodes)@, escape, lib.escaping),
    ensures
        r is Ok <==> call_at(*lib, toks_view(ts@), pos as int, escape, depth as nat) is Some,
        r is Ok ==> final(nodes)@ == old(nodes)@.push(final(nodes)@.last())
            && nodes_v(final(nodes)@) == nodes_v(old(nodes)@).push(node_v(final(nodes)@.last()))
            && call_at(*lib, toks_view(ts@), pos as int, escape, depth as nat) == Some(
            (node_v(final(nodes)@.last()), r->Ok_0 as int),
        ),
        r is Ok ==> pos < r->Ok_0 <= ts@.len(),
        r is Ok ==> escape_ok(final(nodes)@, escape, lib.escaping),
    decreases depth, ts@.len() - pos, 2nat,
{
    let ghost tv = toks_view(ts@);
    proof {
        if pos + 1 < tv.len() {
            assert(tv[pos + 1] == ts@[pos + 1]@);
        }
        if pos + 2 < tv.len() {
            assert(tv[pos + 2] == ts@[pos + 2]@);
        }
    }
    let (name, p) = expect_ident(ts, after(ts, pos))?;
    let mut p = expect_punct(ts, p, '{')?;
    let ghost start = p as int;
    let mut fills: Vec<Fill> = Vec::new();
    assert(fills_view(fills@) =~= Seq::<(Seq<char>, Seq<(TokV, usize)>)>::empty());
    while !punct_at(ts, p, '}')
        invariant
            pos < p <= ts@.len(),
            tv == toks_view(ts@),
            fills_rest(tv, start, Seq::empty()) == fills_rest(tv, p as int, fills_view(fills@)),
            0 <= pos < tv.len(),
            start == pos + 3,
            call_at(*lib, tv, pos as int, escape, depth as nat) == (match fills_rest(
                tv,
                start,
                Seq::empty(),
            ) {
                Some((fs, q)) => {
                    let (raw, r) = bang_at(tv, q + 1);
                    match expand_at(*lib, tv[pos + 1].0->Ident_0, fs, escape && !raw, depth as nat) {
                        Some(body) => Some(
                            (NodeV::Call { name: tv[pos + 1].0->Ident_0, body, raw }, r),
                        ),
                        None => None,
                    }
                },
                None => None,
            }),
        decreases ts@.len() - p,
    {
        if p < ts.len() {
            assert(tv[p as int] == ts@[p as int]@);
        }
        let (prop, q) = expect_ident(ts, p)?;
        let (toks, q) = balanced(ts, q)?;
        if q < ts.len() {
            assert(tv[q as int] == ts@[q as int]@);
        }
        let ghost before = fills@;
        let f = Fill { name: prop, toks };
        fills.push(f);
        assert(fills_view(fills@) =~= fills_view(before).push((f.name@, toks_view(f.toks@))));
        p = if punct_at(ts, q, ',') {
            q + 1
        } else {
            q
        };
    }
    let (raw, p) = parse_bang(ts, p + 1);
    let body = expand_call(lib, &name, &fills, escape && !raw, ts[pos].start, depth)?;
    push_node(nodes, Node::Call { name, body, raw }, Ghost(escape), Ghost(lib.escaping));
    Ok(p)
}

/// The nodes of a call of `name` with the given props: exactly what the grammar
/// gives (`expand_at`), its body parsed in the escape setting of the call.
#[verifier::loop_isolation(false)]
pub fn expand_call(
    lib: &Templates,
    name: &String,
    fills: &Vec<Fill>,
    escape: bool,
    at: usize,
    depth: usize,
) -> (r: Result<Vec<Node>, Error>)
    ensures
        r is Ok <==> expand_at(*lib, name@, fills_view(fills@), escape, depth as nat) is Some,
        r is Ok ==> expand_at(*lib, name@, fills_view(fills@), escape, depth as nat) == Some(
            nodes_v(r->Ok_0@),
        ),
        depth == 0 ==> r is Err && r->Err_0.kind == ErrorKind::NestingTooDeep,
        depth > 0 && (forall|k: int|
            0 <= k < lib.components@.len() ==> lib.components@[k].name@ != name@) ==> r is Err
            && r->Err_0.kind == ErrorKind::UnknownComponent,
        r is Ok ==> escape_ok(r->Ok_0@, escape, lib.escaping),
        ({
            let cs = lib.components@;
            let k = find_index(cs, name@);
            depth > 0 && 0 <= k < cs.len() && fills@.len() == 0 && (cs[k].kind matches ComponentKind::Extends(l)
                && 0 <= find_index(cs, l@) < cs.len() && cs[find_index(cs, l@)].kind is Layout
                && exists|i: int|
                0 <= i < cs[k].blocks@.len() && !names_view(cs[find_index(cs, l@)].props@).contains(
                    #[trigger] cs[k].blocks@[i].name@,
                )) ==> r is Err && r->Err_0.kind == ErrorKind::UnknownSlot
        }),
    decreases depth, 0nat, 0nat,
{
    let ghost fv = fills_view(fills@);
    if depth == 0 {
        return Err(Error { kind: ErrorKind::NestingTooDeep, at, name: None });
    }
    let k = match lib.find(name) {
        Some(k) => k,
        None => {
            return Err(Error { kind: ErrorKind::UnknownComponent, at, name: None });
        },
    };
    let c = &lib.components[k];
    let toks = match &c.kind {
        ComponentKind::Plain => {
            check_props(&c.props, fills, at)?;
            splice(&c.body, true, fills)
        },
        ComponentKind::Layout => {
            if fills.len() > 0 {
                return Err(Error { kind: ErrorKind::UnknownProp, at, name: None });
            }
            let slots = empty_fills(&c.props);
            splice(&c.body, false, &slots)
        },
        ComponentKind::Extends(layout) => {
            if fills.len() > 0 {
                return Err(Error { kind: ErrorKind::UnknownProp, at, name: None });
            }
            let j = match lib.find(layout) {
                Some(j) => j,
                None => {
                    return Err(Error { kind: ErrorKind::UnknownComponent, at, name: None });
                },
            };
            let l = &lib.components[j];
            match &l.kind {
                ComponentKind::Layout => {},
                _ => {
                    return Err(Error { kind: ErrorKind::UnknownComponent, at, name: None });
                },
            }
            let mut slots = copy_fills(&c.blocks);
            assert(slots@.len() == fills_view(slots@).len());
            assert(c.blocks@.len() == fills_view(c.blocks@).len());
            let mut i: usize = 0;
            while i < slots.len()
                invariant
                    depth > 0,
                    k < lib.components@.len(),
                    lib.components@[k as int].name@ == name@,
                    fills_view(slots@) == fills_view(c.blocks@),
                    slots@.len() == c.blocks@.len(),
                    forall|m: int|
                        0 <= m < i ==> names_view(l.props@).contains(
                            #[trigger] c.blocks@[m].name@,
                        ),
                decreases slots@.len() - i,
            {
                assert(fills_view(slots@)[i as int].0 == slots@[i as int].name@);
                assert(fills_view(c.blocks@)[i as int].0 == c.blocks@[i as int].name@);
                proof {
                    lemma_names_contains(l.props@, slots@[i as int].name@);
                }
                if !has_name(&l.props, &slots[i].name) {
                    let nm = slots[i].name.clone();
                    assert(!names_view(l.props@).contains(c.blocks@[i as int].name@));
                    assert(call_tokens(*lib, k as int, fv) is None);
                    return Err(Error { kind: ErrorKind::UnknownSlot, at, name: Some(nm) });
                }
                i = i + 1;
            }
            let mut rest = empty_fills(&l.props);
            let ghost s0 = slots@;
            let ghost r0 = rest@;
            slots.append(&mut rest);
            assert(fills_view(slots@) =~= fills_view(s0) + fills_view(r0));
            splice(&l.body, false, &slots)
        },
    };
    let (out, _) = parse_children(lib, &toks, 0, escape, false, depth - 1)?;
    Ok(out)
}

/// An empty fill for each name.
fn empty_fills(names: &Vec<String>) -> (r: Vec<Fill>)
    ensures
        fills_view(r@) == empty_fills_v(names_view(names@)),
{
    let mut r: Vec<Fill> = Vec::new();
    let mut i: usize = 0;
    while i < names.len()
        invariant
            i <= names@.len(),
            fills_view(r@) == empty_fills_v(names_view(names@.take(i as int))),
        decreases names@.len() - i,
    {
        let ghost before = r@;
        let f = Fill { name: names[i].clone(), toks: Vec::new() };
        r.push(f);
        assert(toks_view(f.toks@) =~= Seq::<(TokV, usize)>::empty());
        assert(fills_view(r@) =~= fills_view(before).push((f.name@, toks_view(f.toks@))));
        assert(names_view(names@.take(i + 1)) =~= names_view(names@.take(i as int)).push(
            names@[i as int]@,
        ));
        assert(fills_view(r@) =~= empty_fills_v(names_view(names@.take(i + 1))));
        i = i + 1;
    }
    assert(names@.take(names@.len() as int) =~= names@);
    r
}

/// Copies of fills.
fn copy_fills(fs: &Vec<Fill>) -> (r: Vec<Fill>)
    ensures
        fills_view(r@) == fills_view(fs@),
{
    let mut r: Vec<Fill> = Vec::new();
    let mut i: usize = 0;
    while i < fs.len()
        invariant
            i <= fs@.len(),
            fills_view(r@) == fills_view(fs@.take(i as int)),
        decreases fs@.len() - i,
    {
        let mut toks: Vec<Token> = Vec::new();
        crate::splice::copy_tokens(&mut toks, &fs[i].toks);
        let ghost before = r@;
        let f = Fill { name: fs[i].name.clone(), toks };
        r.push(f);
        assert(fills_view(r@) =~= fills_view(before).push((f.name@, crate::lexer::toks_view(f.toks@))));
        assert(fills_view(fs@.take(i + 1)) =~= fills_view(fs@.take(i as int)).push(
            (fs@[i as int].name@, crate::lexer::toks_view(fs@[i as int].toks@)),
        ));
        i = i + 1;
    }
    assert(fs@.take(fs@.len() as int) =~= fs@);
    r
}

} // verus!
