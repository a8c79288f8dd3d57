//! Component, layout and extending-template definitions, and the set of them
//! that templates are compiled against.

use vstd::prelude::*;
use crate::error::{Error, ErrorKind};
use indexmap::IndexSet;
use crate::outside::{index_set_insert, index_set_item, index_set_len, index_set_new, set_items};
use crate::lexer::{Tok, TokV, Token, lex, tokenize, toks_view};
use crate::splice::{Fill, fill_index, fills_view, find_fill};
use crate::grammar::{
    DefV, dup_props, balanced_at, balanced_rest, blocks_rest, block_word_v, def_at, def_view, find_index,
    slots_from,
};

verus! {

/// What a definition is.
pub enum ComponentKind {
    /// A component with props.
    Plain,
    /// A layout with named slots.
    Layout,
    /// A template that fills the slots of the named layout.
    Extends(String),
}

/// A definition: a name, its props (for a layout: its slots, in order of
/// first use), and its body as tokens; an extending template holds its blocks.
pub struct Component {
    pub name: String,
    pub props: Vec<String>,
    pub kind: ComponentKind,
    pub body: Vec<Token>,
    pub blocks: Vec<Fill>,
}

/// The text of a file that templates include with `i "path"`, as the
/// application read it.
pub struct Include {
    pub path: String,
    pub text: String,
}

/// The text included under `path`: the first include with that path.
pub open spec fn include_of(incs: Seq<Include>, path: Seq<char>) -> Option<Seq<char>>
    decreases incs.len(),
{
    if incs.len() == 0 {
        None
    } else if incs[0].path@ == path {
        Some(incs[0].text@)
    } else {
        include_of(incs.drop_first(), path)
    }
}

/// The definitions that calls are resolved against, the included texts, and whether escaping and
/// minification are available: where one is not, it is skipped and nothing
/// else changes.
pub struct Templates {
    pub components: Vec<Component>,
    pub includes: Vec<Include>,
    pub escaping: bool,
    pub minifying: bool,
}

/// The error for position `pos`: at the token there, or at the last token when
/// the input has ended.
pub fn error_at(ts: &Vec<Token>, pos: usize, kind: ErrorKind) -> (e: Error)
    ensures
        e.kind == kind,
{
    if pos < ts.len() {
        Error { kind, at: ts[pos].start, name: None }
    } else if ts.len() > 0 {
        Error { kind: kind, at: ts[ts.len() - 1].start, name: None }
    } else {
        Error { kind, at: 0, name: None }
    }
}

/// Whether the token at `pos` is the punctuation mark `c`.
pub fn punct_at(ts: &Vec<Token>, pos: usize, c: char) -> (r: bool)
    ensures
        r == (pos < ts@.len() && ts@[pos as int]@.0 == TokV::Punct(c)),
        ts@.len() <= usize::MAX,
{
    pos < ts.len() && ts[pos].is_punct(c)
}

pub open spec fn layout_word() -> Seq<char> {
    seq!['l', 'a', 'y', 'o', 'u', 't']
}

/// The token at `pos` is the bare word `w`.
pub open spec fn word_at_spec(ts: Seq<Token>, pos: int, w: Seq<char>) -> bool {
    0 <= pos < ts.len() && ts[pos]@.0 == TokV::Ident(w)
}

/// Whether the token at `pos` is the bare word `w`.
pub fn word_at(ts: &Vec<Token>, pos: usize, w: &str) -> (r: bool)
    ensures
        r == (pos < ts@.len() && ts@[pos as int]@.0 == TokV::Ident(w@)),
        ts@.len() <= usize::MAX,
{
    pos < ts.len() && ts[pos].is_word(w)
}

/// Consumes the punctuation mark `c`.
pub fn expect_punct(ts: &Vec<Token>, pos: usize, c: char) -> (r: Result<usize, Error>)
    ensures
        r is Ok <==> (pos < ts@.len() && ts@[pos as int]@.0 == TokV::Punct(c)),
        r is Ok ==> r->Ok_0 == pos + 1,
        r is Err ==> r->Err_0.kind == ErrorKind::UnexpectedToken || r->Err_0.kind
            == ErrorKind::UnexpectedEnd,
{
    if pos < ts.len() && ts[pos].is_punct(c) {
        Ok(pos + 1)
    } else if pos < ts.len() {
        Err(error_at(ts, pos, ErrorKind::UnexpectedToken))
    } else {
        Err(error_at(ts, pos, ErrorKind::UnexpectedEnd))
    }
}

/// Consumes a bare word and returns it.
pub fn expect_ident(ts: &Vec<Token>, pos: usize) -> (r: Result<(String, usize), Error>)
    ensures
        r is Ok <==> (pos < ts@.len() && ts@[pos as int]@.0 is Ident),
        r is Ok ==> r->Ok_0.1 == pos + 1 && TokV::Ident(r->Ok_0.0@) == ts@[pos as int]@.0,
        r is Err ==> r->Err_0.kind == ErrorKind::UnexpectedToken || r->Err_0.kind
            == ErrorKind::UnexpectedEnd,
{
    if pos < ts.len() {
        match &ts[pos].tok {
            Tok::Ident(s) => Ok((s.clone(), pos + 1)),
            _ => Err(error_at(ts, pos, ErrorKind::UnexpectedToken)),
        }
    } else {
        Err(error_at(ts, pos, ErrorKind::UnexpectedEnd))
    }
}

/// Consumes `{ ... }` with balanced braces inside and returns the tokens between
/// the outer braces.
pub fn balanced(ts: &Vec<Token>, pos: usize) -> (r: Result<(Vec<Token>, usize), Error>)
    ensures
        r is Ok <==> balanced_at(toks_view(ts@), pos as int) is Some,
        r is Ok ==> balanced_at(toks_view(ts@), pos as int) == Some(
            (toks_view(r->Ok_0.0@), r->Ok_0.1 as int),
        ),
        r is Ok ==> pos + 2 <= r->Ok_0.1 <= ts@.len() && toks_view(r->Ok_0.0@) == toks_view(
            ts@,
        ).subrange(pos + 1, r->Ok_0.1 - 1),
{
    let ghost tv = toks_view(ts@);
    if pos < ts.len() {
        assert(tv[pos as int] == ts@[pos as int]@);
    }
    let p = expect_punct(ts, pos, '{')?;
    let mut depth: usize = 1;
    let mut i = p;
    let mut inner: Vec<Token> = Vec::new();
    while i < ts.len()
        invariant
            tv == toks_view(ts@),
            balanced_at(tv, pos as int) == balanced_rest(tv, i as int, depth as nat, p as int),
            p == pos + 1,
            p <= i <= ts@.len(),
            depth >= 1,
            depth <= i - pos,
            toks_view(inner@) == toks_view(ts@).subrange(p as int, i as int),
        decreases ts@.len() - i,
    {
        let ghost before = inner@;
        assert(tv[i as int] == ts@[i as int]@);
        if ts[i].is_punct('}') {
            if depth == 1 {
                return Ok((inner, i + 1));
            }
            depth = depth - 1;
        } else if ts[i].is_punct('{') {
            depth = depth + 1;
        }
        let t = ts[i].copy();
        inner.push(t);
        assert(inner@ == before.push(t));
        assert(toks_view(inner@) =~= toks_view(before).push(t@));
        assert(toks_view(inner@) =~= toks_view(ts@).subrange(p as int, i + 1));
        i = i + 1;
    }
    Err(error_at(ts, i, ErrorKind::UnexpectedEnd))
}

/// Whether a list of names holds `n`.
pub fn has_name(names: &Vec<String>, n: &String) -> (r: bool)
    ensures
        r == exists|i: int| 0 <= i < names@.len() && names@[i]@ == n@,
{
    let mut i: usize = 0;
    while i < names.len()
        invariant
            i <= names@.len(),
            forall|j: int| 0 <= j < i ==> names@[j]@ != n@,
        decreases names@.len() - i,
    {
        if names[i] == *n {
            return true;
        }
        i = i + 1;
    }
    false
}

pub proof fn lemma_names_contains(names: Seq<String>, n: Seq<char>)
    ensures
        names_view(names).contains(n) <==> exists|j: int| 0 <= j < names.len() && names[j]@ == n,
{
    if names_view(names).contains(n) {
        let j = choose|j: int| 0 <= j < names_view(names).len() && names_view(names)[j] == n;
        assert(names[j]@ == n);
    }
    if exists|j: int| 0 <= j < names.len() && names[j]@ == n {
        let j = choose|j: int| 0 <= j < names.len() && names[j]@ == n;
        assert(names_view(names)[j] == n);
    }
}

/// The slots that a layout body uses, `block name;`, each once in order of first use.
fn slots_of(body: &Vec<Token>) -> (r: Vec<String>)
    ensures
        names_view(r@) == slots_from(toks_view(body@), 0, Seq::empty()),
{
    let ghost tv = toks_view(body@);
    let mut slots: Vec<String> = Vec::new();
    let mut i: usize = 0;
    assert(names_view(slots@) =~= Seq::<Seq<char>>::empty());
    proof {
        reveal_strlit("block");
        assert("block"@ =~= block_word_v());
    }
    while i < body.len() && body.len() - i > 2
        invariant
            i <= body@.len(),
            tv == toks_view(body@),
            slots_from(tv, 0, Seq::empty()) == slots_from(tv, i as int, names_view(slots@)),
        decreases body@.len() - i,
    {
        proof {
            reveal_strlit("block");
            assert("block"@ =~= block_word_v());
        }
        assert(tv[i as int] == body@[i as int]@);
        assert(tv[i + 1] == body@[i + 1]@);
        assert(tv[i + 2] == body@[i + 2]@);
        if body[i].is_word("block") && body[i + 2].is_punct(';') {
            match &body[i + 1].tok {
                Tok::Ident(s) => {
                    proof {
                        lemma_names_contains(slots@, s@);
                    }
                    if !has_name(&slots, s) {
                        let ghost before = slots@;
                        slots.push(s.clone());
                        assert(names_view(slots@) =~= names_view(before).push(s@));
                    }
                },
                _ => {},
            }
        }
        i = i + 1;
    }
    slots
}

/// Copies the tokens from `pos` on.
fn rest_of(ts: &Vec<Token>, pos: usize) -> (r: Vec<Token>)
    requires
        pos <= ts@.len(),
    ensures
        toks_view(r@) == toks_view(ts@).subrange(pos as int, ts@.len() as int),
{
    let mut out: Vec<Token> = Vec::new();
    let mut i = pos;
    while i < ts.len()
        invariant
            pos <= i <= ts@.len(),
            toks_view(out@) == toks_view(ts@).subrange(pos as int, i as int),
        decreases ts@.len() - i,
    {
        let ghost before = out@;
        let t = ts[i].copy();
        out.push(t);
        assert(toks_view(out@) =~= toks_view(before).push(t@));
        assert(toks_view(out@) =~= toks_view(ts@).subrange(pos as int, i + 1));
        i = i + 1;
    }
    out
}

/// The names of a list of strings.
pub open spec fn names_view(v: Seq<String>) -> Seq<Seq<char>> {
    v.map_values(|s: String| s@)
}

/// The rest of a prop list after the names `acc`: `)`, or (after the first)
/// `,` and `)`, or another name. Gives all the names and the position after `)`.
pub open spec fn props_rest(tv: Seq<(TokV, usize)>, p: int, acc: Seq<Seq<char>>) -> Option<
    (Seq<Seq<char>>, int),
>
    decreases tv.len() - p,
{
    if p < 0 || p >= tv.len() {
        None
    } else if tv[p].0 == TokV::Punct(')') {
        Some((acc, p + 1))
    } else if acc.len() > 0 {
        if tv[p].0 == TokV::Punct(',') && p + 1 < tv.len() {
            if tv[p + 1].0 == TokV::Punct(')') {
                Some((acc, p + 2))
            } else if tv[p + 1].0 is Ident {
                props_rest(tv, p + 2, acc.push(tv[p + 1].0->Ident_0))
            } else {
                None
            }
        } else {
            None
        }
    } else if tv[p].0 is Ident {
        props_rest(tv, p + 1, acc.push(tv[p].0->Ident_0))
    } else {
        None
    }
}

proof fn lemma_props_rest_prefix(tv: Seq<(TokV, usize)>, p: int, acc: Seq<Seq<char>>)
    ensures
        props_rest(tv, p, acc) matches Some((ps, _)) ==> ps.len() >= acc.len() && ps.subrange(
            0,
            acc.len() as int,
        ) == acc,
    decreases tv.len() - p,
{
    if 0 <= p < tv.len() && tv[p].0 != TokV::Punct(')') {
        if acc.len() > 0 {
            if tv[p].0 == TokV::Punct(',') && p + 1 < tv.len() && tv[p + 1].0 is Ident && tv[p
                + 1].0 != TokV::Punct(')') {
                let n = acc.push(tv[p + 1].0->Ident_0);
                lemma_props_rest_prefix(tv, p + 2, n);
                if let Some((ps, _)) = props_rest(tv, p, acc) {
                    assert(ps.subrange(0, acc.len() as int) =~= ps.subrange(0, n.len() as int).subrange(0, acc.len() as int));
                    assert(n.subrange(0, acc.len() as int) =~= acc);
                }
            }
        } else if tv[p].0 is Ident {
            let n = acc.push(tv[p].0->Ident_0);
            lemma_props_rest_prefix(tv, p + 1, n);
            if let Some((ps, _)) = props_rest(tv, p, acc) {
                assert(ps.subrange(0, acc.len() as int) =~= ps.subrange(0, n.len() as int).subrange(0, acc.len() as int));
                assert(n.subrange(0, acc.len() as int) =~= acc);
            }
        }
    }
    if let Some((ps, _)) = props_rest(tv, p, acc) {
        if ps == acc {
            assert(ps.subrange(0, acc.len() as int) =~= acc);
        }
    }
}

/// Reads the props of a component, `(a, b, c)`, up to the closing parenthesis.
/// A name written twice is an error.
fn parse_props(ts: &Vec<Token>, pos: usize) -> (r: Result<(Vec<String>, usize), Error>)
    ensures
        r is Ok ==> r->Ok_0.1 <= ts@.len(),
        r is Ok ==> forall|i: int, j: int|
            0 <= i < j < r->Ok_0.0@.len() ==> r->Ok_0.0@[i]@ != r->Ok_0.0@[j]@,
        r is Ok ==> pos < ts@.len() && ts@[pos as int]@.0 == TokV::Punct('(') && props_rest(
            toks_view(ts@),
            pos + 1,
            Seq::empty(),
        ) == Some((names_view(r->Ok_0.0@), r->Ok_0.1 as int)),
        r is Err && r->Err_0.kind != ErrorKind::DuplicateProp ==> !(pos < ts@.len()
            && ts@[pos as int]@.0 == TokV::Punct('(') && props_rest(
            toks_view(ts@),
            pos + 1,
            Seq::empty(),
        ) is Some),
        r is Err && r->Err_0.kind == ErrorKind::DuplicateProp ==> (props_rest(
            toks_view(ts@),
            pos + 1,
            Seq::empty(),
        ) matches Some((ps, _)) ==> !ps.no_duplicates()),
{
    let ghost tv = toks_view(ts@);
    if pos < ts.len() {
        assert(tv[pos as int] == ts@[pos as int]@);
    }
    let mut p = expect_punct(ts, pos, '(')?;
    let mut seen: IndexSet<String> = index_set_new();
    loop
        invariant
            p <= ts@.len(),
            p == pos + 1 || set_items(seen).len() > 0,
            tv == toks_view(ts@),
            set_items(seen).no_duplicates(),
            pos < ts@.len() && ts@[pos as int]@.0 == TokV::Punct('('),
            props_rest(tv, pos + 1, Seq::empty()) == props_rest(tv, p as int, set_items(seen)),
        decreases ts@.len() - p,
    {
        proof {
            if p < tv.len() {
                assert(tv[p as int] == ts@[p as int]@);
            }
            if p + 1 < tv.len() {
                assert(tv[p + 1] == ts@[p + 1]@);
            }
        }
        if punct_at(ts, p, ')') {
            let props = set_to_vec(&seen);
            proof {
                lemma_distinct_names(props@);
            }
            return Ok((props, p + 1));
        }
        if index_set_len(&seen) > 0 {
            p = expect_punct(ts, p, ',')?;
            if punct_at(ts, p, ')') {
                let props = set_to_vec(&seen);
                proof {
                    lemma_distinct_names(props@);
                }
                return Ok((props, p + 1));
            }
        }
        let at = p;
        let (name, q) = expect_ident(ts, p)?;
        let ghost before = set_items(seen);
        let ghost acc2 = before.push(name@);
        let ghost nv = name@;
        if !index_set_insert(&mut seen, name) {
            proof {
                lemma_props_rest_prefix(tv, q as int, acc2);
                let k = choose|k: int| 0 <= k < before.len() && before[k] == nv;
                if let Some((ps, _)) = props_rest(tv, q as int, acc2) {
                    assert(ps[k] == acc2[k]);
                    assert(ps[before.len() as int] == acc2[before.len() as int]);
                    assert(ps[k] == ps[before.len() as int]);
                }
            }
            return Err(error_at(ts, at, ErrorKind::DuplicateProp));
        }
        assert(set_items(seen) == acc2);
        assert(acc2.no_duplicates()) by {
            assert forall|i: int, j: int| 0 <= i < j < acc2.len() implies acc2[i] != acc2[j] by {
                if j == before.len() {
                    assert(before.contains(before[i]));
                }
            }
        }
        p = q;
    }
}

proof fn lemma_distinct_names(v: Seq<String>)
    requires
        names_view(v).no_duplicates(),
    ensures
        forall|i: int, j: int| 0 <= i < j < v.len() ==> v[i]@ != v[j]@,
{
    assert forall|i: int, j: int| 0 <= i < j < v.len() implies v[i]@ != v[j]@ by {
        assert(names_view(v)[i] == v[i]@ && names_view(v)[j] == v[j]@);
    }
}

/// The items of a set of names, in order.
fn set_to_vec(s: &IndexSet<String>) -> (r: Vec<String>)
    ensures
        names_view(r@) == set_items(*s),
{
    let n = index_set_len(s);
    let mut r: Vec<String> = Vec::new();
    let mut i: usize = 0;
    while i < n
        invariant
            n == set_items(*s).len(),
            i <= n,
            names_view(r@) == set_items(*s).take(i as int),
        decreases n - i,
    {
        let ghost before = r@;
        let x = index_set_item(s, i);
        r.push(x);
        assert(names_view(r@) =~= names_view(before).push(set_items(*s)[i as int]));
        assert(set_items(*s).take(i + 1) =~= set_items(*s).take(i as int).push(set_items(*s)[i as int]));
        i = i + 1;
    }
    assert(set_items(*s).take(n as int) =~= set_items(*s));
    r
}

/// Reads the `extend slot { ... }` blocks of an extending template.
fn parse_blocks(ts: &Vec<Token>, pos: usize) -> (r: Result<Vec<Fill>, Error>)
    requires
        pos <= ts@.len(),
    ensures
        r is Ok <==> blocks_rest(toks_view(ts@), pos as int, Seq::empty()) is Some,
        r is Ok ==> blocks_rest(toks_view(ts@), pos as int, Seq::empty()) == Some(
            fills_view(r->Ok_0@),
        ),
{
    let ghost tv = toks_view(ts@);
    let mut p = pos;
    let mut blocks: Vec<Fill> = Vec::new();
    assert(fills_view(blocks@) =~= Seq::<(Seq<char>, Seq<(TokV, usize)>)>::empty());
    proof {
        reveal_strlit("extend");
        assert("extend"@ =~= seq!['e', 'x', 't', 'e', 'n', 'd']);
    }
    while p < ts.len()
        invariant
            p <= ts@.len(),
            tv == toks_view(ts@),
            blocks_rest(tv, pos as int, Seq::empty()) == blocks_rest(tv, p as int, fills_view(blocks@)),
        decreases ts@.len() - p,
    {
        proof {
            reveal_strlit("extend");
            assert("extend"@ =~= seq!['e', 'x', 't', 'e', 'n', 'd']);
        }
        assert(tv[p as int] == ts@[p as int]@);
        if p + 1 < ts.len() {
            assert(tv[p + 1] == ts@[p + 1]@);
        }
        if !word_at(ts, p, "extend") {
            return Err(error_at(ts, p, ErrorKind::ContentInExtendingTemplate));
        }
        let (name, q) = expect_ident(ts, p + 1)?;
        let (toks, q2) = balanced(ts, q)?;
        let ghost before = blocks@;
        let f = Fill { name, toks };
        blocks.push(f);
        assert(fills_view(blocks@) =~= fills_view(before).push((f.name@, toks_view(f.toks@))));
        p = q2;
    }
    Ok(blocks)
}

/// Reads a definition: `name => body`, `name(props) => body`,
/// `layout name => body`, or `name @layout => extend slot { ... } ...`.
pub fn parse_definition(ts: &Vec<Token>) -> (r: Result<Component, Error>)
    ensures
        r is Ok <==> def_at(toks_view(ts@)) is Some,
        r is Ok ==> def_at(toks_view(ts@)) == Some(def_view(r->Ok_0)),
        dup_props(toks_view(ts@)) ==> r is Err && r->Err_0.kind == ErrorKind::DuplicateProp,
        r is Ok ==> r->Ok_0.kind is Plain ==> forall|i: int, j: int|
            0 <= i < j < r->Ok_0.props@.len() ==> r->Ok_0.props@[i]@ != r->Ok_0.props@[j]@,
        r is Ok ==> (r->Ok_0.kind is Layout <==> word_at_spec(ts@, 0, layout_word())),
        r is Ok && r->Ok_0.kind is Plain ==> if 1 < ts@.len() && ts@[1]@.0 == TokV::Punct('(') {
            props_rest(toks_view(ts@), 2, Seq::empty()) matches Some((ps, _)) && ps == names_view(
                r->Ok_0.props@,
            )
        } else {
            r->Ok_0.props@.len() == 0
        },
        r is Ok ==> !(r->Ok_0.kind is Extends) ==> exists|p: int|
            2 <= p <= ts@.len() && ts@[p - 2]@.0 == TokV::Punct('=') && ts@[p - 1]@.0
                == TokV::Punct('>') && toks_view(r->Ok_0.body@) == toks_view(ts@).subrange(
                p,
                ts@.len() as int,
            ),
{
    let ghost tv = toks_view(ts@);
    proof {
        reveal_strlit("layout");
        assert("layout"@ =~= layout_word());
        if 0 < tv.len() {
            assert(tv[0] == ts@[0]@);
        }
        if 1 < tv.len() {
            assert(tv[1] == ts@[1]@);
        }
        if 2 < tv.len() {
            assert(tv[2] == ts@[2]@);
        }
        if 3 < tv.len() {
            assert(tv[3] == ts@[3]@);
        }
        if 4 < tv.len() {
            assert(tv[4] == ts@[4]@);
        }
    }
    if word_at(ts, 0, "layout") {
        let (name, p) = expect_ident(ts, 1)?;
        let p = expect_punct(ts, p, '=')?;
        let p = expect_punct(ts, p, '>')?;
        let body = rest_of(ts, p);
        let props = slots_of(&body);
        let blocks: Vec<Fill> = Vec::new();
        assert(fills_view(blocks@) =~= Seq::<(Seq<char>, Seq<(TokV, usize)>)>::empty());
        return Ok(Component { name, props, kind: ComponentKind::Layout, body, blocks });
    }
    let (name, p) = expect_ident(ts, 0)?;
    if punct_at(ts, p, '@') {
        let (layout, p) = expect_ident(ts, p + 1)?;
        let p = expect_punct(ts, p, '=')?;
        let p = expect_punct(ts, p, '>')?;
        let blocks = parse_blocks(ts, p)?;
        let props: Vec<String> = Vec::new();
        let body: Vec<Token> = Vec::new();
        assert(names_view(props@) =~= Seq::<Seq<char>>::empty());
        assert(toks_view(body@) =~= Seq::<(TokV, usize)>::empty());
        return Ok(Component { name, props, kind: ComponentKind::Extends(layout), body, blocks });
    }
    let (props, p) = if punct_at(ts, p, '(') {
        parse_props(ts, p)?
    } else {
        (Vec::new(), p)
    };
    assert(names_view(props@).len() == 0 ==> names_view(props@) =~= Seq::<Seq<char>>::empty());
    proof {
        if p < tv.len() {
            assert(tv[p as int] == ts@[p as int]@);
        }
        if p + 1 < tv.len() {
            assert(tv[p + 1] == ts@[p + 1]@);
        }
    }
    let p = expect_punct(ts, p, '=')?;
    let p = expect_punct(ts, p, '>')?;
    let body = rest_of(ts, p);
    let blocks: Vec<Fill> = Vec::new();
    assert(fills_view(blocks@) =~= Seq::<(Seq<char>, Seq<(TokV, usize)>)>::empty());
    Ok(Component { name, props, kind: ComponentKind::Plain, body, blocks })
}

proof fn lemma_find_index(cs: Seq<Component>, n: Seq<char>)
    ensures
        0 <= find_index(cs, n) <= cs.len(),
        find_index(cs, n) < cs.len() ==> cs[find_index(cs, n)].name@ == n,
        forall|j: int| 0 <= j < find_index(cs, n) ==> cs[j].name@ != n,
    decreases cs.len(),
{
    if cs.len() > 0 && cs[0].name@ != n {
        lemma_find_index(cs.drop_first(), n);
        assert forall|j: int| 0 <= j < find_index(cs, n) implies cs[j].name@ != n by {
            if j > 0 {
                assert(cs[j] == cs.drop_first()[j - 1]);
            }
        }
    }
}

impl Templates {
    /// No two definitions share a name.
    pub open spec fn names_unique(&self) -> bool {
        forall|i: int, j: int|
            0 <= i < j < self.components@.len() ==> self.components@[i].name@
                != self.components@[j].name@
    }

    /// No definitions, with escaping and minification available.
    pub fn new() -> (r: Templates)
        ensures
            r.components@.len() == 0,
            r.escaping,
            r.minifying,
            r.names_unique(),
    {
        Templates { components: Vec::new(), includes: Vec::new(), escaping: true, minifying: true }
    }

    /// No definitions, with escaping and minification available as given.
    pub fn with_capabilities(escaping: bool, minifying: bool) -> (r: Templates)
        ensures
            r.components@.len() == 0,
            r.escaping == escaping,
            r.minifying == minifying,
            r.names_unique(),
    {
        Templates { components: Vec::new(), includes: Vec::new(), escaping, minifying }
    }

    /// Adds the text of an included file, read by the application.
    pub fn add_include(&mut self, path: String, text: String)
        ensures
            final(self).includes@ == old(self).includes@.push(Include { path, text }),
            final(self).components@ == old(self).components@,
            final(self).escaping == old(self).escaping,
            final(self).minifying == old(self).minifying,
    {
        self.includes.push(Include { path, text });
    }

    /// The text included under `path`.
    pub fn find_include(&self, path: &String) -> (r: Option<String>)
        ensures
            match r {
                Some(t) => include_of(self.includes@, path@) == Some(t@),
                None => include_of(self.includes@, path@) is None,
            },
    {
        let mut i: usize = 0;
        let ghost v = self.includes@;
        assert(v.subrange(0, v.len() as int) =~= v);
        while i < self.includes.len()
            invariant
                i <= v.len(),
                v == self.includes@,
                include_of(v, path@) == include_of(v.subrange(i as int, v.len() as int), path@),
            decreases v.len() - i,
        {
            let ghost rest = v.subrange(i as int, v.len() as int);
            assert(rest[0] == v[i as int]);
            assert(rest.drop_first() =~= v.subrange(i + 1, v.len() as int));
            if self.includes[i].path == *path {
                return Some(self.includes[i].text.clone());
            }
            i = i + 1;
        }
        None
    }

    /// The index of the definition named `name`, if any.
    pub fn find(&self, name: &String) -> (r: Option<usize>)
        ensures
            match r {
                Some(k) => k as int == find_index(self.components@, name@),
                None => find_index(self.components@, name@) == self.components@.len(),
            },
            match r {
                Some(k) => k < self.components@.len() && self.components@[k as int].name@ == name@,
                None => forall|k: int|
                    0 <= k < self.components@.len() ==> self.components@[k].name@ != name@,
            },
    {
        let mut i: usize = 0;
        while i < self.components.len()
            invariant
                i <= self.components@.len(),
                forall|k: int| 0 <= k < i ==> self.components@[k].name@ != name@,
            decreases self.components@.len() - i,
        {
            proof {
                lemma_find_index(self.components@, name@);
            }
            if self.components[i].name == *name {
                return Some(i);
            }
            i = i + 1;
        }
        proof {
            lemma_find_index(self.components@, name@);
        }
        None
    }

    /// Adds the definition read from tokens: exactly the one the grammar
    /// gives (`def_at`), which must not reuse the name of an earlier one.
    pub fn define_tokens(&mut self, ts: &Vec<Token>) -> (r: Result<(), Error>)
        ensures
            r is Ok <==> (def_at(toks_view(ts@)) matches Some(d) && forall|k: int|
                0 <= k < old(self).components@.len() ==> old(self).components@[k].name@ != d.0),
            r is Ok ==> final(self).components@.len() == old(self).components@.len() + 1
                && final(self).components@.drop_last() == old(self).components@
                && def_at(toks_view(ts@)) == Some(def_view(final(self).components@.last())),
            dup_props(toks_view(ts@)) ==> r is Err && r->Err_0.kind == ErrorKind::DuplicateProp,
            r is Err ==> final(self).components@ == old(self).components@,
            final(self).escaping == old(self).escaping,
            final(self).minifying == old(self).minifying,
            old(self).names_unique() ==> final(self).names_unique(),
    {
        let c = parse_definition(ts)?;
        match self.find(&c.name) {
            Some(k) => {
                return Err(error_at(ts, 0, ErrorKind::DuplicateDefinition));
            },
            None => {},
        }
        let ghost before = self.components@;
        self.components.push(c);
        assert(self.components@.drop_last() =~= old(self).components@);
        assert forall|i: int, j: int|
            0 <= i < j < self.components@.len() && old(self).names_unique() implies self.components@[i].name@
            != self.components@[j].name@ by {
            assert(self.components@[i] == before[i]);
            if j < before.len() {
                assert(self.components@[j] == before[j]);
            }
        }
        Ok(())
    }

    /// Adds a definition from its source: its tokens are read and added as
    /// `define_tokens` says.
    pub fn define(&mut self, src: &str) -> (r: Result<(), Error>)
        ensures
            r is Ok <==> (lex(src@) matches Some(tv) && def_at(tv) matches Some(d) && forall|k: int|
                0 <= k < old(self).components@.len() ==> old(self).components@[k].name@ != d.0),
            r is Ok ==> (lex(src@) matches Some(tv) && def_at(tv) == Some(
                def_view(final(self).components@.last()),
            )),
            lex(src@) is None ==> r is Err && r->Err_0.kind == ErrorKind::UnterminatedString,
            (lex(src@) matches Some(tv) && dup_props(tv)) ==> r is Err && r->Err_0.kind
                == ErrorKind::DuplicateProp,
            r is Ok ==> final(self).components@.len() == old(self).components@.len() + 1
                && final(self).components@.drop_last() == old(self).components@,
            r is Err ==> final(self).components@ == old(self).components@,
            final(self).escaping == old(self).escaping,
            final(self).minifying == old(self).minifying,
            old(self).names_unique() ==> final(self).names_unique(),
    {
        let ts = tokenize(src)?;
        self.define_tokens(&ts)
    }
}

} // verus!
