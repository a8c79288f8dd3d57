//! Substitution of token sequences into the holes of a template body: a prop
//! reference `@name;` in a component, a slot `block name;` in a layout.

use vstd::prelude::*;
use crate::lexer::{Tok, TokV, Token, toks_view};

verus! {

/// What fills the holes of one name.
pub struct Fill {
    pub name: String,
    pub toks: Vec<Token>,
}

pub open spec fn fills_view(fs: Seq<Fill>) -> Seq<(Seq<char>, Seq<(TokV, usize)>)> {
    fs.map_values(|f: Fill| (f.name@, toks_view(f.toks@)))
}

/// The index of the first fill named `name`, or the number of fills.
pub open spec fn fill_index(fs: Seq<(Seq<char>, Seq<(TokV, usize)>)>, name: Seq<char>) -> int
    decreases fs.len(),
{
    if fs.len() == 0 {
        0
    } else if fs[0].0 == name {
        0
    } else {
        1 + fill_index(fs.drop_first(), name)
    }
}

pub open spec fn block_word() -> Seq<char> {
    seq!['b', 'l', 'o', 'c', 'k']
}

/// The token that opens a hole: `@` for props, `block` for slots.
pub open spec fn opens_hole(t: TokV, at_sign: bool) -> bool {
    if at_sign {
        t == TokV::Punct('@')
    } else {
        t == TokV::Ident(block_word())
    }
}

/// The tokens start with a hole whose name has a fill.
pub open spec fn hole_here(
    ts: Seq<(TokV, usize)>,
    at_sign: bool,
    fs: Seq<(Seq<char>, Seq<(TokV, usize)>)>,
) -> bool {
    &&& ts.len() >= 3
    &&& opens_hole(ts[0].0, at_sign)
    &&& ts[1].0 is Ident
    &&& fill_index(fs, ts[1].0->Ident_0) < fs.len()
    &&& ts[2].0 == TokV::Punct(';')
}

/// The tokens with every hole that has a fill replaced by the fill, read from the front.
pub open spec fn spliced(
    ts: Seq<(TokV, usize)>,
    at_sign: bool,
    fs: Seq<(Seq<char>, Seq<(TokV, usize)>)>,
) -> Seq<(TokV, usize)>
    decreases ts.len(),
{
    if ts.len() == 0 {
        Seq::empty()
    } else if hole_here(ts, at_sign, fs) {
        fs[fill_index(fs, ts[1].0->Ident_0)].1 + spliced(ts.subrange(3, ts.len() as int), at_sign, fs)
    } else {
        seq![ts[0]] + spliced(ts.subrange(1, ts.len() as int), at_sign, fs)
    }
}

proof fn lemma_fill_index(fs: Seq<(Seq<char>, Seq<(TokV, usize)>)>, name: Seq<char>)
    ensures
        0 <= fill_index(fs, name) <= fs.len(),
        fill_index(fs, name) < fs.len() ==> fs[fill_index(fs, name)].0 == name,
    decreases fs.len(),
{
    if fs.len() > 0 && fs[0].0 != name {
        lemma_fill_index(fs.drop_first(), name);
    }
}

/// The index of the first fill named `name`, or the number of fills.
pub fn find_fill(fills: &Vec<Fill>, name: &String) -> (k: usize)
    ensures
        k as int == fill_index(fills_view(fills@), name@),
{
    let ghost fv = fills_view(fills@);
    let mut i: usize = 0;
    assert(fv.subrange(0, fv.len() as int) =~= fv);
    while i < fills.len()
        invariant
            i <= fills@.len(),
            fv == fills_view(fills@),
            fill_index(fv, name@) == i + fill_index(fv.subrange(i as int, fv.len() as int), name@),
        decreases fills@.len() - i,
    {
        let ghost rest = fv.subrange(i as int, fv.len() as int);
        assert(rest[0] == fv[i as int]);
        if fills[i].name == *name {
            return i;
        }
        assert(rest.drop_first() =~= fv.subrange(i + 1, fv.len() as int));
        i = i + 1;
    }
    i
}

/// Appends copies of tokens.
pub fn copy_tokens(out: &mut Vec<Token>, ts: &Vec<Token>)
    ensures
        toks_view(final(out)@) == toks_view(old(out)@) + toks_view(ts@),
{
    let mut i: usize = 0;
    while i < ts.len()
        invariant
            i <= ts@.len(),
            toks_view(out@) == toks_view(old(out)@) + toks_view(ts@.take(i as int)),
        decreases ts@.len() - i,
    {
        let ghost before = out@;
        out.push(ts[i].copy());
        assert(toks_view(out@) =~= toks_view(before) + seq![ts@[i as int]@]);
        assert(toks_view(ts@.take(i + 1)) =~= toks_view(ts@.take(i as int)) + seq![ts@[i as int]@]);
        assert(toks_view(out@) =~= toks_view(old(out)@) + toks_view(ts@.take(i + 1)));
        i = i + 1;
    }
    assert(ts@.take(ts@.len() as int) =~= ts@);
}

/// The fill for a hole at position `i`; the number of fills where no hole with a fill starts there.
fn hole_fill(ts: &Vec<Token>, i: usize, at_sign: bool, fills: &Vec<Fill>) -> (k: usize)
    requires
        i < ts@.len(),
    ensures
        k <= fills@.len(),
        k < fills@.len() <==> hole_here(
            toks_view(ts@).subrange(i as int, ts@.len() as int),
            at_sign,
            fills_view(fills@),
        ),
        k < fills@.len() ==> k as int == fill_index(
            fills_view(fills@),
            toks_view(ts@)[i + 1].0->Ident_0,
        ),
{
    let ghost rest = toks_view(ts@).subrange(i as int, ts@.len() as int);
    proof {
        reveal_strlit("block");
        assert("block"@ =~= block_word());
    }
    assert(rest[0] == ts@[i as int]@);
    let opens = if at_sign {
        ts[i].is_punct('@')
    } else {
        ts[i].is_word("block")
    };
    if !opens || ts.len() - i < 3 {
        return fills.len();
    }
    assert(rest[1] == ts@[i + 1]@);
    assert(rest[2] == ts@[i + 2]@);
    if !ts[i + 2].is_punct(';') {
        return fills.len();
    }
    match &ts[i + 1].tok {
        Tok::Ident(name) => {
            let k = find_fill(fills, name);
            proof {
                lemma_fill_index(fills_view(fills@), name@);
            }
            k
        },
        _ => fills.len(),
    }
}

/// Replaces every hole whose name has a fill by the fill's tokens; holes
/// without a fill, and everything else, stay as they are.
pub fn splice(ts: &Vec<Token>, at_sign: bool, fills: &Vec<Fill>) -> (r: Vec<Token>)
    ensures
        toks_view(r@) == spliced(toks_view(ts@), at_sign, fills_view(fills@)),
{
    let ghost tv = toks_view(ts@);
    let ghost fv = fills_view(fills@);
    let n = ts.len();
    let mut out: Vec<Token> = Vec::new();
    let mut i: usize = 0;
    assert(tv.subrange(0, n as int) =~= tv);
    assert(toks_view(out@) =~= Seq::<(TokV, usize)>::empty());
    while i < n
        invariant
            n == ts@.len(),
            tv == toks_view(ts@),
            fv == fills_view(fills@),
            i <= n,
            toks_view(out@) + spliced(tv.subrange(i as int, n as int), at_sign, fv) == spliced(
                tv,
                at_sign,
                fv,
            ),
        decreases n - i,
    {
        let ghost rest = tv.subrange(i as int, n as int);
        let ghost before = out@;
        assert(rest[0] == tv[i as int]);
        let k = hole_fill(ts, i, at_sign, fills);
        if k < fills.len() {
            assert(rest[1] == tv[i + 1]);
            assert(rest[2] == tv[i + 2]);
            copy_tokens(&mut out, &fills[k].toks);
            assert(rest.subrange(3, rest.len() as int) =~= tv.subrange(i + 3, n as int));
            assert(toks_view(out@) + spliced(tv.subrange(i + 3, n as int), at_sign, fv) =~= toks_view(
                before,
            ) + spliced(rest, at_sign, fv));
            i = i + 3;
        } else {
            out.push(ts[i].copy());
            assert(toks_view(out@) =~= toks_view(before) + seq![tv[i as int]]);
            assert(rest.subrange(1, rest.len() as int) =~= tv.subrange(i + 1, n as int));
            assert(toks_view(out@) + spliced(tv.subrange(i + 1, n as int), at_sign, fv) =~= toks_view(
                before,
            ) + spliced(rest, at_sign, fv));
            i = i + 1;
        }
    }
    assert(tv.subrange(n as int, n as int) =~= Seq::<(TokV, usize)>::empty());
    assert(toks_view(out@) + Seq::<(TokV, usize)>::empty() =~= toks_view(out@));
    out
}

} // verus!
