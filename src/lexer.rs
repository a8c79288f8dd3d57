//! The tokenizer: template source text becomes a flat sequence of identifiers,
//! string literals and punctuation marks, each with its position.

use vstd::prelude::*;
use crate::error::{Error, ErrorKind};
use crate::outside::push_char;
use vstd::string::{StrSliceExecFns, StringExecFns};

verus! {

/// One token.
pub enum Tok {
    /// A bare word: a letter or `_`, then letters, digits, `_` or `-`.
    Ident(String),
    /// The content of a string literal, `"..."` or `r#"..."#`.
    Str(String),
    /// Any other character that is not white space (a digit too).
    Punct(char),
}

/// A token and its place in the source: from `start` up to, not including, `end`.
pub struct Token {
    pub tok: Tok,
    pub start: usize,
    pub end: usize,
}

/// A token as a mathematical value.
pub enum TokV {
    Ident(Seq<char>),
    Str(Seq<char>),
    Punct(char),
}

impl View for Token {
    type V = (TokV, usize);

    open spec fn view(&self) -> (TokV, usize) {
        (
            match self.tok {
                Tok::Ident(s) => TokV::Ident(s@),
                Tok::Str(s) => TokV::Str(s@),
                Tok::Punct(c) => TokV::Punct(c),
            },
            self.start,
        )
    }
}

impl Token {
    /// A copy of the token.
    pub fn copy(&self) -> (r: Token)
        ensures
            r@ == self@,
    {
        let tok = match &self.tok {
            Tok::Ident(s) => Tok::Ident(s.clone()),
            Tok::Str(s) => Tok::Str(s.clone()),
            Tok::Punct(c) => Tok::Punct(*c),
        };
        Token { tok, start: self.start, end: self.end }
    }

    /// Whether the token is the punctuation mark `c`.
    pub fn is_punct(&self, c: char) -> (r: bool)
        ensures
            r == (self@.0 == TokV::Punct(c)),
    {
        match &self.tok {
            Tok::Punct(d) => *d == c,
            _ => false,
        }
    }

    /// Whether the token is the bare word `w`.
    pub fn is_word(&self, w: &str) -> (r: bool)
        ensures
            r == (self@.0 == TokV::Ident(w@)),
    {
        match &self.tok {
            Tok::Ident(s) => *s == String::from_str(w),
            _ => false,
        }
    }
}

/// The views of a sequence of tokens.
pub open spec fn toks_view(ts: Seq<Token>) -> Seq<(TokV, usize)> {
    ts.map_values(|t: Token| t@)
}

pub open spec fn is_space(c: char) -> bool {
    c == ' ' || c == '\n' || c == '\t' || c == '\r'
}

pub open spec fn is_ident_start(c: char) -> bool {
    ('a' <= c && c <= 'z') || ('A' <= c && c <= 'Z') || c == '_'
}

pub open spec fn is_ident_char(c: char) -> bool {
    is_ident_start(c) || ('0' <= c && c <= '9') || c == '-'
}

/// The token stands in the source at its place, in the form its kind says; a
/// bare word is not followed by a word character.
pub open spec fn token_fits(src: Seq<char>, t: Token) -> bool {
    let p = t.start as int;
    match t.tok {
        Tok::Ident(s) => {
            &&& s@.len() > 0
            &&& t.end == p + s@.len()
            &&& p + s@.len() <= src.len()
            &&& src.subrange(p, p + s@.len()) == s@
            &&& is_ident_start(s@[0])
            &&& forall|i: int| 0 <= i < s@.len() ==> is_ident_char(#[trigger] s@[i])
            &&& (t.end < src.len() ==> !is_ident_char(src[t.end as int]))
        },
        Tok::Str(s) => {
            let n = s@.len();
            ||| (t.end == p + n + 2 && p + n + 2 <= src.len() && src[p] == '"' && src.subrange(
                p + 1,
                p + 1 + n,
            ) == s@ && src[p + 1 + n] == '"' && !s@.contains('"'))
            ||| (t.end == p + n + 5 && p + n + 5 <= src.len() && src.subrange(p, p + 3) == seq![
                'r',
                '#',
                '"',
            ]
                && src.subrange(p + 3, p + 3 + n) == s@ && src.subrange(p + 3 + n, p + 5 + n)
                == seq!['"', '#'])
        },
        Tok::Punct(c) => {
            &&& t.end == p + 1
            &&& p < src.len()
            &&& src[p] == c
            &&& !is_space(c)
            &&& !is_ident_start(c)
            &&& c != '"'
        },
    }
}

/// Only white space stands in the source from `from` up to `to`.
pub open spec fn blank(src: Seq<char>, from: int, to: int) -> bool {
    forall|p: int| from <= p < to ==> is_space(#[trigger] src[p])
}

/// Where the tokens so far end: at the end of the last one, or at the start.
pub open spec fn tokens_end(ts: Seq<Token>) -> int {
    if ts.len() == 0 {
        0
    } else {
        ts.last().end as int
    }
}

/// Every token stands in the source in its form, the tokens come in order, and
/// only white space stands before, between and after them up to `upto`.
#[verifier::opaque]
pub open spec fn tokens_fit(src: Seq<char>, ts: Seq<Token>, upto: int) -> bool {
    &&& forall|i: int| 0 <= i < ts.len() ==> token_fits(src, #[trigger] ts[i])
    &&& forall|i: int, j: int| 0 <= i < j < ts.len() ==> ts[i].start < ts[j].start
    &&& ts.len() > 0 ==> blank(src, 0, ts[0].start as int)
    &&& forall|i: int|
        0 <= i < ts.len() - 1 ==> ts[i].end <= ts[i + 1].start && blank(
            src,
            (#[trigger] ts[i]).end as int,
            ts[i + 1].start as int,
        )
    &&& tokens_end(ts) <= upto
    &&& blank(src, tokens_end(ts), upto)
}

#[verifier::spinoff_prover]
proof fn lemma_push_token(src: Seq<char>, ts: Seq<Token>, t: Token, upto: int)
    requires
        tokens_fit(src, ts, upto),
        token_fits(src, t),
        t.start == upto,
        ts.len() > 0 ==> ts.last().start < t.start,
    ensures
        tokens_fit(src, ts.push(t), t.end as int),
        ts.push(t).last().start == t.start,
{
    reveal(tokens_fit);
    let q = ts.push(t);
    assert forall|i: int| 0 <= i < q.len() implies token_fits(src, #[trigger] q[i]) by {
        if i < ts.len() {
            assert(q[i] == ts[i]);
        }
    }
    assert forall|i: int, j: int| 0 <= i < j < q.len() implies q[i].start < q[j].start by {
        assert(q[i] == ts[i]);
        if j < ts.len() {
            assert(q[j] == ts[j]);
        } else if i < ts.len() - 1 {
            assert(ts[i].start < ts[ts.len() - 1].start);
        }
    }
    if ts.len() == 0 {
        assert(blank(src, 0, q[0].start as int));
    } else {
        assert(q[0] == ts[0]);
    }
    assert forall|i: int| 0 <= i < q.len() - 1 implies q[i].end <= q[i + 1].start && blank(
        src,
        (#[trigger] q[i]).end as int,
        q[i + 1].start as int,
    ) by {
        assert(q[i] == ts[i]);
        if i < ts.len() - 1 {
            assert(q[i + 1] == ts[i + 1]);
        } else {
            assert(q[i + 1] == t);
            assert(ts.last() == ts[i]);
        }
    }
    assert(blank(src, t.end as int, t.end as int));
}

fn is_space_char(c: char) -> (r: bool)
    ensures
        r == is_space(c),
{
    c == ' ' || c == '\n' || c == '\t' || c == '\r'
}

fn is_ident_start_char(c: char) -> (r: bool)
    ensures
        r == is_ident_start(c),
{
    ('a' <= c && c <= 'z') || ('A' <= c && c <= 'Z') || c == '_'
}

fn is_ident_continue(c: char) -> (r: bool)
    ensures
        r == is_ident_char(c),
{
    is_ident_start_char(c) || ('0' <= c && c <= '9') || c == '-'
}

/// The characters of a text, in order.
pub fn chars_of(s: &str) -> (r: Vec<char>)
    ensures
        r@ == s@,
{
    let n = s.unicode_len();
    let mut out: Vec<char> = Vec::new();
    let mut i: usize = 0;
    while i < n
        invariant
            n == s@.len(),
            i <= n,
            out@ == s@.subrange(0, i as int),
        decreases n - i,
    {
        out.push(s.get_char(i));
        i = i + 1;
        assert(out@ =~= s@.subrange(0, i as int));
    }
    assert(out@ =~= s@);
    out
}

/// The characters `c[from..to]` as a string.
pub fn text_of(c: &Vec<char>, from: usize, to: usize) -> (r: String)
    requires
        from <= to <= c@.len(),
    ensures
        r@ == c@.subrange(from as int, to as int),
{
    let mut s = String::new();
    let mut i = from;
    while i < to
        invariant
            from <= i <= to <= c@.len(),
            s@ == c@.subrange(from as int, i as int),
        decreases to - i,
    {
        push_char(&mut s, c[i]);
        i = i + 1;
        assert(s@ =~= c@.subrange(from as int, i as int));
    }
    s
}

proof fn lemma_toks_view_push(ts: Seq<Token>, t: Token)
    ensures
        toks_view(ts.push(t)) == toks_view(ts).push(t@),
{
    assert(toks_view(ts.push(t)) =~= toks_view(ts).push(t@));
}

proof fn lemma_blank_extend(src: Seq<char>, ts: Seq<Token>, upto: int)
    requires
        tokens_fit(src, ts, upto),
        0 <= upto < src.len(),
        is_space(src[upto]),
    ensures
        tokens_fit(src, ts, upto + 1),
{
    reveal(tokens_fit);
    assert forall|p: int| tokens_end(ts) <= p < upto + 1 implies is_space(#[trigger] src[p]) by {
        if p < upto {
            assert(blank(src, tokens_end(ts), upto));
        }
    }
}

proof fn lemma_no_tokens(src: Seq<char>)
    ensures
        tokens_fit(src, Seq::empty(), 0),
{
    reveal(tokens_fit);
}

/// The position of the `"#` that closes a raw string, searching from `j`; -1
/// when there is none.
pub open spec fn raw_close(src: Seq<char>, j: int) -> int
    decreases src.len() - j,
{
    if j < 0 || j + 1 >= src.len() {
        -1
    } else if src[j] == '"' && src[j + 1] == '#' {
        j
    } else {
        raw_close(src, j + 1)
    }
}

/// The position of the `"` that closes a string, searching from `j`; -1 when
/// there is none.
pub open spec fn quote_close(src: Seq<char>, j: int) -> int
    decreases src.len() - j,
{
    if j < 0 || j >= src.len() {
        -1
    } else if src[j] == '"' {
        j
    } else {
        quote_close(src, j + 1)
    }
}

/// Where a bare word that continues at `j` ends: the longest run of word characters.
pub open spec fn ident_end(src: Seq<char>, j: int) -> int
    decreases src.len() - j,
{
    if 0 <= j < src.len() && is_ident_char(src[j]) {
        ident_end(src, j + 1)
    } else {
        j
    }
}

/// The token that starts at `i` (none for white space) and the position after
/// it; `None` where a string that opens at `i` is not closed. A bare word is as
/// long as it can be; a string runs to its closing quote.
pub open spec fn lex_step(src: Seq<char>, i: int) -> Option<(Option<TokV>, int)> {
    let c = src[i];
    if is_space(c) {
        Some((None, i + 1))
    } else if c == 'r' && i + 2 < src.len() && src[i + 1] == '#' && src[i + 2] == '"' {
        let j = raw_close(src, i + 3);
        if i + 3 <= j && j + 2 <= src.len() {
            Some((Some(TokV::Str(src.subrange(i + 3, j))), j + 2))
        } else {
            None
        }
    } else if is_ident_start(c) {
        let j = ident_end(src, i + 1);
        Some((Some(TokV::Ident(src.subrange(i, j))), j))
    } else if c == '"' {
        let j = quote_close(src, i + 1);
        if i + 1 <= j && j + 1 <= src.len() {
            Some((Some(TokV::Str(src.subrange(i + 1, j))), j + 1))
        } else {
            None
        }
    } else {
        Some((Some(TokV::Punct(c)), i + 1))
    }
}

/// The tokens of the source from `i` on, after `acc`, each with its start.
pub open spec fn lex_from(src: Seq<char>, i: int, acc: Seq<(TokV, usize)>) -> Option<
    Seq<(TokV, usize)>,
>
    decreases src.len() - i,
{
    if i < 0 || i >= src.len() {
        Some(acc)
    } else {
        match lex_step(src, i) {
            Some((t, j)) => if i < j <= src.len() {
                lex_from(
                    src,
                    j,
                    match t {
                        Some(tv) => acc.push((tv, i as usize)),
                        None => acc,
                    },
                )
            } else {
                None
            },
            None => None,
        }
    }
}

/// The tokens of a whole source, or `None` where a string is not closed.
pub open spec fn lex(src: Seq<char>) -> Option<Seq<(TokV, usize)>> {
    lex_from(src, 0, Seq::empty())
}

/// Reads the raw string literal `r#"..."#` that starts at `i`.
fn lex_raw(c: &Vec<char>, i: usize) -> (r: Result<Token, Error>)
    requires
        i + 3 <= c@.len(),
        c@.subrange(i as int, i + 3) == seq!['r', '#', '"'],
    ensures
        r is Ok ==> token_fits(c@, r->Ok_0) && r->Ok_0.start == i && r->Ok_0.end > i,
        r is Ok <==> (i + 3 <= raw_close(c@, i + 3) && raw_close(c@, i + 3) + 2 <= c@.len()),
        r is Ok ==> r->Ok_0.end == raw_close(c@, i + 3) + 2 && r->Ok_0@.0 == TokV::Str(
            c@.subrange(i + 3, raw_close(c@, i + 3)),
        ),
        r is Err ==> r->Err_0.kind == ErrorKind::UnterminatedString && r->Err_0.at == i,
{
    let n = c.len();
    let mut j = i + 3;
    while j < n - 1 && !(c[j] == '"' && c[j + 1] == '#')
        invariant
            i + 3 <= j <= n,
            n == c@.len(),
            raw_close(c@, i + 3) == raw_close(c@, j as int),
            forall|q: int| i + 3 <= q < j ==> !(#[trigger] c@[q] == '"' && c@[q + 1] == '#'),
        decreases n - j,
    {
        j = j + 1;
    }
    if j >= n - 1 {
        assert(raw_close(c@, j as int) == -1);
        return Err(Error { kind: ErrorKind::UnterminatedString, at: i, name: None });
    }
    let s = text_of(c, i + 3, j);
    assert(c@.subrange(j as int, j + 2) =~= seq!['"', '#']);
    Ok(Token { tok: Tok::Str(s), start: i, end: j + 2 })
}

/// Reads the bare word that starts at `i`.
fn lex_ident(c: &Vec<char>, i: usize) -> (t: Token)
    requires
        i < c@.len(),
        is_ident_start(c@[i as int]),
    ensures
        token_fits(c@, t) && t.start == i && t.end > i,
        t.end == ident_end(c@, i + 1),
        t@.0 == TokV::Ident(c@.subrange(i as int, ident_end(c@, i + 1))),
{
    let n = c.len();
    let mut j = i + 1;
    while j < n && is_ident_continue(c[j])
        invariant
            i < j <= n,
            n == c@.len(),
            ident_end(c@, i + 1) == ident_end(c@, j as int),
            forall|k: int| i <= k < j ==> is_ident_char(#[trigger] c@[k]),
        decreases n - j,
    {
        j = j + 1;
    }
    let s = text_of(c, i, j);
    assert forall|k: int| 0 <= k < s@.len() implies is_ident_char(#[trigger] s@[k]) by {
        assert(s@[k] == c@[i + k]);
    }
    Token { tok: Tok::Ident(s), start: i, end: j }
}

/// Reads the string literal `"..."` that starts at `i`.
fn lex_str(c: &Vec<char>, i: usize) -> (r: Result<Token, Error>)
    requires
        i < c@.len(),
        c@[i as int] == '"',
    ensures
        r is Ok ==> token_fits(c@, r->Ok_0) && r->Ok_0.start == i && r->Ok_0.end > i,
        r is Ok <==> (i + 1 <= quote_close(c@, i + 1) && quote_close(c@, i + 1) + 1 <= c@.len()),
        r is Ok ==> r->Ok_0.end == quote_close(c@, i + 1) + 1 && r->Ok_0@.0 == TokV::Str(
            c@.subrange(i + 1, quote_close(c@, i + 1)),
        ),
        r is Err ==> r->Err_0.kind == ErrorKind::UnterminatedString && r->Err_0.at == i,
{
    let n = c.len();
    let mut j = i + 1;
    while j < n && c[j] != '"'
        invariant
            i < j <= n,
            n == c@.len(),
            quote_close(c@, i + 1) == quote_close(c@, j as int),
            forall|k: int| i < k < j ==> c@[k] != '"',
        decreases n - j,
    {
        j = j + 1;
    }
    if j >= n {
        assert(quote_close(c@, j as int) == -1);
        return Err(Error { kind: ErrorKind::UnterminatedString, at: i, name: None });
    }
    let s = text_of(c, i + 1, j);
    proof {
        if s@.contains('"') {
            let k = choose|k: int| 0 <= k < s@.len() && s@[k] == '"';
            assert(c@[i + 1 + k] == '"');
        }
    }
    Ok(Token { tok: Tok::Str(s), start: i, end: j + 1 })
}

/// Splits template source into tokens. White space separates tokens and is
/// dropped: the source is exactly the tokens, in their source form, with white
/// space before, between and after them. A string literal that is not closed is
/// an error at its opening quote.
pub fn tokenize(src: &str) -> (r: Result<Vec<Token>, Error>)
    ensures
        r is Ok <==> lex(src@) is Some,
        r is Ok ==> lex(src@) == Some(toks_view(r->Ok_0@)),
        r is Ok ==> tokens_fit(src@, r->Ok_0@, src@.len() as int),
        r is Err ==> r->Err_0.kind == ErrorKind::UnterminatedString,
{
    let c = chars_of(src);
    let n = c.len();
    let mut out: Vec<Token> = Vec::new();
    let mut i: usize = 0;
    proof {
        lemma_no_tokens(src@);
        assert(toks_view(out@) =~= Seq::<(TokV, usize)>::empty());
    }
    while i < n
        invariant
            n == c@.len(),
            c@ == src@,
            i <= n,
            tokens_fit(src@, out@, i as int),
            out@.len() > 0 ==> out@.last().start < i,
            lex(src@) == lex_from(src@, i as int, toks_view(out@)),
        decreases n - i,
    {
        let ch = c[i];
        if is_space_char(ch) {
            proof {
                lemma_blank_extend(src@, out@, i as int);
                assert(lex_step(src@, i as int) == Some((None::<TokV>, i + 1)));
            }
            i = i + 1;
        } else {
            let t = if ch == 'r' && n - i > 2 && c[i + 1] == '#' && c[i + 2] == '"' {
                assert(c@.subrange(i as int, i + 3) =~= seq!['r', '#', '"']);
                lex_raw(&c, i)?
            } else if is_ident_start_char(ch) {
                lex_ident(&c, i)
            } else if ch == '"' {
                lex_str(&c, i)?
            } else {
                Token { tok: Tok::Punct(ch), start: i, end: i + 1 }
            };
            proof {
                lemma_push_token(src@, out@, t, i as int);
                assert(lex_step(src@, i as int) == Some((Some(t@.0), t.end as int)));
            }
            let ghost before = out@;
            let ghost tg = t;
            i = t.end;
            out.push(t);
            proof {
                lemma_toks_view_push(before, tg);
            }
        }
    }
    Ok(out)
}

} // verus!
