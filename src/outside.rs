//! The calls that this library makes into other crates, each with the contract
//! that the library relies on.

use vstd::prelude::*;
use indexmap::{IndexMap, IndexSet};

verus! {

/// The text that `html_escape::encode_text` makes of one character.
pub open spec fn escape_char(c: char) -> Seq<char> {
    if c == '&' {
        seq!['&', 'a', 'm', 'p', ';']
    } else if c == '<' {
        seq!['&', 'l', 't', ';']
    } else if c == '>' {
        seq!['&', 'g', 't', ';']
    } else {
        seq![c]
    }
}

/// HTML text escaping: `&`, `<` and `>` become entities, every other character stays.
pub open spec fn escaped(s: Seq<char>) -> Seq<char>
    decreases s.len(),
{
    if s.len() == 0 {
        Seq::empty()
    } else {
        escaped(s.drop_last()) + escape_char(s.last())
    }
}

/// Relies on `html_escape::encode_text`, which documents that it replaces
/// exactly `&`, `<` and `>` by their entities.
#[verifier::external_body]
pub(crate) fn escape_text(s: &str) -> (r: String)
    ensures
        r@ == escaped(s@),
{
    html_escape::encode_text(s).into_owned()
}

/// A character that can follow `<` to open an HTML tag (`TAG_NAME_CHAR` of
/// minify-html: ASCII letters and digits, `:` and `-`).
pub open spec fn tag_name_char(c: char) -> bool {
    ('a' <= c && c <= 'z') || ('A' <= c && c <= 'Z') || ('0' <= c && c <= '9') || c == ':' || c
        == '-'
}

/// No `<` in the text opens a tag, so HTML parsing sees no element in it.
pub open spec fn tag_free(s: Seq<char>) -> bool {
    forall|i: int| 0 <= i < s.len() - 1 && s[i] == '<' ==> !tag_name_char(#[trigger] s[i + 1])
}

/// What `minify_html::minify` makes of a text in which no tag opens, with
/// JavaScript and CSS minification switched on as the two flags say, read back
/// as text. Such a text holds no element, so neither the JavaScript nor the CSS
/// minifier runs on it, and the result depends on the text and flags alone.
pub uninterp spec fn minified(code: Seq<char>, js: bool, css: bool) -> Seq<char>;

/// Relies on `minify_html::minify` with a default configuration in which only
/// `minify_js` and `minify_css` are set. It is called only on text in which no
/// tag opens (minify-html parses an opening tag only where `<` is followed by a
/// tag name character): then no element, script or style is parsed, no
/// minifier of JavaScript or CSS runs, and the result is a function of the text.
#[verifier::external_body]
pub(crate) fn minify_code(code: &str, js: bool, css: bool) -> (r: String)
    requires
        tag_free(code@),
    ensures
        r@ == minified(code@, js, css),
{
    let mut cfg = minify_html::Cfg::new();
    cfg.minify_js = js;
    cfg.minify_css = css;
    let out = minify_html::minify(code.as_bytes(), &cfg);
    String::from_utf8_lossy(&out).into_owned()
}

/// Relies on `String::push`: the character is appended.
#[verifier::external_body]
pub(crate) fn push_char(s: &mut String, c: char)
    ensures
        final(s)@ == old(s)@.push(c),
{
    s.push(c)
}

/// Relies on `String::with_capacity`: the string is empty. It panics where the
/// capacity exceeds `isize::MAX` bytes, which `requires` leaves out.
#[verifier::external_body]
pub(crate) fn string_with_capacity(n: usize) -> (r: String)
    requires
        n <= isize::MAX,
    ensures
        r@ == Seq::<char>::empty(),
{
    String::with_capacity(n)
}

#[verifier::external_type_specification]
#[verifier::external_body]
#[verifier::reject_recursive_types(K)]
#[verifier::reject_recursive_types(V)]
#[verifier::reject_recursive_types(S)]
pub struct ExIndexMap<K, V, S>(IndexMap<K, V, S>);

/// The entries of an insertion-ordered map from text keys to positions, in order.
pub uninterp spec fn entries_of(m: IndexMap<String, usize>) -> Seq<(Seq<char>, usize)>;

/// The index of the first entry with key `k`, or the length when there is none.
pub open spec fn key_index(e: Seq<(Seq<char>, usize)>, k: Seq<char>) -> int
    decreases e.len(),
{
    if e.len() == 0 {
        0
    } else if e[0].0 == k {
        0
    } else {
        1 + key_index(e.drop_first(), k)
    }
}

/// The entries after an insert: an existing key keeps its place and takes the
/// new value, a new key goes last.
pub open spec fn entries_inserted(e: Seq<(Seq<char>, usize)>, k: Seq<char>, v: usize) -> Seq<
    (Seq<char>, usize),
> {
    let j = key_index(e, k);
    if j < e.len() {
        e.update(j, (k, v))
    } else {
        e.push((k, v))
    }
}

/// Relies on `IndexMap::new`: the map is empty.
#[verifier::external_body]
pub(crate) fn index_map_new() -> (r: IndexMap<String, usize>)
    ensures
        entries_of(r) == Seq::<(Seq<char>, usize)>::empty(),
{
    IndexMap::new()
}

/// Relies on `IndexMap::insert`, documented to keep an existing key in its place
/// with the new value, and to put a new key last.
#[verifier::external_body]
pub(crate) fn index_map_insert(m: &mut IndexMap<String, usize>, k: String, v: usize)
    ensures
        entries_of(*final(m)) == entries_inserted(entries_of(*old(m)), k@, v),
{
    m.insert(k, v);
}

/// Relies on `IndexMap::len`: the number of entries.
#[verifier::external_body]
pub(crate) fn index_map_len(m: &IndexMap<String, usize>) -> (r: usize)
    ensures
        r == entries_of(*m).len(),
{
    m.len()
}

/// Relies on `IndexMap::get_index`: the entry at position `i`.
#[verifier::external_body]
pub(crate) fn index_map_entry(m: &IndexMap<String, usize>, i: usize) -> (r: (String, usize))
    requires
        i < entries_of(*m).len(),
    ensures
        r.0@ == entries_of(*m)[i as int].0,
        r.1 == entries_of(*m)[i as int].1,
{
    let (k, v) = m.get_index(i).unwrap();
    (k.clone(), *v)
}

#[verifier::external_type_specification]
#[verifier::external_body]
#[verifier::reject_recursive_types(T)]
#[verifier::reject_recursive_types(S)]
pub struct ExIndexSet<T, S>(IndexSet<T, S>);

/// The items of an insertion-ordered set of texts, in order.
pub uninterp spec fn set_items(s: IndexSet<String>) -> Seq<Seq<char>>;

/// Relies on `IndexSet::new`: the set is empty.
#[verifier::external_body]
pub(crate) fn index_set_new() -> (r: IndexSet<String>)
    ensures
        set_items(r) == Seq::<Seq<char>>::empty(),
{
    IndexSet::new()
}

/// Relies on `IndexSet::insert`, documented to return `false` and leave the set
/// as it is when an equal item is there, and else to put the item last and
/// return `true`.
#[verifier::external_body]
pub(crate) fn index_set_insert(s: &mut IndexSet<String>, k: String) -> (r: bool)
    ensures
        r == !set_items(*old(s)).contains(k@),
        r ==> set_items(*final(s)) == set_items(*old(s)).push(k@),
        !r ==> set_items(*final(s)) == set_items(*old(s)),
{
    s.insert(k)
}

/// Relies on `IndexSet::len`: the number of items.
#[verifier::external_body]
pub(crate) fn index_set_len(s: &IndexSet<String>) -> (r: usize)
    ensures
        r == set_items(*s).len(),
{
    s.len()
}

/// Relies on `IndexSet::get_index`: the item at position `i`.
#[verifier::external_body]
pub(crate) fn index_set_item(s: &IndexSet<String>, i: usize) -> (r: String)
    requires
        i < set_items(*s).len(),
    ensures
        r@ == set_items(*s)[i as int],
{
    s.get_index(i).unwrap().clone()
}

} // verus!
