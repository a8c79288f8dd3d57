//! Compiling templates: source text is parsed against the definitions, planned,
//! and rendered.

use vstd::prelude::*;
use crate::ast::{Binding, Node, escape_ok, nodes_out, nodes_v};
use crate::component::Templates;
use crate::error::{Error, ErrorKind};
use crate::grammar::{def_at, def_view, dup_props, template_of};
use crate::lexer::{Token, lex, tokenize, toks_view};
use crate::parser::{MAX_DEPTH, parse_children};
use crate::plan::{Plan, Scopes, batched, plan, run_ops};
use crate::render::{Origami, root_scope};

verus! {

/// The nodes of a template.
pub struct Children {
    pub nodes: Vec<Node>,
}

impl Children {
    /// Parses template source against the definitions; calls are expanded.
    /// Text starts out escaped where the definitions have escaping on.
    pub fn parse(lib: &Templates, src: &str) -> (r: Result<Children, Error>)
        ensures
            r is Ok <==> (lex(src@) matches Some(tv) && template_of(*lib, tv) is Some),
            r is Ok ==> (lex(src@) matches Some(tv) && template_of(*lib, tv) == Some(
                nodes_v(r->Ok_0.nodes@),
            )),
            lex(src@) is None ==> r is Err && r->Err_0.kind == ErrorKind::UnterminatedString,
            r is Ok ==> escape_ok(r->Ok_0.nodes@, lib.escaping, lib.escaping),
    {
        let ts = tokenize(src)?;
        Children::parse_tokens(lib, &ts)
    }

    /// Parses template tokens against the definitions: exactly the nodes that
    /// the grammar gives (`template_of`), and an error where it gives none.
    pub fn parse_tokens(lib: &Templates, ts: &Vec<Token>) -> (r: Result<Children, Error>)
        ensures
            r is Ok <==> template_of(*lib, toks_view(ts@)) is Some,
            r is Ok ==> template_of(*lib, toks_view(ts@)) == Some(nodes_v(r->Ok_0.nodes@)),
            r is Ok ==> escape_ok(r->Ok_0.nodes@, lib.escaping, lib.escaping),
    {
        let (nodes, _) = parse_children(lib, ts, 0, lib.escaping, false, MAX_DEPTH)?;
        Ok(Children { nodes })
    }
}

/// A compiled template: its nodes and the plan that renders them.
pub struct Anon {
    pub nodes: Vec<Node>,
    pub plan: Plan,
}

impl Anon {
    /// The plan renders exactly what the nodes render to, in every data context,
    /// and batches its static text.
    pub open spec fn wf(&self) -> bool {
        &&& batched(self.plan.ops@)
        &&& forall|env: Scopes| #[trigger]
            run_ops(self.plan.ops@, env) == nodes_out(self.nodes@, env, self.nodes@)
    }

    /// Renders the template against the bindings of a data context.
    pub fn render(&self, ctx: &Vec<Binding>, capacity: Option<usize>) -> (r: Origami)
        requires
            self.wf(),
        ensures
            r.0@ == nodes_out(self.nodes@, root_scope(ctx@), self.nodes@),
    {
        self.plan.render(ctx, capacity)
    }
}

/// Compiles a template from source against the definitions.
pub fn anon(lib: &Templates, src: &str) -> (r: Result<Anon, Error>)
    ensures
        r is Ok <==> (lex(src@) matches Some(tv) && template_of(*lib, tv) is Some),
        r is Ok ==> (lex(src@) matches Some(tv) && template_of(*lib, tv) == Some(
            nodes_v(r->Ok_0.nodes@),
        )),
        lex(src@) is None ==> r is Err && r->Err_0.kind == ErrorKind::UnterminatedString,
        r is Ok ==> r->Ok_0.wf(),
        r is Ok ==> escape_ok(r->Ok_0.nodes@, lib.escaping, lib.escaping),
{
    let children = Children::parse(lib, src)?;
    let p = plan(&children.nodes);
    Ok(Anon { nodes: children.nodes, plan: p })
}

/// Adds a component, layout or extending template to the definitions.
pub fn comp(lib: &mut Templates, src: &str) -> (r: Result<(), Error>)
    ensures
        r is Ok ==> final(lib).components@.len() == old(lib).components@.len() + 1
            && final(lib).components@.drop_last() == old(lib).components@,
        r is Ok <==> (lex(src@) matches Some(tv) && def_at(tv) matches Some(d) && forall|k: int|
            0 <= k < old(lib).components@.len() ==> old(lib).components@[k].name@ != d.0),
        r is Ok ==> (lex(src@) matches Some(tv) && def_at(tv) == Some(
            def_view(final(lib).components@.last()),
        )),
        lex(src@) is None ==> r is Err && r->Err_0.kind == ErrorKind::UnterminatedString,
        (lex(src@) matches Some(tv) && dup_props(tv)) ==> r is Err && r->Err_0.kind
            == ErrorKind::DuplicateProp,
        r is Err ==> final(lib).components@ == old(lib).components@,
        old(lib).names_unique() ==> final(lib).names_unique(),
{
    lib.define(src)
}

} // verus!
