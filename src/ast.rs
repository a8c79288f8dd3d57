//! The template tree after parsing and expansion, the data a template is
//! rendered against, and what a tree renders to.

use vstd::prelude::*;
use crate::attrs::{Attr, AttrVal};
use crate::outside::{escaped, minified, tag_free};

verus! {

/// A value of the data context: a text, or a list of records that a loop walks.
pub enum Value {
    Text(String),
    List(Vec<Vec<Binding>>),
}

/// A named value.
pub struct Binding {
    pub name: String,
    pub value: Value,
}

/// One scope of names: the root context has an empty prefix; the record that a
/// loop visits is seen under the loop variable, as `var.field`.
pub struct Frame<'a> {
    pub prefix: String,
    pub fields: &'a Vec<Binding>,
}

/// The full name under which a field of a scope is seen.
pub open spec fn full_name(prefix: Seq<char>, name: Seq<char>) -> Seq<char> {
    if prefix.len() == 0 {
        name
    } else {
        prefix + seq!['.'] + name
    }
}

/// The last binding of a scope whose full name is `path`.
pub open spec fn find_in(prefix: Seq<char>, fields: Seq<Binding>, path: Seq<char>) -> Option<Value>
    decreases fields.len(),
{
    if fields.len() == 0 {
        None
    } else if full_name(prefix, fields.last().name@) == path {
        Some(fields.last().value)
    } else {
        find_in(prefix, fields.drop_last(), path)
    }
}

/// The scopes of a data context as values: each a prefix and its bindings.
pub open spec fn frames_view(fs: Seq<Frame>) -> Seq<(Seq<char>, Seq<Binding>)> {
    fs.map_values(|f: Frame| (f.prefix@, f.fields@))
}

/// What a path names: the innermost scope that binds it decides.
pub open spec fn lookup(env: Seq<(Seq<char>, Seq<Binding>)>, path: Seq<char>) -> Option<Value>
    decreases env.len(),
{
    if env.len() == 0 {
        None
    } else {
        match find_in(env.last().0, env.last().1, path) {
            Some(v) => Some(v),
            None => lookup(env.drop_last(), path),
        }
    }
}

/// The text that a path names; empty where it names no text.
pub open spec fn text_at(env: Seq<(Seq<char>, Seq<Binding>)>, path: Seq<char>) -> Seq<char> {
    match lookup(env, path) {
        Some(Value::Text(s)) => s@,
        _ => Seq::empty(),
    }
}

/// The records that a path names; none where it names no list.
pub open spec fn items_at(env: Seq<(Seq<char>, Seq<Binding>)>, path: Seq<char>) -> Seq<Vec<Binding>> {
    match lookup(env, path) {
        Some(Value::List(items)) => items@,
        _ => Seq::empty(),
    }
}

/// A side of a comparison: a literal, or a path into the data context.
pub enum Operand {
    Lit(String),
    Path(String),
}

/// A comparison of two operands for equality (`==`) or inequality (`!=`).
pub struct Cond {
    pub lhs: Operand,
    pub equal: bool,
    pub rhs: Operand,
}

pub open spec fn operand_text(o: Operand, env: Seq<(Seq<char>, Seq<Binding>)>) -> Seq<char> {
    match o {
        Operand::Lit(s) => s@,
        Operand::Path(p) => text_at(env, p@),
    }
}

/// Two operands of the same kind with the same text.
pub open spec fn same_operand(a: Operand, b: Operand) -> bool {
    match (a, b) {
        (Operand::Lit(x), Operand::Lit(y)) => x@ == y@,
        (Operand::Path(x), Operand::Path(y)) => x@ == y@,
        _ => false,
    }
}

pub open spec fn same_cond(a: Cond, b: Cond) -> bool {
    same_operand(a.lhs, b.lhs) && a.equal == b.equal && same_operand(a.rhs, b.rhs)
}

impl Operand {
    pub fn copy(&self) -> (r: Operand)
        ensures
            same_operand(r, *self),
    {
        match self {
            Operand::Lit(s) => Operand::Lit(s.clone()),
            Operand::Path(s) => Operand::Path(s.clone()),
        }
    }
}

impl Cond {
    pub fn copy(&self) -> (r: Cond)
        ensures
            same_cond(r, *self),
    {
        Cond { lhs: self.lhs.copy(), equal: self.equal, rhs: self.rhs.copy() }
    }
}

pub open spec fn cond_holds(c: Cond, env: Seq<(Seq<char>, Seq<Binding>)>) -> bool {
    (operand_text(c.lhs, env) == operand_text(c.rhs, env)) == c.equal
}

/// The content of a `script` or `style` element.
pub enum Content {
    Empty,
    Static(String),
    Dynamic(String),
}

/// A branch of a conditional, with the escape marker of its block.
pub struct Branch {
    pub cond: Cond,
    pub body: Vec<Node>,
    pub marker: Option<bool>,
}

/// An arm of a `match`: a literal pattern or `_`, an optional guard, a body,
/// and the escape marker of its block.
pub struct Arm {
    pub pattern: Option<String>,
    pub guard: Option<Cond>,
    pub body: Vec<Node>,
    pub marker: Option<bool>,
}

/// A node of the template tree.
pub enum Node {
    /// Literal text, escaped when `escape` is set; `raw` when written with `!`.
    Text { content: String, escape: bool, raw: bool },
    /// The text at a path of the data context, escaped when `escape` is set;
    /// `raw` when written with `!`.
    Expr { path: String, escape: bool, raw: bool },
    /// An element; without a body it is self-closing. `marker` is its
    /// `escape` (true) or `noescape` (false) marker, if any.
    Element { tag: String, attrs: Vec<Attr>, body: Option<Vec<Node>>, marker: Option<bool> },
    /// The body of the first branch whose condition holds, else `otherwise`.
    If { branches: Vec<Branch>, otherwise: Vec<Node>, otherwise_marker: Option<bool> },
    /// The body once for each record of the list at `source`, seen under `var`.
    For { var: String, source: String, body: Vec<Node>, marker: Option<bool> },
    /// The body of the first arm that matches the subject.
    Match { subject: Operand, arms: Vec<Arm>, marker: Option<bool> },
    /// The expansion of a call of a component or layout; `raw` when written with `!`.
    Call { name: String, body: Vec<Node>, raw: bool },
    /// A script; one with a hoist name renders nowhere but where it is used.
    Script { attrs: Vec<Attr>, content: Content, minify: bool, hoist: Option<String> },
    /// A style sheet.
    Style { attrs: Vec<Attr>, content: Content, minify: bool },
    /// The hoisted script of that name, rendered here.
    ScriptUse { name: String },
}

/// The index of the first branch whose condition holds, or the number of branches.
pub open spec fn first_true(bs: Seq<Branch>, env: Seq<(Seq<char>, Seq<Binding>)>) -> int
    decreases bs.len(),
{
    if bs.len() == 0 {
        0
    } else if cond_holds(bs[0].cond, env) {
        0
    } else {
        1 + first_true(bs.drop_first(), env)
    }
}

pub open spec fn arm_matches(a: Arm, subject: Seq<char>, env: Seq<(Seq<char>, Seq<Binding>)>) -> bool {
    &&& match a.pattern {
        Some(p) => p@ == subject,
        None => true,
    }
    &&& match a.guard {
        Some(g) => cond_holds(g, env),
        None => true,
    }
}

/// The index of the first arm that matches, or the number of arms.
pub open spec fn first_arm(arms: Seq<Arm>, subject: Seq<char>, env: Seq<(Seq<char>, Seq<Binding>)>) -> int
    decreases arms.len(),
{
    if arms.len() == 0 {
        0
    } else if arm_matches(arms[0], subject, env) {
        0
    } else {
        1 + first_arm(arms.drop_first(), subject, env)
    }
}

pub open spec fn quote() -> Seq<char> {
    seq!['"']
}

/// What one attribute renders to: a space, the key, and `="value"` unless it is bare.
pub open spec fn attr_out(a: (Seq<char>, AttrVal), env: Seq<(Seq<char>, Seq<Binding>)>) -> Seq<char> {
    seq![' '] + a.0 + match a.1 {
        AttrVal::Bare => Seq::empty(),
        AttrVal::Lit(v) => seq!['='] + quote() + v + quote(),
        AttrVal::Expr(p) => seq!['='] + quote() + text_at(env, p) + quote(),
    }
}

pub open spec fn attrs_out(attrs: Seq<Attr>, env: Seq<(Seq<char>, Seq<Binding>)>) -> Seq<char>
    decreases attrs.len(),
{
    if attrs.len() == 0 {
        Seq::empty()
    } else {
        attrs_out(attrs.drop_last(), env) + attr_out(attrs.last()@, env)
    }
}

/// The text of a script or style body; `js` and `css` say which minifier applies.
/// A body in which an HTML tag could open is written as it stands.
pub open spec fn content_out(c: Content, minify: bool, js: bool, env: Seq<(Seq<char>, Seq<Binding>)>) -> Seq<char> {
    let raw = match c {
        Content::Empty => Seq::empty(),
        Content::Static(s) => s@,
        Content::Dynamic(p) => text_at(env, p@),
    };
    if minify && !(c is Empty) && tag_free(raw) {
        minified(raw, js, !js)
    } else {
        raw
    }
}

pub open spec fn open_tag(tag: Seq<char>) -> Seq<char> {
    seq!['<'] + tag
}

pub open spec fn close_tag(tag: Seq<char>) -> Seq<char> {
    seq!['<', '/'] + tag + seq!['>']
}

/// The markup of a script or style element, wherever it is rendered.
pub open spec fn raw_text_out(
    tag: Seq<char>,
    attrs: Seq<Attr>,
    c: Content,
    minify: bool,
    js: bool,
    env: Seq<(Seq<char>, Seq<Binding>)>,
) -> Seq<char> {
    open_tag(tag) + attrs_out(attrs, env) + seq!['>'] + content_out(c, minify, js, env) + close_tag(
        tag,
    )
}

pub open spec fn script_tag() -> Seq<char> {
    seq!['s', 'c', 'r', 'i', 'p', 't']
}

pub open spec fn style_tag() -> Seq<char> {
    seq!['s', 't', 'y', 'l', 'e']
}

/// The hoisted scripts and the script uses of a sequence of nodes, in
/// document order.
pub open spec fn events(ns: Seq<Node>) -> Seq<Node>
    decreases ns, 0nat,
{
    if ns.len() == 0 {
        Seq::empty()
    } else {
        events(ns.drop_last()) + node_events(ns.last())
    }
}

/// The hoisted scripts and the script uses within one node, itself included.
pub open spec fn node_events(n: Node) -> Seq<Node>
    decreases n, 0nat,
{
    match n {
        Node::Script { hoist: Some(_), .. } => seq![n],
        Node::ScriptUse { .. } => seq![n],
        Node::Element { body: Some(b), .. } => events(b@),
        Node::For { body, .. } => events(body@),
        Node::Call { body, .. } => events(body@),
        Node::If { branches, otherwise, .. } => branch_events(branches@) + events(otherwise@),
        Node::Match { arms, .. } => arm_events(arms@),
        _ => Seq::empty(),
    }
}

pub open spec fn branch_events(bs: Seq<Branch>) -> Seq<Node>
    decreases bs, 0nat,
{
    if bs.len() == 0 {
        Seq::empty()
    } else {
        branch_events(bs.drop_last()) + events(bs.last().body@)
    }
}

pub open spec fn arm_events(arms: Seq<Arm>) -> Seq<Node>
    decreases arms, 0nat,
{
    if arms.len() == 0 {
        Seq::empty()
    } else {
        arm_events(arms.drop_last()) + events(arms.last().body@)
    }
}

/// Scanning events from the front with `cur` the last script hoisted under
/// `name` so far: the script in force when the first use of `name` comes.
pub open spec fn chosen(ev: Seq<Node>, name: Seq<char>, cur: Option<Node>) -> Option<Node>
    decreases ev.len(),
{
    if ev.len() == 0 {
        cur
    } else {
        match ev[0] {
            Node::Script { hoist: Some(h), .. } => chosen(
                ev.drop_first(),
                name,
                if h@ == name {
                    Some(ev[0])
                } else {
                    cur
                },
            ),
            Node::ScriptUse { name: u } => if u@ == name {
                cur
            } else {
                chosen(ev.drop_first(), name, cur)
            },
            _ => chosen(ev.drop_first(), name, cur),
        }
    }
}

/// The script that uses of `name` render: the last one hoisted under that name
/// before the first use of the name, in document order.
pub open spec fn hoisted_for(root: Seq<Node>, name: Seq<char>) -> Option<Node> {
    chosen(events(root), name, None)
}

/// What a hoisted script renders to where it is used.
pub open spec fn hoisted_out(s: Option<Node>, env: Seq<(Seq<char>, Seq<Binding>)>) -> Seq<char> {
    match s {
        Some(Node::Script { attrs, content, minify, .. }) => raw_text_out(
            script_tag(),
            attrs@,
            content,
            minify,
            true,
            env,
        ),
        _ => Seq::empty(),
    }
}

/// What a sequence of nodes renders to in a data context; `root` is the whole
/// tree, where hoisted scripts are looked up.
pub open spec fn nodes_out(ns: Seq<Node>, env: Seq<(Seq<char>, Seq<Binding>)>, root: Seq<Node>) -> Seq<char>
    decreases ns, 0nat, 0nat,
{
    if ns.len() == 0 {
        Seq::empty()
    } else {
        nodes_out(ns.drop_last(), env, root) + node_out(ns.last(), env, root)
    }
}

/// What one node renders to.
pub open spec fn node_out(n: Node, env: Seq<(Seq<char>, Seq<Binding>)>, root: Seq<Node>) -> Seq<char>
    decreases n, 0nat, 0nat,
{
    match n {
        Node::Text { content, escape, .. } => if escape {
            escaped(content@)
        } else {
            content@
        },
        Node::Expr { path, escape, .. } => if escape {
            escaped(text_at(env, path@))
        } else {
            text_at(env, path@)
        },
        Node::Element { tag, attrs, body, .. } => open_tag(tag@) + attrs_out(attrs@, env) + match body {
            Some(b) => seq!['>'] + nodes_out(b@, env, root) + close_tag(tag@),
            None => seq!['/', '>'],
        },
        Node::If { branches, otherwise, .. } => {
            let i = first_true(branches@, env);
            if 0 <= i < branches@.len() {
                nodes_out(branches@[i].body@, env, root)
            } else {
                nodes_out(otherwise@, env, root)
            }
        },
        Node::For { var, source, body, .. } => loop_out(body@, var@, items_at(env, source@), env, root),
        Node::Match { subject, arms, .. } => {
            let i = first_arm(arms@, operand_text(subject, env), env);
            if 0 <= i < arms@.len() {
                nodes_out(arms@[i].body@, env, root)
            } else {
                Seq::empty()
            }
        },
        Node::Script { attrs, content, minify, hoist } => match hoist {
            Some(_) => Seq::empty(),
            None => raw_text_out(script_tag(), attrs@, content, minify, true, env),
        },
        Node::Style { attrs, content, minify } => raw_text_out(
            style_tag(),
            attrs@,
            content,
            minify,
            false,
            env,
        ),
        Node::ScriptUse { name } => hoisted_out(hoisted_for(root, name@), env),
        Node::Call { body, .. } => nodes_out(body@, env, root),
    }
}

/// The body once for each record, each seen under the loop variable.
pub open spec fn loop_out(
    body: Seq<Node>,
    var: Seq<char>,
    items: Seq<Vec<Binding>>,
    env: Seq<(Seq<char>, Seq<Binding>)>,
    root: Seq<Node>,
) -> Seq<char>
    decreases body, 1nat, items.len(),
{
    if items.len() == 0 {
        Seq::empty()
    } else {
        loop_out(body, var, items.drop_last(), env, root) + nodes_out(
            body,
            env.push((var, items.last()@)),
            root,
        )
    }
}

/// The escape setting of a block: its marker where it has one, else the one it inherits.
pub open spec fn block_esc(marker: Option<bool>, inherited: bool) -> bool {
    match marker {
        Some(m) => m,
        None => inherited,
    }
}

/// The escape flags of a sequence of nodes parsed in escape setting `e`, where
/// escaping is available when `cap` holds, follow the rules: text and
/// expressions are escaped exactly when the setting is on and they are not
/// marked `!`; a block takes its own marker or inherits, and escaping stays off
/// where it is not available; the body of a call is parsed in the setting of the
/// call.
pub open spec fn escape_ok(ns: Seq<Node>, e: bool, cap: bool) -> bool
    decreases ns, 0nat,
{
    if ns.len() == 0 {
        true
    } else {
        escape_ok(ns.drop_last(), e, cap) && node_escape_ok(ns.last(), e, cap)
    }
}

/// The setting inside a block with marker `marker` in setting `e`.
pub open spec fn inner_esc(marker: Option<bool>, e: bool, cap: bool) -> bool {
    block_esc(marker, e) && cap
}

pub open spec fn node_escape_ok(n: Node, e: bool, cap: bool) -> bool
    decreases n, 0nat,
{
    match n {
        Node::Text { escape, raw, .. } => escape == (e && !raw),
        Node::Expr { escape, raw, .. } => escape == (e && !raw),
        Node::Element { body, marker, .. } => match body {
            Some(b) => escape_ok(b@, inner_esc(marker, e, cap), cap),
            None => true,
        },
        Node::If { branches, otherwise, otherwise_marker } => branches_escape_ok(
            branches@,
            e,
            cap,
        ) && escape_ok(otherwise@, inner_esc(otherwise_marker, e, cap), cap),
        Node::For { body, marker, .. } => escape_ok(body@, inner_esc(marker, e, cap), cap),
        Node::Match { arms, marker, .. } => arms_escape_ok(arms@, inner_esc(marker, e, cap), cap),
        Node::Call { body, raw, .. } => escape_ok(body@, e && !raw, cap),
        _ => true,
    }
}

pub open spec fn branches_escape_ok(bs: Seq<Branch>, e: bool, cap: bool) -> bool
    decreases bs, 0nat,
{
    if bs.len() == 0 {
        true
    } else {
        branches_escape_ok(bs.drop_last(), e, cap) && escape_ok(
            bs.last().body@,
            inner_esc(bs.last().marker, e, cap),
            cap,
        )
    }
}

pub open spec fn arms_escape_ok(arms: Seq<Arm>, e: bool, cap: bool) -> bool
    decreases arms, 0nat,
{
    if arms.len() == 0 {
        true
    } else {
        arms_escape_ok(arms.drop_last(), e, cap) && escape_ok(
            arms.last().body@,
            inner_esc(arms.last().marker, e, cap),
            cap,
        )
    }
}

/// An operand as a value: whether it is a literal, and its text.
pub open spec fn operand_view(o: Operand) -> (bool, Seq<char>) {
    match o {
        Operand::Lit(s) => (true, s@),
        Operand::Path(p) => (false, p@),
    }
}

/// A comparison as a value: its operands, and whether it tests equality.
pub open spec fn cond_view(c: Cond) -> ((bool, Seq<char>), bool, (bool, Seq<char>)) {
    (operand_view(c.lhs), c.equal, operand_view(c.rhs))
}

/// The content of a `script` or `style` element as a value.
pub enum ContentV {
    Empty,
    Static(Seq<char>),
    Dynamic(Seq<char>),
}

pub open spec fn content_view(c: Content) -> ContentV {
    match c {
        Content::Empty => ContentV::Empty,
        Content::Static(s) => ContentV::Static(s@),
        Content::Dynamic(p) => ContentV::Dynamic(p@),
    }
}

/// A node of the template tree as a value.
pub enum NodeV {
    Text { content: Seq<char>, escape: bool, raw: bool },
    Expr { path: Seq<char>, escape: bool, raw: bool },
    Element {
        tag: Seq<char>,
        attrs: Seq<(Seq<char>, AttrVal)>,
        body: Option<Seq<NodeV>>,
        marker: Option<bool>,
    },
    If { branches: Seq<BranchV>, otherwise: Seq<NodeV>, otherwise_marker: Option<bool> },
    For { var: Seq<char>, source: Seq<char>, body: Seq<NodeV>, marker: Option<bool> },
    Match { subject: (bool, Seq<char>), arms: Seq<ArmV>, marker: Option<bool> },
    Script {
        attrs: Seq<(Seq<char>, AttrVal)>,
        content: ContentV,
        minify: bool,
        hoist: Option<Seq<char>>,
    },
    Style { attrs: Seq<(Seq<char>, AttrVal)>, content: ContentV, minify: bool },
    ScriptUse { name: Seq<char> },
    Call { name: Seq<char>, body: Seq<NodeV>, raw: bool },
}

/// A branch of a conditional as a value.
pub struct BranchV {
    pub cond: ((bool, Seq<char>), bool, (bool, Seq<char>)),
    pub body: Seq<NodeV>,
    pub marker: Option<bool>,
}

/// An arm of a `match` as a value.
pub struct ArmV {
    pub pattern: Option<Seq<char>>,
    pub guard: Option<((bool, Seq<char>), bool, (bool, Seq<char>))>,
    pub body: Seq<NodeV>,
    pub marker: Option<bool>,
}

/// The values of a sequence of nodes.
pub open spec fn nodes_v(ns: Seq<Node>) -> Seq<NodeV>
    decreases ns, 0nat,
{
    if ns.len() == 0 {
        Seq::empty()
    } else {
        nodes_v(ns.drop_last()).push(node_v(ns.last()))
    }
}

/// The value of a node.
pub open spec fn node_v(n: Node) -> NodeV
    decreases n, 0nat,
{
    match n {
        Node::Text { content, escape, raw } => NodeV::Text { content: content@, escape, raw },
        Node::Expr { path, escape, raw } => NodeV::Expr { path: path@, escape, raw },
        Node::Element { tag, attrs, body, marker } => NodeV::Element {
            tag: tag@,
            attrs: crate::attrs::attrs_view(attrs@),
            body: match body {
                Some(b) => Some(nodes_v(b@)),
                None => None,
            },
            marker,
        },
        Node::If { branches, otherwise, otherwise_marker } => NodeV::If {
            branches: branches_v(branches@),
            otherwise: nodes_v(otherwise@),
            otherwise_marker,
        },
        Node::For { var, source, body, marker } => NodeV::For {
            var: var@,
            source: source@,
            body: nodes_v(body@),
            marker,
        },
        Node::Match { subject, arms, marker } => NodeV::Match {
            subject: operand_view(subject),
            arms: arms_v(arms@),
            marker,
        },
        Node::Script { attrs, content, minify, hoist } => NodeV::Script {
            attrs: crate::attrs::attrs_view(attrs@),
            content: content_view(content),
            minify,
            hoist: match hoist {
                Some(h) => Some(h@),
                None => None,
            },
        },
        Node::Style { attrs, content, minify } => NodeV::Style {
            attrs: crate::attrs::attrs_view(attrs@),
            content: content_view(content),
            minify,
        },
        Node::ScriptUse { name } => NodeV::ScriptUse { name: name@ },
        Node::Call { name, body, raw } => NodeV::Call { name: name@, body: nodes_v(body@), raw },
    }
}

pub open spec fn branches_v(bs: Seq<Branch>) -> Seq<BranchV>
    decreases bs, 0nat,
{
    if bs.len() == 0 {
        Seq::empty()
    } else {
        branches_v(bs.drop_last()).push(
            BranchV {
                cond: cond_view(bs.last().cond),
                body: nodes_v(bs.last().body@),
                marker: bs.last().marker,
            },
        )
    }
}

pub open spec fn arms_v(arms: Seq<Arm>) -> Seq<ArmV>
    decreases arms, 0nat,
{
    if arms.len() == 0 {
        Seq::empty()
    } else {
        arms_v(arms.drop_last()).push(
            ArmV {
                pattern: match arms.last().pattern {
                    Some(p) => Some(p@),
                    None => None,
                },
                guard: match arms.last().guard {
                    Some(g) => Some(cond_view(g)),
                    None => None,
                },
                body: nodes_v(arms.last().body@),
                marker: arms.last().marker,
            },
        )
    }
}

} // verus!
