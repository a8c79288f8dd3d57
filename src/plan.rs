//! The emission plan: a template tree becomes a sequence of write operations in
//! which every run of static text is one batched write, with escaping and
//! minification of static text done once, here.

use vstd::prelude::*;
use crate::ast::{
    Arm, Binding, Branch, Cond, Content, Node, Operand, arm_matches, attrs_out, close_tag,
    cond_holds, content_out, first_arm, first_true, hoisted_out, items_at, loop_out, node_out,
    nodes_out, open_tag, operand_text, quote, raw_text_out, same_cond, same_operand, script_tag,
    style_tag, text_at, events, node_events, branch_events, arm_events, chosen, hoisted_for,
};
use crate::attrs::{Attr, AttrVal, AttributeValue, attrs_view};
use crate::outside::{escape_text, escaped, minified, minify_code, push_char, tag_free};
use crate::render::check_tag_free;

verus! {

pub type Scopes = Seq<(Seq<char>, Seq<Binding>)>;

pub broadcast proof fn lemma_concat_empty(a: Seq<char>)
    ensures
        #[trigger] (a + Seq::<char>::empty()) == a,
        #[trigger] (Seq::<char>::empty() + a) == a,
{
    assert(a + Seq::<char>::empty() =~= a);
    assert(Seq::<char>::empty() + a =~= a);
}

/// One write operation.
pub enum Op {
    /// Static text, written as it stands.
    Write(String),
    /// The text at a path, escaped when `escape` is set.
    Value { path: String, escape: bool },
    /// The text at a path as a script (`js`) or style body, minified when `minify` is set.
    Code { path: String, minify: bool, js: bool },
    /// The operations of the first branch whose condition holds, else `otherwise`.
    If { branches: Vec<OpBranch>, otherwise: Vec<Op> },
    /// The body once for each record of the list at `source`, seen under `var`.
    For { var: String, source: String, body: Vec<Op> },
    /// The operations of the first arm that matches the subject.
    Match { subject: Operand, arms: Vec<OpArm> },
}

pub struct OpBranch {
    pub cond: Cond,
    pub body: Vec<Op>,
}

pub struct OpArm {
    pub pattern: Option<String>,
    pub guard: Option<Cond>,
    pub body: Vec<Op>,
}

pub open spec fn first_true_op(bs: Seq<OpBranch>, env: Scopes) -> int
    decreases bs.len(),
{
    if bs.len() == 0 {
        0
    } else if cond_holds(bs[0].cond, env) {
        0
    } else {
        1 + first_true_op(bs.drop_first(), env)
    }
}

pub open spec fn op_arm_matches(a: OpArm, subject: Seq<char>, env: Scopes) -> bool {
    &&& match a.pattern {
        Some(p) => p@ == subject,
        None => true,
    }
    &&& match a.guard {
        Some(g) => cond_holds(g, env),
        None => true,
    }
}

pub open spec fn first_op_arm(arms: Seq<OpArm>, subject: Seq<char>, env: Scopes) -> int
    decreases arms.len(),
{
    if arms.len() == 0 {
        0
    } else if op_arm_matches(arms[0], subject, env) {
        0
    } else {
        1 + first_op_arm(arms.drop_first(), subject, env)
    }
}

/// What a sequence of operations writes in a data context.
pub open spec fn run_ops(ops: Seq<Op>, env: Scopes) -> Seq<char>
    decreases ops, 0nat, 0nat,
{
    if ops.len() == 0 {
        Seq::empty()
    } else {
        run_ops(ops.drop_last(), env) + run_op(ops.last(), env)
    }
}

/// What one operation writes.
pub open spec fn run_op(op: Op, env: Scopes) -> Seq<char>
    decreases op, 0nat, 0nat,
{
    match op {
        Op::Write(s) => s@,
        Op::Value { path, escape } => if escape {
            escaped(text_at(env, path@))
        } else {
            text_at(env, path@)
        },
        Op::Code { path, minify, js } => if minify && tag_free(text_at(env, path@)) {
            minified(text_at(env, path@), js, !js)
        } else {
            text_at(env, path@)
        },
        Op::If { branches, otherwise } => {
            let i = first_true_op(branches@, env);
            if 0 <= i < branches@.len() {
                run_ops(branches@[i].body@, env)
            } else {
                run_ops(otherwise@, env)
            }
        },
        Op::For { var, source, body } => run_loop(body@, var@, items_at(env, source@), env),
        Op::Match { subject, arms } => {
            let i = first_op_arm(arms@, operand_text(subject, env), env);
            if 0 <= i < arms@.len() {
                run_ops(arms@[i].body@, env)
            } else {
                Seq::empty()
            }
        },
    }
}

pub open spec fn run_loop(body: Seq<Op>, var: Seq<char>, items: Seq<Vec<Binding>>, env: Scopes) -> Seq<
    char,
>
    decreases body, 1nat, items.len(),
{
    if items.len() == 0 {
        Seq::empty()
    } else {
        run_loop(body, var, items.drop_last(), env) + run_ops(body, env.push((var, items.last()@)))
    }
}

/// The operation is no empty write.
pub open spec fn nonempty_write(op: Op) -> bool {
    op is Write ==> op->Write_0@.len() > 0
}

/// The operations at `i` and `i + 1` are not both writes.
pub open spec fn apart(ops: Seq<Op>, i: int) -> bool {
    !(ops[i] is Write && ops[i + 1] is Write)
}

/// Runs of static text are batched: no write is empty and no two writes are adjacent.
pub open spec fn batched(ops: Seq<Op>) -> bool {
    &&& forall|i: int| 0 <= i < ops.len() ==> nonempty_write(#[trigger] ops[i])
    &&& forall|i: int| 0 <= i < ops.len() - 1 ==> #[trigger] apart(ops, i)
}

proof fn lemma_batched_push(ops: Seq<Op>, op: Op)
    requires
        batched(ops),
        nonempty_write(op),
        open_end(ops) || !(op is Write),
    ensures
        batched(ops.push(op)),
{
    let q = ops.push(op);
    assert forall|i: int| 0 <= i < q.len() implies nonempty_write(#[trigger] q[i]) by {
        if i < ops.len() {
            assert(q[i] == ops[i]);
        }
    }
    assert forall|i: int| 0 <= i < q.len() - 1 implies #[trigger] apart(q, i) by {
        assert(q[i] == ops[i]);
        if i < ops.len() - 1 {
            assert(apart(ops, i));
            assert(q[i + 1] == ops[i + 1]);
        }
    }
}

/// The operations do not end in a write, so static text may follow.
pub open spec fn open_end(ops: Seq<Op>) -> bool {
    ops.len() == 0 || !(ops.last() is Write)
}

/// What has been planned so far writes: the operations, then the pending static text.
pub open spec fn emitted(ops: Seq<Op>, pending: Seq<char>, env: Scopes) -> Seq<char> {
    run_ops(ops, env) + pending
}

/// `out2` is `out1` with the pending text `acc1` written out as one batch (when
/// there is any), then exactly one more operation.
pub open spec fn flushed_then_one(out1: Seq<Op>, acc1: Seq<char>, out2: Seq<Op>) -> bool {
    if acc1.len() == 0 {
        out2.len() == out1.len() + 1 && out2.subrange(0, out1.len() as int) == out1
    } else {
        &&& out2.len() == out1.len() + 2
        &&& out2.subrange(0, out1.len() as int) == out1
        &&& out2[out1.len() as int] is Write
        &&& out2[out1.len() as int]->Write_0@ == acc1
    }
}

/// Writes out the pending static text as one batch.
fn flush(acc: &mut String, out: &mut Vec<Op>)
    requires
        batched(old(out)@),
        open_end(old(out)@),
    ensures
        batched(final(out)@),
        final(acc)@.len() == 0,
        forall|env: Scopes| #[trigger]
            run_ops(final(out)@, env) == emitted(old(out)@, old(acc)@, env),
        final(out)@.len() > 0 && old(acc)@.len() == 0 ==> open_end(final(out)@),
        final(out)@.len() == 0 ==> old(out)@.len() == 0,
        old(acc)@.len() == 0 ==> final(out)@ == old(out)@,
        old(acc)@.len() > 0 ==> final(out)@.len() == old(out)@.len() + 1 && final(out)@.drop_last()
            == old(out)@ && final(out)@.last() is Write && final(out)@.last()->Write_0@ == old(acc)@,
{
    broadcast use lemma_concat_empty;

    if !acc.as_str().is_empty() {
        let s = acc.clone();
        *acc = String::new();
        let ghost before = out@;
        let ghost w = Op::Write(s);
        proof {
            lemma_batched_push(before, w);
        }
        out.push(Op::Write(s));
        assert(out@.drop_last() == before);
        assert(out@.last() == w);
        assert(s@ == old(acc)@);
        assert forall|env: Scopes| #[trigger]
            run_ops(out@, env) == emitted(before, old(acc)@, env) by {
            assert(out@.drop_last() == before);
            assert(run_ops(out@, env) == run_ops(before, env) + run_op(w, env));
        }
    }
}

/// Flushes the pending text, then appends a dynamic operation.
fn push_dynamic(acc: &mut String, out: &mut Vec<Op>, op: Op)
    requires
        batched(old(out)@),
        open_end(old(out)@),
        !(op is Write),
    ensures
        batched(final(out)@),
        open_end(final(out)@),
        final(acc)@.len() == 0,
        flushed_then_one(old(out)@, old(acc)@, final(out)@),
        final(out)@.last() == op,
        forall|env: Scopes| #[trigger]
            emitted(final(out)@, final(acc)@, env) == emitted(old(out)@, old(acc)@, env) + run_op(
                op,
                env,
            ),
{
    broadcast use lemma_concat_empty;

    flush(acc, out);
    let ghost mid = out@;
    let ghost op_v = op;
    proof {
        lemma_batched_push(mid, op_v);
    }
    out.push(op);
    assert(out@.drop_last() == mid);
    assert(out@.subrange(0, old(out)@.len() as int) =~= old(out)@) by {
        if old(acc)@.len() > 0 {
            assert(mid.drop_last() == old(out)@);
        }
    }
    assert forall|env: Scopes| #[trigger]
        emitted(out@, acc@, env) == emitted(old(out)@, old(acc)@, env) + run_op(op_v, env) by {
        assert(out@.drop_last() == mid);
        assert(out@.last() == op_v);
        assert(run_ops(out@, env) == run_ops(mid, env) + run_op(op_v, env));
        assert(run_ops(mid, env) == emitted(old(out)@, old(acc)@, env));
    }
}

/// Appends a string to the pending text.
fn add_text(acc: &mut String, s: &str)
    ensures
        final(acc)@ == old(acc)@ + s@,
{
    acc.append(s);
}

fn add_char(acc: &mut String, c: char)
    ensures
        final(acc)@ == old(acc)@.push(c),
{
    push_char(acc, c);
}

/// No attribute has a value that is looked up when rendering.
pub open spec fn static_attrs(attrs: Seq<Attr>) -> bool {
    forall|i: int| 0 <= i < attrs.len() ==> !((#[trigger] attrs[i]).value is Expr)
}

/// Plans the attributes of an element. Static attributes only extend the
/// pending text.
#[verifier::rlimit(50)]
fn plan_attrs(attrs: &Vec<Attr>, acc: &mut String, out: &mut Vec<Op>)
    requires
        batched(old(out)@),
        open_end(old(out)@),
    ensures
        batched(final(out)@),
        open_end(final(out)@),
        forall|env: Scopes| #[trigger]
            emitted(final(out)@, final(acc)@, env) == emitted(old(out)@, old(acc)@, env)
                + attrs_out(attrs@, env),
    static_attrs(attrs@) ==> final(out)@ == old(out)@,
{
    broadcast use lemma_concat_empty;

    let n = attrs.len();
    let mut i: usize = 0;
    while i < n
        invariant
            n == attrs@.len(),
            i <= n,
            batched(out@),
            open_end(out@),
            forall|env: Scopes| #[trigger]
                emitted(out@, acc@, env) == emitted(old(out)@, old(acc)@, env) + attrs_out(
                    attrs@.take(i as int),
                    env,
                ),
            static_attrs(attrs@) ==> out@ == old(out)@,
        decreases n - i,
    {
        let a = &attrs[i];
        let ghost out0 = out@;
        let ghost acc0 = acc@;
        add_char(acc, ' ');
        add_text(acc, a.key.as_str());
        match &a.value {
            AttributeValue::Bare => {},
            AttributeValue::Lit(v) => {
                add_char(acc, '=');
                add_char(acc, '"');
                add_text(acc, v.as_str());
                add_char(acc, '"');
            },
            AttributeValue::Expr(p) => {
                add_char(acc, '=');
                add_char(acc, '"');
                let ghost acc1 = acc@;
                let op = Op::Value { path: p.clone(), escape: false };
                let ghost op_v = op;
                push_dynamic(acc, out, op);
                let ghost out2 = out@;
                assert(acc@ =~= Seq::<char>::empty());
                add_char(acc, '"');
                proof {
                    assert forall|env: Scopes| #[trigger]
                        emitted(out@, acc@, env) == emitted(out0, acc0, env)
                            + crate::ast::attr_out(a@, env) by {
                        assert(emitted(out2, Seq::empty(), env) == emitted(out0, acc1, env)
                            + run_op(op_v, env));
                        assert(run_op(op_v, env) == text_at(env, p@));
                        assert(emitted(out@, acc@, env) =~= emitted(out2, Seq::empty(), env)
                            + seq!['"']);
                        assert(acc1 =~= acc0 + seq![' '] + a.key@ + seq!['=', '"']);
                        assert(crate::ast::attr_out(a@, env) =~= seq![' '] + a.key@ + (seq![
                            '=',
                        ] + quote() + text_at(env, p@) + quote()));
                        assert(emitted(out@, acc@, env) =~= emitted(out0, acc0, env)
                            + crate::ast::attr_out(a@, env));
                    }
                }
            },
        }
        proof {
            assert(attrs@.take(i + 1).drop_last() =~= attrs@.take(i as int));
            assert forall|env: Scopes| #[trigger]
                emitted(out@, acc@, env) == emitted(out0, acc0, env) + crate::ast::attr_out(
                    a@,
                    env,
                ) by {
                reveal_with_fuel(run_ops, 2);
                assert(seq!['"'] =~= quote());
                match &a.value {
                    AttributeValue::Bare => {
                        assert(acc@ =~= acc0 + crate::ast::attr_out(a@, env));
                    },
                    AttributeValue::Lit(v) => {
                        assert(acc@ =~= acc0 + crate::ast::attr_out(a@, env));
                    },
                    AttributeValue::Expr(p) => {},
                }
            }
        }
        i = i + 1;
    }
    assert(attrs@.take(n as int) =~= attrs@);
}

/// Plans `<tag` and the attributes.
fn plan_start_tag(tag: &str, attrs: &Vec<Attr>, acc: &mut String, out: &mut Vec<Op>)
    requires
        batched(old(out)@),
        open_end(old(out)@),
    ensures
        batched(final(out)@),
        open_end(final(out)@),
        forall|env: Scopes| #[trigger]
            emitted(final(out)@, final(acc)@, env) == emitted(old(out)@, old(acc)@, env) + open_tag(
                tag@,
            ) + attrs_out(attrs@, env),
    static_attrs(attrs@) ==> final(out)@ == old(out)@,
{
    let ghost out0 = out@;
    let ghost acc0 = acc@;
    add_char(acc, '<');
    add_text(acc, tag);
    let ghost acc_t = acc@;
    assert(acc_t =~= acc0 + open_tag(tag@));
    plan_attrs(attrs, acc, out);
    assert forall|env: Scopes| #[trigger]
        emitted(out@, acc@, env) == emitted(out0, acc0, env) + open_tag(tag@) + attrs_out(
            attrs@,
            env,
        ) by {
        assert(emitted(out@, acc@, env) == emitted(out0, acc_t, env) + attrs_out(attrs@, env));
        assert(emitted(out0, acc_t, env) =~= emitted(out0, acc0, env) + open_tag(tag@));
        assert(emitted(out@, acc@, env) =~= emitted(out0, acc0, env) + open_tag(tag@) + attrs_out(
            attrs@,
            env,
        ));
    }
}

/// Plans the body of a `script` (`js`) or `style` element.
fn plan_content(content: &Content, minify: bool, js: bool, acc: &mut String, out: &mut Vec<Op>)
    requires
        batched(old(out)@),
        open_end(old(out)@),
    ensures
        batched(final(out)@),
        open_end(final(out)@),
        forall|env: Scopes| #[trigger]
            emitted(final(out)@, final(acc)@, env) == emitted(old(out)@, old(acc)@, env)
                + content_out(*content, minify, js, env),
    !(*content is Dynamic) ==> final(out)@ == old(out)@,
{
    broadcast use lemma_concat_empty;

    let ghost out1 = out@;
    let ghost acc1 = acc@;
    match content {
        Content::Empty => {},
        Content::Static(text) => {
            if minify && check_tag_free(text.as_str()) {
                let m = minify_code(text.as_str(), js, !js);
                add_text(acc, m.as_str());
            } else {
                add_text(acc, text.as_str());
            }
        },
        Content::Dynamic(p) => {
            push_dynamic(acc, out, Op::Code { path: p.clone(), minify, js });
        },
    }
    assert forall|env: Scopes| #[trigger] emitted(out@, acc@, env) == emitted(out1, acc1, env)
        + content_out(*content, minify, js, env) by {
        match content {
            Content::Empty => {
                assert(emitted(out@, acc@, env) =~= emitted(out1, acc1, env) + content_out(
                    *content,
                    minify,
                    js,
                    env,
                ));
            },
            Content::Static(text) => {
                assert(emitted(out@, acc@, env) =~= emitted(out1, acc1, env) + content_out(
                    *content,
                    minify,
                    js,
                    env,
                ));
            },
            Content::Dynamic(p) => {},
        }
    }
}

/// The tag of a `script` (`js`) or `style` element.
fn raw_tag(js: bool) -> (r: &'static str)
    ensures
        r@ == if js { script_tag() } else { style_tag() },
{
    proof {
        reveal_strlit("script");
        reveal_strlit("style");
    }
    if js {
        "script"
    } else {
        "style"
    }
}

/// Plans a `script` (`js`) or `style` element.
#[verifier::rlimit(50)]
fn plan_raw_text(
    js: bool,
    attrs: &Vec<Attr>,
    content: &Content,
    minify: bool,
    acc: &mut String,
    out: &mut Vec<Op>,
)
    requires
        batched(old(out)@),
        open_end(old(out)@),
    ensures
        batched(final(out)@),
        open_end(final(out)@),
        forall|env: Scopes| #[trigger]
            emitted(final(out)@, final(acc)@, env) == emitted(old(out)@, old(acc)@, env)
                + raw_text_out(
                if js {
                    script_tag()
                } else {
                    style_tag()
                },
                attrs@,
                *content,
                minify,
                js,
                env,
            ),
        !(*content is Dynamic) && static_attrs(attrs@) ==> final(out)@ == old(out)@,
{
    let tag = raw_tag(js);
    let ghost out0 = out@;
    let ghost acc0 = acc@;
    plan_start_tag(tag, attrs, acc, out);
    let ghost out1 = out@;
    let ghost acc_a = acc@;
    add_char(acc, '>');
    let ghost acc1 = acc@;
    plan_content(content, minify, js, acc, out);
    let ghost out2 = out@;
    let ghost acc2 = acc@;
    add_char(acc, '<');
    add_char(acc, '/');
    add_text(acc, tag);
    add_char(acc, '>');
    assert(acc@ =~= acc2 + close_tag(tag@));
    assert forall|env: Scopes| #[trigger]
        emitted(out@, acc@, env) == emitted(out0, acc0, env) + raw_text_out(
            tag@,
            attrs@,
            *content,
            minify,
            js,
            env,
        ) by {
        assert(emitted(out1, acc_a, env) == emitted(out0, acc0, env) + open_tag(tag@) + attrs_out(
            attrs@,
            env,
        ));
        assert(emitted(out1, acc1, env) =~= emitted(out1, acc_a, env) + seq!['>']);
        assert(emitted(out2, acc2, env) == emitted(out1, acc1, env) + content_out(
            *content,
            minify,
            js,
            env,
        ));
        assert(emitted(out@, acc@, env) =~= emitted(out2, acc2, env) + close_tag(tag@));
        assert(emitted(out@, acc@, env) =~= emitted(out0, acc0, env) + raw_text_out(
            tag@,
            attrs@,
            *content,
            minify,
            js,
            env,
        ));
    }
}

proof fn lemma_first_true_same(ob: Seq<OpBranch>, b: Seq<Branch>, env: Scopes)
    requires
        ob.len() == b.len(),
        forall|k: int| 0 <= k < b.len() ==> same_cond(#[trigger] ob[k].cond, b[k].cond),
    ensures
        first_true_op(ob, env) == first_true(b, env),
    decreases b.len(),
{
    if b.len() > 0 {
        assert(same_cond(ob[0].cond, b[0].cond));
        lemma_first_true_same(ob.drop_first(), b.drop_first(), env);
    }
}

/// The arm of a plan and the arm of the tree test the same pattern and guard.
pub open spec fn same_arm(oa: OpArm, a: Arm) -> bool {
    &&& match (oa.pattern, a.pattern) {
        (Some(x), Some(y)) => x@ == y@,
        (None, None) => true,
        _ => false,
    }
    &&& match (oa.guard, a.guard) {
        (Some(x), Some(y)) => same_cond(x, y),
        (None, None) => true,
        _ => false,
    }
}

proof fn lemma_first_arm_same(oa: Seq<OpArm>, a: Seq<Arm>, subject: Seq<char>, env: Scopes)
    requires
        oa.len() == a.len(),
        forall|k: int| 0 <= k < a.len() ==> same_arm(#[trigger] oa[k], a[k]),
    ensures
        first_op_arm(oa, subject, env) == first_arm(a, subject, env),
    decreases a.len(),
{
    if a.len() > 0 {
        assert(same_arm(oa[0], a[0]));
        lemma_first_arm_same(oa.drop_first(), a.drop_first(), subject, env);
    }
}

proof fn lemma_loop_same(
    ops: Seq<Op>,
    body: Seq<Node>,
    var: Seq<char>,
    items: Seq<Vec<Binding>>,
    env: Scopes,
    root: Seq<Node>,
)
    requires
        forall|e: Scopes| #[trigger] run_ops(ops, e) == nodes_out(body, e, root),
    ensures
        run_loop(ops, var, items, env) == loop_out(body, var, items, env, root),
    decreases items.len(),
{
    if items.len() > 0 {
        lemma_loop_same(ops, body, var, items.drop_last(), env, root);
        assert(run_ops(ops, env.push((var, items.last()@))) == nodes_out(
            body,
            env.push((var, items.last()@)),
            root,
        ));
    }
}

/// The nodes that a sequence of references points to.
pub open spec fn derefs(s: Seq<&Node>) -> Seq<Node> {
    s.map_values(|x: &Node| *x)
}

proof fn lemma_derefs_push(s: Seq<&Node>, x: &Node)
    ensures
        derefs(s.push(x)) == derefs(s).push(*x),
{
    assert(derefs(s.push(x)) =~= derefs(s).push(*x));
}

/// Appends the hoisted scripts and script uses of `ns`, in document order.
fn collect_events<'a>(ns: &'a Vec<Node>, out: &mut Vec<&'a Node>)
    ensures
        derefs(final(out)@) == derefs(old(out)@) + events(ns@),
    decreases ns@, 1nat,
{
    let mut i: usize = 0;
    assert(events(ns@.take(0)) =~= Seq::<Node>::empty());
    assert(derefs(out@) + Seq::<Node>::empty() =~= derefs(out@));
    while i < ns.len()
        invariant
            i <= ns@.len(),
            derefs(out@) == derefs(old(out)@) + events(ns@.take(i as int)),
        decreases ns@.len() - i,
    {
        let ghost before = derefs(out@);
        collect_node(&ns[i], out);
        assert(ns@.take(i + 1).drop_last() =~= ns@.take(i as int));
        assert(ns@.take(i + 1).last() == ns@[i as int]);
        assert(derefs(out@) =~= derefs(old(out)@) + events(ns@.take(i + 1)));
        i = i + 1;
    }
    assert(ns@.take(ns@.len() as int) =~= ns@);
}

fn collect_node<'a>(n: &'a Node, out: &mut Vec<&'a Node>)
    ensures
        derefs(final(out)@) == derefs(old(out)@) + node_events(*n),
    decreases *n, 0nat,
{
    let ghost o = derefs(out@);
    match n {
        Node::Script { hoist: Some(_), .. } => {
            proof {
                lemma_derefs_push(out@, n);
            }
            out.push(n);
            assert(derefs(out@) =~= o + node_events(*n));
        },
        Node::ScriptUse { .. } => {
            proof {
                lemma_derefs_push(out@, n);
            }
            out.push(n);
            assert(derefs(out@) =~= o + node_events(*n));
        },
        Node::Element { body: Some(b), .. } => collect_events(b, out),
        Node::For { body, .. } => collect_events(body, out),
        Node::Call { body, .. } => collect_events(body, out),
        Node::If { branches, otherwise, .. } => {
            collect_branches(branches, out);
            collect_events(otherwise, out);
            assert(derefs(out@) =~= o + node_events(*n));
        },
        Node::Match { arms, .. } => collect_arms(arms, out),
        _ => {
            assert(derefs(out@) =~= o + node_events(*n));
        },
    }
}

fn collect_branches<'a>(bs: &'a Vec<Branch>, out: &mut Vec<&'a Node>)
    ensures
        derefs(final(out)@) == derefs(old(out)@) + branch_events(bs@),
    decreases bs@, 0nat,
{
    let mut k: usize = 0;
    assert(branch_events(bs@.take(0)) =~= Seq::<Node>::empty());
    assert(derefs(out@) + Seq::<Node>::empty() =~= derefs(out@));
    while k < bs.len()
        invariant
            k <= bs@.len(),
            derefs(out@) == derefs(old(out)@) + branch_events(bs@.take(k as int)),
        decreases bs@.len() - k,
    {
        collect_events(&bs[k].body, out);
        assert(bs@.take(k + 1).drop_last() =~= bs@.take(k as int));
        assert(bs@.take(k + 1).last() == bs@[k as int]);
        assert(derefs(out@) =~= derefs(old(out)@) + branch_events(bs@.take(k + 1)));
        k = k + 1;
    }
    assert(bs@.take(bs@.len() as int) =~= bs@);
}

fn collect_arms<'a>(arms: &'a Vec<Arm>, out: &mut Vec<&'a Node>)
    ensures
        derefs(final(out)@) == derefs(old(out)@) + arm_events(arms@),
    decreases arms@, 0nat,
{
    let mut k: usize = 0;
    assert(arm_events(arms@.take(0)) =~= Seq::<Node>::empty());
    assert(derefs(out@) + Seq::<Node>::empty() =~= derefs(out@));
    while k < arms.len()
        invariant
            k <= arms@.len(),
            derefs(out@) == derefs(old(out)@) + arm_events(arms@.take(k as int)),
        decreases arms@.len() - k,
    {
        collect_events(&arms[k].body, out);
        assert(arms@.take(k + 1).drop_last() =~= arms@.take(k as int));
        assert(arms@.take(k + 1).last() == arms@[k as int]);
        assert(derefs(out@) =~= derefs(old(out)@) + arm_events(arms@.take(k + 1)));
        k = k + 1;
    }
    assert(arms@.take(arms@.len() as int) =~= arms@);
}

pub open spec fn opt_deref(x: Option<&Node>) -> Option<Node> {
    match x {
        Some(y) => Some(*y),
        None => None,
    }
}

/// The script in force at the first use of `name`, scanning the events.
fn choose_hoisted<'a>(ev: &Vec<&'a Node>, name: &String) -> (r: Option<&'a Node>)
    ensures
        opt_deref(r) == chosen(derefs(ev@), name@, None),
{
    let ghost dv = derefs(ev@);
    let mut cur: Option<&'a Node> = None;
    let mut i: usize = 0;
    assert(dv.subrange(0, dv.len() as int) =~= dv);
    while i < ev.len()
        invariant
            i <= ev@.len(),
            dv == derefs(ev@),
            chosen(dv, name@, None) == chosen(dv.subrange(i as int, dv.len() as int), name@, opt_deref(cur)),
        decreases ev@.len() - i,
    {
        let ghost rest = dv.subrange(i as int, dv.len() as int);
        assert(rest[0] == *ev@[i as int]);
        assert(rest.drop_first() =~= dv.subrange(i + 1, dv.len() as int));
        let x: &'a Node = ev[i];
        match x {
            Node::Script { hoist: Some(h), .. } => {
                if *h == *name {
                    cur = Some(x);
                }
            },
            Node::ScriptUse { name: u } => {
                if *u == *name {
                    return cur;
                }
            },
            _ => {},
        }
        i = i + 1;
    }
    cur
}

/// A plan: the write operations that render a template.
pub struct Plan {
    pub ops: Vec<Op>,
}

/// Plans a template tree. The plan writes, in every data context, exactly what
/// the tree renders to, and every run of static text in it is one write.
pub fn plan(root: &Vec<Node>) -> (r: Plan)
    ensures
        batched(r.ops@),
        forall|env: Scopes| #[trigger] run_ops(r.ops@, env) == nodes_out(root@, env, root@),
{
    Plan { ops: plan_body(root, root) }
}

/// Plans a sequence of nodes on its own, as the body of a branch or a loop is.
fn plan_body(ns: &Vec<Node>, root: &Vec<Node>) -> (r: Vec<Op>)
    ensures
        batched(r@),
        forall|env: Scopes| #[trigger] run_ops(r@, env) == nodes_out(ns@, env, root@),
    decreases ns@, 1nat,
{
    broadcast use lemma_concat_empty;

    let mut acc = String::new();
    let mut out: Vec<Op> = Vec::new();
    plan_nodes(ns, root, &mut acc, &mut out);
    let ghost out1 = out@;
    let ghost acc1 = acc@;
    flush(&mut acc, &mut out);
    assert forall|env: Scopes| #[trigger] run_ops(out@, env) == nodes_out(ns@, env, root@) by {
        assert(emitted(out1, acc1, env) == emitted(Seq::empty(), Seq::empty(), env) + nodes_out(
            ns@,
            env,
            root@,
        ));
        assert(run_ops(Seq::<Op>::empty(), env) == Seq::<char>::empty());
        assert(run_ops(out@, env) == emitted(out1, acc1, env));
    }
    out
}

fn plan_nodes(ns: &Vec<Node>, root: &Vec<Node>, acc: &mut String, out: &mut Vec<Op>)
    requires
        batched(old(out)@),
        open_end(old(out)@),
    ensures
        batched(final(out)@),
        open_end(final(out)@),
        forall|env: Scopes| #[trigger]
            emitted(final(out)@, final(acc)@, env) == emitted(old(out)@, old(acc)@, env)
                + nodes_out(ns@, env, root@),
    decreases ns@, 0nat,
{
    broadcast use lemma_concat_empty;

    let n = ns.len();
    let mut i: usize = 0;
    while i < n
        invariant
            n == ns@.len(),
            i <= n,
            batched(out@),
            open_end(out@),
            forall|env: Scopes| #[trigger]
                emitted(out@, acc@, env) == emitted(old(out)@, old(acc)@, env) + nodes_out(
                    ns@.take(i as int),
                    env,
                    root@,
                ),
        decreases n - i,
    {
        let ghost out0 = out@;
        let ghost acc0 = acc@;
        plan_node(&ns[i], root, acc, out);
        proof {
            assert(ns@.take(i + 1).drop_last() =~= ns@.take(i as int));
            assert(ns@.take(i + 1).last() == ns@[i as int]);
            assert forall|env: Scopes| #[trigger]
                emitted(out@, acc@, env) == emitted(old(out)@, old(acc)@, env) + nodes_out(
                    ns@.take(i + 1),
                    env,
                    root@,
                ) by {
                assert(emitted(out@, acc@, env) == emitted(out0, acc0, env) + node_out(
                    ns@[i as int],
                    env,
                    root@,
                ));
                assert(emitted(out0, acc0, env) == emitted(old(out)@, old(acc)@, env) + nodes_out(
                    ns@.take(i as int),
                    env,
                    root@,
                ));
                assert(emitted(out@, acc@, env) =~= emitted(old(out)@, old(acc)@, env) + nodes_out(
                    ns@.take(i + 1),
                    env,
                    root@,
                ));
            }
        }
        i = i + 1;
    }
    assert(ns@.take(n as int) =~= ns@);
}

fn plan_branches(bs: &Vec<Branch>, root: &Vec<Node>) -> (r: Vec<OpBranch>)
    ensures
        r@.len() == bs@.len(),
        forall|k: int| 0 <= k < bs@.len() ==> same_cond(#[trigger] r@[k].cond, bs@[k].cond),
        forall|k: int, env: Scopes|
            0 <= k < bs@.len() ==> #[trigger] run_ops(r@[k].body@, env) == nodes_out(
                bs@[k].body@,
                env,
                root@,
            ),
    decreases bs@, 0nat,
{
    let mut r: Vec<OpBranch> = Vec::new();
    let n = bs.len();
    let mut k: usize = 0;
    while k < n
        invariant
            n == bs@.len(),
            k <= n,
            r@.len() == k,
            forall|j: int| 0 <= j < k ==> same_cond(#[trigger] r@[j].cond, bs@[j].cond),
            forall|j: int, env: Scopes|
                0 <= j < k ==> #[trigger] run_ops(r@[j].body@, env) == nodes_out(
                    bs@[j].body@,
                    env,
                    root@,
                ),
        decreases n - k,
    {
        let body = plan_body(&bs[k].body, root);
        let ghost bv = body@;
        let ghost before = r@;
        let ob = OpBranch { cond: bs[k].cond.copy(), body };
        r.push(ob);
        assert forall|j: int, env: Scopes| 0 <= j < k + 1 implies #[trigger] run_ops(
            r@[j].body@,
            env,
        ) == nodes_out(bs@[j].body@, env, root@) by {
            if j < k {
                assert(r@[j] == before[j]);
                assert(run_ops(before[j].body@, env) == nodes_out(bs@[j].body@, env, root@));
            } else {
                assert(r@[j].body@ == bv);
                assert(run_ops(bv, env) == nodes_out(bs@[k as int].body@, env, root@));
            }
        }
        assert forall|j: int| 0 <= j < k + 1 implies same_cond(#[trigger] r@[j].cond, bs@[j].cond) by {
            if j < k {
                assert(r@[j] == before[j]);
            }
        }
        k = k + 1;
    }
    r
}

fn plan_arms(arms: &Vec<Arm>, root: &Vec<Node>) -> (r: Vec<OpArm>)
    ensures
        r@.len() == arms@.len(),
        forall|k: int| 0 <= k < arms@.len() ==> same_arm(#[trigger] r@[k], arms@[k]),
        forall|k: int, env: Scopes|
            0 <= k < arms@.len() ==> #[trigger] run_ops(r@[k].body@, env) == nodes_out(
                arms@[k].body@,
                env,
                root@,
            ),
    decreases arms@, 0nat,
{
    let mut r: Vec<OpArm> = Vec::new();
    let n = arms.len();
    let mut k: usize = 0;
    while k < n
        invariant
            n == arms@.len(),
            k <= n,
            r@.len() == k,
            forall|j: int| 0 <= j < k ==> same_arm(#[trigger] r@[j], arms@[j]),
            forall|j: int, env: Scopes|
                0 <= j < k ==> #[trigger] run_ops(r@[j].body@, env) == nodes_out(
                    arms@[j].body@,
                    env,
                    root@,
                ),
        decreases n - k,
    {
        let a = &arms[k];
        let body = plan_body(&a.body, root);
        let ghost bv = body@;
        let pattern = match &a.pattern {
            Some(p) => Some(p.clone()),
            None => None,
        };
        let guard = match &a.guard {
            Some(g) => Some(g.copy()),
            None => None,
        };
        let ghost before = r@;
        let oa = OpArm { pattern, guard, body };
        r.push(oa);
        assert forall|j: int, env: Scopes| 0 <= j < k + 1 implies #[trigger] run_ops(
            r@[j].body@,
            env,
        ) == nodes_out(arms@[j].body@, env, root@) by {
            if j < k {
                assert(r@[j] == before[j]);
                assert(run_ops(before[j].body@, env) == nodes_out(arms@[j].body@, env, root@));
            } else {
                assert(r@[j].body@ == bv);
                assert(run_ops(bv, env) == nodes_out(arms@[k as int].body@, env, root@));
            }
        }
        assert forall|j: int| 0 <= j < k + 1 implies same_arm(#[trigger] r@[j], arms@[j]) by {
            if j < k {
                assert(r@[j] == before[j]);
            }
        }
        k = k + 1;
    }
    r
}

/// Plans a node of one kind.
#[verifier::rlimit(100)]
#[verifier::spinoff_prover]
fn plan_element(n: &Node, root: &Vec<Node>, acc: &mut String, out: &mut Vec<Op>)
    requires
        batched(old(out)@),
        open_end(old(out)@),
        n is Element,
    ensures
        batched(final(out)@),
        open_end(final(out)@),
        forall|env: Scopes| #[trigger]
            emitted(final(out)@, final(acc)@, env) == emitted(old(out)@, old(acc)@, env)
                + node_out(*n, env, root@),
        n->Element_body is None && static_attrs(n->Element_attrs@) ==> final(out)@ == old(out)@,
    decreases *n, 1nat,
{
    broadcast use lemma_concat_empty;

    let ghost out0 = out@;
    let ghost acc0 = acc@;
    match n {
        Node::Element { tag, attrs, body, .. } => {
            plan_start_tag(tag.as_str(), attrs, acc, out);
            let ghost out1 = out@;
            let ghost acc1 = acc@;
            match body {
                Some(b) => {
                    add_char(acc, '>');
                    let ghost acc2 = acc@;
                    plan_nodes(b, root, acc, out);
                    let ghost acc3 = acc@;
                    add_char(acc, '<');
                    add_char(acc, '/');
                    add_text(acc, tag.as_str());
                    add_char(acc, '>');
                    assert(acc@ =~= acc3 + close_tag(tag@));
                    assert forall|env: Scopes| #[trigger]
                        emitted(out@, acc@, env) == emitted(out0, acc0, env) + node_out(
                            *n,
                            env,
                            root@,
                        ) by {
                        assert(emitted(out1, acc1, env) == emitted(out0, acc0, env) + open_tag(
                            tag@,
                        ) + attrs_out(attrs@, env));
                        assert(emitted(out1, acc2, env) =~= emitted(out1, acc1, env) + seq!['>']);
                        assert(emitted(out@, acc3, env) == emitted(out1, acc2, env) + nodes_out(
                            b@,
                            env,
                            root@,
                        ));
                        assert(emitted(out@, acc@, env) =~= emitted(out@, acc3, env) + close_tag(
                            tag@,
                        ));
                        assert(emitted(out@, acc@, env) =~= emitted(out0, acc0, env) + node_out(
                            *n,
                            env,
                            root@,
                        ));
                    }
                },
                None => {
                    add_char(acc, '/');
                    add_char(acc, '>');
                    assert forall|env: Scopes| #[trigger]
                        emitted(out@, acc@, env) == emitted(out0, acc0, env) + node_out(
                            *n,
                            env,
                            root@,
                        ) by {
                        assert(emitted(out1, acc1, env) == emitted(out0, acc0, env) + open_tag(
                            tag@,
                        ) + attrs_out(attrs@, env));
                        assert(emitted(out@, acc@, env) =~= emitted(out1, acc1, env) + seq!['/', '>']);
                        assert(emitted(out@, acc@, env) =~= emitted(out0, acc0, env) + node_out(
                            *n,
                            env,
                            root@,
                        ));
                    }
                },
            }
        },
        _ => {},
    }
}

/// Plans a node of one kind.
fn plan_if(n: &Node, root: &Vec<Node>, acc: &mut String, out: &mut Vec<Op>)
    requires
        batched(old(out)@),
        open_end(old(out)@),
        n is If,
    ensures
        batched(final(out)@),
        open_end(final(out)@),
        forall|env: Scopes| #[trigger]
            emitted(final(out)@, final(acc)@, env) == emitted(old(out)@, old(acc)@, env)
                + node_out(*n, env, root@),
        flushed_then_one(old(out)@, old(acc)@, final(out)@) && final(out)@.last() is If,
    decreases *n, 1nat,
{
    broadcast use lemma_concat_empty;

    let ghost out0 = out@;
    let ghost acc0 = acc@;
    match n {
        Node::If { branches, otherwise, .. } => {
            let obs = plan_branches(branches, root);
            let oth = plan_body(otherwise, root);
            let op = Op::If { branches: obs, otherwise: oth };
            assert forall|env: Scopes| #[trigger] run_op(op, env) == node_out(*n, env, root@) by {
                lemma_first_true_same(obs@, branches@, env);
                let i = first_true(branches@, env);
                if 0 <= i < branches@.len() {
                    assert(run_ops(obs@[i].body@, env) == nodes_out(branches@[i].body@, env, root@));
                } else {
                    assert(run_ops(oth@, env) == nodes_out(otherwise@, env, root@));
                }
            }
            push_dynamic(acc, out, op);
        },
        _ => {},
    }
}

/// Plans a node of one kind.
fn plan_for(n: &Node, root: &Vec<Node>, acc: &mut String, out: &mut Vec<Op>)
    requires
        batched(old(out)@),
        open_end(old(out)@),
        n is For,
    ensures
        batched(final(out)@),
        open_end(final(out)@),
        forall|env: Scopes| #[trigger]
            emitted(final(out)@, final(acc)@, env) == emitted(old(out)@, old(acc)@, env)
                + node_out(*n, env, root@),
        flushed_then_one(old(out)@, old(acc)@, final(out)@) && final(out)@.last() is For,
    decreases *n, 1nat,
{
    broadcast use lemma_concat_empty;

    let ghost out0 = out@;
    let ghost acc0 = acc@;
    match n {
        Node::For { var, source, body, .. } => {
            let ops = plan_body(body, root);
            let op = Op::For { var: var.clone(), source: source.clone(), body: ops };
            assert forall|env: Scopes| #[trigger] run_op(op, env) == node_out(*n, env, root@) by {
                lemma_loop_same(ops@, body@, var@, items_at(env, source@), env, root@);
            }
            push_dynamic(acc, out, op);
        },
        _ => {},
    }
}

/// Plans a node of one kind.
fn plan_match(n: &Node, root: &Vec<Node>, acc: &mut String, out: &mut Vec<Op>)
    requires
        batched(old(out)@),
        open_end(old(out)@),
        n is Match,
    ensures
        batched(final(out)@),
        open_end(final(out)@),
        forall|env: Scopes| #[trigger]
            emitted(final(out)@, final(acc)@, env) == emitted(old(out)@, old(acc)@, env)
                + node_out(*n, env, root@),
        flushed_then_one(old(out)@, old(acc)@, final(out)@) && final(out)@.last() is Match,
    decreases *n, 1nat,
{
    broadcast use lemma_concat_empty;

    let ghost out0 = out@;
    let ghost acc0 = acc@;
    match n {
        Node::Match { subject, arms, .. } => {
            let oas = plan_arms(arms, root);
            let subj = subject.copy();
            let ghost subj_v = subj;
            let op = Op::Match { subject: subj, arms: oas };
            assert forall|env: Scopes| #[trigger] run_op(op, env) == node_out(*n, env, root@) by {
                let t = operand_text(*subject, env);
                assert(operand_text(subj_v, env) == t);
                lemma_first_arm_same(oas@, arms@, t, env);
                let i = first_arm(arms@, t, env);
                if 0 <= i < arms@.len() {
                    assert(run_ops(oas@[i].body@, env) == nodes_out(arms@[i].body@, env, root@));
                }
            }
            push_dynamic(acc, out, op);
        },
        _ => {},
    }
}

/// Plans one node.
#[verifier::rlimit(50)]
fn plan_node(n: &Node, root: &Vec<Node>, acc: &mut String, out: &mut Vec<Op>)
    requires
        batched(old(out)@),
        open_end(old(out)@),
    ensures
        batched(final(out)@),
        open_end(final(out)@),
        forall|env: Scopes| #[trigger]
            emitted(final(out)@, final(acc)@, env) == emitted(old(out)@, old(acc)@, env)
                + node_out(*n, env, root@),
        n is Text ==> final(out)@ == old(out)@ && final(acc)@ == old(acc)@ + (if n->Text_escape {
            escaped(n->Text_content@)
        } else {
            n->Text_content@
        }),
        n is Expr ==> flushed_then_one(old(out)@, old(acc)@, final(out)@) && final(out)@.last() is Value
            && final(out)@.last()->Value_path@ == n->Expr_path@ && final(out)@.last()->Value_escape
            == n->Expr_escape,
        n is If ==> flushed_then_one(old(out)@, old(acc)@, final(out)@) && final(out)@.last() is If,
        n is For ==> flushed_then_one(old(out)@, old(acc)@, final(out)@) && final(out)@.last() is For,
        n is Match ==> flushed_then_one(old(out)@, old(acc)@, final(out)@) && final(out)@.last() is Match,
        n is Element && n->Element_body is None && static_attrs(n->Element_attrs@) ==> final(out)@
            == old(out)@,
        n is Style && !(n->Style_content is Dynamic) && static_attrs(n->Style_attrs@)
            ==> final(out)@ == old(out)@,
        n is Script && !(n->Script_content is Dynamic) && static_attrs(n->Script_attrs@)
            ==> final(out)@ == old(out)@,
    decreases *n, 2nat,
{
    broadcast use lemma_concat_empty;

    let ghost out0 = out@;
    let ghost acc0 = acc@;
    match n {
        Node::Text { content, escape, .. } => {
            if *escape {
                let e = escape_text(content.as_str());
                add_text(acc, e.as_str());
            } else {
                add_text(acc, content.as_str());
            }
            assert forall|env: Scopes| #[trigger]
                emitted(out@, acc@, env) == emitted(out0, acc0, env) + node_out(*n, env, root@) by {
                assert(emitted(out@, acc@, env) =~= emitted(out0, acc0, env) + node_out(
                    *n,
                    env,
                    root@,
                ));
            }
        },
        Node::Expr { path, escape, .. } => {
            push_dynamic(acc, out, Op::Value { path: path.clone(), escape: *escape });
        },
        Node::Element { .. } => plan_element(n, root, acc, out),
        Node::If { .. } => plan_if(n, root, acc, out),
        Node::For { .. } => plan_for(n, root, acc, out),
        Node::Match { .. } => plan_match(n, root, acc, out),
        Node::Script { attrs, content, minify, hoist } => {
            match hoist {
                Some(_) => {},
                None => {
                    plan_raw_text(true, attrs, content, *minify, acc, out);
                },
            }
        },
        Node::Style { attrs, content, minify } => {
            plan_raw_text(false, attrs, content, *minify, acc, out);
        },
        Node::Call { body, .. } => {
            plan_nodes(body, root, acc, out);
        },
        Node::ScriptUse { name } => {
            let mut ev: Vec<&Node> = Vec::new();
            assert(derefs(ev@) =~= Seq::<Node>::empty());
            collect_events(root, &mut ev);
            assert(derefs(ev@) =~= events(root@));
            match choose_hoisted(&ev, name) {
                Some(s) => {
                    match s {
                        Node::Script { attrs, content, minify, .. } => {
                            plan_raw_text(true, attrs, content, *minify, acc, out);
                        },
                        _ => {},
                    }
                },
                None => {},
            }
        },
    }
}

} // verus!
