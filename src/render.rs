//! Rendering: a plan is run against a data context into a fresh output string.

use vstd::prelude::*;
use crate::ast::{
    Binding, Cond, Frame, Operand, Value, cond_holds, find_in, frames_view, full_name, items_at,
    lookup, operand_text, text_at,
};
use crate::outside::{escape_text, minify_code, push_char, string_with_capacity, tag_free, tag_name_char};
use crate::lexer::chars_of;
use crate::plan::{
    Op, OpArm, OpBranch, Plan, Scopes, first_op_arm, first_true_op, op_arm_matches, run_loop,
    run_op, run_ops,
};

verus! {

/// Rendered HTML.
pub struct Origami(pub String);

/// The largest capacity hint that is followed; a larger one is ignored.
pub const MAX_CAPACITY_HINT: usize = 1048576;

/// The root scope of a data context.
pub open spec fn root_scope(ctx: Seq<Binding>) -> Scopes {
    seq![(Seq::<char>::empty(), ctx)]
}

impl Plan {
    /// Renders the plan against the bindings of a data context, into a string
    /// made with room for `capacity` bytes where a hint is given (up to
    /// `MAX_CAPACITY_HINT`).
    pub fn render(&self, ctx: &Vec<Binding>, capacity: Option<usize>) -> (r: Origami)
        ensures
            r.0@ == run_ops(self.ops@, root_scope(ctx@)),
    {
        let mut out = match capacity {
            Some(n) => if n <= MAX_CAPACITY_HINT {
                string_with_capacity(n)
            } else {
                String::new()
            },
            None => String::new(),
        };
        let mut env: Vec<Frame> = Vec::new();
        env.push(Frame { prefix: String::new(), fields: ctx });
        assert(frames_view(env@) =~= root_scope(ctx@));
        exec_ops(&self.ops, &mut env, &mut out);
        assert(out@ =~= run_ops(self.ops@, root_scope(ctx@)));
        Origami(out)
    }
}

/// Whether no `<` in the text opens an HTML tag.
pub fn check_tag_free(s: &str) -> (r: bool)
    ensures
        r == tag_free(s@),
{
    let c = chars_of(s);
    let n = c.len();
    let mut i: usize = 0;
    while i < n && n - i > 1
        invariant
            i <= n,
            n == c@.len(),
            c@ == s@,
            forall|k: int| 0 <= k < i && k < n - 1 && c@[k] == '<' ==> !tag_name_char(#[trigger] c@[k + 1]),
        decreases n - i,
    {
        let d = c[i + 1];
        if c[i] == '<' && (('a' <= d && d <= 'z') || ('A' <= d && d <= 'Z') || ('0' <= d && d <= '9')
            || d == ':' || d == '-') {
            return false;
        }
        i = i + 1;
    }
    true
}

/// Whether a field of a scope is seen under `path`.
fn names_path(prefix: &String, name: &String, path: &String) -> (r: bool)
    ensures
        r == (full_name(prefix@, name@) == path@),
{
    if prefix.as_str().is_empty() {
        *name == *path
    } else {
        let mut f = prefix.clone();
        push_char(&mut f, '.');
        f.append(name.as_str());
        assert(f@ =~= prefix@ + seq!['.'] + name@);
        f == *path
    }
}

fn find_in_scope<'a>(prefix: &String, fields: &'a Vec<Binding>, path: &String) -> (r: Option<
    &'a Value,
>)
    ensures
        match r {
            Some(v) => find_in(prefix@, fields@, path@) == Some(*v),
            None => find_in(prefix@, fields@, path@) is None,
        },
{
    let mut i = fields.len();
    assert(fields@.take(i as int) =~= fields@);
    while i > 0
        invariant
            i <= fields@.len(),
            find_in(prefix@, fields@, path@) == find_in(prefix@, fields@.take(i as int), path@),
        decreases i,
    {
        i = i - 1;
        assert(fields@.take(i + 1).drop_last() =~= fields@.take(i as int));
        assert(fields@.take(i + 1).last() == fields@[i as int]);
        if names_path(prefix, &fields[i].name, path) {
            return Some(&fields[i].value);
        }
    }
    None
}

/// The value a path names in the data context.
fn lookup_exec<'a>(env: &Vec<Frame<'a>>, path: &String) -> (r: Option<&'a Value>)
    ensures
        match r {
            Some(v) => lookup(frames_view(env@), path@) == Some(*v),
            None => lookup(frames_view(env@), path@) is None,
        },
{
    let ghost fv = frames_view(env@);
    let mut k = env.len();
    assert(fv.take(k as int) =~= fv);
    while k > 0
        invariant
            k <= env@.len(),
            fv == frames_view(env@),
            lookup(fv, path@) == lookup(fv.take(k as int), path@),
        decreases k,
    {
        k = k - 1;
        assert(fv.take(k + 1).drop_last() =~= fv.take(k as int));
        assert(fv.take(k + 1).last() == fv[k as int]);
        match find_in_scope(&env[k].prefix, env[k].fields, path) {
            Some(v) => {
                return Some(v);
            },
            None => {},
        }
    }
    None
}

fn text_exec(env: &Vec<Frame>, path: &String) -> (r: String)
    ensures
        r@ == text_at(frames_view(env@), path@),
{
    match lookup_exec(env, path) {
        Some(Value::Text(s)) => s.clone(),
        _ => String::new(),
    }
}

fn operand_exec(env: &Vec<Frame>, o: &Operand) -> (r: String)
    ensures
        r@ == operand_text(*o, frames_view(env@)),
{
    match o {
        Operand::Lit(s) => s.clone(),
        Operand::Path(p) => text_exec(env, p),
    }
}

fn cond_exec(env: &Vec<Frame>, c: &Cond) -> (r: bool)
    ensures
        r == cond_holds(*c, frames_view(env@)),
{
    let l = operand_exec(env, &c.lhs);
    let r = operand_exec(env, &c.rhs);
    (l == r) == c.equal
}

fn first_true_exec(env: &Vec<Frame>, bs: &Vec<OpBranch>) -> (r: usize)
    ensures
        r as int == first_true_op(bs@, frames_view(env@)),
{
    let ghost fv = frames_view(env@);
    let mut i: usize = 0;
    assert(bs@.subrange(0, bs@.len() as int) =~= bs@);
    while i < bs.len()
        invariant
            i <= bs@.len(),
            fv == frames_view(env@),
            first_true_op(bs@, fv) == i + first_true_op(bs@.subrange(i as int, bs@.len() as int), fv),
        decreases bs@.len() - i,
    {
        let ghost rest = bs@.subrange(i as int, bs@.len() as int);
        assert(rest[0] == bs@[i as int]);
        if cond_exec(env, &bs[i].cond) {
            return i;
        }
        assert(rest.drop_first() =~= bs@.subrange(i + 1, bs@.len() as int));
        i = i + 1;
    }
    i
}

fn first_arm_exec(env: &Vec<Frame>, arms: &Vec<OpArm>, subject: &String) -> (r: usize)
    ensures
        r as int == first_op_arm(arms@, subject@, frames_view(env@)),
{
    let ghost fv = frames_view(env@);
    let mut i: usize = 0;
    assert(arms@.subrange(0, arms@.len() as int) =~= arms@);
    while i < arms.len()
        invariant
            i <= arms@.len(),
            fv == frames_view(env@),
            first_op_arm(arms@, subject@, fv) == i + first_op_arm(
                arms@.subrange(i as int, arms@.len() as int),
                subject@,
                fv,
            ),
        decreases arms@.len() - i,
    {
        let ghost rest = arms@.subrange(i as int, arms@.len() as int);
        assert(rest[0] == arms@[i as int]);
        let a = &arms[i];
        let pat_ok = match &a.pattern {
            Some(p) => *p == *subject,
            None => true,
        };
        let guard_ok = match &a.guard {
            Some(g) => cond_exec(env, g),
            None => true,
        };
        if pat_ok && guard_ok {
            return i;
        }
        assert(rest.drop_first() =~= arms@.subrange(i + 1, arms@.len() as int));
        i = i + 1;
    }
    i
}

fn exec_ops<'a>(ops: &Vec<Op>, env: &mut Vec<Frame<'a>>, out: &mut String)
    ensures
        final(env)@ == old(env)@,
        final(out)@ == old(out)@ + run_ops(ops@, frames_view(old(env)@)),
    decreases ops@, 0nat,
{
    let ghost fv = frames_view(env@);
    let n = ops.len();
    let mut i: usize = 0;
    assert(old(out)@ + run_ops(ops@.take(0), fv) =~= old(out)@);
    while i < n
        invariant
            n == ops@.len(),
            i <= n,
            env@ == old(env)@,
            fv == frames_view(env@),
            out@ == old(out)@ + run_ops(ops@.take(i as int), fv),
        decreases n - i,
    {
        let ghost before = out@;
        exec_op(&ops[i], env, out);
        assert(ops@.take(i + 1).drop_last() =~= ops@.take(i as int));
        assert(ops@.take(i + 1).last() == ops@[i as int]);
        assert(out@ =~= old(out)@ + run_ops(ops@.take(i + 1), fv));
        i = i + 1;
    }
    assert(ops@.take(n as int) =~= ops@);
}

fn exec_op<'a>(op: &Op, env: &mut Vec<Frame<'a>>, out: &mut String)
    ensures
        final(env)@ == old(env)@,
        final(out)@ == old(out)@ + run_op(*op, frames_view(old(env)@)),
    decreases *op, 1nat,
{
    let ghost fv = frames_view(env@);
    match op {
        Op::Write(s) => {
            out.append(s.as_str());
        },
        Op::Value { path, escape } => {
            let t = text_exec(env, path);
            if *escape {
                let e = escape_text(t.as_str());
                out.append(e.as_str());
            } else {
                out.append(t.as_str());
            }
        },
        Op::Code { path, minify, js } => {
            let t = text_exec(env, path);
            if *minify && check_tag_free(t.as_str()) {
                let m = minify_code(t.as_str(), *js, !*js);
                out.append(m.as_str());
            } else {
                out.append(t.as_str());
            }
        },
        Op::If { branches, otherwise } => {
            let i = first_true_exec(env, branches);
            if i < branches.len() {
                exec_ops(&branches[i].body, env, out);
            } else {
                exec_ops(otherwise, env, out);
            }
        },
        Op::For { .. } => {
            exec_loop(op, env, out);
        },
        Op::Match { subject, arms } => {
            let t = operand_exec(env, subject);
            let i = first_arm_exec(env, arms, &t);
            if i < arms.len() {
                exec_ops(&arms[i].body, env, out);
            } else {
                assert(old(out)@ + Seq::<char>::empty() =~= old(out)@);
            }
        },
    }
}

#[verifier::loop_isolation(false)]
fn exec_loop<'a>(op: &Op, env: &mut Vec<Frame<'a>>, out: &mut String)
    requires
        op is For,
    ensures
        final(env)@ == old(env)@,
        final(out)@ == old(out)@ + run_op(*op, frames_view(old(env)@)),
    decreases *op, 0nat,
{
    let ghost fv = frames_view(env@);
    match op {
        Op::For { var, source, body } => {
            let items: &'a Vec<Vec<Binding>> = match lookup_exec(env, source) {
                Some(Value::List(items)) => items,
                _ => {
                    assert(old(out)@ + Seq::<char>::empty() =~= old(out)@);
                    return;
                },
            };
            assert(items@ == items_at(fv, source@));
            let mut k: usize = 0;
            assert(old(out)@ + run_loop(body@, var@, items@.take(0), fv) =~= old(out)@);
            while k < items.len()
                invariant
                    k <= items@.len(),
                    env@ == old(env)@,
                    fv == frames_view(env@),
                    out@ == old(out)@ + run_loop(body@, var@, items@.take(k as int), fv),
                decreases items@.len() - k,
            {
                let ghost env0 = env@;
                env.push(Frame { prefix: var.clone(), fields: &items[k] });
                assert(frames_view(env@) =~= fv.push((var@, items@[k as int]@)));
                exec_ops(body, env, out);
                env.pop();
                assert(env@ =~= env0);
                assert(items@.take(k + 1).drop_last() =~= items@.take(k as int));
                assert(items@.take(k + 1).last() == items@[k as int]);
                assert(out@ =~= old(out)@ + run_loop(body@, var@, items@.take(k + 1), fv));
                k = k + 1;
            }
            assert(items@.take(items@.len() as int) =~= items@);
        },
        _ => {},
    }
}

} // verus!
