use vstd::prelude::*;

use crate::ast::{ArmV, BinaryOp, ExprV, StmtV, UnaryOp};
use crate::checker::{check_binary, check_expr, check_stmt, check_stmts, compatible_types, Binding, Type, TypeEnv};
use crate::host::HostCallV;
use crate::runtime::{scope_types, value_type};
use crate::host::{Outcome, ReplyV};
use crate::ops::{binary_step, builtin_step, unary_step, StepV};
use crate::runtime::{
    apply, env_insert, eval_args, eval_arms, eval_expr, exec_stmt, exec_stmts, find_last,
    lemma_find_last_bounds, lookup, perform, run_program, St,
};
use crate::value::{
    bindings_of, equals, float_eq, float_is_nan, float_is_zero, lemma_text_order_antisym, sign_of,
    total_key, truthy, EntryV, FunctionV, ValueV,
};

verus! {

proof fn lemma_find_last_update(env: Seq<EntryV>, i: int, e: EntryV)
    requires
        find_last(env, e.name) == Some(i),
    ensures
        find_last(env.update(i, e), e.name) == Some(i),
    decreases env.len(),
{
    lemma_find_last_bounds(env, e.name);
    if i < env.len() - 1 {
        assert(env.update(i, e).drop_last() =~= env.drop_last().update(i, e));
        lemma_find_last_update(env.drop_last(), i, e);
    }
}

/// A top-level binding is what its name then denotes.
pub proof fn law_insert_then_lookup(env: Seq<EntryV>, e: EntryV)
    ensures
        lookup(env_insert(env, e), e.name) == Some(e.value),
{
    match find_last(env, e.name) {
        Some(i) => {
            lemma_find_last_update(env, i, e);
            lemma_find_last_bounds(env, e.name);
        },
        None => {
            assert(env.push(e).drop_last() =~= env);
        },
    }
}

/// After `let name = expr` (or `mut`) gives a value, reading `name` gives
/// that value.
pub proof fn law_let_then_read(
    env: Seq<EntryV>,
    name: String,
    mutable: bool,
    expr: ExprV,
    rs: Seq<ReplyV>,
    st: St,
    fuel: nat,
)
    requires
        exec_stmt(env, StmtV::Let { name, mutable, expr }, rs, st).0 is Done,
    ensures
        ({
            let t = exec_stmt(env, StmtV::Let { name, mutable, expr }, rs, st);
            eval_expr(t.1, ExprV::Ident(name), rs, t.2, fuel) == (t.0, t.2)
        }),
{
    let t = exec_stmt(env, StmtV::Let { name, mutable, expr }, rs, st);
    let v = t.0->Done_0;
    law_insert_then_lookup(env, EntryV { name: name@, mutable, value: v });
}

/// After an assignment `name = expr` gives a value, reading `name` gives that value.
pub proof fn law_assign_then_read(env: Seq<EntryV>, name: String, expr: ExprV, rs: Seq<ReplyV>, st: St, fuel: nat)
    requires
        exec_stmt(env, StmtV::Assign { name, expr }, rs, st).0 is Done,
    ensures
        ({
            let t = exec_stmt(env, StmtV::Assign { name, expr }, rs, st);
            eval_expr(t.1, ExprV::Ident(name), rs, t.2, fuel) == (t.0, t.2)
        }),
{
    let i = find_last(env, name@)->Some_0;
    lemma_find_last_bounds(env, name@);
    let t = exec_stmt(env, StmtV::Assign { name, expr }, rs, st);
    let v = t.0->Done_0;
    lemma_find_last_update(env, i, EntryV { name: env[i].name, mutable: true, value: v });
}

/// Assigning to a name whose binding in force is immutable fails, once the
/// right-hand side has a value, and changes no binding.
pub proof fn law_assign_immutable_refused(env: Seq<EntryV>, name: String, expr: ExprV, rs: Seq<ReplyV>, st: St)
    requires
        eval_expr(env, expr, rs, st, crate::runtime::MAX_CALL_DEPTH as nat).0 is Done,
        find_last(env, name@) matches Some(i) && !env[i].mutable,
    ensures
        ({
            let t = exec_stmt(env, StmtV::Assign { name, expr }, rs, st);
            t.0 == Outcome::<ValueV>::Failed("Cannot assign to immutable binding '"@ + name@ + "'"@) && t.1 == env
        }),
{
}

/// Assigning to a name with no binding fails and changes no binding.
pub proof fn law_assign_unknown_refused(env: Seq<EntryV>, name: String, expr: ExprV, rs: Seq<ReplyV>, st: St)
    requires
        eval_expr(env, expr, rs, st, crate::runtime::MAX_CALL_DEPTH as nat).0 is Done,
        find_last(env, name@) is None,
    ensures
        ({
            let t = exec_stmt(env, StmtV::Assign { name, expr }, rs, st);
            t.0 == Outcome::<ValueV>::Failed("Unknown variable '"@ + name@ + "'"@) && t.1 == env
        }),
{
}

/// The built-in names are distinct texts: their lengths, and a differing
/// character for names of equal length.
pub proof fn lemma_builtin_names()
    ensures
        "print"@.len() == 5,
        "len"@.len() == 3,
        "sqrt"@.len() == 4,
        "typeof"@.len() == 6,
        "serve"@.len() == 5,
        "request_method"@.len() == 14,
        "request_path"@.len() == 12,
        "request_body"@.len() == 12,
        "response"@.len() == 8,
        "fetch"@.len() == 5,
        "http_get"@.len() == 8,
        "http_delete"@.len() == 11,
        "http_head"@.len() == 9,
        "http_options"@.len() == 12,
        "http_post"@.len() == 9,
        "http_put"@.len() == 8,
        "http_patch"@.len() == 10,
        "Some"@.len() == 4,
        "Ok"@.len() == 2,
        "Err"@.len() == 3,
        "unwrap_or"@.len() == 9,
        "is_some"@.len() == 7,
        "is_none"@.len() == 7,
        "is_ok"@.len() == 5,
        "is_err"@.len() == 6,
        "print"@ != "serve"@,
        "print"@ != "fetch"@,
        "print"@ != "is_ok"@,
        "len"@ != "Err"@,
        "sqrt"@ != "Some"@,
        "typeof"@ != "is_err"@,
        "serve"@ != "fetch"@,
        "serve"@ != "is_ok"@,
        "request_path"@ != "request_body"@,
        "request_path"@ != "http_options"@,
        "request_body"@ != "http_options"@,
        "response"@ != "http_get"@,
        "response"@ != "http_put"@,
        "fetch"@ != "is_ok"@,
        "http_get"@ != "http_put"@,
        "http_head"@ != "http_post"@,
        "http_head"@ != "unwrap_or"@,
        "http_post"@ != "unwrap_or"@,
        "is_some"@ != "is_none"@,
{
    reveal_strlit("print");
    reveal_strlit("len");
    reveal_strlit("sqrt");
    reveal_strlit("typeof");
    reveal_strlit("serve");
    reveal_strlit("request_method");
    reveal_strlit("request_path");
    reveal_strlit("request_body");
    reveal_strlit("response");
    reveal_strlit("fetch");
    reveal_strlit("http_get");
    reveal_strlit("http_delete");
    reveal_strlit("http_head");
    reveal_strlit("http_options");
    reveal_strlit("http_post");
    reveal_strlit("http_put");
    reveal_strlit("http_patch");
    reveal_strlit("Some");
    reveal_strlit("Ok");
    reveal_strlit("Err");
    reveal_strlit("unwrap_or");
    reveal_strlit("is_some");
    reveal_strlit("is_none");
    reveal_strlit("is_ok");
    reveal_strlit("is_err");
    assert("print"@[0] != "serve"@[0]);
    assert("print"@[0] != "fetch"@[0]);
    assert("print"@[0] != "is_ok"@[0]);
    assert("len"@[0] != "Err"@[0]);
    assert("sqrt"@[0] != "Some"@[0]);
    assert("typeof"@[0] != "is_err"@[0]);
    assert("serve"@[0] != "fetch"@[0]);
    assert("serve"@[0] != "is_ok"@[0]);
    assert("request_path"@[8] != "request_body"@[8]);
    assert("request_path"@[0] != "http_options"@[0]);
    assert("request_body"@[0] != "http_options"@[0]);
    assert("response"@[0] != "http_get"@[0]);
    assert("response"@[0] != "http_put"@[0]);
    assert("fetch"@[0] != "is_ok"@[0]);
    assert("http_get"@[5] != "http_put"@[5]);
    assert("http_head"@[5] != "http_post"@[5]);
    assert("http_head"@[0] != "unwrap_or"@[0]);
    assert("http_post"@[0] != "unwrap_or"@[0]);
    assert("is_some"@[3] != "is_none"@[3]);
}

/// `unwrap_or(w, d)` gives what `Some` or `Ok` wraps, and `d` for `None` or `Err`.
pub proof fn law_unwrap_or(x: ValueV, d: ValueV)
    ensures
        builtin_step("unwrap_or"@, seq![ValueV::SomeV(Box::new(x)), d]) == StepV::Value(x),
        builtin_step("unwrap_or"@, seq![ValueV::NoneV, d]) == StepV::Value(d),
        builtin_step("unwrap_or"@, seq![ValueV::OkV(Box::new(x)), d]) == StepV::Value(x),
        builtin_step("unwrap_or"@, seq![ValueV::ErrV(Box::new(x)), d]) == StepV::Value(d),
{
    lemma_builtin_names();
}

/// `Some(x)` wraps `x`.
pub proof fn law_some(x: ValueV)
    ensures
        builtin_step("Some"@, seq![x]) == StepV::Value(ValueV::SomeV(Box::new(x))),
{
    assert(seq![x][0] == x);
    lemma_builtin_names();
}

/// `Ok(x)` wraps `x`.
pub proof fn law_ok(x: ValueV)
    ensures
        builtin_step("Ok"@, seq![x]) == StepV::Value(ValueV::OkV(Box::new(x))),
{
    assert(seq![x][0] == x);
    lemma_builtin_names();
}

/// `Err(x)` wraps `x`.
pub proof fn law_err(x: ValueV)
    ensures
        builtin_step("Err"@, seq![x]) == StepV::Value(ValueV::ErrV(Box::new(x))),
{
    assert(seq![x][0] == x);
    lemma_builtin_names();
}

/// `is_some(x)` holds exactly of `Some(_)`.
pub proof fn law_is_some(x: ValueV)
    ensures
        builtin_step("is_some"@, seq![x]) == StepV::Value(ValueV::Bool(x is SomeV)),
{
    assert(seq![x][0] == x);
    lemma_builtin_names();
}

/// `is_none(x)` holds exactly of `None`.
pub proof fn law_is_none(x: ValueV)
    ensures
        builtin_step("is_none"@, seq![x]) == StepV::Value(ValueV::Bool(x is NoneV)),
{
    assert(seq![x][0] == x);
    lemma_builtin_names();
}

/// `is_ok(x)` holds exactly of `Ok(_)`.
pub proof fn law_is_ok(x: ValueV)
    ensures
        builtin_step("is_ok"@, seq![x]) == StepV::Value(ValueV::Bool(x is OkV)),
{
    assert(seq![x][0] == x);
    lemma_builtin_names();
}

/// `is_err(x)` holds exactly of `Err(_)`.
pub proof fn law_is_err(x: ValueV)
    ensures
        builtin_step("is_err"@, seq![x]) == StepV::Value(ValueV::Bool(x is ErrV)),
{
    assert(seq![x][0] == x);
    lemma_builtin_names();
}

/// `!` negates truthiness, so `!!v` has the truthiness of `v`.
pub proof fn law_double_negation(v: ValueV)
    ensures
        unary_step(UnaryOp::Not, v) == StepV::Value(ValueV::Bool(!truthy(v))),
        unary_step(UnaryOp::Not, ValueV::Bool(!truthy(v))) == StepV::Value(ValueV::Bool(truthy(v))),
{
}

/// `==` on values is symmetric.
pub proof fn law_equals_symmetric(a: ValueV, b: ValueV)
    ensures
        equals(a, b) == equals(b, a),
    decreases a,
{
    match (a, b) {
        (ValueV::SomeV(x), ValueV::SomeV(y)) => law_equals_symmetric(*x, *y),
        (ValueV::OkV(x), ValueV::OkV(y)) => law_equals_symmetric(*x, *y),
        (ValueV::ErrV(x), ValueV::ErrV(y)) => law_equals_symmetric(*x, *y),
        _ => {},
    }
}

/// A value that holds no function and no NaN.
pub open spec fn plain(v: ValueV) -> bool
    decreases v,
{
    match v {
        ValueV::Float(b) => !crate::value::float_is_nan(b),
        ValueV::Function(_) => false,
        ValueV::SomeV(x) => plain(*x),
        ValueV::OkV(x) => plain(*x),
        ValueV::ErrV(x) => plain(*x),
        _ => true,
    }
}

/// Every value without functions or NaNs equals itself (functions never
/// compare equal, and NaN equals nothing).
pub proof fn law_equals_reflexive(v: ValueV)
    requires
        plain(v),
    ensures
        equals(v, v),
    decreases v,
{
    match v {
        ValueV::SomeV(x) => law_equals_reflexive(*x),
        ValueV::OkV(x) => law_equals_reflexive(*x),
        ValueV::ErrV(x) => law_equals_reflexive(*x),
        _ => {},
    }
}

// ---------------------------------------------------------------------------
// How evaluation uses the output and the host's replies.
// ---------------------------------------------------------------------------

/// State `b` follows from `a`: the output has only grown at its end, and no
/// fewer replies are used.
pub open spec fn extends(a: St, b: St) -> bool {
    a.out.len() <= b.out.len() && b.out.take(a.out.len() as int) == a.out && a.used <= b.used
}

/// `rs` is a prefix of `rs2`.
pub open spec fn prefix_of(rs: Seq<ReplyV>, rs2: Seq<ReplyV>) -> bool {
    rs.len() <= rs2.len() && rs2.take(rs.len() as int) == rs
}

/// What an evaluation step owes: it extends the state, uses at most the
/// replies there are, waits only once all are used, and gives the same
/// result with more replies when it does not wait.
pub open spec fn well_used(r: (Outcome<ValueV>, St), r2: (Outcome<ValueV>, St), rs: Seq<ReplyV>, st: St) -> bool {
    &&& extends(st, r.1)
    &&& (st.used <= rs.len() ==> r.1.used <= rs.len())
    &&& (st.used <= rs.len() && r.0 is Needs ==> r.1.used == rs.len())
    &&& (!(r.0 is Needs) ==> r2 == r)
}

proof fn lemma_extends_trans(a: St, b: St, c: St)
    requires
        extends(a, b),
        extends(b, c),
    ensures
        extends(a, c),
{
    assert(c.out.take(a.out.len() as int) =~= c.out.take(b.out.len() as int).take(a.out.len() as int));
}

proof fn lemma_extends_refl(a: St)
    ensures
        extends(a, a),
{
    assert(a.out.take(a.out.len() as int) =~= a.out);
}

proof fn lemma_perform_use(step: StepV, rs: Seq<ReplyV>, rs2: Seq<ReplyV>, st: St)
    requires
        prefix_of(rs, rs2),
    ensures
        well_used(perform(step, rs, st), perform(step, rs2, st), rs, st),
{
    lemma_extends_refl(st);
    match step {
        StepV::Print(v) => {
            assert(st.out.push(v).take(st.out.len() as int) =~= st.out);
        },
        StepV::Ask(c) => {
            if st.used < rs.len() {
                assert(rs2[st.used as int] == rs2.take(rs.len() as int)[st.used as int]);
            }
        },
        _ => {},
    }
}

proof fn lemma_eval_use(env: Seq<EntryV>, e: ExprV, rs: Seq<ReplyV>, rs2: Seq<ReplyV>, st: St, fuel: nat)
    requires
        prefix_of(rs, rs2),
    ensures
        well_used(eval_expr(env, e, rs, st, fuel), eval_expr(env, e, rs2, st, fuel), rs, st),
    decreases fuel, e, 0nat,
{
    lemma_extends_refl(st);
    match e {
        ExprV::Float(t) => {
            lemma_perform_use(StepV::Ask(crate::host::HostCallV::ParseFloat(t@)), rs, rs2, st);
        },
        ExprV::Unary { op, expr } => {
            let r = eval_expr(env, *expr, rs, st, fuel);
            lemma_eval_use(env, *expr, rs, rs2, st, fuel);
            if let Outcome::Done(v) = r.0 {
                lemma_perform_use(unary_step(op, v), rs, rs2, r.1);
                lemma_extends_trans(st, r.1, perform(unary_step(op, v), rs, r.1).1);
            }
        },
        ExprV::Binary { left, op, right } => {
            let l = eval_expr(env, *left, rs, st, fuel);
            lemma_eval_use(env, *left, rs, rs2, st, fuel);
            if let Outcome::Done(lv) = l.0 {
                let r = eval_expr(env, *right, rs, l.1, fuel);
                lemma_eval_use(env, *right, rs, rs2, l.1, fuel);
                lemma_extends_trans(st, l.1, r.1);
                if let Outcome::Done(rv) = r.0 {
                    lemma_perform_use(binary_step(op, lv, rv), rs, rs2, r.1);
                    lemma_extends_trans(st, r.1, perform(binary_step(op, lv, rv), rs, r.1).1);
                }
            }
        },
        ExprV::Call { callee, args } => {
            let a = eval_args(env, args, rs, st, fuel);
            lemma_args_use(env, args, rs, rs2, st, fuel);
            if let Outcome::Done(vals) = a.0 {
                match *callee {
                    ExprV::Ident(name) => match lookup(env, name@) {
                        Some(ValueV::Function(f)) => {
                            if fuel > 0 {
                                lemma_apply_use(f, vals, rs, rs2, a.1, (fuel - 1) as nat);
                                lemma_extends_trans(st, a.1, apply(f, vals, rs, a.1, (fuel - 1) as nat).1);
                            }
                        },
                        _ => {
                            lemma_perform_use(builtin_step(name@, vals), rs, rs2, a.1);
                            lemma_extends_trans(st, a.1, perform(builtin_step(name@, vals), rs, a.1).1);
                        },
                    },
                    _ => {
                        let c = eval_expr(env, *callee, rs, a.1, fuel);
                        lemma_eval_use(env, *callee, rs, rs2, a.1, fuel);
                        lemma_extends_trans(st, a.1, c.1);
                        if let Outcome::Done(ValueV::Function(f)) = c.0 {
                            if fuel > 0 {
                                lemma_apply_use(f, vals, rs, rs2, c.1, (fuel - 1) as nat);
                                lemma_extends_trans(st, c.1, apply(f, vals, rs, c.1, (fuel - 1) as nat).1);
                            }
                        }
                    },
                }
            }
        },
        ExprV::Match { value, arms } => {
            let v = eval_expr(env, *value, rs, st, fuel);
            lemma_eval_use(env, *value, rs, rs2, st, fuel);
            if let Outcome::Done(x) = v.0 {
                lemma_arms_use(env, x, arms, rs, rs2, v.1, fuel);
                lemma_extends_trans(st, v.1, eval_arms(env, x, arms, rs, v.1, fuel).1);
            }
        },
        _ => {},
    }
}

proof fn lemma_args_use(env: Seq<EntryV>, args: Seq<ExprV>, rs: Seq<ReplyV>, rs2: Seq<ReplyV>, st: St, fuel: nat)
    requires
        prefix_of(rs, rs2),
    ensures
        ({
            let r = eval_args(env, args, rs, st, fuel);
            &&& extends(st, r.1)
            &&& (st.used <= rs.len() ==> r.1.used <= rs.len())
            &&& (st.used <= rs.len() && r.0 is Needs ==> r.1.used == rs.len())
            &&& (!(r.0 is Needs) ==> eval_args(env, args, rs2, st, fuel) == r)
        }),
    decreases fuel, args, 1nat,
{
    lemma_extends_refl(st);
    if args.len() > 0 {
        let a = eval_args(env, args.drop_last(), rs, st, fuel);
        lemma_args_use(env, args.drop_last(), rs, rs2, st, fuel);
        if let Outcome::Done(vals) = a.0 {
            lemma_eval_use(env, args.last(), rs, rs2, a.1, fuel);
            lemma_extends_trans(st, a.1, eval_expr(env, args.last(), rs, a.1, fuel).1);
        }
    }
}

proof fn lemma_arms_use(
    env: Seq<EntryV>,
    v: ValueV,
    arms: Seq<ArmV>,
    rs: Seq<ReplyV>,
    rs2: Seq<ReplyV>,
    st: St,
    fuel: nat,
)
    requires
        prefix_of(rs, rs2),
    ensures
        well_used(eval_arms(env, v, arms, rs, st, fuel), eval_arms(env, v, arms, rs2, st, fuel), rs, st),
    decreases fuel, arms, 1nat,
{
    lemma_extends_refl(st);
    if arms.len() > 0 {
        match bindings_of(arms[0].pattern, v) {
            Some(bs) => lemma_eval_use(env + bs, arms[0].expr, rs, rs2, st, fuel),
            None => lemma_arms_use(env, v, arms.drop_first(), rs, rs2, st, fuel),
        }
    }
}

proof fn lemma_apply_use(f: FunctionV, args: Seq<ValueV>, rs: Seq<ReplyV>, rs2: Seq<ReplyV>, st: St, fuel: nat)
    requires
        prefix_of(rs, rs2),
    ensures
        well_used(apply(f, args, rs, st, fuel), apply(f, args, rs2, st, fuel), rs, st),
    decreases fuel, f.body, 1nat,
{
    lemma_extends_refl(st);
    if args.len() == f.params.len() {
        lemma_eval_use(crate::runtime::bind_args(crate::runtime::call_scope(f), f.params, args), f.body, rs, rs2, st, fuel);
    }
}

/// Evaluating an expression only appends to the output, and it gives the
/// same result when the host has answered more calls than it used.
pub proof fn law_eval_extends(env: Seq<EntryV>, e: ExprV, rs: Seq<ReplyV>, rs2: Seq<ReplyV>, st: St, fuel: nat)
    requires
        prefix_of(rs, rs2),
    ensures
        extends(st, eval_expr(env, e, rs, st, fuel).1),
        !(eval_expr(env, e, rs, st, fuel).0 is Needs) ==> eval_expr(env, e, rs2, st, fuel) == eval_expr(
            env,
            e,
            rs,
            st,
            fuel,
        ),
{
    lemma_eval_use(env, e, rs, rs2, st, fuel);
}

proof fn lemma_stmt_use(env: Seq<EntryV>, s: StmtV, rs: Seq<ReplyV>, rs2: Seq<ReplyV>, st: St)
    requires
        prefix_of(rs, rs2),
    ensures
        ({
            let r = exec_stmt(env, s, rs, st);
            &&& extends(st, r.2)
            &&& (st.used <= rs.len() ==> r.2.used <= rs.len())
            &&& (st.used <= rs.len() && r.0 is Needs ==> r.2.used == rs.len())
            &&& (!(r.0 is Needs) ==> exec_stmt(env, s, rs2, st) == r)
        }),
{
    lemma_extends_refl(st);
    let m = crate::runtime::MAX_CALL_DEPTH as nat;
    match s {
        StmtV::Let { name, mutable, expr } => lemma_eval_use(env, expr, rs, rs2, st, m),
        StmtV::Fn { name, params, body } => {},
        StmtV::Assign { name, expr } => lemma_eval_use(env, expr, rs, rs2, st, m),
        StmtV::Expr(e) => lemma_eval_use(env, e, rs, rs2, st, m),
    }
}

proof fn lemma_stmts_use(env: Seq<EntryV>, ss: Seq<StmtV>, rs: Seq<ReplyV>, rs2: Seq<ReplyV>, st: St)
    requires
        prefix_of(rs, rs2),
    ensures
        ({
            let r = exec_stmts(env, ss, rs, st);
            &&& extends(st, r.2)
            &&& (st.used <= rs.len() ==> r.2.used <= rs.len())
            &&& (st.used <= rs.len() && r.0 is Needs ==> r.2.used == rs.len())
            &&& (!(r.0 is Needs) ==> exec_stmts(env, ss, rs2, st) == r)
        }),
    decreases ss.len(),
{
    lemma_extends_refl(st);
    if ss.len() > 0 {
        let r = exec_stmts(env, ss.drop_last(), rs, st);
        lemma_stmts_use(env, ss.drop_last(), rs, rs2, st);
        if r.0 is Done {
            lemma_stmt_use(r.1, ss.last(), rs, rs2, r.2);
            lemma_extends_trans(st, r.2, exec_stmt(r.1, ss.last(), rs, r.2).2);
        }
    }
}

/// The host protocol of a program run. A run that finishes (with a value or
/// an error) finishes the same way when more replies are supplied; a run
/// that waits for the host has used every reply it was given, so each round
/// of the host adds exactly the reply to the call it was shown. The output
/// of a run only grows by appending.
pub proof fn law_run_replay(env: Seq<EntryV>, ss: Seq<StmtV>, rs: Seq<ReplyV>, rs2: Seq<ReplyV>)
    requires
        prefix_of(rs, rs2),
    ensures
        !(run_program(env, ss, rs).0 is Needs) ==> run_program(env, ss, rs2) == run_program(env, ss, rs),
        run_program(env, ss, rs).0 is Needs ==> run_program(env, ss, rs).2.used == rs.len(),
        run_program(env, ss, rs).2.used <= rs.len(),
{
    lemma_stmts_use(env, ss, rs, rs2, St { out: Seq::empty(), used: 0 });
}

// ---------------------------------------------------------------------------
// Laws of the checker and of the operators.
// ---------------------------------------------------------------------------

/// A checked `let` binds its name with the declared mutability and the
/// type of its expression.
pub proof fn law_check_let_binds(env: TypeEnv, name: String, mutable: bool, expr: ExprV)
    requires
        check_expr(env, expr) is Ok,
    ensures
        check_stmt(env, StmtV::Let { name, mutable, expr }) matches Ok(scope) && scope.contains_key(name@)
            && scope[name@] == (Binding { mutable, ty: check_expr(env, expr)->Ok_0 }),
{
}

/// An expression statement never changes the bindings.
pub proof fn law_expr_stmt_keeps_bindings(env: Seq<EntryV>, e: ExprV, rs: Seq<ReplyV>, st: St)
    ensures
        exec_stmt(env, StmtV::Expr(e), rs, st).1 == env,
{
}

/// `a < b` holds exactly when `b > a` does, and `a <= b` exactly when
/// `b >= a`, for two integers, two doubles or two strings.
pub proof fn law_comparison_converse(a: ValueV, b: ValueV)
    requires
        (a is Int && b is Int) || (a is Float && b is Float) || (a is Str && b is Str),
    ensures
        binary_step(BinaryOp::Lt, a, b) == binary_step(BinaryOp::Gt, b, a),
        binary_step(BinaryOp::Le, a, b) == binary_step(BinaryOp::Ge, b, a),
{
    if let (ValueV::Str(x), ValueV::Str(y)) = (a, b) {
        lemma_text_order_antisym(x, y);
    }
}

/// Under `f64::total_cmp` every double is equal to itself, and `-0.0`
/// ranks below `+0.0`.
pub proof fn law_float_total_order(b: u64)
    ensures
        sign_of(total_key(b), total_key(b)) == 0,
        total_key(0x8000_0000_0000_0000u64) < total_key(0u64),
{
}

/// `==` on doubles: a double that is not NaN equals itself, NaN equals
/// nothing, and the two zeros are equal.
pub proof fn law_float_equality(b: u64)
    ensures
        !float_is_nan(b) ==> float_eq(b, b),
        float_is_nan(b) ==> !float_eq(b, b),
        float_is_zero(0u64) && float_is_zero(0x8000_0000_0000_0000u64),
        float_eq(0u64, 0x8000_0000_0000_0000u64),
{
    assert(0u64 & 0x7fff_ffff_ffff_ffffu64 == 0) by (bit_vector);
    assert(0x8000_0000_0000_0000u64 & 0x7fff_ffff_ffff_ffffu64 == 0) by (bit_vector);
    assert(!float_is_nan(0u64)) by (bit_vector);
    assert(!float_is_nan(0x8000_0000_0000_0000u64)) by (bit_vector);
}

/// The remainder `a % b` of two integers is smaller than `b` in size, and
/// is zero or has the sign of `a`.
pub proof fn law_remainder(a: i64, b: i64)
    requires
        b != 0,
        !(a == i64::MIN && b == -1),
    ensures
        binary_step(BinaryOp::Mod, ValueV::Int(a), ValueV::Int(b)) matches StepV::Value(ValueV::Int(r)) && (if b
            < 0 {
            -(b as int)
        } else {
            b as int
        }) > (if r < 0 {
            -(r as int)
        } else {
            r as int
        }) && (r == 0 || ((r < 0) == (a < 0))),
{
    let ma: int = if a < 0 { -(a as int) } else { a as int };
    let mb: int = if b < 0 { -(b as int) } else { b as int };
    assert(0 <= ma % mb < mb) by (nonlinear_arith)
        requires
            mb > 0,
            ma >= 0,
    ;
}

/// A function declaration binds its name to a function value that closes
/// over the bindings before the declaration and carries its own name; a
/// call of it starts from those bindings with the name bound to the
/// function itself, so that its body can call it.
pub proof fn law_fn_declaration(
    env: Seq<EntryV>,
    name: String,
    params: Seq<String>,
    body: ExprV,
    rs: Seq<ReplyV>,
    st: St,
)
    ensures
        ({
            let f = ValueV::Function(FunctionV { params, body, captured: env, self_name: Some(name@) });
            &&& exec_stmt(env, StmtV::Fn { name, params, body }, rs, st) == (
                Outcome::Done(f),
                env_insert(env, EntryV { name: name@, mutable: false, value: f }),
                st,
            )
            &&& crate::runtime::call_scope(f->Function_0) == env.push(EntryV { name: name@, mutable: false, value: f })
        }),
{
}

// ---------------------------------------------------------------------------
// What the checker's verdict promises of the run.
// ---------------------------------------------------------------------------

/// The checker's scope and the run's bindings name the same things, with
/// the same mutability.
pub open spec fn scopes_agree(tenv: TypeEnv, env: Seq<EntryV>) -> bool {
    forall|k: Seq<char>|
        #![trigger tenv.contains_key(k)]
        #![trigger find_last(env, k)]
        (tenv.contains_key(k) <==> find_last(env, k) is Some) && (tenv.contains_key(k)
            ==> tenv[k].mutable == env[find_last(env, k)->Some_0].mutable)
}

proof fn lemma_find_last_other_update(env: Seq<EntryV>, i: int, e: EntryV, k: Seq<char>)
    requires
        0 <= i < env.len(),
        env[i].name == e.name,
        k != e.name,
    ensures
        find_last(env.update(i, e), k) == find_last(env, k),
    decreases env.len(),
{
    if env.len() > 0 {
        if i < env.len() - 1 {
            assert(env.update(i, e).drop_last() =~= env.drop_last().update(i, e));
            lemma_find_last_other_update(env.drop_last(), i, e, k);
        } else {
            assert(env.update(i, e).drop_last() =~= env.drop_last());
        }
    }
}

proof fn lemma_find_last_push(env: Seq<EntryV>, e: EntryV, k: Seq<char>)
    ensures
        find_last(env.push(e), k) == (if k == e.name { Some(env.len() as int) } else { find_last(env, k) }),
{
    assert(env.push(e).drop_last() =~= env);
}

/// Inserting a binding at the top level keeps the scopes agreeing with a
/// checker scope that inserts the same name and mutability.
proof fn lemma_insert_agrees(tenv: TypeEnv, env: Seq<EntryV>, b: Binding, e: EntryV)
    requires
        scopes_agree(tenv, env),
        b.mutable == e.mutable,
    ensures
        scopes_agree(tenv.insert(e.name, b), env_insert(env, e)),
{
    let after = env_insert(env, e);
    match find_last(env, e.name) {
        Some(i) => {
            lemma_find_last_bounds(env, e.name);
            lemma_find_last_update(env, i, e);
            assert forall|k: Seq<char>| #![auto] k != e.name implies find_last(after, k) == find_last(env, k) by {
                lemma_find_last_other_update(env, i, e, k);
            }
            assert forall|k: Seq<char>| #![auto] find_last(after, k) is Some && k != e.name implies after[find_last(
                after,
                k,
            )->Some_0].mutable == env[find_last(env, k)->Some_0].mutable by {
                lemma_find_last_other_update(env, i, e, k);
                lemma_find_last_bounds(env, k);
            }
        },
        None => {
            assert forall|k: Seq<char>| #![auto] true implies find_last(after, k) == (if k == e.name {
                Some(env.len() as int)
            } else {
                find_last(env, k)
            }) by {
                lemma_find_last_push(env, e, k);
            }
            assert forall|k: Seq<char>| #![auto] find_last(after, k) is Some && k != e.name implies after[find_last(
                after,
                k,
            )->Some_0].mutable == env[find_last(env, k)->Some_0].mutable by {
                lemma_find_last_push(env, e, k);
                lemma_find_last_bounds(env, k);
            }
        },
    }
}

/// A statement that the checker accepts and that runs to a value keeps the
/// checker's scope and the run's bindings in agreement.
pub proof fn law_checked_statement_keeps_scopes(tenv: TypeEnv, env: Seq<EntryV>, s: StmtV, rs: Seq<ReplyV>, st: St)
    requires
        scopes_agree(tenv, env),
        check_stmt(tenv, s) is Ok,
        exec_stmt(env, s, rs, st).0 is Done,
    ensures
        scopes_agree(check_stmt(tenv, s)->Ok_0, exec_stmt(env, s, rs, st).1),
{
    let t = exec_stmt(env, s, rs, st);
    match s {
        StmtV::Let { name, mutable, expr } => {
            let v = t.0->Done_0;
            lemma_insert_agrees(
                tenv,
                env,
                Binding { mutable, ty: check_expr(tenv, expr)->Ok_0 },
                EntryV { name: name@, mutable, value: v },
            );
        },
        StmtV::Fn { name, params, body } => {
            let f = ValueV::Function(FunctionV { params, body, captured: env, self_name: Some(name@) });
            lemma_insert_agrees(
                tenv,
                env,
                Binding { mutable: false, ty: crate::checker::Type::Fn(params.len() as usize) },
                EntryV { name: name@, mutable: false, value: f },
            );
        },
        StmtV::Assign { name, expr } => {
            let i = find_last(env, name@)->Some_0;
            lemma_find_last_bounds(env, name@);
            let e = EntryV { name: env[i].name, mutable: true, value: t.0->Done_0 };
            lemma_find_last_update(env, i, e);
            assert forall|k: Seq<char>| #![auto] k != name@ implies find_last(t.1, k) == find_last(env, k) by {
                lemma_find_last_other_update(env, i, e, k);
            }
            assert forall|k: Seq<char>| #![auto] find_last(t.1, k) is Some && k != name@ implies t.1[find_last(
                t.1,
                k,
            )->Some_0].mutable == env[find_last(env, k)->Some_0].mutable by {
                lemma_find_last_other_update(env, i, e, k);
                lemma_find_last_bounds(env, k);
            }
        },
        StmtV::Expr(e) => {},
    }
}

/// An assignment that the checker accepts, in scopes that agree, assigns:
/// once its right-hand side has a value, it neither meets an unknown name
/// nor an immutable binding.
pub proof fn law_checked_assignment_succeeds(
    tenv: TypeEnv,
    env: Seq<EntryV>,
    name: String,
    expr: ExprV,
    rs: Seq<ReplyV>,
    st: St,
)
    requires
        scopes_agree(tenv, env),
        check_stmt(tenv, StmtV::Assign { name, expr }) is Ok,
        eval_expr(env, expr, rs, st, crate::runtime::MAX_CALL_DEPTH as nat).0 is Done,
    ensures
        exec_stmt(env, StmtV::Assign { name, expr }, rs, st).0 is Done,
{
    assert(tenv.contains_key(name@));
    lemma_find_last_bounds(env, name@);
}

/// A program that the checker accepts from an empty scope, and that runs to
/// a value from no bindings, ends with the checker's scope and the run's
/// bindings in agreement.
pub proof fn law_checked_program_scopes(ss: Seq<StmtV>, rs: Seq<ReplyV>)
    requires
        check_stmts(Map::<Seq<char>, Binding>::empty(), ss) is Ok,
        run_program(Seq::empty(), ss, rs).0 is Done,
    ensures
        scopes_agree(check_stmts(Map::<Seq<char>, Binding>::empty(), ss)->Ok_0, run_program(Seq::empty(), ss, rs).1),
{
    lemma_checked_stmts_agree(ss, rs, St { out: Seq::empty(), used: 0 });
}

proof fn lemma_checked_stmts_agree(ss: Seq<StmtV>, rs: Seq<ReplyV>, st: St)
    requires
        check_stmts(Map::<Seq<char>, Binding>::empty(), ss) is Ok,
        exec_stmts(Seq::empty(), ss, rs, st).0 is Done,
    ensures
        scopes_agree(check_stmts(Map::<Seq<char>, Binding>::empty(), ss)->Ok_0, exec_stmts(Seq::empty(), ss, rs, st).1),
    decreases ss.len(),
{
    let empty = Map::<Seq<char>, Binding>::empty();
    if ss.len() == 0 {
        assert forall|k: Seq<char>| #![auto] find_last(Seq::<EntryV>::empty(), k) is None by {}
    } else {
        let r = exec_stmts(Seq::empty(), ss.drop_last(), rs, st);
        assert(r.0 is Done);
        lemma_checked_stmts_agree(ss.drop_last(), rs, st);
        law_checked_statement_keeps_scopes(check_stmts(empty, ss.drop_last())->Ok_0, r.1, ss.last(), rs, r.2);
    }
}

/// The checker's scope built from a runtime's bindings (`scope_types`)
/// agrees with them, so the laws above carry over from one source to the
/// next in the same runtime.
pub proof fn law_scope_types_agree(env: Seq<EntryV>)
    ensures
        scopes_agree(crate::runtime::scope_types(env), env),
    decreases env.len(),
{
    if env.len() > 0 {
        law_scope_types_agree(env.drop_last());
        let d = env.drop_last();
        assert forall|k: Seq<char>| #![auto] find_last(env, k) == (if env.last().name == k {
            Some(env.len() - 1)
        } else {
            find_last(d, k)
        }) by {}
        assert forall|k: Seq<char>| #![auto] find_last(d, k) is Some implies env[find_last(d, k)->Some_0] == d[find_last(
            d,
            k,
        )->Some_0] by {
            lemma_find_last_bounds(d, k);
        }
    }
}

// ---------------------------------------------------------------------------
// Laws of the checker's types.
// ---------------------------------------------------------------------------

/// Every type is compatible with itself.
pub proof fn law_compatible_reflexive(t: Type)
    ensures
        compatible_types(t, t),
{
}

/// Compatibility does not depend on which type is expected.
pub proof fn law_compatible_symmetric(a: Type, b: Type)
    ensures
        compatible_types(a, b) == compatible_types(b, a),
    decreases a,
{
    match (a, b) {
        (Type::OptionT(x), Type::OptionT(y)) => law_compatible_symmetric(*x, *y),
        (Type::ResultT(x1, x2), Type::ResultT(y1, y2)) => {
            law_compatible_symmetric(*x1, *y1);
            law_compatible_symmetric(*x2, *y2);
        },
        _ => {},
    }
}

/// Compatibility, case by case: `Unknown` is compatible with every type;
/// two function types when their arities agree; two `Option` types, or two
/// `Result` types, when their parts are compatible part by part; any other
/// two types only when they are the same type.
pub proof fn law_compatible_cases(a: Type, b: Type)
    ensures
        compatible_types(Type::Unknown, b),
        compatible_types(a, Type::Unknown),
        compatible_types(a, b) == match (a, b) {
            (Type::Unknown, _) => true,
            (_, Type::Unknown) => true,
            (Type::Fn(m), Type::Fn(n)) => m == n,
            (Type::OptionT(x), Type::OptionT(y)) => compatible_types(*x, *y),
            (Type::ResultT(x1, x2), Type::ResultT(y1, y2)) => compatible_types(*x1, *y1) && compatible_types(*x2, *y2),
            _ => a == b,
        },
{
    match (a, b) {
        (Type::OptionT(x), Type::OptionT(y)) => law_compatible_reflexive(*x),
        (Type::ResultT(x1, x2), Type::ResultT(y1, y2)) => {
            law_compatible_reflexive(*x1);
            law_compatible_reflexive(*x2);
        },
        _ => {},
    }
}

/// A step gives a value of type `t`: directly, or through the host's reply
/// (a double, an ordering turned into a `Bool`, or joined text); or it fails
/// only on a zero divisor or an integer overflow.
pub open spec fn step_has_type(s: StepV, t: Type) -> bool {
    match s {
        StepV::Value(v) => value_type(v) == t,
        StepV::Ask(c) => match c {
            HostCallV::Arith { .. } => t == Type::Float,
            HostCallV::Order { .. } => t == Type::Bool,
            HostCallV::Join(_) => t == Type::Str,
            _ => false,
        },
        StepV::Fail(m) => m == "Division by zero"@ || m == "attempt to add with overflow"@ || m
            == "attempt to subtract with overflow"@ || m == "attempt to multiply with overflow"@ || m
            == "attempt to calculate the remainder with overflow"@,
        StepV::Print(_) => false,
    }
}

/// A type a value of the language can have, among the checker's plain types.
pub open spec fn plain_type(t: Type) -> bool {
    t == Type::Int || t == Type::Float || t == Type::Bool || t == Type::Str
}

/// The checker's type for an operator holds at run time: when it accepts
/// `a op b` for the types of `a` and `b`, the operator gives a value of the
/// type it found, or fails only on a zero divisor or an overflow. This fails
/// for `^` on two integers (the checker says `Int`, the run gives a double),
/// which is left out.
pub proof fn law_checked_operator_types(op: BinaryOp, a: ValueV, b: ValueV)
    requires
        op != BinaryOp::And && op != BinaryOp::Or && op != BinaryOp::Pipe,
        plain_type(value_type(a)),
        plain_type(value_type(b)),
        check_binary(op, value_type(a), value_type(b)) is Ok,
        !(op == BinaryOp::Pow && a is Int && b is Int),
    ensures
        step_has_type(binary_step(op, a, b), check_binary(op, value_type(a), value_type(b))->Ok_0),
{
    let s = binary_step(op, a, b);
    if op == BinaryOp::Add && !(a is Int && b is Int) && !(a is Str && b is Str) && (a is Str || b is Str) {
        let ps = crate::value::render(a) + crate::value::render(b);
        assert(s == crate::ops::concat_step(a, b));
    }
}

/// A program that the checker accepts from the scope of a runtime's
/// bindings, and that runs to a value from those bindings, ends with the
/// checker's scope and the run's bindings in agreement.
pub proof fn law_checked_run_scopes(env: Seq<EntryV>, ss: Seq<StmtV>, rs: Seq<ReplyV>)
    requires
        check_stmts(scope_types(env), ss) is Ok,
        run_program(env, ss, rs).0 is Done,
    ensures
        scopes_agree(check_stmts(scope_types(env), ss)->Ok_0, run_program(env, ss, rs).1),
{
    law_scope_types_agree(env);
    lemma_checked_stmts_agree_from(scope_types(env), env, ss, rs, St { out: Seq::empty(), used: 0 });
}

proof fn lemma_checked_stmts_agree_from(tenv: TypeEnv, env: Seq<EntryV>, ss: Seq<StmtV>, rs: Seq<ReplyV>, st: St)
    requires
        scopes_agree(tenv, env),
        check_stmts(tenv, ss) is Ok,
        exec_stmts(env, ss, rs, st).0 is Done,
    ensures
        scopes_agree(check_stmts(tenv, ss)->Ok_0, exec_stmts(env, ss, rs, st).1),
    decreases ss.len(),
{
    if ss.len() > 0 {
        let r = exec_stmts(env, ss.drop_last(), rs, st);
        assert(r.0 is Done);
        lemma_checked_stmts_agree_from(tenv, env, ss.drop_last(), rs, st);
        law_checked_statement_keeps_scopes(check_stmts(tenv, ss.drop_last())->Ok_0, r.1, ss.last(), rs, r.2);
    }
}

} // verus!
