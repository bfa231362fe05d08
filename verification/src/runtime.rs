use vstd::prelude::*;

use crate::ast::{
    arms_model, exprs_model, lemma_arms_model_index, lemma_exprs_model_index, stmts_view, ArmV,
    BinaryOp, Expr, ExprV, Stmt, StmtV,
};
use crate::checker::{Binding, Checker, Type, TypeEnv};
use crate::error::EiriadError;
use crate::host::{absorb, exec_absorb, flow_view, replies_view, Flow, HostCall, HostCallV, Outcome, Reply, ReplyV};
use crate::ops::{binary_step, builtin_step, call_builtin, eval_binary, eval_unary, unary_step, Step, StepV};
use crate::text::{decimal, push_decimal, push_str};
use crate::value::{
    bindings_of, duplicate_entries, entries_view, lemma_entries_view_concat, lemma_entries_view_index,
    lemma_entries_view_push, lemma_entries_view_update, lemma_text_order_antisym, pattern_bindings,
    pieces_view, render, text_order, text_piece, truthy, values_view, Entry, EntryV, FunctionV,
    HttpRequestValue, Piece, PieceV, UserFunction, Value, ValueV,
};

verus! {

/// How many user-function calls may be nested. The bound is the largest a
/// `u64` holds, so in practice nesting is limited by the machine's stack
/// alone; the count only gives evaluation a measure that decreases.
pub const MAX_CALL_DEPTH: u64 = 18446744073709551615;

/// What evaluation has produced so far: the values printed, and how many of
/// the host's replies it has used.
pub struct St {
    pub out: Seq<ValueV>,
    pub used: nat,
}

// ---------------------------------------------------------------------------
// Scopes.
// ---------------------------------------------------------------------------

/// The index of the last binding of `name`, which hides any earlier one.
pub open spec fn find_last(env: Seq<EntryV>, name: Seq<char>) -> Option<int>
    decreases env.len(),
{
    if env.len() == 0 {
        None
    } else if env.last().name == name {
        Some(env.len() - 1)
    } else {
        find_last(env.drop_last(), name)
    }
}

/// The value bound to `name`, if any.
pub open spec fn lookup(env: Seq<EntryV>, name: Seq<char>) -> Option<ValueV> {
    match find_last(env, name) {
        Some(i) => Some(env[i].value),
        None => None,
    }
}

/// A binding made at the top level: it replaces the binding of its name, or
/// is added when there is none.
pub open spec fn env_insert(env: Seq<EntryV>, e: EntryV) -> Seq<EntryV> {
    match find_last(env, e.name) {
        Some(i) => env.update(i, e),
        None => env.push(e),
    }
}

/// The bindings a call starts from: the captured ones, then, for a declared
/// function, its own name bound to the function.
pub open spec fn call_scope(f: FunctionV) -> Seq<EntryV> {
    match f.self_name {
        Some(n) => f.captured.push(EntryV { name: n, mutable: false, value: ValueV::Function(f) }),
        None => f.captured,
    }
}

/// The scope of a call: the call's starting bindings, then each parameter
/// bound to its argument.
pub open spec fn bind_args(captured: Seq<EntryV>, params: Seq<String>, args: Seq<ValueV>) -> Seq<EntryV> {
    captured + Seq::new(params.len(), |k: int| EntryV { name: params[k]@, mutable: false, value: args[k] })
}

// ---------------------------------------------------------------------------
// The evaluation rules.
// ---------------------------------------------------------------------------

/// Carrying out a step: printing appends to the output; asking the host uses
/// the next reply, or stops with the call when no reply is left.
pub open spec fn perform(step: StepV, rs: Seq<ReplyV>, st: St) -> (Outcome<ValueV>, St) {
    match step {
        StepV::Value(v) => (Outcome::Done(v), st),
        StepV::Fail(m) => (Outcome::Failed(m), st),
        StepV::Print(v) => (Outcome::Done(ValueV::Unit), St { out: st.out.push(v), used: st.used }),
        StepV::Ask(c) => if st.used < rs.len() {
            (absorb(c, rs[st.used as int]), St { out: st.out, used: st.used + 1 })
        } else {
            (Outcome::Needs(c), st)
        },
    }
}

/// The error for a call nested too deeply.
pub open spec fn depth_msg() -> Seq<char> {
    "maximum call depth exceeded"@
}

pub open spec fn arity_error(expected: nat, got: nat) -> Seq<char> {
    "Function expects "@ + decimal(expected) + " argument(s), got "@ + decimal(got)
}

/// The value of an expression in scope `env`, with `fuel` more nested calls allowed.
pub open spec fn eval_expr(env: Seq<EntryV>, e: ExprV, rs: Seq<ReplyV>, st: St, fuel: nat) -> (Outcome<ValueV>, St)
    decreases fuel, e, 0nat,
{
    match e {
        ExprV::Int(n) => (Outcome::Done(ValueV::Int(n)), st),
        ExprV::Float(t) => perform(StepV::Ask(HostCallV::ParseFloat(t@)), rs, st),
        ExprV::Bool(b) => (Outcome::Done(ValueV::Bool(b)), st),
        ExprV::Str(s) => (Outcome::Done(ValueV::Str(s@)), st),
        ExprV::NoneLit => (Outcome::Done(ValueV::NoneV), st),
        ExprV::Ident(name) => match lookup(env, name@) {
            Some(v) => (Outcome::Done(v), st),
            None => (Outcome::Failed("Unknown variable '"@ + name@ + "'"@), st),
        },
        ExprV::Unary { op, expr } => {
            let r = eval_expr(env, *expr, rs, st, fuel);
            match r.0 {
                Outcome::Done(v) => perform(unary_step(op, v), rs, r.1),
                _ => r,
            }
        },
        ExprV::Binary { left, op, right } => {
            let l = eval_expr(env, *left, rs, st, fuel);
            match l.0 {
                Outcome::Done(lv) => if op == BinaryOp::And && !truthy(lv) {
                    (Outcome::Done(ValueV::Bool(false)), l.1)
                } else if op == BinaryOp::Or && truthy(lv) {
                    (Outcome::Done(ValueV::Bool(true)), l.1)
                } else {
                    let r = eval_expr(env, *right, rs, l.1, fuel);
                    match r.0 {
                        Outcome::Done(rv) => if op == BinaryOp::And || op == BinaryOp::Or {
                            (Outcome::Done(ValueV::Bool(truthy(rv))), r.1)
                        } else {
                            perform(binary_step(op, lv, rv), rs, r.1)
                        },
                        _ => r,
                    }
                },
                _ => l,
            }
        },
        ExprV::Lambda { params, body } => (
            Outcome::Done(ValueV::Function(FunctionV { params, body: *body, captured: env, self_name: None })),
            st,
        ),
        ExprV::Call { callee, args } => {
            let a = eval_args(env, args, rs, st, fuel);
            match a.0 {
                Outcome::Done(vals) => match *callee {
                    ExprV::Ident(name) => match lookup(env, name@) {
                        Some(ValueV::Function(f)) => if fuel == 0 {
                            (Outcome::Failed(depth_msg()), a.1)
                        } else {
                            apply(f, vals, rs, a.1, (fuel - 1) as nat)
                        },
                        _ => perform(builtin_step(name@, vals), rs, a.1),
                    },
                    _ => {
                        let c = eval_expr(env, *callee, rs, a.1, fuel);
                        match c.0 {
                            Outcome::Done(ValueV::Function(f)) => if fuel == 0 {
                                (Outcome::Failed(depth_msg()), c.1)
                            } else {
                                apply(f, vals, rs, c.1, (fuel - 1) as nat)
                            },
                            Outcome::Done(_) => (Outcome::Failed("Expression is not callable"@), c.1),
                            _ => c,
                        }
                    },
                },
                Outcome::Failed(m) => (Outcome::Failed(m), a.1),
                Outcome::Needs(c) => (Outcome::Needs(c), a.1),
            }
        },
        ExprV::Match { value, arms } => {
            let v = eval_expr(env, *value, rs, st, fuel);
            match v.0 {
                Outcome::Done(x) => eval_arms(env, x, arms, rs, v.1, fuel),
                _ => v,
            }
        },
    }
}

/// The values of arguments, evaluated left to right.
pub open spec fn eval_args(env: Seq<EntryV>, args: Seq<ExprV>, rs: Seq<ReplyV>, st: St, fuel: nat) -> (
    Outcome<Seq<ValueV>>,
    St,
)
    decreases fuel, args, 1nat,
{
    if args.len() == 0 {
        (Outcome::Done(Seq::empty()), st)
    } else {
        let a = eval_args(env, args.drop_last(), rs, st, fuel);
        match a.0 {
            Outcome::Done(vals) => {
                let r = eval_expr(env, args.last(), rs, a.1, fuel);
                match r.0 {
                    Outcome::Done(v) => (Outcome::Done(vals.push(v)), r.1),
                    Outcome::Failed(m) => (Outcome::Failed(m), r.1),
                    Outcome::Needs(c) => (Outcome::Needs(c), r.1),
                }
            },
            _ => a,
        }
    }
}

/// The value of the first arm whose pattern matches `v`, evaluated with the
/// pattern's bindings added to the scope.
pub open spec fn eval_arms(env: Seq<EntryV>, v: ValueV, arms: Seq<ArmV>, rs: Seq<ReplyV>, st: St, fuel: nat) -> (
    Outcome<ValueV>,
    St,
)
    decreases fuel, arms, 1nat,
{
    if arms.len() == 0 {
        (Outcome::Failed("No match arm matched the value"@), st)
    } else {
        match bindings_of(arms[0].pattern, v) {
            Some(bs) => eval_expr(env + bs, arms[0].expr, rs, st, fuel),
            None => eval_arms(env, v, arms.drop_first(), rs, st, fuel),
        }
    }
}

/// A call of a function value: the body, in the call's starting bindings
/// with the parameters bound, once the number of arguments is right.
pub open spec fn apply(f: FunctionV, args: Seq<ValueV>, rs: Seq<ReplyV>, st: St, fuel: nat) -> (Outcome<ValueV>, St)
    decreases fuel, f.body, 1nat,
{
    if args.len() != f.params.len() {
        (Outcome::Failed(arity_error(f.params.len(), args.len())), st)
    } else {
        eval_expr(bind_args(call_scope(f), f.params, args), f.body, rs, st, fuel)
    }
}

/// A top-level statement: its value, the scope after it, and the state.
pub open spec fn exec_stmt(env: Seq<EntryV>, s: StmtV, rs: Seq<ReplyV>, st: St) -> (Outcome<ValueV>, Seq<EntryV>, St) {
    match s {
        StmtV::Let { name, mutable, expr } => {
            let r = eval_expr(env, expr, rs, st, MAX_CALL_DEPTH as nat);
            match r.0 {
                Outcome::Done(v) => (r.0, env_insert(env, EntryV { name: name@, mutable, value: v }), r.1),
                _ => (r.0, env, r.1),
            }
        },
        StmtV::Fn { name, params, body } => {
            let f = ValueV::Function(FunctionV { params, body, captured: env, self_name: Some(name@) });
            (Outcome::Done(f), env_insert(env, EntryV { name: name@, mutable: false, value: f }), st)
        },
        StmtV::Assign { name, expr } => {
            let r = eval_expr(env, expr, rs, st, MAX_CALL_DEPTH as nat);
            match r.0 {
                Outcome::Done(v) => match find_last(env, name@) {
                    None => (Outcome::Failed("Unknown variable '"@ + name@ + "'"@), env, r.1),
                    Some(i) => if !env[i].mutable {
                        (Outcome::Failed("Cannot assign to immutable binding '"@ + name@ + "'"@), env, r.1)
                    } else {
                        (r.0, env.update(i, EntryV { name: env[i].name, mutable: true, value: v }), r.1)
                    },
                },
                _ => (r.0, env, r.1),
            }
        },
        StmtV::Expr(e) => {
            let r = eval_expr(env, e, rs, st, MAX_CALL_DEPTH as nat);
            (r.0, env, r.1)
        },
    }
}

/// Statements run in order: the value of the last one (`()` for none), the
/// scope after them, and the state; the first error or host call stops them.
pub open spec fn exec_stmts(env: Seq<EntryV>, ss: Seq<StmtV>, rs: Seq<ReplyV>, st: St) -> (
    Outcome<ValueV>,
    Seq<EntryV>,
    St,
)
    decreases ss.len(),
{
    if ss.len() == 0 {
        (Outcome::Done(ValueV::Unit), env, st)
    } else {
        let r = exec_stmts(env, ss.drop_last(), rs, st);
        match r.0 {
            Outcome::Done(_) => exec_stmt(r.1, ss.last(), rs, r.2),
            _ => r,
        }
    }
}

/// A program run from scope `env` with the host's replies `rs`, from an
/// empty output.
pub open spec fn run_program(env: Seq<EntryV>, ss: Seq<StmtV>, rs: Seq<ReplyV>) -> (Outcome<ValueV>, Seq<EntryV>, St) {
    exec_stmts(env, ss, rs, St { out: Seq::empty(), used: 0 })
}

// ---------------------------------------------------------------------------
// Facts about the rules.
// ---------------------------------------------------------------------------

proof fn lemma_find_last_found(env: Seq<EntryV>, name: Seq<char>, i: int)
    requires
        0 <= i < env.len(),
        env[i].name == name,
        forall|j: int| i < j < env.len() ==> (#[trigger] env[j]).name != name,
    ensures
        find_last(env, name) == Some(i),
    decreases env.len(),
{
    if i < env.len() - 1 {
        lemma_find_last_found(env.drop_last(), name, i);
    }
}

proof fn lemma_find_last_absent(env: Seq<EntryV>, name: Seq<char>)
    requires
        forall|j: int| 0 <= j < env.len() ==> (#[trigger] env[j]).name != name,
    ensures
        find_last(env, name) is None,
    decreases env.len(),
{
    if env.len() > 0 {
        lemma_find_last_absent(env.drop_last(), name);
    }
}

pub proof fn lemma_find_last_bounds(env: Seq<EntryV>, name: Seq<char>)
    ensures
        find_last(env, name) matches Some(i) ==> 0 <= i < env.len() && env[i].name == name,
    decreases env.len(),
{
    if env.len() > 0 {
        lemma_find_last_bounds(env.drop_last(), name);
    }
}

/// Once a prefix of the arguments stops (with an error or a host call), the
/// whole list stops the same way.
proof fn lemma_args_stop(env: Seq<EntryV>, s: Seq<ExprV>, k: int, rs: Seq<ReplyV>, st: St, fuel: nat)
    requires
        0 <= k <= s.len(),
        !(eval_args(env, s.take(k), rs, st, fuel).0 is Done),
    ensures
        eval_args(env, s, rs, st, fuel) == eval_args(env, s.take(k), rs, st, fuel),
    decreases s.len(),
{
    if k < s.len() {
        assert(s.drop_last().take(k) =~= s.take(k));
        lemma_args_stop(env, s.drop_last(), k, rs, st, fuel);
    } else {
        assert(s.take(k) =~= s);
    }
}

/// Once a prefix of the statements stops, the whole program stops the same way.
proof fn lemma_stmts_stop(env: Seq<EntryV>, s: Seq<StmtV>, k: int, rs: Seq<ReplyV>, st: St)
    requires
        0 <= k <= s.len(),
        !(exec_stmts(env, s.take(k), rs, st).0 is Done),
    ensures
        exec_stmts(env, s, rs, st) == exec_stmts(env, s.take(k), rs, st),
    decreases s.len(),
{
    if k < s.len() {
        assert(s.drop_last().take(k) =~= s.take(k));
        lemma_stmts_stop(env, s.drop_last(), k, rs, st);
    } else {
        assert(s.take(k) =~= s);
    }
}

proof fn lemma_values_push(vs: Seq<Value>, v: Value)
    ensures
        values_view(vs.push(v)) == values_view(vs).push(v@),
{
    assert(values_view(vs.push(v)) =~= values_view(vs).push(v@));
}

// ---------------------------------------------------------------------------
// The interpreter.
// ---------------------------------------------------------------------------

/// What a program run gives: the value of its last statement and the values
/// that it printed, in order.
#[derive(Debug)]
pub struct ExecResult {
    pub last_value: Value,
    pub output: Vec<Value>,
}

/// What a `serve` handler's call gives the client: a status and a body.
#[derive(Debug)]
pub struct ServeAnswer {
    pub status: u16,
    pub body: Vec<Piece>,
}

/// The interpreter's state: the top-level bindings, what the current run
/// has printed, and how many host replies it has used.
pub struct Runtime {
    env: Vec<Entry>,
    output: Vec<Value>,
    used: usize,
}

impl Runtime {
    /// The top-level bindings, oldest first.
    pub closed spec fn bindings(&self) -> Seq<EntryV> {
        entries_view(self.env@)
    }

    /// The printed values and the replies used.
    pub closed spec fn state(&self) -> St {
        St { out: values_view(self.output@), used: self.used as nat }
    }

    /// A runtime with no bindings.
    pub fn new() -> (r: Self)
        ensures
            r.bindings() == Seq::<EntryV>::empty(),
            r.state().out == Seq::<ValueV>::empty(),
    {
        let r = Runtime { env: Vec::new(), output: Vec::new(), used: 0 };
        assert(r.bindings() =~= Seq::<EntryV>::empty());
        assert(r.state().out =~= Seq::<ValueV>::empty());
        r
    }

    /// Forgets every binding and the output.
    pub fn reset(&mut self)
        ensures
            final(self).bindings() == Seq::<EntryV>::empty(),
            final(self).state().out == Seq::<ValueV>::empty(),
    {
        self.env = Vec::new();
        self.output = Vec::new();
        assert(self.bindings() =~= Seq::<EntryV>::empty());
        assert(self.state().out =~= Seq::<ValueV>::empty());
    }

    /// The index of the binding of `name` that is in force.
    fn find(&self, name: &str) -> (r: Option<usize>)
        ensures
            match r {
                Some(i) => find_last(self.bindings(), name@) == Some(i as int) && i < self.env@.len(),
                None => find_last(self.bindings(), name@) is None,
            },
    {
        proof {
            lemma_entries_view_index(self.env@);
            lemma_find_last_bounds(self.bindings(), name@);
        }
        let target = String::from_str(name);
        let mut i: usize = self.env.len();
        while i > 0
            invariant
                i <= self.env@.len(),
                target@ == name@,
                self.bindings().len() == self.env@.len(),
                forall|j: int| 0 <= j < self.env@.len() ==> #[trigger] self.bindings()[j] == self.env@[j]@,
                forall|j: int| i <= j < self.env@.len() ==> (#[trigger] self.bindings()[j]).name != name@,
            decreases i,
        {
            i = i - 1;
            if self.env[i].name == target {
                proof {
                    lemma_find_last_found(self.bindings(), name@, i as int);
                }
                return Some(i);
            }
        }
        proof {
            lemma_find_last_absent(self.bindings(), name@);
        }
        None
    }

    /// Carries out a step (`perform`).
    fn perform(&mut self, step: Step, replies: &[Reply]) -> (r: Flow<Value>)
        ensures
            (flow_view(r), final(self).state()) == perform(step@, replies_view(replies@), old(self).state()),
            final(self).env@ == old(self).env@,
    {
        match step {
            Step::Value(v) => Flow::Done(v),
            Step::Fail(e) => Flow::Failed(e),
            Step::Print(v) => {
                proof {
                    lemma_values_push(self.output@, v);
                }
                self.output.push(v);
                Flow::Done(Value::Unit)
            },
            Step::Ask(c) => if self.used < replies.len() {
                assert(replies_view(replies@)[self.used as int] == replies@[self.used as int]@);
                let r = exec_absorb(&c, &replies[self.used]);
                self.used = self.used + 1;
                r
            } else {
                Flow::Needs(c)
            },
        }
    }
}

impl Runtime {
    /// The value of `expr` in the current scope (`eval_expr`). The scope is
    /// unchanged afterwards.
    fn eval_expr(&mut self, expr: &Expr, replies: &[Reply], fuel: u64) -> (r: Flow<Value>)
        ensures
            (flow_view(r), final(self).state()) == eval_expr(
                old(self).bindings(),
                expr@,
                replies_view(replies@),
                old(self).state(),
                fuel as nat,
            ),
            final(self).env@ == old(self).env@,
        decreases fuel, expr, 2nat,
    {
        match expr {
            Expr::Int(n) => Flow::Done(Value::Int(*n)),
            Expr::Float(t) => self.perform(Step::Ask(HostCall::ParseFloat(t.clone())), replies),
            Expr::Bool(b) => Flow::Done(Value::Bool(*b)),
            Expr::Str(t) => Flow::Done(Value::Str(t.clone())),
            Expr::NoneLit => Flow::Done(Value::NoneValue),
            Expr::Ident(name) => match self.find(name.as_str()) {
                Some(i) => {
                    proof {
                        lemma_entries_view_index(self.env@);
                    }
                    Flow::Done(self.env[i].value.duplicate())
                },
                None => {
                    let mut m = String::from_str("Unknown variable '");
                    push_str(&mut m, name.as_str());
                    push_str(&mut m, "'");
                    Flow::Failed(EiriadError::new(m))
                },
            },
            Expr::Unary { op, expr: inner } => match self.eval_expr(&**inner, replies, fuel) {
                Flow::Done(v) => self.perform(eval_unary(*op, &v), replies),
                other => other,
            },
            Expr::Binary { left, op, right } => {
                let lv = match self.eval_expr(&**left, replies, fuel) {
                    Flow::Done(v) => v,
                    other => return other,
                };
                if *op == BinaryOp::And && !lv.truthy() {
                    return Flow::Done(Value::Bool(false));
                }
                if *op == BinaryOp::Or && lv.truthy() {
                    return Flow::Done(Value::Bool(true));
                }
                let rv = match self.eval_expr(&**right, replies, fuel) {
                    Flow::Done(v) => v,
                    other => return other,
                };
                if *op == BinaryOp::And || *op == BinaryOp::Or {
                    Flow::Done(Value::Bool(rv.truthy()))
                } else {
                    self.perform(eval_binary(*op, &lv, &rv), replies)
                }
            },
            Expr::Lambda { params, body } => {
                let f = UserFunction {
                    params: crate::ast::duplicate_names(params),
                    body: (**body).duplicate(),
                    captured: duplicate_entries(&self.env),
                    self_name: None,
                };
                Flow::Done(Value::Function(f))
            },
            Expr::Call { callee: _, args: _ } => self.eval_call(expr, replies, fuel),
            Expr::Match { value: _, arms: _ } => self.eval_match(expr, replies, fuel),
        }
    }

    /// A call expression: arguments left to right, then the callee.
    fn eval_call(&mut self, expr: &Expr, replies: &[Reply], fuel: u64) -> (r: Flow<Value>)
        requires
            expr is Call,
        ensures
            (flow_view(r), final(self).state()) == eval_expr(
                old(self).bindings(),
                expr@,
                replies_view(replies@),
                old(self).state(),
                fuel as nat,
            ),
            final(self).env@ == old(self).env@,
        decreases fuel, expr, 1nat,
    {
        let ghost env = self.bindings();
        let ghost rs = replies_view(replies@);
        let ghost st0 = self.state();
        let ghost env0 = self.env@;
        match expr {
            Expr::Call { callee, args } => {
                proof {
                    lemma_exprs_model_index(args@);
                }
                let ghost model = exprs_model(args@);
                assert(expr@ == (ExprV::Call { callee: Box::new((**callee)@), args: model }));
                let mut vals: Vec<Value> = Vec::new();
                let mut i: usize = 0;
                proof {
                    assert(model.take(0) =~= Seq::<ExprV>::empty());
                    assert(values_view(vals@) =~= Seq::<ValueV>::empty());
                }
                while i < args.len()
                    invariant
                        i <= args@.len(),
                        model == exprs_model(args@),
                        model.len() == args@.len(),
                        forall|j: int| 0 <= j < args@.len() ==> #[trigger] model[j] == args@[j]@,
                        self.env@ == env0,
                        env0 == old(self).env@,
                        st0 == old(self).state(),
                        env == entries_view(env0),
                        env == old(self).bindings(),
                        expr@ == (ExprV::Call { callee: Box::new((**callee)@), args: model }),
                        rs == replies_view(replies@),
                        *expr == (Expr::Call { callee: *callee, args: *args }),
                        eval_args(env, model.take(i as int), rs, st0, fuel as nat) == (
                            Outcome::Done(values_view(vals@)),
                            self.state(),
                        ),
                    decreases args@.len() - i,
                {
                    proof {
                        assert(decreases_to!(*expr => expr->Call_args));
                        assert(decreases_to!(*args => args@));
                        assert(decreases_to!(args@ => args@[i as int]));
                        assert(decreases_to!(*expr => args@[i as int]));
                        assert(model.take(i + 1).drop_last() =~= model.take(i as int));
                        assert(model.take(i + 1).last() == args@[i as int]@);
                    }
                    match self.eval_expr(&args[i], replies, fuel) {
                        Flow::Done(v) => {
                            proof {
                                lemma_values_push(vals@, v);
                            }
                            vals.push(v);
                        },
                        Flow::Failed(e) => {
                            proof {
                                lemma_args_stop(env, model, i + 1, rs, st0, fuel as nat);
                            }
                            return Flow::Failed(e);
                        },
                        Flow::Needs(c) => {
                            proof {
                                lemma_args_stop(env, model, i + 1, rs, st0, fuel as nat);
                            }
                            return Flow::Needs(c);
                        },
                    }
                    i = i + 1;
                }
                proof {
                    assert(model.take(args@.len() as int) =~= model);
                }
                assert(eval_args(env, model, rs, st0, fuel as nat) == (
                    Outcome::Done(values_view(vals@)),
                    self.state(),
                ));
                match &**callee {
                    Expr::Ident(name) => {
                        let found = self.find(name.as_str());
                        proof {
                            lemma_entries_view_index(self.env@);
                        }
                        let target: Option<UserFunction> = match found {
                            Some(k) => {
                                let ghost bound = self.env@[k as int];
                                assert(lookup(env, name@) == Some(bound.value@));
                                match &self.env[k].value {
                                    Value::Function(f) => {
                                        let g = f.duplicate();
                                        assert(bound.value@ == ValueV::Function(f@));
                                        Some(g)
                                    },
                                    _ => None,
                                }
                            },
                            None => None,
                        };
                        match target {
                            Some(f) => {
                                assert(lookup(env, name@) == Some(ValueV::Function(f@)));
                                if fuel == 0 {
                                    Flow::Failed(EiriadError::new(String::from_str("maximum call depth exceeded")))
                                } else {
                                    self.call_user_function(&f, vals, replies, fuel - 1)
                                }
                            },
                            None => {
                                assert(!(lookup(env, name@) matches Some(ValueV::Function(_))));
                                self.perform(call_builtin(name.as_str(), vals.as_slice()), replies)
                            },
                        }
                    },
                    _ => match self.eval_expr(&**callee, replies, fuel) {
                        Flow::Done(v) => match v {
                            Value::Function(f) => {
                                if fuel == 0 {
                                    Flow::Failed(EiriadError::new(String::from_str("maximum call depth exceeded")))
                                } else {
                                    self.call_user_function(&f, vals, replies, fuel - 1)
                                }
                            },
                            _ => Flow::Failed(EiriadError::new(String::from_str("Expression is not callable"))),
                        },
                        other => other,
                    },
                }
            },
            _ => {
                assert(false);
                Flow::Failed(EiriadError::new(String::new()))
            },
        }
    }

    /// A match expression: the first arm whose pattern matches.
    fn eval_match(&mut self, expr: &Expr, replies: &[Reply], fuel: u64) -> (r: Flow<Value>)
        requires
            expr is Match,
        ensures
            (flow_view(r), final(self).state()) == eval_expr(
                old(self).bindings(),
                expr@,
                replies_view(replies@),
                old(self).state(),
                fuel as nat,
            ),
            final(self).env@ == old(self).env@,
        decreases fuel, expr, 1nat,
    {
        let ghost env = self.bindings();
        let ghost rs = replies_view(replies@);
        let ghost env0 = self.env@;
        match expr {
            Expr::Match { value, arms } => {
                proof {
                    lemma_arms_model_index(arms@);
                }
                let ghost model = arms_model(arms@);
                assert(expr@ == (ExprV::Match { value: Box::new((**value)@), arms: model }));
                let v = match self.eval_expr(&**value, replies, fuel) {
                    Flow::Done(v) => v,
                    other => return other,
                };
                let ghost st1 = self.state();
                let mut i: usize = 0;
                proof {
                    assert(model.skip(0) =~= model);
                }
                while i < arms.len()
                    invariant
                        i <= arms@.len(),
                        model == arms_model(arms@),
                        model.len() == arms@.len(),
                        forall|j: int| 0 <= j < arms@.len() ==> #[trigger] model[j] == arms@[j]@,
                        self.env@ == env0,
                        env0 == old(self).env@,
                        env == entries_view(env0),
                        rs == replies_view(replies@),
                        self.state() == st1,
                        *expr == (Expr::Match { value: *value, arms: *arms }),
                        expr@ == (ExprV::Match { value: Box::new((**value)@), arms: model }),
                        eval_expr(env, (**value)@, rs, old(self).state(), fuel as nat) == (
                            Outcome::Done(v@),
                            st1,
                        ),
                        env == old(self).bindings(),
                        eval_arms(env, v@, model, rs, st1, fuel as nat) == eval_arms(
                            env,
                            v@,
                            model.skip(i as int),
                            rs,
                            st1,
                            fuel as nat,
                        ),
                    decreases arms@.len() - i,
                {
                    let ghost rest = model.skip(i as int);
                    assert(rest[0] == arms@[i as int]@);
                    assert(rest.drop_first() =~= model.skip(i + 1));
                    match pattern_bindings(&arms[i].pattern, &v) {
                        Some(bs) => {
                            let mut bs = bs;
                            let saved = self.env.len();
                            let ghost added = bs@;
                            self.env.append(&mut bs);
                            proof {
                                lemma_entries_view_concat(env0, added);
                                assert(decreases_to!(*expr => expr->Match_arms));
                                assert(decreases_to!(*arms => arms@));
                                assert(decreases_to!(arms@ => arms@[i as int]));
                                assert(decreases_to!(arms@[i as int] => arms@[i as int].expr));
                                assert(decreases_to!(*expr => arms@[i as int].expr));
                            }
                            assert(bindings_of(rest[0].pattern, v@) == Some(entries_view(added)));
                            assert(eval_arms(env, v@, rest, rs, st1, fuel as nat) == eval_expr(
                                env + entries_view(added),
                                rest[0].expr,
                                rs,
                                st1,
                                fuel as nat,
                            ));
                            let r = self.eval_expr(&arms[i].expr, replies, fuel);
                            assert((flow_view(r), self.state()) == eval_arms(env, v@, model, rs, st1, fuel as nat));
                            self.env.truncate(saved);
                            assert(self.env@ =~= env0);
                            return r;
                        },
                        None => {},
                    }
                    i = i + 1;
                }
                Flow::Failed(EiriadError::new(String::from_str("No match arm matched the value")))
            },
            _ => {
                assert(false);
                Flow::Failed(EiriadError::new(String::new()))
            },
        }
    }

    /// A call of a function value (`apply`): the body runs in the captured
    /// scope with the parameters bound; the caller's scope is restored after.
    fn call_user_function(&mut self, f: &UserFunction, args: Vec<Value>, replies: &[Reply], fuel: u64) -> (r: Flow<Value>)
        ensures
            (flow_view(r), final(self).state()) == apply(
                f@,
                values_view(args@),
                replies_view(replies@),
                old(self).state(),
                fuel as nat,
            ),
            final(self).env@ == old(self).env@,
        decreases fuel, f.body, 3nat,
    {
        if args.len() != f.params.len() {
            let mut m = String::from_str("Function expects ");
            push_decimal(&mut m, f.params.len());
            push_str(&mut m, " argument(s), got ");
            push_decimal(&mut m, args.len());
            return Flow::Failed(EiriadError::new(m));
        }
        let ghost vs = values_view(args@);
        let ghost captured = call_scope(f@);
        let mut scope = duplicate_entries(&f.captured);
        match &f.self_name {
            Some(n) => {
                let me = Entry { name: n.clone(), mutable: false, value: Value::Function(f.duplicate()) };
                proof {
                    lemma_entries_view_push(scope@, me);
                }
                scope.push(me);
            },
            None => {},
        }
        assert(entries_view(scope@) == captured);
        let mut i: usize = 0;
        proof {
            assert(captured + Seq::new(0, |k: int| EntryV { name: f.params@[k]@, mutable: false, value: vs[k] })
                =~= captured);
        }
        while i < f.params.len()
            invariant
                i <= f.params@.len(),
                f.params@.len() == args@.len(),
                vs == values_view(args@),
                captured == call_scope(f@),
                entries_view(scope@) == captured + Seq::new(
                    i as nat,
                    |k: int| EntryV { name: f.params@[k]@, mutable: false, value: vs[k] },
                ),
            decreases f.params@.len() - i,
        {
            let e = Entry { name: f.params[i].clone(), mutable: false, value: args[i].duplicate() };
            proof {
                lemma_entries_view_push(scope@, e);
                assert(captured + Seq::new(
                    (i + 1) as nat,
                    |k: int| EntryV { name: f.params@[k]@, mutable: false, value: vs[k] },
                ) =~= (captured + Seq::new(
                    i as nat,
                    |k: int| EntryV { name: f.params@[k]@, mutable: false, value: vs[k] },
                )).push(e@));
            }
            scope.push(e);
            i = i + 1;
        }
        assert(entries_view(scope@) == bind_args(captured, f.params@, vs));
        std::mem::swap(&mut self.env, &mut scope);
        let r = self.eval_expr(&f.body, replies, fuel);
        std::mem::swap(&mut self.env, &mut scope);
        r
    }
}

/// The runtime result `r` and the bindings `after` are what running `ss`
/// from bindings `env` with replies `rs` gives; a run that waits for the host
/// leaves the bindings as they were.
pub open spec fn run_agrees(
    env: Seq<EntryV>,
    ss: Seq<StmtV>,
    rs: Seq<ReplyV>,
    r: Flow<ExecResult>,
    after: Seq<EntryV>,
) -> bool {
    let t = run_program(env, ss, rs);
    match t.0 {
        Outcome::Done(v) => r matches Flow::Done(res) && res.last_value@ == v && values_view(res.output@)
            == t.2.out && after == t.1,
        Outcome::Failed(m) => r matches Flow::Failed(e) && e.message@ == m && after == t.1,
        Outcome::Needs(c) => r matches Flow::Needs(c2) && c2@ == c && after == env,
    }
}

/// The status a `serve` handler's outcome gives the client.
pub open spec fn answer_status(o: Outcome<ValueV>) -> u16 {
    match o {
        Outcome::Done(ValueV::Response(st, _)) => st,
        Outcome::Done(ValueV::Str(_)) => 200,
        Outcome::Done(ValueV::Unit) => 204,
        _ => 500,
    }
}

/// The body a `serve` handler's outcome gives the client.
pub open spec fn answer_body(o: Outcome<ValueV>) -> Seq<PieceV> {
    match o {
        Outcome::Done(ValueV::Response(_, b)) => text_piece(b),
        Outcome::Done(ValueV::Str(b)) => text_piece(b),
        Outcome::Done(ValueV::Unit) => Seq::empty(),
        Outcome::Done(v) => text_piece("handler must return response(status, body), Str, or Unit; got "@) + render(v),
        Outcome::Failed(m) => text_piece("handler error: "@ + m),
        Outcome::Needs(_) => Seq::empty(),
    }
}

/// A handler's call on one request: the handler applied to the request
/// value, with nothing printed and no reply used yet.
pub open spec fn handler_call(f: FunctionV, req: ValueV, rs: Seq<ReplyV>) -> (Outcome<ValueV>, St) {
    apply(f, seq![req], rs, St { out: Seq::empty(), used: 0 }, MAX_CALL_DEPTH as nat)
}

impl Runtime {
    /// Binds at the top level (`env_insert`).
    fn insert(&mut self, e: Entry)
        ensures
            final(self).bindings() == env_insert(old(self).bindings(), e@),
            final(self).state() == old(self).state(),
    {
        match self.find(e.name.as_str()) {
            Some(i) => {
                proof {
                    lemma_entries_view_update(self.env@, i as int, e);
                }
                self.env.set(i, e);
            },
            None => {
                proof {
                    lemma_entries_view_push(self.env@, e);
                }
                self.env.push(e);
            },
        }
    }

    /// Runs one top-level statement (`exec_stmt`).
    fn exec_stmt(&mut self, stmt: &Stmt, replies: &[Reply]) -> (r: Flow<Value>)
        ensures
            ({
                let t = exec_stmt(old(self).bindings(), stmt@, replies_view(replies@), old(self).state());
                flow_view(r) == t.0 && final(self).bindings() == t.1 && final(self).state() == t.2
            }),
    {
        match stmt {
            Stmt::Let { name, mutable, expr } => match self.eval_expr(expr, replies, MAX_CALL_DEPTH) {
                Flow::Done(v) => {
                    self.insert(Entry { name: name.clone(), mutable: *mutable, value: v.duplicate() });
                    Flow::Done(v)
                },
                other => other,
            },
            Stmt::Fn { name, params, body } => {
                let f = UserFunction {
                    params: crate::ast::duplicate_names(params),
                    body: body.duplicate(),
                    captured: duplicate_entries(&self.env),
                    self_name: Some(name.clone()),
                };
                let fv = Value::Function(f);
                self.insert(Entry { name: name.clone(), mutable: false, value: fv.duplicate() });
                Flow::Done(fv)
            },
            Stmt::Assign { name, expr } => match self.eval_expr(expr, replies, MAX_CALL_DEPTH) {
                Flow::Done(v) => match self.find(name.as_str()) {
                    None => {
                        let mut m = String::from_str("Unknown variable '");
                        push_str(&mut m, name.as_str());
                        push_str(&mut m, "'");
                        Flow::Failed(EiriadError::new(m))
                    },
                    Some(i) => {
                        proof {
                            lemma_entries_view_index(self.env@);
                        }
                        if !self.env[i].mutable {
                            let mut m = String::from_str("Cannot assign to immutable binding '");
                            push_str(&mut m, name.as_str());
                            push_str(&mut m, "'");
                            Flow::Failed(EiriadError::new(m))
                        } else {
                            let e = Entry { name: self.env[i].name.clone(), mutable: true, value: v.duplicate() };
                            proof {
                                lemma_entries_view_update(self.env@, i as int, e);
                            }
                            self.env.set(i, e);
                            Flow::Done(v)
                        }
                    },
                },
                other => other,
            },
            Stmt::Expr(e) => self.eval_expr(e, replies, MAX_CALL_DEPTH),
        }
    }

    /// Runs a program with the host's replies so far (`run_program`): the
    /// output starts empty; the value is that of the last statement. When the
    /// run needs a reply that is not there yet, it gives the host call and
    /// leaves the bindings as they were, so that the program can be run again
    /// with the reply added.
    pub fn exec_program(&mut self, stmts: &[Stmt], replies: &[Reply]) -> (r: Flow<ExecResult>)
        ensures
            run_agrees(old(self).bindings(), stmts_view(stmts@), replies_view(replies@), r, final(self).bindings()),
    {
        let ghost env0 = self.bindings();
        let ghost rs = replies_view(replies@);
        let ghost ss = stmts_view(stmts@);
        let saved = duplicate_entries(&self.env);
        self.output = Vec::new();
        self.used = 0;
        let ghost st0 = self.state();
        assert(st0 == (St { out: Seq::empty(), used: 0 })) by {
            assert(values_view(self.output@) =~= Seq::<ValueV>::empty());
        }
        let mut last = Value::Unit;
        let mut i: usize = 0;
        proof {
            assert(ss.take(0) =~= Seq::<StmtV>::empty());
        }
        while i < stmts.len()
            invariant
                i <= stmts@.len(),
                ss == stmts_view(stmts@),
                ss.len() == stmts@.len(),
                rs == replies_view(replies@),
                env0 == old(self).bindings(),
                entries_view(saved@) == env0,
                st0 == (St { out: Seq::empty(), used: 0 }),
                exec_stmts(env0, ss.take(i as int), rs, st0) == (
                    Outcome::Done(last@),
                    self.bindings(),
                    self.state(),
                ),
            decreases stmts@.len() - i,
        {
            proof {
                assert(ss.take(i + 1).drop_last() =~= ss.take(i as int));
                assert(ss.take(i + 1).last() == stmts@[i as int]@);
            }
            match self.exec_stmt(&stmts[i], replies) {
                Flow::Done(v) => {
                    last = v;
                },
                Flow::Failed(e) => {
                    proof {
                        lemma_stmts_stop(env0, ss, i + 1, rs, st0);
                    }
                    return Flow::Failed(e);
                },
                Flow::Needs(c) => {
                    proof {
                        lemma_stmts_stop(env0, ss, i + 1, rs, st0);
                    }
                    self.env = saved;
                    return Flow::Needs(c);
                },
            }
            i = i + 1;
        }
        proof {
            assert(ss.take(stmts@.len() as int) =~= ss);
        }
        let mut output: Vec<Value> = Vec::new();
        std::mem::swap(&mut output, &mut self.output);
        Flow::Done(ExecResult { last_value: last, output })
    }

    /// Answers one request of `serve`: calls `handler` with the request and
    /// turns its outcome into a status and body (`answer_status`,
    /// `answer_body`). When the call needs a host reply that is not there
    /// yet, it gives the host call and leaves the output as it was.
    pub fn respond(&mut self, handler: &UserFunction, request: HttpRequestValue, replies: &[Reply]) -> (r: Flow<
        ServeAnswer,
    >)
        ensures
            ({
                let t = handler_call(
                    handler@,
                    ValueV::Request(request.method@, request.path@, request.body@),
                    replies_view(replies@),
                );
                match t.0 {
                    Outcome::Needs(c) => r matches Flow::Needs(c2) && c2@ == c && final(self).state().out == old(
                        self,
                    ).state().out,
                    _ => r matches Flow::Done(a) && a.status == answer_status(t.0) && pieces_view(a.body@)
                        == answer_body(t.0) && final(self).state().out == old(self).state().out + t.1.out,
                }
            }),
            final(self).bindings() == old(self).bindings(),
    {
        let ghost reqv = ValueV::Request(request.method@, request.path@, request.body@);
        let mut kept: Vec<Value> = Vec::new();
        std::mem::swap(&mut kept, &mut self.output);
        self.used = 0;
        assert(values_view(self.output@) =~= Seq::<ValueV>::empty());
        let mut args: Vec<Value> = Vec::new();
        let rq = Value::Request(request);
        assert(rq@ == reqv);
        proof {
            lemma_values_push(args@, rq);
            assert(values_view(Seq::<Value>::empty()) =~= Seq::<ValueV>::empty());
        }
        args.push(rq);
        assert(values_view(args@) =~= seq![reqv]);
        let r = self.call_user_function(handler, args, replies, MAX_CALL_DEPTH);
        if let Flow::Needs(c) = r {
            self.output = kept;
            return Flow::Needs(c);
        }
        let ghost printed = self.output@;
        kept.append(&mut self.output);
        self.output = kept;
        assert(values_view(self.output@) =~= values_view(old(self).output@) + values_view(printed));
        match r {
            Flow::Needs(c) => Flow::Needs(c),
            Flow::Failed(e) => {
                let mut t = String::from_str("handler error: ");
                push_str(&mut t, e.message.as_str());
                let mut body: Vec<Piece> = Vec::new();
                body.push(Piece::Text(t));
                proof {
                    assert(pieces_view(body@) =~= text_piece("handler error: "@ + e.message@));
                }
                Flow::Done(ServeAnswer { status: 500, body })
            },
            Flow::Done(v) => {
                let mut body: Vec<Piece> = Vec::new();
                let status: u16 = match &v {
                    Value::Response(resp) => {
                        body.push(Piece::Text(resp.body.clone()));
                        assert(pieces_view(body@) =~= text_piece(resp.body@));
                        resp.status
                    },
                    Value::Str(b) => {
                        body.push(Piece::Text(b.clone()));
                        assert(pieces_view(body@) =~= text_piece(b@));
                        200
                    },
                    Value::Unit => {
                        assert(pieces_view(body@) =~= Seq::<PieceV>::empty());
                        204
                    },
                    _ => {
                        body.push(Piece::Text(
                            String::from_str("handler must return response(status, body), Str, or Unit; got "),
                        ));
                        v.render_into(&mut body);
                        assert(pieces_view(body@) =~= text_piece(
                            "handler must return response(status, body), Str, or Unit; got "@,
                        ) + render(v@));
                        500
                    },
                };
                Flow::Done(ServeAnswer { status, body })
            },
        }
    }
}

/// The row `:env` shows for a binding: `name = value (mut)` or `(let)`.
pub open spec fn env_row(e: EntryV) -> Seq<PieceV> {
    text_piece(e.name + " = "@) + render(e.value) + text_piece(if e.mutable { " (mut)"@ } else { " (let)"@ })
}

/// The binding at index `i` is in force: no later binding has its name.
pub open spec fn in_force(env: Seq<EntryV>, i: int) -> bool {
    0 <= i < env.len() && forall|j: int| i < j < env.len() ==> (#[trigger] env[j]).name != env[i].name
}

/// Rows sorted by name: each name is below the next one.
pub open spec fn rows_sorted(names: Seq<Seq<char>>) -> bool {
    forall|k: int| 0 <= k < names.len() - 1 ==> text_order(#[trigger] names[k], names[k + 1]) == -1
}

/// A row of `:env` that shows a binding in force.
pub open spec fn shows_binding(env: Seq<EntryV>, row: (String, Vec<Piece>)) -> bool {
    exists|i: int| in_force(env, i) && row.0@ == env[i].name && pieces_view(row.1@) == #[trigger] env_row(env[i])
}

pub open spec fn row_names(rows: Seq<(String, Vec<Piece>)>) -> Seq<Seq<char>> {
    rows.map_values(|r: (String, Vec<Piece>)| r.0@)
}

impl Runtime {
    /// The pieces of the row of binding `i`.
    fn row_of(&self, i: usize) -> (r: Vec<Piece>)
        requires
            i < self.env@.len(),
        ensures
            pieces_view(r@) == env_row(self.bindings()[i as int]),
    {
        proof {
            lemma_entries_view_index(self.env@);
        }
        let e = &self.env[i];
        let mut r: Vec<Piece> = Vec::new();
        let mut head = e.name.clone();
        push_str(&mut head, " = ");
        r.push(Piece::Text(head));
        assert(pieces_view(r@) =~= text_piece(e.name@ + " = "@));
        e.value.render_into(&mut r);
        let tail = if e.mutable {
            String::from_str(" (mut)")
        } else {
            String::from_str(" (let)")
        };
        let ghost before = r@;
        r.push(Piece::Text(tail));
        assert(pieces_view(r@) =~= pieces_view(before) + text_piece(tail@));
        r
    }

    fn in_force_at(&self, i: usize) -> (b: bool)
        requires
            i < self.env@.len(),
        ensures
            b == in_force(self.bindings(), i as int),
    {
        proof {
            lemma_entries_view_index(self.env@);
        }
        let n = self.env.len();
        let mut j: usize = i + 1;
        while j < n
            invariant
                i < j <= n,
                n == self.env@.len(),
                self.bindings().len() == self.env@.len(),
                forall|k: int| 0 <= k < self.env@.len() ==> #[trigger] self.bindings()[k] == self.env@[k]@,
                forall|k: int| i < k < j ==> (#[trigger] self.bindings()[k]).name != self.bindings()[i as int].name,
            decreases n - j,
        {
            if self.env[j].name == self.env[i].name {
                assert(self.bindings()[j as int].name == self.bindings()[i as int].name);
                return false;
            }
            j = j + 1;
        }
        true
    }

    /// The `:env` listing: one row per binding in force, sorted by name,
    /// each with the binding's name.
    pub fn snapshot_env(&self) -> (rows: Vec<(String, Vec<Piece>)>)
        ensures
            forall|k: int| 0 <= k < rows@.len() ==> shows_binding(self.bindings(), #[trigger] rows@[k]),
            forall|i: int|
                in_force(self.bindings(), i) ==> exists|k: int|
                    0 <= k < rows@.len() && (#[trigger] rows@[k]).0@ == self.bindings()[i].name,
            rows_sorted(row_names(rows@)),
    {
        let ghost b = self.bindings();
        proof {
            lemma_entries_view_index(self.env@);
        }
        let mut rows: Vec<(String, Vec<Piece>)> = Vec::new();
        let ghost mut idx: Seq<int> = Seq::empty();
        let mut i: usize = 0;
        while i < self.env.len()
            invariant
                i <= self.env@.len(),
                b == self.bindings(),
                b.len() == self.env@.len(),
                forall|k: int| 0 <= k < self.env@.len() ==> #[trigger] b[k] == self.env@[k]@,
                idx.len() == rows@.len(),
                forall|k: int|
                    0 <= k < rows@.len() ==> 0 <= #[trigger] idx[k] < i && in_force(b, idx[k]) && rows@[k].0@
                        == b[idx[k]].name && pieces_view(rows@[k].1@) == env_row(b[idx[k]]),
                forall|m: int| 0 <= m < i && in_force(b, m) ==> #[trigger] idx.contains(m),
                rows_sorted(row_names(rows@)),
            decreases self.env@.len() - i,
        {
            if self.in_force_at(i) {
                let name = self.env[i].name.clone();
                let row = self.row_of(i);
                assert forall|k: int| 0 <= k < rows@.len() implies (#[trigger] rows@[k]).0@ != name@ by {
                    assert(in_force(b, idx[k]));
                    assert(b[i as int].name == name@);
                }
                let ghost old_rows = rows@;
                let ghost old_idx = idx;
                let p = insert_row(&mut rows, name, row);
                proof {
                    idx = idx.insert(p as int, i as int);
                    assert forall|k: int| 0 <= k < rows@.len() implies 0 <= #[trigger] idx[k] < i + 1 && in_force(
                        b,
                        idx[k],
                    ) && rows@[k].0@ == b[idx[k]].name && pieces_view(rows@[k].1@) == env_row(b[idx[k]]) by {
                        if k < p {
                            assert(idx[k] == old_idx[k]);
                            assert(rows@[k] == old_rows[k]);
                        } else if k > p {
                            assert(idx[k] == old_idx[k - 1]);
                            assert(rows@[k] == old_rows[k - 1]);
                        }
                    }
                    assert forall|m: int| 0 <= m < i + 1 && in_force(b, m) implies #[trigger] idx.contains(m) by {
                        if m == i {
                            assert(idx[p as int] == m);
                        } else {
                            assert(old_idx.contains(m));
                            let k0 = choose|k0: int| 0 <= k0 < old_idx.len() && old_idx[k0] == m;
                            if k0 < p {
                                assert(idx[k0] == m);
                            } else {
                                assert(idx[k0 + 1] == m);
                            }
                        }
                    }
                }
            } else {
                proof {
                    assert forall|m: int| 0 <= m < i + 1 && in_force(b, m) implies #[trigger] idx.contains(m) by {
                        if m == i {
                            assert(false);
                        }
                    }
                }
            }
            i = i + 1;
        }
        proof {
            assert forall|k: int| 0 <= k < rows@.len() implies shows_binding(self.bindings(), #[trigger] rows@[k]) by {
                let j = idx[k];
                assert(in_force(self.bindings(), j) && rows@[k].0@ == self.bindings()[j].name
                    && pieces_view(rows@[k].1@) == env_row(self.bindings()[j]));
            }
            assert forall|m: int| in_force(self.bindings(), m) implies exists|k: int|
                0 <= k < rows@.len() && (#[trigger] rows@[k]).0@ == self.bindings()[m].name by {
                assert(idx.contains(m));
                let k0 = choose|k0: int| 0 <= k0 < idx.len() && idx[k0] == m;
                assert(rows@[k0].0@ == b[m].name);
            }
        }
        rows
    }
}

/// Inserts a row where its name belongs among rows sorted by name.
fn insert_row(rows: &mut Vec<(String, Vec<Piece>)>, name: String, row: Vec<Piece>) -> (p: usize)
    requires
        rows_sorted(row_names(old(rows)@)),
        forall|k: int| 0 <= k < old(rows)@.len() ==> (#[trigger] old(rows)@[k]).0@ != name@,
    ensures
        p <= old(rows)@.len(),
        final(rows)@ == old(rows)@.insert(p as int, (name, row)),
        rows_sorted(row_names(final(rows)@)),
{
    let ghost x = name@;
    let mut p: usize = 0;
    while p < rows.len()
        invariant
            p <= rows@.len(),
            rows@ == old(rows)@,
            name@ == x,
            forall|k: int| 0 <= k < rows@.len() ==> (#[trigger] rows@[k]).0@ != x,
            forall|k: int| 0 <= k < p ==> text_order(#[trigger] rows@[k].0@, x) == -1,
        ensures
            p <= rows@.len(),
            rows@ == old(rows)@,
            forall|k: int| 0 <= k < p ==> text_order(#[trigger] rows@[k].0@, x) == -1,
            p < rows@.len() ==> text_order(x, rows@[p as int].0@) == -1,
        decreases rows@.len() - p,
    {
        let o = crate::value::exec_text_order(name.as_str(), rows[p].0.as_str());
        if o == -1 {
            break;
        }
        proof {
            lemma_text_order_antisym(x, rows@[p as int].0@);
        }
        p = p + 1;
    }
    let ghost old_rows = rows@;
    let ghost after_ok = p < rows@.len() ==> text_order(x, rows@[p as int].0@) == -1;
    assert(after_ok);
    rows.insert(p, (name, row));
    proof {
        let names = row_names(rows@);
        let old_names = row_names(old_rows);
        assert forall|k: int| 0 <= k < names.len() - 1 implies text_order(#[trigger] names[k], names[k + 1]) == -1 by {
            if k + 1 < p {
                assert(names[k] == old_names[k]);
                assert(names[k + 1] == old_names[k + 1]);
            } else if k + 1 == p {
                assert(names[k] == old_rows[k].0@);
                assert(names[k + 1] == x);
            } else if k == p {
                assert(names[k] == x);
                assert(names[k + 1] == old_rows[k].0@);
            } else {
                assert(names[k] == old_names[k - 1]);
                assert(names[k + 1] == old_names[k]);
            }
        }
    }
    p
}

impl Clone for ExecResult {
    fn clone(&self) -> (r: Self)
        ensures
            r.last_value@ == self.last_value@,
            values_view(r.output@) == values_view(self.output@),
    {
        let mut output: Vec<Value> = Vec::new();
        let mut i: usize = 0;
        while i < self.output.len()
            invariant
                i <= self.output@.len(),
                values_view(output@) == values_view(self.output@.take(i as int)),
            decreases self.output@.len() - i,
        {
            let v = self.output[i].duplicate();
            proof {
                lemma_values_push(output@, v);
                assert(self.output@.take(i + 1) =~= self.output@.take(i as int).push(self.output@[i as int]));
                lemma_values_push(self.output@.take(i as int), self.output@[i as int]);
            }
            output.push(v);
            i = i + 1;
        }
        proof {
            assert(self.output@.take(self.output@.len() as int) =~= self.output@);
        }
        ExecResult { last_value: self.last_value.duplicate(), output }
    }
}

// ---------------------------------------------------------------------------
// The checker's view of the bindings a runtime holds.
// ---------------------------------------------------------------------------

/// The static type the checker gives a value that a binding holds.
pub open spec fn value_type(v: ValueV) -> Type
    decreases v,
{
    match v {
        ValueV::Int(_) => Type::Int,
        ValueV::Float(_) => Type::Float,
        ValueV::Bool(_) => Type::Bool,
        ValueV::Str(_) => Type::Str,
        ValueV::Unit => Type::Unit,
        ValueV::Function(f) => Type::Fn(f.params.len() as usize),
        ValueV::SomeV(x) => Type::OptionT(Box::new(value_type(*x))),
        ValueV::NoneV => Type::OptionT(Box::new(Type::Unknown)),
        ValueV::OkV(x) => Type::ResultT(Box::new(value_type(*x)), Box::new(Type::Unknown)),
        ValueV::ErrV(x) => Type::ResultT(Box::new(Type::Unknown), Box::new(value_type(*x))),
        _ => Type::Unknown,
    }
}

/// The checker's scope for bindings: each name with its mutability and the
/// type of its value, a later binding hiding an earlier one.
pub open spec fn scope_types(env: Seq<EntryV>) -> TypeEnv
    decreases env.len(),
{
    if env.len() == 0 {
        Map::empty()
    } else {
        scope_types(env.drop_last()).insert(
            env.last().name,
            Binding { mutable: env.last().mutable, ty: value_type(env.last().value) },
        )
    }
}

/// The type of a value (`value_type`).
pub fn type_of_value(v: &Value) -> (t: Type)
    ensures
        t == value_type(v@),
    decreases v,
{
    match v {
        Value::Int(_) => Type::Int,
        Value::Float(_) => Type::Float,
        Value::Bool(_) => Type::Bool,
        Value::Str(_) => Type::Str,
        Value::Unit => Type::Unit,
        Value::Function(f) => Type::Fn(f.params.len()),
        Value::SomeValue(x) => Type::OptionT(Box::new(type_of_value(&**x))),
        Value::NoneValue => Type::OptionT(Box::new(Type::Unknown)),
        Value::OkValue(x) => Type::ResultT(Box::new(type_of_value(&**x)), Box::new(Type::Unknown)),
        Value::ErrValue(x) => Type::ResultT(Box::new(Type::Unknown), Box::new(type_of_value(&**x))),
        _ => Type::Unknown,
    }
}

impl Runtime {
    /// A checker whose scope is that of the runtime's bindings
    /// (`scope_types`), so that a program may use names bound by earlier runs.
    pub fn checker(&self) -> (c: Checker)
        ensures
            c.env_view() == scope_types(self.bindings()),
    {
        proof {
            lemma_entries_view_index(self.env@);
        }
        let ghost b = self.bindings();
        let mut c = Checker::new();
        let mut i: usize = 0;
        proof {
            assert(b.take(0) =~= Seq::<EntryV>::empty());
        }
        while i < self.env.len()
            invariant
                i <= self.env@.len(),
                b == self.bindings(),
                b.len() == self.env@.len(),
                forall|k: int| 0 <= k < self.env@.len() ==> #[trigger] b[k] == self.env@[k]@,
                c.env_view() == scope_types(b.take(i as int)),
            decreases self.env@.len() - i,
        {
            let e = &self.env[i];
            c.declare(e.name.clone(), Binding { mutable: e.mutable, ty: type_of_value(&e.value) });
            proof {
                assert(b.take(i + 1).drop_last() =~= b.take(i as int));
                assert(b.take(i + 1).last() == b[i as int]);
            }
            i = i + 1;
        }
        proof {
            assert(b.take(b.len() as int) =~= b);
        }
        c
    }
}

} // verus!
