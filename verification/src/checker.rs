use vstd::prelude::*;

use crate::ast::{
    arms_model, exprs_model, lemma_arms_model_index, lemma_exprs_model_index, pipe_free,
    program_pipe_free, stmt_pipe_free, stmts_view, ArmV, BinaryOp, Expr, ExprV, Pattern, Stmt,
    StmtV, UnaryOp,
};
use crate::error::{EiriadError, EiriadResult};
use crate::text::{decimal, push_decimal, push_str};

verus! {

/// The static type of an expression. `Unknown` is compatible with every type.
#[derive(Debug)]
pub enum Type {
    Int,
    Float,
    Bool,
    Str,
    Unit,
    Fn(usize),
    OptionT(Box<Type>),
    ResultT(Box<Type>, Box<Type>),
    Unknown,
}

/// What the checker knows of a name.
#[derive(Debug)]
pub struct Binding {
    pub mutable: bool,
    pub ty: Type,
}

/// The names in scope and what is known of them.
pub type TypeEnv = Map<Seq<char>, Binding>;

// ---------------------------------------------------------------------------
// The typing rules, as spec functions.
// ---------------------------------------------------------------------------

pub open spec fn is_numeric_type(t: Type) -> bool {
    t == Type::Int || t == Type::Float
}

/// Operands that `==` and `!=` accept.
pub open spec fn comparable_types(a: Type, b: Type) -> bool {
    a == b || (is_numeric_type(a) && is_numeric_type(b))
}

/// Operands that `<`, `<=`, `>`, `>=` accept.
pub open spec fn ordered_types(a: Type, b: Type) -> bool {
    (is_numeric_type(a) && is_numeric_type(b)) || (a == Type::Str && b == Type::Str)
}

/// A value of type `found` may stand where `expected` is required.
pub open spec fn compatible_types(expected: Type, found: Type) -> bool
    decreases expected,
{
    if expected == found {
        true
    } else {
        match (expected, found) {
            (Type::Unknown, _) => true,
            (_, Type::Unknown) => true,
            (Type::Fn(a), Type::Fn(b)) => a == b,
            (Type::OptionT(a), Type::OptionT(b)) => compatible_types(*a, *b),
            (Type::ResultT(a1, a2), Type::ResultT(b1, b2)) => compatible_types(*a1, *b1) && compatible_types(*a2, *b2),
            _ => false,
        }
    }
}

/// The name of a type in error messages.
pub open spec fn label_of_type(t: Type) -> Seq<char> {
    match t {
        Type::Int => "Int"@,
        Type::Float => "Float"@,
        Type::Bool => "Bool"@,
        Type::Str => "Str"@,
        Type::Unit => "()"@,
        Type::Fn(_) => "fn(_)"@,
        Type::OptionT(_) => "Option<_>"@,
        Type::ResultT(_, _) => "Result<_, _>"@,
        Type::Unknown => "_"@,
    }
}

/// The type of `left op right`. (`|>` never reaches the checker.)
pub open spec fn check_binary(op: BinaryOp, left: Type, right: Type) -> Result<Type, Seq<char>> {
    let unknown = left == Type::Unknown || right == Type::Unknown;
    match op {
        BinaryOp::Add => if unknown {
            Ok(Type::Unknown)
        } else if is_numeric_type(left) && is_numeric_type(right) {
            if left == Type::Float || right == Type::Float { Ok(Type::Float) } else { Ok(Type::Int) }
        } else if left == Type::Str || right == Type::Str {
            Ok(Type::Str)
        } else {
            Err("'+' expects two numeric operands or two Str operands"@)
        },
        BinaryOp::Sub | BinaryOp::Mul | BinaryOp::Mod | BinaryOp::Pow => if unknown {
            Ok(Type::Unknown)
        } else if is_numeric_type(left) && is_numeric_type(right) {
            if op == BinaryOp::Mod {
                if left == Type::Int && right == Type::Int { Ok(Type::Int) } else { Err("'%' expects Int operands"@) }
            } else if left == Type::Float || right == Type::Float {
                Ok(Type::Float)
            } else {
                Ok(Type::Int)
            }
        } else {
            Err("Numeric operator expects numeric operands"@)
        },
        BinaryOp::Div => if unknown {
            Ok(Type::Unknown)
        } else if is_numeric_type(left) && is_numeric_type(right) {
            Ok(Type::Float)
        } else {
            Err("'/' expects numeric operands"@)
        },
        BinaryOp::Eq | BinaryOp::Ne => if unknown || comparable_types(left, right) {
            Ok(Type::Bool)
        } else {
            Err("'=='/'!=' operands are not comparable"@)
        },
        BinaryOp::Lt | BinaryOp::Le | BinaryOp::Gt | BinaryOp::Ge => if unknown || ordered_types(left, right) {
            Ok(Type::Bool)
        } else {
            Err("Comparison expects compatible ordered operands"@)
        },
        BinaryOp::And | BinaryOp::Or => if unknown || (left == Type::Bool && right == Type::Bool) {
            Ok(Type::Bool)
        } else {
            Err("'&&'/'||' expects Bool operands"@)
        },
        BinaryOp::Pipe => Ok(Type::Unknown),
    }
}

/// `Ok` when `got` arguments were given where `name` takes `n`.
pub open spec fn arg_count(name: Seq<char>, got: nat, n: nat) -> Result<(), Seq<char>> {
    if got == n {
        Ok(())
    } else {
        Err(name + " expects "@ + decimal(n) + " argument(s), got "@ + decimal(got))
    }
}

pub open spec fn str_or_unknown(t: Type) -> bool {
    t == Type::Str || t == Type::Unknown
}

pub open spec fn http_result() -> Type {
    Type::ResultT(Box::new(Type::Str), Box::new(Type::Str))
}

/// The type of a call of the built-in `name` on arguments of types `args`.
pub open spec fn check_builtin(name: Seq<char>, args: Seq<Type>) -> Result<Type, Seq<char>> {
    let one = arg_count(name, args.len(), 1);
    let two = arg_count(name, args.len(), 2);
    if name == "print"@ {
        match one { Ok(_) => Ok(Type::Unit), Err(m) => Err(m) }
    } else if name == "len"@ {
        match one {
            Ok(_) => if args[0] == Type::Str { Ok(Type::Int) } else { Err("len expects Str"@) },
            Err(m) => Err(m),
        }
    } else if name == "sqrt"@ {
        match one {
            Ok(_) => if is_numeric_type(args[0]) { Ok(Type::Float) } else { Err("sqrt expects numeric value"@) },
            Err(m) => Err(m),
        }
    } else if name == "typeof"@ {
        match one { Ok(_) => Ok(Type::Str), Err(m) => Err(m) }
    } else if name == "fetch"@ || name == "http_get"@ || name == "http_delete"@ || name == "http_head"@
        || name == "http_options"@ {
        match one {
            Ok(_) => if str_or_unknown(args[0]) { Ok(http_result()) } else { Err(name + " expects Str URL"@) },
            Err(m) => Err(m),
        }
    } else if name == "http_post"@ || name == "http_put"@ || name == "http_patch"@ {
        match two {
            Ok(_) => if str_or_unknown(args[0]) && str_or_unknown(args[1]) {
                Ok(http_result())
            } else {
                Err(name + " expects (Str URL, Str body)"@)
            },
            Err(m) => Err(m),
        }
    } else if name == "Some"@ {
        match one { Ok(_) => Ok(Type::OptionT(Box::new(args[0]))), Err(m) => Err(m) }
    } else if name == "Ok"@ {
        match one { Ok(_) => Ok(Type::ResultT(Box::new(args[0]), Box::new(Type::Unknown))), Err(m) => Err(m) }
    } else if name == "Err"@ {
        match one { Ok(_) => Ok(Type::ResultT(Box::new(Type::Unknown), Box::new(args[0]))), Err(m) => Err(m) }
    } else if name == "unwrap_or"@ {
        match two {
            Ok(_) => match args[0] {
                Type::OptionT(inner) => if compatible_types(*inner, args[1]) {
                    Ok(*inner)
                } else {
                    Err("unwrap_or default type must match Option<T>"@)
                },
                Type::ResultT(ok, _) => if compatible_types(*ok, args[1]) {
                    Ok(*ok)
                } else {
                    Err("unwrap_or default type must match Result<T, E>"@)
                },
                _ => Err("unwrap_or expects Option<T> or Result<T, E>"@),
            },
            Err(m) => Err(m),
        }
    } else if name == "is_some"@ || name == "is_none"@ {
        match one {
            Ok(_) => if args[0] is OptionT { Ok(Type::Bool) } else { Err(name + " expects Option<T>"@) },
            Err(m) => Err(m),
        }
    } else if name == "is_ok"@ || name == "is_err"@ {
        match one {
            Ok(_) => if args[0] is ResultT { Ok(Type::Bool) } else { Err(name + " expects Result<T, E>"@) },
            Err(m) => Err(m),
        }
    } else {
        Err("Unknown function '"@ + name + "'"@)
    }
}

/// Parameters bound, in order, as immutable names of unknown type.
pub open spec fn bind_params(env: TypeEnv, params: Seq<String>) -> TypeEnv
    decreases params.len(),
{
    if params.len() == 0 {
        env
    } else {
        bind_params(env, params.drop_last()).insert(params.last()@, Binding { mutable: false, ty: Type::Unknown })
    }
}

/// The scope after matching a value of type `vt` against `pat`.
pub open spec fn bind_pattern(env: TypeEnv, pat: Pattern, vt: Type) -> Result<TypeEnv, Seq<char>>
    decreases pat,
{
    match pat {
        Pattern::Wildcard => Ok(env),
        Pattern::Ident(name) => Ok(env.insert(name@, Binding { mutable: false, ty: vt })),
        Pattern::NonePat => match vt {
            Type::OptionT(_) => Ok(env),
            Type::Unknown => Ok(env),
            _ => Err("Pattern None expects Option value"@),
        },
        Pattern::SomePat(inner) => match vt {
            Type::OptionT(t) => bind_pattern(env, *inner, *t),
            Type::Unknown => bind_pattern(env, *inner, Type::Unknown),
            _ => Err("Pattern Some(_) expects Option value"@),
        },
        Pattern::OkPat(inner) => match vt {
            Type::ResultT(t, _) => bind_pattern(env, *inner, *t),
            Type::Unknown => bind_pattern(env, *inner, Type::Unknown),
            _ => Err("Pattern Ok(_) expects Result value"@),
        },
        Pattern::ErrPat(inner) => match vt {
            Type::ResultT(_, t) => bind_pattern(env, *inner, *t),
            Type::Unknown => bind_pattern(env, *inner, Type::Unknown),
            _ => Err("Pattern Err(_) expects Result value"@),
        },
    }
}

/// The type of an expression in scope `env`, or the first error.
pub open spec fn check_expr(env: TypeEnv, e: ExprV) -> Result<Type, Seq<char>>
    decreases e, 0nat,
{
    match e {
        ExprV::Int(_) => Ok(Type::Int),
        ExprV::Float(_) => Ok(Type::Float),
        ExprV::Bool(_) => Ok(Type::Bool),
        ExprV::Str(_) => Ok(Type::Str),
        ExprV::NoneLit => Ok(Type::OptionT(Box::new(Type::Unknown))),
        ExprV::Ident(name) => if env.contains_key(name@) {
            Ok(env[name@].ty)
        } else {
            Err("Unknown variable '"@ + name@ + "'"@)
        },
        ExprV::Unary { op, expr } => match check_expr(env, *expr) {
            Ok(inner) => match op {
                UnaryOp::Neg => if is_numeric_type(inner) { Ok(inner) } else { Err("Unary '-' expects numeric operand"@) },
                UnaryOp::Not => if inner == Type::Bool { Ok(Type::Bool) } else { Err("Unary '!' expects Bool operand"@) },
            },
            Err(m) => Err(m),
        },
        ExprV::Binary { left, op, right } => match check_expr(env, *left) {
            Ok(lt) => match check_expr(env, *right) {
                Ok(rt) => check_binary(op, lt, rt),
                Err(m) => Err(m),
            },
            Err(m) => Err(m),
        },
        ExprV::Lambda { params, body } => match check_expr(bind_params(env, params), *body) {
            Ok(_) => Ok(Type::Fn(params.len() as usize)),
            Err(m) => Err(m),
        },
        ExprV::Call { callee, args } => match check_args(env, args) {
            Ok(arg_types) => match *callee {
                ExprV::Ident(name) => if env.contains_key(name@) {
                    match env[name@].ty {
                        Type::Fn(arity) => match arg_count(name@, arg_types.len(), arity as nat) {
                            Ok(_) => Ok(Type::Unknown),
                            Err(m) => Err(m),
                        },
                        _ => Err("'"@ + name@ + "' is not callable"@),
                    }
                } else {
                    check_builtin(name@, arg_types)
                },
                _ => match check_expr(env, *callee) {
                    Ok(Type::Fn(arity)) => match arg_count("lambda"@, arg_types.len(), arity as nat) {
                        Ok(_) => Ok(Type::Unknown),
                        Err(m) => Err(m),
                    },
                    Ok(_) => Err("Expression is not callable"@),
                    Err(m) => Err(m),
                },
            },
            Err(m) => Err(m),
        },
        ExprV::Match { value, arms } => match check_expr(env, *value) {
            Ok(vt) => match check_arms(env, vt, arms) {
                Ok(Some(t)) => Ok(t),
                Ok(None) => Ok(Type::Unknown),
                Err(m) => Err(m),
            },
            Err(m) => Err(m),
        },
    }
}

/// The types of arguments, checked left to right.
pub open spec fn check_args(env: TypeEnv, args: Seq<ExprV>) -> Result<Seq<Type>, Seq<char>>
    decreases args, 1nat,
{
    if args.len() == 0 {
        Ok(Seq::empty())
    } else {
        match check_args(env, args.drop_last()) {
            Ok(ts) => match check_expr(env, args.last()) {
                Ok(t) => Ok(ts.push(t)),
                Err(m) => Err(m),
            },
            Err(m) => Err(m),
        }
    }
}

/// The type of the first arm, once every arm has been checked against a
/// value of type `vt` and found compatible with it (`None` for no arms).
pub open spec fn check_arms(env: TypeEnv, vt: Type, arms: Seq<ArmV>) -> Result<Option<Type>, Seq<char>>
    decreases arms, 1nat,
{
    if arms.len() == 0 {
        Ok(None)
    } else {
        match check_arms(env, vt, arms.drop_last()) {
            Ok(acc) => match bind_pattern(env, arms.last().pattern, vt) {
                Ok(scope) => match check_expr(scope, arms.last().expr) {
                    Ok(ty) => match acc {
                        Some(expected) => if compatible_types(expected, ty) {
                            Ok(Some(expected))
                        } else {
                            Err("All match arms must return compatible types"@)
                        },
                        None => Ok(Some(ty)),
                    },
                    Err(m) => Err(m),
                },
                Err(m) => Err(m),
            },
            Err(m) => Err(m),
        }
    }
}

/// The scope after a statement, or the first error.
pub open spec fn check_stmt(env: TypeEnv, s: StmtV) -> Result<TypeEnv, Seq<char>> {
    match s {
        StmtV::Let { name, mutable, expr } => match check_expr(env, expr) {
            Ok(ty) => Ok(env.insert(name@, Binding { mutable, ty })),
            Err(m) => Err(m),
        },
        StmtV::Fn { name, params, body } => {
            let declared = env.insert(name@, Binding { mutable: false, ty: Type::Fn(params.len() as usize) });
            match check_expr(bind_params(declared, params), body) {
                Ok(_) => Ok(declared),
                Err(m) => Err(m),
            }
        },
        StmtV::Assign { name, expr } => match check_expr(env, expr) {
            Ok(rhs) => if !env.contains_key(name@) {
                Err("Unknown variable '"@ + name@ + "'"@)
            } else if !env[name@].mutable {
                Err("Cannot assign to immutable binding '"@ + name@ + "'"@)
            } else if !compatible_types(env[name@].ty, rhs) {
                Err("Type mismatch in assignment to '"@ + name@ + "': expected "@ + label_of_type(env[name@].ty)
                    + ", found "@ + label_of_type(rhs))
            } else {
                Ok(env)
            },
            Err(m) => Err(m),
        },
        StmtV::Expr(e) => match check_expr(env, e) {
            Ok(_) => Ok(env),
            Err(m) => Err(m),
        },
    }
}

/// The scope after the statements in order, or the first error.
pub open spec fn check_stmts(env: TypeEnv, ss: Seq<StmtV>) -> Result<TypeEnv, Seq<char>>
    decreases ss.len(),
{
    if ss.len() == 0 {
        Ok(env)
    } else {
        match check_stmts(env, ss.drop_last()) {
            Ok(e2) => check_stmt(e2, ss.last()),
            Err(m) => Err(m),
        }
    }
}

// ---------------------------------------------------------------------------
// Facts about the rules.
// ---------------------------------------------------------------------------

proof fn lemma_args_prefix_err(env: TypeEnv, s: Seq<ExprV>, k: int, m: Seq<char>)
    requires
        0 <= k <= s.len(),
        check_args(env, s.take(k)) == Err::<Seq<Type>, Seq<char>>(m),
    ensures
        check_args(env, s) == Err::<Seq<Type>, Seq<char>>(m),
    decreases s.len() - k,
{
    if k == s.len() {
        assert(s.take(k) =~= s);
    } else {
        assert(s.take(k + 1).drop_last() =~= s.take(k));
        lemma_args_prefix_err(env, s, k + 1, m);
    }
}

proof fn lemma_arms_prefix_err(env: TypeEnv, vt: Type, s: Seq<ArmV>, k: int, m: Seq<char>)
    requires
        0 <= k <= s.len(),
        check_arms(env, vt, s.take(k)) == Err::<Option<Type>, Seq<char>>(m),
    ensures
        check_arms(env, vt, s) == Err::<Option<Type>, Seq<char>>(m),
    decreases s.len() - k,
{
    if k == s.len() {
        assert(s.take(k) =~= s);
    } else {
        assert(s.take(k + 1).drop_last() =~= s.take(k));
        lemma_arms_prefix_err(env, vt, s, k + 1, m);
    }
}

proof fn lemma_stmts_prefix_err(env: TypeEnv, s: Seq<StmtV>, k: int, m: Seq<char>)
    requires
        0 <= k <= s.len(),
        check_stmts(env, s.take(k)) == Err::<TypeEnv, Seq<char>>(m),
    ensures
        check_stmts(env, s) == Err::<TypeEnv, Seq<char>>(m),
    decreases s.len() - k,
{
    if k == s.len() {
        assert(s.take(k) =~= s);
    } else {
        assert(s.take(k + 1).drop_last() =~= s.take(k));
        lemma_stmts_prefix_err(env, s, k + 1, m);
    }
}

// ---------------------------------------------------------------------------
// Executable helpers.
// ---------------------------------------------------------------------------

impl Type {
    /// A copy equal to this type.
    pub fn duplicate(&self) -> (r: Type)
        ensures
            r == *self,
        decreases self,
    {
        match self {
            Type::Int => Type::Int,
            Type::Float => Type::Float,
            Type::Bool => Type::Bool,
            Type::Str => Type::Str,
            Type::Unit => Type::Unit,
            Type::Fn(n) => Type::Fn(*n),
            Type::OptionT(t) => Type::OptionT(Box::new((**t).duplicate())),
            Type::ResultT(a, b) => Type::ResultT(Box::new((**a).duplicate()), Box::new((**b).duplicate())),
            Type::Unknown => Type::Unknown,
        }
    }

    /// Equality of types.
    pub fn same(&self, other: &Type) -> (b: bool)
        ensures
            b == (*self == *other),
        decreases self,
    {
        match (self, other) {
            (Type::Int, Type::Int) => true,
            (Type::Float, Type::Float) => true,
            (Type::Bool, Type::Bool) => true,
            (Type::Str, Type::Str) => true,
            (Type::Unit, Type::Unit) => true,
            (Type::Fn(a), Type::Fn(b)) => *a == *b,
            (Type::OptionT(a), Type::OptionT(b)) => (**a).same(&**b),
            (Type::ResultT(a1, a2), Type::ResultT(b1, b2)) => (**a1).same(&**b1) && (**a2).same(&**b2),
            (Type::Unknown, Type::Unknown) => true,
            _ => false,
        }
    }

    fn is_unknown(&self) -> (b: bool)
        ensures
            b == (*self == Type::Unknown),
    {
        matches!(self, Type::Unknown)
    }

    fn is_float(&self) -> (b: bool)
        ensures
            b == (*self == Type::Float),
    {
        matches!(self, Type::Float)
    }

    fn is_int(&self) -> (b: bool)
        ensures
            b == (*self == Type::Int),
    {
        matches!(self, Type::Int)
    }

    fn is_str(&self) -> (b: bool)
        ensures
            b == (*self == Type::Str),
    {
        matches!(self, Type::Str)
    }

    fn is_bool(&self) -> (b: bool)
        ensures
            b == (*self == Type::Bool),
    {
        matches!(self, Type::Bool)
    }
}

fn is_numeric(t: &Type) -> (b: bool)
    ensures
        b == is_numeric_type(*t),
{
    t.is_int() || t.is_float()
}

fn comparable(a: &Type, b: &Type) -> (r: bool)
    ensures
        r == comparable_types(*a, *b),
{
    a.same(b) || (is_numeric(a) && is_numeric(b))
}

fn ordered(a: &Type, b: &Type) -> (r: bool)
    ensures
        r == ordered_types(*a, *b),
{
    (is_numeric(a) && is_numeric(b)) || (a.is_str() && b.is_str())
}

/// Whether a value of type `found` may stand where `expected` is required (`compatible_types`).
fn compatible(expected: &Type, found: &Type) -> (r: bool)
    ensures
        r == compatible_types(*expected, *found),
    decreases expected,
{
    if expected.same(found) {
        return true;
    }
    match (expected, found) {
        (Type::Unknown, _) => true,
        (_, Type::Unknown) => true,
        (Type::Fn(a), Type::Fn(b)) => *a == *b,
        (Type::OptionT(a), Type::OptionT(b)) => compatible(&**a, &**b),
        (Type::ResultT(a1, a2), Type::ResultT(b1, b2)) => compatible(&**a1, &**b1) && compatible(&**a2, &**b2),
        _ => false,
    }
}

/// The name of a type in error messages (`label_of_type`).
fn type_label(t: &Type) -> (s: &'static str)
    ensures
        s@ == label_of_type(*t),
{
    match t {
        Type::Int => "Int",
        Type::Float => "Float",
        Type::Bool => "Bool",
        Type::Str => "Str",
        Type::Unit => "()",
        Type::Fn(_) => "fn(_)",
        Type::OptionT(_) => "Option<_>",
        Type::ResultT(_, _) => "Result<_, _>",
        Type::Unknown => "_",
    }
}

fn err(msg: &str) -> (r: EiriadResult<Type>)
    ensures
        r matches Err(e) && e.message@ == msg@,
{
    Err(EiriadError::new(String::from_str(msg)))
}

/// The executable `check_binary`.
fn exec_check_binary(op: BinaryOp, left: &Type, right: &Type) -> (r: EiriadResult<Type>)
    requires
        op != BinaryOp::Pipe,
    ensures
        match check_binary(op, *left, *right) {
            Ok(t) => r == Ok::<Type, EiriadError>(t),
            Err(m) => r matches Err(e) && e.message@ == m,
        },
{
    let unknown = left.is_unknown() || right.is_unknown();
    let numeric = is_numeric(left) && is_numeric(right);
    match op {
        BinaryOp::Add => if unknown {
            Ok(Type::Unknown)
        } else if numeric {
            if left.is_float() || right.is_float() { Ok(Type::Float) } else { Ok(Type::Int) }
        } else if left.is_str() || right.is_str() {
            Ok(Type::Str)
        } else {
            err("'+' expects two numeric operands or two Str operands")
        },
        BinaryOp::Sub | BinaryOp::Mul | BinaryOp::Mod | BinaryOp::Pow => if unknown {
            Ok(Type::Unknown)
        } else if numeric {
            if op == BinaryOp::Mod {
                if left.is_int() && right.is_int() { Ok(Type::Int) } else { err("'%' expects Int operands") }
            } else if left.is_float() || right.is_float() {
                Ok(Type::Float)
            } else {
                Ok(Type::Int)
            }
        } else {
            err("Numeric operator expects numeric operands")
        },
        BinaryOp::Div => if unknown {
            Ok(Type::Unknown)
        } else if numeric {
            Ok(Type::Float)
        } else {
            err("'/' expects numeric operands")
        },
        BinaryOp::Eq | BinaryOp::Ne => if unknown || comparable(left, right) {
            Ok(Type::Bool)
        } else {
            err("'=='/'!=' operands are not comparable")
        },
        BinaryOp::Lt | BinaryOp::Le | BinaryOp::Gt | BinaryOp::Ge => if unknown || ordered(left, right) {
            Ok(Type::Bool)
        } else {
            err("Comparison expects compatible ordered operands")
        },
        BinaryOp::And | BinaryOp::Or => if unknown || (left.is_bool() && right.is_bool()) {
            Ok(Type::Bool)
        } else {
            err("'&&'/'||' expects Bool operands")
        },
        BinaryOp::Pipe => Ok(Type::Unknown),
    }
}

/// `Ok` when `args` has `n` elements; otherwise the arity error for `name`.
fn expect_arg_count(name: &str, args: &[Type], n: usize) -> (r: EiriadResult<()>)
    ensures
        match arg_count(name@, args@.len(), n as nat) {
            Ok(_) => r is Ok,
            Err(m) => r matches Err(e) && e.message@ == m,
        },
{
    if args.len() == n {
        Ok(())
    } else {
        let mut msg = String::from_str(name);
        push_str(&mut msg, " expects ");
        push_decimal(&mut msg, n);
        push_str(&mut msg, " argument(s), got ");
        push_decimal(&mut msg, args.len());
        Err(EiriadError::new(msg))
    }
}

/// `s` holds exactly the characters of `lit`.
fn is(s: &str, lit: &str) -> (b: bool)
    ensures
        b == (s@ == lit@),
{
    String::from_str(s) == String::from_str(lit)
}

/// `name` followed by `suffix`, as an error.
fn named_err(name: &str, suffix: &str) -> (r: EiriadResult<Type>)
    ensures
        r matches Err(e) && e.message@ == name@ + suffix@,
{
    let mut msg = String::from_str(name);
    push_str(&mut msg, suffix);
    Err(EiriadError::new(msg))
}

/// The executable `check_builtin`.
fn exec_check_builtin(name: &str, args: &[Type]) -> (r: EiriadResult<Type>)
    ensures
        match check_builtin(name@, args@) {
            Ok(t) => r == Ok::<Type, EiriadError>(t),
            Err(m) => r matches Err(e) && e.message@ == m,
        },
{
    if is(name, "print") {
        match expect_arg_count(name, args, 1) {
            Ok(()) => Ok(Type::Unit),
            Err(e) => Err(e),
        }
    } else if is(name, "len") {
        match expect_arg_count(name, args, 1) {
            Ok(()) => if args[0].is_str() { Ok(Type::Int) } else { err("len expects Str") },
            Err(e) => Err(e),
        }
    } else if is(name, "sqrt") {
        match expect_arg_count(name, args, 1) {
            Ok(()) => if is_numeric(&args[0]) { Ok(Type::Float) } else { err("sqrt expects numeric value") },
            Err(e) => Err(e),
        }
    } else if is(name, "typeof") {
        match expect_arg_count(name, args, 1) {
            Ok(()) => Ok(Type::Str),
            Err(e) => Err(e),
        }
    } else if is(name, "fetch") || is(name, "http_get") || is(name, "http_delete") || is(name, "http_head")
        || is(name, "http_options") {
        match expect_arg_count(name, args, 1) {
            Ok(()) => if args[0].is_str() || args[0].is_unknown() {
                Ok(Type::ResultT(Box::new(Type::Str), Box::new(Type::Str)))
            } else {
                named_err(name, " expects Str URL")
            },
            Err(e) => Err(e),
        }
    } else if is(name, "http_post") || is(name, "http_put") || is(name, "http_patch") {
        match expect_arg_count(name, args, 2) {
            Ok(()) => if (args[0].is_str() || args[0].is_unknown()) && (args[1].is_str() || args[1].is_unknown()) {
                Ok(Type::ResultT(Box::new(Type::Str), Box::new(Type::Str)))
            } else {
                named_err(name, " expects (Str URL, Str body)")
            },
            Err(e) => Err(e),
        }
    } else if is(name, "Some") {
        match expect_arg_count(name, args, 1) {
            Ok(()) => Ok(Type::OptionT(Box::new(args[0].duplicate()))),
            Err(e) => Err(e),
        }
    } else if is(name, "Ok") {
        match expect_arg_count(name, args, 1) {
            Ok(()) => Ok(Type::ResultT(Box::new(args[0].duplicate()), Box::new(Type::Unknown))),
            Err(e) => Err(e),
        }
    } else if is(name, "Err") {
        match expect_arg_count(name, args, 1) {
            Ok(()) => Ok(Type::ResultT(Box::new(Type::Unknown), Box::new(args[0].duplicate()))),
            Err(e) => Err(e),
        }
    } else if is(name, "unwrap_or") {
        match expect_arg_count(name, args, 2) {
            Ok(()) => match &args[0] {
                Type::OptionT(inner) => if compatible(&**inner, &args[1]) {
                    Ok((**inner).duplicate())
                } else {
                    err("unwrap_or default type must match Option<T>")
                },
                Type::ResultT(ok, _) => if compatible(&**ok, &args[1]) {
                    Ok((**ok).duplicate())
                } else {
                    err("unwrap_or default type must match Result<T, E>")
                },
                _ => err("unwrap_or expects Option<T> or Result<T, E>"),
            },
            Err(e) => Err(e),
        }
    } else if is(name, "is_some") || is(name, "is_none") {
        match expect_arg_count(name, args, 1) {
            Ok(()) => if matches!(args[0], Type::OptionT(_)) { Ok(Type::Bool) } else { named_err(name, " expects Option<T>") },
            Err(e) => Err(e),
        }
    } else if is(name, "is_ok") || is(name, "is_err") {
        match expect_arg_count(name, args, 1) {
            Ok(()) => if matches!(args[0], Type::ResultT(_, _)) {
                Ok(Type::Bool)
            } else {
                named_err(name, " expects Result<T, E>")
            },
            Err(e) => Err(e),
        }
    } else {
        let mut msg = String::from_str("Unknown function '");
        push_str(&mut msg, name);
        push_str(&mut msg, "'");
        Err(EiriadError::new(msg))
    }
}

// ---------------------------------------------------------------------------
// The checker.
// ---------------------------------------------------------------------------

/// One name bound in a scope. A later entry for a name hides earlier ones.
struct Entry {
    name: String,
    binding: Binding,
}

/// The scope that a list of entries describes.
spec fn env_map(es: Seq<Entry>) -> TypeEnv
    decreases es.len(),
{
    if es.len() == 0 {
        Map::empty()
    } else {
        env_map(es.drop_last()).insert(es.last().name@, es.last().binding)
    }
}

proof fn lemma_env_found(es: Seq<Entry>, k: Seq<char>, i: int)
    requires
        0 <= i < es.len(),
        es[i].name@ == k,
        forall|j: int| i < j < es.len() ==> (#[trigger] es[j]).name@ != k,
    ensures
        env_map(es).contains_key(k),
        env_map(es)[k] == es[i].binding,
    decreases es.len(),
{
    if i < es.len() - 1 {
        lemma_env_found(es.drop_last(), k, i);
        assert(es.last() == es[es.len() - 1]);
    }
}

proof fn lemma_env_absent(es: Seq<Entry>, k: Seq<char>)
    requires
        forall|j: int| 0 <= j < es.len() ==> (#[trigger] es[j]).name@ != k,
    ensures
        !env_map(es).contains_key(k),
    decreases es.len(),
{
    if es.len() > 0 {
        lemma_env_absent(es.drop_last(), k);
        assert(es.last() == es[es.len() - 1]);
    }
}

/// The semantic checker run before evaluation: unknown names, assignment to
/// immutable bindings, operand and argument types, match patterns.
pub struct Checker {
    env: Vec<Entry>,
}

impl Checker {
    /// The scope: what is known of each name declared so far.
    pub closed spec fn env_view(&self) -> TypeEnv {
        env_map(self.env@)
    }

    /// A checker with nothing declared.
    pub fn new() -> (c: Self)
        ensures
            c.env_view() == Map::<Seq<char>, Binding>::empty(),
    {
        Checker { env: Vec::new() }
    }

    /// The index of the entry that binds `name`, if any.
    fn lookup(&self, name: &str) -> (r: Option<usize>)
        ensures
            match r {
                Some(i) => i < self.env@.len() && env_map(self.env@).contains_key(name@)
                    && env_map(self.env@)[name@] == self.env@[i as int].binding,
                None => !env_map(self.env@).contains_key(name@),
            },
    {
        let target = String::from_str(name);
        let mut i: usize = self.env.len();
        while i > 0
            invariant
                i <= self.env@.len(),
                target@ == name@,
                forall|j: int| i <= j < self.env@.len() ==> (#[trigger] self.env@[j]).name@ != name@,
            decreases i,
        {
            i = i - 1;
            if self.env[i].name == target {
                proof {
                    lemma_env_found(self.env@, name@, i as int);
                }
                return Some(i);
            }
        }
        proof {
            lemma_env_absent(self.env@, name@);
        }
        None
    }

    /// Declares a name, as a binding made before the program being checked.
    pub fn declare(&mut self, name: String, binding: Binding)
        ensures
            final(self).env_view() == old(self).env_view().insert(name@, binding),
    {
        self.bind(name, binding);
    }

    /// Binds a name (hiding an earlier binding of it).
    fn bind(&mut self, name: String, binding: Binding)
        ensures
            final(self).env@ == old(self).env@.push(Entry { name, binding }),
            env_map(final(self).env@) == env_map(old(self).env@).insert(name@, binding),
    {
        let ghost old_env = self.env@;
        self.env.push(Entry { name, binding });
        proof {
            assert(self.env@.drop_last() =~= old_env);
        }
    }

    /// Binds the parameters, in order, as immutable names of unknown type.
    fn bind_params(&mut self, params: &Vec<String>)
        ensures
            env_map(final(self).env@) == bind_params(env_map(old(self).env@), params@),
            final(self).env@.len() >= old(self).env@.len(),
            final(self).env@.subrange(0, old(self).env@.len() as int) == old(self).env@,
    {
        let mut i: usize = 0;
        while i < params.len()
            invariant
                i <= params@.len(),
                env_map(self.env@) == bind_params(env_map(old(self).env@), params@.take(i as int)),
                self.env@.len() >= old(self).env@.len(),
                self.env@.subrange(0, old(self).env@.len() as int) == old(self).env@,
            decreases params@.len() - i,
        {
            let ghost before = self.env@;
            self.bind(params[i].clone(), Binding { mutable: false, ty: Type::Unknown });
            proof {
                assert(params@.take(i + 1).drop_last() =~= params@.take(i as int));
                assert(self.env@.subrange(0, old(self).env@.len() as int) =~= before.subrange(0, old(self).env@.len() as int));
            }
            i = i + 1;
        }
        proof {
            assert(params@.take(params@.len() as int) =~= params@);
        }
    }

    /// Binds the names of `pat` for a value of type `vt`.
    fn bind_pattern(&mut self, pat: &Pattern, vt: &Type) -> (r: EiriadResult<()>)
        ensures
            match bind_pattern(env_map(old(self).env@), *pat, *vt) {
                Ok(scope) => r is Ok && env_map(final(self).env@) == scope
                    && final(self).env@.len() >= old(self).env@.len()
                    && final(self).env@.subrange(0, old(self).env@.len() as int) == old(self).env@,
                Err(m) => r matches Err(e) && e.message@ == m,
            },
        decreases pat,
    {
        match pat {
            Pattern::Wildcard => {
                assert(self.env@.subrange(0, self.env@.len() as int) =~= self.env@);
                Ok(())
            },
            Pattern::Ident(name) => {
                let ghost before = self.env@;
                self.bind(name.clone(), Binding { mutable: false, ty: vt.duplicate() });
                assert(self.env@.subrange(0, before.len() as int) =~= before);
                Ok(())
            },
            Pattern::NonePat => match vt {
                Type::OptionT(_) | Type::Unknown => {
                    assert(self.env@.subrange(0, self.env@.len() as int) =~= self.env@);
                    Ok(())
                },
                _ => Err(EiriadError::new(String::from_str("Pattern None expects Option value"))),
            },
            Pattern::SomePat(inner) => match vt {
                Type::OptionT(t) => self.bind_pattern(&**inner, &**t),
                Type::Unknown => self.bind_pattern(&**inner, &Type::Unknown),
                _ => Err(EiriadError::new(String::from_str("Pattern Some(_) expects Option value"))),
            },
            Pattern::OkPat(inner) => match vt {
                Type::ResultT(t, _) => self.bind_pattern(&**inner, &**t),
                Type::Unknown => self.bind_pattern(&**inner, &Type::Unknown),
                _ => Err(EiriadError::new(String::from_str("Pattern Ok(_) expects Result value"))),
            },
            Pattern::ErrPat(inner) => match vt {
                Type::ResultT(_, t) => self.bind_pattern(&**inner, &**t),
                Type::Unknown => self.bind_pattern(&**inner, &Type::Unknown),
                _ => Err(EiriadError::new(String::from_str("Pattern Err(_) expects Result value"))),
            },
        }
    }
}

/// The checked value `r` agrees with the spec result `s`.
pub open spec fn agrees_type(r: EiriadResult<Type>, s: Result<Type, Seq<char>>) -> bool {
    match s {
        Ok(t) => r == Ok::<Type, EiriadError>(t),
        Err(m) => r matches Err(e) && e.message@ == m,
    }
}

impl Checker {
    /// The type of `expr` in the current scope. On success the scope is unchanged.
    fn check_expr(&mut self, expr: &Expr) -> (r: EiriadResult<Type>)
        requires
            pipe_free(expr@),
        ensures
            agrees_type(r, check_expr(env_map(old(self).env@), expr@)),
            r is Ok ==> final(self).env@ == old(self).env@,
        decreases expr,
    {
        let ghost env0 = self.env@;
        let ghost scope = env_map(env0);
        match expr {
            Expr::Int(_) => Ok(Type::Int),
            Expr::Float(_) => Ok(Type::Float),
            Expr::Bool(_) => Ok(Type::Bool),
            Expr::Str(_) => Ok(Type::Str),
            Expr::NoneLit => Ok(Type::OptionT(Box::new(Type::Unknown))),
            Expr::Ident(name) => match self.lookup(name.as_str()) {
                Some(i) => Ok(self.env[i].binding.ty.duplicate()),
                None => {
                    let mut msg = String::from_str("Unknown variable '");
                    push_str(&mut msg, name.as_str());
                    push_str(&mut msg, "'");
                    Err(EiriadError::new(msg))
                },
            },
            Expr::Unary { op, expr: inner } => {
                let t = match self.check_expr(&**inner) {
                    Ok(t) => t,
                    Err(e) => return Err(e),
                };
                match op {
                    UnaryOp::Neg => if is_numeric(&t) { Ok(t) } else { err("Unary '-' expects numeric operand") },
                    UnaryOp::Not => if t.is_bool() { Ok(Type::Bool) } else { err("Unary '!' expects Bool operand") },
                }
            },
            Expr::Binary { left, op, right } => {
                let lt = match self.check_expr(&**left) {
                    Ok(t) => t,
                    Err(e) => return Err(e),
                };
                let rt = match self.check_expr(&**right) {
                    Ok(t) => t,
                    Err(e) => return Err(e),
                };
                exec_check_binary(*op, &lt, &rt)
            },
            Expr::Lambda { params, body } => {
                let saved = self.env.len();
                self.bind_params(params);
                match self.check_expr(&**body) {
                    Ok(_) => {},
                    Err(e) => return Err(e),
                }
                self.env.truncate(saved);
                proof {
                    assert(self.env@ =~= env0);
                }
                Ok(Type::Fn(params.len()))
            },
            Expr::Call { callee, args } => {
                proof {
                    lemma_exprs_model_index(args@);
                    crate::ast::lemma_all_pipe_free_index(exprs_model(args@));
                }
                let ghost model = exprs_model(args@);
                assert(expr@ == (ExprV::Call { callee: Box::new((**callee)@), args: model }));
                let mut arg_types: Vec<Type> = Vec::new();
                let mut i: usize = 0;
                proof {
                    assert(model.take(0) =~= Seq::<ExprV>::empty());
                }
                while i < args.len()
                    invariant
                        i <= args@.len(),
                        model == exprs_model(args@),
                        model.len() == args@.len(),
                        forall|j: int| 0 <= j < args@.len() ==> #[trigger] model[j] == args@[j]@,
                        forall|j: int| 0 <= j < model.len() ==> pipe_free(#[trigger] model[j]),
                        self.env@ == env0,
                        env0 == old(self).env@,
                        scope == env_map(env0),
                        expr@ == (ExprV::Call { callee: Box::new((**callee)@), args: model }),
                        *expr == (Expr::Call { callee: *callee, args: *args }),
                        check_args(scope, model.take(i as int)) == Ok::<Seq<Type>, Seq<char>>(arg_types@),
                    decreases args@.len() - i,
                {
                    assert(model[i as int] == args@[i as int]@);
                    proof {
                        assert(decreases_to!(*expr => *args));
                        assert(decreases_to!(*args => args@));
                        assert(decreases_to!(args@ => args@[i as int]));
                        assert(decreases_to!(*expr => args@[i as int]));
                    }
                    let t = match self.check_expr(&args[i]) {
                        Ok(t) => t,
                        Err(e) => {
                            proof {
                                assert(model.take(i + 1).drop_last() =~= model.take(i as int));
                                lemma_args_prefix_err(scope, model, i + 1, e.message@);
                            }
                            return Err(e);
                        },
                    };
                    arg_types.push(t);
                    proof {
                        assert(model.take(i + 1).drop_last() =~= model.take(i as int));
                    }
                    i = i + 1;
                }
                proof {
                    assert(model.take(args@.len() as int) =~= model);
                }
                match &**callee {
                    Expr::Ident(name) => {
                        match self.lookup(name.as_str()) {
                            Some(k) => match &self.env[k].binding.ty {
                                Type::Fn(arity) => match expect_arg_count(name.as_str(), arg_types.as_slice(), *arity) {
                                    Ok(()) => Ok(Type::Unknown),
                                    Err(e) => Err(e),
                                },
                                _ => {
                                    let mut msg = String::from_str("'");
                                    push_str(&mut msg, name.as_str());
                                    push_str(&mut msg, "' is not callable");
                                    Err(EiriadError::new(msg))
                                },
                            },
                            None => exec_check_builtin(name.as_str(), arg_types.as_slice()),
                        }
                    },
                    _ => match self.check_expr(&**callee) {
                        Ok(Type::Fn(arity)) => match expect_arg_count("lambda", arg_types.as_slice(), arity) {
                            Ok(()) => Ok(Type::Unknown),
                            Err(e) => Err(e),
                        },
                        Ok(_) => err("Expression is not callable"),
                        Err(e) => Err(e),
                    },
                }
            },
            Expr::Match { value, arms } => {
                let vt = match self.check_expr(&**value) {
                    Ok(t) => t,
                    Err(e) => return Err(e),
                };
                proof {
                    lemma_arms_model_index(arms@);
                    crate::ast::lemma_arms_pipe_free_index(arms_model(arms@));
                }
                let ghost model = arms_model(arms@);
                assert(expr@ == (ExprV::Match { value: Box::new((**value)@), arms: model }));
                let mut arm_ty: Option<Type> = None;
                let mut i: usize = 0;
                proof {
                    assert(model.take(0) =~= Seq::<ArmV>::empty());
                }
                while i < arms.len()
                    invariant
                        i <= arms@.len(),
                        model == arms_model(arms@),
                        model.len() == arms@.len(),
                        forall|j: int| 0 <= j < arms@.len() ==> #[trigger] model[j] == arms@[j]@,
                        forall|j: int| 0 <= j < model.len() ==> pipe_free(#[trigger] model[j].expr),
                        self.env@ == env0,
                        env0 == old(self).env@,
                        scope == env_map(env0),
                        expr@ == (ExprV::Match { value: Box::new((**value)@), arms: model }),
                        *expr == (Expr::Match { value: *value, arms: *arms }),
                        check_expr(scope, (**value)@) == Ok::<Type, Seq<char>>(vt),
                        check_arms(scope, vt, model.take(i as int)) == Ok::<Option<Type>, Seq<char>>(arm_ty),
                    decreases arms@.len() - i,
                {
                    let ghost arm_v = model[i as int];
                    assert(arm_v == arms@[i as int]@);
                    proof {
                        assert(model.take(i + 1).drop_last() =~= model.take(i as int));
                        assert(model.take(i + 1).last() == arm_v);
                    }
                    let saved = self.env.len();
                    match self.bind_pattern(&arms[i].pattern, &vt) {
                        Ok(()) => {},
                        Err(e) => {
                            proof {
                                lemma_arms_prefix_err(scope, vt, model, i + 1, e.message@);
                            }
                            return Err(e);
                        },
                    }
                    proof {
                        assert(decreases_to!(*expr => *arms));
                        assert(decreases_to!(*arms => arms@));
                        assert(decreases_to!(arms@ => arms@[i as int]));
                        assert(decreases_to!(arms@[i as int] => arms@[i as int].expr));
                        assert(decreases_to!(*expr => arms@[i as int].expr));
                    }
                    let ty = match self.check_expr(&arms[i].expr) {
                        Ok(t) => t,
                        Err(e) => {
                            proof {
                                lemma_arms_prefix_err(scope, vt, model, i + 1, e.message@);
                            }
                            return Err(e);
                        },
                    };
                    self.env.truncate(saved);
                    proof {
                        assert(self.env@ =~= env0);
                    }
                    match &arm_ty {
                        Some(expected) => {
                            if !compatible(expected, &ty) {
                                proof {
                                    lemma_arms_prefix_err(scope, vt, model, i + 1, "All match arms must return compatible types"@);
                                }
                                return Err(EiriadError::new(String::from_str("All match arms must return compatible types")));
                            }
                        },
                        None => {
                            arm_ty = Some(ty);
                        },
                    }
                    i = i + 1;
                }
                proof {
                    assert(model.take(arms@.len() as int) =~= model);
                }
                match arm_ty {
                    Some(t) => Ok(t),
                    None => Ok(Type::Unknown),
                }
            },
        }
    }

    /// Checks one statement; on success the scope is the one `check_stmt` gives.
    fn check_stmt(&mut self, stmt: &Stmt) -> (r: EiriadResult<()>)
        requires
            stmt_pipe_free(stmt@),
        ensures
            match check_stmt(env_map(old(self).env@), stmt@) {
                Ok(scope) => r is Ok && env_map(final(self).env@) == scope,
                Err(m) => r matches Err(e) && e.message@ == m,
            },
    {
        let ghost env0 = self.env@;
        match stmt {
            Stmt::Let { name, mutable, expr } => {
                let ty = match self.check_expr(expr) {
                    Ok(t) => t,
                    Err(e) => return Err(e),
                };
                self.bind(name.clone(), Binding { mutable: *mutable, ty });
                Ok(())
            },
            Stmt::Fn { name, params, body } => {
                self.bind(name.clone(), Binding { mutable: false, ty: Type::Fn(params.len()) });
                let ghost declared = self.env@;
                let saved = self.env.len();
                self.bind_params(params);
                match self.check_expr(body) {
                    Ok(_) => {},
                    Err(e) => return Err(e),
                }
                self.env.truncate(saved);
                proof {
                    assert(self.env@ =~= declared);
                }
                Ok(())
            },
            Stmt::Assign { name, expr } => {
                let rhs = match self.check_expr(expr) {
                    Ok(t) => t,
                    Err(e) => return Err(e),
                };
                match self.lookup(name.as_str()) {
                    None => {
                        let mut msg = String::from_str("Unknown variable '");
                        push_str(&mut msg, name.as_str());
                        push_str(&mut msg, "'");
                        Err(EiriadError::new(msg))
                    },
                    Some(k) => {
                        if !self.env[k].binding.mutable {
                            let mut msg = String::from_str("Cannot assign to immutable binding '");
                            push_str(&mut msg, name.as_str());
                            push_str(&mut msg, "'");
                            Err(EiriadError::new(msg))
                        } else if !compatible(&self.env[k].binding.ty, &rhs) {
                            let mut msg = String::from_str("Type mismatch in assignment to '");
                            push_str(&mut msg, name.as_str());
                            push_str(&mut msg, "': expected ");
                            push_str(&mut msg, type_label(&self.env[k].binding.ty));
                            push_str(&mut msg, ", found ");
                            push_str(&mut msg, type_label(&rhs));
                            Err(EiriadError::new(msg))
                        } else {
                            Ok(())
                        }
                    },
                }
            },
            Stmt::Expr(e) => match self.check_expr(e) {
                Ok(_) => Ok(()),
                Err(err) => Err(err),
            },
        }
    }

    /// Checks the statements in order. On success the scope is the one
    /// `check_stmts` gives; otherwise the error is its first error.
    pub fn check_program(&mut self, stmts: &[Stmt]) -> (r: EiriadResult<()>)
        requires
            program_pipe_free(stmts_view(stmts@)),
        ensures
            match check_stmts(old(self).env_view(), stmts_view(stmts@)) {
                Ok(scope) => r is Ok && final(self).env_view() == scope,
                Err(m) => r matches Err(e) && e.message@ == m,
            },
    {
        let ghost scope0 = env_map(self.env@);
        let ghost ss = stmts_view(stmts@);
        let mut i: usize = 0;
        proof {
            assert(ss.take(0) =~= Seq::<StmtV>::empty());
        }
        while i < stmts.len()
            invariant
                i <= stmts@.len(),
                ss == stmts_view(stmts@),
                ss.len() == stmts@.len(),
                program_pipe_free(ss),
                scope0 == old(self).env_view(),
                check_stmts(scope0, ss.take(i as int)) == Ok::<TypeEnv, Seq<char>>(env_map(self.env@)),
            decreases stmts@.len() - i,
        {
            assert(ss[i as int] == stmts@[i as int]@);
            assert(stmt_pipe_free(ss[i as int]));
            proof {
                assert(ss.take(i + 1).drop_last() =~= ss.take(i as int));
                assert(ss.take(i + 1).last() == ss[i as int]);
            }
            match self.check_stmt(&stmts[i]) {
                Ok(()) => {},
                Err(e) => {
                    proof {
                        lemma_stmts_prefix_err(scope0, ss, i + 1, e.message@);
                    }
                    return Err(e);
                },
            }
            i = i + 1;
        }
        proof {
            assert(ss.take(stmts@.len() as int) =~= ss);
        }
        Ok(())
    }
}

} // verus!
