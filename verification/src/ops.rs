use vstd::prelude::*;

use crate::ast::{BinaryOp, UnaryOp};
use crate::error::EiriadError;
use crate::host::{order_holds, exec_order_holds, ArithOp, HostCall, HostCallV, Num};
use crate::text::{push_str, same_text};
use crate::value::{
    equals, exec_float_is_zero, exec_text_order, float_is_zero, float_neg, float_order, int_order,
    int_sign, kind_name, pieces_view, plain_text, plain_text_of, render, sign_of, text_order,
    total_key, truthy, values_view, HttpResponseValue, Piece, PieceV, Value, ValueV,
};

verus! {

/// What an operation does next: give a value, fail, print a value (and give
/// `()`), or ask the host for work whose reply gives the value.
#[derive(Debug)]
pub enum Step {
    Value(Value),
    Fail(EiriadError),
    Print(Value),
    Ask(HostCall),
}

pub enum StepV {
    Value(ValueV),
    Fail(Seq<char>),
    Print(ValueV),
    Ask(HostCallV),
}

impl View for Step {
    type V = StepV;

    open spec fn view(&self) -> StepV {
        match self {
            Step::Value(v) => StepV::Value(v@),
            Step::Fail(e) => StepV::Fail(e.message@),
            Step::Print(v) => StepV::Print(v@),
            Step::Ask(c) => StepV::Ask(c@),
        }
    }
}

/// The number a value denotes, if it is numeric.
pub open spec fn num_of(v: ValueV) -> Option<Num> {
    match v {
        ValueV::Int(n) => Some(Num::Int(n)),
        ValueV::Float(b) => Some(Num::Float(b)),
        _ => None,
    }
}

/// The number is zero once converted to a double.
pub open spec fn num_is_zero(n: Num) -> bool {
    match n {
        Num::Int(i) => i == 0,
        Num::Float(b) => float_is_zero(b),
    }
}

pub open spec fn not_numeric() -> Seq<char> {
    "Expected numeric value"@
}

/// An integer result, or the overflow error when it does not fit in an `i64`.
pub open spec fn int_result(x: int, overflow: Seq<char>) -> StepV {
    if i64::MIN <= x && x <= i64::MAX {
        StepV::Value(ValueV::Int(x as i64))
    } else {
        StepV::Fail(overflow)
    }
}

/// The remainder of truncating division: the sign of `a`, the magnitude of
/// `|a| mod |b|`.
pub open spec fn trunc_rem(a: i64, b: i64) -> int {
    let ma: int = if a < 0 { -(a as int) } else { a as int };
    let mb: int = if b < 0 { -(b as int) } else { b as int };
    if a < 0 { -(ma % mb) } else { ma % mb }
}

/// What a prefix operator does to a value.
pub open spec fn unary_step(op: UnaryOp, v: ValueV) -> StepV {
    match op {
        UnaryOp::Neg => match v {
            ValueV::Int(n) => int_result(-(n as int), "attempt to negate with overflow"@),
            ValueV::Float(b) => StepV::Value(ValueV::Float(float_neg(b))),
            _ => StepV::Fail("Unary '-' expects Int or Float"@),
        },
        UnaryOp::Not => StepV::Value(ValueV::Bool(!truthy(v))),
    }
}

/// `+` with a string on one side: the display texts joined, by the host
/// when a double has to be shown.
pub open spec fn concat_step(l: ValueV, r: ValueV) -> StepV {
    let ps = render(l) + render(r);
    match plain_text(ps) {
        Some(t) => StepV::Value(ValueV::Str(t)),
        None => StepV::Ask(HostCallV::Join(ps)),
    }
}

/// Double arithmetic `op` on two values, once both are numbers.
pub open spec fn arith(op: ArithOp, l: ValueV, r: ValueV) -> StepV {
    match (num_of(l), num_of(r)) {
        (Some(x), Some(y)) => StepV::Ask(HostCallV::Arith { op, left: x, right: y }),
        _ => StepV::Fail(not_numeric()),
    }
}

/// What an infix operator does to two values. `&&`, `||` are evaluated
/// lazily by the evaluator and `|>` is removed by the parser; none reach here.
pub open spec fn binary_step(op: BinaryOp, l: ValueV, r: ValueV) -> StepV {
    match op {
        BinaryOp::Add => match (l, r) {
            (ValueV::Int(a), ValueV::Int(b)) => int_result(a + b, "attempt to add with overflow"@),
            (ValueV::Str(a), ValueV::Str(b)) => StepV::Value(ValueV::Str(a + b)),
            _ => if l is Str || r is Str {
                concat_step(l, r)
            } else if num_of(l) is Some && num_of(r) is Some {
                arith(ArithOp::Add, l, r)
            } else {
                StepV::Fail("'+' expects numbers or strings"@)
            },
        },
        BinaryOp::Sub => match (l, r) {
            (ValueV::Int(a), ValueV::Int(b)) => int_result(a - b, "attempt to subtract with overflow"@),
            _ => arith(ArithOp::Sub, l, r),
        },
        BinaryOp::Mul => match (l, r) {
            (ValueV::Int(a), ValueV::Int(b)) => int_result(a * b, "attempt to multiply with overflow"@),
            _ => arith(ArithOp::Mul, l, r),
        },
        BinaryOp::Div => match num_of(r) {
            None => StepV::Fail(not_numeric()),
            Some(y) => if num_is_zero(y) {
                StepV::Fail("Division by zero"@)
            } else {
                arith(ArithOp::Div, l, r)
            },
        },
        BinaryOp::Mod => match (l, r) {
            (ValueV::Int(a), ValueV::Int(b)) => if b == 0 {
                StepV::Fail("Division by zero"@)
            } else if a == i64::MIN && b == -1 {
                StepV::Fail("attempt to calculate the remainder with overflow"@)
            } else {
                StepV::Value(ValueV::Int(trunc_rem(a, b) as i64))
            },
            _ => StepV::Fail("Operator expects Int values"@),
        },
        BinaryOp::Pow => arith(ArithOp::Pow, l, r),
        BinaryOp::Eq => StepV::Value(ValueV::Bool(equals(l, r))),
        BinaryOp::Ne => StepV::Value(ValueV::Bool(!equals(l, r))),
        BinaryOp::Lt | BinaryOp::Le | BinaryOp::Gt | BinaryOp::Ge => match (l, r) {
            (ValueV::Int(a), ValueV::Int(b)) => StepV::Value(ValueV::Bool(order_holds(op, int_sign(a, b)))),
            (ValueV::Float(a), ValueV::Float(b)) => StepV::Value(
                ValueV::Bool(order_holds(op, sign_of(total_key(a), total_key(b)))),
            ),
            (ValueV::Str(a), ValueV::Str(b)) => StepV::Value(ValueV::Bool(order_holds(op, text_order(a, b)))),
            _ => match (num_of(l), num_of(r)) {
                (Some(x), Some(y)) => StepV::Ask(HostCallV::Order { op, left: x, right: y }),
                _ => StepV::Fail("Cannot compare these values"@),
            },
        },
        _ => StepV::Fail("Operator is not evaluated here"@),
    }
}

// ---------------------------------------------------------------------------
// Built-in functions.
// ---------------------------------------------------------------------------

/// The arity error of built-in `name`.
pub open spec fn arity_msg(name: Seq<char>, n: nat) -> Seq<char> {
    name + if n == 1 { " expects exactly 1 argument"@ } else { " expects exactly 2 arguments"@ }
}

pub open spec fn is_http1(name: Seq<char>) -> bool {
    name == "fetch"@ || name == "http_get"@ || name == "http_delete"@ || name == "http_head"@
        || name == "http_options"@
}

pub open spec fn is_http2(name: Seq<char>) -> bool {
    name == "http_post"@ || name == "http_put"@ || name == "http_patch"@
}

/// The method of an HTTP built-in.
pub open spec fn http_method(name: Seq<char>) -> Seq<char> {
    if name == "http_delete"@ {
        "DELETE"@
    } else if name == "http_head"@ {
        "HEAD"@
    } else if name == "http_options"@ {
        "OPTIONS"@
    } else if name == "http_post"@ {
        "POST"@
    } else if name == "http_put"@ {
        "PUT"@
    } else if name == "http_patch"@ {
        "PATCH"@
    } else {
        "GET"@
    }
}

pub open spec fn is_request_field(name: Seq<char>) -> bool {
    name == "request_method"@ || name == "request_path"@ || name == "request_body"@
}

pub open spec fn is_wrapper(name: Seq<char>) -> bool {
    name == "Some"@ || name == "Ok"@ || name == "Err"@
}

pub open spec fn is_test(name: Seq<char>) -> bool {
    name == "is_some"@ || name == "is_none"@ || name == "is_ok"@ || name == "is_err"@
}

/// The number of arguments a built-in takes (for those that are known).
pub open spec fn builtin_arity(name: Seq<char>) -> nat {
    if name == "serve"@ || name == "response"@ || name == "unwrap_or"@ || is_http2(name) {
        2
    } else {
        1
    }
}

/// A name that `call_builtin` knows.
pub open spec fn is_builtin(name: Seq<char>) -> bool {
    name == "print"@ || name == "len"@ || name == "sqrt"@ || name == "typeof"@ || name == "serve"@
        || is_request_field(name) || name == "response"@ || is_http1(name) || is_http2(name)
        || is_wrapper(name) || name == "unwrap_or"@ || is_test(name)
}

/// What built-in `name` does with arguments of the right number.
pub open spec fn builtin_body(name: Seq<char>, args: Seq<ValueV>) -> StepV {
    let a = args[0];
    if name == "print"@ {
        StepV::Print(a)
    } else if name == "len"@ {
        match a {
            ValueV::Str(s) => StepV::Value(ValueV::Int(s.len() as i64)),
            _ => StepV::Fail("len currently supports Str only"@),
        }
    } else if name == "sqrt"@ {
        match num_of(a) {
            Some(x) => StepV::Ask(HostCallV::Sqrt(x)),
            None => StepV::Fail(not_numeric()),
        }
    } else if name == "typeof"@ {
        StepV::Value(ValueV::Str(kind_name(a)))
    } else if name == "serve"@ {
        match a {
            ValueV::Int(p) => if 1 <= p && p <= 65535 {
                match args[1] {
                    ValueV::Function(f) => StepV::Ask(HostCallV::Serve { port: p as u16, handler: f }),
                    _ => StepV::Fail("serve expects function(request) as second argument"@),
                }
            } else {
                StepV::Fail("serve port must be between 1 and 65535"@)
            },
            _ => StepV::Fail("serve expects Int port as first argument"@),
        }
    } else if is_request_field(name) {
        match a {
            ValueV::Request(m, p, b) => StepV::Value(
                ValueV::Str(if name == "request_method"@ { m } else if name == "request_path"@ { p } else { b }),
            ),
            _ => StepV::Fail(name + " expects Request value"@),
        }
    } else if name == "response"@ {
        match a {
            ValueV::Int(st) => if 100 <= st && st <= 599 {
                match args[1] {
                    ValueV::Str(b) => StepV::Value(ValueV::Response(st as u16, b)),
                    _ => StepV::Fail("response expects Str body as second argument"@),
                }
            } else {
                StepV::Fail("response status must be between 100 and 599"@)
            },
            _ => StepV::Fail("response expects Int status as first argument"@),
        }
    } else if is_http1(name) {
        match a {
            ValueV::Str(u) => StepV::Ask(HostCallV::Http { method: http_method(name), url: u, body: None }),
            _ => StepV::Fail(name + " expects Str URL"@),
        }
    } else if is_http2(name) {
        match a {
            ValueV::Str(u) => match args[1] {
                ValueV::Str(b) => StepV::Ask(HostCallV::Http { method: http_method(name), url: u, body: Some(b) }),
                _ => StepV::Fail(name + " expects Str body"@),
            },
            _ => StepV::Fail(name + " expects Str URL"@),
        }
    } else if is_wrapper(name) {
        StepV::Value(
            if name == "Some"@ {
                ValueV::SomeV(Box::new(a))
            } else if name == "Ok"@ {
                ValueV::OkV(Box::new(a))
            } else {
                ValueV::ErrV(Box::new(a))
            },
        )
    } else if name == "unwrap_or"@ {
        match a {
            ValueV::SomeV(v) => StepV::Value(*v),
            ValueV::NoneV => StepV::Value(args[1]),
            ValueV::OkV(v) => StepV::Value(*v),
            ValueV::ErrV(_) => StepV::Value(args[1]),
            _ => StepV::Fail("unwrap_or expects Option or Result value"@),
        }
    } else {
        StepV::Value(
            ValueV::Bool(
                if name == "is_some"@ {
                    a is SomeV
                } else if name == "is_none"@ {
                    a is NoneV
                } else if name == "is_ok"@ {
                    a is OkV
                } else {
                    a is ErrV
                },
            ),
        )
    }
}

/// What calling built-in `name` with `args` does.
pub open spec fn builtin_step(name: Seq<char>, args: Seq<ValueV>) -> StepV {
    if !is_builtin(name) {
        StepV::Fail("Unknown function '"@ + name + "'"@)
    } else if args.len() != builtin_arity(name) {
        StepV::Fail(arity_msg(name, builtin_arity(name)))
    } else {
        builtin_body(name, args)
    }
}

// ---------------------------------------------------------------------------
// The executable decisions.
// ---------------------------------------------------------------------------

fn fail(msg: &str) -> (s: Step)
    ensures
        s@ == StepV::Fail(msg@),
{
    Step::Fail(EiriadError::new(String::from_str(msg)))
}

fn fail_named(name: &str, suffix: &str) -> (s: Step)
    ensures
        s@ == StepV::Fail(name@ + suffix@),
{
    let mut m = String::from_str(name);
    push_str(&mut m, suffix);
    Step::Fail(EiriadError::new(m))
}

/// The number a value denotes (`num_of`).
pub fn exec_num_of(v: &Value) -> (n: Option<Num>)
    ensures
        n == num_of(v@),
{
    match v {
        Value::Int(i) => Some(Num::Int(*i)),
        Value::Float(b) => Some(Num::Float(*b)),
        _ => None,
    }
}

fn exec_num_is_zero(n: Num) -> (b: bool)
    ensures
        b == num_is_zero(n),
{
    match n {
        Num::Int(i) => i == 0,
        Num::Float(b) => exec_float_is_zero(b),
    }
}

fn exec_arith(op: ArithOp, l: &Value, r: &Value) -> (s: Step)
    ensures
        s@ == arith(op, l@, r@),
{
    match (exec_num_of(l), exec_num_of(r)) {
        (Some(x), Some(y)) => Step::Ask(HostCall::Arith { op, left: x, right: y }),
        _ => fail("Expected numeric value"),
    }
}

fn exec_concat(l: &Value, r: &Value) -> (s: Step)
    ensures
        s@ == concat_step(l@, r@),
{
    let mut ps: Vec<Piece> = Vec::new();
    assert(pieces_view(ps@) =~= Seq::<PieceV>::empty());
    l.render_into(&mut ps);
    r.render_into(&mut ps);
    assert(pieces_view(ps@) =~= render(l@) + render(r@));
    match plain_text_of(&ps) {
        Some(t) => Step::Value(Value::Str(t)),
        None => Step::Ask(HostCall::Join(ps)),
    }
}

fn int_value(x: Option<i64>, overflow: &str) -> (s: Step)
    ensures
        match x {
            Some(n) => s@ == StepV::Value(ValueV::Int(n)),
            None => s@ == StepV::Fail(overflow@),
        },
{
    match x {
        Some(n) => Step::Value(Value::Int(n)),
        None => fail(overflow),
    }
}

/// The truncating remainder `a % b` (`trunc_rem`), computed on magnitudes.
fn exec_trunc_rem(a: i64, b: i64) -> (r: i64)
    requires
        b != 0,
    ensures
        r as int == trunc_rem(a, b),
{
    let ma: u64 = if a < 0 {
        if a == i64::MIN { 9223372036854775808u64 } else { (0 - a) as u64 }
    } else {
        a as u64
    };
    let mb: u64 = if b < 0 {
        if b == i64::MIN { 9223372036854775808u64 } else { (0 - b) as u64 }
    } else {
        b as u64
    };
    let m: u64 = ma % mb;
    assert(m < mb);
    assert(mb <= 9223372036854775808u64);
    if a < 0 {
        0 - (m as i64)
    } else {
        m as i64
    }
}

/// What a prefix operator does to a value (`unary_step`).
pub fn eval_unary(op: UnaryOp, v: &Value) -> (s: Step)
    ensures
        s@ == unary_step(op, v@),
{
    match op {
        UnaryOp::Neg => match v {
            Value::Int(n) => int_value(if *n == i64::MIN { None } else { Some(0 - *n) }, "attempt to negate with overflow"),
            Value::Float(b) => Step::Value(Value::Float(*b ^ 0x8000_0000_0000_0000u64)),
            _ => fail("Unary '-' expects Int or Float"),
        },
        UnaryOp::Not => Step::Value(Value::Bool(!v.truthy())),
    }
}

/// What an infix operator does to two values (`binary_step`).
pub fn eval_binary(op: BinaryOp, l: &Value, r: &Value) -> (s: Step)
    ensures
        s@ == binary_step(op, l@, r@),
{
    match op {
        BinaryOp::Add => match (l, r) {
            (Value::Int(a), Value::Int(b)) => int_value(a.checked_add(*b), "attempt to add with overflow"),
            (Value::Str(a), Value::Str(b)) => {
                let mut t = a.clone();
                push_str(&mut t, b.as_str());
                Step::Value(Value::Str(t))
            },
            _ => if matches!(l, Value::Str(_)) || matches!(r, Value::Str(_)) {
                exec_concat(l, r)
            } else if exec_num_of(l).is_some() && exec_num_of(r).is_some() {
                exec_arith(ArithOp::Add, l, r)
            } else {
                fail("'+' expects numbers or strings")
            },
        },
        BinaryOp::Sub => match (l, r) {
            (Value::Int(a), Value::Int(b)) => int_value(a.checked_sub(*b), "attempt to subtract with overflow"),
            _ => exec_arith(ArithOp::Sub, l, r),
        },
        BinaryOp::Mul => match (l, r) {
            (Value::Int(a), Value::Int(b)) => int_value(a.checked_mul(*b), "attempt to multiply with overflow"),
            _ => exec_arith(ArithOp::Mul, l, r),
        },
        BinaryOp::Div => match exec_num_of(r) {
            None => fail("Expected numeric value"),
            Some(y) => if exec_num_is_zero(y) {
                fail("Division by zero")
            } else {
                exec_arith(ArithOp::Div, l, r)
            },
        },
        BinaryOp::Mod => match (l, r) {
            (Value::Int(a), Value::Int(b)) => if *b == 0 {
                fail("Division by zero")
            } else if *a == i64::MIN && *b == -1 {
                fail("attempt to calculate the remainder with overflow")
            } else {
                Step::Value(Value::Int(exec_trunc_rem(*a, *b)))
            },
            _ => fail("Operator expects Int values"),
        },
        BinaryOp::Pow => exec_arith(ArithOp::Pow, l, r),
        BinaryOp::Eq => Step::Value(Value::Bool(l.equals(r))),
        BinaryOp::Ne => Step::Value(Value::Bool(!l.equals(r))),
        BinaryOp::Lt | BinaryOp::Le | BinaryOp::Gt | BinaryOp::Ge => match (l, r) {
            (Value::Int(a), Value::Int(b)) => Step::Value(Value::Bool(exec_order_holds(op, int_order(*a, *b)))),
            (Value::Float(a), Value::Float(b)) => Step::Value(
                Value::Bool(exec_order_holds(op, float_order(*a, *b))),
            ),
            (Value::Str(a), Value::Str(b)) => Step::Value(
                Value::Bool(exec_order_holds(op, exec_text_order(a.as_str(), b.as_str()))),
            ),
            _ => match (exec_num_of(l), exec_num_of(r)) {
                (Some(x), Some(y)) => Step::Ask(HostCall::Order { op, left: x, right: y }),
                _ => fail("Cannot compare these values"),
            },
        },
        _ => fail("Operator is not evaluated here"),
    }
}

fn exec_is_http1(name: &str) -> (b: bool)
    ensures
        b == is_http1(name@),
{
    same_text(name, "fetch") || same_text(name, "http_get") || same_text(name, "http_delete")
        || same_text(name, "http_head") || same_text(name, "http_options")
}

fn exec_is_http2(name: &str) -> (b: bool)
    ensures
        b == is_http2(name@),
{
    same_text(name, "http_post") || same_text(name, "http_put") || same_text(name, "http_patch")
}

fn exec_http_method(name: &str) -> (m: &'static str)
    ensures
        m@ == http_method(name@),
{
    if same_text(name, "http_delete") {
        "DELETE"
    } else if same_text(name, "http_head") {
        "HEAD"
    } else if same_text(name, "http_options") {
        "OPTIONS"
    } else if same_text(name, "http_post") {
        "POST"
    } else if same_text(name, "http_put") {
        "PUT"
    } else if same_text(name, "http_patch") {
        "PATCH"
    } else {
        "GET"
    }
}

fn exec_is_request_field(name: &str) -> (b: bool)
    ensures
        b == is_request_field(name@),
{
    same_text(name, "request_method") || same_text(name, "request_path") || same_text(name, "request_body")
}

fn exec_is_wrapper(name: &str) -> (b: bool)
    ensures
        b == is_wrapper(name@),
{
    same_text(name, "Some") || same_text(name, "Ok") || same_text(name, "Err")
}

fn exec_is_test(name: &str) -> (b: bool)
    ensures
        b == is_test(name@),
{
    same_text(name, "is_some") || same_text(name, "is_none") || same_text(name, "is_ok") || same_text(name, "is_err")
}

fn exec_builtin_body(name: &str, args: &[Value]) -> (s: Step)
    requires
        is_builtin(name@),
        args@.len() == builtin_arity(name@),
    ensures
        s@ == builtin_body(name@, values_view(args@)),
{
    let ghost vs = values_view(args@);
    assert(vs[0] == args@[0]@);
    if args.len() == 2 {
        assert(vs[1] == args@[1]@);
    }
    let a = &args[0];
    if same_text(name, "print") {
        Step::Print(a.duplicate())
    } else if same_text(name, "len") {
        match a {
            Value::Str(t) => Step::Value(Value::Int(t.as_str().unicode_len() as i64)),
            _ => fail("len currently supports Str only"),
        }
    } else if same_text(name, "sqrt") {
        match exec_num_of(a) {
            Some(x) => Step::Ask(HostCall::Sqrt(x)),
            None => fail("Expected numeric value"),
        }
    } else if same_text(name, "typeof") {
        Step::Value(Value::Str(String::from_str(a.kind_name())))
    } else if same_text(name, "serve") {
        match a {
            Value::Int(p) => if 1 <= *p && *p <= 65535 {
                match &args[1] {
                    Value::Function(f) => Step::Ask(HostCall::Serve { port: *p as u16, handler: f.duplicate() }),
                    _ => fail("serve expects function(request) as second argument"),
                }
            } else {
                fail("serve port must be between 1 and 65535")
            },
            _ => fail("serve expects Int port as first argument"),
        }
    } else if exec_is_request_field(name) {
        match a {
            Value::Request(req) => Step::Value(
                Value::Str(
                    if same_text(name, "request_method") {
                        req.method.clone()
                    } else if same_text(name, "request_path") {
                        req.path.clone()
                    } else {
                        req.body.clone()
                    },
                ),
            ),
            _ => fail_named(name, " expects Request value"),
        }
    } else if same_text(name, "response") {
        match a {
            Value::Int(st) => if 100 <= *st && *st <= 599 {
                match &args[1] {
                    Value::Str(b) => Step::Value(Value::Response(HttpResponseValue::new(*st as u16, b.clone()))),
                    _ => fail("response expects Str body as second argument"),
                }
            } else {
                fail("response status must be between 100 and 599")
            },
            _ => fail("response expects Int status as first argument"),
        }
    } else if exec_is_http1(name) {
        match a {
            Value::Str(u) => Step::Ask(
                HostCall::Http { method: String::from_str(exec_http_method(name)), url: u.clone(), body: None },
            ),
            _ => fail_named(name, " expects Str URL"),
        }
    } else if exec_is_http2(name) {
        match a {
            Value::Str(u) => match &args[1] {
                Value::Str(b) => Step::Ask(
                    HostCall::Http {
                        method: String::from_str(exec_http_method(name)),
                        url: u.clone(),
                        body: Some(b.clone()),
                    },
                ),
                _ => fail_named(name, " expects Str body"),
            },
            _ => fail_named(name, " expects Str URL"),
        }
    } else if exec_is_wrapper(name) {
        let inner = Box::new(a.duplicate());
        Step::Value(
            if same_text(name, "Some") {
                Value::SomeValue(inner)
            } else if same_text(name, "Ok") {
                Value::OkValue(inner)
            } else {
                Value::ErrValue(inner)
            },
        )
    } else if same_text(name, "unwrap_or") {
        match a {
            Value::SomeValue(v) => Step::Value((**v).duplicate()),
            Value::NoneValue => Step::Value(args[1].duplicate()),
            Value::OkValue(v) => Step::Value((**v).duplicate()),
            Value::ErrValue(_) => Step::Value(args[1].duplicate()),
            _ => fail("unwrap_or expects Option or Result value"),
        }
    } else {
        let b = if same_text(name, "is_some") {
            matches!(a, Value::SomeValue(_))
        } else if same_text(name, "is_none") {
            matches!(a, Value::NoneValue)
        } else if same_text(name, "is_ok") {
            matches!(a, Value::OkValue(_))
        } else {
            matches!(a, Value::ErrValue(_))
        };
        Step::Value(Value::Bool(b))
    }
}

/// What calling built-in `name` with `args` does (`builtin_step`).
pub fn call_builtin(name: &str, args: &[Value]) -> (s: Step)
    ensures
        s@ == builtin_step(name@, values_view(args@)),
{
    let known = same_text(name, "print") || same_text(name, "len") || same_text(name, "sqrt")
        || same_text(name, "typeof") || same_text(name, "serve") || exec_is_request_field(name)
        || same_text(name, "response") || exec_is_http1(name) || exec_is_http2(name) || exec_is_wrapper(name)
        || same_text(name, "unwrap_or") || exec_is_test(name);
    if !known {
        let mut m = String::from_str("Unknown function '");
        push_str(&mut m, name);
        push_str(&mut m, "'");
        return Step::Fail(EiriadError::new(m));
    }
    let arity: usize = if same_text(name, "serve") || same_text(name, "response") || same_text(name, "unwrap_or")
        || exec_is_http2(name) {
        2
    } else {
        1
    };
    if args.len() != arity {
        if arity == 1 {
            return fail_named(name, " expects exactly 1 argument");
        } else {
            return fail_named(name, " expects exactly 2 arguments");
        }
    }
    exec_builtin_body(name, args)
}

} // verus!
