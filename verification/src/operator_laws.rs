use vstd::prelude::*;

use crate::ast::{BinaryOp, UnaryOp};
use crate::checker::{check_binary, Type};
use crate::host::{ArithOp, HostCallV, Num};
use crate::ops::{binary_step, builtin_step, unary_step, StepV};
use crate::value::text_order;
use crate::value::{FunctionV, ValueV};

verus! {

/// Integers compare by their order as integers: `a < b`, `a <= b`, `a > b`
/// and `a >= b` give exactly the truth of that relation, and `==` and `!=`
/// give whether the two are equal.
pub proof fn law_int_comparisons(a: i64, b: i64)
    ensures
        binary_step(BinaryOp::Lt, ValueV::Int(a), ValueV::Int(b)) == StepV::Value(ValueV::Bool(a < b)),
        binary_step(BinaryOp::Le, ValueV::Int(a), ValueV::Int(b)) == StepV::Value(ValueV::Bool(a <= b)),
        binary_step(BinaryOp::Gt, ValueV::Int(a), ValueV::Int(b)) == StepV::Value(ValueV::Bool(a > b)),
        binary_step(BinaryOp::Ge, ValueV::Int(a), ValueV::Int(b)) == StepV::Value(ValueV::Bool(a >= b)),
        binary_step(BinaryOp::Eq, ValueV::Int(a), ValueV::Int(b)) == StepV::Value(ValueV::Bool(a == b)),
        binary_step(BinaryOp::Ne, ValueV::Int(a), ValueV::Int(b)) == StepV::Value(ValueV::Bool(a != b)),
{
}

/// Integer `+`, `-` and `*` give the exact result when it fits in an `i64`,
/// and fail with the overflow message of that operator when it does not.
pub proof fn law_int_arithmetic(a: i64, b: i64)
    ensures
        binary_step(BinaryOp::Add, ValueV::Int(a), ValueV::Int(b)) == if i64::MIN <= a + b <= i64::MAX {
            StepV::Value(ValueV::Int((a + b) as i64))
        } else {
            StepV::Fail("attempt to add with overflow"@)
        },
        binary_step(BinaryOp::Sub, ValueV::Int(a), ValueV::Int(b)) == if i64::MIN <= a - b <= i64::MAX {
            StepV::Value(ValueV::Int((a - b) as i64))
        } else {
            StepV::Fail("attempt to subtract with overflow"@)
        },
        binary_step(BinaryOp::Mul, ValueV::Int(a), ValueV::Int(b)) == if i64::MIN <= a * b <= i64::MAX {
            StepV::Value(ValueV::Int((a * b) as i64))
        } else {
            StepV::Fail("attempt to multiply with overflow"@)
        },
{
}

/// Arithmetic on a double: `+`, `-`, `*` with a `Float` operand, `/` by a
/// nonzero number and `^` on any two numbers ask the host for that double
/// operation on the two numbers; division by an integer zero fails.
pub proof fn law_double_arithmetic(x: u64, n: i64, m: i64)
    ensures
        binary_step(BinaryOp::Add, ValueV::Float(x), ValueV::Int(n)) == StepV::Ask(
            HostCallV::Arith { op: ArithOp::Add, left: Num::Float(x), right: Num::Int(n) },
        ),
        binary_step(BinaryOp::Sub, ValueV::Int(n), ValueV::Float(x)) == StepV::Ask(
            HostCallV::Arith { op: ArithOp::Sub, left: Num::Int(n), right: Num::Float(x) },
        ),
        binary_step(BinaryOp::Mul, ValueV::Float(x), ValueV::Float(x)) == StepV::Ask(
            HostCallV::Arith { op: ArithOp::Mul, left: Num::Float(x), right: Num::Float(x) },
        ),
        m != 0 ==> binary_step(BinaryOp::Div, ValueV::Int(n), ValueV::Int(m)) == StepV::Ask(
            HostCallV::Arith { op: ArithOp::Div, left: Num::Int(n), right: Num::Int(m) },
        ),
        binary_step(BinaryOp::Div, ValueV::Int(n), ValueV::Int(0)) == StepV::Fail("Division by zero"@),
        binary_step(BinaryOp::Mod, ValueV::Int(n), ValueV::Int(0)) == StepV::Fail("Division by zero"@),
        binary_step(BinaryOp::Pow, ValueV::Int(n), ValueV::Int(m)) == StepV::Ask(
            HostCallV::Arith { op: ArithOp::Pow, left: Num::Int(n), right: Num::Int(m) },
        ),
{
}

/// Strings: `+` joins them, `==` holds exactly of equal texts.
pub proof fn law_str_join_and_equality(a: Seq<char>, b: Seq<char>)
    ensures
        binary_step(BinaryOp::Add, ValueV::Str(a), ValueV::Str(b)) == StepV::Value(ValueV::Str(a + b)),
        binary_step(BinaryOp::Eq, ValueV::Str(a), ValueV::Str(b)) == StepV::Value(ValueV::Bool(a == b)),
        binary_step(BinaryOp::Ne, ValueV::Str(a), ValueV::Str(b)) == StepV::Value(ValueV::Bool(a != b)),
{
}

/// `-` negates an integer, failing only on the one whose negation does not
/// fit; `!` negates a boolean.
pub proof fn law_prefix_operators(a: i64, b: bool)
    ensures
        unary_step(UnaryOp::Neg, ValueV::Int(a)) == if a != i64::MIN {
            StepV::Value(ValueV::Int((-a) as i64))
        } else {
            StepV::Fail("attempt to negate with overflow"@)
        },
        unary_step(UnaryOp::Not, ValueV::Bool(b)) == StepV::Value(ValueV::Bool(!b)),
{
}

/// `a` comes before `b` in dictionary order by character code: after a
/// common prefix, `a` ends while `b` goes on, or `a`'s next character is
/// the smaller.
pub open spec fn dictionary_before(a: Seq<char>, b: Seq<char>) -> bool {
    exists|i: int|
        0 <= i <= a.len() && i <= b.len() && #[trigger] a.take(i) == b.take(i) && ((i == a.len() && i < b.len()) || (i
            < a.len() && i < b.len() && (a[i] as int) < (b[i] as int)))
}

proof fn lemma_before_tail(a: Seq<char>, b: Seq<char>)
    requires
        a.len() > 0,
        b.len() > 0,
        a[0] == b[0],
    ensures
        dictionary_before(a, b) == dictionary_before(a.drop_first(), b.drop_first()),
{
    let a1 = a.drop_first();
    let b1 = b.drop_first();
    if dictionary_before(a, b) {
        let i = choose|i: int|
            0 <= i <= a.len() && i <= b.len() && #[trigger] a.take(i) == b.take(i) && ((i == a.len() && i < b.len()) || (i
                < a.len() && i < b.len() && (a[i] as int) < (b[i] as int)));
        assert(i > 0);
        assert(a1.take(i - 1) =~= a.take(i).drop_first());
        assert(b1.take(i - 1) =~= b.take(i).drop_first());
        assert(a1.take(i - 1) == b1.take(i - 1));
    }
    if dictionary_before(a1, b1) {
        let j = choose|j: int|
            0 <= j <= a1.len() && j <= b1.len() && #[trigger] a1.take(j) == b1.take(j) && ((j == a1.len() && j < b1.len())
                || (j < a1.len() && j < b1.len() && (a1[j] as int) < (b1[j] as int)));
        assert(a.take(j + 1) =~= seq![a[0]] + a1.take(j));
        assert(b.take(j + 1) =~= seq![b[0]] + b1.take(j));
        assert(a.take(j + 1) == b.take(j + 1));
    }
}

proof fn lemma_before_first(a: Seq<char>, b: Seq<char>)
    requires
        a.len() > 0,
        b.len() > 0,
        a[0] != b[0],
    ensures
        dictionary_before(a, b) == ((a[0] as int) < (b[0] as int)),
{
    if (a[0] as int) < (b[0] as int) {
        assert(a.take(0) =~= b.take(0));
    }
    if dictionary_before(a, b) {
        let i = choose|i: int|
            0 <= i <= a.len() && i <= b.len() && #[trigger] a.take(i) == b.take(i) && ((i == a.len() && i < b.len()) || (i
                < a.len() && i < b.len() && (a[i] as int) < (b[i] as int)));
        if i > 0 {
            assert(a.take(i)[0] == b.take(i)[0]);
        }
    }
}

proof fn lemma_text_order(a: Seq<char>, b: Seq<char>)
    ensures
        (text_order(a, b) == -1) == dictionary_before(a, b),
        (text_order(a, b) == 1) == dictionary_before(b, a),
        text_order(a, b) == -1 || text_order(a, b) == 0 || text_order(a, b) == 1,
    decreases a.len(),
{
    if a.len() == 0 || b.len() == 0 {
        if a.len() < b.len() {
            assert(a.take(0) =~= b.take(0));
        }
        if b.len() < a.len() {
            assert(b.take(0) =~= a.take(0));
        }
        if dictionary_before(a, b) {
            let i = choose|i: int|
                0 <= i <= a.len() && i <= b.len() && #[trigger] a.take(i) == b.take(i) && ((i == a.len() && i < b.len()) || (i
                    < a.len() && i < b.len() && (a[i] as int) < (b[i] as int)));
        }
        if dictionary_before(b, a) {
            let i = choose|i: int|
                0 <= i <= b.len() && i <= a.len() && #[trigger] b.take(i) == a.take(i) && ((i == b.len() && i < a.len()) || (i
                    < b.len() && i < a.len() && (b[i] as int) < (a[i] as int)));
        }
    } else if a[0] != b[0] {
        lemma_before_first(a, b);
        lemma_before_first(b, a);
    } else {
        lemma_text_order(a.drop_first(), b.drop_first());
        lemma_before_tail(a, b);
        lemma_before_tail(b, a);
    }
}

/// Strings compare in dictionary order by character code.
pub proof fn law_str_comparisons(a: Seq<char>, b: Seq<char>)
    ensures
        binary_step(BinaryOp::Lt, ValueV::Str(a), ValueV::Str(b)) == StepV::Value(ValueV::Bool(dictionary_before(a, b))),
        binary_step(BinaryOp::Gt, ValueV::Str(a), ValueV::Str(b)) == StepV::Value(ValueV::Bool(dictionary_before(b, a))),
        binary_step(BinaryOp::Le, ValueV::Str(a), ValueV::Str(b)) == StepV::Value(ValueV::Bool(!dictionary_before(b, a))),
        binary_step(BinaryOp::Ge, ValueV::Str(a), ValueV::Str(b)) == StepV::Value(ValueV::Bool(!dictionary_before(a, b))),
{
    lemma_text_order(a, b);
}

/// A type that `<`, `<=`, `>`, `>=` order: the numbers, with each other.
pub open spec fn is_number_type(t: Type) -> bool {
    t == Type::Int || t == Type::Float
}

/// The types of arithmetic: on two integers `+`, `-`, `*` and `%` give
/// `Int`; with a `Float` among two numbers they give `Float` (`%` refuses
/// it); `/` on two numbers always gives `Float`; `+` with a `Str` on either
/// side gives `Str`; `&&` and `||` take and give `Bool`.
pub proof fn law_arithmetic_types(a: Type, b: Type)
    ensures
        check_binary(BinaryOp::Add, Type::Int, Type::Int) == Ok::<Type, Seq<char>>(Type::Int),
        check_binary(BinaryOp::Sub, Type::Int, Type::Int) == Ok::<Type, Seq<char>>(Type::Int),
        check_binary(BinaryOp::Mul, Type::Int, Type::Int) == Ok::<Type, Seq<char>>(Type::Int),
        check_binary(BinaryOp::Mod, Type::Int, Type::Int) == Ok::<Type, Seq<char>>(Type::Int),
        is_number_type(a) && is_number_type(b) && (a == Type::Float || b == Type::Float) ==> {
            &&& check_binary(BinaryOp::Add, a, b) == Ok::<Type, Seq<char>>(Type::Float)
            &&& check_binary(BinaryOp::Sub, a, b) == Ok::<Type, Seq<char>>(Type::Float)
            &&& check_binary(BinaryOp::Mul, a, b) == Ok::<Type, Seq<char>>(Type::Float)
            &&& check_binary(BinaryOp::Mod, a, b) == Err::<Type, Seq<char>>("'%' expects Int operands"@)
        },
        is_number_type(a) && is_number_type(b) ==> check_binary(BinaryOp::Div, a, b) == Ok::<Type, Seq<char>>(Type::Float),
        a != Type::Unknown && b != Type::Unknown && (a == Type::Str || b == Type::Str) ==> check_binary(BinaryOp::Add, a, b)
            == Ok::<Type, Seq<char>>(Type::Str),
        check_binary(BinaryOp::And, Type::Bool, Type::Bool) == Ok::<Type, Seq<char>>(Type::Bool),
        check_binary(BinaryOp::Or, Type::Bool, Type::Bool) == Ok::<Type, Seq<char>>(Type::Bool),
{
}

/// `==` and `!=` accept two operands of one type, two numbers of either
/// type, or an operand of unknown type, and give `Bool`; any other pair is
/// refused.
pub proof fn law_equality_types(op: BinaryOp, a: Type, b: Type)
    requires
        op == BinaryOp::Eq || op == BinaryOp::Ne,
    ensures
        check_binary(op, a, a) == Ok::<Type, Seq<char>>(Type::Bool),
        (a == b || (is_number_type(a) && is_number_type(b)) || a == Type::Unknown || b == Type::Unknown)
            ==> check_binary(op, a, b) == Ok::<Type, Seq<char>>(Type::Bool),
        !(a == b || (is_number_type(a) && is_number_type(b)) || a == Type::Unknown || b == Type::Unknown)
            ==> check_binary(op, a, b) == Err::<Type, Seq<char>>("'=='/'!=' operands are not comparable"@),
{
}

/// `<`, `<=`, `>`, `>=` accept two numbers of either type, two strings, or
/// an operand of unknown type, and give `Bool`; any other pair is refused.
pub proof fn law_ordering_types(op: BinaryOp, a: Type, b: Type)
    requires
        op == BinaryOp::Lt || op == BinaryOp::Le || op == BinaryOp::Gt || op == BinaryOp::Ge,
    ensures
        ((is_number_type(a) && is_number_type(b)) || (a == Type::Str && b == Type::Str) || a == Type::Unknown
            || b == Type::Unknown) ==> check_binary(op, a, b) == Ok::<Type, Seq<char>>(Type::Bool),
        !((is_number_type(a) && is_number_type(b)) || (a == Type::Str && b == Type::Str) || a == Type::Unknown
            || b == Type::Unknown) ==> check_binary(op, a, b) == Err::<Type, Seq<char>>(
            "Comparison expects compatible ordered operands"@,
        ),
{
}

/// The request an HTTP built-in asks for.
pub open spec fn http_request(method: Seq<char>, url: Seq<char>, body: Option<Seq<char>>) -> StepV {
    StepV::Ask(HostCallV::Http { method, url, body })
}

/// Each HTTP built-in asks the host for a request with its own method, the
/// URL it was given, and the body it was given (none for those that take
/// only a URL).
pub proof fn law_http_methods(url: Seq<char>, body: Seq<char>)
    ensures
        builtin_step("fetch"@, seq![ValueV::Str(url)]) == http_request("GET"@, url, None),
        builtin_step("http_get"@, seq![ValueV::Str(url)]) == http_request("GET"@, url, None),
        builtin_step("http_delete"@, seq![ValueV::Str(url)]) == http_request("DELETE"@, url, None),
        builtin_step("http_head"@, seq![ValueV::Str(url)]) == http_request("HEAD"@, url, None),
        builtin_step("http_options"@, seq![ValueV::Str(url)]) == http_request("OPTIONS"@, url, None),
        builtin_step("http_post"@, seq![ValueV::Str(url), ValueV::Str(body)]) == http_request("POST"@, url, Some(body)),
        builtin_step("http_put"@, seq![ValueV::Str(url), ValueV::Str(body)]) == http_request("PUT"@, url, Some(body)),
        builtin_step("http_patch"@, seq![ValueV::Str(url), ValueV::Str(body)]) == http_request("PATCH"@, url, Some(body)),
{
    crate::laws::lemma_builtin_names();
    reveal_strlit("GET");
    reveal_strlit("DELETE");
    reveal_strlit("HEAD");
    reveal_strlit("OPTIONS");
    reveal_strlit("POST");
    reveal_strlit("PUT");
    reveal_strlit("PATCH");
}

/// `print` hands its argument out to be printed; `len` gives a string's
/// length in characters; `typeof` names the kind of its argument; `sqrt`
/// asks the host for the square root of the number it was given.
pub proof fn law_value_builtins(v: ValueV, s: Seq<char>, n: i64, x: u64)
    requires
        s.len() <= i64::MAX,
    ensures
        builtin_step("print"@, seq![v]) == StepV::Print(v),
        builtin_step("len"@, seq![ValueV::Str(s)]) == StepV::Value(ValueV::Int(s.len() as i64)),
        !(v is Str) ==> builtin_step("len"@, seq![v]) == StepV::Fail("len currently supports Str only"@),
        builtin_step("typeof"@, seq![v]) == StepV::Value(
            ValueV::Str(
                match v {
                    ValueV::Int(_) => "Int"@,
                    ValueV::Float(_) => "Float"@,
                    ValueV::Bool(_) => "Bool"@,
                    ValueV::Str(_) => "Str"@,
                    ValueV::Request(..) => "Request"@,
                    ValueV::Response(..) => "Response"@,
                    ValueV::SomeV(_) => "Option"@,
                    ValueV::NoneV => "Option"@,
                    ValueV::OkV(_) => "Result"@,
                    ValueV::ErrV(_) => "Result"@,
                    ValueV::Function(_) => "fn"@,
                    ValueV::Unit => "()"@,
                },
            ),
        ),
        builtin_step("sqrt"@, seq![ValueV::Int(n)]) == StepV::Ask(HostCallV::Sqrt(Num::Int(n))),
        builtin_step("sqrt"@, seq![ValueV::Float(x)]) == StepV::Ask(HostCallV::Sqrt(Num::Float(x))),
{
    crate::laws::lemma_builtin_names();
}

/// A request's method, path and body are read by their own built-ins.
pub proof fn law_request_fields(m: Seq<char>, p: Seq<char>, b: Seq<char>)
    ensures
        builtin_step("request_method"@, seq![ValueV::Request(m, p, b)]) == StepV::Value(ValueV::Str(m)),
        builtin_step("request_path"@, seq![ValueV::Request(m, p, b)]) == StepV::Value(ValueV::Str(p)),
        builtin_step("request_body"@, seq![ValueV::Request(m, p, b)]) == StepV::Value(ValueV::Str(b)),
{
    crate::laws::lemma_builtin_names();
    reveal_strlit("request_method");
    reveal_strlit("request_path");
    reveal_strlit("request_body");
    assert("request_method"@[8] != "request_path"@[8]);
}

/// `response(status, body)` builds a response for a status from 100 to 599
/// and refuses any other; `serve(port, handler)` asks the host to serve on a
/// port from 1 to 65535 and refuses any other.
pub proof fn law_response_and_serve(status: i64, body: Seq<char>, port: i64, handler: FunctionV)
    ensures
        100 <= status <= 599 ==> builtin_step("response"@, seq![ValueV::Int(status), ValueV::Str(body)])
            == StepV::Value(ValueV::Response(status as u16, body)),
        !(100 <= status <= 599) ==> builtin_step("response"@, seq![ValueV::Int(status), ValueV::Str(body)])
            == StepV::Fail("response status must be between 100 and 599"@),
        1 <= port <= 65535 ==> builtin_step("serve"@, seq![ValueV::Int(port), ValueV::Function(handler)])
            == StepV::Ask(HostCallV::Serve { port: port as u16, handler }),
        !(1 <= port <= 65535) ==> builtin_step("serve"@, seq![ValueV::Int(port), ValueV::Function(handler)])
            == StepV::Fail("serve port must be between 1 and 65535"@),
{
    crate::laws::lemma_builtin_names();
}

} // verus!
