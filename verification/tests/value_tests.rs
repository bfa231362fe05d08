use eiriad::ast::{BinaryOp, Pattern, UnaryOp};
use eiriad::error::EiriadError;
use eiriad::host::{exec_absorb, exec_http_value, HostCall, Num, Reply, Flow};
use eiriad::ops::{call_builtin, eval_binary, eval_unary, Step};
use eiriad::text::{escape_for_eiriad_string, push_char};
use eiriad::value::{
    exec_float_eq, exec_text_order, float_order, int_order, ord_to_i8, pattern_bindings,
    HttpRequestValue, HttpResponseValue, Piece, Value,
};

fn text(v: &Value) -> String {
    let mut s = String::new();
    for p in v.render() {
        match p {
            Piece::Text(t) => s.push_str(&t),
            Piece::Float(b) => s.push_str(&format!("{}", f64::from_bits(b))),
        }
    }
    s
}

fn fail_message(s: Step) -> String {
    match s {
        Step::Fail(e) => e.message,
        other => panic!("expected a failure, got {:?}", other),
    }
}

fn value(s: Step) -> Value {
    match s {
        Step::Value(v) => v,
        other => panic!("expected a value, got {:?}", other),
    }
}

#[test]
fn error_new_keeps_the_message() {
    assert_eq!(EiriadError::new("boom".to_string()).message, "boom");
}

#[test]
fn push_char_appends() {
    let mut s = String::from("ab");
    push_char(&mut s, 'c');
    assert_eq!(s, "abc");
}

#[test]
fn ord_to_i8_maps_orderings() {
    assert_eq!(ord_to_i8(std::cmp::Ordering::Less), -1);
    assert_eq!(ord_to_i8(std::cmp::Ordering::Equal), 0);
    assert_eq!(ord_to_i8(std::cmp::Ordering::Greater), 1);
    assert_eq!(int_order(-5, 3), -1);
    assert_eq!(int_order(3, 3), 0);
}

#[test]
fn float_order_agrees_with_total_cmp() {
    let samples = [
        0.0f64, -0.0, 1.0, -1.0, 2.5, -2.5, f64::INFINITY, f64::NEG_INFINITY, f64::NAN, -f64::NAN,
        f64::MIN_POSITIVE, 1e300,
    ];
    for a in samples {
        for b in samples {
            let expected = match a.total_cmp(&b) {
                std::cmp::Ordering::Less => -1,
                std::cmp::Ordering::Equal => 0,
                std::cmp::Ordering::Greater => 1,
            };
            assert_eq!(float_order(a.to_bits(), b.to_bits()), expected, "{} vs {}", a, b);
        }
    }
}

#[test]
fn float_equality_follows_ieee() {
    let samples = [0.0f64, -0.0, 1.0, -1.0, f64::NAN, f64::INFINITY];
    for a in samples {
        for b in samples {
            assert_eq!(exec_float_eq(a.to_bits(), b.to_bits()), a == b, "{} vs {}", a, b);
        }
    }
}

#[test]
fn text_order_is_lexicographic() {
    assert_eq!(exec_text_order("abc", "abd"), -1);
    assert_eq!(exec_text_order("abc", "ab"), 1);
    assert_eq!(exec_text_order("", ""), 0);
    assert_eq!(exec_text_order("b", "abc"), 1);
}

#[test]
fn truthiness() {
    assert!(Value::Int(3).truthy());
    assert!(!Value::Int(0).truthy());
    assert!(!Value::Float((-0.0f64).to_bits()).truthy());
    assert!(Value::Float(f64::NAN.to_bits()).truthy());
    assert!(!Value::Str(String::new()).truthy());
    assert!(!Value::NoneValue.truthy());
    assert!(!Value::ErrValue(Box::new(Value::Int(1))).truthy());
    assert!(Value::OkValue(Box::new(Value::Int(0))).truthy());
    assert!(!Value::Unit.truthy());
}

#[test]
fn equality_of_values() {
    let some1 = Value::SomeValue(Box::new(Value::Int(1)));
    assert!(some1.equals(&Value::SomeValue(Box::new(Value::Int(1)))));
    assert!(!some1.equals(&Value::OkValue(Box::new(Value::Int(1)))));
    let nan = Value::Float(f64::NAN.to_bits());
    assert!(!nan.equals(&nan.duplicate()));
    assert!(Value::Float(0.0f64.to_bits()).equals(&Value::Float((-0.0f64).to_bits())));
    let r1 = Value::Request(HttpRequestValue::new("GET".into(), "/".into(), "".into()));
    assert!(r1.equals(&r1.duplicate()));
}

#[test]
fn rendering_matches_display() {
    assert_eq!(text(&Value::Int(-42)), "-42");
    assert_eq!(text(&Value::Int(i64::MIN)), "-9223372036854775808");
    assert_eq!(text(&Value::Bool(true)), "true");
    assert_eq!(text(&Value::NoneValue), "None");
    assert_eq!(text(&Value::Unit), "()");
    assert_eq!(text(&Value::OkValue(Box::new(Value::Str("x".into())))), "Ok(x)");
    let req = Value::Request(HttpRequestValue::new("POST".into(), "/p".into(), "b".into()));
    assert_eq!(text(&req), "Request(POST, /p)");
    let resp = Value::Response(HttpResponseValue::new(404, "gone".into()));
    assert_eq!(text(&resp), "Response(404, gone)");
    assert_eq!(text(&Value::Float(0.1f64.to_bits())), "0.1");
    let pieces = Value::SomeValue(Box::new(Value::Float(1.0f64.to_bits()))).render();
    assert_eq!(pieces.len(), 3);
    assert!(matches!(&pieces[1], Piece::Float(b) if *b == 1.0f64.to_bits()));
}

#[test]
fn response_accessors() {
    let r = HttpResponseValue::new(201, "ok".into());
    assert_eq!(r.status(), 201);
    assert_eq!(r.body(), "ok");
}

#[test]
fn kind_names() {
    assert_eq!(Value::Int(1).kind_name(), "Int");
    assert_eq!(Value::NoneValue.kind_name(), "Option");
    assert_eq!(Value::ErrValue(Box::new(Value::Unit)).kind_name(), "Result");
    assert_eq!(Value::Unit.kind_name(), "()");
}

#[test]
fn pattern_bindings_bind_the_leaf_name() {
    let v = Value::SomeValue(Box::new(Value::Int(7)));
    let p = Pattern::SomePat(Box::new(Pattern::Ident("x".into())));
    let bs = pattern_bindings(&p, &v).expect("matches");
    assert_eq!(bs.len(), 1);
    assert_eq!(bs[0].name, "x");
    assert!(!bs[0].mutable);
    assert!(bs[0].value.equals(&Value::Int(7)));
    assert!(pattern_bindings(&Pattern::NonePat, &v).is_none());
    assert_eq!(pattern_bindings(&Pattern::Wildcard, &v).expect("matches").len(), 0);
}

#[test]
fn unary_operators() {
    assert!(value(eval_unary(UnaryOp::Neg, &Value::Int(5))).equals(&Value::Int(-5)));
    assert_eq!(fail_message(eval_unary(UnaryOp::Neg, &Value::Int(i64::MIN))), "attempt to negate with overflow");
    assert_eq!(fail_message(eval_unary(UnaryOp::Neg, &Value::Bool(true))), "Unary '-' expects Int or Float");
    match value(eval_unary(UnaryOp::Neg, &Value::Float(2.0f64.to_bits()))) {
        Value::Float(b) => assert_eq!(f64::from_bits(b), -2.0),
        other => panic!("unexpected {:?}", other),
    }
    assert!(value(eval_unary(UnaryOp::Not, &Value::Int(0))).equals(&Value::Bool(true)));
}

#[test]
fn binary_operator_decisions() {
    assert!(value(eval_binary(BinaryOp::Add, &Value::Int(2), &Value::Int(3))).equals(&Value::Int(5)));
    assert_eq!(fail_message(eval_binary(BinaryOp::Add, &Value::Int(1), &Value::Bool(true))), "'+' expects numbers or strings");
    assert_eq!(fail_message(eval_binary(BinaryOp::Sub, &Value::Str("a".into()), &Value::Int(1))), "Expected numeric value");
    assert_eq!(fail_message(eval_binary(BinaryOp::Mod, &Value::Float(1), &Value::Int(1))), "Operator expects Int values");
    assert_eq!(
        fail_message(eval_binary(BinaryOp::Mod, &Value::Int(i64::MIN), &Value::Int(-1))),
        "attempt to calculate the remainder with overflow"
    );
    assert_eq!(fail_message(eval_binary(BinaryOp::Lt, &Value::Bool(true), &Value::Int(1))), "Cannot compare these values");
    assert_eq!(
        fail_message(eval_binary(BinaryOp::Sub, &Value::Int(i64::MIN), &Value::Int(1))),
        "attempt to subtract with overflow"
    );
    match eval_binary(BinaryOp::Lt, &Value::Int(1), &Value::Float(2.0f64.to_bits())) {
        Step::Ask(HostCall::Order { op: BinaryOp::Lt, left: Num::Int(1), right: Num::Float(b) }) => {
            assert_eq!(f64::from_bits(b), 2.0)
        }
        other => panic!("unexpected {:?}", other),
    }
    match eval_binary(BinaryOp::Div, &Value::Int(1), &Value::Int(2)) {
        Step::Ask(HostCall::Arith { .. }) => {}
        other => panic!("unexpected {:?}", other),
    }
    assert!(value(eval_binary(BinaryOp::Ge, &Value::Str("b".into()), &Value::Str("a".into()))).equals(&Value::Bool(true)));
}

#[test]
fn builtin_arity_and_argument_errors() {
    assert_eq!(fail_message(call_builtin("print", &[])), "print expects exactly 1 argument");
    assert_eq!(fail_message(call_builtin("unwrap_or", &[Value::Unit])), "unwrap_or expects exactly 2 arguments");
    assert_eq!(fail_message(call_builtin("nope", &[])), "Unknown function 'nope'");
    assert_eq!(fail_message(call_builtin("len", &[Value::Int(1)])), "len currently supports Str only");
    assert_eq!(fail_message(call_builtin("sqrt", &[Value::Unit])), "Expected numeric value");
    assert_eq!(fail_message(call_builtin("request_path", &[Value::Unit])), "request_path expects Request value");
    assert_eq!(fail_message(call_builtin("http_post", &[Value::Str("u".into()), Value::Int(1)])), "http_post expects Str body");
    assert_eq!(fail_message(call_builtin("http_head", &[Value::Int(1)])), "http_head expects Str URL");
    assert_eq!(fail_message(call_builtin("response", &[Value::Str("x".into()), Value::Unit])), "response expects Int status as first argument");
    assert_eq!(fail_message(call_builtin("response", &[Value::Int(200), Value::Unit])), "response expects Str body as second argument");
    assert_eq!(fail_message(call_builtin("serve", &[Value::Str("x".into()), Value::Unit])), "serve expects Int port as first argument");
    assert_eq!(fail_message(call_builtin("serve", &[Value::Int(80), Value::Unit])), "serve expects function(request) as second argument");
    assert_eq!(fail_message(call_builtin("unwrap_or", &[Value::Int(1), Value::Unit])), "unwrap_or expects Option or Result value");
}

#[test]
fn builtin_steps() {
    match call_builtin("print", &[Value::Int(1)]) {
        Step::Print(v) => assert!(v.equals(&Value::Int(1))),
        other => panic!("unexpected {:?}", other),
    }
    match call_builtin("http_options", &[Value::Str("u".into())]) {
        Step::Ask(HostCall::Http { method, url, body: None }) => {
            assert_eq!(method, "OPTIONS");
            assert_eq!(url, "u");
        }
        other => panic!("unexpected {:?}", other),
    }
    let req = Value::Request(HttpRequestValue::new("PUT".into(), "/x".into(), "payload".into()));
    assert_eq!(text(&value(call_builtin("request_body", &[req.duplicate()]))), "payload");
    assert_eq!(text(&value(call_builtin("request_method", &[req]))), "PUT");
    assert_eq!(text(&value(call_builtin("typeof", &[Value::Bool(true)]))), "Bool");
    assert_eq!(text(&value(call_builtin("len", &[Value::Str("abc".into())]))), "3");
}

#[test]
fn http_replies_become_values() {
    assert_eq!(text(&exec_http_value(204, &"".to_string())), "Ok()");
    assert_eq!(text(&exec_http_value(299, &"x".to_string())), "Ok(x)");
    assert_eq!(text(&exec_http_value(300, &"moved".to_string())), "Err(HTTP 300: moved)");
    let call = HostCall::Http { method: "GET".into(), url: "u".into(), body: None };
    match exec_absorb(&call, &Reply::HttpFailed("down".into())) {
        Flow::Failed(e) => assert_eq!(e.message, "down"),
        other => panic!("unexpected {:?}", other),
    }
    let call = HostCall::Order { op: BinaryOp::Ge, left: Num::Int(1), right: Num::Int(1) };
    match exec_absorb(&call, &Reply::Order(0)) {
        Flow::Done(v) => assert!(v.equals(&Value::Bool(true))),
        other => panic!("unexpected {:?}", other),
    }
}

#[test]
fn escaping_for_string_literals() {
    assert_eq!(escape_for_eiriad_string("say \"hi\"\\now\r\nok"), "say \\\"hi\\\"\\\\now ok");
    assert_eq!(escape_for_eiriad_string(""), "");
}

#[test]
fn clones_are_equal_values() {
    let v = Value::SomeValue(Box::new(Value::Str("s".into())));
    assert!(v.clone().equals(&v));
    let r = HttpResponseValue::new(200, "b".into());
    assert_eq!(r.clone().status(), 200);
}
