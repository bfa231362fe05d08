use eiriad::host::{ArithOp, Flow, HostCall, Num, Reply};
use eiriad::runtime::{ExecResult, Runtime};
use eiriad::value::{HttpRequestValue, Piece, UserFunction, Value};
use eiriad::{eval_source, parse_program, EiriadError};

fn to_f64(n: Num) -> f64 {
    match n {
        Num::Int(i) => i as f64,
        Num::Float(b) => f64::from_bits(b),
    }
}

/// A host for tests: double arithmetic, and canned HTTP answers.
fn host(call: &HostCall) -> Reply {
    match call {
        HostCall::ParseFloat(t) => Reply::Float(t.parse::<f64>().unwrap().to_bits()),
        HostCall::Arith { op, left, right } => {
            let (a, b) = (to_f64(*left), to_f64(*right));
            let r = match op {
                ArithOp::Add => a + b,
                ArithOp::Sub => a - b,
                ArithOp::Mul => a * b,
                ArithOp::Div => a / b,
                ArithOp::Pow => a.powf(b),
            };
            Reply::Float(r.to_bits())
        }
        HostCall::Sqrt(n) => Reply::Float(to_f64(*n).sqrt().to_bits()),
        HostCall::Order { left, right, .. } => Reply::Order(match to_f64(*left).total_cmp(&to_f64(*right)) {
            std::cmp::Ordering::Less => -1,
            std::cmp::Ordering::Equal => 0,
            std::cmp::Ordering::Greater => 1,
        }),
        HostCall::Http { method, url, body } => {
            if url == "http://ok" {
                Reply::Http { status: 200, body: format!("{} {}", method, body.clone().unwrap_or_default()) }
            } else if url == "http://missing" {
                Reply::Http { status: 404, body: "nope".to_string() }
            } else {
                Reply::HttpFailed("HTTP request failed: unreachable".to_string())
            }
        }
        HostCall::Join(ps) => Reply::Text(text(ps)),
        HostCall::Serve { port, .. } => Reply::ServeFailed(format!("serve failed to bind 0.0.0.0:{}", port)),
    }
}

fn text(pieces: &[Piece]) -> String {
    let mut s = String::new();
    for p in pieces {
        match p {
            Piece::Text(t) => s.push_str(t),
            Piece::Float(b) => s.push_str(&format!("{}", f64::from_bits(*b))),
        }
    }
    s
}

fn show(v: &Value) -> String {
    text(&v.render())
}

fn run_in(rt: &mut Runtime, src: &str) -> Result<ExecResult, EiriadError> {
    let mut replies: Vec<Reply> = Vec::new();
    loop {
        match eval_source(rt, src, &replies) {
            Flow::Done(r) => return Ok(r),
            Flow::Failed(e) => return Err(e),
            Flow::Needs(c) => replies.push(host(&c)),
        }
    }
}

fn value_of(src: &str) -> String {
    let mut rt = Runtime::new();
    show(&run_in(&mut rt, src).expect("runs").last_value)
}

fn error_of(src: &str) -> String {
    let mut rt = Runtime::new();
    run_in(&mut rt, src).unwrap_err().message
}

fn exec_unchecked(rt: &mut Runtime, src: &str) -> Result<ExecResult, EiriadError> {
    let program = parse_program(src).expect("parses");
    let mut replies: Vec<Reply> = Vec::new();
    loop {
        match rt.exec_program(&program, &replies) {
            Flow::Done(r) => return Ok(r),
            Flow::Failed(e) => return Err(e),
            Flow::Needs(c) => replies.push(host(&c)),
        }
    }
}

#[test]
fn integer_arithmetic_and_precedence() {
    assert_eq!(value_of("1 + 2 * 3"), "7");
    assert_eq!(value_of("(1 + 2) * 3"), "9");
    assert_eq!(value_of("10 - 4 - 3"), "3");
    assert_eq!(value_of("7 % 3"), "1");
    assert_eq!(value_of("-7 % 3"), "-1");
    assert_eq!(value_of("7 % -3"), "1");
    assert_eq!(value_of("-(3)"), "-3");
}

#[test]
fn division_and_power_give_floats() {
    assert_eq!(value_of("7 / 2"), "3.5");
    assert_eq!(value_of("6 / 3"), "2");
    assert_eq!(value_of("2 ^ 10"), "1024");
    assert_eq!(value_of("1.5 + 2"), "3.5");
    assert_eq!(value_of("typeof(6 / 3)"), "Float");
    assert_eq!(value_of("sqrt(16)"), "4");
    assert_eq!(value_of("-1.5"), "-1.5");
}

#[test]
fn division_by_zero_is_an_error() {
    assert_eq!(error_of("1 / 0"), "Division by zero");
    assert_eq!(error_of("1 / 0.0"), "Division by zero");
    assert_eq!(error_of("5 % 0"), "Division by zero");
}

#[test]
fn integer_overflow_is_an_error() {
    assert_eq!(error_of("9223372036854775807 + 1"), "attempt to add with overflow");
    assert_eq!(error_of("4611686018427387904 * 2"), "attempt to multiply with overflow");
}

#[test]
fn strings_concatenate_and_measure() {
    assert_eq!(value_of("\"ab\" + \"cd\""), "abcd");
    assert_eq!(value_of("len(\"h\u{e9}llo\")"), "5");
    assert_eq!(value_of("typeof(\"x\")"), "Str");
}

#[test]
fn comparisons() {
    assert_eq!(value_of("1 < 2"), "true");
    assert_eq!(value_of("2 <= 1"), "false");
    assert_eq!(value_of("\"abc\" < \"abd\""), "true");
    assert_eq!(value_of("1 < 2.5"), "true");
    assert_eq!(value_of("2.5 >= 2.5"), "true");
    assert_eq!(value_of("1 == 1.0"), "false");
    assert_eq!(value_of("Some(1) == Some(1)"), "true");
    assert_eq!(value_of("None != None"), "false");
    assert_eq!(value_of("3 > 2"), value_of("2 < 3"));
    assert_eq!(value_of("\"b\" >= \"a\""), value_of("\"a\" <= \"b\""));
}

#[test]
fn remainder_takes_the_sign_of_the_dividend() {
    assert_eq!(value_of("-7 % -3"), "-1");
    assert_eq!(value_of("9 % 3"), "0");
    assert_eq!(value_of("-9223372036854775807 % 10"), "-7");
}

#[test]
fn a_declared_function_can_call_itself() {
    assert_eq!(value_of("fn f(x) { match x { Some(y) -> f(None), _ -> 0 } }\nf(Some(1))"), "0");
    assert_eq!(
        value_of("fn depth(x) { match x { Some(y) -> 1 + depth(y), _ -> 0 } }\ndepth(Some(Some(Some(None))))"),
        "3"
    );
}

#[test]
fn strings_join_with_any_value() {
    assert_eq!(value_of("\"count = \" + 42"), "count = 42");
    assert_eq!(value_of("true + \"!\""), "true!");
    assert_eq!(value_of("\"x = \" + 1.5"), "x = 1.5");
    assert_eq!(value_of("\"v: \" + Some(2)"), "v: Some(2)");
    assert_eq!(error_of("true + 1"), "'+' expects two numeric operands or two Str operands");
}

#[test]
fn readme_tutorial_program_runs() {
    let mut rt = Runtime::new();
    let src = "print(\"Hello from Eiriad WASM\")\n\nmut count = 41\ncount = count + 1\n\nprint(\"count = \" + count)\ncount";
    let r = run_in(&mut rt, src).expect("runs");
    let lines: Vec<String> = r.output.iter().map(show).collect();
    assert_eq!(lines, vec!["Hello from Eiriad WASM", "count = 42"]);
    assert_eq!(show(&r.last_value), "42");
}

#[test]
fn shebang_line_is_skipped() {
    assert_eq!(value_of("#!/usr/bin/env eiriad\n1 + 1"), "2");
}

#[test]
fn logic_short_circuits() {
    assert_eq!(value_of("true || (1 / 0 == 1.0)"), "true");
    assert_eq!(value_of("false && (1 / 0 == 1.0)"), "false");
    assert_eq!(value_of("!false"), "true");
}

#[test]
fn bindings_and_assignment() {
    assert_eq!(value_of("mut x = 1\nx = x + 41\nx"), "42");
    assert_eq!(value_of("let a = 2; let b = a * 3; b"), "6");
}

#[test]
fn immutable_assignment_is_refused_at_run_time_too() {
    let mut rt = Runtime::new();
    let err = exec_unchecked(&mut rt, "let x = 1\nx = 2").unwrap_err();
    assert_eq!(err.message, "Cannot assign to immutable binding 'x'");
    let err = exec_unchecked(&mut rt, "y = 2").unwrap_err();
    assert_eq!(err.message, "Unknown variable 'y'");
}

#[test]
fn print_collects_output_in_order() {
    let mut rt = Runtime::new();
    let r = run_in(&mut rt, "print(\"hi\")\nprint(1 + 1)\nprint(Some(2.5))").expect("runs");
    let lines: Vec<String> = r.output.iter().map(show).collect();
    assert_eq!(lines, vec!["hi", "2", "Some(2.5)"]);
    assert_eq!(show(&r.last_value), "()");
}

#[test]
fn functions_lambdas_and_closures() {
    assert_eq!(value_of("fn add(a, b) { a + b }\nadd(2, 3)"), "5");
    assert_eq!(value_of("let k = 10\nlet f = (x) -> x + k\nf(5)"), "15");
    assert_eq!(value_of("fn inc(x) { x + 1 }\n5 |> inc()"), "6");
    assert_eq!(value_of("fn inc(x) { x + 1 }\n5 |> inc"), "6");
    assert_eq!(value_of("(x) -> x"), "<fn>");
}

#[test]
fn functions_passed_as_arguments() {
    // The checker cannot call a parameter, so this runs unchecked.
    let mut rt = Runtime::new();
    let r = exec_unchecked(&mut rt, "let twice = (f, x) -> f(f(x))\ntwice((n) -> n * 2, 3)").expect("runs");
    assert_eq!(show(&r.last_value), "12");
}

#[test]
fn closures_capture_bindings_at_creation() {
    let mut rt = Runtime::new();
    let r = exec_unchecked(&mut rt, "mut k = 1\nlet f = () -> k\nk = 2\nf()").expect("runs");
    assert_eq!(show(&r.last_value), "1");
}

#[test]
fn arity_errors_for_user_functions() {
    let mut rt = Runtime::new();
    let err = exec_unchecked(&mut rt, "fn f(a) { a }\nf(1, 2)").unwrap_err();
    assert_eq!(err.message, "Function expects 1 argument(s), got 2");
}

#[test]
fn calling_a_non_function_is_an_error() {
    let mut rt = Runtime::new();
    let err = exec_unchecked(&mut rt, "(1)(2)").unwrap_err();
    assert_eq!(err.message, "Expression is not callable");
}

#[test]
fn match_on_option_and_result() {
    assert_eq!(value_of("match Some(3) { Some(v) -> v * 2, None -> 0 }"), "6");
    assert_eq!(value_of("match None { Some(v) -> v, None -> 0 }"), "0");
    assert_eq!(value_of("match Err(\"bad\") { Ok(v) -> v, Err(e) -> \"failed: \" + e }"), "failed: bad");
    assert_eq!(value_of("match Ok(1) { _ -> 7 }"), "7");
    assert_eq!(value_of("match Some(Some(4)) { Some(Some(x)) -> x, _ -> 0 }"), "4");
}

#[test]
fn match_without_a_matching_arm_is_an_error() {
    assert_eq!(error_of("match None { Some(v) -> v }"), "No match arm matched the value");
}

#[test]
fn option_and_result_helpers() {
    assert_eq!(value_of("unwrap_or(Some(1), 2)"), "1");
    assert_eq!(value_of("unwrap_or(None, 2)"), "2");
    assert_eq!(value_of("unwrap_or(Ok(\"a\"), \"b\")"), "a");
    assert_eq!(value_of("unwrap_or(Err(1), 9)"), "9");
    assert_eq!(value_of("is_some(Some(1))"), "true");
    assert_eq!(value_of("is_none(Some(1))"), "false");
    assert_eq!(value_of("is_ok(Ok(1))"), "true");
    assert_eq!(value_of("is_err(Ok(1))"), "false");
    assert_eq!(value_of("Err(Some(true))"), "Err(Some(true))");
}

#[test]
fn unknown_function_is_an_error() {
    assert_eq!(error_of("nope(1)"), "Unknown function 'nope'");
}

#[test]
fn http_builtins_use_the_host() {
    assert_eq!(value_of("http_get(\"http://ok\")"), "Ok(GET )");
    assert_eq!(value_of("fetch(\"http://ok\")"), "Ok(GET )");
    assert_eq!(value_of("http_post(\"http://ok\", \"data\")"), "Ok(POST data)");
    assert_eq!(value_of("http_delete(\"http://ok\")"), "Ok(DELETE )");
    assert_eq!(value_of("http_get(\"http://missing\")"), "Err(HTTP 404: nope)");
    assert_eq!(error_of("http_get(\"http://down\")"), "HTTP request failed: unreachable");
}

fn unchecked_value(src: &str) -> String {
    let mut rt = Runtime::new();
    show(&exec_unchecked(&mut rt, src).expect("runs").last_value)
}

fn unchecked_error(src: &str) -> String {
    let mut rt = Runtime::new();
    exec_unchecked(&mut rt, src).unwrap_err().message
}

#[test]
fn response_builtin_checks_its_arguments() {
    // The checker does not know `response` and `serve`; unchecked runs do.
    assert_eq!(error_of("response(201, \"made\")"), "Unknown function 'response'");
    assert_eq!(unchecked_value("response(201, \"made\")"), "Response(201, made)");
    assert_eq!(unchecked_error("response(99, \"x\")"), "response status must be between 100 and 599");
}

#[test]
fn serve_reports_the_host_failure() {
    assert_eq!(unchecked_error("serve(8080, (req) -> \"hi\")"), "serve failed to bind 0.0.0.0:8080");
    assert_eq!(unchecked_error("serve(0, (req) -> \"hi\")"), "serve port must be between 1 and 65535");
}

fn handler(rt: &mut Runtime, src: &str) -> UserFunction {
    match exec_unchecked(rt, src).expect("runs").last_value {
        Value::Function(f) => f,
        other => panic!("not a function: {:?}", other),
    }
}

fn answer(rt: &mut Runtime, f: &UserFunction, path: &str) -> (u16, String) {
    let mut replies: Vec<Reply> = Vec::new();
    loop {
        let req = HttpRequestValue::new("GET".to_string(), path.to_string(), String::new());
        match rt.respond(f, req, &replies) {
            Flow::Done(a) => return (a.status, text(&a.body)),
            Flow::Failed(e) => panic!("respond failed: {}", e.message),
            Flow::Needs(c) => replies.push(host(&c)),
        }
    }
}

#[test]
fn serve_handlers_answer_requests() {
    let mut rt = Runtime::new();
    let f = handler(&mut rt, "(req) -> response(201, request_method(req) + \" \" + request_path(req))");
    assert_eq!(answer(&mut rt, &f, "/a"), (201, "GET /a".to_string()));
    let f = handler(&mut rt, "(req) -> request_path(req)");
    assert_eq!(answer(&mut rt, &f, "/b"), (200, "/b".to_string()));
    let f = handler(&mut rt, "(req) -> print(1)");
    assert_eq!(answer(&mut rt, &f, "/c"), (204, String::new()));
    let f = handler(&mut rt, "(req) -> 2.5");
    assert_eq!(
        answer(&mut rt, &f, "/d"),
        (500, "handler must return response(status, body), Str, or Unit; got 2.5".to_string())
    );
    let f = handler(&mut rt, "(req) -> nope(req)");
    assert_eq!(answer(&mut rt, &f, "/e"), (500, "handler error: Unknown function 'nope'".to_string()));
}

#[test]
fn env_snapshot_is_sorted_with_one_row_per_name() {
    let mut rt = Runtime::new();
    run_in(&mut rt, "let b = 2\nmut a = Some(1.5)\nlet b = \"x\"").expect("runs");
    let rows: Vec<(String, String)> = rt.snapshot_env().into_iter().map(|(n, r)| (n, text(&r))).collect();
    assert_eq!(
        rows,
        vec![
            ("a".to_string(), "a = Some(1.5) (mut)".to_string()),
            ("b".to_string(), "b = x (let)".to_string())
        ]
    );
    rt.reset();
    assert!(rt.snapshot_env().is_empty());
}

#[test]
fn later_sources_see_earlier_bindings() {
    let mut rt = Runtime::new();
    run_in(&mut rt, "mut a = 1").expect("runs");
    assert_eq!(show(&run_in(&mut rt, "a = a + 1\na").expect("runs").last_value), "2");
    assert_eq!(run_in(&mut rt, "a = \"s\"").unwrap_err().message, "Type mismatch in assignment to 'a': expected Int, found Str");
    run_in(&mut rt, "let k = 3").expect("runs");
    assert_eq!(run_in(&mut rt, "k = 4").unwrap_err().message, "Cannot assign to immutable binding 'k'");
    rt.reset();
    assert_eq!(run_in(&mut rt, "a").unwrap_err().message, "Unknown variable 'a'");
}

#[test]
fn a_run_waiting_for_the_host_changes_no_binding() {
    let mut rt = Runtime::new();
    let program = parse_program("let a = 1\nlet b = 2.5").expect("parses");
    match rt.exec_program(&program, &[]) {
        Flow::Needs(HostCall::ParseFloat(t)) => assert_eq!(t, "2.5"),
        other => panic!("unexpected {:?}", other),
    }
    assert!(rt.snapshot_env().is_empty());
}

#[test]
fn extra_replies_do_not_change_a_finished_run() {
    let program = parse_program("let x = 1.5 + 1\nprint(x)\nx * 2").expect("parses");
    let mut replies: Vec<Reply> = Vec::new();
    let mut rt = Runtime::new();
    let first = loop {
        match rt.exec_program(&program, &replies) {
            Flow::Done(r) => break r,
            Flow::Failed(e) => panic!("{}", e.message),
            Flow::Needs(c) => replies.push(host(&c)),
        }
    };
    assert_eq!(replies.len(), 3);
    replies.push(Reply::Float(0));
    let mut rt2 = Runtime::new();
    match rt2.exec_program(&program, &replies) {
        Flow::Done(r) => {
            assert_eq!(show(&r.last_value), show(&first.last_value));
            assert_eq!(show(&r.last_value), "5");
            assert_eq!(r.output.len(), 1);
        }
        other => panic!("unexpected {:?}", other),
    }
}

#[test]
fn a_mismatched_reply_is_an_error() {
    let program = parse_program("1.5").expect("parses");
    let mut rt = Runtime::new();
    match rt.exec_program(&program, &[Reply::Order(0)]) {
        Flow::Failed(e) => assert_eq!(e.message, "host reply does not match the request"),
        other => panic!("unexpected {:?}", other),
    }
}

#[test]
fn let_then_read_gives_the_bound_value() {
    assert_eq!(value_of("let v = Ok(\"z\")\nv"), "Ok(z)");
    assert_eq!(value_of("mut w = None\nw = Some(1)\nw"), "Some(1)");
}

#[test]
fn a_function_is_called_by_name_with_one_string() {
    let mut rt = Runtime::new();
    run_in(&mut rt, "fn echo(s) { s }\nfn seven() { 7 }").expect("declares");
    let src = eiriad::text::call1_source(" echo ", "a \"q\" \\ b\r\nc");
    let r = run_in(&mut rt, &src).expect("runs");
    assert!(matches!(&r.last_value, Value::Str(s) if s == "a \"q\" \\ b c"));
    let r0 = run_in(&mut rt, &eiriad::text::call0_source(" seven\n")).expect("runs");
    assert!(matches!(r0.last_value, Value::Int(7)));
}
