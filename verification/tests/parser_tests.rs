use eiriad::ast::{BinaryOp, Expr, Pattern, Stmt};
use eiriad::lexer::Lexer;
use eiriad::parser::{rewrite_pipe, Parser};
use eiriad::parse_program;

fn parse(src: &str) -> Vec<Stmt> {
    parse_program(src).expect("parses")
}

fn parse_err(src: &str) -> String {
    parse_program(src).unwrap_err().message
}

#[test]
fn parser_over_lexer_tokens() {
    let tokens = Lexer::new("let x = 1").lex().expect("lexes");
    let mut parser = Parser::new(tokens);
    let stmts = parser.parse_program().expect("parses");
    assert_eq!(stmts.len(), 1);
    assert!(matches!(&stmts[0], Stmt::Let { name, mutable: false, expr: Expr::Int(1) } if name == "x"));
}

#[test]
fn multiplication_binds_tighter_than_addition() {
    let stmts = parse("1 + 2 * 3");
    match &stmts[0] {
        Stmt::Expr(Expr::Binary { left, op: BinaryOp::Add, right }) => {
            assert!(matches!(**left, Expr::Int(1)));
            assert!(matches!(**right, Expr::Binary { op: BinaryOp::Mul, .. }));
        }
        other => panic!("unexpected {:?}", other),
    }
}

#[test]
fn power_is_right_associative() {
    let stmts = parse("2 ^ 3 ^ 2");
    match &stmts[0] {
        Stmt::Expr(Expr::Binary { left, op: BinaryOp::Pow, right }) => {
            assert!(matches!(**left, Expr::Int(2)));
            assert!(matches!(**right, Expr::Binary { op: BinaryOp::Pow, .. }));
        }
        other => panic!("unexpected {:?}", other),
    }
}

#[test]
fn pipe_becomes_a_call_with_the_value_first() {
    let stmts = parse("5 |> add(1)");
    match &stmts[0] {
        Stmt::Expr(Expr::Call { callee, args }) => {
            assert!(matches!(&**callee, Expr::Ident(n) if n == "add"));
            assert_eq!(args.len(), 2);
            assert!(matches!(args[0], Expr::Int(5)));
            assert!(matches!(args[1], Expr::Int(1)));
        }
        other => panic!("unexpected {:?}", other),
    }
    let stmts = parse("5 |> inc");
    assert!(matches!(&stmts[0], Stmt::Expr(Expr::Call { args, .. }) if args.len() == 1));
}

#[test]
fn pipe_into_a_non_call_is_an_error() {
    assert_eq!(parse_err("5 |> 3"), "Right side of '|>' must be a function call or function name");
    let err = rewrite_pipe(Expr::Int(1), Expr::Int(2)).unwrap_err();
    assert_eq!(err.message, "Right side of '|>' must be a function call or function name");
}

#[test]
fn rewrite_pipe_prepends_the_left_value() {
    let call = Expr::Call { callee: Box::new(Expr::Ident("f".to_string())), args: vec![Expr::Int(2)] };
    match rewrite_pipe(Expr::Int(1), call).expect("rewrites") {
        Expr::Call { args, .. } => {
            assert!(matches!(args[0], Expr::Int(1)));
            assert!(matches!(args[1], Expr::Int(2)));
        }
        other => panic!("unexpected {:?}", other),
    }
}

#[test]
fn statements_split_on_newlines_and_semicolons() {
    assert_eq!(parse("let a = 1; let b = 2\n\nb").len(), 3);
}

#[test]
fn type_annotations_are_skipped() {
    let stmts = parse("let x: Int = 1\nfn f(a: Int, b: Str) -> Int { a }");
    assert!(matches!(&stmts[0], Stmt::Let { expr: Expr::Int(1), .. }));
    assert!(matches!(&stmts[1], Stmt::Fn { params, .. } if params.len() == 2));
}

#[test]
fn assignment_and_mut_declaration() {
    let stmts = parse("mut x = 1\nx = 2");
    assert!(matches!(&stmts[0], Stmt::Let { mutable: true, .. }));
    assert!(matches!(&stmts[1], Stmt::Assign { name, .. } if name == "x"));
}

#[test]
fn lambda_and_grouping() {
    let stmts = parse("(a, b) -> a + b");
    assert!(matches!(&stmts[0], Stmt::Expr(Expr::Lambda { params, .. }) if params.len() == 2));
    let stmts = parse("(1 + 2) * 3");
    assert!(matches!(&stmts[0], Stmt::Expr(Expr::Binary { op: BinaryOp::Mul, .. })));
}

#[test]
fn match_with_patterns() {
    let stmts = parse("match x { Some(v) -> v, None -> 0, Ok(_) -> 1, Err(e) -> 2, _ -> 3 }");
    match &stmts[0] {
        Stmt::Expr(Expr::Match { arms, .. }) => {
            assert_eq!(arms.len(), 5);
            assert!(matches!(&arms[0].pattern, Pattern::SomePat(p) if matches!(&**p, Pattern::Ident(n) if n == "v")));
            assert!(matches!(arms[1].pattern, Pattern::NonePat));
            assert!(matches!(&arms[2].pattern, Pattern::OkPat(p) if matches!(**p, Pattern::Wildcard)));
            assert!(matches!(&arms[3].pattern, Pattern::ErrPat(_)));
            assert!(matches!(arms[4].pattern, Pattern::Wildcard));
        }
        other => panic!("unexpected {:?}", other),
    }
}

#[test]
fn match_without_arms_is_an_error() {
    assert_eq!(parse_err("match x { }"), "match requires at least one arm");
}

#[test]
fn syntax_errors_carry_their_messages() {
    assert_eq!(parse_err("let = 1"), "Expected identifier");
    assert_eq!(parse_err("let x 1"), "Expected '=' in declaration");
    assert_eq!(parse_err("(1 + 2"), "Expected ')' after expression");
    assert_eq!(parse_err("fn f(a { a }"), "Expected ')' after parameter list");
    assert_eq!(parse_err("match x { 1 -> 2 }"), "Invalid match pattern");
    assert_eq!(parse_err("1 +"), "Unexpected token in expression: ");
}

#[test]
fn lexical_errors_surface_from_parse_program() {
    assert_eq!(parse_err("let s = \"open"), "Unterminated string literal");
}

#[test]
fn parser_stops_at_the_first_eof() {
    let mut tokens = Lexer::new("1").lex().expect("lexes");
    tokens.extend(Lexer::new("let").lex().expect("lexes"));
    let stmts = Parser::new(tokens).parse_program().expect("parses");
    assert_eq!(stmts.len(), 1);
}
