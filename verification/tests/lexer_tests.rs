use eiriad::lexer::{lex_text, Lexer, TokenKind};
use eiriad::text::{call0_source, call1_source, escape_for_eiriad_string};

fn kinds(src: &str) -> Vec<TokenKind> {
    Lexer::new(src).lex().expect("lexes").into_iter().map(|t| t.kind).collect()
}

#[test]
fn lexes_declaration_tokens() {
    assert_eq!(
        kinds("let x = 42"),
        vec![
            TokenKind::Let,
            TokenKind::Ident("x".to_string()),
            TokenKind::Eq,
            TokenKind::Int(42),
            TokenKind::Eof
        ]
    );
}

#[test]
fn lexes_operators_and_two_char_tokens() {
    assert_eq!(
        kinds("a |> b -> c == d != e <= f >= g && h || !i"),
        vec![
            TokenKind::Ident("a".to_string()),
            TokenKind::PipeGt,
            TokenKind::Ident("b".to_string()),
            TokenKind::Arrow,
            TokenKind::Ident("c".to_string()),
            TokenKind::EqEq,
            TokenKind::Ident("d".to_string()),
            TokenKind::Ne,
            TokenKind::Ident("e".to_string()),
            TokenKind::Le,
            TokenKind::Ident("f".to_string()),
            TokenKind::Ge,
            TokenKind::Ident("g".to_string()),
            TokenKind::AndAnd,
            TokenKind::Ident("h".to_string()),
            TokenKind::OrOr,
            TokenKind::Bang,
            TokenKind::Ident("i".to_string()),
            TokenKind::Eof
        ]
    );
}

#[test]
fn lexes_float_literal_as_text() {
    assert_eq!(kinds("3.25"), vec![TokenKind::Float("3.25".to_string()), TokenKind::Eof]);
    // A dot without a digit after it does not make a float, and is no token.
    assert_eq!(lex_text("3.").unwrap_err().message, "Unexpected character: .");
}

#[test]
fn lexes_keywords_and_none() {
    assert_eq!(
        kinds("mut fn match true false None"),
        vec![
            TokenKind::Mut,
            TokenKind::Fn,
            TokenKind::Match,
            TokenKind::True,
            TokenKind::False,
            TokenKind::NoneLit,
            TokenKind::Eof
        ]
    );
}

#[test]
fn lexes_string_escapes() {
    let ts = Lexer::new("\"a\\n\\t\\\"b\\\\\"").lex().expect("lexes");
    assert_eq!(ts[0].kind, TokenKind::Str("a\n\t\"b\\".to_string()));
    assert_eq!(ts[0].lexeme, "a\n\t\"b\\");
}

#[test]
fn newline_is_a_token_and_comments_are_skipped() {
    assert_eq!(
        kinds("1 // note\n2"),
        vec![TokenKind::Int(1), TokenKind::Int(2), TokenKind::Eof]
    );
    assert_eq!(
        kinds("1\n2"),
        vec![TokenKind::Int(1), TokenKind::Newline, TokenKind::Int(2), TokenKind::Eof]
    );
}

#[test]
fn backslash_newline_joins_lines() {
    assert_eq!(
        kinds("1 + \\\n2"),
        vec![TokenKind::Int(1), TokenKind::Plus, TokenKind::Int(2), TokenKind::Eof]
    );
}

#[test]
fn unexpected_character_is_an_error() {
    let err = lex_text("1 @ 2").unwrap_err();
    assert_eq!(err.message, "Unexpected character: @");
}

#[test]
fn unterminated_string_is_an_error() {
    let err = lex_text("\"abc").unwrap_err();
    assert_eq!(err.message, "Unterminated string literal");
}

#[test]
fn unsupported_escape_is_an_error() {
    let err = lex_text("\"a\\q\"").unwrap_err();
    assert_eq!(err.message, "Unsupported escape sequence: \\q");
}

#[test]
fn integer_out_of_range_is_an_error() {
    let err = lex_text("99999999999999999999").unwrap_err();
    assert_eq!(err.message, "Invalid integer literal: 99999999999999999999");
}

#[test]
fn lexing_always_ends_with_eof() {
    for src in ["", "x", "1 + 2\n", "// only a comment"] {
        let ts = lex_text(src).expect("lexes");
        assert_eq!(ts.last().map(|t| t.kind.clone()), Some(TokenKind::Eof));
    }
}

#[test]
fn shebang_line_is_skipped_by_the_lexer() {
    assert_eq!(kinds("#!/usr/bin/env eiriad\nx"), vec![TokenKind::Ident("x".to_string()), TokenKind::Eof]);
    assert_eq!(lex_text("# x").unwrap_err().message, "Unexpected character: #");
}

fn tokens(src: &str) -> Vec<(TokenKind, String)> {
    lex_text(src).expect("lexes").into_iter().map(|t| (t.kind, t.lexeme)).collect()
}

#[test]
fn trailing_comment_adds_no_tokens() {
    for src in ["", "x = 1", "print(\"a\") / 2", "fn f(a) { a -> }", "1.5 - y\n", "x // already a comment", "#!/bin/eiriad"] {
        let with_comment = format!("{} // note: 3 + 4 \"here\"", src);
        assert_eq!(tokens(&with_comment), tokens(src), "source {:?}", src);
    }
}

#[test]
fn escaped_text_lexes_back_to_one_string() {
    let quoted = format!("\"{}\"", escape_for_eiriad_string("say \"hi\"\\now\r\nok"));
    assert_eq!(
        tokens(&quoted),
        vec![
            (TokenKind::Str("say \"hi\"\\now ok".to_string()), "say \"hi\"\\now ok".to_string()),
            (TokenKind::Eof, String::new()),
        ]
    );
}

#[test]
fn call_sources_lex_to_one_call() {
    assert_eq!(call0_source("  todo_list \n"), "todo_list()");
    let src = call1_source("\t todo_add ", "buy \"milk\"\\now\r\nplease");
    assert_eq!(src, "todo_add(\"buy \\\"milk\\\"\\\\now please\")");
    assert_eq!(
        tokens(&src),
        vec![
            (TokenKind::Ident("todo_add".to_string()), "todo_add".to_string()),
            (TokenKind::LParen, "(".to_string()),
            (TokenKind::Str("buy \"milk\"\\now please".to_string()), "buy \"milk\"\\now please".to_string()),
            (TokenKind::RParen, ")".to_string()),
            (TokenKind::Eof, String::new()),
        ]
    );
    assert_eq!(call1_source("f", "\u{3000}x\u{a0}"), "f(\"\u{3000}x\u{a0}\")");
    assert_eq!(call0_source("\u{3000}f\u{2028}"), "f()");
}
