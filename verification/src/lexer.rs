use vstd::prelude::*;

use crate::error::{EiriadError, EiriadResult};
use crate::text::{chars_of, escape_text, exec_is_digit, is_digit, push_char};

verus! {

/// The kind of a token. A float literal keeps its source text: the number
/// it denotes is read where floating-point values are computed.
#[derive(Debug, Clone, PartialEq)]
pub enum TokenKind {
    Let,
    Mut,
    Fn,
    Match,
    True,
    False,
    NoneLit,
    Ident(String),
    Int(i64),
    Float(String),
    Str(String),
    Plus,
    Minus,
    Arrow,
    Star,
    Slash,
    Percent,
    Caret,
    Bang,
    Eq,
    EqEq,
    Ne,
    Lt,
    Le,
    Gt,
    Ge,
    AndAnd,
    OrOr,
    PipeGt,
    LParen,
    RParen,
    LBrace,
    RBrace,
    Comma,
    Colon,
    Semi,
    Newline,
    Eof,
}

/// A token: its kind and the source text it was read from.
#[derive(Debug, Clone)]
pub struct Token {
    pub kind: TokenKind,
    pub lexeme: String,
}

/// The mathematical model of a token kind: strings become character sequences.
pub enum KindV {
    Let,
    Mut,
    Fn,
    Match,
    True,
    False,
    NoneLit,
    Ident(Seq<char>),
    Int(i64),
    Float(Seq<char>),
    Str(Seq<char>),
    Plus,
    Minus,
    Arrow,
    Star,
    Slash,
    Percent,
    Caret,
    Bang,
    Eq,
    EqEq,
    Ne,
    Lt,
    Le,
    Gt,
    Ge,
    AndAnd,
    OrOr,
    PipeGt,
    LParen,
    RParen,
    LBrace,
    RBrace,
    Comma,
    Colon,
    Semi,
    Newline,
    Eof,
}

/// The mathematical model of a token.
pub struct TokenV {
    pub kind: KindV,
    pub lexeme: Seq<char>,
}

impl View for TokenKind {
    type V = KindV;

    open spec fn view(&self) -> KindV {
        match self {
            TokenKind::Let => KindV::Let,
            TokenKind::Mut => KindV::Mut,
            TokenKind::Fn => KindV::Fn,
            TokenKind::Match => KindV::Match,
            TokenKind::True => KindV::True,
            TokenKind::False => KindV::False,
            TokenKind::NoneLit => KindV::NoneLit,
            TokenKind::Ident(s) => KindV::Ident(s@),
            TokenKind::Int(n) => KindV::Int(*n),
            TokenKind::Float(s) => KindV::Float(s@),
            TokenKind::Str(s) => KindV::Str(s@),
            TokenKind::Plus => KindV::Plus,
            TokenKind::Minus => KindV::Minus,
            TokenKind::Arrow => KindV::Arrow,
            TokenKind::Star => KindV::Star,
            TokenKind::Slash => KindV::Slash,
            TokenKind::Percent => KindV::Percent,
            TokenKind::Caret => KindV::Caret,
            TokenKind::Bang => KindV::Bang,
            TokenKind::Eq => KindV::Eq,
            TokenKind::EqEq => KindV::EqEq,
            TokenKind::Ne => KindV::Ne,
            TokenKind::Lt => KindV::Lt,
            TokenKind::Le => KindV::Le,
            TokenKind::Gt => KindV::Gt,
            TokenKind::Ge => KindV::Ge,
            TokenKind::AndAnd => KindV::AndAnd,
            TokenKind::OrOr => KindV::OrOr,
            TokenKind::PipeGt => KindV::PipeGt,
            TokenKind::LParen => KindV::LParen,
            TokenKind::RParen => KindV::RParen,
            TokenKind::LBrace => KindV::LBrace,
            TokenKind::RBrace => KindV::RBrace,
            TokenKind::Comma => KindV::Comma,
            TokenKind::Colon => KindV::Colon,
            TokenKind::Semi => KindV::Semi,
            TokenKind::Newline => KindV::Newline,
            TokenKind::Eof => KindV::Eof,
        }
    }
}

impl View for Token {
    type V = TokenV;

    open spec fn view(&self) -> TokenV {
        TokenV { kind: self.kind@, lexeme: self.lexeme@ }
    }
}

/// The models of a list of tokens.
pub open spec fn tokens_view(ts: Seq<Token>) -> Seq<TokenV> {
    ts.map_values(|t: Token| t@)
}

impl TokenKind {
    /// A copy of this kind, equal to it.
    pub fn duplicate(&self) -> (r: TokenKind)
        ensures
            r == *self,
    {
        match self {
            TokenKind::Ident(s) => TokenKind::Ident(s.clone()),
            TokenKind::Int(n) => TokenKind::Int(*n),
            TokenKind::Float(s) => TokenKind::Float(s.clone()),
            TokenKind::Str(s) => TokenKind::Str(s.clone()),
            TokenKind::Let => TokenKind::Let,
            TokenKind::Mut => TokenKind::Mut,
            TokenKind::Fn => TokenKind::Fn,
            TokenKind::Match => TokenKind::Match,
            TokenKind::True => TokenKind::True,
            TokenKind::False => TokenKind::False,
            TokenKind::NoneLit => TokenKind::NoneLit,
            TokenKind::Plus => TokenKind::Plus,
            TokenKind::Minus => TokenKind::Minus,
            TokenKind::Arrow => TokenKind::Arrow,
            TokenKind::Star => TokenKind::Star,
            TokenKind::Slash => TokenKind::Slash,
            TokenKind::Percent => TokenKind::Percent,
            TokenKind::Caret => TokenKind::Caret,
            TokenKind::Bang => TokenKind::Bang,
            TokenKind::Eq => TokenKind::Eq,
            TokenKind::EqEq => TokenKind::EqEq,
            TokenKind::Ne => TokenKind::Ne,
            TokenKind::Lt => TokenKind::Lt,
            TokenKind::Le => TokenKind::Le,
            TokenKind::Gt => TokenKind::Gt,
            TokenKind::Ge => TokenKind::Ge,
            TokenKind::AndAnd => TokenKind::AndAnd,
            TokenKind::OrOr => TokenKind::OrOr,
            TokenKind::PipeGt => TokenKind::PipeGt,
            TokenKind::LParen => TokenKind::LParen,
            TokenKind::RParen => TokenKind::RParen,
            TokenKind::LBrace => TokenKind::LBrace,
            TokenKind::RBrace => TokenKind::RBrace,
            TokenKind::Comma => TokenKind::Comma,
            TokenKind::Colon => TokenKind::Colon,
            TokenKind::Semi => TokenKind::Semi,
            TokenKind::Newline => TokenKind::Newline,
            TokenKind::Eof => TokenKind::Eof,
        }
    }
}

impl Token {
    /// A copy of this token, equal to it.
    pub fn duplicate(&self) -> (r: Token)
        ensures
            r == *self,
    {
        Token { kind: self.kind.duplicate(), lexeme: self.lexeme.clone() }
    }
}

// ---------------------------------------------------------------------------
// The lexical grammar, as spec functions over the source characters.
// ---------------------------------------------------------------------------

pub open spec fn is_alpha(c: char) -> bool {
    ('a' <= c && c <= 'z') || ('A' <= c && c <= 'Z')
}

pub open spec fn ident_start_char(c: char) -> bool {
    c == '_' || is_alpha(c)
}

pub open spec fn ident_continue_char(c: char) -> bool {
    ident_start_char(c) || is_digit(c)
}

/// The first index at or after `i` whose character is not an identifier character.
pub open spec fn ident_end(cs: Seq<char>, i: int) -> int
    decreases cs.len() - i,
{
    if 0 <= i < cs.len() && ident_continue_char(cs[i]) {
        ident_end(cs, i + 1)
    } else {
        i
    }
}

/// The first index at or after `i` whose character is not a decimal digit.
pub open spec fn digits_end(cs: Seq<char>, i: int) -> int
    decreases cs.len() - i,
{
    if 0 <= i < cs.len() && is_digit(cs[i]) {
        digits_end(cs, i + 1)
    } else {
        i
    }
}

/// The index just after the end of a line comment that starts at `i`:
/// past the next newline, or the end of the input.
pub open spec fn comment_end(cs: Seq<char>, i: int) -> int
    decreases cs.len() - i,
{
    if i < 0 || i >= cs.len() {
        cs.len() as int
    } else if cs[i] == '\n' {
        i + 1
    } else {
        comment_end(cs, i + 1)
    }
}

/// The value of a digit character.
pub open spec fn digit_value(c: char) -> nat {
    (c as int - '0' as int) as nat
}

/// The number that a string of decimal digits denotes.
pub open spec fn digits_value(s: Seq<char>) -> nat
    decreases s.len(),
{
    if s.len() == 0 {
        0
    } else {
        digits_value(s.drop_last()) * 10 + digit_value(s.last())
    }
}

/// The character that an escape `\c` in a string literal stands for.
pub open spec fn escape_char(c: char) -> Option<char> {
    if c == 'n' {
        Some('\n')
    } else if c == 't' {
        Some('\t')
    } else if c == 'r' {
        Some('\r')
    } else if c == '"' {
        Some('"')
    } else if c == '\\' {
        Some('\\')
    } else {
        None
    }
}

/// Reads the rest of a string literal from index `i`, having read `acc` so far:
/// its contents and the index just past the closing quote.
pub open spec fn scan_string(cs: Seq<char>, i: int, acc: Seq<char>) -> Result<(Seq<char>, int), Seq<char>>
    decreases cs.len() - i,
{
    if i < 0 || i >= cs.len() {
        Err("Unterminated string literal"@)
    } else if cs[i] == '"' {
        Ok((acc, i + 1))
    } else if cs[i] == '\\' {
        if i + 1 >= cs.len() {
            Err("Unterminated escape sequence"@)
        } else {
            match escape_char(cs[i + 1]) {
                Some(e) => scan_string(cs, i + 2, acc.push(e)),
                None => Err("Unsupported escape sequence: \\"@.push(cs[i + 1])),
            }
        }
    } else {
        scan_string(cs, i + 1, acc.push(cs[i]))
    }
}

/// The kind of a word: a keyword or an identifier.
pub open spec fn word_kind(text: Seq<char>) -> KindV {
    if text == "let"@ {
        KindV::Let
    } else if text == "mut"@ {
        KindV::Mut
    } else if text == "fn"@ {
        KindV::Fn
    } else if text == "match"@ {
        KindV::Match
    } else if text == "true"@ {
        KindV::True
    } else if text == "false"@ {
        KindV::False
    } else if text == "None"@ {
        KindV::NoneLit
    } else {
        KindV::Ident(text)
    }
}

/// One step of the lexer at index `pos`.
pub enum LexStep {
    /// Nothing is emitted; lexing resumes at the index.
    Skip(int),
    /// The token is emitted; lexing resumes at the index.
    Emit(TokenV, int),
    /// Lexing fails with the message.
    Fail(Seq<char>),
}

pub open spec fn emit(kind: KindV, lexeme: Seq<char>, next: int) -> LexStep {
    LexStep::Emit(TokenV { kind, lexeme }, next)
}

/// A number literal starting at `pos`: digits, optionally followed by `.` and digits.
pub open spec fn lex_number_step(cs: Seq<char>, pos: int) -> LexStep {
    let j = digits_end(cs, pos + 1);
    if j + 1 < cs.len() && cs[j] == '.' && is_digit(cs[j + 1]) {
        let k = digits_end(cs, j + 1);
        emit(KindV::Float(cs.subrange(pos, k)), cs.subrange(pos, k), k)
    } else {
        let text = cs.subrange(pos, j);
        if digits_value(text) <= i64::MAX {
            emit(KindV::Int(digits_value(text) as i64), text, j)
        } else {
            LexStep::Fail("Invalid integer literal: "@ + text)
        }
    }
}

/// The step the lexer takes at index `pos` (which must be inside the input).
pub open spec fn lex_step(cs: Seq<char>, pos: int) -> LexStep {
    let c = cs[pos];
    let has_next = pos + 1 < cs.len();
    let next = cs[pos + 1];
    if c == ' ' || c == '\t' || c == '\r' {
        LexStep::Skip(pos + 1)
    } else if c == '\n' {
        emit(KindV::Newline, "\\n"@, pos + 1)
    } else if c == '\\' && has_next && next == '\n' {
        LexStep::Skip(pos + 2)
    } else if c == '/' && has_next && next == '/' {
        LexStep::Skip(comment_end(cs, pos))
    } else if c == '(' {
        emit(KindV::LParen, "("@, pos + 1)
    } else if c == ')' {
        emit(KindV::RParen, ")"@, pos + 1)
    } else if c == '{' {
        emit(KindV::LBrace, "{"@, pos + 1)
    } else if c == '}' {
        emit(KindV::RBrace, "}"@, pos + 1)
    } else if c == ',' {
        emit(KindV::Comma, ","@, pos + 1)
    } else if c == ':' {
        emit(KindV::Colon, ":"@, pos + 1)
    } else if c == ';' {
        emit(KindV::Semi, ";"@, pos + 1)
    } else if c == '+' {
        emit(KindV::Plus, "+"@, pos + 1)
    } else if c == '-' {
        if has_next && next == '>' {
            emit(KindV::Arrow, "->"@, pos + 2)
        } else {
            emit(KindV::Minus, "-"@, pos + 1)
        }
    } else if c == '*' {
        emit(KindV::Star, "*"@, pos + 1)
    } else if c == '%' {
        emit(KindV::Percent, "%"@, pos + 1)
    } else if c == '^' {
        emit(KindV::Caret, "^"@, pos + 1)
    } else if c == '!' {
        if has_next && next == '=' {
            emit(KindV::Ne, "!="@, pos + 2)
        } else {
            emit(KindV::Bang, "!"@, pos + 1)
        }
    } else if c == '=' {
        if has_next && next == '=' {
            emit(KindV::EqEq, "=="@, pos + 2)
        } else {
            emit(KindV::Eq, "="@, pos + 1)
        }
    } else if c == '<' {
        if has_next && next == '=' {
            emit(KindV::Le, "<="@, pos + 2)
        } else {
            emit(KindV::Lt, "<"@, pos + 1)
        }
    } else if c == '>' {
        if has_next && next == '=' {
            emit(KindV::Ge, ">="@, pos + 2)
        } else {
            emit(KindV::Gt, ">"@, pos + 1)
        }
    } else if c == '&' && has_next && next == '&' {
        emit(KindV::AndAnd, "&&"@, pos + 2)
    } else if c == '|' && has_next && next == '|' {
        emit(KindV::OrOr, "||"@, pos + 2)
    } else if c == '|' && has_next && next == '>' {
        emit(KindV::PipeGt, "|>"@, pos + 2)
    } else if c == '/' {
        emit(KindV::Slash, "/"@, pos + 1)
    } else if c == '"' {
        match scan_string(cs, pos + 1, Seq::empty()) {
            Ok((s, e)) => emit(KindV::Str(s), s, e),
            Err(m) => LexStep::Fail(m),
        }
    } else if is_digit(c) {
        lex_number_step(cs, pos)
    } else if ident_start_char(c) {
        let j = ident_end(cs, pos + 1);
        emit(word_kind(cs.subrange(pos, j)), cs.subrange(pos, j), j)
    } else {
        LexStep::Fail("Unexpected character: "@.push(c))
    }
}

/// The end-of-input token.
pub open spec fn eof_token() -> TokenV {
    TokenV { kind: KindV::Eof, lexeme: Seq::empty() }
}

/// Prepends tokens to the result of lexing the rest of the input.
pub open spec fn prepend(ts: Seq<TokenV>, r: Result<Seq<TokenV>, Seq<char>>) -> Result<Seq<TokenV>, Seq<char>> {
    match r {
        Ok(rest) => Ok(ts + rest),
        Err(m) => Err(m),
    }
}

/// The tokens of the input from index `pos` on, ending with the end-of-input
/// token, or the message of the first lexical error.
pub open spec fn lex_from(cs: Seq<char>, pos: int) -> Result<Seq<TokenV>, Seq<char>>
    decreases cs.len() - pos,
{
    if pos < 0 || pos >= cs.len() {
        Ok(seq![eof_token()])
    } else {
        match lex_step(cs, pos) {
            LexStep::Skip(n) => if pos < n <= cs.len() {
                lex_from(cs, n)
            } else {
                Err(Seq::empty())
            },
            LexStep::Emit(t, n) => if pos < n <= cs.len() {
                prepend(seq![t], lex_from(cs, n))
            } else {
                Err(Seq::empty())
            },
            LexStep::Fail(m) => Err(m),
        }
    }
}

/// The tokens of a whole source text.
pub open spec fn lex_source(cs: Seq<char>) -> Result<Seq<TokenV>, Seq<char>> {
    lex_from(cs, shebang_end(cs))
}

/// Where lexing starts: past a first line that begins with `#!` (a script's
/// interpreter line), through its newline; otherwise at the start.
pub open spec fn shebang_end(cs: Seq<char>) -> int {
    if cs.len() >= 2 && cs[0] == '#' && cs[1] == '!' {
        comment_end(cs, 0)
    } else {
        0
    }
}

// ---------------------------------------------------------------------------
// Facts about the scanning functions.
// ---------------------------------------------------------------------------

proof fn lemma_ident_end_bounds(cs: Seq<char>, i: int)
    requires
        0 <= i <= cs.len(),
    ensures
        i <= ident_end(cs, i) <= cs.len(),
    decreases cs.len() - i,
{
    if i < cs.len() && ident_continue_char(cs[i]) {
        lemma_ident_end_bounds(cs, i + 1);
    }
}

proof fn lemma_digits_end_bounds(cs: Seq<char>, i: int)
    requires
        0 <= i <= cs.len(),
    ensures
        i <= digits_end(cs, i) <= cs.len(),
        forall|k: int| i <= k < digits_end(cs, i) ==> is_digit(#[trigger] cs[k]),
    decreases cs.len() - i,
{
    if i < cs.len() && is_digit(cs[i]) {
        lemma_digits_end_bounds(cs, i + 1);
    }
}

proof fn lemma_comment_end_bounds(cs: Seq<char>, i: int)
    requires
        0 <= i < cs.len(),
    ensures
        i < comment_end(cs, i) <= cs.len(),
    decreases cs.len() - i,
{
    if cs[i] != '\n' {
        if i + 1 < cs.len() {
            lemma_comment_end_bounds(cs, i + 1);
        } else {
            assert(comment_end(cs, i + 1) == cs.len());
        }
    }
}

proof fn lemma_scan_string_progress(cs: Seq<char>, i: int, acc: Seq<char>)
    requires
        0 <= i,
    ensures
        scan_string(cs, i, acc) matches Ok((_, e)) ==> i < e <= cs.len(),
    decreases cs.len() - i,
{
    if 0 <= i < cs.len() && cs[i] != '"' {
        if cs[i] == '\\' {
            if i + 1 < cs.len() {
                if let Some(e) = escape_char(cs[i + 1]) {
                    lemma_scan_string_progress(cs, i + 2, acc.push(e));
                }
            }
        } else {
            lemma_scan_string_progress(cs, i + 1, acc.push(cs[i]));
        }
    }
}

proof fn lemma_digits_value_prefix(s: Seq<char>, k: int)
    requires
        0 <= k <= s.len(),
    ensures
        digits_value(s.subrange(0, k)) <= digits_value(s),
    decreases s.len() - k,
{
    if k < s.len() {
        lemma_digits_value_prefix(s, k + 1);
        assert(s.subrange(0, k + 1).drop_last() =~= s.subrange(0, k));
    } else {
        assert(s.subrange(0, k) =~= s);
    }
}

/// Every step of the lexer moves forward through the input.
proof fn lemma_lex_step_progress(cs: Seq<char>, pos: int)
    requires
        0 <= pos < cs.len(),
    ensures
        match lex_step(cs, pos) {
            LexStep::Skip(n) => pos < n <= cs.len(),
            LexStep::Emit(_, n) => pos < n <= cs.len(),
            LexStep::Fail(_) => true,
        },
{
    lemma_comment_end_bounds(cs, pos);
    lemma_scan_string_progress(cs, pos + 1, Seq::empty());
    lemma_digits_end_bounds(cs, pos + 1);
    lemma_ident_end_bounds(cs, pos + 1);
    let j = digits_end(cs, pos + 1);
    if j + 1 < cs.len() {
        lemma_digits_end_bounds(cs, j + 1);
    }
}

// ---------------------------------------------------------------------------
// The executable lexer.
// ---------------------------------------------------------------------------

fn exec_is_alpha(c: char) -> (b: bool)
    ensures
        b == is_alpha(c),
{
    ('a' <= c && c <= 'z') || ('A' <= c && c <= 'Z')
}

fn is_ident_start(c: char) -> (b: bool)
    ensures
        b == ident_start_char(c),
{
    c == '_' || exec_is_alpha(c)
}

fn is_ident_continue(c: char) -> (b: bool)
    ensures
        b == ident_continue_char(c),
{
    is_ident_start(c) || exec_is_digit(c)
}

/// A token with a fixed lexeme.
fn simple(kind: TokenKind, lexeme: &str) -> (t: Token)
    ensures
        t.kind == kind,
        t.lexeme@ == lexeme@,
{
    Token { kind, lexeme: String::from_str(lexeme) }
}

/// The string made of `cs[start..end]`.
fn collect_text(cs: &Vec<char>, start: usize, end: usize) -> (s: String)
    requires
        start <= end <= cs.len(),
    ensures
        s@ == cs@.subrange(start as int, end as int),
{
    let mut s = String::new();
    let mut i: usize = start;
    while i < end
        invariant
            start <= i <= end <= cs.len(),
            s@ == cs@.subrange(start as int, i as int),
        decreases end - i,
    {
        push_char(&mut s, cs[i]);
        i = i + 1;
        assert(s@ =~= cs@.subrange(start as int, i as int));
    }
    s
}

/// The kind of a word, as `word_kind` states.
fn exec_word_kind(text: String) -> (k: TokenKind)
    ensures
        k@ == word_kind(text@),
{
    if text == String::from_str("let") {
        TokenKind::Let
    } else if text == String::from_str("mut") {
        TokenKind::Mut
    } else if text == String::from_str("fn") {
        TokenKind::Fn
    } else if text == String::from_str("match") {
        TokenKind::Match
    } else if text == String::from_str("true") {
        TokenKind::True
    } else if text == String::from_str("false") {
        TokenKind::False
    } else if text == String::from_str("None") {
        TokenKind::NoneLit
    } else {
        TokenKind::Ident(text)
    }
}

/// The value of a string of digits, or `None` when it exceeds `i64::MAX`.
fn digits_to_i64(cs: &Vec<char>, start: usize, end: usize) -> (r: Option<i64>)
    requires
        start <= end <= cs.len(),
        forall|k: int| start <= k < end ==> is_digit(#[trigger] cs@[k]),
    ensures
        match r {
            Some(v) => v == digits_value(cs@.subrange(start as int, end as int)),
            None => digits_value(cs@.subrange(start as int, end as int)) > i64::MAX,
        },
{
    let ghost text = cs@.subrange(start as int, end as int);
    let mut acc: u128 = 0;
    let mut i: usize = start;
    while i < end
        invariant
            start <= i <= end <= cs.len(),
            text == cs@.subrange(start as int, end as int),
            forall|k: int| start <= k < end ==> is_digit(#[trigger] cs@[k]),
            acc == digits_value(cs@.subrange(start as int, i as int)),
            acc <= i64::MAX,
        decreases end - i,
    {
        let c = cs[i];
        assert(is_digit(cs@[i as int]));
        let d = (c as u32 - '0' as u32) as u128;
        assert(cs@.subrange(start as int, i + 1).drop_last() =~= cs@.subrange(start as int, i as int));
        assert(acc * 10 <= 10 * 0x7fff_ffff_ffff_ffffu128) by (nonlinear_arith)
            requires acc <= 0x7fff_ffff_ffff_ffffu128;
        let next = acc * 10 + d;
        i = i + 1;
        if next > i64::MAX as u128 {
            proof {
                lemma_digits_value_prefix(text, (i - start) as int);
                assert(text.subrange(0, (i - start) as int) =~= cs@.subrange(start as int, i as int));
            }
            return None;
        }
        acc = next;
    }
    Some(acc as i64)
}

/// What one step of the executable lexer produced.
pub enum StepOut {
    Skip,
    Emit(Token),
    Fail(EiriadError),
}

/// The lexer: the characters of a source text and a read position.
pub struct Lexer<'a> {
    chars: Vec<char>,
    pos: usize,
    _source: &'a str,
}

impl<'a> Lexer<'a> {
    /// The characters this lexer reads.
    pub closed spec fn chars_view(&self) -> Seq<char> {
        self.chars@
    }

    /// The position it reads from.
    pub closed spec fn pos_view(&self) -> int {
        self.pos as int
    }

    /// A lexer positioned at the start of `source`, past a first line that
    /// begins with `#!`.
    pub fn new(source: &'a str) -> (l: Self)
        ensures
            l.chars_view() == source@,
            l.pos_view() == shebang_end(source@),
    {
        let mut l = Lexer { chars: chars_of(source), pos: 0, _source: source };
        if l.chars.len() >= 2 && l.chars[0] == '#' && l.chars[1] == '!' {
            l.skip_line_comment();
        }
        l
    }

    /// The character at the current position, if any.
    fn peek(&self) -> (r: Option<char>)
        ensures
            r == (if self.pos < self.chars@.len() { Some(self.chars@[self.pos as int]) } else { None::<char> }),
    {
        if self.pos < self.chars.len() {
            Some(self.chars[self.pos])
        } else {
            None
        }
    }

    /// The character after the current one, if any.
    fn peek_next(&self) -> (r: Option<char>)
        requires
            self.pos < self.chars@.len(),
        ensures
            r == (if self.pos + 1 < self.chars@.len() { Some(self.chars@[self.pos + 1]) } else { None::<char> }),
    {
        let n = self.chars.len();
        if self.pos + 1 < n {
            Some(self.chars[self.pos + 1])
        } else {
            None
        }
    }

    /// Moves past the current character.
    fn bump(&mut self)
        requires
            old(self).pos < old(self).chars@.len(),
        ensures
            final(self).chars == old(self).chars,
            final(self).pos == old(self).pos + 1,
    {
        let _n = self.chars.len();
        self.pos = self.pos + 1;
    }

    /// Moves past the current character when it is `expected`.
    fn match_char(&mut self, expected: char) -> (b: bool)
        ensures
            final(self).chars == old(self).chars,
            b == (old(self).pos < old(self).chars@.len() && old(self).chars@[old(self).pos as int] == expected),
            final(self).pos == if b { old(self).pos + 1 } else { old(self).pos as int },
    {
        match self.peek() {
            Some(c) => if c == expected {
                self.bump();
                true
            } else {
                false
            },
            None => false,
        }
    }

    /// Skips a line comment: through the next newline, or to the end.
    fn skip_line_comment(&mut self)
        requires
            old(self).pos < old(self).chars@.len(),
        ensures
            final(self).chars == old(self).chars,
            final(self).pos == comment_end(old(self).chars@, old(self).pos as int),
    {
        while self.pos < self.chars.len()
            invariant
                self.chars == old(self).chars,
                old(self).pos <= self.pos <= self.chars@.len(),
                comment_end(self.chars@, old(self).pos as int) == comment_end(self.chars@, self.pos as int),
            decreases self.chars@.len() - self.pos,
        {
            let c = self.chars[self.pos];
            self.pos = self.pos + 1;
            if c == '\n' {
                return;
            }
        }
    }

    /// Reads a word (identifier or keyword) starting at the current position.
    fn lex_ident_or_keyword(&mut self) -> (t: Token)
        requires
            old(self).pos < old(self).chars@.len(),
        ensures
            final(self).chars == old(self).chars,
            final(self).pos == ident_end(old(self).chars@, old(self).pos + 1),
            t@ == ({
                let cs = old(self).chars@;
                let text = cs.subrange(old(self).pos as int, final(self).pos as int);
                TokenV { kind: word_kind(text), lexeme: text }
            }),
    {
        let _n = self.chars.len();
        let start = self.pos;
        self.pos = self.pos + 1;
        while self.pos < self.chars.len() && is_ident_continue(self.chars[self.pos])
            invariant
                self.chars == old(self).chars,
                start + 1 <= self.pos <= self.chars@.len(),
                start == old(self).pos,
                ident_end(self.chars@, start + 1) == ident_end(self.chars@, self.pos as int),
            decreases self.chars@.len() - self.pos,
        {
            self.pos = self.pos + 1;
        }
        let text = collect_text(&self.chars, start, self.pos);
        let lexeme = text.clone();
        let kind = exec_word_kind(text);
        Token { kind, lexeme }
    }

    /// Reads a number literal starting at the current position.
    fn lex_number(&mut self) -> (r: StepOut)
        requires
            old(self).pos < old(self).chars@.len(),
            is_digit(old(self).chars@[old(self).pos as int]),
        ensures
            final(self).chars == old(self).chars,
            step_agrees(r, lex_number_step(old(self).chars@, old(self).pos as int), final(self).pos as int),
    {
        let _n = self.chars.len();
        let ghost cs = self.chars@;
        let start = self.pos;
        proof {
            lemma_digits_end_bounds(cs, start + 1);
        }
        self.pos = self.pos + 1;
        while self.pos < self.chars.len() && exec_is_digit(self.chars[self.pos])
            invariant
                self.chars@ == cs,
                self.chars == old(self).chars,
                start + 1 <= self.pos <= cs.len(),
                start == old(self).pos,
                digits_end(cs, start + 1) == digits_end(cs, self.pos as int),
            decreases cs.len() - self.pos,
        {
            self.pos = self.pos + 1;
        }
        let j = self.pos;
        if self.peek() == Some('.') && self.pos + 1 < self.chars.len() && exec_is_digit(self.chars[self.pos + 1]) {
            proof {
                lemma_digits_end_bounds(cs, j + 1);
            }
            self.pos = self.pos + 1;
            while self.pos < self.chars.len() && exec_is_digit(self.chars[self.pos])
                invariant
                    self.chars@ == cs,
                    self.chars == old(self).chars,
                    j + 1 <= self.pos <= cs.len(),
                    digits_end(cs, j + 1) == digits_end(cs, self.pos as int),
                decreases cs.len() - self.pos,
            {
                self.pos = self.pos + 1;
            }
            let text = collect_text(&self.chars, start, self.pos);
            let lexeme = text.clone();
            StepOut::Emit(Token { kind: TokenKind::Float(text), lexeme })
        } else {
            proof {
                assert forall|k: int| start <= k < j implies is_digit(#[trigger] cs[k]) by {
                    if k > start {
                        assert(start + 1 <= k < digits_end(cs, start + 1));
                    }
                }
            }
            match digits_to_i64(&self.chars, start, j) {
                Some(v) => {
                    let lexeme = collect_text(&self.chars, start, j);
                    StepOut::Emit(Token { kind: TokenKind::Int(v), lexeme })
                },
                None => {
                    let mut msg = String::from_str("Invalid integer literal: ");
                    let text = collect_text(&self.chars, start, j);
                    msg.append(text.as_str());
                    StepOut::Fail(EiriadError::new(msg))
                },
            }
        }
    }

    /// Reads a string literal whose opening quote is at the current position.
    fn lex_string(&mut self) -> (r: StepOut)
        requires
            old(self).pos < old(self).chars@.len(),
        ensures
            final(self).chars == old(self).chars,
            match scan_string(old(self).chars@, old(self).pos + 1, Seq::empty()) {
                Ok((s, e)) => r matches StepOut::Emit(t) && t@ == TokenV { kind: KindV::Str(s), lexeme: s }
                    && final(self).pos == e,
                Err(m) => r matches StepOut::Fail(err) && err.message@ == m,
            },
    {
        let _n = self.chars.len();
        let ghost cs = self.chars@;
        self.pos = self.pos + 1;
        let mut out = String::new();
        while self.pos < self.chars.len()
            invariant
                self.chars@ == cs,
                self.chars == old(self).chars,
                old(self).pos + 1 <= self.pos <= cs.len(),
                scan_string(cs, old(self).pos + 1, Seq::empty()) == scan_string(cs, self.pos as int, out@),
            decreases cs.len() - self.pos,
        {
            let c = self.chars[self.pos];
            if c == '"' {
                self.pos = self.pos + 1;
                let lexeme = out.clone();
                return StepOut::Emit(Token { kind: TokenKind::Str(out), lexeme });
            }
            if c == '\\' {
                if self.pos + 1 >= self.chars.len() {
                    return StepOut::Fail(EiriadError::new(String::from_str("Unterminated escape sequence")));
                }
                let escaped = self.chars[self.pos + 1];
                self.pos = self.pos + 2;
                if escaped == 'n' {
                    push_char(&mut out, '\n');
                } else if escaped == 't' {
                    push_char(&mut out, '\t');
                } else if escaped == 'r' {
                    push_char(&mut out, '\r');
                } else if escaped == '"' {
                    push_char(&mut out, '"');
                } else if escaped == '\\' {
                    push_char(&mut out, '\\');
                } else {
                    let mut msg = String::from_str("Unsupported escape sequence: \\");
                    push_char(&mut msg, escaped);
                    return StepOut::Fail(EiriadError::new(msg));
                }
            } else {
                push_char(&mut out, c);
                self.pos = self.pos + 1;
            }
        }
        StepOut::Fail(EiriadError::new(String::from_str("Unterminated string literal")))
    }

    /// Emits `kind` with a one-character lexeme, or `long_kind` with a
    /// two-character lexeme when the next character is `second`.
    fn one_or_two(&mut self, second: char, kind: TokenKind, lexeme: &str, long_kind: TokenKind, long_lexeme: &str) -> (t: Token)
        requires
            old(self).pos < old(self).chars@.len(),
        ensures
            final(self).chars == old(self).chars,
            if old(self).pos + 1 < old(self).chars@.len() && old(self).chars@[old(self).pos + 1] == second {
                t.kind == long_kind && t.lexeme@ == long_lexeme@ && final(self).pos == old(self).pos + 2
            } else {
                t.kind == kind && t.lexeme@ == lexeme@ && final(self).pos == old(self).pos + 1
            },
    {
        self.bump();
        if self.match_char(second) {
            simple(long_kind, long_lexeme)
        } else {
            simple(kind, lexeme)
        }
    }

    /// Takes one step at the current position, which must be inside the input.
    fn step(&mut self) -> (r: StepOut)
        requires
            old(self).pos < old(self).chars@.len(),
        ensures
            final(self).chars == old(self).chars,
            step_agrees(r, lex_step(old(self).chars@, old(self).pos as int), final(self).pos as int),
    {
        let _n = self.chars.len();
        let c = self.chars[self.pos];
        if c == ' ' || c == '\t' || c == '\r' {
            self.pos = self.pos + 1;
            StepOut::Skip
        } else if c == '\n' {
            self.pos = self.pos + 1;
            StepOut::Emit(simple(TokenKind::Newline, "\\n"))
        } else if c == '\\' && self.peek_next() == Some('\n') {
            self.pos = self.pos + 2;
            StepOut::Skip
        } else if c == '/' && self.peek_next() == Some('/') {
            self.skip_line_comment();
            StepOut::Skip
        } else if c == '(' {
            self.pos = self.pos + 1;
            StepOut::Emit(simple(TokenKind::LParen, "("))
        } else if c == ')' {
            self.pos = self.pos + 1;
            StepOut::Emit(simple(TokenKind::RParen, ")"))
        } else if c == '{' {
            self.pos = self.pos + 1;
            StepOut::Emit(simple(TokenKind::LBrace, "{"))
        } else if c == '}' {
            self.pos = self.pos + 1;
            StepOut::Emit(simple(TokenKind::RBrace, "}"))
        } else if c == ',' {
            self.pos = self.pos + 1;
            StepOut::Emit(simple(TokenKind::Comma, ","))
        } else if c == ':' {
            self.pos = self.pos + 1;
            StepOut::Emit(simple(TokenKind::Colon, ":"))
        } else if c == ';' {
            self.pos = self.pos + 1;
            StepOut::Emit(simple(TokenKind::Semi, ";"))
        } else if c == '+' {
            self.pos = self.pos + 1;
            StepOut::Emit(simple(TokenKind::Plus, "+"))
        } else if c == '-' {
            StepOut::Emit(self.one_or_two('>', TokenKind::Minus, "-", TokenKind::Arrow, "->"))
        } else if c == '*' {
            self.pos = self.pos + 1;
            StepOut::Emit(simple(TokenKind::Star, "*"))
        } else if c == '%' {
            self.pos = self.pos + 1;
            StepOut::Emit(simple(TokenKind::Percent, "%"))
        } else if c == '^' {
            self.pos = self.pos + 1;
            StepOut::Emit(simple(TokenKind::Caret, "^"))
        } else if c == '!' {
            StepOut::Emit(self.one_or_two('=', TokenKind::Bang, "!", TokenKind::Ne, "!="))
        } else if c == '=' {
            StepOut::Emit(self.one_or_two('=', TokenKind::Eq, "=", TokenKind::EqEq, "=="))
        } else if c == '<' {
            StepOut::Emit(self.one_or_two('=', TokenKind::Lt, "<", TokenKind::Le, "<="))
        } else if c == '>' {
            StepOut::Emit(self.one_or_two('=', TokenKind::Gt, ">", TokenKind::Ge, ">="))
        } else if c == '&' && self.peek_next() == Some('&') {
            self.pos = self.pos + 2;
            StepOut::Emit(simple(TokenKind::AndAnd, "&&"))
        } else if c == '|' && self.peek_next() == Some('|') {
            self.pos = self.pos + 2;
            StepOut::Emit(simple(TokenKind::OrOr, "||"))
        } else if c == '|' && self.peek_next() == Some('>') {
            self.pos = self.pos + 2;
            StepOut::Emit(simple(TokenKind::PipeGt, "|>"))
        } else if c == '/' {
            self.pos = self.pos + 1;
            StepOut::Emit(simple(TokenKind::Slash, "/"))
        } else if c == '"' {
            self.lex_string()
        } else if exec_is_digit(c) {
            self.lex_number()
        } else if is_ident_start(c) {
            StepOut::Emit(self.lex_ident_or_keyword())
        } else {
            let mut msg = String::from_str("Unexpected character: ");
            push_char(&mut msg, c);
            StepOut::Fail(EiriadError::new(msg))
        }
    }

    /// Reads the whole input into tokens, ending with `Eof`; fails with the
    /// first lexical error. The result is the one `lex_source` gives.
    pub fn lex(self) -> (r: EiriadResult<Vec<Token>>)
        ensures
            match r {
                Ok(ts) => lex_from(self.chars_view(), self.pos_view()) == Ok::<Seq<TokenV>, Seq<char>>(tokens_view(ts@)),
                Err(e) => lex_from(self.chars_view(), self.pos_view()) == Err::<Seq<TokenV>, Seq<char>>(e.message@),
            },
    {
        let mut lexer = self;
        let ghost cs = lexer.chars@;
        let ghost start = lexer.pos as int;
        let mut tokens: Vec<Token> = Vec::new();
        while lexer.pos < lexer.chars.len()
            invariant
                lexer.chars@ == cs,
                cs == self.chars_view(),
                start == self.pos_view(),
                lex_from(cs, start) == prepend(tokens_view(tokens@), lex_from(cs, lexer.pos as int)),
            decreases cs.len() - lexer.pos,
        {
            let ghost before = lexer.pos as int;
            proof {
                lemma_lex_step_progress(cs, before);
            }
            let out = lexer.step();
            match out {
                StepOut::Skip => {},
                StepOut::Emit(t) => {
                    let ghost old_tokens = tokens@;
                    tokens.push(t);
                    proof {
                        assert(tokens_view(tokens@) =~= tokens_view(old_tokens) + seq![t@]);
                        let rest = lex_from(cs, lexer.pos as int);
                        match rest {
                            Ok(x) => {
                                assert(tokens_view(old_tokens) + (seq![t@] + x) =~= tokens_view(tokens@) + x);
                            },
                            Err(_) => {},
                        }
                    }
                },
                StepOut::Fail(e) => {
                    assert(lex_from(cs, before) == Err::<Seq<TokenV>, Seq<char>>(e.message@));
                    assert(lex_from(cs, start) == Err::<Seq<TokenV>, Seq<char>>(e.message@));
                    return Err(e);
                },
            }
        }
        let ghost old_tokens = tokens@;
        tokens.push(Token { kind: TokenKind::Eof, lexeme: String::new() });
        proof {
            assert(tokens_view(tokens@) =~= tokens_view(old_tokens) + seq![eof_token()]);
        }
        Ok(tokens)
    }
}

/// The executable step `r`, after which the lexer stands at `next`, is the step `s`.
pub open spec fn step_agrees(r: StepOut, s: LexStep, next: int) -> bool {
    match s {
        LexStep::Skip(n) => r is Skip && next == n,
        LexStep::Emit(t, n) => r matches StepOut::Emit(tok) && tok@ == t && next == n,
        LexStep::Fail(m) => r matches StepOut::Fail(e) && e.message@ == m,
    }
}

/// Lexing, when it succeeds, gives a nonempty token list ending with `Eof`.
pub proof fn lemma_lex_ends_with_eof(cs: Seq<char>, pos: int)
    ensures
        lex_from(cs, pos) matches Ok(ts) ==> ts.len() > 0 && ts.last() == eof_token(),
    decreases cs.len() - pos,
{
    if 0 <= pos < cs.len() {
        match lex_step(cs, pos) {
            LexStep::Skip(n) => if pos < n <= cs.len() {
                lemma_lex_ends_with_eof(cs, n);
            },
            LexStep::Emit(t, n) => if pos < n <= cs.len() {
                lemma_lex_ends_with_eof(cs, n);
            },
            LexStep::Fail(_) => {},
        }
    }
}

/// The tokens of `source`, or the first lexical error.
pub fn lex_text(source: &str) -> (r: EiriadResult<Vec<Token>>)
    ensures
        match r {
            Ok(ts) => lex_source(source@) == Ok::<Seq<TokenV>, Seq<char>>(tokens_view(ts@)),
            Err(e) => lex_source(source@) == Err::<Seq<TokenV>, Seq<char>>(e.message@),
        },
{
    Lexer::new(source).lex()
}

/// A step never emits the `Eof` token.
proof fn lemma_lex_step_not_eof(cs: Seq<char>, pos: int)
    requires
        0 <= pos < cs.len(),
    ensures
        lex_step(cs, pos) matches LexStep::Emit(t, _) ==> t.kind != KindV::Eof,
{
}

/// Lexing gives `Eof` only as its last token.
pub proof fn lemma_lex_eof_only_last(cs: Seq<char>, pos: int)
    ensures
        lex_from(cs, pos) matches Ok(ts) ==> forall|j: int| 0 <= j < ts.len() - 1 ==> (#[trigger] ts[j]).kind != KindV::Eof,
    decreases cs.len() - pos,
{
    if 0 <= pos < cs.len() {
        lemma_lex_step_not_eof(cs, pos);
        match lex_step(cs, pos) {
            LexStep::Skip(n) => if pos < n <= cs.len() {
                lemma_lex_eof_only_last(cs, n);
            },
            LexStep::Emit(t, n) => if pos < n <= cs.len() {
                lemma_lex_eof_only_last(cs, n);
                if let Ok(rest) = lex_from(cs, n) {
                    assert(prepend(seq![t], lex_from(cs, n)) == Ok::<Seq<TokenV>, Seq<char>>(seq![t] + rest));
                    assert forall|j: int| 0 <= j < (seq![t] + rest).len() - 1 implies (#[trigger] (seq![t] + rest)[j]).kind != KindV::Eof by {
                        if j > 0 {
                            assert((seq![t] + rest)[j] == rest[j - 1]);
                        }
                    }
                }
            },
            LexStep::Fail(_) => {},
        }
    }
}


// ---------------------------------------------------------------------------
// A trailing line comment.
// ---------------------------------------------------------------------------

/// The text `s` followed by a space, `//` and comment text `c` without a newline.
pub open spec fn with_trailing_comment(s: Seq<char>, c: Seq<char>) -> Seq<char> {
    s + " // "@ + c
}

/// From the comment's space on, the extended text holds no newline.
proof fn lemma_comment_tail(s: Seq<char>, c: Seq<char>, i: int)
    requires
        !c.contains('\n'),
        s.len() <= i <= with_trailing_comment(s, c).len(),
    ensures
        comment_end(with_trailing_comment(s, c), i) == with_trailing_comment(s, c).len(),
    decreases with_trailing_comment(s, c).len() - i,
{
    let t = with_trailing_comment(s, c);
    reveal_strlit(" // ");
    if i < t.len() {
        if i >= s.len() + 4 {
            assert(t[i] == c[i - s.len() - 4]);
            assert(t[i] != '\n');
        }
        lemma_comment_tail(s, c, i + 1);
    }
}

/// A comment in `s` either ends at the same place in the extended text, or
/// runs to the end of both.
proof fn lemma_comment_end_ext(s: Seq<char>, c: Seq<char>, i: int)
    requires
        !c.contains('\n'),
        0 <= i <= s.len(),
    ensures
        comment_end(with_trailing_comment(s, c), i) == comment_end(s, i) || (comment_end(s, i) == s.len()
            && comment_end(with_trailing_comment(s, c), i) == with_trailing_comment(s, c).len()),
    decreases s.len() - i,
{
    let t = with_trailing_comment(s, c);
    if i == s.len() {
        lemma_comment_tail(s, c, i);
    } else {
        assert(t[i] == s[i]);
        if s[i] != '\n' {
            lemma_comment_end_ext(s, c, i + 1);
        }
    }
}

proof fn lemma_ident_end_ext(s: Seq<char>, c: Seq<char>, i: int)
    requires
        0 <= i <= s.len(),
    ensures
        ident_end(with_trailing_comment(s, c), i) == ident_end(s, i),
    decreases s.len() - i,
{
    let t = with_trailing_comment(s, c);
    reveal_strlit(" // ");
    if i == s.len() {
        assert(t[i] == ' ');
    } else {
        assert(t[i] == s[i]);
        lemma_ident_end_ext(s, c, i + 1);
    }
}

proof fn lemma_digits_end_ext(s: Seq<char>, c: Seq<char>, i: int)
    requires
        0 <= i <= s.len(),
    ensures
        digits_end(with_trailing_comment(s, c), i) == digits_end(s, i),
    decreases s.len() - i,
{
    let t = with_trailing_comment(s, c);
    reveal_strlit(" // ");
    if i == s.len() {
        assert(t[i] == ' ');
    } else {
        assert(t[i] == s[i]);
        lemma_digits_end_ext(s, c, i + 1);
    }
}

proof fn lemma_scan_string_ext(s: Seq<char>, c: Seq<char>, i: int, acc: Seq<char>)
    requires
        0 <= i,
        scan_string(s, i, acc) is Ok,
    ensures
        scan_string(with_trailing_comment(s, c), i, acc) == scan_string(s, i, acc),
    decreases s.len() - i,
{
    let t = with_trailing_comment(s, c);
    assert(t[i] == s[i]);
    if s[i] != '"' {
        if s[i] == '\\' {
            assert(t[i + 1] == s[i + 1]);
            if let Some(e) = escape_char(s[i + 1]) {
                lemma_scan_string_ext(s, c, i + 2, acc.push(e));
            }
        } else {
            lemma_scan_string_ext(s, c, i + 1, acc.push(s[i]));
        }
    }
}

/// Where a step in `s` moves on within `s`, the same step is taken in the
/// extended text; a comment step may instead run to the end of both.
proof fn lemma_lex_step_ext(s: Seq<char>, c: Seq<char>, pos: int)
    requires
        !c.contains('\n'),
        0 <= pos < s.len(),
        !(lex_step(s, pos) is Fail),
    ensures
        lex_step(with_trailing_comment(s, c), pos) == lex_step(s, pos) || (lex_step(s, pos) == LexStep::Skip(s.len() as int)
            && lex_step(with_trailing_comment(s, c), pos) == LexStep::Skip(with_trailing_comment(s, c).len() as int)),
{
    let t = with_trailing_comment(s, c);
    reveal_strlit(" // ");
    assert(t[pos] == s[pos]);
    if pos + 1 < s.len() {
        assert(t[pos + 1] == s[pos + 1]);
    } else {
        assert(t[pos + 1] == ' ');
    }
    assert(t.subrange(0, s.len() as int) =~= s);
    lemma_comment_end_ext(s, c, pos);
    lemma_ident_end_ext(s, c, pos + 1);
    lemma_digits_end_ext(s, c, pos + 1);
    lemma_digits_end_bounds(s, pos + 1);
    let j = digits_end(s, pos + 1);
    lemma_ident_end_bounds(s, pos + 1);
    if j < s.len() {
        assert(t[j] == s[j]);
        lemma_digits_end_bounds(s, j + 1);
        lemma_digits_end_ext(s, c, j + 1);
        if j + 1 < s.len() {
            assert(t[j + 1] == s[j + 1]);
        } else {
            assert(t[j + 1] == ' ');
        }
    } else {
        assert(t[j] == ' ');
    }
    if s[pos] == '"' {
        if scan_string(s, pos + 1, Seq::empty()) is Ok {
            lemma_scan_string_ext(s, c, pos + 1, Seq::empty());
        }
    }
    assert(t.subrange(pos, j) =~= s.subrange(pos, j));
    if j + 1 < s.len() {
        let k = digits_end(s, j + 1);
        assert(t.subrange(pos, k) =~= s.subrange(pos, k));
    }
    assert(t.subrange(pos, ident_end(s, pos + 1)) =~= s.subrange(pos, ident_end(s, pos + 1)));
}

proof fn lemma_lex_from_ext(s: Seq<char>, c: Seq<char>, pos: int)
    requires
        !c.contains('\n'),
        0 <= pos <= s.len(),
        lex_from(s, pos) is Ok,
    ensures
        lex_from(with_trailing_comment(s, c), pos) == lex_from(s, pos),
    decreases s.len() - pos,
{
    let t = with_trailing_comment(s, c);
    reveal_strlit(" // ");
    if pos == s.len() {
        let n: int = s.len() as int + 1;
        assert(t[pos] == ' ');
        assert(t[n] == '/' && t[n + 1] == '/');
        lemma_comment_tail(s, c, n);
        assert(lex_step(t, n) == LexStep::Skip(t.len() as int));
        assert(lex_from(t, t.len() as int) == Ok::<Seq<TokenV>, Seq<char>>(seq![eof_token()]));
        assert(lex_from(t, n as int) == lex_from(t, t.len() as int));
    } else {
        lemma_lex_step_progress(s, pos);
        lemma_lex_step_ext(s, c, pos);
        match lex_step(s, pos) {
            LexStep::Skip(n) => {
                if lex_step(t, pos) == lex_step(s, pos) {
                    lemma_lex_from_ext(s, c, n);
                } else {
                    assert(lex_from(t, t.len() as int) == Ok::<Seq<TokenV>, Seq<char>>(seq![eof_token()]));
                }
            },
            LexStep::Emit(_, n) => {
                lemma_lex_from_ext(s, c, n);
            },
            LexStep::Fail(_) => {},
        }
    }
}

/// A line comment at the end of a source adds no tokens: where `s` lexes,
/// `s` followed by a space, `//` and any text without a newline lexes to the
/// same tokens.
pub proof fn law_trailing_comment(s: Seq<char>, c: Seq<char>)
    requires
        !c.contains('\n'),
        lex_source(s) is Ok,
    ensures
        lex_source(with_trailing_comment(s, c)) == lex_source(s),
{
    let t = with_trailing_comment(s, c);
    reveal_strlit(" // ");
    if s.len() >= 2 {
        assert(t[0] == s[0] && t[1] == s[1]);
    } else if s.len() == 1 {
        assert(t[1] == ' ');
    }
    lemma_comment_end_ext(s, c, 0);
    let p = shebang_end(s);
    if s.len() >= 2 && s[0] == '#' && s[1] == '!' {
        if s.len() > 0 {
            lemma_comment_end_bounds(s, 0);
        }
        if comment_end(t, 0) == comment_end(s, 0) {
            lemma_lex_from_ext(s, c, p);
        } else {
            assert(lex_from(t, t.len() as int) == Ok::<Seq<TokenV>, Seq<char>>(seq![eof_token()]));
        }
    } else {
        lemma_lex_from_ext(s, c, 0);
    }
}


// ---------------------------------------------------------------------------
// Outside text written as a string literal.
// ---------------------------------------------------------------------------

/// What a character of outside text stands for once it has been written with
/// `escape_text` and read back: a carriage return is gone, a newline is a space.
pub open spec fn read_back_char(c: char) -> Seq<char> {
    if c == '\r' {
        Seq::empty()
    } else if c == '\n' {
        seq![' ']
    } else {
        seq![c]
    }
}

/// The text that a string literal holding `escape_text(s)` stands for.
pub open spec fn read_back_text(s: Seq<char>) -> Seq<char>
    decreases s.len(),
{
    if s.len() == 0 {
        Seq::empty()
    } else {
        read_back_text(s.drop_last()) + read_back_char(s.last())
    }
}

proof fn lemma_escape_text_first(s: Seq<char>)
    requires
        s.len() > 0,
    ensures
        escape_text(s) == crate::text::escape_char(s[0]) + escape_text(s.drop_first()),
        read_back_text(s) == read_back_char(s[0]) + read_back_text(s.drop_first()),
    decreases s.len(),
{
    if s.len() == 1 {
        assert(s.drop_last() =~= Seq::<char>::empty());
        assert(s.drop_first() =~= Seq::<char>::empty());
        assert(escape_text(s.drop_first()) =~= Seq::<char>::empty());
        assert(read_back_text(s.drop_first()) =~= Seq::<char>::empty());
        assert(escape_text(s) =~= crate::text::escape_char(s[0]));
        assert(read_back_text(s) =~= read_back_char(s[0]));
    } else {
        lemma_escape_text_first(s.drop_last());
        assert(s.drop_first().drop_last() =~= s.drop_last().drop_first());
        assert(s.drop_first().last() == s.last());
        assert(escape_text(s) =~= crate::text::escape_char(s[0]) + escape_text(s.drop_first()));
        assert(read_back_text(s) =~= read_back_char(s[0]) + read_back_text(s.drop_first()));
    }
}

/// Reading a string literal through `escape_text(s)` adds `read_back_text(s)`.
proof fn lemma_scan_escaped(cs: Seq<char>, i: int, s: Seq<char>, acc: Seq<char>)
    requires
        0 <= i,
        i + escape_text(s).len() <= cs.len(),
        cs.subrange(i, i + escape_text(s).len()) == escape_text(s),
    ensures
        scan_string(cs, i, acc) == scan_string(cs, i + escape_text(s).len(), acc + read_back_text(s)),
    decreases s.len(),
{
    if s.len() == 0 {
        assert(acc + read_back_text(s) =~= acc);
    } else {
        lemma_escape_text_first(s);
        let c = s[0];
        let rest = s.drop_first();
        let e = crate::text::escape_char(c);
        let n = escape_text(rest).len();
        assert(escape_text(s).len() == e.len() + n);
        assert forall|k: int| 0 <= k < e.len() implies cs[i + k] == #[trigger] e[k] by {
            assert(cs.subrange(i, i + escape_text(s).len())[k] == escape_text(s)[k]);
        }
        assert(cs.subrange(i + e.len(), i + e.len() + n) =~= escape_text(rest)) by {
            assert forall|k: int| 0 <= k < n implies cs.subrange(i + e.len(), i + e.len() + n)[k] == escape_text(rest)[k] by {
                assert(cs.subrange(i, i + escape_text(s).len())[e.len() + k] == escape_text(s)[e.len() + k]);
            }
        }
        let acc2 = acc + read_back_char(c);
        lemma_scan_escaped(cs, i + e.len(), rest, acc2);
        assert(acc2 + read_back_text(rest) =~= acc + read_back_text(s));
        if c == '\\' {
            assert(cs[i] == '\\' && cs[i + 1] == '\\');
            assert(acc.push('\\') =~= acc2);
        } else if c == '"' {
            assert(cs[i] == '\\' && cs[i + 1] == '"');
            assert(acc.push('"') =~= acc2);
        } else if c == '\r' {
            assert(acc2 =~= acc);
        } else if c == '\n' {
            assert(e[0] == ' ');
            assert(cs[i] == ' ');
            assert(acc.push(' ') =~= acc2);
        } else {
            assert(e[0] == c);
            assert(cs[i] == c);
            assert(acc.push(c) =~= acc2);
        }
    }
}

/// Outside text written with `escape_text` between double quotes lexes back
/// to a single string token: the text itself, with carriage returns dropped
/// and newlines turned into spaces.
pub proof fn law_escaped_text_lexes_back(s: Seq<char>)
    ensures
        lex_source(seq!['"'] + escape_text(s) + seq!['"']) == Ok::<Seq<TokenV>, Seq<char>>(
            seq![TokenV { kind: KindV::Str(read_back_text(s)), lexeme: read_back_text(s) }, eof_token()],
        ),
{
    let q = seq!['"'] + escape_text(s) + seq!['"'];
    let n: int = escape_text(s).len() as int;
    let v = read_back_text(s);
    assert(q[0] == '"');
    assert(q[n + 1] == '"');
    assert(q.subrange(1, 1 + n) =~= escape_text(s));
    lemma_scan_escaped(q, 1, s, Seq::empty());
    assert(Seq::<char>::empty() + v =~= v);
    assert(scan_string(q, 1 + n, v) == Ok::<(Seq<char>, int), Seq<char>>((v, n + 2)));
    assert(shebang_end(q) == 0);
    assert(lex_step(q, 0) == emit(KindV::Str(v), v, n + 2));
    assert(lex_from(q, n + 2) == Ok::<Seq<TokenV>, Seq<char>>(seq![eof_token()]));
    assert(seq![TokenV { kind: KindV::Str(v), lexeme: v }] + seq![eof_token()] =~= seq![
        TokenV { kind: KindV::Str(v), lexeme: v },
        eof_token(),
    ]);
}


// ---------------------------------------------------------------------------
// The source of a call by name.
// ---------------------------------------------------------------------------

/// An ASCII letter, digit or underscore.
pub open spec fn is_name_char(c: char) -> bool {
    ('a' <= c && c <= 'z') || ('A' <= c && c <= 'Z') || ('0' <= c && c <= '9') || c == '_'
}

/// The words the language reserves.
pub open spec fn is_keyword_text(n: Seq<char>) -> bool {
    n == "let"@ || n == "mut"@ || n == "fn"@ || n == "match"@ || n == "true"@ || n == "false"@ || n == "None"@
}

/// A name: ASCII letters, digits and underscores, not starting with a digit,
/// and not a reserved word.
pub open spec fn is_plain_name(n: Seq<char>) -> bool {
    &&& n.len() > 0
    &&& !('0' <= n[0] && n[0] <= '9')
    &&& forall|k: int| 0 <= k < n.len() ==> is_name_char(#[trigger] n[k])
    &&& !is_keyword_text(n)
}

/// What the lexer's own predicates say of a name.
proof fn lemma_plain_name_scans(n: Seq<char>)
    requires
        is_plain_name(n),
    ensures
        ident_start_char(n[0]),
        forall|k: int| 0 <= k < n.len() ==> ident_continue_char(#[trigger] n[k]),
        word_kind(n) == KindV::Ident(n),
{
    assert(is_name_char(n[0]));
    assert forall|k: int| 0 <= k < n.len() implies ident_continue_char(#[trigger] n[k]) by {
        assert(is_name_char(n[k]));
    }
}

/// A token with its lexeme.
pub open spec fn token_of(kind: KindV, lexeme: Seq<char>) -> TokenV {
    TokenV { kind, lexeme }
}

/// The name at the start of `q` lexes as one identifier token, and lexing
/// goes on just after it.
proof fn lemma_lex_name_first(q: Seq<char>, n: Seq<char>)
    requires
        is_plain_name(n),
        n.len() < q.len(),
        q.subrange(0, n.len() as int) == n,
        !ident_continue_char(q[n.len() as int]),
    ensures
        shebang_end(q) == 0,
        lex_step(q, 0) == emit(KindV::Ident(n), n, n.len() as int),
{
    lemma_plain_name_scans(n);
    assert(q[0] == q.subrange(0, n.len() as int)[0]);
    lemma_ident_end_name(q, n, 1);
}

proof fn lemma_ident_end_name(q: Seq<char>, n: Seq<char>, i: int)
    requires
        is_plain_name(n),
        n.len() < q.len(),
        q.subrange(0, n.len() as int) == n,
        !ident_continue_char(q[n.len() as int]),
        1 <= i <= n.len(),
    ensures
        ident_end(q, i) == n.len(),
    decreases n.len() - i,
{
    if i < n.len() {
        lemma_plain_name_scans(n);
        assert(q[i] == q.subrange(0, n.len() as int)[i]);
        assert(ident_continue_char(n[i]));
        lemma_ident_end_name(q, n, i + 1);
    }
}

/// The source of a call with no arguments, `name()`, lexes to the name, `(`,
/// `)` and the end of input.
pub proof fn law_call0_text_lexes(name: Seq<char>)
    requires
        is_plain_name(name),
    ensures
        lex_source(crate::text::call0_text(name)) == Ok::<Seq<TokenV>, Seq<char>>(
            seq![
                token_of(KindV::Ident(name), name),
                token_of(KindV::LParen, "("@),
                token_of(KindV::RParen, ")"@),
                eof_token(),
            ],
        ),
{
    let q = crate::text::call0_text(name);
    let m = name.len() as int;
    reveal_strlit("()");
    assert(q.subrange(0, m) =~= name);
    assert(q[m] == '(' && q[m + 1] == ')');
    lemma_lex_name_first(q, name);
    assert(lex_from(q, m + 2) == Ok::<Seq<TokenV>, Seq<char>>(seq![eof_token()]));
    let t3 = seq![token_of(KindV::RParen, ")"@)] + seq![eof_token()];
    assert(lex_from(q, m + 1) == Ok::<Seq<TokenV>, Seq<char>>(t3));
    let t2 = seq![token_of(KindV::LParen, "("@)] + t3;
    assert(lex_from(q, m) == Ok::<Seq<TokenV>, Seq<char>>(t2));
    let t1 = seq![token_of(KindV::Ident(name), name)] + t2;
    assert(lex_from(q, 0) == Ok::<Seq<TokenV>, Seq<char>>(t1));
    assert(t1 =~= seq![
        token_of(KindV::Ident(name), name),
        token_of(KindV::LParen, "("@),
        token_of(KindV::RParen, ")"@),
        eof_token(),
    ]);
}

/// The source of a call with one argument, `name("…")`, lexes to the name,
/// `(`, one string token holding the argument (carriage returns dropped,
/// newlines turned into spaces), `)` and the end of input: whatever the
/// argument holds, it neither ends the literal early nor adds tokens.
pub proof fn law_call1_text_lexes(name: Seq<char>, arg: Seq<char>)
    requires
        is_plain_name(name),
    ensures
        lex_source(crate::text::call1_text(name, arg)) == Ok::<Seq<TokenV>, Seq<char>>(
            seq![
                token_of(KindV::Ident(name), name),
                token_of(KindV::LParen, "("@),
                token_of(KindV::Str(read_back_text(arg)), read_back_text(arg)),
                token_of(KindV::RParen, ")"@),
                eof_token(),
            ],
        ),
{
    let q = crate::text::call1_text(name, arg);
    let m = name.len() as int;
    let n = escape_text(arg).len() as int;
    let v = read_back_text(arg);
    reveal_strlit("(\"");
    reveal_strlit("\")");
    assert(q.len() == m + n + 4);
    assert(q.subrange(0, m) =~= name);
    assert(q[m] == '(' && q[m + 1] == '"');
    assert(q[m + n + 2] == '"' && q[m + n + 3] == ')');
    assert(q.subrange(m + 2, m + 2 + n) =~= escape_text(arg));
    lemma_lex_name_first(q, name);
    lemma_scan_escaped(q, m + 2, arg, Seq::empty());
    assert(Seq::<char>::empty() + v =~= v);
    assert(scan_string(q, m + 2 + n, v) == Ok::<(Seq<char>, int), Seq<char>>((v, m + n + 3)));
    assert(lex_step(q, m + 1) == emit(KindV::Str(v), v, m + n + 3));
    assert(lex_from(q, m + n + 4) == Ok::<Seq<TokenV>, Seq<char>>(seq![eof_token()]));
    let t4 = seq![token_of(KindV::RParen, ")"@)] + seq![eof_token()];
    assert(lex_from(q, m + n + 3) == Ok::<Seq<TokenV>, Seq<char>>(t4));
    let t3 = seq![token_of(KindV::Str(v), v)] + t4;
    assert(lex_from(q, m + 1) == Ok::<Seq<TokenV>, Seq<char>>(t3));
    let t2 = seq![token_of(KindV::LParen, "("@)] + t3;
    assert(lex_from(q, m) == Ok::<Seq<TokenV>, Seq<char>>(t2));
    let t1 = seq![token_of(KindV::Ident(name), name)] + t2;
    assert(lex_from(q, 0) == Ok::<Seq<TokenV>, Seq<char>>(t1));
    assert(t1 =~= seq![
        token_of(KindV::Ident(name), name),
        token_of(KindV::LParen, "("@),
        token_of(KindV::Str(v), v),
        token_of(KindV::RParen, ")"@),
        eof_token(),
    ]);
}


proof fn lemma_ident_end_whole(n: Seq<char>, i: int)
    requires
        is_plain_name(n),
        1 <= i <= n.len(),
    ensures
        ident_end(n, i) == n.len(),
    decreases n.len() - i,
{
    lemma_plain_name_scans(n);
    if i < n.len() {
        assert(ident_continue_char(n[i]));
        lemma_ident_end_whole(n, i + 1);
    }
}

/// A name lexes as one identifier token over all of its characters.
pub proof fn law_name_lexes(n: Seq<char>)
    requires
        is_plain_name(n),
    ensures
        lex_source(n) == Ok::<Seq<TokenV>, Seq<char>>(seq![token_of(KindV::Ident(n), n), eof_token()]),
{
    lemma_plain_name_scans(n);
    lemma_ident_end_whole(n, 1);
    assert(n.subrange(0, n.len() as int) =~= n);
    assert(shebang_end(n) == 0);
    assert(lex_step(n, 0) == emit(KindV::Ident(n), n, n.len() as int));
    assert(lex_from(n, n.len() as int) == Ok::<Seq<TokenV>, Seq<char>>(seq![eof_token()]));
    assert(seq![token_of(KindV::Ident(n), n)] + seq![eof_token()] =~= seq![token_of(KindV::Ident(n), n), eof_token()]);
}

/// Each reserved word lexes as its own keyword token.
pub proof fn law_keywords_lex()
    ensures
        lex_source("let"@) == Ok::<Seq<TokenV>, Seq<char>>(seq![token_of(KindV::Let, "let"@), eof_token()]),
        lex_source("mut"@) == Ok::<Seq<TokenV>, Seq<char>>(seq![token_of(KindV::Mut, "mut"@), eof_token()]),
        lex_source("fn"@) == Ok::<Seq<TokenV>, Seq<char>>(seq![token_of(KindV::Fn, "fn"@), eof_token()]),
        lex_source("match"@) == Ok::<Seq<TokenV>, Seq<char>>(seq![token_of(KindV::Match, "match"@), eof_token()]),
        lex_source("true"@) == Ok::<Seq<TokenV>, Seq<char>>(seq![token_of(KindV::True, "true"@), eof_token()]),
        lex_source("false"@) == Ok::<Seq<TokenV>, Seq<char>>(seq![token_of(KindV::False, "false"@), eof_token()]),
        lex_source("None"@) == Ok::<Seq<TokenV>, Seq<char>>(seq![token_of(KindV::NoneLit, "None"@), eof_token()]),
{
    reveal_strlit("let");
    reveal_strlit("mut");
    reveal_strlit("fn");
    reveal_strlit("match");
    reveal_strlit("true");
    reveal_strlit("false");
    reveal_strlit("None");
    lemma_keyword_lexes("let"@);
    lemma_keyword_lexes("mut"@);
    lemma_keyword_lexes("fn"@);
    lemma_keyword_lexes("match"@);
    lemma_keyword_lexes("true"@);
    lemma_keyword_lexes("false"@);
    lemma_keyword_lexes("None"@);
    assert("let"@ != "mut"@ && "let"@ != "fn"@);
    assert("mut"@[0] != "let"@[0] && "mut"@ != "fn"@);
    assert("fn"@ != "let"@ && "fn"@ != "mut"@);
    assert("match"@ != "let"@ && "match"@ != "mut"@ && "match"@ != "fn"@);
    assert("true"@ != "let"@ && "true"@ != "mut"@ && "true"@ != "fn"@ && "true"@ != "match"@);
    assert("false"@[0] != "match"@[0]);
    assert("false"@ != "let"@ && "false"@ != "mut"@ && "false"@ != "fn"@ && "false"@ != "match"@ && "false"@ != "true"@);
    assert("None"@[0] != "true"@[0]);
    assert("None"@ != "let"@ && "None"@ != "mut"@ && "None"@ != "fn"@ && "None"@ != "match"@ && "None"@ != "true"@ && "None"@ != "false"@);
}

/// A word of ASCII letters lexes as one token: `word_kind` of the word.
proof fn lemma_keyword_lexes(w: Seq<char>)
    requires
        w.len() > 0,
        forall|k: int| 0 <= k < w.len() ==> is_alpha(#[trigger] w[k]),
    ensures
        lex_source(w) == Ok::<Seq<TokenV>, Seq<char>>(seq![token_of(word_kind(w), w), eof_token()]),
{
    assert(is_alpha(w[0]));
    lemma_alpha_ident_end(w, 1);
    assert(w.subrange(0, w.len() as int) =~= w);
    assert(shebang_end(w) == 0);
    assert(lex_step(w, 0) == emit(word_kind(w), w, w.len() as int));
    assert(lex_from(w, w.len() as int) == Ok::<Seq<TokenV>, Seq<char>>(seq![eof_token()]));
    assert(seq![token_of(word_kind(w), w)] + seq![eof_token()] =~= seq![token_of(word_kind(w), w), eof_token()]);
}

proof fn lemma_alpha_ident_end(w: Seq<char>, i: int)
    requires
        1 <= i <= w.len(),
        forall|k: int| 0 <= k < w.len() ==> is_alpha(#[trigger] w[k]),
    ensures
        ident_end(w, i) == w.len(),
    decreases w.len() - i,
{
    if i < w.len() {
        assert(is_alpha(w[i]));
        lemma_alpha_ident_end(w, i + 1);
    }
}


/// A text that the lexer reads in one step as one token.
proof fn lemma_one_token(t: Seq<char>, k: KindV)
    requires
        t.len() > 0,
        t[0] != '#',
        lex_step(t, 0) == emit(k, t, t.len() as int),
    ensures
        lex_source(t) == Ok::<Seq<TokenV>, Seq<char>>(seq![token_of(k, t), eof_token()]),
{
    assert(shebang_end(t) == 0);
    assert(lex_from(t, t.len() as int) == Ok::<Seq<TokenV>, Seq<char>>(seq![eof_token()]));
    assert(seq![token_of(k, t)] + seq![eof_token()] =~= seq![token_of(k, t), eof_token()]);
}

/// Each operator and punctuation mark lexes as its own token, the longer
/// of two that share a first character included.
pub proof fn law_operator_texts_lex()
    ensures
        lex_source("+"@) == Ok::<Seq<TokenV>, Seq<char>>(seq![token_of(KindV::Plus, "+"@), eof_token()]),
        lex_source("-"@) == Ok::<Seq<TokenV>, Seq<char>>(seq![token_of(KindV::Minus, "-"@), eof_token()]),
        lex_source("->"@) == Ok::<Seq<TokenV>, Seq<char>>(seq![token_of(KindV::Arrow, "->"@), eof_token()]),
        lex_source("*"@) == Ok::<Seq<TokenV>, Seq<char>>(seq![token_of(KindV::Star, "*"@), eof_token()]),
        lex_source("/"@) == Ok::<Seq<TokenV>, Seq<char>>(seq![token_of(KindV::Slash, "/"@), eof_token()]),
        lex_source("%"@) == Ok::<Seq<TokenV>, Seq<char>>(seq![token_of(KindV::Percent, "%"@), eof_token()]),
        lex_source("^"@) == Ok::<Seq<TokenV>, Seq<char>>(seq![token_of(KindV::Caret, "^"@), eof_token()]),
        lex_source("!"@) == Ok::<Seq<TokenV>, Seq<char>>(seq![token_of(KindV::Bang, "!"@), eof_token()]),
        lex_source("="@) == Ok::<Seq<TokenV>, Seq<char>>(seq![token_of(KindV::Eq, "="@), eof_token()]),
        lex_source("=="@) == Ok::<Seq<TokenV>, Seq<char>>(seq![token_of(KindV::EqEq, "=="@), eof_token()]),
        lex_source("!="@) == Ok::<Seq<TokenV>, Seq<char>>(seq![token_of(KindV::Ne, "!="@), eof_token()]),
        lex_source("<"@) == Ok::<Seq<TokenV>, Seq<char>>(seq![token_of(KindV::Lt, "<"@), eof_token()]),
        lex_source("<="@) == Ok::<Seq<TokenV>, Seq<char>>(seq![token_of(KindV::Le, "<="@), eof_token()]),
        lex_source(">"@) == Ok::<Seq<TokenV>, Seq<char>>(seq![token_of(KindV::Gt, ">"@), eof_token()]),
        lex_source(">="@) == Ok::<Seq<TokenV>, Seq<char>>(seq![token_of(KindV::Ge, ">="@), eof_token()]),
        lex_source("&&"@) == Ok::<Seq<TokenV>, Seq<char>>(seq![token_of(KindV::AndAnd, "&&"@), eof_token()]),
        lex_source("||"@) == Ok::<Seq<TokenV>, Seq<char>>(seq![token_of(KindV::OrOr, "||"@), eof_token()]),
        lex_source("|>"@) == Ok::<Seq<TokenV>, Seq<char>>(seq![token_of(KindV::PipeGt, "|>"@), eof_token()]),
        lex_source("("@) == Ok::<Seq<TokenV>, Seq<char>>(seq![token_of(KindV::LParen, "("@), eof_token()]),
        lex_source(")"@) == Ok::<Seq<TokenV>, Seq<char>>(seq![token_of(KindV::RParen, ")"@), eof_token()]),
        lex_source("{"@) == Ok::<Seq<TokenV>, Seq<char>>(seq![token_of(KindV::LBrace, "{"@), eof_token()]),
        lex_source("}"@) == Ok::<Seq<TokenV>, Seq<char>>(seq![token_of(KindV::RBrace, "}"@), eof_token()]),
        lex_source(","@) == Ok::<Seq<TokenV>, Seq<char>>(seq![token_of(KindV::Comma, ","@), eof_token()]),
        lex_source(":"@) == Ok::<Seq<TokenV>, Seq<char>>(seq![token_of(KindV::Colon, ":"@), eof_token()]),
        lex_source(";"@) == Ok::<Seq<TokenV>, Seq<char>>(seq![token_of(KindV::Semi, ";"@), eof_token()]),
{
    reveal_strlit("+");
    lemma_one_token("+"@, KindV::Plus);
    reveal_strlit("-");
    lemma_one_token("-"@, KindV::Minus);
    reveal_strlit("->");
    lemma_one_token("->"@, KindV::Arrow);
    reveal_strlit("*");
    lemma_one_token("*"@, KindV::Star);
    reveal_strlit("/");
    lemma_one_token("/"@, KindV::Slash);
    reveal_strlit("%");
    lemma_one_token("%"@, KindV::Percent);
    reveal_strlit("^");
    lemma_one_token("^"@, KindV::Caret);
    reveal_strlit("!");
    lemma_one_token("!"@, KindV::Bang);
    reveal_strlit("=");
    lemma_one_token("="@, KindV::Eq);
    reveal_strlit("==");
    lemma_one_token("=="@, KindV::EqEq);
    reveal_strlit("!=");
    lemma_one_token("!="@, KindV::Ne);
    reveal_strlit("<");
    lemma_one_token("<"@, KindV::Lt);
    reveal_strlit("<=");
    lemma_one_token("<="@, KindV::Le);
    reveal_strlit(">");
    lemma_one_token(">"@, KindV::Gt);
    reveal_strlit(">=");
    lemma_one_token(">="@, KindV::Ge);
    reveal_strlit("&&");
    lemma_one_token("&&"@, KindV::AndAnd);
    reveal_strlit("||");
    lemma_one_token("||"@, KindV::OrOr);
    reveal_strlit("|>");
    lemma_one_token("|>"@, KindV::PipeGt);
    reveal_strlit("(");
    lemma_one_token("("@, KindV::LParen);
    reveal_strlit(")");
    lemma_one_token(")"@, KindV::RParen);
    reveal_strlit("{");
    lemma_one_token("{"@, KindV::LBrace);
    reveal_strlit("}");
    lemma_one_token("}"@, KindV::RBrace);
    reveal_strlit(",");
    lemma_one_token(","@, KindV::Comma);
    reveal_strlit(":");
    lemma_one_token(":"@, KindV::Colon);
    reveal_strlit(";");
    lemma_one_token(";"@, KindV::Semi);
}


proof fn lemma_digit_char(d: nat)
    requires
        d < 10,
    ensures
        is_digit(crate::text::digit_char(d)),
        digit_value(crate::text::digit_char(d)) == d,
{
}

/// A number's decimal text is all digits and denotes the number.
proof fn lemma_decimal_digits(n: nat)
    ensures
        crate::text::decimal(n).len() > 0,
        forall|k: int| 0 <= k < crate::text::decimal(n).len() ==> is_digit(#[trigger] crate::text::decimal(n)[k]),
        digits_value(crate::text::decimal(n)) == n,
    decreases n,
{
    let s = crate::text::decimal(n);
    if n < 10 {
        lemma_digit_char(n);
        assert(s.drop_last() =~= Seq::<char>::empty());
        assert(s[0] == crate::text::digit_char(n));
        assert(digits_value(s) == digits_value(s.drop_last()) * 10 + digit_value(s.last()));
        assert(digits_value(Seq::<char>::empty()) == 0);
    } else {
        lemma_decimal_digits(n / 10);
        lemma_digit_char(n % 10);
        let t = crate::text::decimal(n / 10);
        assert(s.drop_last() =~= t);
        assert forall|k: int| 0 <= k < s.len() implies is_digit(#[trigger] s[k]) by {
            if k < t.len() {
                assert(s[k] == t[k]);
            }
        }
        assert(s.last() == crate::text::digit_char(n % 10));
        assert(digits_value(s) == digits_value(t) * 10 + digit_value(s.last()));
        assert(n == (n / 10) * 10 + n % 10);
    }
}

proof fn lemma_digits_end_all(cs: Seq<char>, i: int)
    requires
        0 <= i <= cs.len(),
        forall|k: int| 0 <= k < cs.len() ==> is_digit(#[trigger] cs[k]),
    ensures
        digits_end(cs, i) == cs.len(),
    decreases cs.len() - i,
{
    if i < cs.len() {
        assert(is_digit(cs[i]));
        lemma_digits_end_all(cs, i + 1);
    }
}

/// The decimal text of a number that fits in an `i64` lexes back to that
/// number.
pub proof fn law_decimal_lexes_back(n: nat)
    requires
        n <= i64::MAX,
    ensures
        lex_source(crate::text::decimal(n)) == Ok::<Seq<TokenV>, Seq<char>>(
            seq![token_of(KindV::Int(n as i64), crate::text::decimal(n)), eof_token()],
        ),
{
    let q = crate::text::decimal(n);
    lemma_decimal_digits(n);
    lemma_digits_end_all(q, 1);
    assert(is_digit(q[0]));
    assert(q.subrange(0, q.len() as int) =~= q);
    assert(lex_number_step(q, 0) == emit(KindV::Int(n as i64), q, q.len() as int));
    assert(lex_step(q, 0) == emit(KindV::Int(n as i64), q, q.len() as int));
    lemma_one_token(q, KindV::Int(n as i64));
}


/// The string literal holding just the escape `\c`.
pub open spec fn escaped_literal(c: char) -> Seq<char> {
    seq!['"', '\\', c, '"']
}

proof fn lemma_escape_literal(c: char, e: char)
    requires
        escape_char(c) == Some(e),
    ensures
        lex_source(escaped_literal(c)) == Ok::<Seq<TokenV>, Seq<char>>(seq![token_of(KindV::Str(seq![e]), seq![e]), eof_token()]),
{
    let q = escaped_literal(c);
    assert(seq![].push(e) =~= seq![e]);
    assert(scan_string(q, 4, seq![e]) == Err::<(Seq<char>, int), Seq<char>>("Unterminated string literal"@));
    assert(scan_string(q, 3, seq![e]) == Ok::<(Seq<char>, int), Seq<char>>((seq![e], 4)));
    assert(scan_string(q, 1, Seq::empty()) == Ok::<(Seq<char>, int), Seq<char>>((seq![e], 4)));
    assert(shebang_end(q) == 0);
    assert(lex_step(q, 0) == emit(KindV::Str(seq![e]), seq![e], 4));
    assert(lex_from(q, 4) == Ok::<Seq<TokenV>, Seq<char>>(seq![eof_token()]));
    assert(seq![token_of(KindV::Str(seq![e]), seq![e])] + seq![eof_token()] =~= seq![
        token_of(KindV::Str(seq![e]), seq![e]),
        eof_token(),
    ]);
}

/// The escapes of a string literal: `\n` is a newline, `\t` a tab, `\r` a
/// carriage return, `\"` a quote and `\\` a backslash.
pub proof fn law_string_escapes()
    ensures
        lex_source(escaped_literal('n')) == Ok::<Seq<TokenV>, Seq<char>>(seq![token_of(KindV::Str(seq!['\n']), seq!['\n']), eof_token()]),
        lex_source(escaped_literal('t')) == Ok::<Seq<TokenV>, Seq<char>>(seq![token_of(KindV::Str(seq!['\t']), seq!['\t']), eof_token()]),
        lex_source(escaped_literal('r')) == Ok::<Seq<TokenV>, Seq<char>>(seq![token_of(KindV::Str(seq!['\r']), seq!['\r']), eof_token()]),
        lex_source(escaped_literal('"')) == Ok::<Seq<TokenV>, Seq<char>>(seq![token_of(KindV::Str(seq!['"']), seq!['"']), eof_token()]),
        lex_source(escaped_literal('\\')) == Ok::<Seq<TokenV>, Seq<char>>(seq![token_of(KindV::Str(seq!['\\']), seq!['\\']), eof_token()]),
{
    lemma_escape_literal('n', '\n');
    lemma_escape_literal('t', '\t');
    lemma_escape_literal('r', '\r');
    lemma_escape_literal('"', '"');
    lemma_escape_literal('\\', '\\');
}

} // verus!
