use vstd::prelude::*;

use crate::ast::{
    all_pipe_free, arms_model, arms_pipe_free, exprs_model, lemma_all_pipe_free_concat, pipe_free,
    program_pipe_free, stmt_pipe_free, stmts_view, ArmV, BinaryOp, Expr, ExprV, MatchArm, Pattern,
    Stmt, StmtV, UnaryOp,
};
use crate::error::{EiriadError, EiriadResult};
use crate::lexer::{Token, TokenKind};

verus! {

// ---------------------------------------------------------------------------
// The grammar, as spec functions over a token sequence.
//
// Every parsing function takes the tokens and a position and gives either
// the parsed value with the number of tokens it consumed, or an error
// message. Positions past the end read as the end-of-input token.
// ---------------------------------------------------------------------------

/// A parsed value and the number of tokens it took, or an error message.
pub type PRes<T> = Result<(T, nat), Seq<char>>;

/// The tokens left from position `p` (zero past the end).
pub open spec fn rem(ts: Seq<Token>, p: int) -> nat {
    if p < ts.len() {
        (ts.len() - p) as nat
    } else {
        0
    }
}

/// The kind of the token at `p`; past either end it reads as `Eof`.
pub open spec fn kind_at(ts: Seq<Token>, p: int) -> TokenKind {
    if 0 <= p < ts.len() {
        ts[p].kind
    } else {
        TokenKind::Eof
    }
}

/// The text of the token at `p`.
pub open spec fn lexeme_at(ts: Seq<Token>, p: int) -> Seq<char> {
    if 0 <= p < ts.len() {
        ts[p].lexeme@
    } else {
        Seq::empty()
    }
}

/// Adds `k` to the count of tokens consumed.
pub open spec fn shift<T>(r: PRes<T>, k: nat) -> PRes<T> {
    match r {
        Ok((v, c)) => Ok((v, c + k)),
        Err(m) => Err(m),
    }
}

pub open spec fn is_terminator(k: TokenKind) -> bool {
    k is Newline || k is Semi
}

/// The number of statement terminators (newlines and `;`) from `p` on.
pub open spec fn skip_terms(ts: Seq<Token>, p: int) -> nat
    decreases rem(ts, p),
{
    if is_terminator(kind_at(ts, p)) {
        1 + skip_terms(ts, p + 1)
    } else {
        0
    }
}

/// The number of tokens a type annotation in a declaration takes from `p`:
/// up to an `=` outside brackets, or the end.
pub open spec fn skip_decl_type(ts: Seq<Token>, p: int, depth: nat) -> nat
    decreases rem(ts, p),
{
    let k = kind_at(ts, p);
    if k is Eof {
        0
    } else if k is Lt || k is LParen {
        1 + skip_decl_type(ts, p + 1, depth + 1)
    } else if k is Gt || k is RParen {
        1 + skip_decl_type(ts, p + 1, if depth > 0 { (depth - 1) as nat } else { 0 })
    } else if k is Eq && depth == 0 {
        0
    } else {
        1 + skip_decl_type(ts, p + 1, depth)
    }
}

/// The number of tokens a parameter's type annotation takes from `p`:
/// up to a `,` or a closing bracket outside brackets, or the end.
pub open spec fn skip_param_type(ts: Seq<Token>, p: int, depth: nat) -> nat
    decreases rem(ts, p),
{
    let k = kind_at(ts, p);
    if k is Eof {
        0
    } else if k is LParen || k is Lt {
        1 + skip_param_type(ts, p + 1, depth + 1)
    } else if k is RParen || k is Gt {
        if depth == 0 {
            0
        } else {
            1 + skip_param_type(ts, p + 1, (depth - 1) as nat)
        }
    } else if k is Comma && depth == 0 {
        0
    } else {
        1 + skip_param_type(ts, p + 1, depth)
    }
}

/// The number of tokens a return type takes from `p`: up to `{`, a
/// terminator, or the end.
pub open spec fn skip_return_type(ts: Seq<Token>, p: int) -> nat
    decreases rem(ts, p),
{
    let k = kind_at(ts, p);
    if k is Eof || k is LBrace || is_terminator(k) {
        0
    } else {
        1 + skip_return_type(ts, p + 1)
    }
}

/// The number of tokens after a parameter name that its optional `: Type` takes.
pub open spec fn param_type_len(ts: Seq<Token>, q: int) -> nat {
    if kind_at(ts, q) is Colon {
        1 + skip_param_type(ts, q + 1, 0)
    } else {
        0
    }
}

/// A comma-separated list of parameter names (with optional types) from `p`,
/// appended to `acc`.
pub open spec fn fn_params(ts: Seq<Token>, p: int, acc: Seq<String>) -> PRes<Seq<String>>
    decreases rem(ts, p),
{
    match kind_at(ts, p) {
        TokenKind::Ident(name) => {
            let q = p + 1 + param_type_len(ts, p + 1);
            if kind_at(ts, q) is Comma {
                shift(fn_params(ts, q + 1, acc.push(name)), (q + 1 - p) as nat)
            } else {
                Ok((acc.push(name), (q - p) as nat))
            }
        },
        _ => Err("Expected identifier"@),
    }
}

/// What a scan for lambda parameters found: the names, the tokens it took,
/// and whether it stopped where a lambda may close.
pub struct LambdaScan {
    pub params: Seq<String>,
    pub len: nat,
    pub ok: bool,
}

/// Scans `name (: Type)? (, ...)*` from `p` as lambda parameters.
pub open spec fn lambda_scan(ts: Seq<Token>, p: int, acc: Seq<String>) -> LambdaScan
    decreases rem(ts, p),
{
    match kind_at(ts, p) {
        TokenKind::Ident(name) => {
            let q = p + 1 + param_type_len(ts, p + 1);
            if kind_at(ts, q) is Comma {
                let r = lambda_scan(ts, q + 1, acc.push(name));
                LambdaScan { params: r.params, len: r.len + (q + 1 - p) as nat, ok: r.ok }
            } else {
                LambdaScan { params: acc.push(name), len: (q - p) as nat, ok: true }
            }
        },
        _ => LambdaScan { params: acc, len: 0, ok: false },
    }
}

/// The parameters scanned after the `(` at `p - 1`.
pub open spec fn lambda_params(ts: Seq<Token>, p: int) -> LambdaScan {
    if kind_at(ts, p) is RParen {
        LambdaScan { params: Seq::empty(), len: 0, ok: true }
    } else {
        lambda_scan(ts, p, Seq::empty())
    }
}

/// A match pattern from `p`.
pub open spec fn parse_pattern(ts: Seq<Token>, p: int) -> PRes<Pattern>
    decreases rem(ts, p),
{
    match kind_at(ts, p) {
        TokenKind::NoneLit => Ok((Pattern::NonePat, 1)),
        TokenKind::Ident(name) => {
            if name@ == "_"@ {
                Ok((Pattern::Wildcard, 1))
            } else if name@ == "Some"@ || name@ == "Ok"@ || name@ == "Err"@ {
                let open_msg = if name@ == "Some"@ {
                    "Expected '(' after Some"@
                } else if name@ == "Ok"@ {
                    "Expected '(' after Ok"@
                } else {
                    "Expected '(' after Err"@
                };
                let close_msg = if name@ == "Some"@ {
                    "Expected ')' after Some pattern"@
                } else if name@ == "Ok"@ {
                    "Expected ')' after Ok pattern"@
                } else {
                    "Expected ')' after Err pattern"@
                };
                if kind_at(ts, p + 1) is LParen {
                    match parse_pattern(ts, p + 2) {
                        Ok((inner, c)) => if kind_at(ts, p + 2 + c) is RParen {
                            let pat = if name@ == "Some"@ {
                                Pattern::SomePat(Box::new(inner))
                            } else if name@ == "Ok"@ {
                                Pattern::OkPat(Box::new(inner))
                            } else {
                                Pattern::ErrPat(Box::new(inner))
                            };
                            Ok((pat, c + 3))
                        } else {
                            Err(close_msg)
                        },
                        Err(m) => Err(m),
                    }
                } else {
                    Err(open_msg)
                }
            } else {
                Ok((Pattern::Ident(name), 1))
            }
        },
        _ => Err("Invalid match pattern"@),
    }
}

/// `left |> right`: the call `right` with `left` put first among its
/// arguments, or the name `right` called with `left` alone.
pub open spec fn rewrite_pipe_spec(left: ExprV, right: ExprV) -> Result<ExprV, Seq<char>> {
    match right {
        ExprV::Call { callee, args } => Ok(ExprV::Call { callee, args: seq![left] + args }),
        ExprV::Ident(name) => Ok(ExprV::Call { callee: Box::new(ExprV::Ident(name)), args: seq![left] }),
        _ => Err("Right side of '|>' must be a function call or function name"@),
    }
}

/// The precedence levels of left-associative binary operators, loosest first.
#[derive(Clone, Copy, PartialEq, Eq, Structural)]
pub enum Level {
    Or,
    And,
    Equality,
    Comparison,
    Term,
    Factor,
}

pub open spec fn level_rank(l: Level) -> nat {
    match l {
        Level::Or => 18,
        Level::And => 17,
        Level::Equality => 16,
        Level::Comparison => 15,
        Level::Term => 14,
        Level::Factor => 13,
    }
}

/// The next tighter level (the factor level is followed by `^`).
pub open spec fn next_level(l: Level) -> Level {
    match l {
        Level::Or => Level::And,
        Level::And => Level::Equality,
        Level::Equality => Level::Comparison,
        Level::Comparison => Level::Term,
        Level::Term => Level::Factor,
        Level::Factor => Level::Factor,
    }
}

/// The operator that the token kind `k` denotes at level `l`, if any.
pub open spec fn level_op(l: Level, k: TokenKind) -> Option<BinaryOp> {
    match l {
        Level::Or => if k is OrOr { Some(BinaryOp::Or) } else { None },
        Level::And => if k is AndAnd { Some(BinaryOp::And) } else { None },
        Level::Equality => if k is EqEq {
            Some(BinaryOp::Eq)
        } else if k is Ne {
            Some(BinaryOp::Ne)
        } else {
            None
        },
        Level::Comparison => if k is Lt {
            Some(BinaryOp::Lt)
        } else if k is Le {
            Some(BinaryOp::Le)
        } else if k is Gt {
            Some(BinaryOp::Gt)
        } else if k is Ge {
            Some(BinaryOp::Ge)
        } else {
            None
        },
        Level::Term => if k is Plus {
            Some(BinaryOp::Add)
        } else if k is Minus {
            Some(BinaryOp::Sub)
        } else {
            None
        },
        Level::Factor => if k is Star {
            Some(BinaryOp::Mul)
        } else if k is Slash {
            Some(BinaryOp::Div)
        } else if k is Percent {
            Some(BinaryOp::Mod)
        } else {
            None
        },
    }
}

pub open spec fn binary(left: ExprV, op: BinaryOp, right: ExprV) -> ExprV {
    ExprV::Binary { left: Box::new(left), op, right: Box::new(right) }
}

/// An expression: a pipe chain.
pub open spec fn parse_expr(ts: Seq<Token>, p: int) -> PRes<ExprV>
    decreases rem(ts, p), 20nat, 0nat,
{
    match parse_level(ts, p, Level::Or) {
        Ok((left, c)) => shift(pipe_rest(ts, p + c, left), c),
        Err(m) => Err(m),
    }
}

/// `|> call` segments from `q`, applied to `left`.
pub open spec fn pipe_rest(ts: Seq<Token>, q: int, left: ExprV) -> PRes<ExprV>
    decreases rem(ts, q), 1nat, 0nat,
{
    if kind_at(ts, q) is PipeGt {
        match parse_call(ts, q + 1) {
            Ok((rhs, c)) => match rewrite_pipe_spec(left, rhs) {
                Ok(e) => shift(pipe_rest(ts, q + 1 + c, e), 1 + c),
                Err(m) => Err(m),
            },
            Err(m) => Err(m),
        }
    } else {
        Ok((left, 0))
    }
}

/// An operand of level `l`.
pub open spec fn parse_operand(ts: Seq<Token>, p: int, l: Level) -> PRes<ExprV>
    decreases rem(ts, p), level_rank(l), 1nat,
{
    if l is Factor {
        parse_power(ts, p)
    } else {
        parse_level(ts, p, next_level(l))
    }
}

/// A left-associative chain of level-`l` operators.
pub open spec fn parse_level(ts: Seq<Token>, p: int, l: Level) -> PRes<ExprV>
    decreases rem(ts, p), level_rank(l), 2nat,
{
    match parse_operand(ts, p, l) {
        Ok((left, c)) => shift(level_rest(ts, p + c, l, left), c),
        Err(m) => Err(m),
    }
}

/// Operator-operand pairs of level `l` from `q`, folded onto `left`.
pub open spec fn level_rest(ts: Seq<Token>, q: int, l: Level, left: ExprV) -> PRes<ExprV>
    decreases rem(ts, q), 1nat, 0nat,
{
    match level_op(l, kind_at(ts, q)) {
        Some(op) => match parse_operand(ts, q + 1, l) {
            Ok((right, c)) => shift(level_rest(ts, q + 1 + c, l, binary(left, op, right)), 1 + c),
            Err(m) => Err(m),
        },
        None => Ok((left, 0)),
    }
}

/// `unary (^ power)?`: exponentiation is right-associative.
pub open spec fn parse_power(ts: Seq<Token>, p: int) -> PRes<ExprV>
    decreases rem(ts, p), 12nat, 0nat,
{
    match parse_unary(ts, p) {
        Ok((e, c)) => if kind_at(ts, p + c) is Caret {
            match parse_power(ts, p + c + 1) {
                Ok((r, c2)) => Ok((binary(e, BinaryOp::Pow, r), c + 1 + c2)),
                Err(m) => Err(m),
            }
        } else {
            Ok((e, c))
        },
        Err(m) => Err(m),
    }
}

/// Prefix `!` and `-`, then a call.
pub open spec fn parse_unary(ts: Seq<Token>, p: int) -> PRes<ExprV>
    decreases rem(ts, p), 11nat, 0nat,
{
    let k = kind_at(ts, p);
    if k is Bang || k is Minus {
        let op = if k is Bang { UnaryOp::Not } else { UnaryOp::Neg };
        match parse_unary(ts, p + 1) {
            Ok((e, c)) => Ok((ExprV::Unary { op, expr: Box::new(e) }, c + 1)),
            Err(m) => Err(m),
        }
    } else {
        parse_call(ts, p)
    }
}

/// A primary expression followed by argument lists.
pub open spec fn parse_call(ts: Seq<Token>, p: int) -> PRes<ExprV>
    decreases rem(ts, p), 10nat, 0nat,
{
    match parse_primary(ts, p) {
        Ok((e, c)) => shift(call_rest(ts, p + c, e), c),
        Err(m) => Err(m),
    }
}

/// Argument lists from `q`, applied to `callee` in turn.
pub open spec fn call_rest(ts: Seq<Token>, q: int, callee: ExprV) -> PRes<ExprV>
    decreases rem(ts, q), 1nat, 0nat,
{
    if kind_at(ts, q) is LParen {
        let args = if kind_at(ts, q + 1) is RParen {
            Ok((Seq::empty(), 0))
        } else {
            parse_args(ts, q + 1, Seq::empty())
        };
        match args {
            Ok((args, ca)) => {
                let r = q + 1 + ca;
                if kind_at(ts, r) is RParen {
                    shift(call_rest(ts, r + 1, ExprV::Call { callee: Box::new(callee), args }), (r + 1 - q) as nat)
                } else {
                    Err("Expected ')' after arguments"@)
                }
            },
            Err(m) => Err(m),
        }
    } else {
        Ok((callee, 0))
    }
}

/// Comma-separated expressions from `q`, appended to `acc`.
pub open spec fn parse_args(ts: Seq<Token>, q: int, acc: Seq<ExprV>) -> PRes<Seq<ExprV>>
    decreases rem(ts, q), 21nat, 0nat,
{
    match parse_expr(ts, q) {
        Ok((a, c)) => if kind_at(ts, q + c) is Comma {
            shift(parse_args(ts, q + c + 1, acc.push(a)), c + 1)
        } else {
            Ok((acc.push(a), c))
        },
        Err(m) => Err(m),
    }
}

/// A literal, a name, a parenthesised expression or lambda, or a match.
pub open spec fn parse_primary(ts: Seq<Token>, p: int) -> PRes<ExprV>
    decreases rem(ts, p), 9nat, 0nat,
{
    match kind_at(ts, p) {
        TokenKind::Int(v) => Ok((ExprV::Int(v), 1)),
        TokenKind::Float(s) => Ok((ExprV::Float(s), 1)),
        TokenKind::True => Ok((ExprV::Bool(true), 1)),
        TokenKind::False => Ok((ExprV::Bool(false), 1)),
        TokenKind::NoneLit => Ok((ExprV::NoneLit, 1)),
        TokenKind::Str(s) => Ok((ExprV::Str(s), 1)),
        TokenKind::Ident(name) => Ok((ExprV::Ident(name), 1)),
        TokenKind::LParen => shift(parse_group_or_lambda(ts, p + 1), 1),
        TokenKind::Match => shift(parse_match(ts, p + 1), 1),
        _ => Err("Unexpected token in expression: "@ + lexeme_at(ts, p)),
    }
}

/// After `(` at `p - 1`: a lambda `(params) -> body`, or else a
/// parenthesised expression.
pub open spec fn parse_group_or_lambda(ts: Seq<Token>, p: int) -> PRes<ExprV>
    decreases rem(ts, p), 22nat, 0nat,
{
    let scan = lambda_params(ts, p);
    let e = p + scan.len;
    if scan.ok && kind_at(ts, e) is RParen && kind_at(ts, e + 1) is Arrow {
        let b = e + 2;
        let body = if kind_at(ts, b) is LBrace {
            parse_block(ts, b)
        } else {
            parse_expr(ts, b)
        };
        match body {
            Ok((body, cb)) => Ok((ExprV::Lambda { params: scan.params, body: Box::new(body) }, scan.len + 2 + cb)),
            Err(m) => Err(m),
        }
    } else {
        match parse_expr(ts, p) {
            Ok((inner, c)) => if kind_at(ts, p + c) is RParen {
                Ok((inner, c + 1))
            } else {
                Err("Expected ')' after expression"@)
            },
            Err(m) => Err(m),
        }
    }
}

/// `{ expr }`, with terminators allowed around the expression.
pub open spec fn parse_block(ts: Seq<Token>, p: int) -> PRes<ExprV>
    decreases rem(ts, p), 8nat, 0nat,
{
    if kind_at(ts, p) is LBrace {
        let q = p + 1 + skip_terms(ts, p + 1);
        match parse_expr(ts, q) {
            Ok((e, c)) => {
                let r = q + c + skip_terms(ts, q + c);
                if kind_at(ts, r) is RBrace {
                    Ok((e, (r + 1 - p) as nat))
                } else {
                    Err("Expected '}'"@)
                }
            },
            Err(m) => Err(m),
        }
    } else {
        Err("Expected '{'"@)
    }
}

/// After `match` at `p - 1`: the value, then `{ arms }` with at least one arm.
pub open spec fn parse_match(ts: Seq<Token>, p: int) -> PRes<ExprV>
    decreases rem(ts, p), 23nat, 0nat,
{
    match parse_expr(ts, p) {
        Ok((value, c)) => {
            let q = p + c;
            if kind_at(ts, q) is LBrace {
                let r = q + 1 + skip_terms(ts, q + 1);
                match parse_arms(ts, r, Seq::empty()) {
                    Ok((arms, ca)) => {
                        let s = r + ca;
                        if !(kind_at(ts, s) is RBrace) {
                            Err("Expected '}' to end match"@)
                        } else if arms.len() == 0 {
                            Err("match requires at least one arm"@)
                        } else {
                            Ok((ExprV::Match { value: Box::new(value), arms }, (s + 1 - p) as nat))
                        }
                    },
                    Err(m) => Err(m),
                }
            } else {
                Err("Expected '{' after match value"@)
            }
        },
        Err(m) => Err(m),
    }
}

/// Match arms `pattern -> expr` from `q` up to `}` or the end, appended to `acc`.
pub open spec fn parse_arms(ts: Seq<Token>, q: int, acc: Seq<ArmV>) -> PRes<Seq<ArmV>>
    decreases rem(ts, q), 1nat, 0nat,
{
    let k = kind_at(ts, q);
    if k is RBrace || k is Eof {
        Ok((acc, 0))
    } else {
        match parse_pattern(ts, q) {
            Ok((pattern, cp)) => {
                let r = q + cp;
                if kind_at(ts, r) is Arrow {
                    match parse_expr(ts, r + 1) {
                        Ok((e, ce)) => {
                            let s = r + 1 + ce;
                            let s2 = if kind_at(ts, s) is Comma { s + 1 } else { s };
                            let s3 = s2 + skip_terms(ts, s2);
                            shift(parse_arms(ts, s3, acc.push(ArmV { pattern, expr: e })), (s3 - q) as nat)
                        },
                        Err(m) => Err(m),
                    }
                } else {
                    Err("Expected '->' in match arm"@)
                }
            },
            Err(m) => Err(m),
        }
    }
}

/// `let name (: Type)? = expr` (or `mut`), from the keyword at `p`.
pub open spec fn parse_let(ts: Seq<Token>, p: int, mutable: bool) -> PRes<StmtV>
    decreases rem(ts, p), 26nat, 0nat,
{
    match kind_at(ts, p + 1) {
        TokenKind::Ident(name) => {
            let q = p + 2;
            let r = if kind_at(ts, q) is Colon { q + 1 + skip_decl_type(ts, q + 1, 0) } else { q };
            if kind_at(ts, r) is Eq {
                match parse_expr(ts, r + 1) {
                    Ok((e, c)) => Ok((StmtV::Let { name, mutable, expr: e }, (r + 1 + c - p) as nat)),
                    Err(m) => Err(m),
                }
            } else {
                Err("Expected '=' in declaration"@)
            }
        },
        _ => Err("Expected identifier"@),
    }
}

/// `fn name(params) (-> Type)? { body }` from `p`.
pub open spec fn parse_fn_decl(ts: Seq<Token>, p: int) -> PRes<StmtV>
    decreases rem(ts, p), 26nat, 0nat,
{
    if !(kind_at(ts, p) is Fn) {
        Err("Expected 'fn'"@)
    } else {
        match kind_at(ts, p + 1) {
            TokenKind::Ident(name) => {
                if !(kind_at(ts, p + 2) is LParen) {
                    Err("Expected '(' after function name"@)
                } else {
                    let q = p + 3;
                    let params = if kind_at(ts, q) is RParen {
                        Ok((Seq::empty(), 0))
                    } else {
                        fn_params(ts, q, Seq::empty())
                    };
                    match params {
                        Ok((params, cp)) => {
                            let r = q + cp;
                            if !(kind_at(ts, r) is RParen) {
                                Err("Expected ')' after parameter list"@)
                            } else {
                                let s = r + 1;
                                let b = if kind_at(ts, s) is Arrow { s + 1 + skip_return_type(ts, s + 1) } else { s };
                                match parse_block(ts, b) {
                                    Ok((body, cb)) => Ok((StmtV::Fn { name, params, body }, (b + cb - p) as nat)),
                                    Err(m) => Err(m),
                                }
                            }
                        },
                        Err(m) => Err(m),
                    }
                }
            },
            _ => Err("Expected identifier"@),
        }
    }
}

/// `name = expr` from `p`.
pub open spec fn parse_assign(ts: Seq<Token>, p: int) -> PRes<StmtV>
    decreases rem(ts, p), 26nat, 0nat,
{
    match kind_at(ts, p) {
        TokenKind::Ident(name) => if kind_at(ts, p + 1) is Eq {
            match parse_expr(ts, p + 2) {
                Ok((e, c)) => Ok((StmtV::Assign { name, expr: e }, c + 2)),
                Err(m) => Err(m),
            }
        } else {
            Err("Expected '=' in assignment"@)
        },
        _ => Err("Expected identifier"@),
    }
}

/// A statement from `p`.
pub open spec fn parse_stmt(ts: Seq<Token>, p: int) -> PRes<StmtV>
    decreases rem(ts, p), 30nat, 0nat,
{
    let k = kind_at(ts, p);
    if k is Let {
        parse_let(ts, p, false)
    } else if k is Mut {
        parse_let(ts, p, true)
    } else if k is Fn {
        parse_fn_decl(ts, p)
    } else if k is Ident && kind_at(ts, p + 1) is Eq {
        parse_assign(ts, p)
    } else {
        match parse_expr(ts, p) {
            Ok((e, c)) => Ok((StmtV::Expr(e), c)),
            Err(m) => Err(m),
        }
    }
}

/// Statements from `p`, where terminators have just been skipped, to the end.
pub open spec fn parse_stmts(ts: Seq<Token>, p: int) -> Result<Seq<StmtV>, Seq<char>>
    decreases rem(ts, p), 31nat, 0nat,
{
    if kind_at(ts, p) is Eof {
        Ok(Seq::empty())
    } else {
        match parse_stmt(ts, p) {
            Ok((s, c)) => if c > 0 {
                match parse_stmts(ts, p + c + skip_terms(ts, p + c)) {
                    Ok(rest) => Ok(seq![s] + rest),
                    Err(m) => Err(m),
                }
            } else {
                Err(Seq::empty())
            },
            Err(m) => Err(m),
        }
    }
}

/// A whole program: the statements of the tokens from `p`.
pub open spec fn parse_program_from(ts: Seq<Token>, p: int) -> Result<Seq<StmtV>, Seq<char>> {
    parse_stmts(ts, p + skip_terms(ts, p))
}

/// A token list the parser can read: it ends with `Eof`.
pub open spec fn tokens_wf(ts: Seq<Token>) -> bool {
    ts.len() > 0 && ts.last().kind is Eof
}

/// The index of the first `Eof` token at or after `i`, if any.
pub open spec fn first_eof_from(ts: Seq<Token>, i: int) -> Option<int>
    decreases ts.len() - i,
{
    if i < 0 || i >= ts.len() {
        None
    } else if ts[i].kind is Eof {
        Some(i)
    } else {
        first_eof_from(ts, i + 1)
    }
}

/// The tokens through the first `Eof`: a parser never reads past it.
pub open spec fn through_first_eof(ts: Seq<Token>) -> Seq<Token> {
    match first_eof_from(ts, 0) {
        Some(i) => ts.take(i + 1),
        None => ts,
    }
}

/// Some token is `Eof`.
pub open spec fn has_eof(ts: Seq<Token>) -> bool {
    exists|i: int| 0 <= i < ts.len() && (#[trigger] ts[i]).kind is Eof
}

proof fn lemma_first_eof_found(ts: Seq<Token>, i: int, k: int)
    requires
        0 <= i <= k < ts.len(),
        ts[k].kind is Eof,
    ensures
        first_eof_from(ts, i) matches Some(j) && i <= j <= k && ts[j].kind is Eof,
    decreases k - i,
{
    if !(ts[i].kind is Eof) {
        lemma_first_eof_found(ts, i + 1, k);
    }
}

/// When the only `Eof` is the last token, nothing is cut off.
pub proof fn lemma_through_last_eof(ts: Seq<Token>)
    requires
        tokens_wf(ts),
        forall|j: int| 0 <= j < ts.len() - 1 ==> !((#[trigger] ts[j]).kind is Eof),
    ensures
        through_first_eof(ts) == ts,
{
    lemma_first_eof_found(ts, 0, ts.len() - 1);
    assert(ts.take(ts.len() as int) =~= ts);
}

// ---------------------------------------------------------------------------
// Facts about the grammar.
// ---------------------------------------------------------------------------

proof fn lemma_power_progress(ts: Seq<Token>, p: int)
    ensures
        parse_power(ts, p) matches Ok((_, c)) ==> c >= 1,
{
    let k = kind_at(ts, p);
    if !(k is Bang || k is Minus) {
        if let Ok((e, c)) = parse_primary(ts, p) {
            assert(c >= 1);
            if let Ok((e2, c2)) = parse_call(ts, p) {
                assert(c2 >= c);
            }
        }
        assert(parse_unary(ts, p) == parse_call(ts, p));
    }
    assert(parse_unary(ts, p) matches Ok((_, c)) ==> c >= 1);
}

proof fn lemma_level_progress(ts: Seq<Token>, p: int, l: Level)
    ensures
        parse_level(ts, p, l) matches Ok((_, c)) ==> c >= 1,
    decreases level_rank(l),
{
    if l is Factor {
        lemma_power_progress(ts, p);
    } else {
        lemma_level_progress(ts, p, next_level(l));
    }
}

proof fn lemma_expr_progress(ts: Seq<Token>, p: int)
    ensures
        parse_expr(ts, p) matches Ok((_, c)) ==> c >= 1,
{
    lemma_level_progress(ts, p, Level::Or);
}

/// A statement that parses takes at least one token.
proof fn lemma_stmt_progress(ts: Seq<Token>, p: int)
    ensures
        parse_stmt(ts, p) matches Ok((_, c)) ==> c >= 1,
{
    lemma_level_progress(ts, p, Level::Or);
}

proof fn lemma_exprs_model_concat(a: Seq<Expr>, b: Seq<Expr>)
    ensures
        exprs_model(a + b) == exprs_model(a) + exprs_model(b),
    decreases b.len(),
{
    if b.len() == 0 {
        assert(a + b =~= a);
        assert(exprs_model(b) =~= Seq::<ExprV>::empty());
        assert(exprs_model(a) + exprs_model(b) =~= exprs_model(a));
    } else {
        lemma_exprs_model_concat(a, b.drop_last());
        assert((a + b).drop_last() =~= a + b.drop_last());
        assert((a + b).last() == b.last());
        assert(exprs_model(a) + exprs_model(b) =~= (exprs_model(a) + exprs_model(b.drop_last())).push(b.last()@));
    }
}

proof fn lemma_exprs_model_push(a: Seq<Expr>, e: Expr)
    ensures
        exprs_model(a.push(e)) == exprs_model(a).push(e@),
{
    assert(a.push(e).drop_last() =~= a);
}

proof fn lemma_arms_model_push(a: Seq<MatchArm>, arm: MatchArm)
    ensures
        arms_model(a.push(arm)) == arms_model(a).push(ArmV { pattern: arm.pattern, expr: arm.expr@ }),
{
    assert(a.push(arm).drop_last() =~= a);
}

// ---------------------------------------------------------------------------
// The executable parser.
// ---------------------------------------------------------------------------

/// Token kinds without payload that the parser looks for.
#[derive(Clone, Copy, PartialEq, Eq, Structural)]
pub enum Punct {
    LParen,
    RParen,
    LBrace,
    RBrace,
    Comma,
    Colon,
    Eq,
    Arrow,
    Caret,
    PipeGt,
    Fn,
    Lt,
    Gt,
    Eof,
}

pub open spec fn punct_kind(p: Punct) -> TokenKind {
    match p {
        Punct::LParen => TokenKind::LParen,
        Punct::RParen => TokenKind::RParen,
        Punct::LBrace => TokenKind::LBrace,
        Punct::RBrace => TokenKind::RBrace,
        Punct::Comma => TokenKind::Comma,
        Punct::Colon => TokenKind::Colon,
        Punct::Eq => TokenKind::Eq,
        Punct::Arrow => TokenKind::Arrow,
        Punct::Caret => TokenKind::Caret,
        Punct::PipeGt => TokenKind::PipeGt,
        Punct::Fn => TokenKind::Fn,
        Punct::Lt => TokenKind::Lt,
        Punct::Gt => TokenKind::Gt,
        Punct::Eof => TokenKind::Eof,
    }
}

fn kind_is(k: &TokenKind, p: Punct) -> (b: bool)
    ensures
        b == (*k == punct_kind(p)),
{
    match p {
        Punct::LParen => matches!(k, TokenKind::LParen),
        Punct::RParen => matches!(k, TokenKind::RParen),
        Punct::LBrace => matches!(k, TokenKind::LBrace),
        Punct::RBrace => matches!(k, TokenKind::RBrace),
        Punct::Comma => matches!(k, TokenKind::Comma),
        Punct::Colon => matches!(k, TokenKind::Colon),
        Punct::Eq => matches!(k, TokenKind::Eq),
        Punct::Arrow => matches!(k, TokenKind::Arrow),
        Punct::Caret => matches!(k, TokenKind::Caret),
        Punct::PipeGt => matches!(k, TokenKind::PipeGt),
        Punct::Fn => matches!(k, TokenKind::Fn),
        Punct::Lt => matches!(k, TokenKind::Lt),
        Punct::Gt => matches!(k, TokenKind::Gt),
        Punct::Eof => matches!(k, TokenKind::Eof),
    }
}

fn exec_level_op(l: Level, k: &TokenKind) -> (r: Option<BinaryOp>)
    ensures
        r == level_op(l, *k),
{
    match l {
        Level::Or => if matches!(k, TokenKind::OrOr) { Some(BinaryOp::Or) } else { None },
        Level::And => if matches!(k, TokenKind::AndAnd) { Some(BinaryOp::And) } else { None },
        Level::Equality => match k {
            TokenKind::EqEq => Some(BinaryOp::Eq),
            TokenKind::Ne => Some(BinaryOp::Ne),
            _ => None,
        },
        Level::Comparison => match k {
            TokenKind::Lt => Some(BinaryOp::Lt),
            TokenKind::Le => Some(BinaryOp::Le),
            TokenKind::Gt => Some(BinaryOp::Gt),
            TokenKind::Ge => Some(BinaryOp::Ge),
            _ => None,
        },
        Level::Term => match k {
            TokenKind::Plus => Some(BinaryOp::Add),
            TokenKind::Minus => Some(BinaryOp::Sub),
            _ => None,
        },
        Level::Factor => match k {
            TokenKind::Star => Some(BinaryOp::Mul),
            TokenKind::Slash => Some(BinaryOp::Div),
            TokenKind::Percent => Some(BinaryOp::Mod),
            _ => None,
        },
    }
}

fn exec_next_level(l: Level) -> (r: Level)
    ensures
        r == next_level(l),
{
    match l {
        Level::Or => Level::And,
        Level::And => Level::Equality,
        Level::Equality => Level::Comparison,
        Level::Comparison => Level::Term,
        Level::Term => Level::Factor,
        Level::Factor => Level::Factor,
    }
}

/// The executable `rewrite_pipe_spec`.
pub fn rewrite_pipe(left: Expr, right: Expr) -> (r: EiriadResult<Expr>)
    ensures
        pipe_free(left@) && pipe_free(right@) ==> (r matches Ok(e) ==> pipe_free(e@)),
        match rewrite_pipe_spec(left@, right@) {
            Ok(v) => r matches Ok(e) && e@ == v,
            Err(m) => r matches Err(err) && err.message@ == m,
        },
{
    match right {
        Expr::Call { callee, args } => {
            let mut new_args: Vec<Expr> = Vec::new();
            new_args.push(left);
            let ghost first = new_args@;
            let mut rest = args;
            let ghost rest_view = rest@;
            new_args.append(&mut rest);
            proof {
                lemma_exprs_model_concat(first, rest_view);
                if pipe_free(left@) && pipe_free(right@) {
                    assert(seq![left@].drop_last() =~= Seq::<ExprV>::empty());
                    assert(all_pipe_free(Seq::<ExprV>::empty()));
                    assert(all_pipe_free(seq![left@]));
                    lemma_all_pipe_free_concat(seq![left@], exprs_model(rest_view));
                }
                lemma_exprs_model_push(Seq::empty(), left);
                assert(exprs_model(Seq::<Expr>::empty()) =~= Seq::<ExprV>::empty());
                assert(first =~= Seq::<Expr>::empty().push(left));
                assert(exprs_model(first) =~= seq![left@]);
            }
            Ok(Expr::Call { callee, args: new_args })
        },
        Expr::Ident(name) => {
            let mut new_args: Vec<Expr> = Vec::new();
            new_args.push(left);
            proof {
                lemma_exprs_model_push(Seq::empty(), left);
                assert(exprs_model(Seq::<Expr>::empty()) =~= Seq::<ExprV>::empty());
                assert(new_args@ =~= Seq::<Expr>::empty().push(left));
                assert(exprs_model(new_args@) =~= seq![left@]);
                assert(seq![left@].drop_last() =~= Seq::<ExprV>::empty());
                assert(all_pipe_free(Seq::<ExprV>::empty()));
                assert(pipe_free(left@) ==> all_pipe_free(seq![left@]));
            }
            Ok(Expr::Call { callee: Box::new(Expr::Ident(name)), args: new_args })
        },
        _ => Err(EiriadError::new(String::from_str("Right side of '|>' must be a function call or function name"))),
    }
}

/// The parsed expression `r`, after which the parser stands at `p1`, is the
/// spec result `s` of parsing from `p0`.
pub open spec fn agrees_expr(r: EiriadResult<Expr>, s: PRes<ExprV>, p0: int, p1: int) -> bool {
    match s {
        Ok((v, c)) => r matches Ok(e) && e@ == v && pipe_free(v) && p1 == p0 + c,
        Err(m) => r matches Err(err) && err.message@ == m,
    }
}

pub open spec fn agrees_stmt(r: EiriadResult<Stmt>, s: PRes<StmtV>, p0: int, p1: int) -> bool {
    match s {
        Ok((v, c)) => r matches Ok(st) && st@ == v && stmt_pipe_free(v) && p1 == p0 + c,
        Err(m) => r matches Err(err) && err.message@ == m,
    }
}

pub open spec fn agrees_pattern(r: EiriadResult<Pattern>, s: PRes<Pattern>, p0: int, p1: int) -> bool {
    match s {
        Ok((v, c)) => r matches Ok(pat) && pat == v && p1 == p0 + c,
        Err(m) => r matches Err(err) && err.message@ == m,
    }
}

/// The parser: a token list ending with `Eof` and a read position.
pub struct Parser {
    tokens: Vec<Token>,
    pos: usize,
}

impl Parser {
    /// The tokens this parser reads.
    pub closed spec fn toks(&self) -> Seq<Token> {
        self.tokens@
    }

    /// The position it reads from.
    pub closed spec fn at(&self) -> int {
        self.pos as int
    }

    /// The tokens end with `Eof` and the position is inside them.
    pub closed spec fn wf(&self) -> bool {
        tokens_wf(self.tokens@) && self.pos < self.tokens@.len() && self.tokens@.len() <= usize::MAX
    }

    /// A parser at the start of `tokens`, keeping them through the first
    /// `Eof` (a parser never reads past it).
    pub fn new(tokens: Vec<Token>) -> (p: Self)
        ensures
            p.toks() == through_first_eof(tokens@),
            p.at() == 0,
            has_eof(tokens@) ==> p.wf(),
    {
        let mut kept = tokens;
        let n = kept.len();
        let mut i: usize = 0;
        let ghost ts = kept@;
        while i < n
            invariant
                n == ts.len(),
                i <= n,
                kept@ == ts,
                ts == tokens@,
                first_eof_from(ts, 0) == first_eof_from(ts, i as int),
            decreases n - i,
        {
            if matches!(kept[i].kind, TokenKind::Eof) {
                assert(first_eof_from(ts, i as int) == Some(i as int));
                kept.truncate(i + 1);
                assert(kept@ =~= ts.take(i + 1));
                assert(kept@.last().kind is Eof);
                return Parser { tokens: kept, pos: 0 };
            }
            i = i + 1;
        }
        proof {
            if has_eof(ts) {
                let k = choose|k: int| 0 <= k < ts.len() && (#[trigger] ts[k]).kind is Eof;
                lemma_first_eof_found(ts, 0, k);
            }
        }
        Parser { tokens: kept, pos: 0 }
    }

    fn peek_kind(&self) -> (k: &TokenKind)
        requires
            self.wf(),
        ensures
            *k == kind_at(self.tokens@, self.pos as int),
    {
        &self.tokens[self.pos].kind
    }

    fn at_punct(&self, p: Punct) -> (b: bool)
        requires
            self.wf(),
        ensures
            b == (kind_at(self.tokens@, self.pos as int) == punct_kind(p)),
    {
        kind_is(self.peek_kind(), p)
    }

    fn is_eof(&self) -> (b: bool)
        requires
            self.wf(),
        ensures
            b == (kind_at(self.tokens@, self.pos as int) is Eof),
    {
        self.at_punct(Punct::Eof)
    }

    /// Moves past the current token unless it is `Eof`.
    fn advance(&mut self)
        requires
            old(self).wf(),
        ensures
            final(self).wf(),
            final(self).tokens == old(self).tokens,
            final(self).pos == if kind_at(old(self).tokens@, old(self).pos as int) is Eof {
                old(self).pos as int
            } else {
                old(self).pos + 1
            },
    {
        if !self.is_eof() {
            proof {
                let ts = self.tokens@;
                assert(self.pos != ts.len() - 1);
            }
            self.pos = self.pos + 1;
        }
    }

    /// Moves past the current token, known not to be `Eof`.
    fn bump(&mut self)
        requires
            old(self).wf(),
            !(kind_at(old(self).tokens@, old(self).pos as int) is Eof),
        ensures
            final(self).wf(),
            final(self).tokens == old(self).tokens,
            final(self).pos == old(self).pos + 1,
    {
        self.advance();
    }

    /// Skips newlines and `;`.
    fn skip_terminators(&mut self)
        requires
            old(self).wf(),
        ensures
            final(self).wf(),
            final(self).tokens == old(self).tokens,
            final(self).pos == old(self).pos + skip_terms(old(self).tokens@, old(self).pos as int),
    {
        let ghost ts = self.tokens@;
        let ghost p0 = self.pos as int;
        while matches!(self.peek_kind(), TokenKind::Newline | TokenKind::Semi)
            invariant
                self.wf(),
                self.tokens == old(self).tokens,
                ts == self.tokens@,
                p0 == old(self).pos,
                p0 <= self.pos,
                skip_terms(ts, p0) == (self.pos - p0) + skip_terms(ts, self.pos as int),
            decreases ts.len() - self.pos,
        {
            self.bump();
        }
    }

    /// Skips a declaration's type annotation: up to `=` outside brackets.
    fn skip_type_annotation(&mut self)
        requires
            old(self).wf(),
        ensures
            final(self).wf(),
            final(self).tokens == old(self).tokens,
            final(self).pos == old(self).pos + skip_decl_type(old(self).tokens@, old(self).pos as int, 0),
    {
        let ghost ts = self.tokens@;
        let ghost p0 = self.pos as int;
        let mut depth: usize = 0;
        while !self.is_eof()
            invariant
                self.wf(),
                self.tokens == old(self).tokens,
                ts == self.tokens@,
                p0 == old(self).pos,
                p0 <= self.pos,
                depth <= self.pos - p0,
                skip_decl_type(ts, p0, 0) == (self.pos - p0) + skip_decl_type(ts, self.pos as int, depth as nat),
            ensures
                self.wf(),
                self.tokens == old(self).tokens,
                p0 <= self.pos,
                skip_decl_type(ts, p0, 0) == (self.pos - p0) + skip_decl_type(ts, self.pos as int, depth as nat),
                skip_decl_type(ts, self.pos as int, depth as nat) == 0,
            decreases ts.len() - self.pos,
        {
            let k = self.peek_kind();
            if matches!(k, TokenKind::Lt | TokenKind::LParen) {
                depth = depth + 1;
                self.bump();
            } else if matches!(k, TokenKind::Gt | TokenKind::RParen) {
                depth = if depth > 0 { depth - 1 } else { 0 };
                self.bump();
            } else if matches!(k, TokenKind::Eq) && depth == 0 {
                break;
            } else {
                self.bump();
            }
        }
    }

    /// Skips a parameter's type annotation: up to `,` or a closing bracket
    /// outside brackets.
    fn skip_type_annotation_until_param_boundary(&mut self)
        requires
            old(self).wf(),
        ensures
            final(self).wf(),
            final(self).tokens == old(self).tokens,
            final(self).pos == old(self).pos + skip_param_type(old(self).tokens@, old(self).pos as int, 0),
    {
        let ghost ts = self.tokens@;
        let ghost p0 = self.pos as int;
        let mut depth: usize = 0;
        while !self.is_eof()
            invariant
                self.wf(),
                self.tokens == old(self).tokens,
                ts == self.tokens@,
                p0 == old(self).pos,
                p0 <= self.pos,
                depth <= self.pos - p0,
                skip_param_type(ts, p0, 0) == (self.pos - p0) + skip_param_type(ts, self.pos as int, depth as nat),
            ensures
                self.wf(),
                self.tokens == old(self).tokens,
                p0 <= self.pos,
                skip_param_type(ts, p0, 0) == (self.pos - p0) + skip_param_type(ts, self.pos as int, depth as nat),
                skip_param_type(ts, self.pos as int, depth as nat) == 0,
            decreases ts.len() - self.pos,
        {
            let k = self.peek_kind();
            if matches!(k, TokenKind::LParen | TokenKind::Lt) {
                depth = depth + 1;
                self.bump();
            } else if matches!(k, TokenKind::RParen | TokenKind::Gt) {
                if depth == 0 {
                    break;
                }
                depth = depth - 1;
                self.bump();
            } else if matches!(k, TokenKind::Comma) && depth == 0 {
                break;
            } else {
                self.bump();
            }
        }
    }

    /// Skips a return type: up to `{` or a terminator.
    fn skip_type_annotation_until_block_or_expr(&mut self)
        requires
            old(self).wf(),
        ensures
            final(self).wf(),
            final(self).tokens == old(self).tokens,
            final(self).pos == old(self).pos + skip_return_type(old(self).tokens@, old(self).pos as int),
    {
        let ghost ts = self.tokens@;
        let ghost p0 = self.pos as int;
        while !self.is_eof()
            invariant
                self.wf(),
                self.tokens == old(self).tokens,
                ts == self.tokens@,
                p0 == old(self).pos,
                p0 <= self.pos,
                skip_return_type(ts, p0) == (self.pos - p0) + skip_return_type(ts, self.pos as int),
            ensures
                self.wf(),
                self.tokens == old(self).tokens,
                p0 <= self.pos,
                skip_return_type(ts, p0) == (self.pos - p0) + skip_return_type(ts, self.pos as int),
                skip_return_type(ts, self.pos as int) == 0,
            decreases ts.len() - self.pos,
        {
            if matches!(self.peek_kind(), TokenKind::LBrace | TokenKind::Newline | TokenKind::Semi) {
                break;
            }
            self.bump();
        }
    }

    /// Consumes the expected punctuation, or fails with `msg`.
    fn expect_token(&mut self, expected: Punct, msg: &str) -> (r: EiriadResult<()>)
        requires
            old(self).wf(),
            expected != Punct::Eof,
        ensures
            final(self).wf(),
            final(self).tokens == old(self).tokens,
            if kind_at(old(self).tokens@, old(self).pos as int) == punct_kind(expected) {
                r is Ok && final(self).pos == old(self).pos + 1
            } else {
                r matches Err(e) && e.message@ == msg@
            },
    {
        if self.at_punct(expected) {
            self.bump();
            Ok(())
        } else {
            Err(EiriadError::new(String::from_str(msg)))
        }
    }

    /// Consumes a name, or fails.
    fn expect_ident(&mut self) -> (r: EiriadResult<String>)
        requires
            old(self).wf(),
        ensures
            final(self).wf(),
            final(self).tokens == old(self).tokens,
            match kind_at(old(self).tokens@, old(self).pos as int) {
                TokenKind::Ident(name) => r == Ok::<String, EiriadError>(name) && final(self).pos == old(self).pos + 1,
                _ => r matches Err(e) && e.message@ == "Expected identifier"@,
            },
    {
        let name = match self.peek_kind() {
            TokenKind::Ident(name) => Some(name.clone()),
            _ => None,
        };
        self.advance();
        match name {
            Some(n) => Ok(n),
            None => Err(EiriadError::new(String::from_str("Expected identifier"))),
        }
    }

    /// True when the current token is a name followed by `=`.
    fn lookahead_is_eq(&self) -> (b: bool)
        requires
            self.wf(),
        ensures
            b == (kind_at(self.tokens@, self.pos as int) is Ident && kind_at(self.tokens@, self.pos + 1) is Eq),
    {
        matches!(self.peek_kind(), TokenKind::Ident(_))
            && self.pos + 1 < self.tokens.len()
            && matches!(self.tokens[self.pos + 1].kind, TokenKind::Eq)
    }
}

/// Lifts a lambda scan that started `k` tokens later.
pub open spec fn lift_scan(r: LambdaScan, k: nat) -> LambdaScan {
    LambdaScan { params: r.params, len: r.len + k, ok: r.ok }
}

/// Prepends parsed statements to the result of parsing the rest.
pub open spec fn prepend_stmts(done: Seq<StmtV>, r: Result<Seq<StmtV>, Seq<char>>) -> Result<Seq<StmtV>, Seq<char>> {
    match r {
        Ok(rest) => Ok(done + rest),
        Err(m) => Err(m),
    }
}

/// `s` holds exactly the characters of `lit`.
fn str_is(s: &String, lit: &str) -> (b: bool)
    ensures
        b == (s@ == lit@),
{
    *s == String::from_str(lit)
}

impl Parser {
    /// An expression: a pipe chain.
    fn parse_expr(&mut self) -> (r: EiriadResult<Expr>)
        requires
            old(self).wf(),
        ensures
            final(self).wf(),
            final(self).tokens == old(self).tokens,
            agrees_expr(r, parse_expr(old(self).tokens@, old(self).pos as int), old(self).pos as int, final(self).pos as int),
        decreases rem(old(self).tokens@, old(self).pos as int), 20nat, 0nat,
    {
        let ghost ts = self.tokens@;
        let ghost p0 = self.pos as int;
        let mut expr = match self.parse_level(Level::Or) {
            Ok(e) => e,
            Err(e) => return Err(e),
        };
        while self.at_punct(Punct::PipeGt)
            invariant
                self.wf(),
                self.tokens == old(self).tokens,
                ts == self.tokens@,
                p0 == old(self).pos,
                p0 <= self.pos,
                pipe_free(expr@),
                parse_expr(ts, p0) == shift(pipe_rest(ts, self.pos as int, expr@), (self.pos - p0) as nat),
            decreases ts.len() - self.pos,
        {
            self.bump();
            let rhs = match self.parse_call() {
                Ok(e) => e,
                Err(e) => return Err(e),
            };
            expr = match rewrite_pipe(expr, rhs) {
                Ok(e) => e,
                Err(e) => return Err(e),
            };
        }
        Ok(expr)
    }

    /// An operand at level `l`.
    fn parse_operand(&mut self, l: Level) -> (r: EiriadResult<Expr>)
        requires
            old(self).wf(),
        ensures
            final(self).wf(),
            final(self).tokens == old(self).tokens,
            agrees_expr(r, parse_operand(old(self).tokens@, old(self).pos as int, l), old(self).pos as int, final(self).pos as int),
        decreases rem(old(self).tokens@, old(self).pos as int), level_rank(l), 1nat,
    {
        if l == Level::Factor {
            self.parse_power()
        } else {
            self.parse_level(exec_next_level(l))
        }
    }

    /// A left-associative chain at level `l`
    /// (`||`, `&&`, equality, comparison, `+ -`, `* / %`).
    fn parse_level(&mut self, l: Level) -> (r: EiriadResult<Expr>)
        requires
            old(self).wf(),
        ensures
            final(self).wf(),
            final(self).tokens == old(self).tokens,
            agrees_expr(r, parse_level(old(self).tokens@, old(self).pos as int, l), old(self).pos as int, final(self).pos as int),
        decreases rem(old(self).tokens@, old(self).pos as int), level_rank(l), 2nat,
    {
        let ghost ts = self.tokens@;
        let ghost p0 = self.pos as int;
        let mut expr = match self.parse_operand(l) {
            Ok(e) => e,
            Err(e) => return Err(e),
        };
        let mut op = exec_level_op(l, self.peek_kind());
        while op.is_some()
            invariant
                self.wf(),
                self.tokens == old(self).tokens,
                ts == self.tokens@,
                p0 == old(self).pos,
                p0 <= self.pos,
                op == level_op(l, kind_at(ts, self.pos as int)),
                pipe_free(expr@),
                parse_level(ts, p0, l) == shift(level_rest(ts, self.pos as int, l, expr@), (self.pos - p0) as nat),
            decreases ts.len() - self.pos,
        {
            let this_op = op.unwrap();
            self.bump();
            let right = match self.parse_operand(l) {
                Ok(e) => e,
                Err(e) => return Err(e),
            };
            expr = Expr::Binary { left: Box::new(expr), op: this_op, right: Box::new(right) };
            op = exec_level_op(l, self.peek_kind());
        }
        Ok(expr)
    }

    /// `unary (^ power)?`.
    fn parse_power(&mut self) -> (r: EiriadResult<Expr>)
        requires
            old(self).wf(),
        ensures
            final(self).wf(),
            final(self).tokens == old(self).tokens,
            agrees_expr(r, parse_power(old(self).tokens@, old(self).pos as int), old(self).pos as int, final(self).pos as int),
        decreases rem(old(self).tokens@, old(self).pos as int), 12nat, 0nat,
    {
        let expr = match self.parse_unary() {
            Ok(e) => e,
            Err(e) => return Err(e),
        };
        if self.at_punct(Punct::Caret) {
            self.bump();
            let right = match self.parse_power() {
                Ok(e) => e,
                Err(e) => return Err(e),
            };
            Ok(Expr::Binary { left: Box::new(expr), op: BinaryOp::Pow, right: Box::new(right) })
        } else {
            Ok(expr)
        }
    }

    /// Prefix `!` and `-`, then a call.
    fn parse_unary(&mut self) -> (r: EiriadResult<Expr>)
        requires
            old(self).wf(),
        ensures
            final(self).wf(),
            final(self).tokens == old(self).tokens,
            agrees_expr(r, parse_unary(old(self).tokens@, old(self).pos as int), old(self).pos as int, final(self).pos as int),
        decreases rem(old(self).tokens@, old(self).pos as int), 11nat, 0nat,
    {
        let is_not = matches!(self.peek_kind(), TokenKind::Bang);
        let is_neg = matches!(self.peek_kind(), TokenKind::Minus);
        if is_not || is_neg {
            let op = if is_not { UnaryOp::Not } else { UnaryOp::Neg };
            self.bump();
            let expr = match self.parse_unary() {
                Ok(e) => e,
                Err(e) => return Err(e),
            };
            Ok(Expr::Unary { op, expr: Box::new(expr) })
        } else {
            self.parse_call()
        }
    }

    /// A primary expression followed by argument lists.
    fn parse_call(&mut self) -> (r: EiriadResult<Expr>)
        requires
            old(self).wf(),
        ensures
            final(self).wf(),
            final(self).tokens == old(self).tokens,
            agrees_expr(r, parse_call(old(self).tokens@, old(self).pos as int), old(self).pos as int, final(self).pos as int),
        decreases rem(old(self).tokens@, old(self).pos as int), 10nat, 0nat,
    {
        let ghost ts = self.tokens@;
        let ghost p0 = self.pos as int;
        let mut expr = match self.parse_primary() {
            Ok(e) => e,
            Err(e) => return Err(e),
        };
        while self.at_punct(Punct::LParen)
            invariant
                self.wf(),
                self.tokens == old(self).tokens,
                ts == self.tokens@,
                p0 == old(self).pos,
                p0 <= self.pos,
                pipe_free(expr@),
                parse_call(ts, p0) == shift(call_rest(ts, self.pos as int, expr@), (self.pos - p0) as nat),
            decreases ts.len() - self.pos,
        {
            let ghost q = self.pos as int;
            self.bump();
            let ghost q1 = self.pos as int;
            let mut args: Vec<Expr> = Vec::new();
            let mut more = !self.at_punct(Punct::RParen);
            proof {
                assert(exprs_model(args@) =~= Seq::<ExprV>::empty());
            }
            while more
                invariant
                    self.wf(),
                    self.tokens == old(self).tokens,
                    ts == self.tokens@,
                    p0 == old(self).pos,
                    q1 == q + 1,
                    p0 <= q,
                    kind_at(ts, q) is LParen,
                    parse_call(ts, p0) == shift(call_rest(ts, q, expr@), (q - p0) as nat),
                    q1 <= self.pos,
                    all_pipe_free(exprs_model(args@)),
                    pipe_free(expr@),
                    more ==> !(kind_at(ts, q1) is RParen),
                    more ==> parse_args(ts, q1, Seq::empty()) == shift(
                        parse_args(ts, self.pos as int, exprs_model(args@)),
                        (self.pos - q1) as nat,
                    ),
                    !more ==> (if kind_at(ts, q1) is RParen {
                        Ok::<(Seq<ExprV>, nat), Seq<char>>((Seq::empty(), 0))
                    } else {
                        parse_args(ts, q1, Seq::empty())
                    }) == Ok::<(Seq<ExprV>, nat), Seq<char>>((exprs_model(args@), (self.pos - q1) as nat)),
                decreases ts.len() - self.pos, if more { 1nat } else { 0nat },
            {
                let ghost before = self.pos as int;
                proof {
                    lemma_expr_progress(ts, before);
                }
                let arg = match self.parse_expr() {
                    Ok(e) => e,
                    Err(e) => return Err(e),
                };
                let ghost old_args = args@;
                args.push(arg);
                proof {
                    lemma_exprs_model_push(old_args, arg);
                    assert(exprs_model(old_args).push(arg@).drop_last() =~= exprs_model(old_args));
                }
                if self.at_punct(Punct::Comma) {
                    self.bump();
                } else {
                    more = false;
                }
            }
            match self.expect_token(Punct::RParen, "Expected ')' after arguments") {
                Ok(()) => {},
                Err(e) => return Err(e),
            }
            expr = Expr::Call { callee: Box::new(expr), args };
        }
        Ok(expr)
    }

    /// A literal, a name, a parenthesised expression or lambda, or a match.
    fn parse_primary(&mut self) -> (r: EiriadResult<Expr>)
        requires
            old(self).wf(),
        ensures
            final(self).wf(),
            final(self).tokens == old(self).tokens,
            agrees_expr(r, parse_primary(old(self).tokens@, old(self).pos as int), old(self).pos as int, final(self).pos as int),
        decreases rem(old(self).tokens@, old(self).pos as int), 9nat, 0nat,
    {
        let kind = self.peek_kind().duplicate();
        let lexeme = self.tokens[self.pos].lexeme.clone();
        self.advance();
        match kind {
            TokenKind::Int(v) => Ok(Expr::Int(v)),
            TokenKind::Float(s) => Ok(Expr::Float(s)),
            TokenKind::True => Ok(Expr::Bool(true)),
            TokenKind::False => Ok(Expr::Bool(false)),
            TokenKind::NoneLit => Ok(Expr::NoneLit),
            TokenKind::Str(s) => Ok(Expr::Str(s)),
            TokenKind::Ident(name) => Ok(Expr::Ident(name)),
            TokenKind::LParen => self.parse_group_or_lambda(),
            TokenKind::Match => self.parse_match_expr(),
            _ => {
                let mut msg = String::from_str("Unexpected token in expression: ");
                msg.append(lexeme.as_str());
                Err(EiriadError::new(msg))
            },
        }
    }

    /// After `(`: a lambda `(params) -> body`, or else a parenthesised expression.
    fn parse_group_or_lambda(&mut self) -> (r: EiriadResult<Expr>)
        requires
            old(self).wf(),
        ensures
            final(self).wf(),
            final(self).tokens == old(self).tokens,
            agrees_expr(r, parse_group_or_lambda(old(self).tokens@, old(self).pos as int), old(self).pos as int, final(self).pos as int),
        decreases rem(old(self).tokens@, old(self).pos as int), 22nat, 0nat,
    {
        let ghost ts = self.tokens@;
        let ghost p0 = self.pos as int;
        let saved = self.pos;
        let mut params: Vec<String> = Vec::new();
        let mut lambda_ok = true;
        let mut scanning = !self.at_punct(Punct::RParen);
        while scanning
            invariant
                self.wf(),
                self.tokens == old(self).tokens,
                ts == self.tokens@,
                p0 == old(self).pos,
                saved == p0,
                p0 <= self.pos,
                scanning ==> lambda_params(ts, p0) == lift_scan(lambda_scan(ts, self.pos as int, params@), (self.pos - p0) as nat),
                scanning ==> (self.pos == p0 ==> !(kind_at(ts, p0) is RParen)),
                scanning ==> lambda_ok,
                !scanning ==> lambda_params(ts, p0) == (LambdaScan { params: params@, len: (self.pos - p0) as nat, ok: lambda_ok }),
            decreases ts.len() - self.pos, if scanning { 1nat } else { 0nat },
        {
            let name = match self.peek_kind() {
                TokenKind::Ident(name) => Some(name.clone()),
                _ => None,
            };
            match name {
                Some(n) => {
                    params.push(n);
                    self.bump();
                    if self.at_punct(Punct::Colon) {
                        self.bump();
                        self.skip_type_annotation_until_param_boundary();
                    }
                    if self.at_punct(Punct::Comma) {
                        self.bump();
                    } else {
                        scanning = false;
                    }
                },
                None => {
                    lambda_ok = false;
                    scanning = false;
                },
            }
        }
        let arrow_next = self.pos + 1 < self.tokens.len() && matches!(self.tokens[self.pos + 1].kind, TokenKind::Arrow);
        if lambda_ok && self.at_punct(Punct::RParen) && arrow_next {
            self.bump();
            self.bump();
            let body = if self.at_punct(Punct::LBrace) {
                self.parse_block()
            } else {
                self.parse_expr()
            };
            match body {
                Ok(b) => Ok(Expr::Lambda { params, body: Box::new(b) }),
                Err(e) => Err(e),
            }
        } else {
            self.pos = saved;
            let expr = match self.parse_expr() {
                Ok(e) => e,
                Err(e) => return Err(e),
            };
            match self.expect_token(Punct::RParen, "Expected ')' after expression") {
                Ok(()) => Ok(expr),
                Err(e) => Err(e),
            }
        }
    }

    /// `{ expr }`.
    fn parse_block(&mut self) -> (r: EiriadResult<Expr>)
        requires
            old(self).wf(),
        ensures
            final(self).wf(),
            final(self).tokens == old(self).tokens,
            agrees_expr(r, parse_block(old(self).tokens@, old(self).pos as int), old(self).pos as int, final(self).pos as int),
        decreases rem(old(self).tokens@, old(self).pos as int), 8nat, 0nat,
    {
        match self.expect_token(Punct::LBrace, "Expected '{'") {
            Ok(()) => {},
            Err(e) => return Err(e),
        }
        self.skip_terminators();
        let expr = match self.parse_expr() {
            Ok(e) => e,
            Err(e) => return Err(e),
        };
        self.skip_terminators();
        match self.expect_token(Punct::RBrace, "Expected '}'") {
            Ok(()) => Ok(expr),
            Err(e) => Err(e),
        }
    }

    /// After `match`: the value, then `{ arms }`.
    fn parse_match_expr(&mut self) -> (r: EiriadResult<Expr>)
        requires
            old(self).wf(),
        ensures
            final(self).wf(),
            final(self).tokens == old(self).tokens,
            agrees_expr(r, parse_match(old(self).tokens@, old(self).pos as int), old(self).pos as int, final(self).pos as int),
        decreases rem(old(self).tokens@, old(self).pos as int), 23nat, 0nat,
    {
        let ghost ts = self.tokens@;
        let ghost p0 = self.pos as int;
        let value = match self.parse_expr() {
            Ok(e) => e,
            Err(e) => return Err(e),
        };
        let ghost q = self.pos as int;
        match self.expect_token(Punct::LBrace, "Expected '{' after match value") {
            Ok(()) => {},
            Err(e) => return Err(e),
        }
        self.skip_terminators();
        let ghost r0 = self.pos as int;
        let mut arms: Vec<MatchArm> = Vec::new();
        proof {
            assert(arms_model(arms@) =~= Seq::<ArmV>::empty());
        }
        assert(arms_pipe_free(arms_model(arms@)));
        while !(self.at_punct(Punct::RBrace) || self.is_eof())
            invariant
                self.wf(),
                self.tokens == old(self).tokens,
                ts == self.tokens@,
                p0 == old(self).pos,
                p0 <= q,
                q < r0 <= self.pos,
                parse_expr(ts, p0) == Ok::<(ExprV, nat), Seq<char>>((value@, (q - p0) as nat)),
                pipe_free(value@),
                arms_pipe_free(arms_model(arms@)),
                kind_at(ts, q) is LBrace,
                r0 == q + 1 + skip_terms(ts, q + 1),
                parse_arms(ts, r0, Seq::empty()) == shift(parse_arms(ts, self.pos as int, arms_model(arms@)), (self.pos - r0) as nat),
            decreases ts.len() - self.pos,
        {
            let pattern = match self.parse_pattern() {
                Ok(p) => p,
                Err(e) => return Err(e),
            };
            match self.expect_token(Punct::Arrow, "Expected '->' in match arm") {
                Ok(()) => {},
                Err(e) => return Err(e),
            }
            let expr = match self.parse_expr() {
                Ok(e) => e,
                Err(e) => return Err(e),
            };
            let ghost old_arms = arms@;
            let arm = MatchArm { pattern, expr };
            proof {
                lemma_arms_model_push(old_arms, arm);
                assert(arms_model(old_arms).push(arm@) =~= arms_model(old_arms).push(arm@));
                assert(arms_model(old_arms).push(arm@).drop_last() =~= arms_model(old_arms));
            }
            arms.push(arm);
            if self.at_punct(Punct::Comma) {
                self.bump();
            }
            self.skip_terminators();
        }
        match self.expect_token(Punct::RBrace, "Expected '}' to end match") {
            Ok(()) => {},
            Err(e) => return Err(e),
        }
        if arms.len() == 0 {
            return Err(EiriadError::new(String::from_str("match requires at least one arm")));
        }
        Ok(Expr::Match { value: Box::new(value), arms })
    }

    /// A match pattern.
    fn parse_pattern(&mut self) -> (r: EiriadResult<Pattern>)
        requires
            old(self).wf(),
        ensures
            final(self).wf(),
            final(self).tokens == old(self).tokens,
            agrees_pattern(r, parse_pattern(old(self).tokens@, old(self).pos as int), old(self).pos as int, final(self).pos as int),
        decreases rem(old(self).tokens@, old(self).pos as int),
    {
        let kind = self.peek_kind().duplicate();
        self.advance();
        match kind {
            TokenKind::NoneLit => Ok(Pattern::NonePat),
            TokenKind::Ident(name) => {
                if str_is(&name, "_") {
                    Ok(Pattern::Wildcard)
                } else if str_is(&name, "Some") || str_is(&name, "Ok") || str_is(&name, "Err") {
                    let is_some = str_is(&name, "Some");
                    let is_ok = str_is(&name, "Ok");
                    let open_msg = if is_some {
                        "Expected '(' after Some"
                    } else if is_ok {
                        "Expected '(' after Ok"
                    } else {
                        "Expected '(' after Err"
                    };
                    let close_msg = if is_some {
                        "Expected ')' after Some pattern"
                    } else if is_ok {
                        "Expected ')' after Ok pattern"
                    } else {
                        "Expected ')' after Err pattern"
                    };
                    match self.expect_token(Punct::LParen, open_msg) {
                        Ok(()) => {},
                        Err(e) => return Err(e),
                    }
                    let inner = match self.parse_pattern() {
                        Ok(p) => p,
                        Err(e) => return Err(e),
                    };
                    match self.expect_token(Punct::RParen, close_msg) {
                        Ok(()) => {},
                        Err(e) => return Err(e),
                    }
                    if is_some {
                        Ok(Pattern::SomePat(Box::new(inner)))
                    } else if is_ok {
                        Ok(Pattern::OkPat(Box::new(inner)))
                    } else {
                        Ok(Pattern::ErrPat(Box::new(inner)))
                    }
                } else {
                    Ok(Pattern::Ident(name))
                }
            },
            _ => Err(EiriadError::new(String::from_str("Invalid match pattern"))),
        }
    }

    /// `let`/`mut` declaration.
    fn parse_let(&mut self, mutable: bool) -> (r: EiriadResult<Stmt>)
        requires
            old(self).wf(),
            !(kind_at(old(self).tokens@, old(self).pos as int) is Eof),
        ensures
            final(self).wf(),
            final(self).tokens == old(self).tokens,
            agrees_stmt(r, parse_let(old(self).tokens@, old(self).pos as int, mutable), old(self).pos as int, final(self).pos as int),
    {
        self.bump();
        let name = match self.expect_ident() {
            Ok(n) => n,
            Err(e) => return Err(e),
        };
        if self.at_punct(Punct::Colon) {
            self.bump();
            self.skip_type_annotation();
        }
        match self.expect_token(Punct::Eq, "Expected '=' in declaration") {
            Ok(()) => {},
            Err(e) => return Err(e),
        }
        let expr = match self.parse_expr() {
            Ok(e) => e,
            Err(e) => return Err(e),
        };
        Ok(Stmt::Let { name, mutable, expr })
    }

    /// `fn name(params) { body }`.
    fn parse_fn_decl(&mut self) -> (r: EiriadResult<Stmt>)
        requires
            old(self).wf(),
        ensures
            final(self).wf(),
            final(self).tokens == old(self).tokens,
            agrees_stmt(r, parse_fn_decl(old(self).tokens@, old(self).pos as int), old(self).pos as int, final(self).pos as int),
    {
        let ghost ts = self.tokens@;
        let ghost p0 = self.pos as int;
        match self.expect_token(Punct::Fn, "Expected 'fn'") {
            Ok(()) => {},
            Err(e) => return Err(e),
        }
        let name = match self.expect_ident() {
            Ok(n) => n,
            Err(e) => return Err(e),
        };
        match self.expect_token(Punct::LParen, "Expected '(' after function name") {
            Ok(()) => {},
            Err(e) => return Err(e),
        }
        let ghost q0 = self.pos as int;
        let mut params: Vec<String> = Vec::new();
        let mut more = !self.at_punct(Punct::RParen);
        while more
            invariant
                self.wf(),
                self.tokens == old(self).tokens,
                ts == self.tokens@,
                q0 == p0 + 3,
                p0 == old(self).pos,
                q0 <= self.pos,
                kind_at(ts, p0) is Fn,
                kind_at(ts, p0 + 1) is Ident,
                kind_at(ts, p0 + 2) is LParen,
                more ==> !(kind_at(ts, q0) is RParen),
                more ==> fn_params(ts, q0, Seq::empty()) == shift(fn_params(ts, self.pos as int, params@), (self.pos - q0) as nat),
                !more ==> (if kind_at(ts, q0) is RParen {
                    Ok::<(Seq<String>, nat), Seq<char>>((Seq::empty(), 0))
                } else {
                    fn_params(ts, q0, Seq::empty())
                }) == Ok::<(Seq<String>, nat), Seq<char>>((params@, (self.pos - q0) as nat)),
            decreases ts.len() - self.pos, if more { 1nat } else { 0nat },
        {
            let param = match self.expect_ident() {
                Ok(n) => n,
                Err(e) => return Err(e),
            };
            params.push(param);
            if self.at_punct(Punct::Colon) {
                self.bump();
                self.skip_type_annotation_until_param_boundary();
            }
            if self.at_punct(Punct::Comma) {
                self.bump();
            } else {
                more = false;
            }
        }
        match self.expect_token(Punct::RParen, "Expected ')' after parameter list") {
            Ok(()) => {},
            Err(e) => return Err(e),
        }
        if self.at_punct(Punct::Arrow) {
            self.bump();
            self.skip_type_annotation_until_block_or_expr();
        }
        let body = match self.parse_block() {
            Ok(b) => b,
            Err(e) => return Err(e),
        };
        Ok(Stmt::Fn { name, params, body })
    }

    /// `name = expr`.
    fn parse_assign(&mut self) -> (r: EiriadResult<Stmt>)
        requires
            old(self).wf(),
        ensures
            final(self).wf(),
            final(self).tokens == old(self).tokens,
            agrees_stmt(r, parse_assign(old(self).tokens@, old(self).pos as int), old(self).pos as int, final(self).pos as int),
    {
        let name = match self.expect_ident() {
            Ok(n) => n,
            Err(e) => return Err(e),
        };
        match self.expect_token(Punct::Eq, "Expected '=' in assignment") {
            Ok(()) => {},
            Err(e) => return Err(e),
        }
        let expr = match self.parse_expr() {
            Ok(e) => e,
            Err(e) => return Err(e),
        };
        Ok(Stmt::Assign { name, expr })
    }

    /// A statement.
    fn parse_stmt(&mut self) -> (r: EiriadResult<Stmt>)
        requires
            old(self).wf(),
        ensures
            final(self).wf(),
            final(self).tokens == old(self).tokens,
            agrees_stmt(r, parse_stmt(old(self).tokens@, old(self).pos as int), old(self).pos as int, final(self).pos as int),
    {
        if matches!(self.peek_kind(), TokenKind::Let) {
            self.parse_let(false)
        } else if matches!(self.peek_kind(), TokenKind::Mut) {
            self.parse_let(true)
        } else if matches!(self.peek_kind(), TokenKind::Fn) {
            self.parse_fn_decl()
        } else if self.lookahead_is_eq() {
            self.parse_assign()
        } else {
            match self.parse_expr() {
                Ok(e) => Ok(Stmt::Expr(e)),
                Err(e) => Err(e),
            }
        }
    }

    /// Parses statements, separated by newlines or `;`, up to `Eof`. The
    /// result is the one `parse_program_from` gives.
    pub fn parse_program(&mut self) -> (r: EiriadResult<Vec<Stmt>>)
        requires
            old(self).wf(),
        ensures
            final(self).wf(),
            final(self).toks() == old(self).toks(),
            match r {
                Ok(v) => parse_program_from(old(self).toks(), old(self).at()) == Ok::<Seq<StmtV>, Seq<char>>(stmts_view(v@))
                    && program_pipe_free(stmts_view(v@)),
                Err(e) => parse_program_from(old(self).toks(), old(self).at()) == Err::<Seq<StmtV>, Seq<char>>(e.message@),
            },
    {
        let ghost ts = self.tokens@;
        let ghost p0 = self.pos as int;
        let mut stmts: Vec<Stmt> = Vec::new();
        self.skip_terminators();
        proof {
            assert(stmts_view(stmts@) =~= Seq::<StmtV>::empty());
            match parse_stmts(ts, self.pos as int) {
                Ok(rest) => {
                    assert(Seq::<StmtV>::empty() + rest =~= rest);
                },
                Err(_) => {},
            }
        }
        while !self.is_eof()
            invariant
                self.wf(),
                self.tokens == old(self).tokens,
                ts == self.tokens@,
                p0 == old(self).pos,
                parse_program_from(ts, p0) == prepend_stmts(stmts_view(stmts@), parse_stmts(ts, self.pos as int)),
                program_pipe_free(stmts_view(stmts@)),
            decreases ts.len() - self.pos,
        {
            let ghost before = self.pos as int;
            proof {
                lemma_stmt_progress(ts, before);
            }
            let stmt = match self.parse_stmt() {
                Ok(s) => s,
                Err(e) => return Err(e),
            };
            let ghost old_stmts = stmts@;
            stmts.push(stmt);
            self.skip_terminators();
            proof {
                assert(stmts_view(stmts@) =~= stmts_view(old_stmts).push(stmt@));
                match parse_stmts(ts, self.pos as int) {
                    Ok(rest) => {
                        assert(stmts_view(old_stmts) + (seq![stmt@] + rest) =~= stmts_view(stmts@) + rest);
                    },
                    Err(_) => {},
                }
            }
        }
        proof {
            assert(stmts_view(stmts@) + Seq::<StmtV>::empty() =~= stmts_view(stmts@));
        }
        Ok(stmts)
    }
}


// ---------------------------------------------------------------------------
// How operator tokens are read.
// ---------------------------------------------------------------------------

/// An integer literal at `p` is a whole operand of level `l` when the next
/// token neither calls it, nor raises it to a power, nor is an operator of
/// level `l` or tighter.
proof fn lemma_int_level(ts: Seq<Token>, p: int, l: Level, v: i64)
    requires
        0 <= p,
        p + 1 < ts.len(),
        ts[p].kind == TokenKind::Int(v),
        !(ts[p + 1].kind is LParen),
        !(ts[p + 1].kind is Caret),
        forall|l2: Level| level_rank(l2) <= level_rank(l) ==> (#[trigger] level_op(l2, ts[p + 1].kind)) is None,
    ensures
        parse_operand(ts, p, l) == Ok::<(ExprV, nat), Seq<char>>((ExprV::Int(v), 1)),
        parse_level(ts, p, l) == Ok::<(ExprV, nat), Seq<char>>((ExprV::Int(v), 1)),
    decreases level_rank(l),
{
    lemma_int_operand(ts, p, l, v);
    assert(level_op(l, ts[p + 1].kind) is None);
    assert(level_rest(ts, p + 1, l, ExprV::Int(v)) == Ok::<(ExprV, nat), Seq<char>>((ExprV::Int(v), 0)));
}

proof fn lemma_int_operand(ts: Seq<Token>, p: int, l: Level, v: i64)
    requires
        0 <= p,
        p + 1 < ts.len(),
        ts[p].kind == TokenKind::Int(v),
        !(ts[p + 1].kind is LParen),
        !(ts[p + 1].kind is Caret),
        forall|l2: Level| level_rank(l2) < level_rank(l) ==> (#[trigger] level_op(l2, ts[p + 1].kind)) is None,
    ensures
        parse_operand(ts, p, l) == Ok::<(ExprV, nat), Seq<char>>((ExprV::Int(v), 1)),
    decreases level_rank(l), 0nat,
{
    if l is Factor {
        assert(parse_primary(ts, p) == Ok::<(ExprV, nat), Seq<char>>((ExprV::Int(v), 1)));
        assert(call_rest(ts, p + 1, ExprV::Int(v)) == Ok::<(ExprV, nat), Seq<char>>((ExprV::Int(v), 0)));
        assert(parse_call(ts, p) == Ok::<(ExprV, nat), Seq<char>>((ExprV::Int(v), 1)));
        assert(parse_unary(ts, p) == Ok::<(ExprV, nat), Seq<char>>((ExprV::Int(v), 1)));
        assert(parse_power(ts, p) == Ok::<(ExprV, nat), Seq<char>>((ExprV::Int(v), 1)));
    } else {
        lemma_int_level(ts, p, next_level(l), v);
    }
}

/// Once level `l` has read the whole of `e`, every looser level reads it too.
proof fn lemma_looser_levels(ts: Seq<Token>, l: Level, inner: Level, e: ExprV, n: nat)
    requires
        parse_level(ts, 0, inner) == Ok::<(ExprV, nat), Seq<char>>((e, n)),
        level_rank(inner) <= level_rank(l),
        kind_at(ts, n as int) is Eof,
    ensures
        parse_level(ts, 0, l) == Ok::<(ExprV, nat), Seq<char>>((e, n)),
    decreases level_rank(l),
{
    if level_rank(l) > level_rank(inner) {
        lemma_looser_levels(ts, next_level(l), inner, e, n);
        assert(parse_operand(ts, 0, l) == Ok::<(ExprV, nat), Seq<char>>((e, n)));
        assert(level_rest(ts, n as int, l, e) == Ok::<(ExprV, nat), Seq<char>>((e, 0)));
    } else {
        assert(l == inner);
    }
}

/// A whole program that is the expression `e`, read from all `n` tokens.
proof fn lemma_expr_program(ts: Seq<Token>, e: ExprV, n: nat)
    requires
        parse_level(ts, 0, Level::Or) == Ok::<(ExprV, nat), Seq<char>>((e, n)),
        n > 0,
        n < ts.len(),
        ts[n as int].kind is Eof,
        !is_terminator(kind_at(ts, 0)),
        !(kind_at(ts, 0) is Let || kind_at(ts, 0) is Mut || kind_at(ts, 0) is Fn || kind_at(ts, 0) is Ident || kind_at(ts, 0) is Eof),
    ensures
        parse_program_from(ts, 0) == Ok::<Seq<StmtV>, Seq<char>>(seq![StmtV::Expr(e)]),
{
    assert(pipe_rest(ts, n as int, e) == Ok::<(ExprV, nat), Seq<char>>((e, 0)));
    assert(parse_expr(ts, 0) == Ok::<(ExprV, nat), Seq<char>>((e, n)));
    assert(parse_stmt(ts, 0) == Ok::<(StmtV, nat), Seq<char>>((StmtV::Expr(e), n)));
    assert(skip_terms(ts, 0) == 0);
    assert(skip_terms(ts, n as int) == 0);
    assert(parse_stmts(ts, n as int) == Ok::<Seq<StmtV>, Seq<char>>(Seq::empty()));
    assert(seq![StmtV::Expr(e)] + Seq::<StmtV>::empty() =~= seq![StmtV::Expr(e)]);
}

/// `a op b` for a left-associative operator token of level `lv`.
proof fn lemma_int_binary(ts: Seq<Token>, a: i64, b: i64, lv: Level, op: BinaryOp)
    requires
        ts.len() == 4,
        ts[0].kind == TokenKind::Int(a),
        ts[2].kind == TokenKind::Int(b),
        ts[3].kind is Eof,
        !(ts[1].kind is LParen),
        !(ts[1].kind is Caret),
        level_op(lv, ts[1].kind) == Some(op),
        forall|l2: Level| l2 != lv ==> (#[trigger] level_op(l2, ts[1].kind)) is None,
    ensures
        parse_program_from(ts, 0) == Ok::<Seq<StmtV>, Seq<char>>(seq![StmtV::Expr(binary(ExprV::Int(a), op, ExprV::Int(b)))]),
{
    let e = binary(ExprV::Int(a), op, ExprV::Int(b));
    assert forall|l2: Level| level_rank(l2) < level_rank(lv) implies (#[trigger] level_op(l2, ts[1].kind)) is None by {
        assert(l2 != lv);
    }
    lemma_int_operand(ts, 0, lv, a);
    assert forall|l2: Level| level_rank(l2) < level_rank(lv) implies (#[trigger] level_op(l2, ts[3].kind)) is None by {}
    lemma_int_operand(ts, 2, lv, b);
    assert(kind_at(ts, 1) == ts[1].kind);
    assert(level_rest(ts, 3, lv, e) == Ok::<(ExprV, nat), Seq<char>>((e, 0)));
    assert(level_rest(ts, 1, lv, ExprV::Int(a)) == Ok::<(ExprV, nat), Seq<char>>((e, 2)));
    assert(parse_level(ts, 0, lv) == Ok::<(ExprV, nat), Seq<char>>((e, 3)));
    lemma_looser_levels(ts, Level::Or, lv, e, 3);
    lemma_expr_program(ts, e, 3);
}

/// `a ^ b`.
proof fn lemma_int_power(ts: Seq<Token>, a: i64, b: i64)
    requires
        ts.len() == 4,
        ts[0].kind == TokenKind::Int(a),
        ts[1].kind is Caret,
        ts[2].kind == TokenKind::Int(b),
        ts[3].kind is Eof,
    ensures
        parse_program_from(ts, 0) == Ok::<Seq<StmtV>, Seq<char>>(seq![StmtV::Expr(binary(ExprV::Int(a), BinaryOp::Pow, ExprV::Int(b)))]),
{
    let e = binary(ExprV::Int(a), BinaryOp::Pow, ExprV::Int(b));
    assert(parse_primary(ts, 0) == Ok::<(ExprV, nat), Seq<char>>((ExprV::Int(a), 1)));
    assert(call_rest(ts, 1, ExprV::Int(a)) == Ok::<(ExprV, nat), Seq<char>>((ExprV::Int(a), 0)));
    assert(parse_call(ts, 0) == Ok::<(ExprV, nat), Seq<char>>((ExprV::Int(a), 1)));
    assert(parse_unary(ts, 0) == Ok::<(ExprV, nat), Seq<char>>((ExprV::Int(a), 1)));
    assert(parse_primary(ts, 2) == Ok::<(ExprV, nat), Seq<char>>((ExprV::Int(b), 1)));
    assert(call_rest(ts, 3, ExprV::Int(b)) == Ok::<(ExprV, nat), Seq<char>>((ExprV::Int(b), 0)));
    assert(parse_call(ts, 2) == Ok::<(ExprV, nat), Seq<char>>((ExprV::Int(b), 1)));
    assert(parse_unary(ts, 2) == Ok::<(ExprV, nat), Seq<char>>((ExprV::Int(b), 1)));
    assert(parse_power(ts, 2) == Ok::<(ExprV, nat), Seq<char>>((ExprV::Int(b), 1)));
    assert(parse_power(ts, 0) == Ok::<(ExprV, nat), Seq<char>>((e, 3)));
    assert(parse_operand(ts, 0, Level::Factor) == Ok::<(ExprV, nat), Seq<char>>((e, 3)));
    assert(level_rest(ts, 3, Level::Factor, e) == Ok::<(ExprV, nat), Seq<char>>((e, 0)));
    assert(parse_level(ts, 0, Level::Factor) == Ok::<(ExprV, nat), Seq<char>>((e, 3)));
    lemma_looser_levels(ts, Level::Or, Level::Factor, e, 3);
    lemma_expr_program(ts, e, 3);
}

/// The program of the tokens `a op b`: one expression statement.
pub open spec fn int_binary_program(a: i64, op: BinaryOp, b: i64) -> Seq<StmtV> {
    seq![StmtV::Expr(ExprV::Binary { left: Box::new(ExprV::Int(a)), op, right: Box::new(ExprV::Int(b)) })]
}

/// Each binary operator token is read as its own operator: the tokens of
/// two integer literals with an operator token between them form the one
/// expression that applies that operator to them.
pub proof fn law_operator_tokens(ts: Seq<Token>, a: i64, b: i64)
    requires
        ts.len() == 4,
        ts[0].kind == TokenKind::Int(a),
        ts[2].kind == TokenKind::Int(b),
        ts[3].kind is Eof,
    ensures
        ts[1].kind is OrOr ==> parse_program_from(ts, 0) == Ok::<Seq<StmtV>, Seq<char>>(int_binary_program(a, BinaryOp::Or, b)),
        ts[1].kind is AndAnd ==> parse_program_from(ts, 0) == Ok::<Seq<StmtV>, Seq<char>>(int_binary_program(a, BinaryOp::And, b)),
        ts[1].kind is EqEq ==> parse_program_from(ts, 0) == Ok::<Seq<StmtV>, Seq<char>>(int_binary_program(a, BinaryOp::Eq, b)),
        ts[1].kind is Ne ==> parse_program_from(ts, 0) == Ok::<Seq<StmtV>, Seq<char>>(int_binary_program(a, BinaryOp::Ne, b)),
        ts[1].kind is Lt ==> parse_program_from(ts, 0) == Ok::<Seq<StmtV>, Seq<char>>(int_binary_program(a, BinaryOp::Lt, b)),
        ts[1].kind is Le ==> parse_program_from(ts, 0) == Ok::<Seq<StmtV>, Seq<char>>(int_binary_program(a, BinaryOp::Le, b)),
        ts[1].kind is Gt ==> parse_program_from(ts, 0) == Ok::<Seq<StmtV>, Seq<char>>(int_binary_program(a, BinaryOp::Gt, b)),
        ts[1].kind is Ge ==> parse_program_from(ts, 0) == Ok::<Seq<StmtV>, Seq<char>>(int_binary_program(a, BinaryOp::Ge, b)),
        ts[1].kind is Plus ==> parse_program_from(ts, 0) == Ok::<Seq<StmtV>, Seq<char>>(int_binary_program(a, BinaryOp::Add, b)),
        ts[1].kind is Minus ==> parse_program_from(ts, 0) == Ok::<Seq<StmtV>, Seq<char>>(int_binary_program(a, BinaryOp::Sub, b)),
        ts[1].kind is Star ==> parse_program_from(ts, 0) == Ok::<Seq<StmtV>, Seq<char>>(int_binary_program(a, BinaryOp::Mul, b)),
        ts[1].kind is Slash ==> parse_program_from(ts, 0) == Ok::<Seq<StmtV>, Seq<char>>(int_binary_program(a, BinaryOp::Div, b)),
        ts[1].kind is Percent ==> parse_program_from(ts, 0) == Ok::<Seq<StmtV>, Seq<char>>(int_binary_program(a, BinaryOp::Mod, b)),
        ts[1].kind is Caret ==> parse_program_from(ts, 0) == Ok::<Seq<StmtV>, Seq<char>>(int_binary_program(a, BinaryOp::Pow, b)),
{
    let k = ts[1].kind;
    if k is OrOr {
        lemma_int_binary(ts, a, b, Level::Or, BinaryOp::Or);
    } else if k is AndAnd {
        lemma_int_binary(ts, a, b, Level::And, BinaryOp::And);
    } else if k is EqEq {
        lemma_int_binary(ts, a, b, Level::Equality, BinaryOp::Eq);
    } else if k is Ne {
        lemma_int_binary(ts, a, b, Level::Equality, BinaryOp::Ne);
    } else if k is Lt {
        lemma_int_binary(ts, a, b, Level::Comparison, BinaryOp::Lt);
    } else if k is Le {
        lemma_int_binary(ts, a, b, Level::Comparison, BinaryOp::Le);
    } else if k is Gt {
        lemma_int_binary(ts, a, b, Level::Comparison, BinaryOp::Gt);
    } else if k is Ge {
        lemma_int_binary(ts, a, b, Level::Comparison, BinaryOp::Ge);
    } else if k is Plus {
        lemma_int_binary(ts, a, b, Level::Term, BinaryOp::Add);
    } else if k is Minus {
        lemma_int_binary(ts, a, b, Level::Term, BinaryOp::Sub);
    } else if k is Star {
        lemma_int_binary(ts, a, b, Level::Factor, BinaryOp::Mul);
    } else if k is Slash {
        lemma_int_binary(ts, a, b, Level::Factor, BinaryOp::Div);
    } else if k is Percent {
        lemma_int_binary(ts, a, b, Level::Factor, BinaryOp::Mod);
    } else if k is Caret {
        lemma_int_power(ts, a, b);
    }
}


// ---------------------------------------------------------------------------
// Precedence and associativity.
// ---------------------------------------------------------------------------

/// The token kind `k` is the operator `op` of level `lv` and of no other level.
pub open spec fn operator_of_level(k: TokenKind, lv: Level, op: BinaryOp) -> bool {
    &&& level_op(lv, k) == Some(op)
    &&& forall|l2: Level| l2 != lv ==> (#[trigger] level_op(l2, k)) is None
    &&& !(k is LParen)
    &&& !(k is Caret)
}

/// `a op b` at `p`, followed by a token that no level up to `l` reads as an
/// operator, is read whole by level `l`.
proof fn lemma_pair_level(ts: Seq<Token>, p: int, a: i64, b: i64, lv: Level, op: BinaryOp, l: Level)
    requires
        0 <= p,
        p + 3 < ts.len(),
        ts[p].kind == TokenKind::Int(a),
        operator_of_level(ts[p + 1].kind, lv, op),
        ts[p + 2].kind == TokenKind::Int(b),
        !(ts[p + 3].kind is LParen),
        !(ts[p + 3].kind is Caret),
        forall|l2: Level| level_rank(l2) <= level_rank(l) ==> (#[trigger] level_op(l2, ts[p + 3].kind)) is None,
        level_rank(lv) <= level_rank(l),
    ensures
        parse_level(ts, p, l) == Ok::<(ExprV, nat), Seq<char>>((binary(ExprV::Int(a), op, ExprV::Int(b)), 3)),
    decreases level_rank(l),
{
    let e = binary(ExprV::Int(a), op, ExprV::Int(b));
    if l == lv {
        assert forall|l2: Level| level_rank(l2) < level_rank(lv) implies (#[trigger] level_op(l2, ts[p + 1].kind)) is None by {
            assert(l2 != lv);
        }
        lemma_int_operand(ts, p, lv, a);
        lemma_int_operand(ts, p + 2, lv, b);
        assert(kind_at(ts, p + 1) == ts[p + 1].kind);
        assert(kind_at(ts, p + 3) == ts[p + 3].kind);
        assert(level_rest(ts, p + 3, lv, e) == Ok::<(ExprV, nat), Seq<char>>((e, 0)));
        assert(level_rest(ts, p + 1, lv, ExprV::Int(a)) == Ok::<(ExprV, nat), Seq<char>>((e, 2)));
    } else {
        lemma_pair_level(ts, p, a, b, lv, op, next_level(l));
        assert(parse_operand(ts, p, l) == Ok::<(ExprV, nat), Seq<char>>((e, 3)));
        assert(kind_at(ts, p + 3) == ts[p + 3].kind);
        assert(level_rest(ts, p + 3, l, e) == Ok::<(ExprV, nat), Seq<char>>((e, 0)));
    }
}

/// `a op1 b op2 c` where `op1` binds more loosely: `a op1 (b op2 c)`.
proof fn lemma_looser_first(ts: Seq<Token>, a: i64, b: i64, c: i64, l1: Level, op1: BinaryOp, l2: Level, op2: BinaryOp)
    requires
        ts.len() == 6,
        ts[0].kind == TokenKind::Int(a),
        operator_of_level(ts[1].kind, l1, op1),
        ts[2].kind == TokenKind::Int(b),
        operator_of_level(ts[3].kind, l2, op2),
        ts[4].kind == TokenKind::Int(c),
        ts[5].kind is Eof,
        level_rank(l2) < level_rank(l1),
    ensures
        parse_program_from(ts, 0) == Ok::<Seq<StmtV>, Seq<char>>(
            seq![StmtV::Expr(binary(ExprV::Int(a), op1, binary(ExprV::Int(b), op2, ExprV::Int(c))))],
        ),
{
    let r = binary(ExprV::Int(b), op2, ExprV::Int(c));
    let e = binary(ExprV::Int(a), op1, r);
    assert forall|l: Level| level_rank(l) < level_rank(l1) implies (#[trigger] level_op(l, ts[1].kind)) is None by {
        assert(l != l1);
    }
    lemma_int_operand(ts, 0, l1, a);
    lemma_pair_level(ts, 2, b, c, l2, op2, next_level(l1));
    assert(parse_operand(ts, 2, l1) == Ok::<(ExprV, nat), Seq<char>>((r, 3)));
    assert(kind_at(ts, 1) == ts[1].kind);
    assert(level_rest(ts, 5, l1, e) == Ok::<(ExprV, nat), Seq<char>>((e, 0)));
    assert(level_rest(ts, 1, l1, ExprV::Int(a)) == Ok::<(ExprV, nat), Seq<char>>((e, 4)));
    assert(parse_level(ts, 0, l1) == Ok::<(ExprV, nat), Seq<char>>((e, 5)));
    lemma_looser_levels(ts, Level::Or, l1, e, 5);
    lemma_expr_program(ts, e, 5);
}

/// `a op1 b op2 c` where `op1` binds as tightly or more: `(a op1 b) op2 c`.
proof fn lemma_tighter_first(ts: Seq<Token>, a: i64, b: i64, c: i64, l1: Level, op1: BinaryOp, l2: Level, op2: BinaryOp)
    requires
        ts.len() == 6,
        ts[0].kind == TokenKind::Int(a),
        operator_of_level(ts[1].kind, l1, op1),
        ts[2].kind == TokenKind::Int(b),
        operator_of_level(ts[3].kind, l2, op2),
        ts[4].kind == TokenKind::Int(c),
        ts[5].kind is Eof,
        level_rank(l1) <= level_rank(l2),
    ensures
        parse_program_from(ts, 0) == Ok::<Seq<StmtV>, Seq<char>>(
            seq![StmtV::Expr(binary(binary(ExprV::Int(a), op1, ExprV::Int(b)), op2, ExprV::Int(c)))],
        ),
{
    let ab = binary(ExprV::Int(a), op1, ExprV::Int(b));
    let e = binary(ab, op2, ExprV::Int(c));
    assert forall|l: Level| level_rank(l) < level_rank(l2) implies (#[trigger] level_op(l, ts[3].kind)) is None by {
        assert(l != l2);
    }
    assert(kind_at(ts, 1) == ts[1].kind);
    assert(kind_at(ts, 3) == ts[3].kind);
    if l1 == l2 {
        assert forall|l: Level| level_rank(l) < level_rank(l1) implies (#[trigger] level_op(l, ts[1].kind)) is None by {
            assert(l != l1);
        }
        lemma_int_operand(ts, 0, l2, a);
        lemma_int_operand(ts, 2, l2, b);
        lemma_int_operand(ts, 4, l2, c);
        assert(level_rest(ts, 5, l2, e) == Ok::<(ExprV, nat), Seq<char>>((e, 0)));
        assert(level_rest(ts, 3, l2, ab) == Ok::<(ExprV, nat), Seq<char>>((e, 2)));
        assert(level_rest(ts, 1, l2, ExprV::Int(a)) == Ok::<(ExprV, nat), Seq<char>>((e, 4)));
    } else {
        lemma_pair_level(ts, 0, a, b, l1, op1, next_level(l2));
        assert(parse_operand(ts, 0, l2) == Ok::<(ExprV, nat), Seq<char>>((ab, 3)));
        lemma_int_operand(ts, 4, l2, c);
        assert(level_rest(ts, 5, l2, e) == Ok::<(ExprV, nat), Seq<char>>((e, 0)));
        assert(level_rest(ts, 3, l2, ab) == Ok::<(ExprV, nat), Seq<char>>((e, 2)));
    }
    assert(parse_level(ts, 0, l2) == Ok::<(ExprV, nat), Seq<char>>((e, 5)));
    lemma_looser_levels(ts, Level::Or, l2, e, 5);
    lemma_expr_program(ts, e, 5);
}

/// `(x op y)` as a tree.
pub open spec fn op_tree(x: ExprV, op: BinaryOp, y: ExprV) -> ExprV {
    ExprV::Binary { left: Box::new(x), op, right: Box::new(y) }
}

/// The program of the tokens `a k1 b k2 c`.
pub open spec fn three_ints(ts: Seq<Token>, a: i64, b: i64, c: i64) -> bool {
    &&& ts.len() == 6
    &&& ts[0].kind == TokenKind::Int(a)
    &&& ts[2].kind == TokenKind::Int(b)
    &&& ts[4].kind == TokenKind::Int(c)
    &&& ts[5].kind is Eof
}

/// Precedence and associativity: `*` and `/` bind more tightly than `+` and
/// `-`, which bind more tightly than comparisons, then `==` and `!=`, then
/// `&&`, then `||`; operators of one level group from the left.
pub proof fn law_operator_precedence(ts: Seq<Token>, a: i64, b: i64, c: i64)
    requires
        three_ints(ts, a, b, c),
    ensures
        ts[1].kind is Plus && ts[3].kind is Star ==> parse_program_from(ts, 0) == Ok::<Seq<StmtV>, Seq<char>>(
            seq![StmtV::Expr(op_tree(ExprV::Int(a), BinaryOp::Add, op_tree(ExprV::Int(b), BinaryOp::Mul, ExprV::Int(c))))],
        ),
        ts[1].kind is Star && ts[3].kind is Plus ==> parse_program_from(ts, 0) == Ok::<Seq<StmtV>, Seq<char>>(
            seq![StmtV::Expr(op_tree(op_tree(ExprV::Int(a), BinaryOp::Mul, ExprV::Int(b)), BinaryOp::Add, ExprV::Int(c)))],
        ),
        ts[1].kind is Minus && ts[3].kind is Minus ==> parse_program_from(ts, 0) == Ok::<Seq<StmtV>, Seq<char>>(
            seq![StmtV::Expr(op_tree(op_tree(ExprV::Int(a), BinaryOp::Sub, ExprV::Int(b)), BinaryOp::Sub, ExprV::Int(c)))],
        ),
        ts[1].kind is Slash && ts[3].kind is Percent ==> parse_program_from(ts, 0) == Ok::<Seq<StmtV>, Seq<char>>(
            seq![StmtV::Expr(op_tree(op_tree(ExprV::Int(a), BinaryOp::Div, ExprV::Int(b)), BinaryOp::Mod, ExprV::Int(c)))],
        ),
        ts[1].kind is Lt && ts[3].kind is Minus ==> parse_program_from(ts, 0) == Ok::<Seq<StmtV>, Seq<char>>(
            seq![StmtV::Expr(op_tree(ExprV::Int(a), BinaryOp::Lt, op_tree(ExprV::Int(b), BinaryOp::Sub, ExprV::Int(c))))],
        ),
        ts[1].kind is Plus && ts[3].kind is Ge ==> parse_program_from(ts, 0) == Ok::<Seq<StmtV>, Seq<char>>(
            seq![StmtV::Expr(op_tree(op_tree(ExprV::Int(a), BinaryOp::Add, ExprV::Int(b)), BinaryOp::Ge, ExprV::Int(c)))],
        ),
        ts[1].kind is EqEq && ts[3].kind is Le ==> parse_program_from(ts, 0) == Ok::<Seq<StmtV>, Seq<char>>(
            seq![StmtV::Expr(op_tree(ExprV::Int(a), BinaryOp::Eq, op_tree(ExprV::Int(b), BinaryOp::Le, ExprV::Int(c))))],
        ),
        ts[1].kind is Gt && ts[3].kind is Ne ==> parse_program_from(ts, 0) == Ok::<Seq<StmtV>, Seq<char>>(
            seq![StmtV::Expr(op_tree(op_tree(ExprV::Int(a), BinaryOp::Gt, ExprV::Int(b)), BinaryOp::Ne, ExprV::Int(c)))],
        ),
        ts[1].kind is AndAnd && ts[3].kind is EqEq ==> parse_program_from(ts, 0) == Ok::<Seq<StmtV>, Seq<char>>(
            seq![StmtV::Expr(op_tree(ExprV::Int(a), BinaryOp::And, op_tree(ExprV::Int(b), BinaryOp::Eq, ExprV::Int(c))))],
        ),
        ts[1].kind is OrOr && ts[3].kind is AndAnd ==> parse_program_from(ts, 0) == Ok::<Seq<StmtV>, Seq<char>>(
            seq![StmtV::Expr(op_tree(ExprV::Int(a), BinaryOp::Or, op_tree(ExprV::Int(b), BinaryOp::And, ExprV::Int(c))))],
        ),
        ts[1].kind is AndAnd && ts[3].kind is OrOr ==> parse_program_from(ts, 0) == Ok::<Seq<StmtV>, Seq<char>>(
            seq![StmtV::Expr(op_tree(op_tree(ExprV::Int(a), BinaryOp::And, ExprV::Int(b)), BinaryOp::Or, ExprV::Int(c)))],
        ),
{
    let k1 = ts[1].kind;
    let k3 = ts[3].kind;
    if k1 is Plus && k3 is Star {
        lemma_looser_first(ts, a, b, c, Level::Term, BinaryOp::Add, Level::Factor, BinaryOp::Mul);
    } else if k1 is Star && k3 is Plus {
        lemma_tighter_first(ts, a, b, c, Level::Factor, BinaryOp::Mul, Level::Term, BinaryOp::Add);
    } else if k1 is Minus && k3 is Minus {
        lemma_tighter_first(ts, a, b, c, Level::Term, BinaryOp::Sub, Level::Term, BinaryOp::Sub);
    } else if k1 is Slash && k3 is Percent {
        lemma_tighter_first(ts, a, b, c, Level::Factor, BinaryOp::Div, Level::Factor, BinaryOp::Mod);
    } else if k1 is Lt && k3 is Minus {
        lemma_looser_first(ts, a, b, c, Level::Comparison, BinaryOp::Lt, Level::Term, BinaryOp::Sub);
    } else if k1 is Plus && k3 is Ge {
        lemma_tighter_first(ts, a, b, c, Level::Term, BinaryOp::Add, Level::Comparison, BinaryOp::Ge);
    } else if k1 is EqEq && k3 is Le {
        lemma_looser_first(ts, a, b, c, Level::Equality, BinaryOp::Eq, Level::Comparison, BinaryOp::Le);
    } else if k1 is Gt && k3 is Ne {
        lemma_tighter_first(ts, a, b, c, Level::Comparison, BinaryOp::Gt, Level::Equality, BinaryOp::Ne);
    } else if k1 is AndAnd && k3 is EqEq {
        lemma_looser_first(ts, a, b, c, Level::And, BinaryOp::And, Level::Equality, BinaryOp::Eq);
    } else if k1 is OrOr && k3 is AndAnd {
        lemma_looser_first(ts, a, b, c, Level::Or, BinaryOp::Or, Level::And, BinaryOp::And);
    } else if k1 is AndAnd && k3 is OrOr {
        lemma_tighter_first(ts, a, b, c, Level::And, BinaryOp::And, Level::Or, BinaryOp::Or);
    }
}


/// An integer literal at `p` followed by a token other than `(` is read by
/// a prefix-free operand as that literal.
proof fn lemma_int_unary(ts: Seq<Token>, p: int, v: i64)
    requires
        0 <= p,
        p + 1 < ts.len(),
        ts[p].kind == TokenKind::Int(v),
        !(ts[p + 1].kind is LParen),
    ensures
        parse_unary(ts, p) == Ok::<(ExprV, nat), Seq<char>>((ExprV::Int(v), 1)),
{
    assert(parse_primary(ts, p) == Ok::<(ExprV, nat), Seq<char>>((ExprV::Int(v), 1)));
    assert(call_rest(ts, p + 1, ExprV::Int(v)) == Ok::<(ExprV, nat), Seq<char>>((ExprV::Int(v), 0)));
    assert(parse_call(ts, p) == Ok::<(ExprV, nat), Seq<char>>((ExprV::Int(v), 1)));
}

/// `^` groups from the right: `a ^ b ^ c` is `a ^ (b ^ c)`.
pub proof fn law_power_groups_right(ts: Seq<Token>, a: i64, b: i64, c: i64)
    requires
        three_ints(ts, a, b, c),
        ts[1].kind is Caret,
        ts[3].kind is Caret,
    ensures
        parse_program_from(ts, 0) == Ok::<Seq<StmtV>, Seq<char>>(
            seq![StmtV::Expr(op_tree(ExprV::Int(a), BinaryOp::Pow, op_tree(ExprV::Int(b), BinaryOp::Pow, ExprV::Int(c))))],
        ),
{
    let r = binary(ExprV::Int(b), BinaryOp::Pow, ExprV::Int(c));
    let e = binary(ExprV::Int(a), BinaryOp::Pow, r);
    lemma_int_unary(ts, 0, a);
    lemma_int_unary(ts, 2, b);
    lemma_int_unary(ts, 4, c);
    assert(parse_power(ts, 4) == Ok::<(ExprV, nat), Seq<char>>((ExprV::Int(c), 1)));
    assert(parse_power(ts, 2) == Ok::<(ExprV, nat), Seq<char>>((r, 3)));
    assert(parse_power(ts, 0) == Ok::<(ExprV, nat), Seq<char>>((e, 5)));
    assert(parse_operand(ts, 0, Level::Factor) == Ok::<(ExprV, nat), Seq<char>>((e, 5)));
    assert(level_rest(ts, 5, Level::Factor, e) == Ok::<(ExprV, nat), Seq<char>>((e, 0)));
    assert(parse_level(ts, 0, Level::Factor) == Ok::<(ExprV, nat), Seq<char>>((e, 5)));
    lemma_looser_levels(ts, Level::Or, Level::Factor, e, 5);
    lemma_expr_program(ts, e, 5);
}

} // verus!
