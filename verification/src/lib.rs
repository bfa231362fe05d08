//! EIRIAD: a small scripting language with a lexer, a parser, a semantic
//! checker and a tree-walking evaluator, each proved against its rules.
//!
//! The evaluator does no I/O and no floating-point arithmetic: such work is
//! asked of the caller as a `host::HostCall`, and the program is run again
//! with the `host::Reply` added (see `Runtime::exec_program`).

pub mod ast;
pub mod checker;
pub mod error;
pub mod host;
pub mod laws;
pub mod lexer;
pub mod operator_laws;
pub mod ops;
pub mod parser;
pub mod runtime;
pub mod text;
pub mod value;

use vstd::prelude::*;

pub use crate::error::{EiriadError, EiriadResult};
pub use crate::runtime::{ExecResult, Runtime};
pub use crate::value::Value;

use crate::ast::{program_pipe_free, stmts_view, Stmt, StmtV};
use crate::checker::check_stmts;
use crate::host::{replies_view, Flow, Reply};
use crate::runtime::{run_agrees, scope_types};
use crate::lexer::{lemma_lex_ends_with_eof, lex_source, lex_text, tokens_view, Token, TokenV};
use crate::parser::{parse_program_from, tokens_wf, Parser};

verus! {

/// What parsing `source` gives: the statements of its tokens, or the first
/// lexical or syntax error. The tokens are any whose models the lexer gives.
pub open spec fn parse_outcome(source: Seq<char>, r: EiriadResult<Vec<Stmt>>) -> bool {
    match r {
        Ok(prog) => exists|ts: Seq<Token>|
            #![trigger tokens_view(ts)]
            tokens_wf(ts) && lex_source(source) == Ok::<Seq<TokenV>, Seq<char>>(tokens_view(ts))
                && parse_program_from(ts, 0) == Ok::<Seq<StmtV>, Seq<char>>(stmts_view(prog@)),
        Err(e) => lex_source(source) == Err::<Seq<TokenV>, Seq<char>>(e.message@) || exists|ts: Seq<Token>|
            #![trigger tokens_view(ts)]
            tokens_wf(ts) && lex_source(source) == Ok::<Seq<TokenV>, Seq<char>>(tokens_view(ts))
                && parse_program_from(ts, 0) == Err::<Seq<StmtV>, Seq<char>>(e.message@),
    }
}

/// Lexes and parses a source text into statements.
pub fn parse_program(source: &str) -> (r: EiriadResult<Vec<Stmt>>)
    ensures
        parse_outcome(source@, r),
        r matches Ok(p) ==> program_pipe_free(stmts_view(p@)),
{
    let tokens = match lex_text(source) {
        Ok(ts) => ts,
        Err(e) => return Err(e),
    };
    let ghost ts = tokens@;
    proof {
        let start = crate::lexer::shebang_end(source@);
        lemma_lex_ends_with_eof(source@, start);
        crate::lexer::lemma_lex_eof_only_last(source@, start);
        let tv = tokens_view(ts);
        assert(tv.last() == ts.last()@);
        assert(ts.last().kind is Eof);
        assert forall|j: int| 0 <= j < ts.len() - 1 implies !((#[trigger] ts[j]).kind is Eof) by {
            assert(tv[j] == ts[j]@);
        }
        crate::parser::lemma_through_last_eof(ts);
        assert(ts[ts.len() - 1].kind is Eof);
        assert(crate::parser::has_eof(ts));
    }
    let mut parser = Parser::new(tokens);
    parser.parse_program()
}

/// What `eval_source` does with a source text: the parse outcome, then the
/// checker's verdict on the program from the scope of the runtime's
/// bindings, then the run.
pub open spec fn eval_agrees(
    source: Seq<char>,
    before: Runtime,
    rs: Seq<crate::host::ReplyV>,
    r: Flow<ExecResult>,
    after: Runtime,
) -> bool {
    exists|p: EiriadResult<Vec<Stmt>>|
        #![trigger parse_outcome(source, p)]
        parse_outcome(source, p) && match p {
            Err(e) => r matches Flow::Failed(e2) && e2.message@ == e.message@ && after.bindings() == before.bindings(),
            Ok(prog) => match check_stmts(scope_types(before.bindings()), stmts_view(prog@)) {
                Err(m) => r matches Flow::Failed(e2) && e2.message@ == m && after.bindings() == before.bindings(),
                Ok(_) => run_agrees(before.bindings(), stmts_view(prog@), rs, r, after.bindings()),
            },
        }
}

/// Parses, checks and runs a source text in `runtime` with the host's
/// replies so far. Checking starts from the runtime's bindings, so that a
/// source may use the names that earlier sources bound.
pub fn eval_source(runtime: &mut Runtime, source: &str, replies: &[Reply]) -> (r: Flow<ExecResult>)
    ensures
        eval_agrees(source@, *old(runtime), replies_view(replies@), r, *final(runtime)),
{
    let program = parse_program(source);
    match program {
        Err(e) => {
            let ghost p = Err::<Vec<Stmt>, crate::error::EiriadError>(e);
            assert(parse_outcome(source@, p));
            Flow::Failed(e)
        },
        Ok(prog) => {
            let ghost p = Ok::<Vec<Stmt>, crate::error::EiriadError>(prog);
            assert(parse_outcome(source@, p));
            let mut checker = runtime.checker();
            match checker.check_program(prog.as_slice()) {
                Err(e) => Flow::Failed(e),
                Ok(()) => runtime.exec_program(prog.as_slice(), replies),
            }
        },
    }
}

} // verus!
