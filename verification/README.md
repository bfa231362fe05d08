# eiriad

An interpreter for the EIRIAD scripting language, verified with Verus.

The library (`src/`) holds the whole language pipeline, each stage stated as
spec functions and proved against them:

- `lexer` — characters to tokens (`lex_source`).
- `parser` — tokens to statements, with `a |> f(b)` rewritten to `f(a, b)`
  (`parse_program_from`).
- `checker` — the semantic pass run before evaluation: unknown names,
  assignment to immutable bindings, operand and argument types
  (`check_stmts`).
- `value`, `ops`, `runtime` — values, the operators and built-in functions,
  and the evaluator (`eval_expr`, `exec_stmts`, `run_program`).
- `laws` — properties of the language proved over those spec functions:
  what a read gives back after `let` or an assignment, the Option/Result
  helpers, equality and ordering laws, and the host protocol below.

## The host protocol

The evaluator never does I/O and never computes with floating point: a
double is held as its IEEE 754 bits. When a program needs a double parsed or
computed, an HTTP request made, or a server run, evaluation stops with a
`HostCall`. The caller performs it and runs the program again with the
`Reply` appended to the replies so far; a run that waits leaves the
bindings as they were. `laws::law_run_replay` proves that a run that
finishes is unchanged by further replies, and that a run that waits has used
every reply it was given.

Display text is produced as `Piece`s, with each double left for the host to
format.

## Layout

- `src/` — the verified library.
- `tests/` — tests of each stage and of the laws on concrete programs.
- `app/` — the `eiriad` command (script runner and REPL), the host side of
  the protocol (double arithmetic, HTTP with `reqwest`, serving with
  `tiny_http`), and the browser bindings (`wasm-bindgen`, `web-sys`).
