# monkey

An interpreter for the Monkey programming language — integers, floats,
booleans, strings, arrays, hashes, first-class functions with closures, and
a `quote`/`unquote` macro system — written in Verus. Every part of the
interpreter in `src/` is verified against a specification of what it
computes.

## Layout

- `src/token.rs`, `src/lexer.rs` — tokens and the lexer; the lexer's
  behaviour is the function `lex_token` on bytes, and it always reaches the
  end of its input.
- `src/ast.rs` — the syntax tree, its meaning (`SpecExpr`, `SpecStmt`, ...),
  and its rendering as text.
- `src/parser_spec.rs`, `src/parser.rs` — the Pratt parser and the
  specification it meets, messages included.
- `src/object.rs` — values, hash keys, their text, and the environments of
  a `Runtime`.
- `src/eval_spec.rs` — what evaluation means: the value and the state after
  evaluating each kind of node.
- `src/operators.rs`, `src/builtin.rs`, `src/eval.rs` — the evaluator.
- `src/macros.rs` — macro definition and expansion.
- `src/rewrite.rs` — bottom-up rewriting of a tree with a modifier function.
- `src/repl.rs` — the interactive session, line by line, and running whole
  programs.
- `src/laws.rs` — properties that hold for every input (bindings, hash keys,
  wrapping arithmetic, error propagation, `quote`, macro definitions).
- `src/reprint.rs` — sources of the arithmetic/array fragment parse without
  errors, and the printed text of such an expression reads back as the same
  expression, so printing what was parsed is a fixed point.
- `src/float.rs` — floats are binary64 bit patterns; the arithmetic on them
  is supplied by an implementation of `FloatArith`, whose methods promise to
  give what its own `spec_` functions name. An implementation verified by
  Verus is held to that; the `f64` one in `app/` and the tests is written
  outside Verus and trusted to keep it (it gives every NaN as the one
  canonical NaN, so that its results are functions of the arguments).
- `src/text.rs`, `src/numfmt.rs` — small string helpers, decimal text and
  FNV-1a.
- `app/main.rs` — the `monkey` command: an interactive session on standard
  input, or runs a program file.
- `tests/` — tests of every part.

## Behaviour worth knowing

- Dividing an integer by zero gives the Monkey error value
  `division by zero`; the interpreter does not stop the process.
- In an interactive session, what `puts` prints is kept apart from the text
  the session writes (prompts, values, messages): `Repl::eval_line` and
  `start` give it back as a second text, and the `monkey` command prints it
  to standard output as it is printed.
