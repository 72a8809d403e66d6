//! True end-to-end integration tests: whole programs through lex→parse→eval,
//! and the REPL driven via in-memory reader/writer (exercising `repl::start`,
//! including parser-error reporting and the macro pipeline that `main`/file mode
//! does not run).

#![allow(dead_code)]

use monkey::ast::{Node, Program};
use monkey::eval::eval;
use monkey::float::{Chars, FloatArith};
use monkey::lexer::Lexer;
use monkey::object::{Environment, Object, Runtime};
use monkey::parser::Parser;

/// Binary64 arithmetic for the interpreter, done by `f64`.
struct F64;

/// A binary64 result as bits, with every NaN given as the one canonical NaN
/// so that each operation's bits are a function of its arguments.
fn canonical_bits(x: f64) -> u64 {
    if x.is_nan() {
        f64::NAN.to_bits()
    } else {
        x.to_bits()
    }
}

impl FloatArith for F64 {
    // The `spec_` items name, for the verifier, what each operation gives.
    // They are never called; where their types allow it they compute the
    // operation itself. A literal's characters are a verifier-only value,
    // so `spec_parse_literal` has no runnable body.
    fn spec_parse_literal(_literal: Chars) -> u64 {
        unreachable!()
    }
    fn spec_from_int(v: i64) -> u64 {
        Self::from_int(v)
    }
    fn spec_add(a: u64, b: u64) -> u64 {
        Self::add(a, b)
    }
    fn spec_sub(a: u64, b: u64) -> u64 {
        Self::sub(a, b)
    }
    fn spec_mul(a: u64, b: u64) -> u64 {
        Self::mul(a, b)
    }
    fn spec_div(a: u64, b: u64) -> u64 {
        Self::div(a, b)
    }
    fn spec_less(a: u64, b: u64) -> bool {
        Self::less(a, b)
    }
    fn spec_equal(a: u64, b: u64) -> bool {
        Self::equal(a, b)
    }
    fn spec_format(a: u64) -> String {
        Self::format(a)
    }
    fn parse_literal(literal: &str) -> u64 {
        canonical_bits(literal.parse::<f64>().unwrap_or(0.0))
    }
    fn from_int(v: i64) -> u64 {
        canonical_bits(v as f64)
    }
    fn add(a: u64, b: u64) -> u64 {
        canonical_bits(f64::from_bits(a) + f64::from_bits(b))
    }
    fn sub(a: u64, b: u64) -> u64 {
        canonical_bits(f64::from_bits(a) - f64::from_bits(b))
    }
    fn mul(a: u64, b: u64) -> u64 {
        canonical_bits(f64::from_bits(a) * f64::from_bits(b))
    }
    fn div(a: u64, b: u64) -> u64 {
        canonical_bits(f64::from_bits(a) / f64::from_bits(b))
    }
    fn less(a: u64, b: u64) -> bool {
        f64::from_bits(a) < f64::from_bits(b)
    }
    fn equal(a: u64, b: u64) -> bool {
        f64::from_bits(a) == f64::from_bits(b)
    }
    fn format(a: u64) -> String {
        format!("{}", f64::from_bits(a))
    }
}

fn parse(input: &str) -> (Program, Parser) {
    let mut p = Parser::new(Lexer::new(input));
    let program = p.parse_program();
    (program, p)
}

fn parse_ok(input: &str) -> Program {
    let (program, p) = parse(input);
    assert!(
        p.errors().is_empty(),
        "unexpected parser errors for {:?}:\n{}",
        input,
        p.errors().join("\n")
    );
    program
}

fn eval_input(input: &str) -> Option<Object> {
    let program = parse_ok(input);
    let mut rt = Runtime::new();
    let env = Environment::new(&mut rt);
    eval::<F64>(&Node::Program(program), env, &mut rt)
}

fn expect_integer(obj: &Option<Object>, want: i64) {
    match obj {
        Some(Object::Integer(v)) => assert_eq!(*v, want, "wrong integer value"),
        other => panic!("object is not Integer({}). got={:?}", want, other),
    }
}

fn expect_float(obj: &Option<Object>, want: f64) {
    match obj {
        Some(Object::Float(v)) => assert_eq!(f64::from_bits(v.bits), want, "wrong float value"),
        other => panic!("object is not Float({}). got={:?}", want, other),
    }
}

fn expect_boolean(obj: &Option<Object>, want: bool) {
    match obj {
        Some(Object::Boolean(v)) => assert_eq!(*v, want, "wrong boolean value"),
        other => panic!("object is not Boolean({}). got={:?}", want, other),
    }
}

fn expect_string(obj: &Option<Object>, want: &str) {
    match obj {
        Some(Object::Str(v)) => assert_eq!(v, want, "wrong string value"),
        other => panic!("object is not String({:?}). got={:?}", want, other),
    }
}

fn expect_nil(obj: &Option<Object>) {
    assert!(matches!(obj, Some(Object::Nil)), "object is not Nil. got={:?}", obj);
}

fn expect_error(obj: &Option<Object>, want_msg: &str) {
    match obj {
        Some(Object::Error(msg)) => assert_eq!(msg, want_msg, "wrong error message"),
        other => panic!("object is not Error({:?}). got={:?}", want_msg, other),
    }
}

/// Run the REPL over `input` (as if typed at the prompt) and capture all output.
/// `&[u8]` implements `BufRead`; `&mut Vec<u8>` implements `Write`.
fn run_repl(input: &str) -> String {
    monkey::repl::start::<F64>(input).0
}

#[test]
fn end_to_end_program_value() {
    // A self-contained program whose final expression is the result.
    let prog = "
    let twice = fn(f, x) { f(f(x)); };
    let addThree = fn(x) { x + 3; };
    twice(addThree, 7);
    ";
    let result = eval_input(prog).expect("value").inspect();
    assert_eq!(result, "13");
}

#[test]
fn end_to_end_string_building() {
    let prog = r#"
    let greet = fn(name) { "Hello, " + name + "!"; };
    greet("Monkey");
    "#;
    assert_eq!(eval_input(prog).unwrap().inspect(), "Hello, Monkey!");
}

#[test]
fn repl_evaluates_expressions() {
    let out = run_repl("let add = fn(a, b) { a + b };\nadd(3, 4);\n");
    assert!(out.contains("7"), "output was: {:?}", out);
    // The prompt is emitted before each read.
    assert!(out.contains(">> "), "no prompt in: {:?}", out);
}

#[test]
fn repl_reports_runtime_errors_as_values() {
    let out = run_repl("foobar;\n");
    assert!(
        out.contains("Error: identifier not found: foobar"),
        "output was: {:?}",
        out
    );
}

#[test]
fn repl_reports_parser_errors() {
    let out = run_repl("let;\n");
    assert!(
        out.contains("expected next token to be IDENT, got ; instead"),
        "output was: {:?}",
        out
    );
}

#[test]
fn repl_macro_pipeline() {
    // Macros only work through the REPL (define + expand + eval).
    let line = "let unless = macro(c, a, b) { quote(if (!(unquote(c))) { unquote(a) } else { unquote(b) }); };";
    let out = run_repl(&format!("{}\nunless(true, 1, 2);\n", line));
    // !(true) -> false -> else branch -> 2
    assert!(out.contains("2"), "output was: {:?}", out);
}

#[test]
fn repl_state_persists_across_lines() {
    let out = run_repl("let x = 10;\nlet y = x * 2;\ny + 5;\n");
    assert!(out.contains("25"), "output was: {:?}", out);
}

#[test]
fn repl_eof_terminates_cleanly() {
    // Empty input => immediate EOF => just the first prompt, no panic.
    let out = run_repl("");
    assert_eq!(out, ">> ");
}
