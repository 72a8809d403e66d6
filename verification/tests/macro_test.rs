//! Tests of macro definition and expansion.

#![allow(dead_code)]

use monkey::ast::{Node, Program};
use monkey::eval::eval;
use monkey::float::{Chars, FloatArith};
use monkey::lexer::Lexer;
use monkey::object::{Environment, Object, Runtime};
use monkey::parser::Parser;
use monkey::macros::{define_macros, expand_macros};

/// Binary64 arithmetic for the interpreter, done by `f64`.
struct F64;

/// A binary64 result as bits, with every NaN given as the one canonical NaN
/// so that each operation's bits are a function of its arguments.
fn canonical_bits(x: f64) -> u64 {
    if x.is_nan() {
        f64::NAN.to_bits()
    } else {
        x.to_bits()
    }
}

impl FloatArith for F64 {
    // The `spec_` items name, for the verifier, what each operation gives.
    // They are never called; where their types allow it they compute the
    // operation itself. A literal's characters are a verifier-only value,
    // so `spec_parse_literal` has no runnable body.
    fn spec_parse_literal(_literal: Chars) -> u64 {
        unreachable!()
    }
    fn spec_from_int(v: i64) -> u64 {
        Self::from_int(v)
    }
    fn spec_add(a: u64, b: u64) -> u64 {
        Self::add(a, b)
    }
    fn spec_sub(a: u64, b: u64) -> u64 {
        Self::sub(a, b)
    }
    fn spec_mul(a: u64, b: u64) -> u64 {
        Self::mul(a, b)
    }
    fn spec_div(a: u64, b: u64) -> u64 {
        Self::div(a, b)
    }
    fn spec_less(a: u64, b: u64) -> bool {
        Self::less(a, b)
    }
    fn spec_equal(a: u64, b: u64) -> bool {
        Self::equal(a, b)
    }
    fn spec_format(a: u64) -> String {
        Self::format(a)
    }
    fn parse_literal(literal: &str) -> u64 {
        canonical_bits(literal.parse::<f64>().unwrap_or(0.0))
    }
    fn from_int(v: i64) -> u64 {
        canonical_bits(v as f64)
    }
    fn add(a: u64, b: u64) -> u64 {
        canonical_bits(f64::from_bits(a) + f64::from_bits(b))
    }
    fn sub(a: u64, b: u64) -> u64 {
        canonical_bits(f64::from_bits(a) - f64::from_bits(b))
    }
    fn mul(a: u64, b: u64) -> u64 {
        canonical_bits(f64::from_bits(a) * f64::from_bits(b))
    }
    fn div(a: u64, b: u64) -> u64 {
        canonical_bits(f64::from_bits(a) / f64::from_bits(b))
    }
    fn less(a: u64, b: u64) -> bool {
        f64::from_bits(a) < f64::from_bits(b)
    }
    fn equal(a: u64, b: u64) -> bool {
        f64::from_bits(a) == f64::from_bits(b)
    }
    fn format(a: u64) -> String {
        format!("{}", f64::from_bits(a))
    }
}

fn parse(input: &str) -> (Program, Parser) {
    let mut p = Parser::new(Lexer::new(input));
    let program = p.parse_program();
    (program, p)
}

fn parse_ok(input: &str) -> Program {
    let (program, p) = parse(input);
    assert!(
        p.errors().is_empty(),
        "unexpected parser errors for {:?}:\n{}",
        input,
        p.errors().join("\n")
    );
    program
}

fn eval_input(input: &str) -> Option<Object> {
    let program = parse_ok(input);
    let mut rt = Runtime::new();
    let env = Environment::new(&mut rt);
    eval::<F64>(&Node::Program(program), env, &mut rt)
}

fn expect_integer(obj: &Option<Object>, want: i64) {
    match obj {
        Some(Object::Integer(v)) => assert_eq!(*v, want, "wrong integer value"),
        other => panic!("object is not Integer({}). got={:?}", want, other),
    }
}

fn expect_float(obj: &Option<Object>, want: f64) {
    match obj {
        Some(Object::Float(v)) => assert_eq!(f64::from_bits(v.bits), want, "wrong float value"),
        other => panic!("object is not Float({}). got={:?}", want, other),
    }
}

fn expect_boolean(obj: &Option<Object>, want: bool) {
    match obj {
        Some(Object::Boolean(v)) => assert_eq!(*v, want, "wrong boolean value"),
        other => panic!("object is not Boolean({}). got={:?}", want, other),
    }
}

fn expect_string(obj: &Option<Object>, want: &str) {
    match obj {
        Some(Object::Str(v)) => assert_eq!(v, want, "wrong string value"),
        other => panic!("object is not String({:?}). got={:?}", want, other),
    }
}

fn expect_nil(obj: &Option<Object>) {
    assert!(matches!(obj, Some(Object::Nil)), "object is not Nil. got={:?}", obj);
}

fn expect_error(obj: &Option<Object>, want_msg: &str) {
    match obj {
        Some(Object::Error(msg)) => assert_eq!(msg, want_msg, "wrong error message"),
        other => panic!("object is not Error({:?}). got={:?}", want_msg, other),
    }
}

#[test]
fn define_macros_registers_and_strips() {
    let input = "
    let num = 1;
    let func = fn(x, y) { x + y };
    let mymacro = macro(x, y) { x + y; };
    ";

    let mut rt = Runtime::new();
    let env = Environment::new(&mut rt);
    let mut program = parse_ok(input);
    define_macros(&mut program, env, &mut rt);

    // The two non-macro lets remain; the macro let is stripped.
    assert_eq!(program.statements.len(), 2);
    assert!(Environment::get(&rt, env, "num").is_none());
    assert!(Environment::get(&rt, env, "func").is_none());

    let mymacro = Environment::get(&rt, env, "mymacro").expect("mymacro defined");
    match mymacro {
        Object::Macro(m) => {
            assert_eq!(m.parameters.len(), 2);
            assert_eq!(m.parameters[0].to_string(), "x");
            assert_eq!(m.parameters[1].to_string(), "y");
            assert_eq!(m.body.to_string(), "(x + y)");
        }
        other => panic!("not a Macro: {:?}", other),
    }
}

#[test]
fn expand_macros_rewrites_calls() {
    let tests: &[(&str, &str)] = &[
        (
            "let infixExpr = macro() { quote(1 + 2); }; infixExpr();",
            "(1 + 2)",
        ),
        (
            "let reverse = macro(a, b) { quote(unquote(b) - unquote(a)); }; reverse(2 + 2, 10 - 5);",
            "(10 - 5) - (2 + 2)",
        ),
        (
            "
            let unless = macro(condition, consequence, altenative) {
              quote(
                if (!(unquote(condition))) {
                    unquote(consequence)
                } else {
                    unquote(altenative)
                }
              );
            };
            unless(10 > 5, puts(\"not greater\"), puts(\"greater\"));
            ",
            "
            if (!(10 > 5)) {
                puts(\"not greater\")
            } else {
                puts(\"greater\")
            }
            ",
        ),
    ];

    for (input, want) in tests {
        let mut program = parse_ok(input);
        let mut rt = Runtime::new();
        let env = Environment::new(&mut rt);
        define_macros(&mut program, env, &mut rt);
        let got = expand_macros::<F64>(Node::Program(program), env, &mut rt)
            .expect("expansion")
            .to_string();
        // Compare against the parsed-then-restringified expectation (normalises
        // whitespace).
        let want_normalised = parse_ok(want).to_string();
        assert_eq!(got, want_normalised, "input={}", input);
    }
}
