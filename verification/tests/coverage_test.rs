//! Evaluation of whole programs: the text of compound values, recursion,
//! higher-order functions, and error paths.

#![allow(dead_code)]

use monkey::ast::{Node, Program};
use monkey::eval::eval;
use monkey::float::{Chars, FloatArith};
use monkey::lexer::Lexer;
use monkey::object::{Environment, Object, Runtime};
use monkey::parser::Parser;

/// Binary64 arithmetic for the interpreter, done by `f64`.
struct F64;

/// A binary64 result as bits, with every NaN given as the one canonical NaN
/// so that each operation's bits are a function of its arguments.
fn canonical_bits(x: f64) -> u64 {
    if x.is_nan() {
        f64::NAN.to_bits()
    } else {
        x.to_bits()
    }
}

impl FloatArith for F64 {
    // The `spec_` items name, for the verifier, what each operation gives.
    // They are never called; where their types allow it they compute the
    // operation itself. A literal's characters are a verifier-only value,
    // so `spec_parse_literal` has no runnable body.
    fn spec_parse_literal(_literal: Chars) -> u64 {
        unreachable!()
    }
    fn spec_from_int(v: i64) -> u64 {
        Self::from_int(v)
    }
    fn spec_add(a: u64, b: u64) -> u64 {
        Self::add(a, b)
    }
    fn spec_sub(a: u64, b: u64) -> u64 {
        Self::sub(a, b)
    }
    fn spec_mul(a: u64, b: u64) -> u64 {
        Self::mul(a, b)
    }
    fn spec_div(a: u64, b: u64) -> u64 {
        Self::div(a, b)
    }
    fn spec_less(a: u64, b: u64) -> bool {
        Self::less(a, b)
    }
    fn spec_equal(a: u64, b: u64) -> bool {
        Self::equal(a, b)
    }
    fn spec_format(a: u64) -> String {
        Self::format(a)
    }
    fn parse_literal(literal: &str) -> u64 {
        canonical_bits(literal.parse::<f64>().unwrap_or(0.0))
    }
    fn from_int(v: i64) -> u64 {
        canonical_bits(v as f64)
    }
    fn add(a: u64, b: u64) -> u64 {
        canonical_bits(f64::from_bits(a) + f64::from_bits(b))
    }
    fn sub(a: u64, b: u64) -> u64 {
        canonical_bits(f64::from_bits(a) - f64::from_bits(b))
    }
    fn mul(a: u64, b: u64) -> u64 {
        canonical_bits(f64::from_bits(a) * f64::from_bits(b))
    }
    fn div(a: u64, b: u64) -> u64 {
        canonical_bits(f64::from_bits(a) / f64::from_bits(b))
    }
    fn less(a: u64, b: u64) -> bool {
        f64::from_bits(a) < f64::from_bits(b)
    }
    fn equal(a: u64, b: u64) -> bool {
        f64::from_bits(a) == f64::from_bits(b)
    }
    fn format(a: u64) -> String {
        format!("{}", f64::from_bits(a))
    }
}

fn parse(input: &str) -> (Program, Parser) {
    let mut p = Parser::new(Lexer::new(input));
    let program = p.parse_program();
    (program, p)
}

fn parse_ok(input: &str) -> Program {
    let (program, p) = parse(input);
    assert!(
        p.errors().is_empty(),
        "unexpected parser errors for {:?}:\n{}",
        input,
        p.errors().join("\n")
    );
    program
}

fn eval_input(input: &str) -> Option<Object> {
    let program = parse_ok(input);
    let mut rt = Runtime::new();
    let env = Environment::new(&mut rt);
    eval::<F64>(&Node::Program(program), env, &mut rt)
}

fn expect_integer(obj: &Option<Object>, want: i64) {
    match obj {
        Some(Object::Integer(v)) => assert_eq!(*v, want, "wrong integer value"),
        other => panic!("object is not Integer({}). got={:?}", want, other),
    }
}

fn expect_float(obj: &Option<Object>, want: f64) {
    match obj {
        Some(Object::Float(v)) => assert_eq!(f64::from_bits(v.bits), want, "wrong float value"),
        other => panic!("object is not Float({}). got={:?}", want, other),
    }
}

fn expect_boolean(obj: &Option<Object>, want: bool) {
    match obj {
        Some(Object::Boolean(v)) => assert_eq!(*v, want, "wrong boolean value"),
        other => panic!("object is not Boolean({}). got={:?}", want, other),
    }
}

fn expect_string(obj: &Option<Object>, want: &str) {
    match obj {
        Some(Object::Str(v)) => assert_eq!(v, want, "wrong string value"),
        other => panic!("object is not String({:?}). got={:?}", want, other),
    }
}

fn expect_nil(obj: &Option<Object>) {
    assert!(matches!(obj, Some(Object::Nil)), "object is not Nil. got={:?}", obj);
}

fn expect_error(obj: &Option<Object>, want_msg: &str) {
    match obj {
        Some(Object::Error(msg)) => assert_eq!(msg, want_msg, "wrong error message"),
        other => panic!("object is not Error({:?}). got={:?}", want_msg, other),
    }
}

fn inspect(input: &str) -> String {
    eval_input(input).expect("expected a value").inspect()
}

#[test]
fn function_inspect() {
    assert_eq!(inspect("fn(x, y) { x + y; }"), "fn(x, y) {\n(x + y)\n}");
    assert_eq!(inspect("fn() { 5 }"), "fn() {\n5\n}");
}

#[test]
fn array_inspect_via_eval() {
    assert_eq!(inspect("[1, 2 * 2, \"x\" + \"y\"]"), "[1, 4, xy]");
    assert_eq!(inspect("[]"), "[]");
}

#[test]
fn builtin_inspect() {
    // A builtin referenced by name evaluates to the Builtin object.
    match eval_input("len") {
        Some(Object::Builtin(_)) => {}
        other => panic!("expected Builtin, got {:?}", other),
    }
    assert_eq!(inspect("len"), "builtin function");
}

#[test]
fn nested_data_structures() {
    expect_integer(&eval_input("[[1, 2], [3, 4]][1][0]"), 3);
    expect_integer(&eval_input(r#"{"a": [10, 20, 30]}["a"][2]"#), 30);
    expect_string(
        &eval_input(r#"{"outer": {"inner": "deep"}}["outer"]["inner"]"#),
        "deep",
    );
}

#[test]
fn recursion_fibonacci() {
    let prog = "
    let fib = fn(n) {
        if (n < 2) { return n; }
        fib(n - 1) + fib(n - 2);
    };
    fib(10);
    ";
    expect_integer(&eval_input(prog), 55);
}

#[test]
fn recursion_factorial() {
    let prog = "
    let fact = fn(n) { if (n == 0) { 1 } else { n * fact(n - 1) } };
    fact(6);
    ";
    expect_integer(&eval_input(prog), 720);
}

#[test]
fn higher_order_map_and_reduce() {
    let prelude = "
    let map = fn(arr, f) {
        let iter = fn(arr, acc) {
            if (len(arr) == 0) { acc }
            else { iter(rest(arr), push(acc, f(first(arr)))); }
        };
        iter(arr, []);
    };
    let reduce = fn(arr, init, f) {
        let iter = fn(arr, result) {
            if (len(arr) == 0) { result }
            else { iter(rest(arr), f(result, first(arr))); }
        };
        iter(arr, init);
    };
    let sum = fn(arr) { reduce(arr, 0, fn(a, b) { a + b }); };
    let double = fn(x) { x * 2 };
    ";

    expect_integer(&eval_input(&format!("{} sum([1, 2, 3, 4, 5]);", prelude)), 15);
    assert_eq!(
        inspect(&format!("{} map([1, 2, 3], double);", prelude)),
        "[2, 4, 6]"
    );
}

#[test]
fn closures_keep_independent_state() {
    let prog = "
    let newCounter = fn() {
        let count = 0;
        fn() { count };
    };
    let c = newCounter();
    c();
    ";
    // count is not mutated (Monkey `let` doesn't reassign), so this is 0.
    expect_integer(&eval_input(prog), 0);
}

#[test]
fn let_with_valueless_if_is_nil() {
    // `if (false) { 1 }` with no else evaluates to NilValue; bound to x.
    expect_nil(&eval_input("let x = if (false) { 1 }; x"));
}

#[test]
fn additional_error_messages() {
    // calling a non-function
    expect_error(&eval_input("let x = 5; x(3);"), "not a function: Integer");
    // indexing an unsupported type
    expect_error(&eval_input("5[0]"), "index operator not supported: Integer");
    // array indexed by a non-integer
    expect_error(&eval_input("[1, 2][true]"), "index operator not supported: Array");
    // unknown prefix on float handled, but minus on boolean is an error
    expect_error(&eval_input("-true"), "unknown operator: -Boolean");
    // error short-circuits the rest of the program
    expect_error(&eval_input("5 + true; 5;"), "type mismatch: Integer + Boolean");
}

#[test]
fn integer_division_truncates_toward_zero() {
    expect_integer(&eval_input("7 / 2"), 3);
    expect_integer(&eval_input("-7 / 2"), -3);
}

#[test]
fn integer_overflow_wraps_like_go() {
    // i64::MAX is 9223372036854775807; +1 wraps to i64::MIN.
    expect_integer(
        &eval_input("9223372036854775807 + 1"),
        i64::MIN,
    );
}
