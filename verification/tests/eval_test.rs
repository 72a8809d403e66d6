//! Tests of the evaluator.

#![allow(dead_code)]

use monkey::ast::{Node, Program};
use monkey::eval::eval;
use monkey::float::{Chars, FloatArith};
use monkey::lexer::Lexer;
use monkey::object::{Environment, Object, Runtime};
use monkey::parser::Parser;

/// What a built-in call is expected to give.
enum Want {
    Int(i64),
    Error(&'static str),
    Arr(Vec<i64>),
    Nil,
}

/// Binary64 arithmetic for the interpreter, done by `f64`.
struct F64;

/// A binary64 result as bits, with every NaN given as the one canonical NaN
/// so that each operation's bits are a function of its arguments.
fn canonical_bits(x: f64) -> u64 {
    if x.is_nan() {
        f64::NAN.to_bits()
    } else {
        x.to_bits()
    }
}

impl FloatArith for F64 {
    // The `spec_` items name, for the verifier, what each operation gives.
    // They are never called; where their types allow it they compute the
    // operation itself. A literal's characters are a verifier-only value,
    // so `spec_parse_literal` has no runnable body.
    fn spec_parse_literal(_literal: Chars) -> u64 {
        unreachable!()
    }
    fn spec_from_int(v: i64) -> u64 {
        Self::from_int(v)
    }
    fn spec_add(a: u64, b: u64) -> u64 {
        Self::add(a, b)
    }
    fn spec_sub(a: u64, b: u64) -> u64 {
        Self::sub(a, b)
    }
    fn spec_mul(a: u64, b: u64) -> u64 {
        Self::mul(a, b)
    }
    fn spec_div(a: u64, b: u64) -> u64 {
        Self::div(a, b)
    }
    fn spec_less(a: u64, b: u64) -> bool {
        Self::less(a, b)
    }
    fn spec_equal(a: u64, b: u64) -> bool {
        Self::equal(a, b)
    }
    fn spec_format(a: u64) -> String {
        Self::format(a)
    }
    fn parse_literal(literal: &str) -> u64 {
        canonical_bits(literal.parse::<f64>().unwrap_or(0.0))
    }
    fn from_int(v: i64) -> u64 {
        canonical_bits(v as f64)
    }
    fn add(a: u64, b: u64) -> u64 {
        canonical_bits(f64::from_bits(a) + f64::from_bits(b))
    }
    fn sub(a: u64, b: u64) -> u64 {
        canonical_bits(f64::from_bits(a) - f64::from_bits(b))
    }
    fn mul(a: u64, b: u64) -> u64 {
        canonical_bits(f64::from_bits(a) * f64::from_bits(b))
    }
    fn div(a: u64, b: u64) -> u64 {
        canonical_bits(f64::from_bits(a) / f64::from_bits(b))
    }
    fn less(a: u64, b: u64) -> bool {
        f64::from_bits(a) < f64::from_bits(b)
    }
    fn equal(a: u64, b: u64) -> bool {
        f64::from_bits(a) == f64::from_bits(b)
    }
    fn format(a: u64) -> String {
        format!("{}", f64::from_bits(a))
    }
}

fn parse(input: &str) -> (Program, Parser) {
    let mut p = Parser::new(Lexer::new(input));
    let program = p.parse_program();
    (program, p)
}

fn parse_ok(input: &str) -> Program {
    let (program, p) = parse(input);
    assert!(
        p.errors().is_empty(),
        "unexpected parser errors for {:?}:\n{}",
        input,
        p.errors().join("\n")
    );
    program
}

fn eval_input(input: &str) -> Option<Object> {
    let program = parse_ok(input);
    let mut rt = Runtime::new();
    let env = Environment::new(&mut rt);
    eval::<F64>(&Node::Program(program), env, &mut rt)
}

fn expect_integer(obj: &Option<Object>, want: i64) {
    match obj {
        Some(Object::Integer(v)) => assert_eq!(*v, want, "wrong integer value"),
        other => panic!("object is not Integer({}). got={:?}", want, other),
    }
}

fn expect_float(obj: &Option<Object>, want: f64) {
    match obj {
        Some(Object::Float(v)) => assert_eq!(f64::from_bits(v.bits), want, "wrong float value"),
        other => panic!("object is not Float({}). got={:?}", want, other),
    }
}

fn expect_boolean(obj: &Option<Object>, want: bool) {
    match obj {
        Some(Object::Boolean(v)) => assert_eq!(*v, want, "wrong boolean value"),
        other => panic!("object is not Boolean({}). got={:?}", want, other),
    }
}

fn expect_string(obj: &Option<Object>, want: &str) {
    match obj {
        Some(Object::Str(v)) => assert_eq!(v, want, "wrong string value"),
        other => panic!("object is not String({:?}). got={:?}", want, other),
    }
}

fn expect_nil(obj: &Option<Object>) {
    assert!(matches!(obj, Some(Object::Nil)), "object is not Nil. got={:?}", obj);
}

fn expect_error(obj: &Option<Object>, want_msg: &str) {
    match obj {
        Some(Object::Error(msg)) => assert_eq!(msg, want_msg, "wrong error message"),
        other => panic!("object is not Error({:?}). got={:?}", want_msg, other),
    }
}

#[test]
fn eval_integer_expression() {
    let tests: &[(&str, i64)] = &[
        ("5", 5),
        ("10", 10),
        ("-5", -5),
        ("-10", -10),
        ("5 + 5 + 5 + 5 - 10", 10),
        ("2 * 2 * 2 * 2 * 2", 32),
        ("-50 + 100 + -50", 0),
        ("5 * 2 + 10", 20),
        ("5 + 2 * 10", 25),
        ("20 + 2 * -10", 0),
        ("50 / 2 * 2 + 10", 60),
        ("3 * 3 * 3 + 10", 37),
        ("3 * (3 * 3) + 10", 37),
        ("(5 + 10 * 2 + 15 / 3) * 2 + -10", 50),
    ];
    for (input, expected) in tests {
        expect_integer(&eval_input(input), *expected);
    }
}

#[test]
fn eval_float_expression() {
    let tests: &[(&str, f64)] = &[
        ("12.34", 12.34),
        ("0.56", 0.56),
        ("78.00", 78.00),
        ("-12.34", -12.34),
        ("-0.56", -0.56),
        ("-78.00", -78.00),
        ("(5 + 10.0 * 2.5 + 15.0 / 3) * 2.1 + -10.1", 63.4),
    ];
    for (input, expected) in tests {
        expect_float(&eval_input(input), *expected);
    }
}

#[test]
fn eval_boolean_expression() {
    let tests: &[(&str, bool)] = &[
        ("true", true),
        ("false", false),
        ("1 < 2", true),
        ("1 > 2", false),
        ("1 < 1", false),
        ("1 > 1", false),
        ("1 == 1", true),
        ("1 != 1", false),
        ("1 == 2", false),
        ("1 != 2", true),
        ("true == true", true),
        ("false == false", true),
        ("true == false", false),
        ("true != false", true),
        ("false != true", true),
        ("(1 < 2) == true", true),
        ("(1 < 2) == false", false),
        ("(1 > 2) == true", false),
        ("(1 > 2) == false", true),
        (r#""hello" == "hello""#, true),
        (r#""hello" == "world""#, false),
        (r#""foo" != "bar""#, true),
        (r#""foo" != "foo""#, false),
    ];
    for (input, expected) in tests {
        expect_boolean(&eval_input(input), *expected);
    }
}

#[test]
fn bang_operator() {
    let tests: &[(&str, bool)] = &[
        ("!true", false),
        ("!false", true),
        ("!5", false),
        ("!!true", true),
        ("!!false", false),
        ("!!5", true),
    ];
    for (input, expected) in tests {
        expect_boolean(&eval_input(input), *expected);
    }
}

#[test]
fn if_else_expressions() {
    let tests: &[(&str, Option<i64>)] = &[
        ("if (true) { 10 }", Some(10)),
        ("if (false) { 10 }", None),
        ("if (1) { 10 }", Some(10)),
        ("if (1 < 2) { 10 }", Some(10)),
        ("if (1 > 2) { 10 }", None),
        ("if (1 < 2) { 10 } else { 20 }", Some(10)),
        ("if (1 > 2) { 10 } else { 20 }", Some(20)),
    ];
    for (input, expected) in tests {
        let got = eval_input(input);
        match expected {
            Some(i) => expect_integer(&got, *i),
            None => expect_nil(&got),
        }
    }
}

#[test]
fn return_statements() {
    let tests: &[(&str, i64)] = &[
        ("return 10;", 10),
        ("return 10; 9;", 10),
        ("return 2 * 5; 9;", 10),
        ("9; return 2 * 5; 11;", 10),
        ("if (10 > 1) { if (10 > 1) { return 10; } return 1; }", 10),
    ];
    for (input, expected) in tests {
        expect_integer(&eval_input(input), *expected);
    }
}

#[test]
fn error_handling() {
    let tests: &[(&str, &str)] = &[
        ("5 + true;", "type mismatch: Integer + Boolean"),
        ("5 + true; 5;", "type mismatch: Integer + Boolean"),
        ("-true", "unknown operator: -Boolean"),
        ("true + false", "unknown operator: Boolean + Boolean"),
        ("5; true + false; 5", "unknown operator: Boolean + Boolean"),
        (
            "if (10 > 1) { true + false; }",
            "unknown operator: Boolean + Boolean",
        ),
        (
            "if (10 > 1) { if (10 > 1) { return true + false; } return 1; }",
            "unknown operator: Boolean + Boolean",
        ),
        ("foobar", "identifier not found: foobar"),
        (r#""Hello" - "World""#, "unknown operator: String - String"),
        (r#"1.5 + "World""#, "unknown operator: Float + String"),
        (r#"{[1, 2]: "Monkey"}"#, "unusable as hash key: Array"),
        (
            r#"{"name": "Monkey"}[fn(x) { x }]"#,
            "unusable as hash key: Function",
        ),
    ];
    for (input, expected) in tests {
        expect_error(&eval_input(input), expected);
    }
}

#[test]
fn let_statements() {
    let tests: &[(&str, i64)] = &[
        ("let a = 5; a;", 5),
        ("let a = 5 * 5; a;", 25),
        ("let a = 5; let b = a; b;", 5),
        ("let a = 5; let b = a; let c = a + b + 5; c;", 15),
    ];
    for (input, expected) in tests {
        expect_integer(&eval_input(input), *expected);
    }
}

#[test]
fn function_object() {
    match eval_input("fn(x) { x + 2; }") {
        Some(Object::Function(f)) => {
            assert_eq!(f.parameters.len(), 1);
            assert_eq!(f.parameters[0].to_string(), "x");
            assert_eq!(f.body.to_string(), "(x + 2)");
        }
        other => panic!("not a Function: {:?}", other),
    }
}

#[test]
fn function_application() {
    let tests: &[(&str, i64)] = &[
        ("let identity = fn(x) { x; }; identity(5);", 5),
        ("let identity = fn(x) { return x; }; identity(5);", 5),
        ("let double = fn(x) { x * 2; }; double(5);", 10),
        ("let add = fn(x, y) { x + y; }; add(5, 5);", 10),
        ("let add = fn(x, y) { x + y; }; add(5 + 5, add(5, 5));", 20),
        ("fn(x) { x; }(5);", 5),
    ];
    for (input, expected) in tests {
        expect_integer(&eval_input(input), *expected);
    }
}

#[test]
fn closures() {
    let input = "
    let newAdder = fn(x) { fn(y) { x + y }; };
    let addTwo = newAdder(2);
    addTwo(2);
    ";
    expect_integer(&eval_input(input), 4);
}

#[test]
fn string_literal_and_concat() {
    expect_string(&eval_input(r#""Hello World!";"#), "Hello World!");
    expect_string(&eval_input(r#""Hello" + " " + "World!";"#), "Hello World!");
}

#[test]
fn builtin_functions() {

    let tests: Vec<(&str, Want)> = vec![
        (r#"len("")"#, Want::Int(0)),
        (r#"len("four")"#, Want::Int(4)),
        (r#"len("hello world")"#, Want::Int(11)),
        (r#"len("hello" + " " + "world")"#, Want::Int(11)),
        (r#"len(1)"#, Want::Error("argument to `len` not supported, got Integer")),
        (
            r#"len("one", "two")"#,
            Want::Error("wrong number of arguments. want=1, got=2"),
        ),
        ("len([])", Want::Int(0)),
        ("len([1])", Want::Int(1)),
        ("len([1, 1 + 2 * 3, true])", Want::Int(3)),
        ("first([])", Want::Nil),
        ("first([1])", Want::Int(1)),
        ("first([1, 2])", Want::Int(1)),
        ("first(1)", Want::Error("argument to `first` must be Array, got Integer")),
        ("last([])", Want::Nil),
        ("last([1])", Want::Int(1)),
        ("last([1, 2])", Want::Int(2)),
        ("last(1)", Want::Error("argument to `last` must be Array, got Integer")),
        ("rest([])", Want::Nil),
        ("rest([1])", Want::Arr(vec![])),
        ("rest([1, 2, 3])", Want::Arr(vec![2, 3])),
        ("rest(1)", Want::Error("argument to `last` must be Array, got Integer")),
        ("push([], 1)", Want::Arr(vec![1])),
        ("push([1, 2], 3)", Want::Arr(vec![1, 2, 3])),
        ("push([])", Want::Error("wrong number of arguments. want=2, got=1")),
        (
            "push(1, 2)",
            Want::Error("first argument to `push` must be Array, got Integer"),
        ),
        ("puts(1)", Want::Nil),
    ];

    for (input, want) in tests {
        let got = eval_input(input);
        match want {
            Want::Int(v) => expect_integer(&got, v),
            Want::Error(msg) => expect_error(&got, msg),
            Want::Nil => expect_nil(&got),
            Want::Arr(expected) => match &got {
                Some(Object::Array(elements)) => {
                    assert_eq!(elements.len(), expected.len());
                    for (i, e) in elements.iter().enumerate() {
                        expect_integer(&Some(e.clone()), expected[i]);
                    }
                }
                other => panic!("not an Array: {:?}", other),
            },
        }
    }
}

#[test]
fn array_literals() {
    match eval_input("[1, 2 * 2, 3 + 3]") {
        Some(Object::Array(elements)) => {
            assert_eq!(elements.len(), 3);
            expect_integer(&Some(elements[0].clone()), 1);
            expect_integer(&Some(elements[1].clone()), 4);
            expect_integer(&Some(elements[2].clone()), 6);
        }
        other => panic!("not an Array: {:?}", other),
    }
}

#[test]
fn array_index_expressions() {
    let tests: &[(&str, Option<i64>)] = &[
        ("[1, 2, 3][0]", Some(1)),
        ("[1, 2, 3][1]", Some(2)),
        ("[1, 2, 3][2]", Some(3)),
        ("let i = 0; [1][i]", Some(1)),
        ("[1, 2, 3][1 + 1]", Some(3)),
        ("let arr = [1, 2, 3]; arr[2];", Some(3)),
        ("let arr = [1, 2, 3]; arr[0] + arr[1] + arr[2];", Some(6)),
        ("let arr = [1, 2, 3]; let i = arr[0]; arr[i]", Some(2)),
        ("[1, 2, 3][3]", None),
        ("[1, 2, 3][-1]", None),
    ];
    for (input, expected) in tests {
        let got = eval_input(input);
        match expected {
            Some(i) => expect_integer(&got, *i),
            None => expect_nil(&got),
        }
    }
}

#[test]
fn hash_literals() {
    let input = r#"
    let two = "two";
    {
        "one": 10 - 9,
        two: 1 + 1,
        "thr" + "ee": 6 / 2,
        4: 4,
        true: 5,
        false: 6
    };
    "#;

    let hash = match eval_input(input) {
        Some(Object::Hash(h)) => h,
        other => panic!("not a Hash: {:?}", other),
    };

    let expected = vec![
        (Object::Str("one".into()).hash_key().unwrap(), 1_i64),
        (Object::Str("two".into()).hash_key().unwrap(), 2),
        (Object::Str("three".into()).hash_key().unwrap(), 3),
        (Object::Integer(4).hash_key().unwrap(), 4),
        (Object::Boolean(true).hash_key().unwrap(), 5),
        (Object::Boolean(false).hash_key().unwrap(), 6),
    ];

    assert_eq!(hash.pairs.len(), expected.len());
    for (key, value) in expected {
        let pair = hash.get(&key).expect("no pair for key");
        expect_integer(&Some(pair.value.clone()), value);
    }
}

#[test]
fn hash_index_expressions() {
    let tests: &[(&str, Option<i64>)] = &[
        (r#"{"foo": 2 + 3}["foo"]"#, Some(5)),
        (r#"{"foo": 5}["bar"]"#, None),
        (r#"let key = "foo"; {"foo": 5}[key]"#, Some(5)),
        (r#"{}["foo"]"#, None),
        ("{5: 5}[5]", Some(5)),
        ("{true: 5}[true]", Some(5)),
        ("{false: 5}[false]", Some(5)),
    ];
    for (input, expected) in tests {
        let got = eval_input(input);
        match expected {
            Some(i) => expect_integer(&got, *i),
            None => expect_nil(&got),
        }
    }
}
