//! Tests of the library's own guarantees on concrete values: bindings,
//! hash keys, arithmetic, floats, built-ins, macros, whole programs and the
//! interactive session.
#![allow(dead_code)]

use monkey::ast::{Expression, FloatLiteral, InfixExpression, IntegerLiteral, Node, Program};
use monkey::eval::eval;
use monkey::float::{Chars, FloatArith};
use monkey::lexer::Lexer;
use monkey::object::{Environment, FloatValue, Object, Runtime, Type};
use monkey::parser::Parser;
use monkey::repl::{run, start, Repl};
use monkey::token::{Token, TokenType};

/// Binary64 arithmetic for the interpreter, done by `f64`.
struct F64;

/// A binary64 result as bits, with every NaN given as the one canonical NaN
/// so that each operation's bits are a function of its arguments.
fn canonical_bits(x: f64) -> u64 {
    if x.is_nan() {
        f64::NAN.to_bits()
    } else {
        x.to_bits()
    }
}

impl FloatArith for F64 {
    // The `spec_` items name, for the verifier, what each operation gives.
    // They are never called; where their types allow it they compute the
    // operation itself. A literal's characters are a verifier-only value,
    // so `spec_parse_literal` has no runnable body.
    fn spec_parse_literal(_literal: Chars) -> u64 {
        unreachable!()
    }
    fn spec_from_int(v: i64) -> u64 {
        Self::from_int(v)
    }
    fn spec_add(a: u64, b: u64) -> u64 {
        Self::add(a, b)
    }
    fn spec_sub(a: u64, b: u64) -> u64 {
        Self::sub(a, b)
    }
    fn spec_mul(a: u64, b: u64) -> u64 {
        Self::mul(a, b)
    }
    fn spec_div(a: u64, b: u64) -> u64 {
        Self::div(a, b)
    }
    fn spec_less(a: u64, b: u64) -> bool {
        Self::less(a, b)
    }
    fn spec_equal(a: u64, b: u64) -> bool {
        Self::equal(a, b)
    }
    fn spec_format(a: u64) -> String {
        Self::format(a)
    }
    fn parse_literal(literal: &str) -> u64 {
        canonical_bits(literal.parse::<f64>().unwrap_or(0.0))
    }
    fn from_int(v: i64) -> u64 {
        canonical_bits(v as f64)
    }
    fn add(a: u64, b: u64) -> u64 {
        canonical_bits(f64::from_bits(a) + f64::from_bits(b))
    }
    fn sub(a: u64, b: u64) -> u64 {
        canonical_bits(f64::from_bits(a) - f64::from_bits(b))
    }
    fn mul(a: u64, b: u64) -> u64 {
        canonical_bits(f64::from_bits(a) * f64::from_bits(b))
    }
    fn div(a: u64, b: u64) -> u64 {
        canonical_bits(f64::from_bits(a) / f64::from_bits(b))
    }
    fn less(a: u64, b: u64) -> bool {
        f64::from_bits(a) < f64::from_bits(b)
    }
    fn equal(a: u64, b: u64) -> bool {
        f64::from_bits(a) == f64::from_bits(b)
    }
    fn format(a: u64) -> String {
        format!("{}", f64::from_bits(a))
    }
}

fn parse(input: &str) -> (Program, Parser) {
    let mut p = Parser::new(Lexer::new(input));
    let program = p.parse_program();
    (program, p)
}

fn parse_ok(input: &str) -> Program {
    let (program, p) = parse(input);
    assert!(
        p.errors().is_empty(),
        "unexpected parser errors for {:?}:\n{}",
        input,
        p.errors().join("\n")
    );
    program
}

fn eval_input(input: &str) -> Option<Object> {
    let program = parse_ok(input);
    let mut rt = Runtime::new();
    let env = Environment::new(&mut rt);
    eval::<F64>(&Node::Program(program), env, &mut rt)
}

fn expect_integer(obj: &Option<Object>, want: i64) {
    match obj {
        Some(Object::Integer(v)) => assert_eq!(*v, want, "wrong integer value"),
        other => panic!("object is not Integer({}). got={:?}", want, other),
    }
}

fn expect_float(obj: &Option<Object>, want: f64) {
    match obj {
        Some(Object::Float(v)) => assert_eq!(f64::from_bits(v.bits), want, "wrong float value"),
        other => panic!("object is not Float({}). got={:?}", want, other),
    }
}

fn expect_boolean(obj: &Option<Object>, want: bool) {
    match obj {
        Some(Object::Boolean(v)) => assert_eq!(*v, want, "wrong boolean value"),
        other => panic!("object is not Boolean({}). got={:?}", want, other),
    }
}

fn expect_string(obj: &Option<Object>, want: &str) {
    match obj {
        Some(Object::Str(v)) => assert_eq!(v, want, "wrong string value"),
        other => panic!("object is not String({:?}). got={:?}", want, other),
    }
}

fn expect_nil(obj: &Option<Object>) {
    assert!(matches!(obj, Some(Object::Nil)), "object is not Nil. got={:?}", obj);
}

fn expect_error(obj: &Option<Object>, want_msg: &str) {
    match obj {
        Some(Object::Error(msg)) => assert_eq!(msg, want_msg, "wrong error message"),
        other => panic!("object is not Error({:?}). got={:?}", want_msg, other),
    }
}

fn show(input: &str) -> String {
    eval_input(input).expect("a value").inspect()
}

// ---- environments ----

#[test]
fn binding_one_name_keeps_the_others() {
    let mut rt = Runtime::new();
    let env = Environment::new(&mut rt);
    Environment::set(&mut rt, env, "a".into(), Object::Integer(1));
    Environment::set(&mut rt, env, "b".into(), Object::Integer(2));
    assert!(matches!(Environment::get(&rt, env, "a"), Some(Object::Integer(1))));
    Environment::set(&mut rt, env, "a".into(), Object::Integer(3));
    assert!(matches!(Environment::get(&rt, env, "a"), Some(Object::Integer(3))));
    assert!(matches!(Environment::get(&rt, env, "b"), Some(Object::Integer(2))));
}

#[test]
fn new_enclosed_environment_sees_outer_bindings() {
    let mut rt = Runtime::new();
    let outer = Environment::new(&mut rt);
    Environment::set(&mut rt, outer, "x".into(), Object::Str("outer".into()));
    let inner = Environment::new_enclosed(&mut rt, outer);
    assert!(matches!(Environment::get(&rt, inner, "x"), Some(Object::Str(s)) if s == "outer"));
    Environment::set(&mut rt, inner, "y".into(), Object::Integer(1));
    assert!(Environment::get(&rt, outer, "y").is_none());
}

#[test]
fn evaluation_only_adds_environments() {
    let program = parse_ok("let f = fn(x) { x }; f(1); f(2);");
    let mut rt = Runtime::new();
    let env = Environment::new(&mut rt);
    let before = rt.envs.len();
    let r = eval::<F64>(&Node::Program(program), env, &mut rt);
    expect_integer(&r, 2);
    assert_eq!(rt.envs.len(), before + 2);
}

#[test]
fn let_then_name_gives_the_value() {
    expect_string(&eval_input("let s = \"a\" + \"b\"; s"), "ab");
    expect_integer(&eval_input("let n = [1, 2, 3][1] * 10; n"), 20);
}

// ---- hash keys and hashes ----

#[test]
fn hash_keys_tell_types_apart() {
    // Both are keyed by the number 1, but their types differ.
    assert_ne!(Object::Integer(1).hash_key(), Object::Boolean(true).hash_key());
    assert_eq!(Object::Integer(1).hash_key().unwrap().type_, Type::Integer);
    assert_ne!(Object::Integer(-1).hash_key(), Object::Integer(1).hash_key());
    assert_eq!(Object::Integer(-1).hash_key().unwrap().value, u64::MAX);
}

#[test]
fn string_hash_key_is_fnv1a() {
    // FNV-1a of "a": (offset basis ^ 0x61) * prime, wrapping.
    let want = (0xcbf2_9ce4_8422_2325u64 ^ 0x61).wrapping_mul(0x0000_0100_0000_01b3);
    assert_eq!(Object::Str("a".into()).hash_key().unwrap().value, want);
    assert_eq!(Object::Str("".into()).hash_key().unwrap().value, 0xcbf2_9ce4_8422_2325);
}

#[test]
fn later_pair_replaces_earlier_one_with_same_key() {
    match eval_input("{\"a\": 1, \"b\": 2, \"a\": 3}") {
        Some(Object::Hash(h)) => {
            assert_eq!(h.pairs.len(), 2);
            let k = Object::Str("a".into()).hash_key().unwrap();
            expect_integer(&Some(h.get(&k).expect("a").value.clone()), 3);
        }
        other => panic!("not a Hash: {:?}", other),
    }
    expect_integer(&eval_input("{\"a\": 1, \"a\": 3}[\"a\"]"), 3);
}

#[test]
fn hash_inspect_keeps_insertion_order() {
    assert_eq!(show("{1: \"one\", true: 2}"), "{1: one, true: 2}");
}

// ---- integers ----

#[test]
fn integer_arithmetic_wraps() {
    expect_integer(&eval_input("-9223372036854775807 - 2"), i64::MAX);
    expect_integer(&eval_input("4611686018427387904 * 2"), i64::MIN);
    expect_integer(&eval_input("-(0 - 9223372036854775807 - 1)"), i64::MIN);
    expect_integer(&eval_input("(0 - 9223372036854775807 - 1) / -1"), i64::MIN);
}

#[test]
fn integer_division_by_zero_is_an_error() {
    expect_error(&eval_input("1 / 0"), "division by zero");
    expect_error(&eval_input("let f = fn(x) { 10 / x }; f(0)"), "division by zero");
}

/// `l op r` built directly: the lexer has no `<=` or `>=` tokens.
fn infix(l: Expression, op: &str, r: Expression) -> Node {
    Node::Expression(Expression::Infix(InfixExpression {
        token: Token::new(TokenType::Illegal, op),
        left: Box::new(l),
        operator: op.to_string(),
        right: Box::new(r),
    }))
}

fn int_lit(v: i64) -> Expression {
    Expression::IntegerLiteral(IntegerLiteral { token: Token::new(TokenType::Int, &v.to_string()), value: v })
}

fn float_lit(text: &str) -> Expression {
    Expression::FloatLiteral(FloatLiteral { token: Token::new(TokenType::Float, text) })
}

fn eval_node(n: &Node) -> Option<Object> {
    let mut rt = Runtime::new();
    let env = Environment::new(&mut rt);
    eval::<F64>(n, env, &mut rt)
}

#[test]
fn integer_comparisons() {
    expect_boolean(&eval_node(&infix(int_lit(3), "<=", int_lit(3))), true);
    expect_boolean(&eval_node(&infix(int_lit(3), ">=", int_lit(4))), false);
    expect_boolean(&eval_input("3 < 4"), true);
}

// ---- floats ----

#[test]
fn float_arithmetic_and_text() {
    expect_float(&eval_input("1.5 + 1"), 2.5);
    expect_float(&eval_input("1 - 0.5"), 0.5);
    expect_float(&eval_input("1.5 * 2.0"), 3.0);
    expect_float(&eval_input("1.0 / 4"), 0.25);
    expect_float(&eval_input("-2.5"), -2.5);
    assert_eq!(show("0.1 + 0.2"), "0.30000000000000004");
    assert_eq!(show("2.0 * 3"), "6");
}

#[test]
fn float_comparisons() {
    expect_boolean(&eval_input("1.5 < 2"), true);
    expect_boolean(&eval_input("2 > 1.5"), true);
    expect_boolean(&eval_node(&infix(float_lit("1.5"), "<=", float_lit("1.5"))), true);
    expect_boolean(&eval_node(&infix(float_lit("1.5"), ">=", float_lit("2.5"))), false);
    expect_boolean(&eval_node(&infix(int_lit(2), ">=", float_lit("1.5"))), true);
    expect_boolean(&eval_input("2 == 2.0"), true);
    expect_boolean(&eval_input("2 != 2.0"), false);
    expect_error(&eval_node(&infix(float_lit("1.5"), "%", int_lit(2))), "unknown operator: Float % Integer");
}

#[test]
fn float_hash_key_uses_its_text() {
    let f = Object::Float(FloatValue::new::<F64>(2.5f64.to_bits()));
    let s = Object::Str("2.5".into());
    assert_eq!(f.hash_key().unwrap().value, s.hash_key().unwrap().value);
    assert_ne!(f.hash_key(), s.hash_key());
}

// ---- strings and built-ins ----

#[test]
fn string_length_counts_bytes() {
    expect_integer(&eval_input("len(\"h\u{e9}llo\")"), 6);
    expect_string(&eval_input("\"h\u{e9}\" + \"llo\""), "h\u{e9}llo");
}

#[test]
fn string_equality_and_unknown_operator() {
    expect_boolean(&eval_input("\"ab\" == \"a\" + \"b\""), true);
    expect_error(&eval_input("\"a\" * \"b\""), "unknown operator: String * String");
}

#[test]
fn builtin_wrong_argument_counts() {
    expect_error(&eval_input("first()"), "wrong number of arguments. want=1, got=0");
    expect_error(&eval_input("push(1, 2, 3)"), "wrong number of arguments. want=2, got=3");
    expect_error(&eval_input("len(\"a\", 1, 2, 3, 4, 5, 6, 7, 8, 9, 10)"), "wrong number of arguments. want=1, got=11");
}

#[test]
fn puts_writes_each_argument_on_a_line() {
    let program = parse_ok("puts(1, \"two\", [3]); puts();");
    let mut rt = Runtime::new();
    let env = Environment::new(&mut rt);
    expect_nil(&eval::<F64>(&Node::Program(program), env, &mut rt));
    assert_eq!(rt.output(), &["1".to_string(), "two".to_string(), "[3]".to_string()]);
}

#[test]
fn errors_inside_arguments_stop_the_call() {
    expect_error(&eval_input("len(1 + true)"), "type mismatch: Integer + Boolean");
    expect_error(&eval_input("[1, -true, 3]"), "unknown operator: -Boolean");
    expect_error(&eval_input("{\"a\": -true}"), "unknown operator: -Boolean");
}

#[test]
fn equality_of_other_values() {
    expect_boolean(&eval_input("if (false) { 1 } == if (false) { 2 }"), true);
    expect_boolean(&eval_input("true != if (false) { 1 }"), true);
    expect_error(&eval_input("[1] + [2]"), "unknown operator: Array + Array");
    expect_error(&eval_input("[1] + 2"), "type mismatch: Array + Integer");
}

#[test]
fn missing_arguments_leave_parameters_unbound() {
    expect_error(&eval_input("let f = fn(a, b) { b }; f(1)"), "identifier not found: b");
    expect_integer(&eval_input("let f = fn(a) { a }; f(1, 2)"), 1);
}

// ---- quote and macros ----

#[test]
fn quote_of_unquoted_values() {
    match eval_input("quote(unquote(1 + 1) * unquote(false))") {
        Some(Object::Quote(n)) => assert_eq!(n.to_string(), "(2 * false)"),
        other => panic!("expected Quote, got {:?}", other),
    }
}

#[test]
fn macro_that_does_not_quote_is_reported() {
    let (out, _) = start::<F64>("let m = macro() { 1 }; m();\n");
    assert!(out.contains("we only support returning AST-nodes from macros"), "output was: {:?}", out);
}

// ---- sessions and whole programs ----

#[test]
fn session_shows_prompts_values_and_puts() {
    assert_eq!(
        start::<F64>("1 + 2\nputs(\"hi\")\nlet x = 1;\n"),
        (">> 3\n>> nil\n>> >> ".to_string(), "hi\n".to_string())
    );
    assert_eq!(start::<F64>("puts(1)\n"), (">> nil\n>> ".to_string(), "1\n".to_string()));
    assert_eq!(start::<F64>("5\r\n").0, ">> 5\n>> ");
    assert_eq!(start::<F64>("x").0, ">> Error: identifier not found: x\n>> ");
}

#[test]
fn session_line_by_line() {
    let mut repl = Repl::new();
    assert_eq!(repl.eval_line::<F64>("let twice = macro(e) { quote(unquote(e) * 2) };").0, "");
    assert_eq!(repl.eval_line::<F64>("twice(21)").0, "42\n");
    assert_eq!(
        repl.eval_line::<F64>("let = 1").0,
        "expected next token to be IDENT, got = instead\nno prefix parse function for = found\n"
    );
    assert_eq!(
        repl.eval_line::<F64>("puts(2 * 2, 5)"),
        ("nil\n".to_string(), "4\n5\n".to_string())
    );
}

#[test]
fn running_a_program() {
    assert_eq!(run::<F64>("let a = 5; a * 2"), Ok("10\n".to_string()));
    assert_eq!(run::<F64>("puts(1); if (false) { 2 }"), Ok("1\n".to_string()));
    assert_eq!(run::<F64>("let x 5;"), Err("expected next token to be =, got INT instead".to_string()));
    assert_eq!(run::<F64>(""), Ok("".to_string()));
}

#[test]
fn printed_expression_reads_back_as_itself() {
    let src = "[-a * (b + 3), !true, x != 10 / y, []]";
    let mut p1 = Parser::new(Lexer::new(src));
    let prog1 = p1.parse_program();
    assert!(p1.errors().is_empty());
    let s1 = prog1.to_string();
    assert_eq!(s1, "[((-a) * (b + 3)), (!true), (x != (10 / y)), []]");
    let mut p2 = Parser::new(Lexer::new(&s1));
    let prog2 = p2.parse_program();
    assert!(p2.errors().is_empty());
    assert_eq!(prog2.statements.len(), 1);
    assert_eq!(prog2.to_string(), s1);
}

fn name_x_into_five(node: Node) -> Node {
    if let Node::Expression(Expression::Ident(i)) = &node {
        if i.value == "x" {
            return Node::Expression(Expression::IntegerLiteral(IntegerLiteral {
                token: Token::new(TokenType::Int, "5"),
                value: 5,
            }));
        }
    }
    node
}

#[test]
fn modifier_may_turn_names_into_literals_outside_parameters() {
    let mut p = Parser::new(Lexer::new("x + 1; [x, y]"));
    let program = p.parse_program();
    assert!(p.errors().is_empty());
    let m = name_x_into_five;
    let out = monkey::rewrite::modify(Node::Program(program), &m);
    assert_eq!(out.to_string(), "(5 + 1)[5, y]");
}

#[test]
fn first_operand_error_stops_evaluation() {
    assert_eq!(
        run::<F64>("[1, 2 + true, puts(3)]"),
        Ok("Error: type mismatch: Integer + Boolean\n".to_string())
    );
    assert_eq!(
        run::<F64>("(1 + true) + puts(3)"),
        Ok("Error: type mismatch: Integer + Boolean\n".to_string())
    );
    assert_eq!(
        run::<F64>("if (-true) { puts(1) }"),
        Ok("Error: unknown operator: -Boolean\n".to_string())
    );
}

fn same_node(node: Node) -> Node {
    node
}

#[test]
fn identity_modifier_keeps_tree() {
    let src = "let f = fn(x, y) { if (x > y) { return [x, {1: y}]; } else { x[0] } }; f(1, 2);";
    let mut p = Parser::new(Lexer::new(src));
    let program = p.parse_program();
    assert!(p.errors().is_empty());
    let before = program.to_string();
    let m = same_node;
    let out = monkey::rewrite::modify(Node::Program(program), &m);
    assert_eq!(out.to_string(), before);
}

#[test]
fn name_tokens_are_whole_letter_runs() {
    let mut l = Lexer::new("_foo _ bar_baz let1");
    let want = [
        (TokenType::Ident, "_foo"),
        (TokenType::Ident, "_"),
        (TokenType::Ident, "bar_baz"),
        (TokenType::Let, "let"),
        (TokenType::Int, "1"),
        (TokenType::Eof, ""),
    ];
    for (k, lit) in want.iter() {
        let t = l.next_token();
        assert_eq!(t.token_type, *k);
        assert_eq!(t.literal, *lit);
    }
}

#[test]
fn extra_parentheses_vanish_when_printed() {
    let src = "((a) + [((1)), (-(b))])";
    let mut p1 = Parser::new(Lexer::new(src));
    let prog1 = p1.parse_program();
    assert!(p1.errors().is_empty());
    let s1 = prog1.to_string();
    assert_eq!(s1, "(a + [1, (-b)])");
    let mut p2 = Parser::new(Lexer::new(&s1));
    let prog2 = p2.parse_program();
    assert!(p2.errors().is_empty());
    assert_eq!(prog2.to_string(), s1);
}
