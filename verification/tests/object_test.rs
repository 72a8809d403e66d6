//! Tests of values: hash keys, types, their text, and environments.

use monkey::ast::{IntegerLiteral, Node, Expression};
use monkey::float::{Chars, FloatArith};
use monkey::object::{Environment, FloatValue, HashObj, HashPair, Object, Runtime, Type};
use monkey::token::{Token, TokenType};

/// Binary64 arithmetic for the interpreter, done by `f64`.
struct F64;

/// A binary64 result as bits, with every NaN given as the one canonical NaN
/// so that each operation's bits are a function of its arguments.
fn canonical_bits(x: f64) -> u64 {
    if x.is_nan() {
        f64::NAN.to_bits()
    } else {
        x.to_bits()
    }
}

impl FloatArith for F64 {
    // The `spec_` items name, for the verifier, what each operation gives.
    // They are never called; where their types allow it they compute the
    // operation itself. A literal's characters are a verifier-only value,
    // so `spec_parse_literal` has no runnable body.
    fn spec_parse_literal(_literal: Chars) -> u64 {
        unreachable!()
    }
    fn spec_from_int(v: i64) -> u64 {
        Self::from_int(v)
    }
    fn spec_add(a: u64, b: u64) -> u64 {
        Self::add(a, b)
    }
    fn spec_sub(a: u64, b: u64) -> u64 {
        Self::sub(a, b)
    }
    fn spec_mul(a: u64, b: u64) -> u64 {
        Self::mul(a, b)
    }
    fn spec_div(a: u64, b: u64) -> u64 {
        Self::div(a, b)
    }
    fn spec_less(a: u64, b: u64) -> bool {
        Self::less(a, b)
    }
    fn spec_equal(a: u64, b: u64) -> bool {
        Self::equal(a, b)
    }
    fn spec_format(a: u64) -> String {
        Self::format(a)
    }
    fn parse_literal(literal: &str) -> u64 {
        canonical_bits(literal.parse::<f64>().unwrap_or(0.0))
    }
    fn from_int(v: i64) -> u64 {
        canonical_bits(v as f64)
    }
    fn add(a: u64, b: u64) -> u64 {
        canonical_bits(f64::from_bits(a) + f64::from_bits(b))
    }
    fn sub(a: u64, b: u64) -> u64 {
        canonical_bits(f64::from_bits(a) - f64::from_bits(b))
    }
    fn mul(a: u64, b: u64) -> u64 {
        canonical_bits(f64::from_bits(a) * f64::from_bits(b))
    }
    fn div(a: u64, b: u64) -> u64 {
        canonical_bits(f64::from_bits(a) / f64::from_bits(b))
    }
    fn less(a: u64, b: u64) -> bool {
        f64::from_bits(a) < f64::from_bits(b)
    }
    fn equal(a: u64, b: u64) -> bool {
        f64::from_bits(a) == f64::from_bits(b)
    }
    fn format(a: u64) -> String {
        format!("{}", f64::from_bits(a))
    }
}

fn float(v: f64) -> Object {
    Object::Float(FloatValue::new::<F64>(v.to_bits()))
}

// ---- hash keys ----

#[test]
fn string_hash_key() {
    let hello1 = Object::Str("Hello World".into());
    let hello2 = Object::Str("Hello World".into());
    let diff1 = Object::Str("My name is johnny".into());
    let diff2 = Object::Str("My name is johnny".into());

    assert_eq!(hello1.hash_key(), hello2.hash_key());
    assert_eq!(diff1.hash_key(), diff2.hash_key());
    assert_ne!(hello1.hash_key(), diff1.hash_key());
}

#[test]
fn boolean_hash_key() {
    assert_eq!(
        Object::Boolean(true).hash_key(),
        Object::Boolean(true).hash_key()
    );
    assert_eq!(
        Object::Boolean(false).hash_key(),
        Object::Boolean(false).hash_key()
    );
    assert_ne!(
        Object::Boolean(true).hash_key(),
        Object::Boolean(false).hash_key()
    );
}

#[test]
fn integer_hash_key() {
    assert_eq!(Object::Integer(1).hash_key(), Object::Integer(1).hash_key());
    assert_eq!(Object::Integer(2).hash_key(), Object::Integer(2).hash_key());
    assert_ne!(Object::Integer(1).hash_key(), Object::Integer(2).hash_key());
}

#[test]
fn non_hashable_objects_have_no_key() {
    assert!(Object::Nil.hash_key().is_none());
    assert!(Object::Array(vec![]).hash_key().is_none());
    assert!(Object::Error("x".into()).hash_key().is_none());
}

#[test]
fn float_hash_key_is_consistent() {
    assert_eq!(float(1.5).hash_key(), float(1.5).hash_key());
    assert_ne!(float(1.5).hash_key(), float(2.5).hash_key());
}

// ---- Type ----

#[test]
fn type_strings() {
    let cases: &[(Type, &str)] = &[
        (Type::Integer, "Integer"),
        (Type::Float, "Float"),
        (Type::Boolean, "Boolean"),
        (Type::Nil, "Nil"),
        (Type::ReturnValue, "ReturnValue"),
        (Type::Error, "Error"),
        (Type::Function, "Function"),
        (Type::String, "String"),
        (Type::Builtin, "Builtin"),
        (Type::Array, "Array"),
        (Type::Hash, "Hash"),
        (Type::Quote, "Quote"),
        (Type::Macro, "Macro"),
    ];
    for (ty, want) in cases {
        assert_eq!(ty.as_str(), *want);
        assert_eq!(ty.to_string(), *want);
    }
}

#[test]
fn object_type_tags() {
    assert_eq!(Object::Integer(1).type_(), Type::Integer);
    assert_eq!(float(1.0).type_(), Type::Float);
    assert_eq!(Object::Boolean(true).type_(), Type::Boolean);
    assert_eq!(Object::Nil.type_(), Type::Nil);
    assert_eq!(Object::Str("x".into()).type_(), Type::String);
    assert_eq!(Object::Error("e".into()).type_(), Type::Error);
    assert_eq!(
        Object::ReturnValue(Box::new(Object::Integer(1))).type_(),
        Type::ReturnValue
    );
    assert_eq!(Object::Array(vec![]).type_(), Type::Array);
}

// ---- inspect ----

#[test]
fn inspect_scalars() {
    assert_eq!(Object::Integer(5).inspect(), "5");
    assert_eq!(Object::Integer(-42).inspect(), "-42");
    assert_eq!(float(12.34).inspect(), "12.34");
    assert_eq!(float(78.0).inspect(), "78"); // shortest, non-exponential
    assert_eq!(Object::Boolean(true).inspect(), "true");
    assert_eq!(Object::Boolean(false).inspect(), "false");
    assert_eq!(Object::Nil.inspect(), "nil");
    assert_eq!(Object::Str("hi".into()).inspect(), "hi");
    assert_eq!(Object::Error("boom".into()).inspect(), "Error: boom");
    assert_eq!(
        Object::ReturnValue(Box::new(Object::Integer(9))).inspect(),
        "9"
    );
}

#[test]
fn inspect_array() {
    let arr = Object::Array(vec![
        Object::Integer(1),
        Object::Str("two".into()),
        Object::Boolean(true),
    ]);
    assert_eq!(arr.inspect(), "[1, two, true]");
    assert_eq!(Object::Array(vec![]).inspect(), "[]");
}

#[test]
fn inspect_hash_single_entry() {
    let key = Object::Str("one".into());
    let pairs = vec![(
        key.hash_key().unwrap(),
        HashPair {
            key,
            value: Object::Integer(1),
        },
    )];
    let hash = Object::Hash(HashObj { pairs });
    assert_eq!(hash.inspect(), "{one: 1}");
}

#[test]
fn inspect_quote() {
    let node = Node::Expression(Expression::IntegerLiteral(IntegerLiteral {
        token: Token::new(TokenType::Int, "5"),
        value: 5,
    }));
    let q = Object::Quote(Box::new(node));
    assert_eq!(q.inspect(), "Quote(5)");
}

// ---- Environment ----

#[test]
fn environment_get_set() {
    let mut rt = Runtime::new();
    let env = Environment::new(&mut rt);
    let returned = Environment::set(&mut rt, env, "x".into(), Object::Integer(5));
    assert!(matches!(returned, Object::Integer(5)));
    assert!(matches!(Environment::get(&rt, env, "x"), Some(Object::Integer(5))));
    assert!(Environment::get(&rt, env, "missing").is_none());
}

#[test]
fn enclosed_environment_resolution() {
    let mut rt = Runtime::new();
    let outer = Environment::new(&mut rt);
    Environment::set(&mut rt, outer, "x".into(), Object::Integer(5));
    Environment::set(&mut rt, outer, "y".into(), Object::Integer(7));

    let inner = Environment::new_enclosed(&mut rt, outer);
    // shadow x, leave y to fall through to outer
    Environment::set(&mut rt, inner, "x".into(), Object::Integer(99));

    assert!(matches!(Environment::get(&rt, inner, "x"), Some(Object::Integer(99))));
    assert!(matches!(Environment::get(&rt, inner, "y"), Some(Object::Integer(7))));
    // outer is unaffected by the inner shadow
    assert!(matches!(Environment::get(&rt, outer, "x"), Some(Object::Integer(5))));
    assert!(Environment::get(&rt, inner, "z").is_none());
}
