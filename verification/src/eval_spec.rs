//! What evaluating a tree means: the value each node evaluates to and the
//! runtime state it leaves, as functions of the node, the environment and the
//! state before.
//!
//! `None` stands for "no value" (what a `let` statement or a macro literal
//! evaluates to). Evaluation stops at the first error value, which then is the
//! result. A call of a function needs one unit of `fuel`; the interpreter
//! starts with [`CALL_DEPTH_LIMIT`] units, more than any stack holds calls.

use vstd::prelude::*;
use vstd::utf8::encode_utf8;
use crate::ast::{SpecBlock, SpecExpr, SpecIdent, SpecNode, SpecStmt, expr_token};
use crate::float::{FloatArith, float_negation};
use crate::numfmt::int_text;
use crate::object::{
    BuiltinKind, HashKey, RtState, SpecObject, Type, env_bind, env_lookup, env_push,
    hash_insert, hash_lookup, hash_key_of, inspect_text, object_type_name, type_of,
};
use crate::token::{SpecToken, TokenType};

verus! {

/// The number of nested calls the interpreter allows.
pub const CALL_DEPTH_LIMIT: u64 = 0xffff_ffff_ffff_ffffu64;

pub open spec fn is_error(r: Option<SpecObject>) -> bool {
    r matches Some(SpecObject::Error(_))
}

/// A result where a value is needed: no value counts as `nil`.
pub open spec fn or_nil(r: Option<SpecObject>) -> SpecObject {
    match r {
        Some(o) => o,
        None => SpecObject::Nil,
    }
}

/// The name of a value's type.
pub open spec fn tname(o: SpecObject) -> Seq<char> {
    object_type_name(type_of(o))
}

pub open spec fn float_obj<F: FloatArith>(bits: u64) -> SpecObject {
    SpecObject::Float(bits, F::spec_format(bits)@)
}

/// Everything but `nil` and `false` counts as true.
pub open spec fn is_truthy(o: SpecObject) -> bool {
    !(o is Nil || o == SpecObject::Boolean(false))
}

// ---------------------------------------------------------------------------
// Operators
// ---------------------------------------------------------------------------

pub open spec fn prefix_result<F: FloatArith>(op: Seq<char>, r: SpecObject) -> SpecObject {
    if op == "!"@ {
        SpecObject::Boolean(!is_truthy(r))
    } else if op == "-"@ {
        match r {
            SpecObject::Integer(v) => SpecObject::Integer(
                vstd::wrapping::i64_specs::wrapping_sub(0i64, v),
            ),
            SpecObject::Float(b, _) => float_obj::<F>(float_negation(b)),
            _ => SpecObject::Error("unknown operator: -"@ + tname(r)),
        }
    } else {
        SpecObject::Error("unknown operator: "@ + op + tname(r))
    }
}

pub open spec fn operator_error(lt: Seq<char>, op: Seq<char>, rt: Seq<char>) -> SpecObject {
    SpecObject::Error("unknown operator: "@ + lt + " "@ + op + " "@ + rt)
}

/// Integer division: truncating; a quotient too large wraps around. Dividing
/// by zero gives the error value "division by zero": a program can divide by
/// zero, and the interpreter answers with a Monkey error rather than stopping
/// the process.
pub open spec fn int_quotient(l: i64, r: i64) -> SpecObject {
    if r == 0 {
        SpecObject::Error("division by zero"@)
    } else {
        match l.checked_div(r) {
            Some(q) => SpecObject::Integer(q),
            None => SpecObject::Integer(i64::MIN),
        }
    }
}

pub open spec fn integer_infix(op: Seq<char>, l: i64, r: i64) -> SpecObject {
    if op == "+"@ {
        SpecObject::Integer(vstd::wrapping::i64_specs::wrapping_add(l, r))
    } else if op == "-"@ {
        SpecObject::Integer(vstd::wrapping::i64_specs::wrapping_sub(l, r))
    } else if op == "*"@ {
        SpecObject::Integer(vstd::wrapping::i64_specs::wrapping_mul(l, r))
    } else if op == "/"@ {
        int_quotient(l, r)
    } else if op == "<"@ {
        SpecObject::Boolean(l < r)
    } else if op == ">"@ {
        SpecObject::Boolean(l > r)
    } else if op == "<="@ {
        SpecObject::Boolean(l <= r)
    } else if op == ">="@ {
        SpecObject::Boolean(l >= r)
    } else if op == "=="@ {
        SpecObject::Boolean(l == r)
    } else if op == "!="@ {
        SpecObject::Boolean(l != r)
    } else {
        operator_error("Integer"@, op, "Integer"@)
    }
}

/// The binary64 value of a number (an integer is converted).
pub open spec fn float_operand<F: FloatArith>(o: SpecObject) -> Option<u64> {
    match o {
        SpecObject::Integer(v) => Some(F::spec_from_int(v)),
        SpecObject::Float(b, _) => Some(b),
        _ => None,
    }
}

pub open spec fn float_infix<F: FloatArith>(op: Seq<char>, l: SpecObject, r: SpecObject) -> SpecObject {
    match (float_operand::<F>(l), float_operand::<F>(r)) {
        (Some(a), Some(b)) => if op == "+"@ {
            float_obj::<F>(F::spec_add(a, b))
        } else if op == "-"@ {
            float_obj::<F>(F::spec_sub(a, b))
        } else if op == "*"@ {
            float_obj::<F>(F::spec_mul(a, b))
        } else if op == "/"@ {
            float_obj::<F>(F::spec_div(a, b))
        } else if op == "<"@ {
            SpecObject::Boolean(F::spec_less(a, b))
        } else if op == ">"@ {
            SpecObject::Boolean(F::spec_less(b, a))
        } else if op == "<="@ {
            SpecObject::Boolean(F::spec_less(a, b) || F::spec_equal(a, b))
        } else if op == ">="@ {
            SpecObject::Boolean(F::spec_less(b, a) || F::spec_equal(a, b))
        } else if op == "=="@ {
            SpecObject::Boolean(F::spec_equal(a, b))
        } else if op == "!="@ {
            SpecObject::Boolean(!F::spec_equal(a, b))
        } else {
            operator_error(tname(l), op, tname(r))
        },
        _ => operator_error(tname(l), op, tname(r)),
    }
}

pub open spec fn string_infix(op: Seq<char>, l: Seq<char>, r: Seq<char>) -> SpecObject {
    if op == "+"@ {
        SpecObject::Str(l + r)
    } else if op == "=="@ {
        SpecObject::Boolean(l == r)
    } else if op == "!="@ {
        SpecObject::Boolean(l != r)
    } else {
        operator_error("String"@, op, "String"@)
    }
}

/// `==` between values of other types: booleans by value, `nil` equals
/// `nil`, nothing else is equal.
pub open spec fn objects_equal(l: SpecObject, r: SpecObject) -> bool {
    match (l, r) {
        (SpecObject::Boolean(a), SpecObject::Boolean(b)) => a == b,
        (SpecObject::Nil, SpecObject::Nil) => true,
        _ => false,
    }
}

pub open spec fn infix_result<F: FloatArith>(op: Seq<char>, l: SpecObject, r: SpecObject) -> SpecObject {
    let lt = type_of(l);
    let rt = type_of(r);
    if lt == Type::Integer && rt == Type::Integer {
        integer_infix(op, l->Integer_0, r->Integer_0)
    } else if lt == Type::Float || rt == Type::Float {
        float_infix::<F>(op, l, r)
    } else if lt == Type::String && rt == Type::String {
        string_infix(op, l->Str_0, r->Str_0)
    } else if op == "=="@ {
        SpecObject::Boolean(objects_equal(l, r))
    } else if op == "!="@ {
        SpecObject::Boolean(!objects_equal(l, r))
    } else if lt != rt {
        SpecObject::Error("type mismatch: "@ + tname(l) + " "@ + op + " "@ + tname(r))
    } else {
        operator_error(tname(l), op, tname(r))
    }
}

pub open spec fn index_result(l: SpecObject, i: SpecObject) -> SpecObject {
    if type_of(l) == Type::Array && type_of(i) == Type::Integer {
        let es = l->Array_0;
        let v = i->Integer_0;
        if v < 0 || v >= es.len() {
            SpecObject::Nil
        } else {
            es[v as int]
        }
    } else if type_of(l) == Type::Hash {
        match hash_key_of(i) {
            None => SpecObject::Error("unusable as hash key: "@ + tname(i)),
            Some(k) => match hash_lookup(l->Hash_0, k) {
                Some(p) => p.1,
                None => SpecObject::Nil,
            },
        }
    } else {
        SpecObject::Error("index operator not supported: "@ + tname(l))
    }
}

// ---------------------------------------------------------------------------
// Built-in functions
// ---------------------------------------------------------------------------

pub open spec fn builtin_of(name: Seq<char>) -> Option<BuiltinKind> {
    if name == "len"@ {
        Some(BuiltinKind::Len)
    } else if name == "first"@ {
        Some(BuiltinKind::First)
    } else if name == "last"@ {
        Some(BuiltinKind::Last)
    } else if name == "rest"@ {
        Some(BuiltinKind::Rest)
    } else if name == "push"@ {
        Some(BuiltinKind::Push)
    } else if name == "puts"@ {
        Some(BuiltinKind::Puts)
    } else {
        None
    }
}

pub open spec fn wrong_arg_count(want: int, got: int) -> SpecObject {
    SpecObject::Error("wrong number of arguments. want="@ + int_text(want) + ", got="@ + int_text(got))
}

/// The texts `puts` writes: one line per argument.
pub open spec fn inspect_all(args: Seq<SpecObject>) -> Seq<Seq<char>> {
    Seq::new(args.len(), |k: int| inspect_text(args[k]))
}

pub open spec fn len_result(args: Seq<SpecObject>) -> SpecObject {
    if args.len() != 1 {
        wrong_arg_count(1, args.len() as int)
    } else {
        match args[0] {
            SpecObject::Str(s) => SpecObject::Integer(encode_utf8(s).len() as i64),
            SpecObject::Array(es) => SpecObject::Integer(es.len() as i64),
            o => SpecObject::Error("argument to `len` not supported, got "@ + tname(o)),
        }
    }
}

pub open spec fn first_result(args: Seq<SpecObject>) -> SpecObject {
    if args.len() != 1 {
        wrong_arg_count(1, args.len() as int)
    } else {
        match args[0] {
            SpecObject::Array(es) => if es.len() == 0 {
                SpecObject::Nil
            } else {
                es[0]
            },
            o => SpecObject::Error("argument to `first` must be Array, got "@ + tname(o)),
        }
    }
}

pub open spec fn last_result(args: Seq<SpecObject>) -> SpecObject {
    if args.len() != 1 {
        wrong_arg_count(1, args.len() as int)
    } else {
        match args[0] {
            SpecObject::Array(es) => if es.len() == 0 {
                SpecObject::Nil
            } else {
                es.last()
            },
            o => SpecObject::Error("argument to `last` must be Array, got "@ + tname(o)),
        }
    }
}

/// `rest` reports a wrong argument under the name `last`.
pub open spec fn rest_result(args: Seq<SpecObject>) -> SpecObject {
    if args.len() != 1 {
        wrong_arg_count(1, args.len() as int)
    } else {
        match args[0] {
            SpecObject::Array(es) => if es.len() == 0 {
                SpecObject::Nil
            } else {
                SpecObject::Array(es.drop_first())
            },
            o => SpecObject::Error("argument to `last` must be Array, got "@ + tname(o)),
        }
    }
}

pub open spec fn push_result(args: Seq<SpecObject>) -> SpecObject {
    if args.len() != 2 {
        wrong_arg_count(2, args.len() as int)
    } else {
        match args[0] {
            SpecObject::Array(es) => SpecObject::Array(es.push(args[1])),
            o => SpecObject::Error("first argument to `push` must be Array, got "@ + tname(o)),
        }
    }
}

pub open spec fn builtin_result(k: BuiltinKind, args: Seq<SpecObject>, st: RtState) -> (
    SpecObject,
    RtState,
) {
    match k {
        BuiltinKind::Len => (len_result(args), st),
        BuiltinKind::First => (first_result(args), st),
        BuiltinKind::Last => (last_result(args), st),
        BuiltinKind::Rest => (rest_result(args), st),
        BuiltinKind::Push => (push_result(args), st),
        BuiltinKind::Puts => (
            SpecObject::Nil,
            RtState { envs: st.envs, output: st.output + inspect_all(args) },
        ),
    }
}

// ---------------------------------------------------------------------------
// Names, calls, unquoting
// ---------------------------------------------------------------------------

/// What an identifier evaluates to: its binding, else the built-in of that
/// name, else an error.
pub open spec fn ident_value(st: RtState, env: usize, name: Seq<char>) -> SpecObject {
    match env_lookup(st.envs, env as int, name) {
        Some(v) => v,
        None => match builtin_of(name) {
            Some(k) => SpecObject::Builtin(k),
            None => SpecObject::Error("identifier not found: "@ + name),
        },
    }
}

/// Binds parameters `i..` to the arguments at the same places, as far as
/// there are arguments.
pub open spec fn bind_params(
    st: RtState,
    env: usize,
    params: Seq<SpecIdent>,
    args: Seq<SpecObject>,
    i: int,
) -> RtState
    decreases params.len() - i,
{
    if 0 <= i < params.len() && i < args.len() {
        bind_params(env_bind(st, env, params[i].value, args[i]), env, params, args, i + 1)
    } else {
        st
    }
}

/// A function's result: a returned value is unwrapped.
pub open spec fn unwrap_return(r: Option<SpecObject>) -> Option<SpecObject> {
    match r {
        Some(SpecObject::ReturnValue(v)) => Some(*v),
        _ => r,
    }
}

/// The tree an unquoted value stands for: an integer or boolean literal, or
/// the expression a quote holds.
pub open spec fn unquoted_node(v: Option<SpecObject>) -> Option<SpecExpr> {
    match v {
        Some(SpecObject::Integer(x)) => Some(
            SpecExpr::IntegerLiteral {
                token: SpecToken { kind: TokenType::Int, literal: int_text(x as int) },
                value: x,
            },
        ),
        Some(SpecObject::Boolean(b)) => Some(
            SpecExpr::Boolean {
                token: if b {
                    SpecToken { kind: TokenType::True, literal: "true"@ }
                } else {
                    SpecToken { kind: TokenType::False, literal: "false"@ }
                },
                value: b,
            },
        ),
        Some(SpecObject::Quote(SpecNode::Expression(x))) => Some(x),
        _ => None,
    }
}

/// Whether a call expression is a call of `quote` with an argument.
pub open spec fn is_quote_call(function: SpecExpr, arguments: Seq<SpecExpr>) -> bool {
    expr_token(function).literal == "quote"@ && arguments.len() > 0
}

/// Whether a call expression is a call of `unquote` with one argument.
pub open spec fn is_unquote_call(function: SpecExpr, arguments: Seq<SpecExpr>) -> bool {
    expr_token(function).literal == "unquote"@ && arguments.len() == 1
}

// ---------------------------------------------------------------------------
// Evaluation
// ---------------------------------------------------------------------------

/// The value of an expression and the state after it.
pub open spec fn expr_result<F: FloatArith>(fuel: nat, e: SpecExpr, env: usize, st: RtState) -> (
    Option<SpecObject>,
    RtState,
)
    decreases fuel, e, 1int,
{
    match e {
        SpecExpr::Ident(id) => (Some(ident_value(st, env, id.value)), st),
        SpecExpr::IntegerLiteral { value, .. } => (Some(SpecObject::Integer(value)), st),
        SpecExpr::FloatLiteral { token } => (Some(float_obj::<F>(F::spec_parse_literal(token.literal))), st),
        SpecExpr::Prefix { operator, right, .. } => {
            let (r, st1) = expr_result::<F>(fuel, *right, env, st);
            if is_error(r) {
                (r, st1)
            } else {
                (Some(prefix_result::<F>(operator, or_nil(r))), st1)
            }
        },
        SpecExpr::Infix { left, operator, right, .. } => {
            let (l, st1) = expr_result::<F>(fuel, *left, env, st);
            if is_error(l) {
                (l, st1)
            } else {
                let (r, st2) = expr_result::<F>(fuel, *right, env, st1);
                if is_error(r) {
                    (r, st2)
                } else {
                    (Some(infix_result::<F>(operator, or_nil(l), or_nil(r))), st2)
                }
            }
        },
        SpecExpr::Boolean { value, .. } => (Some(SpecObject::Boolean(value)), st),
        SpecExpr::If { condition, consequence, alternative, .. } => {
            let (c, st1) = expr_result::<F>(fuel, *condition, env, st);
            if is_error(c) {
                (c, st1)
            } else if is_truthy(or_nil(c)) {
                proof {
                    assert(decreases_to!(e => consequence));
                    assert(decreases_to!(consequence => consequence.statements));
                }
                block_result::<F>(fuel, consequence.statements, 0, env, st1, None)
            } else {
                match alternative {
                    Some(b) => {
                        proof {
                            assert(decreases_to!(e => alternative));
                            assert(decreases_to!(alternative => b));
                            assert(decreases_to!(b => b.statements));
                        }
                        block_result::<F>(fuel, b.statements, 0, env, st1, None)
                    },
                    None => (Some(SpecObject::Nil), st1),
                }
            }
        },
        SpecExpr::FunctionLiteral { parameters, body, .. } => (
            Some(SpecObject::Function(parameters, body, env)),
            st,
        ),
        SpecExpr::Call { .. } => call_result::<F>(fuel, e, env, st),
        SpecExpr::StringLiteral { value, .. } => (Some(SpecObject::Str(value)), st),
        SpecExpr::ArrayLiteral { elements, .. } => {
            let (es, st1) = exprs_result::<F>(fuel, elements, 0, env, st, Seq::empty());
            if es.len() == 1 && es[0] is Error {
                (Some(es[0]), st1)
            } else {
                (Some(SpecObject::Array(es)), st1)
            }
        },
        SpecExpr::Index { left, index, .. } => {
            let (l, st1) = expr_result::<F>(fuel, *left, env, st);
            if is_error(l) {
                (l, st1)
            } else {
                let (i, st2) = expr_result::<F>(fuel, *index, env, st1);
                if is_error(i) {
                    (i, st2)
                } else {
                    (Some(index_result(or_nil(l), or_nil(i))), st2)
                }
            }
        },
        SpecExpr::HashLiteral { pairs, .. } => hash_result::<F>(fuel, pairs, 0, env, st, Seq::empty()),
        SpecExpr::MacroLiteral { .. } => (None, st),
    }
}

/// The value of a call expression (`e`), including `quote(..)`.
pub open spec fn call_result<F: FloatArith>(fuel: nat, e: SpecExpr, env: usize, st: RtState) -> (
    Option<SpecObject>,
    RtState,
)
    decreases fuel, e, 0int,
{
    match e {
        SpecExpr::Call { function, arguments, .. } => {
            if is_quote_call(*function, arguments) {
                proof {
                    assert(decreases_to!(e => arguments));
                    assert(decreases_to!(arguments => arguments[0]));
                }
                let (q, st1) = unquoted_expr::<F>(fuel, arguments[0], env, st);
                (Some(SpecObject::Quote(SpecNode::Expression(q))), st1)
            } else {
                let (f, st1) = expr_result::<F>(fuel, *function, env, st);
                if is_error(f) {
                    (f, st1)
                } else {
                    let (args, st2) = exprs_result::<F>(fuel, arguments, 0, env, st1, Seq::empty());
                    if args.len() == 1 && args[0] is Error {
                        (Some(args[0]), st2)
                    } else {
                        match or_nil(f) {
                            SpecObject::Function(params, body, fenv) => if fuel == 0 {
                                (Some(SpecObject::Error("call depth limit reached"@)), st2)
                            } else {
                                function_call_result::<F>((fuel - 1) as nat, params, body, fenv, args, st2)
                            },
                            SpecObject::Builtin(k) => {
                                let (o, st3) = builtin_result(k, args, st2);
                                (Some(o), st3)
                            },
                            o => (Some(SpecObject::Error("not a function: "@ + tname(o))), st2),
                        }
                    }
                }
            }
        },
        _ => (None, st),
    }
}

/// The result of calling a function with these parameters, body and
/// defining environment: the body runs in a new environment nested in the
/// defining one, with the parameters bound to the arguments.
pub open spec fn function_call_result<F: FloatArith>(
    fuel: nat,
    params: Seq<SpecIdent>,
    body: SpecBlock,
    fenv: usize,
    args: Seq<SpecObject>,
    st: RtState,
) -> (Option<SpecObject>, RtState)
    decreases fuel, body, 1int,
{
    let new_env = st.envs.len() as usize;
    let st1 = bind_params(env_push(st, Some(fenv)), new_env, params, args, 0);
    let (r, st2) = block_result::<F>(fuel, body.statements, 0, new_env, st1, None);
    (unwrap_return(r), st2)
}

/// The values of `es[i..]`, after `acc`; on an error, just the error.
pub open spec fn exprs_result<F: FloatArith>(
    fuel: nat,
    es: Seq<SpecExpr>,
    i: int,
    env: usize,
    st: RtState,
    acc: Seq<SpecObject>,
) -> (Seq<SpecObject>, RtState)
    decreases fuel, es, es.len() - i,
{
    if 0 <= i < es.len() {
        proof {
            assert(decreases_to!(es => es[i]));
        }
        let (v, st1) = expr_result::<F>(fuel, es[i], env, st);
        if is_error(v) {
            (seq![or_nil(v)], st1)
        } else {
            exprs_result::<F>(fuel, es, i + 1, env, st1, acc.push(or_nil(v)))
        }
    } else {
        (acc, st)
    }
}

/// The hash built from pairs `ps[i..]` on top of `acc`, or the first error.
pub open spec fn hash_result<F: FloatArith>(
    fuel: nat,
    ps: Seq<(SpecExpr, SpecExpr)>,
    i: int,
    env: usize,
    st: RtState,
    acc: Seq<(HashKey, SpecObject, SpecObject)>,
) -> (Option<SpecObject>, RtState)
    decreases fuel, ps, ps.len() - i,
{
    if 0 <= i < ps.len() {
        proof {
            assert(decreases_to!(ps => ps[i]));
            assert(decreases_to!(ps[i] => ps[i].0));
            assert(decreases_to!(ps[i] => ps[i].1));
        }
        let (k, st1) = expr_result::<F>(fuel, ps[i].0, env, st);
        if is_error(k) {
            (k, st1)
        } else {
            let key = or_nil(k);
            match hash_key_of(key) {
                None => (Some(SpecObject::Error("unusable as hash key: "@ + tname(key))), st1),
                Some(hk) => {
                    let (v, st2) = expr_result::<F>(fuel, ps[i].1, env, st1);
                    if is_error(v) {
                        (v, st2)
                    } else {
                        hash_result::<F>(
                            fuel,
                            ps,
                            i + 1,
                            env,
                            st2,
                            hash_insert(acc, hk, key, or_nil(v)),
                        )
                    }
                },
            }
        }
    } else {
        (Some(SpecObject::Hash(acc)), st)
    }
}

/// The value of a statement and the state after it.
pub open spec fn stmt_result<F: FloatArith>(fuel: nat, s: SpecStmt, env: usize, st: RtState) -> (
    Option<SpecObject>,
    RtState,
)
    decreases fuel, s, 1int,
{
    match s {
        SpecStmt::Expression { expression, .. } => expr_result::<F>(fuel, expression, env, st),
        SpecStmt::Return { value, .. } => {
            let (v, st1) = expr_result::<F>(fuel, value, env, st);
            if is_error(v) {
                (v, st1)
            } else {
                (Some(SpecObject::ReturnValue(Box::new(or_nil(v)))), st1)
            }
        },
        SpecStmt::Block(b) => {
            proof {
                assert(decreases_to!(s => b));
                assert(decreases_to!(b => b.statements));
            }
            block_result::<F>(fuel, b.statements, 0, env, st, None)
        },
        SpecStmt::Let { name, value, .. } => {
            let (v, st1) = expr_result::<F>(fuel, value, env, st);
            if is_error(v) {
                (v, st1)
            } else {
                (None, env_bind(st1, env, name.value, or_nil(v)))
            }
        },
    }
}

/// The value of the statements `ss[i..]` of a block, `result` being the
/// value of the statement before; a returned value or an error ends it.
pub open spec fn block_result<F: FloatArith>(
    fuel: nat,
    ss: Seq<SpecStmt>,
    i: int,
    env: usize,
    st: RtState,
    result: Option<SpecObject>,
) -> (Option<SpecObject>, RtState)
    decreases fuel, ss, ss.len() - i,
{
    if 0 <= i < ss.len() {
        proof {
            assert(decreases_to!(ss => ss[i]));
        }
        let (r, st1) = stmt_result::<F>(fuel, ss[i], env, st);
        match r {
            Some(SpecObject::ReturnValue(_)) => (r, st1),
            Some(SpecObject::Error(_)) => (r, st1),
            _ => block_result::<F>(fuel, ss, i + 1, env, st1, r),
        }
    } else {
        (result, st)
    }
}

/// `e` with each `unquote(x)` call in it replaced by the tree for the value
/// of `x`; calls are not looked into.
pub open spec fn unquoted_expr<F: FloatArith>(fuel: nat, e: SpecExpr, env: usize, st: RtState) -> (
    SpecExpr,
    RtState,
)
    decreases fuel, e, 1int,
{
    match e {
        SpecExpr::Prefix { token, operator, right } => {
            let (r, st1) = unquoted_expr::<F>(fuel, *right, env, st);
            (SpecExpr::Prefix { token, operator, right: Box::new(r) }, st1)
        },
        SpecExpr::Infix { token, left, operator, right } => {
            let (l, st1) = unquoted_expr::<F>(fuel, *left, env, st);
            let (r, st2) = unquoted_expr::<F>(fuel, *right, env, st1);
            (SpecExpr::Infix { token, left: Box::new(l), operator, right: Box::new(r) }, st2)
        },
        SpecExpr::Index { token, left, index } => {
            let (l, st1) = unquoted_expr::<F>(fuel, *left, env, st);
            let (i, st2) = unquoted_expr::<F>(fuel, *index, env, st1);
            (SpecExpr::Index { token, left: Box::new(l), index: Box::new(i) }, st2)
        },
        SpecExpr::If { token, condition, consequence, alternative } => {
            let (c, st1) = unquoted_expr::<F>(fuel, *condition, env, st);
            proof {
                assert(decreases_to!(e => consequence));
                assert(decreases_to!(consequence => consequence.statements));
            }
            let (cs, st2) = unquoted_stmts::<F>(fuel, consequence.statements, 0, env, st1, Seq::empty());
            match alternative {
                Some(b) => {
                    proof {
                        assert(decreases_to!(e => alternative));
                        assert(decreases_to!(alternative => b));
                        assert(decreases_to!(b => b.statements));
                    }
                    let (bs, st3) = unquoted_stmts::<F>(fuel, b.statements, 0, env, st2, Seq::empty());
                    (
                        SpecExpr::If {
                            token,
                            condition: Box::new(c),
                            consequence: SpecBlock { token: consequence.token, statements: cs },
                            alternative: Some(SpecBlock { token: b.token, statements: bs }),
                        },
                        st3,
                    )
                },
                None => (
                    SpecExpr::If {
                        token,
                        condition: Box::new(c),
                        consequence: SpecBlock { token: consequence.token, statements: cs },
                        alternative: None,
                    },
                    st2,
                ),
            }
        },
        SpecExpr::FunctionLiteral { token, parameters, body } => {
            proof {
                assert(decreases_to!(e => body));
                assert(decreases_to!(body => body.statements));
            }
            let (bs, st1) = unquoted_stmts::<F>(fuel, body.statements, 0, env, st, Seq::empty());
            (
                SpecExpr::FunctionLiteral {
                    token,
                    parameters,
                    body: SpecBlock { token: body.token, statements: bs },
                },
                st1,
            )
        },
        SpecExpr::ArrayLiteral { token, elements } => {
            let (es, st1) = unquoted_exprs::<F>(fuel, elements, 0, env, st, Seq::empty());
            (SpecExpr::ArrayLiteral { token, elements: es }, st1)
        },
        SpecExpr::HashLiteral { token, pairs } => {
            let (ps, st1) = unquoted_pairs::<F>(fuel, pairs, 0, env, st, Seq::empty());
            (SpecExpr::HashLiteral { token, pairs: ps }, st1)
        },
        SpecExpr::Call { function, arguments, .. } => {
            if is_unquote_call(*function, arguments) {
                proof {
                    assert(decreases_to!(e => arguments));
                    assert(decreases_to!(arguments => arguments[0]));
                }
                let (v, st1) = expr_result::<F>(fuel, arguments[0], env, st);
                match unquoted_node(v) {
                    Some(n) => (n, st1),
                    None => (e, st1),
                }
            } else {
                (e, st)
            }
        },
        _ => (e, st),
    }
}

pub open spec fn unquoted_stmt<F: FloatArith>(fuel: nat, s: SpecStmt, env: usize, st: RtState) -> (
    SpecStmt,
    RtState,
)
    decreases fuel, s, 1int,
{
    match s {
        SpecStmt::Expression { token, expression } => {
            let (x, st1) = unquoted_expr::<F>(fuel, expression, env, st);
            (SpecStmt::Expression { token, expression: x }, st1)
        },
        SpecStmt::Return { token, value } => {
            let (x, st1) = unquoted_expr::<F>(fuel, value, env, st);
            (SpecStmt::Return { token, value: x }, st1)
        },
        SpecStmt::Let { token, name, value } => {
            let (x, st1) = unquoted_expr::<F>(fuel, value, env, st);
            (SpecStmt::Let { token, name, value: x }, st1)
        },
        SpecStmt::Block(b) => {
            proof {
                assert(decreases_to!(s => b));
                assert(decreases_to!(b => b.statements));
            }
            let (bs, st1) = unquoted_stmts::<F>(fuel, b.statements, 0, env, st, Seq::empty());
            (SpecStmt::Block(SpecBlock { token: b.token, statements: bs }), st1)
        },
    }
}

pub open spec fn unquoted_stmts<F: FloatArith>(
    fuel: nat,
    ss: Seq<SpecStmt>,
    i: int,
    env: usize,
    st: RtState,
    acc: Seq<SpecStmt>,
) -> (Seq<SpecStmt>, RtState)
    decreases fuel, ss, ss.len() - i,
{
    if 0 <= i < ss.len() {
        proof {
            assert(decreases_to!(ss => ss[i]));
        }
        let (x, st1) = unquoted_stmt::<F>(fuel, ss[i], env, st);
        unquoted_stmts::<F>(fuel, ss, i + 1, env, st1, acc.push(x))
    } else {
        (acc, st)
    }
}

pub open spec fn unquoted_exprs<F: FloatArith>(
    fuel: nat,
    es: Seq<SpecExpr>,
    i: int,
    env: usize,
    st: RtState,
    acc: Seq<SpecExpr>,
) -> (Seq<SpecExpr>, RtState)
    decreases fuel, es, es.len() - i,
{
    if 0 <= i < es.len() {
        proof {
            assert(decreases_to!(es => es[i]));
        }
        let (x, st1) = unquoted_expr::<F>(fuel, es[i], env, st);
        unquoted_exprs::<F>(fuel, es, i + 1, env, st1, acc.push(x))
    } else {
        (acc, st)
    }
}

pub open spec fn unquoted_pairs<F: FloatArith>(
    fuel: nat,
    ps: Seq<(SpecExpr, SpecExpr)>,
    i: int,
    env: usize,
    st: RtState,
    acc: Seq<(SpecExpr, SpecExpr)>,
) -> (Seq<(SpecExpr, SpecExpr)>, RtState)
    decreases fuel, ps, ps.len() - i,
{
    if 0 <= i < ps.len() {
        proof {
            assert(decreases_to!(ps => ps[i]));
            assert(decreases_to!(ps[i] => ps[i].0));
            assert(decreases_to!(ps[i] => ps[i].1));
        }
        let (k, st1) = unquoted_expr::<F>(fuel, ps[i].0, env, st);
        let (v, st2) = unquoted_expr::<F>(fuel, ps[i].1, env, st1);
        unquoted_pairs::<F>(fuel, ps, i + 1, env, st2, acc.push((k, v)))
    } else {
        (acc, st)
    }
}

/// The value of a program's statements `ss[i..]`: a returned value is
/// unwrapped and ends it, as does an error.
pub open spec fn program_result<F: FloatArith>(
    fuel: nat,
    ss: Seq<SpecStmt>,
    i: int,
    env: usize,
    st: RtState,
    result: Option<SpecObject>,
) -> (Option<SpecObject>, RtState)
    decreases ss.len() - i,
{
    if 0 <= i < ss.len() {
        let (r, st1) = stmt_result::<F>(fuel, ss[i], env, st);
        match r {
            Some(SpecObject::ReturnValue(v)) => (Some(*v), st1),
            Some(SpecObject::Error(_)) => (r, st1),
            _ => program_result::<F>(fuel, ss, i + 1, env, st1, r),
        }
    } else {
        (result, st)
    }
}

/// The value of any node.
pub open spec fn node_result<F: FloatArith>(fuel: nat, n: SpecNode, env: usize, st: RtState) -> (
    Option<SpecObject>,
    RtState,
) {
    match n {
        SpecNode::Program(ss) => program_result::<F>(fuel, ss, 0, env, st, None),
        SpecNode::Statement(s) => stmt_result::<F>(fuel, s, env, st),
        SpecNode::Expression(e) => expr_result::<F>(fuel, e, env, st),
    }
}

} // verus!
