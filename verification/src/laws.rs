//! Properties of the interpreter that hold for every input: how bindings are
//! found, what hash keys tell apart, integer arithmetic, `quote` and macro
//! definitions.

use vstd::prelude::*;
use crate::ast::{SpecBlock, SpecExpr, SpecIdent, SpecStmt};
use crate::eval_spec::{
    block_result, bind_params, call_result, exprs_result, function_call_result, hash_result,
    is_error, or_nil, program_result, stmt_result, expr_result, infix_result, integer_infix, is_quote_call, is_unquote_call, prefix_result,
    unquoted_expr, unquoted_exprs, unquoted_pairs, unquoted_stmt, unquoted_stmts,
};
use crate::ast::SpecNode;
use crate::macros::{
    called_macro, defined_macros, expanded_expr, expanded_exprs, expanded_node, expanded_pairs,
    expanded_stmt, expanded_stmts, is_macro_definition,
};
use crate::token::SpecToken;
use crate::float::FloatArith;
use crate::parser_spec::{PState, add_error, cur_tok, no_prefix_msg, parse_prefix};
use crate::token::TokenType;
use crate::object::{
    HashKey, RtState, SpecEnv, SpecObject, env_bind, env_lookup, env_push, first_key_at,
    hash_insert, hash_key_of, hash_lookup, key_index, lemma_key_index, store_lookup, type_of,
};

verus! {

// ---------------------------------------------------------------------------
// Environments
// ---------------------------------------------------------------------------

/// A lookup from environment `j` sees only environments `0..=j`.
proof fn lemma_lookup_frame(a: Seq<SpecEnv>, b: Seq<SpecEnv>, j: int, name: Seq<char>)
    requires
        0 <= j < a.len(),
        j < b.len(),
        forall|k: int| 0 <= k <= j ==> a[k] == b[k],
    ensures
        env_lookup(a, j, name) == env_lookup(b, j, name),
    decreases j,
{
    assert(a[j] == b[j]);
    match store_lookup(a[j].store, name) {
        Some(_) => {},
        None => match a[j].outer {
            Some(o) => {
                if o < j {
                    lemma_lookup_frame(a, b, o as int, name);
                }
            },
            None => {},
        },
    }
}

/// A name just bound in an environment is found there, with the value bound.
pub proof fn law_lookup_after_bind(st: RtState, e: usize, name: Seq<char>, v: SpecObject)
    requires
        e < st.envs.len(),
    ensures
        env_lookup(env_bind(st, e, name, v).envs, e as int, name) == Some(v),
{
    let s2 = env_bind(st, e, name, v);
    assert(s2.envs[e as int].store.last() == (name, v));
}

/// Binding one name changes what no other name is bound to, in any
/// environment.
pub proof fn law_bind_keeps_other_names(
    st: RtState,
    e: usize,
    name: Seq<char>,
    v: SpecObject,
    j: int,
    other: Seq<char>,
)
    requires
        other != name,
    ensures
        env_lookup(env_bind(st, e, name, v).envs, j, other) == env_lookup(st.envs, j, other),
    decreases j,
{
    let s2 = env_bind(st, e, name, v);
    if e < st.envs.len() && 0 <= j < st.envs.len() {
        if j == e {
            let store = st.envs[j].store;
            assert(s2.envs[j].store.drop_last() =~= store);
            assert(store_lookup(s2.envs[j].store, other) == store_lookup(store, other));
        }
        assert(s2.envs[j].outer == st.envs[j].outer);
        match store_lookup(st.envs[j].store, other) {
            Some(_) => {},
            None => match st.envs[j].outer {
                Some(o) => {
                    if o < j {
                        law_bind_keeps_other_names(st, e, name, v, o as int, other);
                    }
                },
                None => {},
            },
        }
    }
}

/// Bindings made in an environment are not seen from the environments made
/// before it (an outer scope does not see an inner one).
pub proof fn law_bind_unseen_from_older(
    st: RtState,
    e: usize,
    name: Seq<char>,
    v: SpecObject,
    j: int,
    x: Seq<char>,
)
    requires
        0 <= j < e,
    ensures
        env_lookup(env_bind(st, e, name, v).envs, j, x) == env_lookup(st.envs, j, x),
{
    let s2 = env_bind(st, e, name, v);
    if j < st.envs.len() {
        lemma_lookup_frame(s2.envs, st.envs, j, x);
    }
}

/// A new environment nested in `outer` finds every name as `outer` does,
/// until something is bound in it.
pub proof fn law_enclosed_sees_outer(st: RtState, outer: usize, x: Seq<char>)
    requires
        outer < st.envs.len(),
    ensures
        env_lookup(env_push(st, Some(outer)).envs, st.envs.len() as int, x) == env_lookup(
            st.envs,
            outer as int,
            x,
        ),
{
    let s2 = env_push(st, Some(outer));
    let n = st.envs.len() as int;
    assert(s2.envs[n].store =~= Seq::<(Seq<char>, SpecObject)>::empty());
    assert(store_lookup(s2.envs[n].store, x) is None);
    lemma_lookup_frame(s2.envs, st.envs, outer as int, x);
}

/// Making a new environment changes no lookup in the existing ones.
pub proof fn law_push_keeps_lookups(st: RtState, outer: Option<usize>, j: int, x: Seq<char>)
    requires
        0 <= j < st.envs.len(),
    ensures
        env_lookup(env_push(st, outer).envs, j, x) == env_lookup(st.envs, j, x),
{
    lemma_lookup_frame(env_push(st, outer).envs, st.envs, j, x);
}

// ---------------------------------------------------------------------------
// Hash keys
// ---------------------------------------------------------------------------

/// Two integers have the same hash key exactly when they are equal.
pub proof fn law_integer_keys(a: i64, b: i64)
    ensures
        (hash_key_of(SpecObject::Integer(a)) == hash_key_of(SpecObject::Integer(b))) <==> a == b,
{
    assert((a as u64) == (b as u64) ==> a == b) by (bit_vector);
}

/// `true` and `false` have different hash keys.
pub proof fn law_boolean_keys()
    ensures
        hash_key_of(SpecObject::Boolean(true)) != hash_key_of(SpecObject::Boolean(false)),
{
}

/// A hash key records the type of its value, so values of different types
/// never share a key; equal strings share theirs.
pub proof fn law_keys_by_type(x: SpecObject, y: SpecObject)
    requires
        hash_key_of(x) is Some,
        hash_key_of(y) is Some,
    ensures
        hash_key_of(x).unwrap().type_ == type_of(x),
        type_of(x) != type_of(y) ==> hash_key_of(x) != hash_key_of(y),
        (x is Str && x == y) ==> hash_key_of(x) == hash_key_of(y),
{
}

proof fn lemma_key_present(ps: Seq<(HashKey, SpecObject, SpecObject)>, k: HashKey, j: int)
    requires
        0 <= j < ps.len(),
        ps[j].0 == k,
    ensures
        key_index(ps, k) >= 0,
        key_index(ps, k) <= j,
    decreases j,
{
    if exists|m: int| 0 <= m < j && ps[m].0 == k {
        let m = choose|m: int| 0 <= m < j && ps[m].0 == k;
        lemma_key_present(ps, k, m);
    } else {
        lemma_key_index(ps, k, j);
    }
}

/// The first place of key `k`, found as a place with that key and none
/// before it.
proof fn lemma_key_index_facts(ps: Seq<(HashKey, SpecObject, SpecObject)>, k: HashKey)
    ensures
        key_index(ps, k) >= 0 ==> first_key_at(ps, k, key_index(ps, k)),
        key_index(ps, k) < 0 ==> forall|j: int| 0 <= j < ps.len() ==> ps[j].0 != k,
        key_index(ps, k) >= -1,
{
    if key_index(ps, k) < 0 {
        assert forall|j: int| 0 <= j < ps.len() implies ps[j].0 != k by {
            if ps[j].0 == k {
                lemma_key_present(ps, k, j);
            }
        }
    }
}

/// A key just stored in a hash is found there, with the key and value stored.
pub proof fn law_hash_lookup_after_insert(
    ps: Seq<(HashKey, SpecObject, SpecObject)>,
    k: HashKey,
    key: SpecObject,
    value: SpecObject,
)
    ensures
        hash_lookup(hash_insert(ps, k, key, value), k) == Some((key, value)),
{
    lemma_key_index_facts(ps, k);
    let i = key_index(ps, k);
    let ps2 = hash_insert(ps, k, key, value);
    if i >= 0 {
        lemma_key_index(ps2, k, i);
    } else {
        lemma_key_index(ps2, k, ps.len() as int);
    }
}

/// Storing under one key changes what no other key finds.
pub proof fn law_hash_insert_keeps_other_keys(
    ps: Seq<(HashKey, SpecObject, SpecObject)>,
    k: HashKey,
    key: SpecObject,
    value: SpecObject,
    other: HashKey,
)
    requires
        other != k,
    ensures
        hash_lookup(hash_insert(ps, k, key, value), other) == hash_lookup(ps, other),
{
    lemma_key_index_facts(ps, k);
    lemma_key_index_facts(ps, other);
    let ps2 = hash_insert(ps, k, key, value);
    lemma_key_index_facts(ps2, other);
    let a = key_index(ps, other);
    let b = key_index(ps2, other);
    assert forall|j: int| 0 <= j < ps.len() implies (ps2[j].0 == other) == (ps[j].0 == other) by {}
    if a >= 0 {
        lemma_key_index(ps2, other, a);
    } else {
        if b >= 0 {
            assert(ps2[b].0 == other);
        }
        lemma_key_index(ps2, other, ps2.len() as int);
    }
}

// ---------------------------------------------------------------------------
// Integer arithmetic
// ---------------------------------------------------------------------------

/// An expression built from integer literals with `+`, `-`, `*` and prefix
/// `-` only.
pub open spec fn is_arith(e: SpecExpr) -> bool
    decreases e,
{
    match e {
        SpecExpr::IntegerLiteral { .. } => true,
        SpecExpr::Infix { left, operator, right, .. } => (operator == "+"@ || operator == "-"@
            || operator == "*"@) && is_arith(*left) && is_arith(*right),
        SpecExpr::Prefix { operator, right, .. } => operator == "-"@ && is_arith(*right),
        _ => false,
    }
}

/// The value of such an expression in 64-bit two's-complement arithmetic.
pub open spec fn arith_value(e: SpecExpr) -> i64
    decreases e,
{
    match e {
        SpecExpr::IntegerLiteral { value, .. } => value,
        SpecExpr::Infix { left, operator, right, .. } => if operator == "+"@ {
            vstd::wrapping::i64_specs::wrapping_add(arith_value(*left), arith_value(*right))
        } else if operator == "-"@ {
            vstd::wrapping::i64_specs::wrapping_sub(arith_value(*left), arith_value(*right))
        } else {
            vstd::wrapping::i64_specs::wrapping_mul(arith_value(*left), arith_value(*right))
        },
        SpecExpr::Prefix { right, .. } => vstd::wrapping::i64_specs::wrapping_sub(
            0i64,
            arith_value(*right),
        ),
        _ => 0,
    }
}

/// Integer arithmetic wraps around: an expression of integer literals, `+`,
/// `-`, `*` and prefix `-` evaluates to its two's-complement value and
/// changes no state.
pub proof fn law_integer_arithmetic<F: FloatArith>(fuel: nat, e: SpecExpr, env: usize, st: RtState)
    requires
        is_arith(e),
    ensures
        expr_result::<F>(fuel, e, env, st) == (Some(SpecObject::Integer(arith_value(e))), st),
    decreases e,
{
    reveal_strlit("+");
    reveal_strlit("-");
    reveal_strlit("*");
    reveal_strlit("!");
    match e {
        SpecExpr::Infix { left, operator, right, .. } => {
            law_integer_arithmetic::<F>(fuel, *left, env, st);
            law_integer_arithmetic::<F>(fuel, *right, env, st);
            let a = arith_value(*left);
            let b = arith_value(*right);
            assert(infix_result::<F>(operator, SpecObject::Integer(a), SpecObject::Integer(b))
                == integer_infix(operator, a, b));
        },
        SpecExpr::Prefix { operator, right, .. } => {
            law_integer_arithmetic::<F>(fuel, *right, env, st);
            assert(operator == "-"@);
            assert("-"@ != "!"@) by {
                assert("-"@[0] != "!"@[0]);
            }
            assert(prefix_result::<F>(operator, SpecObject::Integer(arith_value(*right)))
                == SpecObject::Integer(
                vstd::wrapping::i64_specs::wrapping_sub(0i64, arith_value(*right)),
            ));
        },
        _ => {},
    }
}

// ---------------------------------------------------------------------------
// Quote
// ---------------------------------------------------------------------------

/// An expression with no `unquote(..)` call where unquoting looks.
pub open spec fn unquote_free(e: SpecExpr) -> bool
    decreases e, 1int,
{
    match e {
        SpecExpr::Prefix { right, .. } => unquote_free(*right),
        SpecExpr::Infix { left, right, .. } => unquote_free(*left) && unquote_free(*right),
        SpecExpr::Index { left, index, .. } => unquote_free(*left) && unquote_free(*index),
        SpecExpr::If { condition, consequence, alternative, .. } => unquote_free(*condition)
            && stmts_unquote_free(consequence.statements, 0) && match alternative {
            Some(b) => stmts_unquote_free(b.statements, 0),
            None => true,
        },
        SpecExpr::FunctionLiteral { body, .. } => stmts_unquote_free(body.statements, 0),
        SpecExpr::ArrayLiteral { elements, .. } => exprs_unquote_free(elements, 0),
        SpecExpr::HashLiteral { pairs, .. } => pairs_unquote_free(pairs, 0),
        SpecExpr::Call { function, arguments, .. } => !is_unquote_call(*function, arguments),
        _ => true,
    }
}

pub open spec fn stmt_unquote_free(s: SpecStmt) -> bool
    decreases s, 1int,
{
    match s {
        SpecStmt::Expression { expression, .. } => unquote_free(expression),
        SpecStmt::Return { value, .. } => unquote_free(value),
        SpecStmt::Let { value, .. } => unquote_free(value),
        SpecStmt::Block(b) => stmts_unquote_free(b.statements, 0),
    }
}

pub open spec fn stmts_unquote_free(ss: Seq<SpecStmt>, i: int) -> bool
    decreases ss, ss.len() - i,
{
    if 0 <= i < ss.len() {
        stmt_unquote_free(ss[i]) && stmts_unquote_free(ss, i + 1)
    } else {
        true
    }
}

pub open spec fn exprs_unquote_free(es: Seq<SpecExpr>, i: int) -> bool
    decreases es, es.len() - i,
{
    if 0 <= i < es.len() {
        unquote_free(es[i]) && exprs_unquote_free(es, i + 1)
    } else {
        true
    }
}

pub open spec fn pairs_unquote_free(ps: Seq<(SpecExpr, SpecExpr)>, i: int) -> bool
    decreases ps, ps.len() - i,
{
    if 0 <= i < ps.len() {
        unquote_free(ps[i].0) && unquote_free(ps[i].1) && pairs_unquote_free(ps, i + 1)
    } else {
        true
    }
}

proof fn lemma_unquote_free_expr<F: FloatArith>(fuel: nat, e: SpecExpr, env: usize, st: RtState)
    requires
        unquote_free(e),
    ensures
        unquoted_expr::<F>(fuel, e, env, st) == (e, st),
    decreases e, 1int,
{
    match e {
        SpecExpr::Prefix { right, .. } => {
            lemma_unquote_free_expr::<F>(fuel, *right, env, st);
        },
        SpecExpr::Infix { left, right, .. } => {
            lemma_unquote_free_expr::<F>(fuel, *left, env, st);
            lemma_unquote_free_expr::<F>(fuel, *right, env, st);
        },
        SpecExpr::Index { left, index, .. } => {
            lemma_unquote_free_expr::<F>(fuel, *left, env, st);
            lemma_unquote_free_expr::<F>(fuel, *index, env, st);
        },
        SpecExpr::If { condition, consequence, alternative, .. } => {
            lemma_unquote_free_expr::<F>(fuel, *condition, env, st);
            lemma_unquote_free_stmts::<F>(fuel, consequence.statements, 0, env, st, Seq::empty());
            assert(Seq::<SpecStmt>::empty() + consequence.statements.subrange(
                0,
                consequence.statements.len() as int,
            ) =~= consequence.statements);
            match alternative {
                Some(b) => {
                    lemma_unquote_free_stmts::<F>(fuel, b.statements, 0, env, st, Seq::empty());
                    assert(Seq::<SpecStmt>::empty() + b.statements.subrange(
                        0,
                        b.statements.len() as int,
                    ) =~= b.statements);
                },
                None => {},
            }
        },
        SpecExpr::FunctionLiteral { body, .. } => {
            lemma_unquote_free_stmts::<F>(fuel, body.statements, 0, env, st, Seq::empty());
            assert(Seq::<SpecStmt>::empty() + body.statements.subrange(
                0,
                body.statements.len() as int,
            ) =~= body.statements);
        },
        SpecExpr::ArrayLiteral { elements, .. } => {
            lemma_unquote_free_exprs::<F>(fuel, elements, 0, env, st, Seq::empty());
            assert(Seq::<SpecExpr>::empty() + elements.subrange(0, elements.len() as int)
                =~= elements);
        },
        SpecExpr::HashLiteral { pairs, .. } => {
            lemma_unquote_free_pairs::<F>(fuel, pairs, 0, env, st, Seq::empty());
            assert(Seq::<(SpecExpr, SpecExpr)>::empty() + pairs.subrange(0, pairs.len() as int)
                =~= pairs);
        },
        _ => {},
    }
}

proof fn lemma_unquote_free_stmt<F: FloatArith>(fuel: nat, s: SpecStmt, env: usize, st: RtState)
    requires
        stmt_unquote_free(s),
    ensures
        unquoted_stmt::<F>(fuel, s, env, st) == (s, st),
    decreases s, 1int,
{
    match s {
        SpecStmt::Expression { expression, .. } => {
            lemma_unquote_free_expr::<F>(fuel, expression, env, st);
        },
        SpecStmt::Return { value, .. } => {
            lemma_unquote_free_expr::<F>(fuel, value, env, st);
        },
        SpecStmt::Let { value, .. } => {
            lemma_unquote_free_expr::<F>(fuel, value, env, st);
        },
        SpecStmt::Block(b) => {
            lemma_unquote_free_stmts::<F>(fuel, b.statements, 0, env, st, Seq::empty());
            assert(Seq::<SpecStmt>::empty() + b.statements.subrange(0, b.statements.len() as int)
                =~= b.statements);
        },
    }
}

proof fn lemma_unquote_free_stmts<F: FloatArith>(
    fuel: nat,
    ss: Seq<SpecStmt>,
    i: int,
    env: usize,
    st: RtState,
    acc: Seq<SpecStmt>,
)
    requires
        0 <= i <= ss.len(),
        stmts_unquote_free(ss, i),
    ensures
        unquoted_stmts::<F>(fuel, ss, i, env, st, acc) == (acc + ss.subrange(i, ss.len() as int), st),
    decreases ss, ss.len() - i,
{
    if i < ss.len() {
        lemma_unquote_free_stmt::<F>(fuel, ss[i], env, st);
        lemma_unquote_free_stmts::<F>(fuel, ss, i + 1, env, st, acc.push(ss[i]));
        assert(acc.push(ss[i]) + ss.subrange(i + 1, ss.len() as int) =~= acc + ss.subrange(
            i,
            ss.len() as int,
        ));
    } else {
        assert(acc + ss.subrange(i, ss.len() as int) =~= acc);
    }
}

proof fn lemma_unquote_free_exprs<F: FloatArith>(
    fuel: nat,
    es: Seq<SpecExpr>,
    i: int,
    env: usize,
    st: RtState,
    acc: Seq<SpecExpr>,
)
    requires
        0 <= i <= es.len(),
        exprs_unquote_free(es, i),
    ensures
        unquoted_exprs::<F>(fuel, es, i, env, st, acc) == (acc + es.subrange(i, es.len() as int), st),
    decreases es, es.len() - i,
{
    if i < es.len() {
        lemma_unquote_free_expr::<F>(fuel, es[i], env, st);
        lemma_unquote_free_exprs::<F>(fuel, es, i + 1, env, st, acc.push(es[i]));
        assert(acc.push(es[i]) + es.subrange(i + 1, es.len() as int) =~= acc + es.subrange(
            i,
            es.len() as int,
        ));
    } else {
        assert(acc + es.subrange(i, es.len() as int) =~= acc);
    }
}

proof fn lemma_unquote_free_pairs<F: FloatArith>(
    fuel: nat,
    ps: Seq<(SpecExpr, SpecExpr)>,
    i: int,
    env: usize,
    st: RtState,
    acc: Seq<(SpecExpr, SpecExpr)>,
)
    requires
        0 <= i <= ps.len(),
        pairs_unquote_free(ps, i),
    ensures
        unquoted_pairs::<F>(fuel, ps, i, env, st, acc) == (acc + ps.subrange(i, ps.len() as int), st),
    decreases ps, ps.len() - i,
{
    if i < ps.len() {
        lemma_unquote_free_expr::<F>(fuel, ps[i].0, env, st);
        lemma_unquote_free_expr::<F>(fuel, ps[i].1, env, st);
        lemma_unquote_free_pairs::<F>(fuel, ps, i + 1, env, st, acc.push((ps[i].0, ps[i].1)));
        assert(acc.push((ps[i].0, ps[i].1)) + ps.subrange(i + 1, ps.len() as int) =~= acc
            + ps.subrange(i, ps.len() as int));
    } else {
        assert(acc + ps.subrange(i, ps.len() as int) =~= acc);
    }
}

/// `quote(x)` gives back `x` itself, unevaluated, and changes no state, when
/// `x` has no `unquote(..)` in it.
pub proof fn law_quote_returns_argument<F: FloatArith>(fuel: nat, e: SpecExpr, env: usize, st: RtState)
    requires
        e matches SpecExpr::Call { function, arguments, .. } && is_quote_call(*function, arguments)
            && unquote_free(arguments[0]),
    ensures
        expr_result::<F>(fuel, e, env, st) == (Some(
            SpecObject::Quote(SpecNode::Expression(e->Call_arguments[0])),
        ), st),
{
    let q = e->Call_arguments[0];
    lemma_unquote_free_expr::<F>(fuel, q, env, st);
    assert(call_result::<F>(fuel, e, env, st) == (Some(SpecObject::Quote(SpecNode::Expression(q))), st));
}

// ---------------------------------------------------------------------------
// Macro definitions
// ---------------------------------------------------------------------------

proof fn lemma_defined_macros_kept(
    ss: Seq<SpecStmt>,
    i: int,
    env: usize,
    st: RtState,
)
    requires
        0 <= i <= ss.len(),
    ensures
        defined_macros(ss, i, env, st, ss.take(i).filter(|s: SpecStmt| !is_macro_definition(s))).0
            == ss.filter(|s: SpecStmt| !is_macro_definition(s)),
    decreases ss.len() - i,
{
    let p = |s: SpecStmt| !is_macro_definition(s);
    if i < ss.len() {
        ss.take(i).lemma_filter_push(ss[i], p);
        assert(ss.take(i + 1) =~= ss.take(i).push(ss[i]));
        match ss[i] {
            SpecStmt::Let { name, value: SpecExpr::MacroLiteral { parameters, body, .. }, .. } => {
                lemma_defined_macros_kept(
                    ss,
                    i + 1,
                    env,
                    env_bind(st, env, name.value, SpecObject::Macro(parameters, body, env)),
                );
            },
            _ => {
                lemma_defined_macros_kept(ss, i + 1, env, st);
            },
        }
    } else {
        assert(ss.take(i) =~= ss);
    }
}

/// Defining macros keeps exactly the statements that are not macro
/// definitions, in their order.
pub proof fn law_define_macros_strips_definitions(ss: Seq<SpecStmt>, env: usize, st: RtState)
    ensures
        defined_macros(ss, 0, env, st, Seq::empty()).0 == ss.filter(
            |s: SpecStmt| !is_macro_definition(s),
        ),
{
    assert(ss.take(0) =~= Seq::<SpecStmt>::empty());
    reveal(Seq::filter);
    assert(ss.take(0).filter(|s: SpecStmt| !is_macro_definition(s)) =~= Seq::<SpecStmt>::empty());
    lemma_defined_macros_kept(ss, 0, env, st);
}

// ---------------------------------------------------------------------------
// Evaluation only adds environments
// ---------------------------------------------------------------------------

/// `b` has at least the environments `a` has.
pub open spec fn keeps_envs(a: RtState, b: RtState) -> bool {
    a.envs.len() <= b.envs.len()
}

proof fn lemma_bind_params_len(
    st: RtState,
    env: usize,
    params: Seq<SpecIdent>,
    args: Seq<SpecObject>,
    i: int,
)
    ensures
        bind_params(st, env, params, args, i).envs.len() == st.envs.len(),
    decreases params.len() - i,
{
    if 0 <= i < params.len() && i < args.len() {
        lemma_bind_params_len(env_bind(st, env, params[i].value, args[i]), env, params, args, i + 1);
    }
}

proof fn lemma_expr_keeps_envs<F: FloatArith>(fuel: nat, e: SpecExpr, env: usize, st: RtState)
    ensures
        keeps_envs(st, expr_result::<F>(fuel, e, env, st).1),
    decreases fuel, e, 1int,
{
    match e {
        SpecExpr::Prefix { right, .. } => {
            lemma_expr_keeps_envs::<F>(fuel, *right, env, st);
        },
        SpecExpr::Infix { left, right, .. } => {
            lemma_expr_keeps_envs::<F>(fuel, *left, env, st);
            let st1 = expr_result::<F>(fuel, *left, env, st).1;
            lemma_expr_keeps_envs::<F>(fuel, *right, env, st1);
        },
        SpecExpr::Index { left, index, .. } => {
            lemma_expr_keeps_envs::<F>(fuel, *left, env, st);
            let st1 = expr_result::<F>(fuel, *left, env, st).1;
            lemma_expr_keeps_envs::<F>(fuel, *index, env, st1);
        },
        SpecExpr::If { condition, consequence, alternative, .. } => {
            lemma_expr_keeps_envs::<F>(fuel, *condition, env, st);
            let st1 = expr_result::<F>(fuel, *condition, env, st).1;
            assert(decreases_to!(e => consequence));
            assert(decreases_to!(consequence => consequence.statements));
            lemma_block_keeps_envs::<F>(fuel, consequence.statements, 0, env, st1, None);
            match alternative {
                Some(b) => {
                    assert(decreases_to!(e => alternative));
                    assert(decreases_to!(alternative => b));
                    assert(decreases_to!(b => b.statements));
                    lemma_block_keeps_envs::<F>(fuel, b.statements, 0, env, st1, None);
                },
                None => {},
            }
        },
        SpecExpr::Call { .. } => {
            lemma_call_keeps_envs::<F>(fuel, e, env, st);
        },
        SpecExpr::ArrayLiteral { elements, .. } => {
            lemma_exprs_keeps_envs::<F>(fuel, elements, 0, env, st, Seq::empty());
        },
        SpecExpr::HashLiteral { pairs, .. } => {
            lemma_hash_keeps_envs::<F>(fuel, pairs, 0, env, st, Seq::empty());
        },
        _ => {},
    }
}

proof fn lemma_call_keeps_envs<F: FloatArith>(fuel: nat, e: SpecExpr, env: usize, st: RtState)
    ensures
        keeps_envs(st, call_result::<F>(fuel, e, env, st).1),
    decreases fuel, e, 0int,
{
    match e {
        SpecExpr::Call { function, arguments, .. } => {
            if is_quote_call(*function, arguments) {
                assert(decreases_to!(e => arguments));
                assert(decreases_to!(arguments => arguments[0]));
                lemma_unquote_keeps_envs::<F>(fuel, arguments[0], env, st);
            } else {
                lemma_expr_keeps_envs::<F>(fuel, *function, env, st);
                let (f, st1) = expr_result::<F>(fuel, *function, env, st);
                lemma_exprs_keeps_envs::<F>(fuel, arguments, 0, env, st1, Seq::empty());
                let (args, st2) = exprs_result::<F>(fuel, arguments, 0, env, st1, Seq::empty());
                match or_nil(f) {
                    SpecObject::Function(params, body, fenv) => {
                        if fuel > 0 {
                            lemma_function_keeps_envs::<F>((fuel - 1) as nat, params, body, fenv, args, st2);
                        }
                    },
                    _ => {},
                }
            }
        },
        _ => {},
    }
}

proof fn lemma_function_keeps_envs<F: FloatArith>(
    fuel: nat,
    params: Seq<SpecIdent>,
    body: SpecBlock,
    fenv: usize,
    args: Seq<SpecObject>,
    st: RtState,
)
    ensures
        keeps_envs(st, function_call_result::<F>(fuel, params, body, fenv, args, st).1),
    decreases fuel, body, 1int,
{
    let new_env = st.envs.len() as usize;
    let st0 = env_push(st, Some(fenv));
    lemma_bind_params_len(st0, new_env, params, args, 0);
    let st1 = bind_params(st0, new_env, params, args, 0);
    lemma_block_keeps_envs::<F>(fuel, body.statements, 0, new_env, st1, None);
}

proof fn lemma_exprs_keeps_envs<F: FloatArith>(
    fuel: nat,
    es: Seq<SpecExpr>,
    i: int,
    env: usize,
    st: RtState,
    acc: Seq<SpecObject>,
)
    ensures
        keeps_envs(st, exprs_result::<F>(fuel, es, i, env, st, acc).1),
    decreases fuel, es, es.len() - i,
{
    if 0 <= i < es.len() {
        assert(decreases_to!(es => es[i]));
        lemma_expr_keeps_envs::<F>(fuel, es[i], env, st);
        let (v, st1) = expr_result::<F>(fuel, es[i], env, st);
        lemma_exprs_keeps_envs::<F>(fuel, es, i + 1, env, st1, acc.push(or_nil(v)));
    }
}

proof fn lemma_hash_keeps_envs<F: FloatArith>(
    fuel: nat,
    ps: Seq<(SpecExpr, SpecExpr)>,
    i: int,
    env: usize,
    st: RtState,
    acc: Seq<(HashKey, SpecObject, SpecObject)>,
)
    ensures
        keeps_envs(st, hash_result::<F>(fuel, ps, i, env, st, acc).1),
    decreases fuel, ps, ps.len() - i,
{
    if 0 <= i < ps.len() {
        assert(decreases_to!(ps => ps[i]));
        assert(decreases_to!(ps[i] => ps[i].0));
        assert(decreases_to!(ps[i] => ps[i].1));
        lemma_expr_keeps_envs::<F>(fuel, ps[i].0, env, st);
        let (k, st1) = expr_result::<F>(fuel, ps[i].0, env, st);
        lemma_expr_keeps_envs::<F>(fuel, ps[i].1, env, st1);
        let (v, st2) = expr_result::<F>(fuel, ps[i].1, env, st1);
        match hash_key_of(or_nil(k)) {
            Some(hk) => {
                lemma_hash_keeps_envs::<F>(
                    fuel,
                    ps,
                    i + 1,
                    env,
                    st2,
                    hash_insert(acc, hk, or_nil(k), or_nil(v)),
                );
            },
            None => {},
        }
    }
}

proof fn lemma_stmt_keeps_envs<F: FloatArith>(fuel: nat, s: SpecStmt, env: usize, st: RtState)
    ensures
        keeps_envs(st, stmt_result::<F>(fuel, s, env, st).1),
    decreases fuel, s, 1int,
{
    match s {
        SpecStmt::Expression { expression, .. } => {
            lemma_expr_keeps_envs::<F>(fuel, expression, env, st);
        },
        SpecStmt::Return { value, .. } => {
            lemma_expr_keeps_envs::<F>(fuel, value, env, st);
        },
        SpecStmt::Let { value, .. } => {
            lemma_expr_keeps_envs::<F>(fuel, value, env, st);
        },
        SpecStmt::Block(b) => {
            assert(decreases_to!(s => b));
            assert(decreases_to!(b => b.statements));
            lemma_block_keeps_envs::<F>(fuel, b.statements, 0, env, st, None);
        },
    }
}

proof fn lemma_block_keeps_envs<F: FloatArith>(
    fuel: nat,
    ss: Seq<SpecStmt>,
    i: int,
    env: usize,
    st: RtState,
    result: Option<SpecObject>,
)
    ensures
        keeps_envs(st, block_result::<F>(fuel, ss, i, env, st, result).1),
    decreases fuel, ss, ss.len() - i,
{
    if 0 <= i < ss.len() {
        assert(decreases_to!(ss => ss[i]));
        lemma_stmt_keeps_envs::<F>(fuel, ss[i], env, st);
        let (r, st1) = stmt_result::<F>(fuel, ss[i], env, st);
        lemma_block_keeps_envs::<F>(fuel, ss, i + 1, env, st1, r);
    }
}

proof fn lemma_unquote_keeps_envs<F: FloatArith>(fuel: nat, e: SpecExpr, env: usize, st: RtState)
    ensures
        keeps_envs(st, unquoted_expr::<F>(fuel, e, env, st).1),
    decreases fuel, e, 1int,
{
    match e {
        SpecExpr::Prefix { right, .. } => {
            lemma_unquote_keeps_envs::<F>(fuel, *right, env, st);
        },
        SpecExpr::Infix { left, right, .. } => {
            lemma_unquote_keeps_envs::<F>(fuel, *left, env, st);
            let st1 = unquoted_expr::<F>(fuel, *left, env, st).1;
            lemma_unquote_keeps_envs::<F>(fuel, *right, env, st1);
        },
        SpecExpr::Index { left, index, .. } => {
            lemma_unquote_keeps_envs::<F>(fuel, *left, env, st);
            let st1 = unquoted_expr::<F>(fuel, *left, env, st).1;
            lemma_unquote_keeps_envs::<F>(fuel, *index, env, st1);
        },
        SpecExpr::If { condition, consequence, alternative, .. } => {
            lemma_unquote_keeps_envs::<F>(fuel, *condition, env, st);
            let st1 = unquoted_expr::<F>(fuel, *condition, env, st).1;
            assert(decreases_to!(e => consequence));
            assert(decreases_to!(consequence => consequence.statements));
            lemma_unquote_stmts_keeps_envs::<F>(fuel, consequence.statements, 0, env, st1, Seq::empty());
            let st2 = unquoted_stmts::<F>(fuel, consequence.statements, 0, env, st1, Seq::empty()).1;
            match alternative {
                Some(b) => {
                    assert(decreases_to!(e => alternative));
                    assert(decreases_to!(alternative => b));
                    assert(decreases_to!(b => b.statements));
                    lemma_unquote_stmts_keeps_envs::<F>(fuel, b.statements, 0, env, st2, Seq::empty());
                },
                None => {},
            }
        },
        SpecExpr::FunctionLiteral { body, .. } => {
            assert(decreases_to!(e => body));
            assert(decreases_to!(body => body.statements));
            lemma_unquote_stmts_keeps_envs::<F>(fuel, body.statements, 0, env, st, Seq::empty());
        },
        SpecExpr::ArrayLiteral { elements, .. } => {
            lemma_unquote_exprs_keeps_envs::<F>(fuel, elements, 0, env, st, Seq::empty());
        },
        SpecExpr::HashLiteral { pairs, .. } => {
            lemma_unquote_pairs_keeps_envs::<F>(fuel, pairs, 0, env, st, Seq::empty());
        },
        SpecExpr::Call { function, arguments, .. } => {
            if is_unquote_call(*function, arguments) {
                assert(decreases_to!(e => arguments));
                assert(decreases_to!(arguments => arguments[0]));
                lemma_expr_keeps_envs::<F>(fuel, arguments[0], env, st);
            }
        },
        _ => {},
    }
}

proof fn lemma_unquote_stmt_keeps_envs<F: FloatArith>(fuel: nat, s: SpecStmt, env: usize, st: RtState)
    ensures
        keeps_envs(st, unquoted_stmt::<F>(fuel, s, env, st).1),
    decreases fuel, s, 1int,
{
    match s {
        SpecStmt::Expression { expression, .. } => {
            lemma_unquote_keeps_envs::<F>(fuel, expression, env, st);
        },
        SpecStmt::Return { value, .. } => {
            lemma_unquote_keeps_envs::<F>(fuel, value, env, st);
        },
        SpecStmt::Let { value, .. } => {
            lemma_unquote_keeps_envs::<F>(fuel, value, env, st);
        },
        SpecStmt::Block(b) => {
            assert(decreases_to!(s => b));
            assert(decreases_to!(b => b.statements));
            lemma_unquote_stmts_keeps_envs::<F>(fuel, b.statements, 0, env, st, Seq::empty());
        },
    }
}

proof fn lemma_unquote_stmts_keeps_envs<F: FloatArith>(
    fuel: nat,
    ss: Seq<SpecStmt>,
    i: int,
    env: usize,
    st: RtState,
    acc: Seq<SpecStmt>,
)
    ensures
        keeps_envs(st, unquoted_stmts::<F>(fuel, ss, i, env, st, acc).1),
    decreases fuel, ss, ss.len() - i,
{
    if 0 <= i < ss.len() {
        assert(decreases_to!(ss => ss[i]));
        lemma_unquote_stmt_keeps_envs::<F>(fuel, ss[i], env, st);
        let (x, st1) = unquoted_stmt::<F>(fuel, ss[i], env, st);
        lemma_unquote_stmts_keeps_envs::<F>(fuel, ss, i + 1, env, st1, acc.push(x));
    }
}

proof fn lemma_unquote_exprs_keeps_envs<F: FloatArith>(
    fuel: nat,
    es: Seq<SpecExpr>,
    i: int,
    env: usize,
    st: RtState,
    acc: Seq<SpecExpr>,
)
    ensures
        keeps_envs(st, unquoted_exprs::<F>(fuel, es, i, env, st, acc).1),
    decreases fuel, es, es.len() - i,
{
    if 0 <= i < es.len() {
        assert(decreases_to!(es => es[i]));
        lemma_unquote_keeps_envs::<F>(fuel, es[i], env, st);
        let (x, st1) = unquoted_expr::<F>(fuel, es[i], env, st);
        lemma_unquote_exprs_keeps_envs::<F>(fuel, es, i + 1, env, st1, acc.push(x));
    }
}

proof fn lemma_unquote_pairs_keeps_envs<F: FloatArith>(
    fuel: nat,
    ps: Seq<(SpecExpr, SpecExpr)>,
    i: int,
    env: usize,
    st: RtState,
    acc: Seq<(SpecExpr, SpecExpr)>,
)
    ensures
        keeps_envs(st, unquoted_pairs::<F>(fuel, ps, i, env, st, acc).1),
    decreases fuel, ps, ps.len() - i,
{
    if 0 <= i < ps.len() {
        assert(decreases_to!(ps => ps[i]));
        assert(decreases_to!(ps[i] => ps[i].0));
        assert(decreases_to!(ps[i] => ps[i].1));
        lemma_unquote_keeps_envs::<F>(fuel, ps[i].0, env, st);
        let (k, st1) = unquoted_expr::<F>(fuel, ps[i].0, env, st);
        lemma_unquote_keeps_envs::<F>(fuel, ps[i].1, env, st1);
        let (v, st2) = unquoted_expr::<F>(fuel, ps[i].1, env, st1);
        lemma_unquote_pairs_keeps_envs::<F>(fuel, ps, i + 1, env, st2, acc.push((k, v)));
    }
}

/// Evaluating an expression never removes an environment: every
/// environment index valid before stays valid after.
pub proof fn law_evaluation_keeps_environments<F: FloatArith>(fuel: nat, e: SpecExpr, env: usize, st: RtState)
    ensures
        st.envs.len() <= expr_result::<F>(fuel, e, env, st).1.envs.len(),
{
    lemma_expr_keeps_envs::<F>(fuel, e, env, st);
}

/// A name bound by `let` evaluates to the value it was bound to: the program
/// `let x = e; x` has the value of `e`, unless evaluating `e` fails or gives
/// a returned value.
pub proof fn law_let_then_name<F: FloatArith>(
    fuel: nat,
    let_token: SpecToken,
    name: SpecIdent,
    e: SpecExpr,
    token: SpecToken,
    env: usize,
    st: RtState,
)
    requires
        env < st.envs.len(),
        !is_error(expr_result::<F>(fuel, e, env, st).0),
        !(or_nil(expr_result::<F>(fuel, e, env, st).0) is ReturnValue),
    ensures
        program_result::<F>(
            fuel,
            seq![
                SpecStmt::Let { token: let_token, name, value: e },
                SpecStmt::Expression { token, expression: SpecExpr::Ident(name) },
            ],
            0,
            env,
            st,
            None,
        ).0 == Some(or_nil(expr_result::<F>(fuel, e, env, st).0)),
{
    let ss = seq![
        SpecStmt::Let { token: let_token, name, value: e },
        SpecStmt::Expression { token, expression: SpecExpr::Ident(name) },
    ];
    lemma_expr_keeps_envs::<F>(fuel, e, env, st);
    let (v, st1) = expr_result::<F>(fuel, e, env, st);
    let st2 = env_bind(st1, env, name.value, or_nil(v));
    law_lookup_after_bind(st1, env, name.value, or_nil(v));
    assert(stmt_result::<F>(fuel, ss[0], env, st) == (None::<SpecObject>, st2));
    assert(program_result::<F>(fuel, ss, 0, env, st, None) == program_result::<F>(fuel, ss, 1, env, st2, None));
    assert(stmt_result::<F>(fuel, ss[1], env, st2) == (Some(or_nil(v)), st2));
    assert(program_result::<F>(fuel, ss, 2, env, st2, Some(or_nil(v))) == (Some(or_nil(v)), st2));
}

// ---------------------------------------------------------------------------
// Macro expansion
// ---------------------------------------------------------------------------

/// An expression with no call of a macro bound in `env` where expansion
/// looks.
pub open spec fn macro_call_free(e: SpecExpr, env: usize, st: RtState) -> bool
    decreases e, 1int,
{
    match e {
        SpecExpr::Prefix { right, .. } => macro_call_free(*right, env, st),
        SpecExpr::Infix { left, right, .. } => macro_call_free(*left, env, st) && macro_call_free(
            *right,
            env,
            st,
        ),
        SpecExpr::Index { left, index, .. } => macro_call_free(*left, env, st) && macro_call_free(
            *index,
            env,
            st,
        ),
        SpecExpr::If { condition, consequence, alternative, .. } => macro_call_free(
            *condition,
            env,
            st,
        ) && stmts_macro_call_free(consequence.statements, 0, env, st) && match alternative {
            Some(b) => stmts_macro_call_free(b.statements, 0, env, st),
            None => true,
        },
        SpecExpr::FunctionLiteral { body, .. } => stmts_macro_call_free(body.statements, 0, env, st),
        SpecExpr::ArrayLiteral { elements, .. } => exprs_macro_call_free(elements, 0, env, st),
        SpecExpr::HashLiteral { pairs, .. } => pairs_macro_call_free(pairs, 0, env, st),
        SpecExpr::Call { function, .. } => called_macro(*function, env, st) is None,
        _ => true,
    }
}

pub open spec fn stmt_macro_call_free(s: SpecStmt, env: usize, st: RtState) -> bool
    decreases s, 1int,
{
    match s {
        SpecStmt::Expression { expression, .. } => macro_call_free(expression, env, st),
        SpecStmt::Return { value, .. } => macro_call_free(value, env, st),
        SpecStmt::Let { value, .. } => macro_call_free(value, env, st),
        SpecStmt::Block(b) => stmts_macro_call_free(b.statements, 0, env, st),
    }
}

pub open spec fn stmts_macro_call_free(ss: Seq<SpecStmt>, i: int, env: usize, st: RtState) -> bool
    decreases ss, ss.len() - i,
{
    if 0 <= i < ss.len() {
        stmt_macro_call_free(ss[i], env, st) && stmts_macro_call_free(ss, i + 1, env, st)
    } else {
        true
    }
}

pub open spec fn exprs_macro_call_free(es: Seq<SpecExpr>, i: int, env: usize, st: RtState) -> bool
    decreases es, es.len() - i,
{
    if 0 <= i < es.len() {
        macro_call_free(es[i], env, st) && exprs_macro_call_free(es, i + 1, env, st)
    } else {
        true
    }
}

pub open spec fn pairs_macro_call_free(
    ps: Seq<(SpecExpr, SpecExpr)>,
    i: int,
    env: usize,
    st: RtState,
) -> bool
    decreases ps, ps.len() - i,
{
    if 0 <= i < ps.len() {
        macro_call_free(ps[i].0, env, st) && macro_call_free(ps[i].1, env, st)
            && pairs_macro_call_free(ps, i + 1, env, st)
    } else {
        true
    }
}

proof fn lemma_expand_free_expr<F: FloatArith>(e: SpecExpr, env: usize, st: RtState)
    requires
        macro_call_free(e, env, st),
    ensures
        expanded_expr::<F>(e, env, st) == (Ok::<SpecExpr, Seq<char>>(e), st),
    decreases e, 1int,
{
    match e {
        SpecExpr::Prefix { right, .. } => {
            lemma_expand_free_expr::<F>(*right, env, st);
        },
        SpecExpr::Infix { left, right, .. } => {
            lemma_expand_free_expr::<F>(*left, env, st);
            lemma_expand_free_expr::<F>(*right, env, st);
        },
        SpecExpr::Index { left, index, .. } => {
            lemma_expand_free_expr::<F>(*left, env, st);
            lemma_expand_free_expr::<F>(*index, env, st);
        },
        SpecExpr::If { condition, consequence, alternative, .. } => {
            lemma_expand_free_expr::<F>(*condition, env, st);
            lemma_expand_free_stmts::<F>(consequence.statements, 0, env, st, Seq::empty());
            assert(Seq::<SpecStmt>::empty() + consequence.statements.subrange(
                0,
                consequence.statements.len() as int,
            ) =~= consequence.statements);
            match alternative {
                Some(b) => {
                    lemma_expand_free_stmts::<F>(b.statements, 0, env, st, Seq::empty());
                    assert(Seq::<SpecStmt>::empty() + b.statements.subrange(
                        0,
                        b.statements.len() as int,
                    ) =~= b.statements);
                },
                None => {},
            }
        },
        SpecExpr::FunctionLiteral { body, .. } => {
            lemma_expand_free_stmts::<F>(body.statements, 0, env, st, Seq::empty());
            assert(Seq::<SpecStmt>::empty() + body.statements.subrange(
                0,
                body.statements.len() as int,
            ) =~= body.statements);
        },
        SpecExpr::ArrayLiteral { elements, .. } => {
            lemma_expand_free_exprs::<F>(elements, 0, env, st, Seq::empty());
            assert(Seq::<SpecExpr>::empty() + elements.subrange(0, elements.len() as int)
                =~= elements);
        },
        SpecExpr::HashLiteral { pairs, .. } => {
            lemma_expand_free_pairs::<F>(pairs, 0, env, st, Seq::empty());
            assert(Seq::<(SpecExpr, SpecExpr)>::empty() + pairs.subrange(0, pairs.len() as int)
                =~= pairs);
        },
        _ => {},
    }
}

proof fn lemma_expand_free_stmt<F: FloatArith>(s: SpecStmt, env: usize, st: RtState)
    requires
        stmt_macro_call_free(s, env, st),
    ensures
        expanded_stmt::<F>(s, env, st) == (Ok::<SpecStmt, Seq<char>>(s), st),
    decreases s, 1int,
{
    match s {
        SpecStmt::Expression { expression, .. } => {
            lemma_expand_free_expr::<F>(expression, env, st);
        },
        SpecStmt::Return { value, .. } => {
            lemma_expand_free_expr::<F>(value, env, st);
        },
        SpecStmt::Let { value, .. } => {
            lemma_expand_free_expr::<F>(value, env, st);
        },
        SpecStmt::Block(b) => {
            lemma_expand_free_stmts::<F>(b.statements, 0, env, st, Seq::empty());
            assert(Seq::<SpecStmt>::empty() + b.statements.subrange(0, b.statements.len() as int)
                =~= b.statements);
        },
    }
}

proof fn lemma_expand_free_stmts<F: FloatArith>(
    ss: Seq<SpecStmt>,
    i: int,
    env: usize,
    st: RtState,
    acc: Seq<SpecStmt>,
)
    requires
        0 <= i <= ss.len(),
        stmts_macro_call_free(ss, i, env, st),
    ensures
        expanded_stmts::<F>(ss, i, env, st, acc) == (
            Ok::<Seq<SpecStmt>, Seq<char>>(acc + ss.subrange(i, ss.len() as int)),
            st,
        ),
    decreases ss, ss.len() - i,
{
    if i < ss.len() {
        lemma_expand_free_stmt::<F>(ss[i], env, st);
        lemma_expand_free_stmts::<F>(ss, i + 1, env, st, acc.push(ss[i]));
        assert(acc.push(ss[i]) + ss.subrange(i + 1, ss.len() as int) =~= acc + ss.subrange(
            i,
            ss.len() as int,
        ));
    } else {
        assert(acc + ss.subrange(i, ss.len() as int) =~= acc);
    }
}

proof fn lemma_expand_free_exprs<F: FloatArith>(
    es: Seq<SpecExpr>,
    i: int,
    env: usize,
    st: RtState,
    acc: Seq<SpecExpr>,
)
    requires
        0 <= i <= es.len(),
        exprs_macro_call_free(es, i, env, st),
    ensures
        expanded_exprs::<F>(es, i, env, st, acc) == (
            Ok::<Seq<SpecExpr>, Seq<char>>(acc + es.subrange(i, es.len() as int)),
            st,
        ),
    decreases es, es.len() - i,
{
    if i < es.len() {
        lemma_expand_free_expr::<F>(es[i], env, st);
        lemma_expand_free_exprs::<F>(es, i + 1, env, st, acc.push(es[i]));
        assert(acc.push(es[i]) + es.subrange(i + 1, es.len() as int) =~= acc + es.subrange(
            i,
            es.len() as int,
        ));
    } else {
        assert(acc + es.subrange(i, es.len() as int) =~= acc);
    }
}

proof fn lemma_expand_free_pairs<F: FloatArith>(
    ps: Seq<(SpecExpr, SpecExpr)>,
    i: int,
    env: usize,
    st: RtState,
    acc: Seq<(SpecExpr, SpecExpr)>,
)
    requires
        0 <= i <= ps.len(),
        pairs_macro_call_free(ps, i, env, st),
    ensures
        expanded_pairs::<F>(ps, i, env, st, acc) == (
            Ok::<Seq<(SpecExpr, SpecExpr)>, Seq<char>>(acc + ps.subrange(i, ps.len() as int)),
            st,
        ),
    decreases ps, ps.len() - i,
{
    if i < ps.len() {
        lemma_expand_free_expr::<F>(ps[i].0, env, st);
        lemma_expand_free_expr::<F>(ps[i].1, env, st);
        lemma_expand_free_pairs::<F>(ps, i + 1, env, st, acc.push((ps[i].0, ps[i].1)));
        assert(acc.push((ps[i].0, ps[i].1)) + ps.subrange(i + 1, ps.len() as int) =~= acc
            + ps.subrange(i, ps.len() as int));
    } else {
        assert(acc + ps.subrange(i, ps.len() as int) =~= acc);
    }
}

/// Expanding macros leaves a program with no macro calls as it is, and
/// changes no state.
pub proof fn law_expansion_without_macro_calls<F: FloatArith>(ss: Seq<SpecStmt>, env: usize, st: RtState)
    requires
        stmts_macro_call_free(ss, 0, env, st),
    ensures
        expanded_node::<F>(SpecNode::Program(ss), env, st) == (
            Ok::<SpecNode, Seq<char>>(SpecNode::Program(ss)),
            st,
        ),
{
    lemma_expand_free_stmts::<F>(ss, 0, env, st, Seq::empty());
    assert(Seq::<SpecStmt>::empty() + ss.subrange(0, ss.len() as int) =~= ss);
}

// ---------------------------------------------------------------------------
// Errors
// ---------------------------------------------------------------------------

/// An error stops evaluation: of the operands of a prefix, infix, index or
/// `if` expression, taken in order, the first whose value is an error is the
/// value of the whole expression, with the state it left; no later operand
/// is evaluated and no operator is applied. For an array literal, the first
/// element whose value is an error is the array's value; for a call (other
/// than `quote`), an error from the function position is its value, and else
/// the first argument whose value is an error, and nothing is called.
pub proof fn law_first_error_propagates<F: FloatArith>(
    fuel: nat,
    e: SpecExpr,
    env: usize,
    st: RtState,
)
    ensures
        e is Prefix && is_error(
            expr_result::<F>(fuel, *e->Prefix_right, env, st).0,
        ) ==> expr_result::<F>(fuel, e, env, st) == expr_result::<F>(fuel, *e->Prefix_right, env, st),
        e is Infix && is_error(expr_result::<F>(fuel, *e->Infix_left, env, st).0)
            ==> expr_result::<F>(fuel, e, env, st) == expr_result::<F>(fuel, *e->Infix_left, env, st),
        e is Infix && !is_error(
            expr_result::<F>(fuel, *e->Infix_left, env, st).0,
        ) && is_error(
            expr_result::<F>(fuel, *e->Infix_right, env, expr_result::<F>(fuel, *e->Infix_left, env, st).1).0,
        ) ==> expr_result::<F>(fuel, e, env, st) == expr_result::<F>(
            fuel,
            *e->Infix_right,
            env,
            expr_result::<F>(fuel, *e->Infix_left, env, st).1,
        ),
        e is Index && is_error(expr_result::<F>(fuel, *e->Index_left, env, st).0)
            ==> expr_result::<F>(fuel, e, env, st) == expr_result::<F>(fuel, *e->Index_left, env, st),
        e is Index && !is_error(
            expr_result::<F>(fuel, *e->Index_left, env, st).0,
        ) && is_error(
            expr_result::<F>(fuel, *e->Index_index, env, expr_result::<F>(fuel, *e->Index_left, env, st).1).0,
        ) ==> expr_result::<F>(fuel, e, env, st) == expr_result::<F>(
            fuel,
            *e->Index_index,
            env,
            expr_result::<F>(fuel, *e->Index_left, env, st).1,
        ),
        e is If && is_error(
            expr_result::<F>(fuel, *e->If_condition, env, st).0,
        ) ==> expr_result::<F>(fuel, e, env, st) == expr_result::<F>(fuel, *e->If_condition, env, st),
        e is Call && !is_quote_call(*e->Call_function, e->Call_arguments) && is_error(
            expr_result::<F>(fuel, *e->Call_function, env, st).0,
        ) ==> expr_result::<F>(fuel, e, env, st) == expr_result::<F>(
            fuel,
            *e->Call_function,
            env,
            st,
        ),
        e is Call && !is_quote_call(*e->Call_function, e->Call_arguments) && !is_error(
            expr_result::<F>(fuel, *e->Call_function, env, st).0,
        ) && exprs_first_error::<F>(
            fuel,
            e->Call_arguments,
            0,
            env,
            expr_result::<F>(fuel, *e->Call_function, env, st).1,
        ) is Some ==> expr_result::<F>(fuel, e, env, st).0 == exprs_first_error::<F>(
            fuel,
            e->Call_arguments,
            0,
            env,
            expr_result::<F>(fuel, *e->Call_function, env, st).1,
        ),
        e is ArrayLiteral && exprs_first_error::<F>(
            fuel,
            e->ArrayLiteral_elements,
            0,
            env,
            st,
        ) is Some ==> expr_result::<F>(fuel, e, env, st).0 == exprs_first_error::<F>(
            fuel,
            e->ArrayLiteral_elements,
            0,
            env,
            st,
        ),
{
    match e {
        SpecExpr::ArrayLiteral { elements, .. } => {
            lemma_exprs_first_error::<F>(fuel, elements, 0, env, st, Seq::empty());
        },
        SpecExpr::Call { function, arguments, .. } => {
            let st1 = expr_result::<F>(fuel, *function, env, st).1;
            lemma_exprs_first_error::<F>(fuel, arguments, 0, env, st1, Seq::empty());
            assert(expr_result::<F>(fuel, e, env, st) == call_result::<F>(fuel, e, env, st));
        },
        _ => {},
    }
}

/// The first error among the values of `es[i..]`, evaluated in order from
/// state `st`, if one of them is an error.
pub open spec fn exprs_first_error<F: FloatArith>(
    fuel: nat,
    es: Seq<SpecExpr>,
    i: int,
    env: usize,
    st: RtState,
) -> Option<SpecObject>
    decreases es.len() - i,
{
    if 0 <= i < es.len() {
        let (v, st1) = expr_result::<F>(fuel, es[i], env, st);
        if is_error(v) {
            v
        } else {
            exprs_first_error::<F>(fuel, es, i + 1, env, st1)
        }
    } else {
        None
    }
}

proof fn lemma_exprs_first_error<F: FloatArith>(
    fuel: nat,
    es: Seq<SpecExpr>,
    i: int,
    env: usize,
    st: RtState,
    acc: Seq<SpecObject>,
)
    requires
        0 <= i,
    ensures
        exprs_first_error::<F>(fuel, es, i, env, st) matches Some(x) ==> x is Error && exprs_result::<F>(
            fuel,
            es,
            i,
            env,
            st,
            acc,
        ).0 == seq![x],
    decreases es.len() - i,
{
    if i < es.len() {
        let (v, st1) = expr_result::<F>(fuel, es[i], env, st);
        if !is_error(v) {
            lemma_exprs_first_error::<F>(fuel, es, i + 1, env, st1, acc.push(or_nil(v)));
        }
    }
}

// ---------------------------------------------------------------------------
// Parsing
// ---------------------------------------------------------------------------

/// The token kinds that can start an expression.
pub open spec fn has_prefix_rule(k: TokenType) -> bool {
    k == TokenType::Ident || k == TokenType::Int || k == TokenType::Float || k == TokenType::Bang
        || k == TokenType::Minus || k == TokenType::True || k == TokenType::False || k
        == TokenType::Lparen || k == TokenType::If || k == TokenType::Function || k
        == TokenType::String || k == TokenType::Lbracket || k == TokenType::Lbrace || k
        == TokenType::Macro
}

/// Where an expression is expected at a token that cannot start one, the
/// parser records exactly "no prefix parse function for T found" for that
/// token's kind T, stays where it is, and parses nothing.
pub proof fn law_no_prefix_message(toks: Seq<SpecToken>, st: PState)
    requires
        !has_prefix_rule(cur_tok(toks, st).kind),
    ensures
        parse_prefix(toks, st) == (add_error(st, no_prefix_msg(cur_tok(toks, st).kind)), None::<SpecExpr>),
{
}

} // verus!
