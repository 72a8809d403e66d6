//! The evaluator: walks a tree and computes its value in an environment of a
//! [`Runtime`], as `eval_spec` describes.

use vstd::prelude::*;
use crate::ast::{
    ArrayLiteral, BlockStatement, Boolean, CallExpression, Expression, ExpressionStatement,
    FunctionLiteral, HashLiteral, IfExpression, IndexExpression, InfixExpression, IntegerLiteral,
    LetStatement, Node, PrefixExpression, Program, ReturnStatement, Statement, copy_block,
    copy_expr, copy_ident, copy_idents, copy_token, lemma_view_block, lemma_view_exprs,
    lemma_view_pairs, lemma_view_stmts, view_exprs, view_idents, view_pairs, view_stmts,
};
use crate::builtin::{builtin_call, builtin_lookup};
use crate::eval_spec::{
    CALL_DEPTH_LIMIT, bind_params, block_result, call_result, expr_result, exprs_result,
    function_call_result, hash_result, ident_value, is_error, is_quote_call, is_unquote_call,
    node_result, or_nil, program_result, stmt_result, unquoted_expr, unquoted_exprs,
    unquoted_node, unquoted_pairs, unquoted_stmt, unquoted_stmts, unwrap_return,
};
use crate::float::FloatArith;
use crate::numfmt::i64_text;
use crate::object::{
    Builtin, Env, Environment, FloatValue, Function, HashKey, HashObj, HashPair, Object, Runtime,
    SpecObject, copy_object, insert_pair, lemma_view_hash_pairs, lemma_view_objects,
    view_hash_pairs, view_objects,
};
use crate::operators::{cat2, eval_index, eval_infix, eval_prefix, truthy};
use crate::text::str_eq;
use crate::token::{Token, TokenType};

verus! {

/// The meaning of an optional value.
pub open spec fn opt_view(r: Option<Object>) -> Option<SpecObject> {
    match r {
        Some(o) => Some(o@),
        None => None,
    }
}

fn is_error_value(r: &Option<Object>) -> (b: bool)
    ensures
        b == is_error(opt_view(*r)),
{
    match r {
        Some(Object::Error(_)) => true,
        _ => false,
    }
}

fn is_error_object(o: &Object) -> (b: bool)
    ensures
        b == (o@ is Error),
{
    match o {
        Object::Error(_) => true,
        _ => false,
    }
}

fn value_or_nil(r: Option<Object>) -> (o: Object)
    ensures
        o@ == or_nil(opt_view(r)),
{
    match r {
        Some(o) => o,
        None => Object::Nil,
    }
}

fn ident_lookup(rt: &Runtime, env: Env, name: &str) -> (r: Object)
    ensures
        r@ == ident_value(rt@, env, name@),
{
    match Environment::get(rt, env, name) {
        Some(v) => v,
        None => match builtin_lookup(name) {
            Some(k) => Object::Builtin(Builtin { kind: k }),
            None => Object::Error(cat2("identifier not found: ", name)),
        },
    }
}

fn unwrap_return_value(r: Option<Object>) -> (o: Option<Object>)
    ensures
        opt_view(o) == unwrap_return(opt_view(r)),
{
    match r {
        Some(Object::ReturnValue(v)) => Some(*v),
        other => other,
    }
}

/// The tree for an unquoted value.
fn unquoted_node_exec(v: Option<Object>) -> (r: Option<Expression>)
    ensures
        match r {
            Some(x) => unquoted_node(opt_view(v)) == Some(x@),
            None => unquoted_node(opt_view(v)) is None,
        },
{
    match v {
        Some(Object::Integer(x)) => Some(
            Expression::IntegerLiteral(
                IntegerLiteral { token: Token { token_type: TokenType::Int, literal: i64_text(x) }, value: x },
            ),
        ),
        Some(Object::Boolean(b)) => {
            let token = if b {
                Token::new(TokenType::True, "true")
            } else {
                Token::new(TokenType::False, "false")
            };
            Some(Expression::Boolean(Boolean { token, value: b }))
        },
        Some(Object::Quote(n)) => match *n {
            Node::Expression(x) => Some(x),
            _ => None,
        },
        _ => None,
    }
}

fn is_quote_call_exec(ce: &CallExpression) -> (b: bool)
    ensures
        b == is_quote_call((*ce.function)@, view_exprs(ce.arguments@)),
{
    proof {
        lemma_view_exprs(ce.arguments@);
    }
    str_eq(ce.function.token_literal_str(), "quote") && ce.arguments.len() > 0
}

fn is_unquote_call_exec(ce: &CallExpression) -> (b: bool)
    ensures
        b == is_unquote_call((*ce.function)@, view_exprs(ce.arguments@)),
{
    proof {
        lemma_view_exprs(ce.arguments@);
    }
    str_eq(ce.function.token_literal_str(), "unquote") && ce.arguments.len() == 1
}

/// Evaluates an expression.
pub fn eval_expression<F: FloatArith>(fuel: u64, e: &Expression, env: Env, rt: &mut Runtime) -> (r:
    Option<Object>)
    ensures
        (opt_view(r), final(rt)@) == expr_result::<F>(fuel as nat, e@, env, old(rt)@),
    decreases fuel, e, 0int,
{
    match e {
        Expression::Ident(id) => Some(ident_lookup(rt, env, id.value.as_str())),
        Expression::IntegerLiteral(il) => Some(Object::Integer(il.value)),
        Expression::FloatLiteral(fl) => {
            let bits = F::parse_literal(fl.token.literal.as_str());
            Some(Object::Float(FloatValue::new::<F>(bits)))
        },
        Expression::Prefix(pe) => {
            let right = eval_expression::<F>(fuel, &pe.right, env, rt);
            if is_error_value(&right) {
                return right;
            }
            Some(eval_prefix::<F>(pe.operator.as_str(), value_or_nil(right)))
        },
        Expression::Infix(ie) => {
            let left = eval_expression::<F>(fuel, &ie.left, env, rt);
            if is_error_value(&left) {
                return left;
            }
            let right = eval_expression::<F>(fuel, &ie.right, env, rt);
            if is_error_value(&right) {
                return right;
            }
            Some(eval_infix::<F>(ie.operator.as_str(), value_or_nil(left), value_or_nil(right)))
        },
        Expression::Boolean(b) => Some(Object::Boolean(b.value)),
        Expression::If(ie) => eval_if::<F>(fuel, ie, env, rt),
        Expression::FunctionLiteral(fl) => Some(
            Object::Function(
                Function { parameters: copy_idents(&fl.parameters), body: copy_block(&fl.body), env },
            ),
        ),
        Expression::Call(ce) => eval_call::<F>(fuel, ce, env, rt),
        Expression::StringLiteral(sl) => Some(Object::Str(sl.value.clone())),
        Expression::ArrayLiteral(al) => {
            let elems = eval_expressions::<F>(fuel, &al.elements, env, rt);
            proof {
                lemma_view_objects(elems@);
            }
            if elems.len() == 1 && is_error_object(&elems[0]) {
                return Some(copy_object(&elems[0]));
            }
            Some(Object::Array(elems))
        },
        Expression::Index(ix) => {
            let left = eval_expression::<F>(fuel, &ix.left, env, rt);
            if is_error_value(&left) {
                return left;
            }
            let index = eval_expression::<F>(fuel, &ix.index, env, rt);
            if is_error_value(&index) {
                return index;
            }
            let l = value_or_nil(left);
            let i = value_or_nil(index);
            Some(eval_index(&l, &i))
        },
        Expression::HashLiteral(hl) => eval_hash_literal::<F>(fuel, hl, env, rt),
        Expression::MacroLiteral(_) => None,
    }
}

#[verifier::spinoff_prover]
#[verifier::rlimit(60)]
fn eval_if<F: FloatArith>(fuel: u64, ie: &IfExpression, env: Env, rt: &mut Runtime) -> (r: Option<
    Object,
>)
    ensures
        (opt_view(r), final(rt)@) == expr_result::<F>(
            fuel as nat,
            Expression::If(*ie)@,
            env,
            old(rt)@,
        ),
    decreases fuel, ie, 0int,
{
    proof {
        lemma_view_block(ie.consequence);
        if ie.alternative is Some {
            lemma_view_block(ie.alternative->Some_0);
        }
    }
    let condition = eval_expression::<F>(fuel, &ie.condition, env, rt);
    if is_error_value(&condition) {
        return condition;
    }
    let c = value_or_nil(condition);
    if truthy(&c) {
        eval_block_statements::<F>(fuel, &ie.consequence.statements, env, rt)
    } else {
        match &ie.alternative {
            Some(b) => eval_block_statements::<F>(fuel, &b.statements, env, rt),
            None => Some(Object::Nil),
        }
    }
}

fn eval_call<F: FloatArith>(fuel: u64, ce: &CallExpression, env: Env, rt: &mut Runtime) -> (r:
    Option<Object>)
    ensures
        (opt_view(r), final(rt)@) == call_result::<F>(fuel as nat, Expression::Call(*ce)@, env, old(rt)@),
    decreases fuel, ce, 0int,
{
    proof {
        lemma_view_exprs(ce.arguments@);
    }
    if is_quote_call_exec(ce) {
        let q = unquote_expression::<F>(fuel, &ce.arguments[0], env, rt);
        return Some(Object::Quote(Box::new(Node::Expression(q))));
    }
    let function = eval_expression::<F>(fuel, &ce.function, env, rt);
    if is_error_value(&function) {
        return function;
    }
    let args = eval_expressions::<F>(fuel, &ce.arguments, env, rt);
    proof {
        lemma_view_objects(args@);
    }
    if args.len() == 1 && is_error_object(&args[0]) {
        return Some(copy_object(&args[0]));
    }
    match value_or_nil(function) {
        Object::Function(f) => {
            if fuel == 0 {
                Some(Object::Error(crate::text::string_of("call depth limit reached")))
            } else {
                call_function::<F>(fuel - 1, &f, &args, rt)
            }
        },
        Object::Builtin(b) => Some(builtin_call(b.kind, &args, rt)),
        other => Some(Object::Error(cat2("not a function: ", other.type_().as_str()))),
    }
}

#[verifier::spinoff_prover]
#[verifier::rlimit(60)]
fn call_function<F: FloatArith>(fuel: u64, f: &Function, args: &Vec<Object>, rt: &mut Runtime) -> (r:
    Option<Object>)
    ensures
        (opt_view(r), final(rt)@) == function_call_result::<F>(
            fuel as nat,
            view_idents(f.parameters@),
            f.body@,
            f.env,
            view_objects(args@),
            old(rt)@,
        ),
    decreases fuel, f.body.statements, 1int,
{
    let ghost pv = view_idents(f.parameters@);
    let ghost av = view_objects(args@);
    proof {
        lemma_view_objects(args@);
    }
    let new_env = Environment::new_enclosed(rt, f.env);
    let ghost st1 = rt@;
    let mut i: usize = 0;
    while i < f.parameters.len() && i < args.len()
        invariant
            i <= f.parameters@.len(),
            pv == view_idents(f.parameters@),
            av == view_objects(args@),
            av.len() == args@.len(),
            forall|k: int| 0 <= k < args@.len() ==> #[trigger] av[k] == args@[k]@,
            bind_params(rt@, new_env, pv, av, i as int) == bind_params(st1, new_env, pv, av, 0),
        decreases f.parameters@.len() - i,
    {
        let v = copy_object(&args[i]);
        Environment::set(rt, new_env, f.parameters[i].value.clone(), v);
        i = i + 1;
    }
    proof {
        lemma_view_block(f.body);
    }
    let r = eval_block_statements::<F>(fuel, &f.body.statements, new_env, rt);
    unwrap_return_value(r)
}

/// Evaluates expressions in turn: all their values, or just the first error.
fn eval_expressions<F: FloatArith>(fuel: u64, es: &Vec<Expression>, env: Env, rt: &mut Runtime) -> (r:
    Vec<Object>)
    ensures
        (view_objects(r@), final(rt)@) == exprs_result::<F>(
            fuel as nat,
            view_exprs(es@),
            0,
            env,
            old(rt)@,
            Seq::empty(),
        ),
    decreases fuel, es, 0int,
{
    let ghost ev = view_exprs(es@);
    proof {
        lemma_view_exprs(es@);
    }
    let mut acc: Vec<Object> = Vec::new();
    let mut i: usize = 0;
    proof {
        lemma_view_objects(acc@);
        assert(view_objects(acc@) =~= Seq::<SpecObject>::empty());
    }
    while i < es.len()
        invariant
            i <= es@.len(),
            ev == view_exprs(es@),
            ev.len() == es@.len(),
            forall|k: int| 0 <= k < es@.len() ==> #[trigger] ev[k] == es@[k]@,
            exprs_result::<F>(fuel as nat, ev, i as int, env, rt@, view_objects(acc@)) == exprs_result::<F>(
                fuel as nat,
                ev,
                0,
                env,
                old(rt)@,
                Seq::empty(),
            ),
        decreases es@.len() - i,
    {
        proof {
            assert(decreases_to!(es => es@));
            assert(decreases_to!(es@ => es@[i as int]));
        }
        let v = eval_expression::<F>(fuel, &es[i], env, rt);
        if is_error_value(&v) {
            let mut out: Vec<Object> = Vec::new();
            out.push(value_or_nil(v));
            proof {
                lemma_view_objects(out@);
                assert(view_objects(out@) =~= seq![or_nil(opt_view(v))]);
            }
            return out;
        }
        let ghost before = acc@;
        let x = value_or_nil(v);
        acc.push(x);
        proof {
            lemma_view_objects(before);
            lemma_view_objects(acc@);
            assert(view_objects(acc@) =~= view_objects(before).push(x@));
        }
        i = i + 1;
    }
    acc
}

fn eval_hash_literal<F: FloatArith>(fuel: u64, hl: &HashLiteral, env: Env, rt: &mut Runtime) -> (r:
    Option<Object>)
    ensures
        (opt_view(r), final(rt)@) == hash_result::<F>(
            fuel as nat,
            view_pairs(hl.pairs@),
            0,
            env,
            old(rt)@,
            Seq::empty(),
        ),
    decreases fuel, hl, 0int,
{
    let ghost pv = view_pairs(hl.pairs@);
    proof {
        lemma_view_pairs(hl.pairs@);
    }
    let mut acc: Vec<(HashKey, HashPair)> = Vec::new();
    proof {
        lemma_view_hash_pairs(acc@);
        assert(view_hash_pairs(acc@) =~= Seq::<(HashKey, SpecObject, SpecObject)>::empty());
    }
    let mut i: usize = 0;
    while i < hl.pairs.len()
        invariant
            i <= hl.pairs@.len(),
            pv == view_pairs(hl.pairs@),
            pv.len() == hl.pairs@.len(),
            forall|k: int|
                0 <= k < hl.pairs@.len() ==> #[trigger] pv[k] == (
                    hl.pairs@[k].0@,
                    hl.pairs@[k].1@,
                ),
            hash_result::<F>(fuel as nat, pv, i as int, env, rt@, view_hash_pairs(acc@)) == hash_result::<F>(
                fuel as nat,
                pv,
                0,
                env,
                old(rt)@,
                Seq::empty(),
            ),
        decreases hl.pairs@.len() - i,
    {
        proof {
            assert(decreases_to!(hl => hl.pairs));
            assert(decreases_to!(hl.pairs => hl.pairs@));
            assert(decreases_to!(hl.pairs@ => hl.pairs@[i as int]));
            assert(decreases_to!(hl.pairs@[i as int] => hl.pairs@[i as int].0));
            assert(decreases_to!(hl.pairs@[i as int] => hl.pairs@[i as int].1));
        }
        let k = eval_expression::<F>(fuel, &hl.pairs[i].0, env, rt);
        if is_error_value(&k) {
            return k;
        }
        let key = value_or_nil(k);
        match key.hash_key() {
            None => {
                return Some(Object::Error(cat2("unusable as hash key: ", key.type_().as_str())));
            },
            Some(hk) => {
                let v = eval_expression::<F>(fuel, &hl.pairs[i].1, env, rt);
                if is_error_value(&v) {
                    return v;
                }
                let value = value_or_nil(v);
                insert_pair(&mut acc, hk, key, value);
            },
        }
        i = i + 1;
    }
    Some(Object::Hash(HashObj { pairs: acc }))
}

/// Evaluates a statement.
#[verifier::spinoff_prover]
#[verifier::rlimit(60)]
pub fn eval_statement<F: FloatArith>(fuel: u64, s: &Statement, env: Env, rt: &mut Runtime) -> (r:
    Option<Object>)
    ensures
        (opt_view(r), final(rt)@) == stmt_result::<F>(fuel as nat, s@, env, old(rt)@),
    decreases fuel, s, 0int,
{
    match s {
        Statement::Expression(es) => eval_expression::<F>(fuel, &es.expression, env, rt),
        Statement::Return(rs) => {
            let v = eval_expression::<F>(fuel, &rs.return_value, env, rt);
            if is_error_value(&v) {
                return v;
            }
            Some(Object::ReturnValue(Box::new(value_or_nil(v))))
        },
        Statement::Block(bs) => {
            proof {
                lemma_view_block(*bs);
            }
            eval_block_statements::<F>(fuel, &bs.statements, env, rt)
        },
        Statement::Let(ls) => {
            let v = eval_expression::<F>(fuel, &ls.value, env, rt);
            if is_error_value(&v) {
                return v;
            }
            Environment::set(rt, env, ls.name.value.clone(), value_or_nil(v));
            None
        },
    }
}

/// Evaluates the statements of a block in turn, up to a returned value or an
/// error.
#[verifier::spinoff_prover]
#[verifier::rlimit(60)]
pub fn eval_block_statements<F: FloatArith>(
    fuel: u64,
    ss: &Vec<Statement>,
    env: Env,
    rt: &mut Runtime,
) -> (r: Option<Object>)
    ensures
        (opt_view(r), final(rt)@) == block_result::<F>(
            fuel as nat,
            view_stmts(ss@),
            0,
            env,
            old(rt)@,
            None,
        ),
    decreases fuel, ss, 0int,
{
    let ghost sv = view_stmts(ss@);
    proof {
        lemma_view_stmts(ss@);
    }
    let mut result: Option<Object> = None;
    let mut i: usize = 0;
    while i < ss.len()
        invariant
            i <= ss@.len(),
            sv == view_stmts(ss@),
            sv.len() == ss@.len(),
            forall|k: int| 0 <= k < ss@.len() ==> #[trigger] sv[k] == ss@[k]@,
            block_result::<F>(fuel as nat, sv, i as int, env, rt@, opt_view(result)) == block_result::<F>(
                fuel as nat,
                sv,
                0,
                env,
                old(rt)@,
                None,
            ),
        decreases ss@.len() - i,
    {
        proof {
            assert(decreases_to!(ss => ss@));
            assert(decreases_to!(ss@ => ss@[i as int]));
        }
        let r = eval_statement::<F>(fuel, &ss[i], env, rt);
        match &r {
            Some(Object::ReturnValue(_)) => {
                return r;
            },
            Some(Object::Error(_)) => {
                return r;
            },
            _ => {},
        }
        result = r;
        i = i + 1;
    }
    result
}

// ---------------------------------------------------------------------------
// Unquoting
// ---------------------------------------------------------------------------

#[verifier::spinoff_prover]
#[verifier::rlimit(60)]
fn unquote_expression<F: FloatArith>(fuel: u64, e: &Expression, env: Env, rt: &mut Runtime) -> (r:
    Expression)
    ensures
        (r@, final(rt)@) == unquoted_expr::<F>(fuel as nat, e@, env, old(rt)@),
    decreases fuel, e, 0int,
{
    match e {
        Expression::Prefix(pe) => {
            let right = unquote_expression::<F>(fuel, &pe.right, env, rt);
            Expression::Prefix(
                PrefixExpression {
                    token: copy_token(&pe.token),
                    operator: pe.operator.clone(),
                    right: Box::new(right),
                },
            )
        },
        Expression::Infix(ie) => {
            let left = unquote_expression::<F>(fuel, &ie.left, env, rt);
            let right = unquote_expression::<F>(fuel, &ie.right, env, rt);
            Expression::Infix(
                InfixExpression {
                    token: copy_token(&ie.token),
                    left: Box::new(left),
                    operator: ie.operator.clone(),
                    right: Box::new(right),
                },
            )
        },
        Expression::Index(ix) => {
            let left = unquote_expression::<F>(fuel, &ix.left, env, rt);
            let index = unquote_expression::<F>(fuel, &ix.index, env, rt);
            Expression::Index(
                IndexExpression {
                    token: copy_token(&ix.token),
                    left: Box::new(left),
                    index: Box::new(index),
                },
            )
        },
        Expression::If(ie) => unquote_if::<F>(fuel, ie, env, rt),
        Expression::FunctionLiteral(fl) => {
            proof {
                lemma_view_block(fl.body);
            }
            let body = unquote_statements::<F>(fuel, &fl.body.statements, env, rt);
            let nb = BlockStatement { token: copy_token(&fl.body.token), statements: body };
            proof {
                lemma_view_block(nb);
            }
            Expression::FunctionLiteral(
                FunctionLiteral {
                    token: copy_token(&fl.token),
                    parameters: copy_idents(&fl.parameters),
                    body: nb,
                },
            )
        },
        Expression::ArrayLiteral(al) => {
            let elements = unquote_expressions::<F>(fuel, &al.elements, env, rt);
            Expression::ArrayLiteral(ArrayLiteral { token: copy_token(&al.token), elements })
        },
        Expression::HashLiteral(hl) => {
            let pairs = unquote_pairs::<F>(fuel, &hl.pairs, env, rt);
            Expression::HashLiteral(HashLiteral { token: copy_token(&hl.token), pairs })
        },
        Expression::Call(ce) => {
            if is_unquote_call_exec(ce) {
                proof {
                    lemma_view_exprs(ce.arguments@);
                }
                let v = eval_expression::<F>(fuel, &ce.arguments[0], env, rt);
                match unquoted_node_exec(v) {
                    Some(n) => n,
                    None => copy_expr(e),
                }
            } else {
                copy_expr(e)
            }
        },
        _ => copy_expr(e),
    }
}

#[verifier::spinoff_prover]
#[verifier::rlimit(60)]
fn unquote_if<F: FloatArith>(fuel: u64, ie: &IfExpression, env: Env, rt: &mut Runtime) -> (r:
    Expression)
    ensures
        (r@, final(rt)@) == unquoted_expr::<F>(fuel as nat, Expression::If(*ie)@, env, old(rt)@),
    decreases fuel, ie, 0int,
{
    proof {
        lemma_view_block(ie.consequence);
        if ie.alternative is Some {
            lemma_view_block(ie.alternative->Some_0);
        }
    }
    let condition = unquote_expression::<F>(fuel, &ie.condition, env, rt);
    let cs = unquote_statements::<F>(fuel, &ie.consequence.statements, env, rt);
    let consequence = BlockStatement { token: copy_token(&ie.consequence.token), statements: cs };
    proof {
        lemma_view_block(consequence);
    }
    let alternative = match &ie.alternative {
        Some(b) => {
            let bs = unquote_statements::<F>(fuel, &b.statements, env, rt);
            let nb = BlockStatement { token: copy_token(&b.token), statements: bs };
            proof {
                lemma_view_block(nb);
            }
            Some(nb)
        },
        None => None,
    };
    Expression::If(
        IfExpression { token: copy_token(&ie.token), condition: Box::new(condition), consequence, alternative },
    )
}

#[verifier::spinoff_prover]
#[verifier::rlimit(60)]
fn unquote_statement<F: FloatArith>(fuel: u64, s: &Statement, env: Env, rt: &mut Runtime) -> (r:
    Statement)
    ensures
        (r@, final(rt)@) == unquoted_stmt::<F>(fuel as nat, s@, env, old(rt)@),
    decreases fuel, s, 0int,
{
    match s {
        Statement::Expression(es) => {
            let x = unquote_expression::<F>(fuel, &es.expression, env, rt);
            Statement::Expression(ExpressionStatement { token: copy_token(&es.token), expression: x })
        },
        Statement::Return(rs) => {
            let x = unquote_expression::<F>(fuel, &rs.return_value, env, rt);
            Statement::Return(ReturnStatement { token: copy_token(&rs.token), return_value: x })
        },
        Statement::Let(ls) => {
            let x = unquote_expression::<F>(fuel, &ls.value, env, rt);
            Statement::Let(
                LetStatement { token: copy_token(&ls.token), name: copy_ident(&ls.name), value: x },
            )
        },
        Statement::Block(bs) => {
            proof {
                lemma_view_block(*bs);
            }
            let x = unquote_statements::<F>(fuel, &bs.statements, env, rt);
            let nb = BlockStatement { token: copy_token(&bs.token), statements: x };
            proof {
                lemma_view_block(nb);
            }
            Statement::Block(nb)
        },
    }
}

#[verifier::spinoff_prover]
#[verifier::rlimit(60)]
fn unquote_statements<F: FloatArith>(
    fuel: u64,
    ss: &Vec<Statement>,
    env: Env,
    rt: &mut Runtime,
) -> (r: Vec<Statement>)
    ensures
        (view_stmts(r@), final(rt)@) == unquoted_stmts::<F>(
            fuel as nat,
            view_stmts(ss@),
            0,
            env,
            old(rt)@,
            Seq::empty(),
        ),
    decreases fuel, ss, 0int,
{
    let ghost sv = view_stmts(ss@);
    proof {
        lemma_view_stmts(ss@);
    }
    let mut acc: Vec<Statement> = Vec::new();
    proof {
        lemma_view_stmts(acc@);
        assert(view_stmts(acc@) =~= Seq::empty());
    }
    let mut i: usize = 0;
    while i < ss.len()
        invariant
            i <= ss@.len(),
            sv == view_stmts(ss@),
            sv.len() == ss@.len(),
            forall|k: int| 0 <= k < ss@.len() ==> #[trigger] sv[k] == ss@[k]@,
            unquoted_stmts::<F>(fuel as nat, sv, i as int, env, rt@, view_stmts(acc@)) == unquoted_stmts::<F>(
                fuel as nat,
                sv,
                0,
                env,
                old(rt)@,
                Seq::empty(),
            ),
        decreases ss@.len() - i,
    {
        proof {
            assert(decreases_to!(ss => ss@));
            assert(decreases_to!(ss@ => ss@[i as int]));
        }
        let x = unquote_statement::<F>(fuel, &ss[i], env, rt);
        let ghost before = acc@;
        acc.push(x);
        proof {
            lemma_view_stmts(before);
            lemma_view_stmts(acc@);
            assert(view_stmts(acc@) =~= view_stmts(before).push(x@));
        }
        i = i + 1;
    }
    acc
}

fn unquote_expressions<F: FloatArith>(
    fuel: u64,
    es: &Vec<Expression>,
    env: Env,
    rt: &mut Runtime,
) -> (r: Vec<Expression>)
    ensures
        (view_exprs(r@), final(rt)@) == unquoted_exprs::<F>(
            fuel as nat,
            view_exprs(es@),
            0,
            env,
            old(rt)@,
            Seq::empty(),
        ),
    decreases fuel, es, 0int,
{
    let ghost ev = view_exprs(es@);
    proof {
        lemma_view_exprs(es@);
    }
    let mut acc: Vec<Expression> = Vec::new();
    proof {
        lemma_view_exprs(acc@);
        assert(view_exprs(acc@) =~= Seq::empty());
    }
    let mut i: usize = 0;
    while i < es.len()
        invariant
            i <= es@.len(),
            ev == view_exprs(es@),
            ev.len() == es@.len(),
            forall|k: int| 0 <= k < es@.len() ==> #[trigger] ev[k] == es@[k]@,
            unquoted_exprs::<F>(fuel as nat, ev, i as int, env, rt@, view_exprs(acc@)) == unquoted_exprs::<F>(
                fuel as nat,
                ev,
                0,
                env,
                old(rt)@,
                Seq::empty(),
            ),
        decreases es@.len() - i,
    {
        proof {
            assert(decreases_to!(es => es@));
            assert(decreases_to!(es@ => es@[i as int]));
        }
        let x = unquote_expression::<F>(fuel, &es[i], env, rt);
        let ghost before = acc@;
        acc.push(x);
        proof {
            lemma_view_exprs(before);
            lemma_view_exprs(acc@);
            assert(view_exprs(acc@) =~= view_exprs(before).push(x@));
        }
        i = i + 1;
    }
    acc
}

fn unquote_pairs<F: FloatArith>(
    fuel: u64,
    ps: &Vec<(Expression, Expression)>,
    env: Env,
    rt: &mut Runtime,
) -> (r: Vec<(Expression, Expression)>)
    ensures
        (view_pairs(r@), final(rt)@) == unquoted_pairs::<F>(
            fuel as nat,
            view_pairs(ps@),
            0,
            env,
            old(rt)@,
            Seq::empty(),
        ),
    decreases fuel, ps, 0int,
{
    let ghost pv = view_pairs(ps@);
    proof {
        lemma_view_pairs(ps@);
    }
    let mut acc: Vec<(Expression, Expression)> = Vec::new();
    proof {
        lemma_view_pairs(acc@);
        assert(view_pairs(acc@) =~= Seq::empty());
    }
    let mut i: usize = 0;
    while i < ps.len()
        invariant
            i <= ps@.len(),
            pv == view_pairs(ps@),
            pv.len() == ps@.len(),
            forall|k: int|
                0 <= k < ps@.len() ==> #[trigger] pv[k] == (ps@[k].0@, ps@[k].1@),
            unquoted_pairs::<F>(fuel as nat, pv, i as int, env, rt@, view_pairs(acc@)) == unquoted_pairs::<F>(
                fuel as nat,
                pv,
                0,
                env,
                old(rt)@,
                Seq::empty(),
            ),
        decreases ps@.len() - i,
    {
        proof {
            assert(decreases_to!(ps => ps@));
            assert(decreases_to!(ps@ => ps@[i as int]));
            assert(decreases_to!(ps@[i as int] => ps@[i as int].0));
            assert(decreases_to!(ps@[i as int] => ps@[i as int].1));
        }
        let k = unquote_expression::<F>(fuel, &ps[i].0, env, rt);
        let v = unquote_expression::<F>(fuel, &ps[i].1, env, rt);
        let ghost before = acc@;
        let ghost kv = k@;
        let ghost vv = v@;
        acc.push((k, v));
        proof {
            lemma_view_pairs(before);
            lemma_view_pairs(acc@);
            assert(view_pairs(acc@) =~= view_pairs(before).push((kv, vv)));
        }
        i = i + 1;
    }
    acc
}

// ---------------------------------------------------------------------------
// Programs and nodes
// ---------------------------------------------------------------------------

#[verifier::spinoff_prover]
#[verifier::rlimit(60)]
fn eval_program<F: FloatArith>(fuel: u64, p: &Program, env: Env, rt: &mut Runtime) -> (r: Option<
    Object,
>)
    ensures
        (opt_view(r), final(rt)@) == program_result::<F>(fuel as nat, p@, 0, env, old(rt)@, None),
{
    let ghost sv = view_stmts(p.statements@);
    proof {
        lemma_view_stmts(p.statements@);
    }
    let mut result: Option<Object> = None;
    let mut i: usize = 0;
    while i < p.statements.len()
        invariant
            i <= p.statements@.len(),
            sv == view_stmts(p.statements@),
            sv == p@,
            sv.len() == p.statements@.len(),
            forall|k: int| 0 <= k < p.statements@.len() ==> #[trigger] sv[k] == p.statements@[k]@,
            program_result::<F>(fuel as nat, sv, i as int, env, rt@, opt_view(result)) == program_result::<F>(
                fuel as nat,
                sv,
                0,
                env,
                old(rt)@,
                None,
            ),
        decreases p.statements@.len() - i,
    {
        let r = eval_statement::<F>(fuel, &p.statements[i], env, rt);
        match r {
            Some(Object::ReturnValue(v)) => {
                return Some(*v);
            },
            Some(Object::Error(m)) => {
                return Some(Object::Error(m));
            },
            other => {
                result = other;
            },
        }
        i = i + 1;
    }
    result
}

/// Evaluates a node in environment `env`: a program, a statement or an
/// expression.
#[verifier::spinoff_prover]
#[verifier::rlimit(60)]
pub fn eval<F: FloatArith>(node: &Node, env: Env, rt: &mut Runtime) -> (r: Option<Object>)
    ensures
        (opt_view(r), final(rt)@) == node_result::<F>(CALL_DEPTH_LIMIT as nat, node@, env, old(rt)@),
{
    match node {
        Node::Program(p) => eval_program::<F>(CALL_DEPTH_LIMIT, p, env, rt),
        Node::Statement(s) => eval_statement::<F>(CALL_DEPTH_LIMIT, s, env, rt),
        Node::Expression(e) => eval_expression::<F>(CALL_DEPTH_LIMIT, e, env, rt),
    }
}

} // verus!
