//! Macros: `let name = macro(params) { body };` statements define them, and
//! every call of a macro is replaced by the tree its body quotes, computed
//! with the arguments bound, unevaluated, as quotes.

use vstd::prelude::*;
use crate::ast::{
    ArrayLiteral, BlockStatement, CallExpression, Expression, ExpressionStatement, FunctionLiteral,
    HashLiteral, IfExpression, IndexExpression, InfixExpression, LetStatement, Node,
    PrefixExpression, Program, ReturnStatement, SpecBlock, SpecExpr, SpecIdent, SpecNode, SpecStmt,
    Statement, copy_block, copy_expr, copy_ident, copy_idents, copy_stmt, copy_token,
    lemma_view_block, lemma_view_exprs, lemma_view_pairs, lemma_view_stmts, view_exprs,
    view_idents, view_pairs, view_stmts,
};
use crate::eval::eval_block_statements;
use crate::eval_spec::{CALL_DEPTH_LIMIT, bind_params, block_result};
use crate::float::FloatArith;
use crate::object::{
    Env, Environment, Macro, Object, RtState, Runtime, SpecObject, env_bind, env_lookup, env_push,
};
use crate::text::string_of;

verus! {

/// Whether a statement defines a macro.
pub open spec fn is_macro_definition(s: SpecStmt) -> bool {
    s matches SpecStmt::Let { value: SpecExpr::MacroLiteral { .. }, .. }
}

/// The statements `ss[i..]` without the macro definitions, after `kept`,
/// and the state with each macro bound in `env`.
pub open spec fn defined_macros(
    ss: Seq<SpecStmt>,
    i: int,
    env: usize,
    st: RtState,
    kept: Seq<SpecStmt>,
) -> (Seq<SpecStmt>, RtState)
    decreases ss.len() - i,
{
    if 0 <= i < ss.len() {
        match ss[i] {
            SpecStmt::Let { name, value: SpecExpr::MacroLiteral { parameters, body, .. }, .. } => {
                defined_macros(
                    ss,
                    i + 1,
                    env,
                    env_bind(st, env, name.value, SpecObject::Macro(parameters, body, env)),
                    kept,
                )
            },
            _ => defined_macros(ss, i + 1, env, st, kept.push(ss[i])),
        }
    } else {
        (kept, st)
    }
}

/// The message of a failed expansion.
pub open spec fn not_a_tree_message() -> Seq<char> {
    "we only support returning AST-nodes from macros"@
}

/// Each argument as a quote of its unevaluated expression.
pub open spec fn quoted_args(args: Seq<SpecExpr>) -> Seq<SpecObject> {
    Seq::new(args.len(), |k: int| SpecObject::Quote(SpecNode::Expression(args[k])))
}

/// The tree a macro call expands to: the body runs in a new environment
/// nested in the macro's, with the parameters bound to the quoted arguments,
/// and must give a quoted expression.
pub open spec fn macro_expansion<F: FloatArith>(
    params: Seq<SpecIdent>,
    body: SpecBlock,
    menv: usize,
    args: Seq<SpecExpr>,
    st: RtState,
) -> (Result<SpecExpr, Seq<char>>, RtState) {
    let new_env = st.envs.len() as usize;
    let st1 = bind_params(env_push(st, Some(menv)), new_env, params, quoted_args(args), 0);
    let (r, st2) = block_result::<F>(CALL_DEPTH_LIMIT as nat, body.statements, 0, new_env, st1, None);
    match r {
        Some(SpecObject::Quote(SpecNode::Expression(x))) => (Ok(x), st2),
        _ => (Err(not_a_tree_message()), st2),
    }
}

/// The macro a call calls, if its callee is a name bound to a macro.
pub open spec fn called_macro(function: SpecExpr, env: usize, st: RtState) -> Option<
    (Seq<SpecIdent>, SpecBlock, usize),
> {
    match function {
        SpecExpr::Ident(id) => match env_lookup(st.envs, env as int, id.value) {
            Some(SpecObject::Macro(params, body, menv)) => Some((params, body, menv)),
            _ => None,
        },
        _ => None,
    }
}

/// `e` with the macro calls in it expanded; calls are not looked into.
pub open spec fn expanded_expr<F: FloatArith>(e: SpecExpr, env: usize, st: RtState) -> (
    Result<SpecExpr, Seq<char>>,
    RtState,
)
    decreases e, 1int,
{
    match e {
        SpecExpr::Prefix { token, operator, right } => {
            let (r, st1) = expanded_expr::<F>(*right, env, st);
            match r {
                Ok(x) => (Ok(SpecExpr::Prefix { token, operator, right: Box::new(x) }), st1),
                Err(m) => (Err(m), st1),
            }
        },
        SpecExpr::Infix { token, left, operator, right } => {
            let (l, st1) = expanded_expr::<F>(*left, env, st);
            match l {
                Err(m) => (Err(m), st1),
                Ok(lx) => {
                    let (r, st2) = expanded_expr::<F>(*right, env, st1);
                    match r {
                        Err(m) => (Err(m), st2),
                        Ok(rx) => (
                            Ok(
                                SpecExpr::Infix {
                                    token,
                                    left: Box::new(lx),
                                    operator,
                                    right: Box::new(rx),
                                },
                            ),
                            st2,
                        ),
                    }
                },
            }
        },
        SpecExpr::Index { token, left, index } => {
            let (l, st1) = expanded_expr::<F>(*left, env, st);
            match l {
                Err(m) => (Err(m), st1),
                Ok(lx) => {
                    let (i, st2) = expanded_expr::<F>(*index, env, st1);
                    match i {
                        Err(m) => (Err(m), st2),
                        Ok(ix) => (
                            Ok(SpecExpr::Index { token, left: Box::new(lx), index: Box::new(ix) }),
                            st2,
                        ),
                    }
                },
            }
        },
        SpecExpr::If { token, condition, consequence, alternative } => {
            let (c, st1) = expanded_expr::<F>(*condition, env, st);
            match c {
                Err(m) => (Err(m), st1),
                Ok(cx) => {
                    proof {
                        assert(decreases_to!(e => consequence));
                        assert(decreases_to!(consequence => consequence.statements));
                    }
                    let (cs, st2) = expanded_stmts::<F>(consequence.statements, 0, env, st1, Seq::empty());
                    match cs {
                        Err(m) => (Err(m), st2),
                        Ok(css) => match alternative {
                            Some(b) => {
                                proof {
                                    assert(decreases_to!(e => alternative));
                                    assert(decreases_to!(alternative => b));
                                    assert(decreases_to!(b => b.statements));
                                }
                                let (bs, st3) = expanded_stmts::<F>(b.statements, 0, env, st2, Seq::empty());
                                match bs {
                                    Err(m) => (Err(m), st3),
                                    Ok(bss) => (
                                        Ok(
                                            SpecExpr::If {
                                                token,
                                                condition: Box::new(cx),
                                                consequence: SpecBlock {
                                                    token: consequence.token,
                                                    statements: css,
                                                },
                                                alternative: Some(
                                                    SpecBlock { token: b.token, statements: bss },
                                                ),
                                            },
                                        ),
                                        st3,
                                    ),
                                }
                            },
                            None => (
                                Ok(
                                    SpecExpr::If {
                                        token,
                                        condition: Box::new(cx),
                                        consequence: SpecBlock {
                                            token: consequence.token,
                                            statements: css,
                                        },
                                        alternative: None,
                                    },
                                ),
                                st2,
                            ),
                        },
                    }
                },
            }
        },
        SpecExpr::FunctionLiteral { token, parameters, body } => {
            proof {
                assert(decreases_to!(e => body));
                assert(decreases_to!(body => body.statements));
            }
            let (bs, st1) = expanded_stmts::<F>(body.statements, 0, env, st, Seq::empty());
            match bs {
                Err(m) => (Err(m), st1),
                Ok(bss) => (
                    Ok(
                        SpecExpr::FunctionLiteral {
                            token,
                            parameters,
                            body: SpecBlock { token: body.token, statements: bss },
                        },
                    ),
                    st1,
                ),
            }
        },
        SpecExpr::ArrayLiteral { token, elements } => {
            let (es, st1) = expanded_exprs::<F>(elements, 0, env, st, Seq::empty());
            match es {
                Err(m) => (Err(m), st1),
                Ok(ess) => (Ok(SpecExpr::ArrayLiteral { token, elements: ess }), st1),
            }
        },
        SpecExpr::HashLiteral { token, pairs } => {
            let (ps, st1) = expanded_pairs::<F>(pairs, 0, env, st, Seq::empty());
            match ps {
                Err(m) => (Err(m), st1),
                Ok(pss) => (Ok(SpecExpr::HashLiteral { token, pairs: pss }), st1),
            }
        },
        SpecExpr::Call { function, arguments, .. } => match called_macro(*function, env, st) {
            Some((params, body, menv)) => macro_expansion::<F>(params, body, menv, arguments, st),
            None => (Ok(e), st),
        },
        _ => (Ok(e), st),
    }
}

pub open spec fn expanded_stmt<F: FloatArith>(s: SpecStmt, env: usize, st: RtState) -> (
    Result<SpecStmt, Seq<char>>,
    RtState,
)
    decreases s, 1int,
{
    match s {
        SpecStmt::Expression { token, expression } => {
            let (x, st1) = expanded_expr::<F>(expression, env, st);
            match x {
                Ok(v) => (Ok(SpecStmt::Expression { token, expression: v }), st1),
                Err(m) => (Err(m), st1),
            }
        },
        SpecStmt::Return { token, value } => {
            let (x, st1) = expanded_expr::<F>(value, env, st);
            match x {
                Ok(v) => (Ok(SpecStmt::Return { token, value: v }), st1),
                Err(m) => (Err(m), st1),
            }
        },
        SpecStmt::Let { token, name, value } => {
            let (x, st1) = expanded_expr::<F>(value, env, st);
            match x {
                Ok(v) => (Ok(SpecStmt::Let { token, name, value: v }), st1),
                Err(m) => (Err(m), st1),
            }
        },
        SpecStmt::Block(b) => {
            proof {
                assert(decreases_to!(s => b));
                assert(decreases_to!(b => b.statements));
            }
            let (bs, st1) = expanded_stmts::<F>(b.statements, 0, env, st, Seq::empty());
            match bs {
                Ok(v) => (Ok(SpecStmt::Block(SpecBlock { token: b.token, statements: v })), st1),
                Err(m) => (Err(m), st1),
            }
        },
    }
}

pub open spec fn expanded_stmts<F: FloatArith>(
    ss: Seq<SpecStmt>,
    i: int,
    env: usize,
    st: RtState,
    acc: Seq<SpecStmt>,
) -> (Result<Seq<SpecStmt>, Seq<char>>, RtState)
    decreases ss, ss.len() - i,
{
    if 0 <= i < ss.len() {
        proof {
            assert(decreases_to!(ss => ss[i]));
        }
        let (x, st1) = expanded_stmt::<F>(ss[i], env, st);
        match x {
            Ok(v) => expanded_stmts::<F>(ss, i + 1, env, st1, acc.push(v)),
            Err(m) => (Err(m), st1),
        }
    } else {
        (Ok(acc), st)
    }
}

pub open spec fn expanded_exprs<F: FloatArith>(
    es: Seq<SpecExpr>,
    i: int,
    env: usize,
    st: RtState,
    acc: Seq<SpecExpr>,
) -> (Result<Seq<SpecExpr>, Seq<char>>, RtState)
    decreases es, es.len() - i,
{
    if 0 <= i < es.len() {
        proof {
            assert(decreases_to!(es => es[i]));
        }
        let (x, st1) = expanded_expr::<F>(es[i], env, st);
        match x {
            Ok(v) => expanded_exprs::<F>(es, i + 1, env, st1, acc.push(v)),
            Err(m) => (Err(m), st1),
        }
    } else {
        (Ok(acc), st)
    }
}

pub open spec fn expanded_pairs<F: FloatArith>(
    ps: Seq<(SpecExpr, SpecExpr)>,
    i: int,
    env: usize,
    st: RtState,
    acc: Seq<(SpecExpr, SpecExpr)>,
) -> (Result<Seq<(SpecExpr, SpecExpr)>, Seq<char>>, RtState)
    decreases ps, ps.len() - i,
{
    if 0 <= i < ps.len() {
        proof {
            assert(decreases_to!(ps => ps[i]));
            assert(decreases_to!(ps[i] => ps[i].0));
            assert(decreases_to!(ps[i] => ps[i].1));
        }
        let (k, st1) = expanded_expr::<F>(ps[i].0, env, st);
        match k {
            Err(m) => (Err(m), st1),
            Ok(kx) => {
                let (v, st2) = expanded_expr::<F>(ps[i].1, env, st1);
                match v {
                    Err(m) => (Err(m), st2),
                    Ok(vx) => expanded_pairs::<F>(ps, i + 1, env, st2, acc.push((kx, vx))),
                }
            },
        }
    } else {
        (Ok(acc), st)
    }
}

/// A node with the macro calls in it expanded.
pub open spec fn expanded_node<F: FloatArith>(n: SpecNode, env: usize, st: RtState) -> (
    Result<SpecNode, Seq<char>>,
    RtState,
) {
    match n {
        SpecNode::Program(ss) => {
            let (r, st1) = expanded_stmts::<F>(ss, 0, env, st, Seq::empty());
            match r {
                Ok(v) => (Ok(SpecNode::Program(v)), st1),
                Err(m) => (Err(m), st1),
            }
        },
        SpecNode::Statement(s) => {
            let (r, st1) = expanded_stmt::<F>(s, env, st);
            match r {
                Ok(v) => (Ok(SpecNode::Statement(v)), st1),
                Err(m) => (Err(m), st1),
            }
        },
        SpecNode::Expression(e) => {
            let (r, st1) = expanded_expr::<F>(e, env, st);
            match r {
                Ok(v) => (Ok(SpecNode::Expression(v)), st1),
                Err(m) => (Err(m), st1),
            }
        },
    }
}

/// The meaning of an expansion's outcome.
pub open spec fn result_view<T, V>(r: Result<T, String>, f: spec_fn(T) -> V) -> Result<
    V,
    Seq<char>,
> {
    match r {
        Ok(x) => Ok(f(x)),
        Err(m) => Err(m@),
    }
}

// ---------------------------------------------------------------------------
// Defining
// ---------------------------------------------------------------------------

/// The name and the macro a statement defines, if it defines one.
fn macro_definition(s: &Statement, env: Env) -> (r: Option<(String, Object)>)
    ensures
        match r {
            Some((n, m)) => match s@ {
                SpecStmt::Let { name, value: SpecExpr::MacroLiteral { parameters, body, .. }, .. } => n@
                    == name.value && m@ == SpecObject::Macro(parameters, body, env),
                _ => false,
            },
            None => !is_macro_definition(s@),
        },
{
    match s {
        Statement::Let(ls) => match &ls.value {
            Expression::MacroLiteral(ml) => {
                let m = Object::Macro(
                    Macro { parameters: copy_idents(&ml.parameters), body: copy_block(&ml.body), env },
                );
                Some((ls.name.value.clone(), m))
            },
            _ => None,
        },
        _ => None,
    }
}

/// Binds each macro a statement of the program defines, in `env`, and takes
/// those statements out of the program.
#[verifier::spinoff_prover]
#[verifier::rlimit(100)]
pub fn define_macros(program: &mut Program, env: Env, rt: &mut Runtime)
    ensures
        (final(program)@, final(rt)@) == defined_macros(old(program)@, 0, env, old(rt)@, Seq::empty()),
{
    let ghost sv = old(program)@;
    let mut stmts: Vec<Statement> = Vec::new();
    std::mem::swap(&mut stmts, &mut program.statements);
    proof {
        lemma_view_stmts(stmts@);
    }
    let mut kept: Vec<Statement> = Vec::new();
    proof {
        lemma_view_stmts(kept@);
        assert(view_stmts(kept@) =~= Seq::empty());
    }
    let mut i: usize = 0;
    while i < stmts.len()
        invariant
            i <= stmts@.len(),
            sv == view_stmts(stmts@),
            sv.len() == stmts@.len(),
            forall|k: int| 0 <= k < stmts@.len() ==> #[trigger] sv[k] == stmts@[k]@,
            defined_macros(sv, i as int, env, rt@, view_stmts(kept@)) == defined_macros(
                sv,
                0,
                env,
                old(rt)@,
                Seq::empty(),
            ),
        decreases stmts@.len() - i,
    {
        let s = &stmts[i];
        match macro_definition(s, env) {
            Some((name, m)) => {
                Environment::set(rt, env, name, m);
            },
            None => {
                let ghost before = kept@;
                let c = copy_stmt(s);
                kept.push(c);
                proof {
                    lemma_view_stmts(before);
                    lemma_view_stmts(kept@);
                    assert(view_stmts(kept@) =~= view_stmts(before).push(c@));
                }
            },
        }
        i = i + 1;
    }
    program.statements = kept;
}

// ---------------------------------------------------------------------------
// Expanding
// ---------------------------------------------------------------------------

/// The macro a call calls, if its callee is a name bound to a macro.
fn called_macro_exec(ce: &CallExpression, env: Env, rt: &Runtime) -> (r: Option<Macro>)
    ensures
        match r {
            Some(m) => called_macro((*ce.function)@, env, rt@) == Some(
                (view_idents(m.parameters@), m.body@, m.env),
            ),
            None => called_macro((*ce.function)@, env, rt@) is None,
        },
{
    match &*ce.function {
        Expression::Ident(id) => match Environment::get(rt, env, id.value.as_str()) {
            Some(Object::Macro(m)) => Some(m),
            _ => None,
        },
        _ => None,
    }
}

#[verifier::spinoff_prover]
fn expand_call<F: FloatArith>(m: &Macro, args: &Vec<Expression>, rt: &mut Runtime) -> (r: Result<
    Expression,
    String,
>)
    ensures
        (result_view(r, |x: Expression| x@), final(rt)@) == macro_expansion::<F>(
            view_idents(m.parameters@),
            m.body@,
            m.env,
            view_exprs(args@),
            old(rt)@,
        ),
{
    let ghost pv = view_idents(m.parameters@);
    let ghost av = quoted_args(view_exprs(args@));
    proof {
        lemma_view_exprs(args@);
        lemma_view_block(m.body);
    }
    let new_env = Environment::new_enclosed(rt, m.env);
    let ghost st1 = rt@;
    let mut i: usize = 0;
    while i < m.parameters.len() && i < args.len()
        invariant
            i <= m.parameters@.len(),
            pv == view_idents(m.parameters@),
            av == quoted_args(view_exprs(args@)),
            av.len() == args@.len(),
            forall|k: int|
                0 <= k < args@.len() ==> #[trigger] av[k] == SpecObject::Quote(
                    SpecNode::Expression(args@[k]@),
                ),
            bind_params(rt@, new_env, pv, av, i as int) == bind_params(st1, new_env, pv, av, 0),
        decreases m.parameters@.len() - i,
    {
        let q = Object::Quote(Box::new(Node::Expression(copy_expr(&args[i]))));
        Environment::set(rt, new_env, m.parameters[i].value.clone(), q);
        i = i + 1;
    }
    let r = eval_block_statements::<F>(CALL_DEPTH_LIMIT, &m.body.statements, new_env, rt);
    match r {
        Some(Object::Quote(n)) => match *n {
            Node::Expression(x) => Ok(x),
            _ => Err(string_of("we only support returning AST-nodes from macros")),
        },
        _ => Err(string_of("we only support returning AST-nodes from macros")),
    }
}

#[verifier::spinoff_prover]
#[verifier::rlimit(60)]
fn expand_expression<F: FloatArith>(e: &Expression, env: Env, rt: &mut Runtime) -> (r: Result<
    Expression,
    String,
>)
    ensures
        (result_view(r, |x: Expression| x@), final(rt)@) == expanded_expr::<F>(e@, env, old(rt)@),
    decreases e, 0int,
{
    match e {
        Expression::Prefix(pe) => {
            let right = expand_expression::<F>(&pe.right, env, rt)?;
            Ok(
                Expression::Prefix(
                    PrefixExpression {
                        token: copy_token(&pe.token),
                        operator: pe.operator.clone(),
                        right: Box::new(right),
                    },
                ),
            )
        },
        Expression::Infix(ie) => {
            let left = expand_expression::<F>(&ie.left, env, rt)?;
            let right = expand_expression::<F>(&ie.right, env, rt)?;
            Ok(
                Expression::Infix(
                    InfixExpression {
                        token: copy_token(&ie.token),
                        left: Box::new(left),
                        operator: ie.operator.clone(),
                        right: Box::new(right),
                    },
                ),
            )
        },
        Expression::Index(ix) => {
            let left = expand_expression::<F>(&ix.left, env, rt)?;
            let index = expand_expression::<F>(&ix.index, env, rt)?;
            Ok(
                Expression::Index(
                    IndexExpression {
                        token: copy_token(&ix.token),
                        left: Box::new(left),
                        index: Box::new(index),
                    },
                ),
            )
        },
        Expression::If(ie) => expand_if::<F>(ie, env, rt),
        Expression::FunctionLiteral(fl) => {
            proof {
                lemma_view_block(fl.body);
            }
            let body = expand_statements::<F>(&fl.body.statements, env, rt)?;
            let nb = BlockStatement { token: copy_token(&fl.body.token), statements: body };
            proof {
                lemma_view_block(nb);
            }
            Ok(
                Expression::FunctionLiteral(
                    FunctionLiteral {
                        token: copy_token(&fl.token),
                        parameters: copy_idents(&fl.parameters),
                        body: nb,
                    },
                ),
            )
        },
        Expression::ArrayLiteral(al) => {
            let elements = expand_expressions::<F>(&al.elements, env, rt)?;
            Ok(Expression::ArrayLiteral(ArrayLiteral { token: copy_token(&al.token), elements }))
        },
        Expression::HashLiteral(hl) => {
            let pairs = expand_pairs::<F>(&hl.pairs, env, rt)?;
            Ok(Expression::HashLiteral(HashLiteral { token: copy_token(&hl.token), pairs }))
        },
        Expression::Call(ce) => match called_macro_exec(ce, env, rt) {
            Some(m) => expand_call::<F>(&m, &ce.arguments, rt),
            None => Ok(copy_expr(e)),
        },
        _ => Ok(copy_expr(e)),
    }
}

#[verifier::spinoff_prover]
#[verifier::rlimit(60)]
fn expand_if<F: FloatArith>(ie: &IfExpression, env: Env, rt: &mut Runtime) -> (r: Result<
    Expression,
    String,
>)
    ensures
        (result_view(r, |x: Expression| x@), final(rt)@) == expanded_expr::<F>(
            Expression::If(*ie)@,
            env,
            old(rt)@,
        ),
    decreases ie, 0int,
{
    proof {
        lemma_view_block(ie.consequence);
        if ie.alternative is Some {
            lemma_view_block(ie.alternative->Some_0);
        }
    }
    let condition = expand_expression::<F>(&ie.condition, env, rt)?;
    let cs = expand_statements::<F>(&ie.consequence.statements, env, rt)?;
    let consequence = BlockStatement { token: copy_token(&ie.consequence.token), statements: cs };
    proof {
        lemma_view_block(consequence);
    }
    let alternative = match &ie.alternative {
        Some(b) => {
            let bs = expand_statements::<F>(&b.statements, env, rt)?;
            let nb = BlockStatement { token: copy_token(&b.token), statements: bs };
            proof {
                lemma_view_block(nb);
            }
            Some(nb)
        },
        None => None,
    };
    Ok(
        Expression::If(
            IfExpression {
                token: copy_token(&ie.token),
                condition: Box::new(condition),
                consequence,
                alternative,
            },
        ),
    )
}

#[verifier::spinoff_prover]
#[verifier::rlimit(60)]
fn expand_statement<F: FloatArith>(s: &Statement, env: Env, rt: &mut Runtime) -> (r: Result<
    Statement,
    String,
>)
    ensures
        (result_view(r, |x: Statement| x@), final(rt)@) == expanded_stmt::<F>(s@, env, old(rt)@),
    decreases s, 0int,
{
    match s {
        Statement::Expression(es) => {
            let x = expand_expression::<F>(&es.expression, env, rt)?;
            Ok(Statement::Expression(ExpressionStatement { token: copy_token(&es.token), expression: x }))
        },
        Statement::Return(rs) => {
            let x = expand_expression::<F>(&rs.return_value, env, rt)?;
            Ok(Statement::Return(ReturnStatement { token: copy_token(&rs.token), return_value: x }))
        },
        Statement::Let(ls) => {
            let x = expand_expression::<F>(&ls.value, env, rt)?;
            Ok(
                Statement::Let(
                    LetStatement { token: copy_token(&ls.token), name: copy_ident(&ls.name), value: x },
                ),
            )
        },
        Statement::Block(bs) => {
            proof {
                lemma_view_block(*bs);
            }
            let x = expand_statements::<F>(&bs.statements, env, rt)?;
            let nb = BlockStatement { token: copy_token(&bs.token), statements: x };
            proof {
                lemma_view_block(nb);
            }
            Ok(Statement::Block(nb))
        },
    }
}

#[verifier::spinoff_prover]
#[verifier::rlimit(60)]
fn expand_statements<F: FloatArith>(ss: &Vec<Statement>, env: Env, rt: &mut Runtime) -> (r: Result<
    Vec<Statement>,
    String,
>)
    ensures
        (result_view(r, |x: Vec<Statement>| view_stmts(x@)), final(rt)@) == expanded_stmts::<F>(
            view_stmts(ss@),
            0,
            env,
            old(rt)@,
            Seq::empty(),
        ),
    decreases ss, 0int,
{
    let ghost sv = view_stmts(ss@);
    proof {
        lemma_view_stmts(ss@);
    }
    let mut acc: Vec<Statement> = Vec::new();
    proof {
        lemma_view_stmts(acc@);
        assert(view_stmts(acc@) =~= Seq::empty());
    }
    let mut i: usize = 0;
    while i < ss.len()
        invariant
            i <= ss@.len(),
            sv == view_stmts(ss@),
            sv.len() == ss@.len(),
            forall|k: int| 0 <= k < ss@.len() ==> #[trigger] sv[k] == ss@[k]@,
            expanded_stmts::<F>(sv, i as int, env, rt@, view_stmts(acc@)) == expanded_stmts::<F>(
                sv,
                0,
                env,
                old(rt)@,
                Seq::empty(),
            ),
        decreases ss@.len() - i,
    {
        proof {
            assert(decreases_to!(ss => ss@));
            assert(decreases_to!(ss@ => ss@[i as int]));
        }
        let x = expand_statement::<F>(&ss[i], env, rt)?;
        let ghost before = acc@;
        acc.push(x);
        proof {
            lemma_view_stmts(before);
            lemma_view_stmts(acc@);
            assert(view_stmts(acc@) =~= view_stmts(before).push(x@));
        }
        i = i + 1;
    }
    Ok(acc)
}

#[verifier::spinoff_prover]
#[verifier::rlimit(60)]
fn expand_expressions<F: FloatArith>(es: &Vec<Expression>, env: Env, rt: &mut Runtime) -> (r: Result<
    Vec<Expression>,
    String,
>)
    ensures
        (result_view(r, |x: Vec<Expression>| view_exprs(x@)), final(rt)@) == expanded_exprs::<F>(
            view_exprs(es@),
            0,
            env,
            old(rt)@,
            Seq::empty(),
        ),
    decreases es, 0int,
{
    let ghost ev = view_exprs(es@);
    proof {
        lemma_view_exprs(es@);
    }
    let mut acc: Vec<Expression> = Vec::new();
    proof {
        lemma_view_exprs(acc@);
        assert(view_exprs(acc@) =~= Seq::empty());
    }
    let mut i: usize = 0;
    while i < es.len()
        invariant
            i <= es@.len(),
            ev == view_exprs(es@),
            ev.len() == es@.len(),
            forall|k: int| 0 <= k < es@.len() ==> #[trigger] ev[k] == es@[k]@,
            expanded_exprs::<F>(ev, i as int, env, rt@, view_exprs(acc@)) == expanded_exprs::<F>(
                ev,
                0,
                env,
                old(rt)@,
                Seq::empty(),
            ),
        decreases es@.len() - i,
    {
        proof {
            assert(decreases_to!(es => es@));
            assert(decreases_to!(es@ => es@[i as int]));
        }
        let x = expand_expression::<F>(&es[i], env, rt)?;
        let ghost before = acc@;
        acc.push(x);
        proof {
            lemma_view_exprs(before);
            lemma_view_exprs(acc@);
            assert(view_exprs(acc@) =~= view_exprs(before).push(x@));
        }
        i = i + 1;
    }
    Ok(acc)
}

#[verifier::spinoff_prover]
#[verifier::rlimit(60)]
fn expand_pairs<F: FloatArith>(ps: &Vec<(Expression, Expression)>, env: Env, rt: &mut Runtime) -> (r:
    Result<Vec<(Expression, Expression)>, String>)
    ensures
        (result_view(r, |x: Vec<(Expression, Expression)>| view_pairs(x@)), final(rt)@)
            == expanded_pairs::<F>(view_pairs(ps@), 0, env, old(rt)@, Seq::empty()),
    decreases ps, 0int,
{
    let ghost pv = view_pairs(ps@);
    proof {
        lemma_view_pairs(ps@);
    }
    let mut acc: Vec<(Expression, Expression)> = Vec::new();
    proof {
        lemma_view_pairs(acc@);
        assert(view_pairs(acc@) =~= Seq::empty());
    }
    let mut i: usize = 0;
    while i < ps.len()
        invariant
            i <= ps@.len(),
            pv == view_pairs(ps@),
            pv.len() == ps@.len(),
            forall|k: int| 0 <= k < ps@.len() ==> #[trigger] pv[k] == (ps@[k].0@, ps@[k].1@),
            expanded_pairs::<F>(pv, i as int, env, rt@, view_pairs(acc@)) == expanded_pairs::<F>(
                pv,
                0,
                env,
                old(rt)@,
                Seq::empty(),
            ),
        decreases ps@.len() - i,
    {
        proof {
            assert(decreases_to!(ps => ps@));
            assert(decreases_to!(ps@ => ps@[i as int]));
            assert(decreases_to!(ps@[i as int] => ps@[i as int].0));
            assert(decreases_to!(ps@[i as int] => ps@[i as int].1));
        }
        let k = expand_expression::<F>(&ps[i].0, env, rt)?;
        let v = expand_expression::<F>(&ps[i].1, env, rt)?;
        let ghost before = acc@;
        let ghost kv = k@;
        let ghost vv = v@;
        acc.push((k, v));
        proof {
            lemma_view_pairs(before);
            lemma_view_pairs(acc@);
            assert(view_pairs(acc@) =~= view_pairs(before).push((kv, vv)));
        }
        i = i + 1;
    }
    Ok(acc)
}

/// Expands every macro call in a node, with the macros bound in `env`.
/// A macro whose body does not give a quoted expression is an error.
pub fn expand_macros<F: FloatArith>(program: Node, env: Env, rt: &mut Runtime) -> (r: Result<
    Node,
    String,
>)
    ensures
        (result_view(r, |x: Node| x@), final(rt)@) == expanded_node::<F>(program@, env, old(rt)@),
{
    match program {
        Node::Program(p) => {
            let ss = expand_statements::<F>(&p.statements, env, rt)?;
            Ok(Node::Program(Program { statements: ss }))
        },
        Node::Statement(s) => {
            let x = expand_statement::<F>(&s, env, rt)?;
            Ok(Node::Statement(x))
        },
        Node::Expression(e) => {
            let x = expand_expression::<F>(&e, env, rt)?;
            Ok(Node::Expression(x))
        },
    }
}

} // verus!
