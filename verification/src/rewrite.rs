//! Rewriting a tree bottom-up: each node's children are rewritten first, then
//! the node itself is handed to a modifier function. Calls and macro
//! literals are handed over whole, their insides untouched.

use vstd::prelude::*;
use crate::ast::{
    ArrayLiteral, BlockStatement, Boolean, Expression, ExpressionStatement, FunctionLiteral, HashLiteral,
    Ident, IfExpression, IndexExpression, InfixExpression, LetStatement, Node, PrefixExpression,
    Program, ReturnStatement, Statement, lemma_view_exprs, lemma_view_pairs, lemma_view_stmts,
    view_block, view_expr, view_idents, view_node, view_stmt,
};
use crate::token::{Token, TokenType};

verus! {

/// Whether a modifier gives back a node of the kind it was given, as the
/// place the node comes from needs: a statement for a statement, an
/// expression for an expression.
pub open spec fn keeps_kinds<F: Fn(Node) -> Node>(f: F) -> bool {
    forall|n: Node, r: Node|
        #[trigger] call_ensures(f, (n,), r) ==> match n {
            Node::Program(_) => true,
            Node::Statement(_) => r is Statement,
            Node::Expression(_) => r is Expression,
        }
}

/// Whether the modifier, handed parameter `p` of a function literal as an
/// identifier expression, gives back an identifier.
pub open spec fn keeps_name<F: Fn(Node) -> Node>(f: F, p: Ident) -> bool {
    forall|r: Node|
        #[trigger] call_ensures(f, (Node::Expression(Expression::Ident(p)),), r) ==> r matches Node::Expression(
            Expression::Ident(_),
        )
}

/// Whether the modifier, handed body `b` of an `if` or a function literal
/// with the body's statements rewritten, gives back a block.
pub open spec fn keeps_body<F: Fn(Node) -> Node>(f: F, b: BlockStatement) -> bool {
    forall|x: BlockStatement, r: Node|
        block_children_rewritten(f, b, x) && #[trigger] call_ensures(
            f,
            (Node::Statement(Statement::Block(x)),),
            r,
        ) ==> r matches Node::Statement(Statement::Block(_))
}

pub open spec fn params_keep_names<F: Fn(Node) -> Node>(f: F, ps: Seq<Ident>) -> bool {
    forall|k: int| 0 <= k < ps.len() ==> keeps_name(f, #[trigger] ps[k])
}

/// Whether the modifier keeps every parameter of the function literals in
/// `e` an identifier, and every body of an `if` or a function literal in `e`
/// a block.
pub open spec fn expr_keeps_names<F: Fn(Node) -> Node>(f: F, e: Expression) -> bool
    decreases e, 0int,
{
    match e {
        Expression::Prefix(a) => expr_keeps_names(f, *a.right),
        Expression::Infix(a) => expr_keeps_names(f, *a.left) && expr_keeps_names(f, *a.right),
        Expression::Index(a) => expr_keeps_names(f, *a.left) && expr_keeps_names(f, *a.index),
        Expression::If(a) => expr_keeps_names(f, *a.condition) && block_keeps_names(
            f,
            a.consequence,
        ) && keeps_body(f, a.consequence) && match a.alternative {
            Some(b) => block_keeps_names(f, b) && keeps_body(f, b),
            None => true,
        },
        Expression::FunctionLiteral(a) => params_keep_names(f, a.parameters@) && block_keeps_names(
            f,
            a.body,
        ) && keeps_body(f, a.body),
        Expression::ArrayLiteral(a) => exprs_keep_names(f, a.elements@, 0),
        Expression::HashLiteral(a) => pairs_keep_names(f, a.pairs@, 0),
        _ => true,
    }
}

pub open spec fn block_keeps_names<F: Fn(Node) -> Node>(f: F, b: BlockStatement) -> bool
    decreases b, 0int,
{
    stmts_keep_names(f, b.statements@, 0)
}

pub open spec fn stmt_keeps_names<F: Fn(Node) -> Node>(f: F, s: Statement) -> bool
    decreases s, 0int,
{
    match s {
        Statement::Expression(a) => expr_keeps_names(f, a.expression),
        Statement::Return(a) => expr_keeps_names(f, a.return_value),
        Statement::Let(a) => expr_keeps_names(f, a.value),
        Statement::Block(a) => stmts_keep_names(f, a.statements@, 0),
    }
}

pub open spec fn stmts_keep_names<F: Fn(Node) -> Node>(f: F, ss: Seq<Statement>, i: int) -> bool
    decreases ss, ss.len() - i,
{
    if 0 <= i < ss.len() {
        stmt_keeps_names(f, ss[i]) && stmts_keep_names(f, ss, i + 1)
    } else {
        true
    }
}

pub open spec fn exprs_keep_names<F: Fn(Node) -> Node>(f: F, es: Seq<Expression>, i: int) -> bool
    decreases es, es.len() - i,
{
    if 0 <= i < es.len() {
        expr_keeps_names(f, es[i]) && exprs_keep_names(f, es, i + 1)
    } else {
        true
    }
}

pub open spec fn pairs_keep_names<F: Fn(Node) -> Node>(
    f: F,
    ps: Seq<(Expression, Expression)>,
    i: int,
) -> bool
    decreases ps, ps.len() - i,
{
    if 0 <= i < ps.len() {
        expr_keeps_names(f, ps[i].0) && expr_keeps_names(f, ps[i].1) && pairs_keep_names(
            f,
            ps,
            i + 1,
        )
    } else {
        true
    }
}

/// Whether the modifier keeps every parameter of the function literals in
/// `n` an identifier.
pub open spec fn node_keeps_names<F: Fn(Node) -> Node>(f: F, n: Node) -> bool {
    match n {
        Node::Program(p) => stmts_keep_names(f, p.statements@, 0),
        Node::Statement(s) => stmt_keeps_names(f, s),
        Node::Expression(e) => expr_keeps_names(f, e),
    }
}

/// Whether `r` is a possible rewrite of expression `e`: its children
/// rewritten (giving `x`), then `x` handed to `f`.
pub open spec fn expr_rewritten<F: Fn(Node) -> Node>(f: F, e: Expression, r: Expression) -> bool
    decreases e, 1int,
{
    exists|x: Expression|
        expr_children_rewritten(f, e, x) && #[trigger] call_ensures(
            f,
            (Node::Expression(x),),
            Node::Expression(r),
        )
}

/// Whether `x` is `e` with its children rewritten.
pub open spec fn expr_children_rewritten<F: Fn(Node) -> Node>(
    f: F,
    e: Expression,
    x: Expression,
) -> bool
    decreases e, 0int,
{
    match (e, x) {
        (Expression::Prefix(a), Expression::Prefix(b)) => a.token == b.token && a.operator
            == b.operator && expr_rewritten(f, *a.right, *b.right),
        (Expression::Infix(a), Expression::Infix(b)) => a.token == b.token && a.operator
            == b.operator && expr_rewritten(f, *a.left, *b.left) && expr_rewritten(
            f,
            *a.right,
            *b.right,
        ),
        (Expression::Index(a), Expression::Index(b)) => a.token == b.token && expr_rewritten(
            f,
            *a.left,
            *b.left,
        ) && expr_rewritten(f, *a.index, *b.index),
        (Expression::If(a), Expression::If(b)) => a.token == b.token && expr_rewritten(
            f,
            *a.condition,
            *b.condition,
        ) && block_rewritten(f, a.consequence, b.consequence) && match (a.alternative, b.alternative) {
            (Some(p), Some(q)) => block_rewritten(f, p, q),
            (None, None) => true,
            _ => false,
        },
        (Expression::FunctionLiteral(a), Expression::FunctionLiteral(b)) => a.token == b.token
            && params_rewritten(f, a.parameters@, b.parameters@, 0) && block_rewritten(
            f,
            a.body,
            b.body,
        ),
        (Expression::ArrayLiteral(a), Expression::ArrayLiteral(b)) => a.token == b.token
            && exprs_rewritten(f, a.elements@, b.elements@, 0),
        (Expression::HashLiteral(a), Expression::HashLiteral(b)) => a.token == b.token
            && pairs_rewritten(f, a.pairs@, b.pairs@, 0),
        (Expression::Prefix(_), _) => false,
        (Expression::Infix(_), _) => false,
        (Expression::Index(_), _) => false,
        (Expression::If(_), _) => false,
        (Expression::FunctionLiteral(_), _) => false,
        (Expression::ArrayLiteral(_), _) => false,
        (Expression::HashLiteral(_), _) => false,
        _ => x == e,
    }
}

/// Whether block `c` is block `b` rewritten: its statements rewritten, then
/// the block statement handed to `f`.
pub open spec fn block_rewritten<F: Fn(Node) -> Node>(
    f: F,
    b: BlockStatement,
    c: BlockStatement,
) -> bool
    decreases b, 1int,
{
    exists|x: BlockStatement|
        block_children_rewritten(f, b, x) && #[trigger] call_ensures(
            f,
            (Node::Statement(Statement::Block(x)),),
            Node::Statement(Statement::Block(c)),
        )
}

pub open spec fn block_children_rewritten<F: Fn(Node) -> Node>(
    f: F,
    b: BlockStatement,
    x: BlockStatement,
) -> bool
    decreases b, 0int,
{
    x.token == b.token && stmts_rewritten(f, b.statements@, x.statements@, 0)
}

/// Whether `r` is a possible rewrite of statement `s`.
pub open spec fn stmt_rewritten<F: Fn(Node) -> Node>(f: F, s: Statement, r: Statement) -> bool
    decreases s, 1int,
{
    exists|x: Statement|
        stmt_children_rewritten(f, s, x) && #[trigger] call_ensures(
            f,
            (Node::Statement(x),),
            Node::Statement(r),
        )
}

pub open spec fn stmt_children_rewritten<F: Fn(Node) -> Node>(
    f: F,
    s: Statement,
    x: Statement,
) -> bool
    decreases s, 0int,
{
    match (s, x) {
        (Statement::Expression(a), Statement::Expression(b)) => a.token == b.token
            && expr_rewritten(f, a.expression, b.expression),
        (Statement::Return(a), Statement::Return(b)) => a.token == b.token && expr_rewritten(
            f,
            a.return_value,
            b.return_value,
        ),
        (Statement::Let(a), Statement::Let(b)) => a.token == b.token && a.name == b.name
            && expr_rewritten(f, a.value, b.value),
        (Statement::Block(a), Statement::Block(b)) => a.token == b.token && stmts_rewritten(
            f,
            a.statements@,
            b.statements@,
            0,
        ),
        _ => false,
    }
}

pub open spec fn stmts_rewritten<F: Fn(Node) -> Node>(
    f: F,
    ss: Seq<Statement>,
    rs: Seq<Statement>,
    i: int,
) -> bool
    decreases ss, ss.len() - i,
{
    if 0 <= i < ss.len() {
        rs.len() == ss.len() && stmt_rewritten(f, ss[i], rs[i]) && stmts_rewritten(f, ss, rs, i + 1)
    } else {
        rs.len() == ss.len()
    }
}

pub open spec fn exprs_rewritten<F: Fn(Node) -> Node>(
    f: F,
    es: Seq<Expression>,
    rs: Seq<Expression>,
    i: int,
) -> bool
    decreases es, es.len() - i,
{
    if 0 <= i < es.len() {
        rs.len() == es.len() && expr_rewritten(f, es[i], rs[i]) && exprs_rewritten(f, es, rs, i + 1)
    } else {
        rs.len() == es.len()
    }
}

pub open spec fn pairs_rewritten<F: Fn(Node) -> Node>(
    f: F,
    ps: Seq<(Expression, Expression)>,
    rs: Seq<(Expression, Expression)>,
    i: int,
) -> bool
    decreases ps, ps.len() - i,
{
    if 0 <= i < ps.len() {
        rs.len() == ps.len() && expr_rewritten(f, ps[i].0, rs[i].0) && expr_rewritten(
            f,
            ps[i].1,
            rs[i].1,
        ) && pairs_rewritten(f, ps, rs, i + 1)
    } else {
        rs.len() == ps.len()
    }
}

/// Parameters are rewritten one by one, each as an identifier expression.
pub open spec fn params_rewritten<F: Fn(Node) -> Node>(
    f: F,
    ps: Seq<Ident>,
    rs: Seq<Ident>,
    i: int,
) -> bool
    decreases ps.len() - i,
{
    if 0 <= i < ps.len() {
        rs.len() == ps.len() && call_ensures(
            f,
            (Node::Expression(Expression::Ident(ps[i])),),
            Node::Expression(Expression::Ident(rs[i])),
        ) && params_rewritten(f, ps, rs, i + 1)
    } else {
        rs.len() == ps.len()
    }
}

/// Whether `r` is a possible rewrite of node `n`.
pub open spec fn node_rewritten<F: Fn(Node) -> Node>(f: F, n: Node, r: Node) -> bool {
    match n {
        Node::Program(p) => exists|q: Program|
            stmts_rewritten(f, p.statements@, #[trigger] q.statements@, 0) && call_ensures(
                f,
                (Node::Program(q),),
                r,
            ),
        Node::Statement(s) => r matches Node::Statement(t) && stmt_rewritten(f, s, t),
        Node::Expression(e) => r matches Node::Expression(x) && expr_rewritten(f, e, x),
    }
}

fn modify_expression<F: Fn(Node) -> Node>(e: Expression, modifier: &F) -> (r: Expression)
    requires
        forall|n: Node| call_requires(*modifier, (n,)),
        keeps_kinds(*modifier),
        expr_keeps_names(*modifier, e),
    ensures
        expr_rewritten(*modifier, e, r),
    decreases e,
{
    let ghost e0 = e;
    let x = match e {
        Expression::Prefix(pe) => {
            let right = modify_expression(*pe.right, modifier);
            Expression::Prefix(
                PrefixExpression { token: pe.token, operator: pe.operator, right: Box::new(right) },
            )
        },
        Expression::Infix(ie) => {
            let left = modify_expression(*ie.left, modifier);
            let right = modify_expression(*ie.right, modifier);
            Expression::Infix(
                InfixExpression {
                    token: ie.token,
                    left: Box::new(left),
                    operator: ie.operator,
                    right: Box::new(right),
                },
            )
        },
        Expression::Index(ix) => {
            let left = modify_expression(*ix.left, modifier);
            let index = modify_expression(*ix.index, modifier);
            Expression::Index(
                IndexExpression { token: ix.token, left: Box::new(left), index: Box::new(index) },
            )
        },
        Expression::If(ie) => {
            let condition = modify_expression(*ie.condition, modifier);
            let consequence = modify_block(ie.consequence, modifier);
            let alternative = match ie.alternative {
                Some(b) => Some(modify_block(b, modifier)),
                None => None,
            };
            Expression::If(
                IfExpression { token: ie.token, condition: Box::new(condition), consequence, alternative },
            )
        },
        Expression::FunctionLiteral(fl) => {
            let parameters = modify_params(fl.parameters, modifier);
            let body = modify_block(fl.body, modifier);
            Expression::FunctionLiteral(FunctionLiteral { token: fl.token, parameters, body })
        },
        Expression::ArrayLiteral(al) => {
            let elements = modify_expressions(al.elements, modifier);
            Expression::ArrayLiteral(ArrayLiteral { token: al.token, elements })
        },
        Expression::HashLiteral(hl) => {
            let pairs = modify_pairs(hl.pairs, modifier);
            Expression::HashLiteral(HashLiteral { token: hl.token, pairs })
        },
        other => other,
    };
    assert(expr_children_rewritten(*modifier, e0, x));
    let ghost xg = x;
    let r = modifier(Node::Expression(x));
    assert(call_ensures(*modifier, (Node::Expression(xg),), r));
    match r {
        Node::Expression(y) => {
            assert(expr_children_rewritten(*modifier, e0, xg) && call_ensures(
                *modifier,
                (Node::Expression(xg),),
                Node::Expression(y),
            ));
            assert(expr_rewritten(*modifier, e0, y)) by {
                reveal_with_fuel(expr_rewritten, 2);
            }
            y
        },
        _ => {
            assert(false);
            Expression::Boolean(Boolean { token: Token::new(TokenType::Illegal, ""), value: false })
        },
    }
}

fn modify_block<F: Fn(Node) -> Node>(b: BlockStatement, modifier: &F) -> (r: BlockStatement)
    requires
        forall|n: Node| call_requires(*modifier, (n,)),
        keeps_kinds(*modifier),
        block_keeps_names(*modifier, b),
        keeps_body(*modifier, b),
    ensures
        block_rewritten(*modifier, b, r),
    decreases b,
{
    let ghost b0 = b;
    let statements = modify_statements(b.statements, modifier);
    let x = BlockStatement { token: b.token, statements };
    assert(block_children_rewritten(*modifier, b0, x));
    let ghost xg = x;
    let r = modifier(Node::Statement(Statement::Block(x)));
    assert(call_ensures(*modifier, (Node::Statement(Statement::Block(xg)),), r));
    match r {
        Node::Statement(Statement::Block(c)) => c,
        _ => {
            assert(false);
            BlockStatement { token: Token::new(TokenType::Illegal, ""), statements: Vec::new() }
        },
    }
}

fn modify_statement<F: Fn(Node) -> Node>(s: Statement, modifier: &F) -> (r: Statement)
    requires
        forall|n: Node| call_requires(*modifier, (n,)),
        keeps_kinds(*modifier),
        stmt_keeps_names(*modifier, s),
    ensures
        stmt_rewritten(*modifier, s, r),
    decreases s,
{
    let ghost s0 = s;
    let x = match s {
        Statement::Expression(es) => {
            let expression = modify_expression(es.expression, modifier);
            Statement::Expression(ExpressionStatement { token: es.token, expression })
        },
        Statement::Return(rs) => {
            let return_value = modify_expression(rs.return_value, modifier);
            Statement::Return(ReturnStatement { token: rs.token, return_value })
        },
        Statement::Let(ls) => {
            let value = modify_expression(ls.value, modifier);
            Statement::Let(LetStatement { token: ls.token, name: ls.name, value })
        },
        Statement::Block(bs) => {
            let statements = modify_statements(bs.statements, modifier);
            Statement::Block(BlockStatement { token: bs.token, statements })
        },
    };
    assert(stmt_children_rewritten(*modifier, s0, x));
    let ghost xg = x;
    let r = modifier(Node::Statement(x));
    assert(call_ensures(*modifier, (Node::Statement(xg),), r));
    match r {
        Node::Statement(t) => t,
        _ => {
            assert(false);
            Statement::Block(BlockStatement { token: Token::new(TokenType::Illegal, ""), statements: Vec::new() })
        },
    }
}

#[verifier::loop_isolation(false)]
fn modify_statements<F: Fn(Node) -> Node>(ss: Vec<Statement>, modifier: &F) -> (r: Vec<Statement>)
    requires
        forall|n: Node| call_requires(*modifier, (n,)),
        keeps_kinds(*modifier),
        stmts_keep_names(*modifier, ss@, 0),
    ensures
        stmts_rewritten(*modifier, ss@, r@, 0),
    decreases ss,
{
    let ghost whole = ss;
    let ghost orig = ss@;
    let mut rest = ss;
    let mut out: Vec<Statement> = Vec::new();
    while rest.len() > 0
        invariant
            out@.len() + rest@.len() == orig.len(),
            rest@ == orig.subrange(out@.len() as int, orig.len() as int),
            orig == whole@,
            forall|k: int| 0 <= k < out@.len() ==> stmt_rewritten(*modifier, orig[k], #[trigger] out@[k]),
            forall|n: Node| call_requires(*modifier, (n,)),
            keeps_kinds(*modifier),
            stmts_keep_names(*modifier, orig, out@.len() as int),
        decreases rest@.len(),
    {
        let s = rest.remove(0);
        proof {
            assert(s == whole@[out@.len() as int]);
            assert(decreases_to!(whole => whole@));
            assert(decreases_to!(whole@ => whole@[out@.len() as int]));
        }
        let t = modify_statement(s, modifier);
        out.push(t);
        assert(rest@ =~= orig.subrange(out@.len() as int, orig.len() as int));
    }
    proof {
        lemma_stmts_rewritten(*modifier, orig, out@, 0);
    }
    out
}

proof fn lemma_stmts_rewritten<F: Fn(Node) -> Node>(
    f: F,
    ss: Seq<Statement>,
    rs: Seq<Statement>,
    i: int,
)
    requires
        0 <= i <= ss.len(),
        rs.len() == ss.len(),
        forall|k: int| 0 <= k < ss.len() ==> stmt_rewritten(f, ss[k], #[trigger] rs[k]),
    ensures
        stmts_rewritten(f, ss, rs, i),
    decreases ss.len() - i,
{
    if i < ss.len() {
        lemma_stmts_rewritten(f, ss, rs, i + 1);
    }
}

#[verifier::loop_isolation(false)]
fn modify_expressions<F: Fn(Node) -> Node>(es: Vec<Expression>, modifier: &F) -> (r: Vec<Expression>)
    requires
        forall|n: Node| call_requires(*modifier, (n,)),
        keeps_kinds(*modifier),
        exprs_keep_names(*modifier, es@, 0),
    ensures
        exprs_rewritten(*modifier, es@, r@, 0),
    decreases es,
{
    let ghost whole = es;
    let ghost orig = es@;
    let mut rest = es;
    let mut out: Vec<Expression> = Vec::new();
    while rest.len() > 0
        invariant
            out@.len() + rest@.len() == orig.len(),
            rest@ == orig.subrange(out@.len() as int, orig.len() as int),
            orig == whole@,
            forall|k: int| 0 <= k < out@.len() ==> expr_rewritten(*modifier, orig[k], #[trigger] out@[k]),
            forall|n: Node| call_requires(*modifier, (n,)),
            keeps_kinds(*modifier),
            exprs_keep_names(*modifier, orig, out@.len() as int),
        decreases rest@.len(),
    {
        let e = rest.remove(0);
        proof {
            assert(e == whole@[out@.len() as int]);
            assert(decreases_to!(whole => whole@));
            assert(decreases_to!(whole@ => whole@[out@.len() as int]));
        }
        let t = modify_expression(e, modifier);
        out.push(t);
        assert(rest@ =~= orig.subrange(out@.len() as int, orig.len() as int));
    }
    proof {
        lemma_exprs_rewritten(*modifier, orig, out@, 0);
    }
    out
}

proof fn lemma_exprs_rewritten<F: Fn(Node) -> Node>(
    f: F,
    es: Seq<Expression>,
    rs: Seq<Expression>,
    i: int,
)
    requires
        0 <= i <= es.len(),
        rs.len() == es.len(),
        forall|k: int| 0 <= k < es.len() ==> expr_rewritten(f, es[k], #[trigger] rs[k]),
    ensures
        exprs_rewritten(f, es, rs, i),
    decreases es.len() - i,
{
    if i < es.len() {
        lemma_exprs_rewritten(f, es, rs, i + 1);
    }
}

#[verifier::loop_isolation(false)]
fn modify_pairs<F: Fn(Node) -> Node>(
    ps: Vec<(Expression, Expression)>,
    modifier: &F,
) -> (r: Vec<(Expression, Expression)>)
    requires
        forall|n: Node| call_requires(*modifier, (n,)),
        keeps_kinds(*modifier),
        pairs_keep_names(*modifier, ps@, 0),
    ensures
        pairs_rewritten(*modifier, ps@, r@, 0),
    decreases ps,
{
    let ghost whole = ps;
    let ghost orig = ps@;
    let mut rest = ps;
    let mut out: Vec<(Expression, Expression)> = Vec::new();
    while rest.len() > 0
        invariant
            out@.len() + rest@.len() == orig.len(),
            rest@ == orig.subrange(out@.len() as int, orig.len() as int),
            orig == whole@,
            forall|k: int|
                0 <= k < out@.len() ==> expr_rewritten(*modifier, orig[k].0, (#[trigger] out@[k]).0)
                    && expr_rewritten(*modifier, orig[k].1, out@[k].1),
            forall|n: Node| call_requires(*modifier, (n,)),
            keeps_kinds(*modifier),
            pairs_keep_names(*modifier, orig, out@.len() as int),
        decreases rest@.len(),
    {
        let (k, v) = rest.remove(0);
        proof {
            assert((k, v) == whole@[out@.len() as int]);
            assert(decreases_to!(whole => whole@));
            assert(decreases_to!(whole@ => whole@[out@.len() as int]));
            assert(decreases_to!(whole@[out@.len() as int] => whole@[out@.len() as int].0));
            assert(decreases_to!(whole@[out@.len() as int] => whole@[out@.len() as int].1));
        }
        let nk = modify_expression(k, modifier);
        let nv = modify_expression(v, modifier);
        out.push((nk, nv));
        assert(rest@ =~= orig.subrange(out@.len() as int, orig.len() as int));
    }
    proof {
        lemma_pairs_rewritten(*modifier, orig, out@, 0);
    }
    out
}

proof fn lemma_pairs_rewritten<F: Fn(Node) -> Node>(
    f: F,
    ps: Seq<(Expression, Expression)>,
    rs: Seq<(Expression, Expression)>,
    i: int,
)
    requires
        0 <= i <= ps.len(),
        rs.len() == ps.len(),
        forall|k: int|
            0 <= k < ps.len() ==> expr_rewritten(f, ps[k].0, (#[trigger] rs[k]).0) && expr_rewritten(
                f,
                ps[k].1,
                rs[k].1,
            ),
    ensures
        pairs_rewritten(f, ps, rs, i),
    decreases ps.len() - i,
{
    if i < ps.len() {
        lemma_pairs_rewritten(f, ps, rs, i + 1);
    }
}

fn modify_params<F: Fn(Node) -> Node>(ps: Vec<Ident>, modifier: &F) -> (r: Vec<Ident>)
    requires
        forall|n: Node| call_requires(*modifier, (n,)),
        keeps_kinds(*modifier),
        params_keep_names(*modifier, ps@),
    ensures
        params_rewritten(*modifier, ps@, r@, 0),
{
    let ghost whole = ps;
    let ghost orig = ps@;
    let mut rest = ps;
    let mut out: Vec<Ident> = Vec::new();
    while rest.len() > 0
        invariant
            out@.len() + rest@.len() == orig.len(),
            rest@ == orig.subrange(out@.len() as int, orig.len() as int),
            orig == whole@,
            forall|k: int|
                0 <= k < out@.len() ==> call_ensures(
                    *modifier,
                    (Node::Expression(Expression::Ident(orig[k])),),
                    Node::Expression(Expression::Ident(#[trigger] out@[k])),
                ),
            forall|n: Node| call_requires(*modifier, (n,)),
            keeps_kinds(*modifier),
            params_keep_names(*modifier, orig),
        decreases rest@.len(),
    {
        let p = rest.remove(0);
        let r = modifier(Node::Expression(Expression::Ident(p)));
        let q = match r {
            Node::Expression(Expression::Ident(q)) => q,
            _ => {
                assert(false);
                Ident { token: Token::new(TokenType::Illegal, ""), value: String::new() }
            },
        };
        out.push(q);
        assert(rest@ =~= orig.subrange(out@.len() as int, orig.len() as int));
    }
    proof {
        lemma_params_rewritten(*modifier, orig, out@, 0);
    }
    out
}

proof fn lemma_params_rewritten<F: Fn(Node) -> Node>(f: F, ps: Seq<Ident>, rs: Seq<Ident>, i: int)
    requires
        0 <= i <= ps.len(),
        rs.len() == ps.len(),
        forall|k: int|
            0 <= k < ps.len() ==> call_ensures(
                f,
                (Node::Expression(Expression::Ident(ps[k])),),
                Node::Expression(Expression::Ident(#[trigger] rs[k])),
            ),
    ensures
        params_rewritten(f, ps, rs, i),
    decreases ps.len() - i,
{
    if i < ps.len() {
        lemma_params_rewritten(f, ps, rs, i + 1);
    }
}

/// Rewrites a node bottom-up with `modifier`: the children first, then the
/// node itself. The modifier must give back a node of the kind it is given
/// (a statement for a statement, an expression for an expression, a block
/// for each body of an `if` or a function literal in `node`, and an
/// identifier for each parameter of a function literal in `node`); what it
/// gives for the node itself is the result.
pub fn modify<F: Fn(Node) -> Node>(node: Node, modifier: &F) -> (r: Node)
    requires
        forall|n: Node| call_requires(*modifier, (n,)),
        keeps_kinds(*modifier),
        node_keeps_names(*modifier, node),
    ensures
        node_rewritten(*modifier, node, r),
{
    match node {
        Node::Program(p) => {
            let statements = modify_statements(p.statements, modifier);
            let q = Program { statements };
            let r = modifier(Node::Program(q));
            assert(stmts_rewritten(*modifier, node->Program_0.statements@, q.statements@, 0));
            r
        },
        Node::Statement(s) => Node::Statement(modify_statement(s, modifier)),
        Node::Expression(e) => Node::Expression(modify_expression(e, modifier)),
    }
}

// ---------------------------------------------------------------------------
// Rewriting with the identity
// ---------------------------------------------------------------------------

/// Whether the modifier gives back exactly the node it is given.
pub open spec fn is_identity<F: Fn(Node) -> Node>(f: F) -> bool {
    forall|n: Node, r: Node| #[trigger] call_ensures(f, (n,), r) ==> r == n
}

proof fn lemma_identity_expr<F: Fn(Node) -> Node>(f: F, e: Expression, r: Expression)
    requires
        is_identity(f),
        expr_rewritten(f, e, r),
    ensures
        view_expr(r) == view_expr(e),
    decreases e, 1int,
{
    let x = choose|x: Expression|
        expr_children_rewritten(f, e, x) && #[trigger] call_ensures(
            f,
            (Node::Expression(x),),
            Node::Expression(r),
        );
    lemma_identity_children(f, e, x);
}

proof fn lemma_identity_children<F: Fn(Node) -> Node>(f: F, e: Expression, x: Expression)
    requires
        is_identity(f),
        expr_children_rewritten(f, e, x),
    ensures
        view_expr(x) == view_expr(e),
    decreases e, 0int,
{
    match e {
        Expression::Prefix(a) => {
            let b = x->Prefix_0;
            lemma_identity_expr(f, *a.right, *b.right);
        },
        Expression::Infix(a) => {
            let b = x->Infix_0;
            lemma_identity_expr(f, *a.left, *b.left);
            lemma_identity_expr(f, *a.right, *b.right);
        },
        Expression::Index(a) => {
            let b = x->Index_0;
            lemma_identity_expr(f, *a.left, *b.left);
            lemma_identity_expr(f, *a.index, *b.index);
        },
        Expression::If(a) => {
            let b = x->If_0;
            lemma_identity_expr(f, *a.condition, *b.condition);
            lemma_identity_block(f, a.consequence, b.consequence);
            match (a.alternative, b.alternative) {
                (Some(p), Some(q)) => {
                    lemma_identity_block(f, p, q);
                },
                _ => {},
            }
        },
        Expression::FunctionLiteral(a) => {
            let b = x->FunctionLiteral_0;
            lemma_identity_params(f, a.parameters@, b.parameters@, 0);
            lemma_identity_block(f, a.body, b.body);
            assert(view_idents(b.parameters@) =~= view_idents(a.parameters@));
        },
        Expression::ArrayLiteral(a) => {
            let b = x->ArrayLiteral_0;
            lemma_identity_exprs(f, a.elements@, b.elements@, 0);
            lemma_view_exprs(a.elements@);
            lemma_view_exprs(b.elements@);
            assert(crate::ast::view_exprs(b.elements@) =~= crate::ast::view_exprs(a.elements@));
        },
        Expression::HashLiteral(a) => {
            let b = x->HashLiteral_0;
            lemma_identity_pairs(f, a.pairs@, b.pairs@, 0);
            lemma_view_pairs(a.pairs@);
            lemma_view_pairs(b.pairs@);
            assert(crate::ast::view_pairs(b.pairs@) =~= crate::ast::view_pairs(a.pairs@));
        },
        _ => {},
    }
}

proof fn lemma_identity_block<F: Fn(Node) -> Node>(f: F, b: BlockStatement, c: BlockStatement)
    requires
        is_identity(f),
        block_rewritten(f, b, c),
    ensures
        view_block(c) == view_block(b),
    decreases b, 1int,
{
    let x = choose|x: BlockStatement|
        block_children_rewritten(f, b, x) && #[trigger] call_ensures(
            f,
            (Node::Statement(Statement::Block(x)),),
            Node::Statement(Statement::Block(c)),
        );
    lemma_identity_stmts(f, b.statements@, x.statements@, 0);
    reveal(same_stmt);
    lemma_view_stmts(b.statements@);
    lemma_view_stmts(x.statements@);
    assert(crate::ast::view_stmts(x.statements@) =~= crate::ast::view_stmts(b.statements@));
}

proof fn lemma_identity_stmt<F: Fn(Node) -> Node>(f: F, s: Statement, r: Statement)
    requires
        is_identity(f),
        stmt_rewritten(f, s, r),
    ensures
        view_stmt(r) == view_stmt(s),
        same_stmt(r, s),
    decreases s, 1int,
{
    reveal(same_stmt);
    let x = choose|x: Statement|
        stmt_children_rewritten(f, s, x) && #[trigger] call_ensures(
            f,
            (Node::Statement(x),),
            Node::Statement(r),
        );
    match s {
        Statement::Expression(a) => {
            let b = x->Expression_0;
            lemma_identity_expr(f, a.expression, b.expression);
        },
        Statement::Return(a) => {
            let b = x->Return_0;
            lemma_identity_expr(f, a.return_value, b.return_value);
        },
        Statement::Let(a) => {
            let b = x->Let_0;
            lemma_identity_expr(f, a.value, b.value);
        },
        Statement::Block(a) => {
            let b = x->Block_0;
            lemma_identity_stmts(f, a.statements@, b.statements@, 0);
            reveal(same_stmt);
            lemma_view_stmts(a.statements@);
            lemma_view_stmts(b.statements@);
            assert(crate::ast::view_stmts(b.statements@) =~= crate::ast::view_stmts(a.statements@));
        },
    }
}

proof fn lemma_stmts_step<F: Fn(Node) -> Node>(
    f: F,
    ss: Seq<Statement>,
    rs: Seq<Statement>,
    i: int,
)
    requires
        0 <= i < ss.len(),
        stmts_rewritten(f, ss, rs, i),
    ensures
        rs.len() == ss.len(),
        stmt_rewritten(f, ss[i], rs[i]),
        stmts_rewritten(f, ss, rs, i + 1),
{
}

proof fn lemma_stmts_end<F: Fn(Node) -> Node>(
    f: F,
    ss: Seq<Statement>,
    rs: Seq<Statement>,
    i: int,
)
    requires
        ss.len() <= i,
        stmts_rewritten(f, ss, rs, i),
    ensures
        rs.len() == ss.len(),
{
}

/// Whether two statements read the same.
#[verifier::opaque]
pub open spec fn same_stmt(a: Statement, b: Statement) -> bool {
    view_stmt(a) == view_stmt(b)
}

proof fn lemma_identity_stmts<F: Fn(Node) -> Node>(
    f: F,
    ss: Seq<Statement>,
    rs: Seq<Statement>,
    i: int,
)
    requires
        is_identity(f),
        0 <= i,
        stmts_rewritten(f, ss, rs, i),
    ensures
        rs.len() == ss.len(),
        forall|k: int| i <= k < ss.len() ==> same_stmt(#[trigger] rs[k], ss[k]),
    decreases ss, ss.len() - i,
{
    if i < ss.len() {
        lemma_stmts_step(f, ss, rs, i);
        assert(decreases_to!(ss => ss[i]));
        lemma_identity_stmt(f, ss[i], rs[i]);
        lemma_identity_stmts(f, ss, rs, i + 1);
    } else {
        lemma_stmts_end(f, ss, rs, i);
    }
}

proof fn lemma_identity_exprs<F: Fn(Node) -> Node>(
    f: F,
    es: Seq<Expression>,
    rs: Seq<Expression>,
    i: int,
)
    requires
        is_identity(f),
        0 <= i,
        exprs_rewritten(f, es, rs, i),
    ensures
        rs.len() == es.len(),
        forall|k: int| i <= k < es.len() ==> view_expr(#[trigger] rs[k]) == view_expr(es[k]),
    decreases es, es.len() - i,
{
    if i < es.len() {
        lemma_identity_expr(f, es[i], rs[i]);
        lemma_identity_exprs(f, es, rs, i + 1);
    }
}

proof fn lemma_identity_pairs<F: Fn(Node) -> Node>(
    f: F,
    ps: Seq<(Expression, Expression)>,
    rs: Seq<(Expression, Expression)>,
    i: int,
)
    requires
        is_identity(f),
        0 <= i,
        pairs_rewritten(f, ps, rs, i),
    ensures
        rs.len() == ps.len(),
        forall|k: int|
            i <= k < ps.len() ==> view_expr((#[trigger] rs[k]).0) == view_expr(ps[k].0) && view_expr(
                rs[k].1,
            ) == view_expr(ps[k].1),
    decreases ps, ps.len() - i,
{
    if i < ps.len() {
        assert(decreases_to!(ps => ps[i]));
        assert(decreases_to!(ps[i] => ps[i].0));
        assert(decreases_to!(ps[i] => ps[i].1));
        lemma_identity_expr(f, ps[i].0, rs[i].0);
        lemma_identity_expr(f, ps[i].1, rs[i].1);
        lemma_identity_pairs(f, ps, rs, i + 1);
    }
}

proof fn lemma_identity_params<F: Fn(Node) -> Node>(
    f: F,
    ps: Seq<Ident>,
    rs: Seq<Ident>,
    i: int,
)
    requires
        is_identity(f),
        0 <= i,
        params_rewritten(f, ps, rs, i),
    ensures
        rs.len() == ps.len(),
        forall|k: int| i <= k < ps.len() ==> #[trigger] rs[k] == ps[k],
    decreases ps.len() - i,
{
    if i < ps.len() {
        lemma_identity_params(f, ps, rs, i + 1);
    }
}

/// Rewriting with a modifier that gives back what it is given leaves the
/// tree as it was: every possible result of `modify` with such a modifier
/// is the node it was given.
pub proof fn law_identity_rewrite_keeps_tree<F: Fn(Node) -> Node>(f: F, node: Node, r: Node)
    requires
        is_identity(f),
        node_rewritten(f, node, r),
    ensures
        view_node(r) == view_node(node),
{
    match node {
        Node::Program(p) => {
            let q = choose|q: Program|
                stmts_rewritten(f, p.statements@, #[trigger] q.statements@, 0) && call_ensures(
                    f,
                    (Node::Program(q),),
                    r,
                );
            lemma_identity_stmts(f, p.statements@, q.statements@, 0);
            reveal(same_stmt);
            lemma_view_stmts(p.statements@);
            lemma_view_stmts(q.statements@);
            assert(crate::ast::view_stmts(q.statements@) =~= crate::ast::view_stmts(p.statements@));
        },
        Node::Statement(s) => {
            lemma_identity_stmt(f, s, r->Statement_0);
        },
        Node::Expression(e) => {
            lemma_identity_expr(f, e, r->Expression_0);
        },
    }
}

} // verus!
