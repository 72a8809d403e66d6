//! The abstract syntax tree, its rendering back to source-like text, and the
//! token literal each node stands on.

use vstd::prelude::*;
use crate::token::{Token, TokenType, SpecToken};

verus! {

#[derive(Debug, PartialEq)]
pub enum Statement {
    Let(LetStatement),
    Return(ReturnStatement),
    Expression(ExpressionStatement),
    Block(BlockStatement),
}

#[derive(Debug, PartialEq)]
pub enum Expression {
    Ident(Ident),
    IntegerLiteral(IntegerLiteral),
    FloatLiteral(FloatLiteral),
    Prefix(PrefixExpression),
    Infix(InfixExpression),
    Boolean(Boolean),
    If(IfExpression),
    FunctionLiteral(FunctionLiteral),
    Call(CallExpression),
    StringLiteral(StringLiteral),
    ArrayLiteral(ArrayLiteral),
    Index(IndexExpression),
    HashLiteral(HashLiteral),
    MacroLiteral(MacroLiteral),
}

/// Any node: a whole program, a statement or an expression.
#[derive(Debug, PartialEq)]
pub enum Node {
    Program(Program),
    Statement(Statement),
    Expression(Expression),
}

#[derive(Debug, PartialEq)]
pub struct Program {
    pub statements: Vec<Statement>,
}

#[derive(Debug, PartialEq)]
pub struct LetStatement {
    pub token: Token,
    pub name: Ident,
    pub value: Expression,
}

#[derive(Debug, PartialEq)]
pub struct Ident {
    pub token: Token,
    pub value: String,
}

#[derive(Debug, PartialEq)]
pub struct ReturnStatement {
    pub token: Token,
    pub return_value: Expression,
}

#[derive(Debug, PartialEq)]
pub struct ExpressionStatement {
    pub token: Token,
    pub expression: Expression,
}

#[derive(Debug, PartialEq)]
pub struct IntegerLiteral {
    pub token: Token,
    pub value: i64,
}

/// A float literal. Its value is the binary64 number its literal text
/// denotes; the evaluator computes it from the text.
#[derive(Debug, PartialEq)]
pub struct FloatLiteral {
    pub token: Token,
}

#[derive(Debug, PartialEq)]
pub struct PrefixExpression {
    pub token: Token,
    pub operator: String,
    pub right: Box<Expression>,
}

#[derive(Debug, PartialEq)]
pub struct InfixExpression {
    pub token: Token,
    pub left: Box<Expression>,
    pub operator: String,
    pub right: Box<Expression>,
}

#[derive(Debug, PartialEq)]
pub struct Boolean {
    pub token: Token,
    pub value: bool,
}

#[derive(Debug, PartialEq)]
pub struct IfExpression {
    pub token: Token,
    pub condition: Box<Expression>,
    pub consequence: BlockStatement,
    pub alternative: Option<BlockStatement>,
}

#[derive(Debug, PartialEq)]
pub struct BlockStatement {
    pub token: Token,
    pub statements: Vec<Statement>,
}

#[derive(Debug, PartialEq)]
pub struct FunctionLiteral {
    pub token: Token,
    pub parameters: Vec<Ident>,
    pub body: BlockStatement,
}

#[derive(Debug, PartialEq)]
pub struct CallExpression {
    pub token: Token,
    pub function: Box<Expression>,
    pub arguments: Vec<Expression>,
}

#[derive(Debug, PartialEq)]
pub struct StringLiteral {
    pub token: Token,
    pub value: String,
}

#[derive(Debug, PartialEq)]
pub struct ArrayLiteral {
    pub token: Token,
    pub elements: Vec<Expression>,
}

#[derive(Debug, PartialEq)]
pub struct IndexExpression {
    pub token: Token,
    pub left: Box<Expression>,
    pub index: Box<Expression>,
}

/// A hash literal; its pairs stay in source order.
#[derive(Debug, PartialEq)]
pub struct HashLiteral {
    pub token: Token,
    pub pairs: Vec<(Expression, Expression)>,
}

#[derive(Debug, PartialEq)]
pub struct MacroLiteral {
    pub token: Token,
    pub parameters: Vec<Ident>,
    pub body: BlockStatement,
}


// ---------------------------------------------------------------------------
// The meaning of a tree: the same shapes over sequences
// ---------------------------------------------------------------------------

pub struct SpecIdent {
    pub token: SpecToken,
    pub value: Seq<char>,
}

pub struct SpecBlock {
    pub token: SpecToken,
    pub statements: Seq<SpecStmt>,
}

pub enum SpecStmt {
    Let { token: SpecToken, name: SpecIdent, value: SpecExpr },
    Return { token: SpecToken, value: SpecExpr },
    Expression { token: SpecToken, expression: SpecExpr },
    Block(SpecBlock),
}

pub enum SpecExpr {
    Ident(SpecIdent),
    IntegerLiteral { token: SpecToken, value: i64 },
    FloatLiteral { token: SpecToken },
    Prefix { token: SpecToken, operator: Seq<char>, right: Box<SpecExpr> },
    Infix { token: SpecToken, left: Box<SpecExpr>, operator: Seq<char>, right: Box<SpecExpr> },
    Boolean { token: SpecToken, value: bool },
    If {
        token: SpecToken,
        condition: Box<SpecExpr>,
        consequence: SpecBlock,
        alternative: Option<SpecBlock>,
    },
    FunctionLiteral { token: SpecToken, parameters: Seq<SpecIdent>, body: SpecBlock },
    Call { token: SpecToken, function: Box<SpecExpr>, arguments: Seq<SpecExpr> },
    StringLiteral { token: SpecToken, value: Seq<char> },
    ArrayLiteral { token: SpecToken, elements: Seq<SpecExpr> },
    Index { token: SpecToken, left: Box<SpecExpr>, index: Box<SpecExpr> },
    HashLiteral { token: SpecToken, pairs: Seq<(SpecExpr, SpecExpr)> },
    MacroLiteral { token: SpecToken, parameters: Seq<SpecIdent>, body: SpecBlock },
}

pub enum SpecNode {
    Program(Seq<SpecStmt>),
    Statement(SpecStmt),
    Expression(SpecExpr),
}

pub open spec fn view_ident(i: Ident) -> SpecIdent {
    SpecIdent { token: i.token@, value: i.value@ }
}

pub open spec fn view_idents(v: Seq<Ident>) -> Seq<SpecIdent> {
    Seq::new(v.len(), |k: int| view_ident(v[k]))
}

pub open spec fn view_expr(e: Expression) -> SpecExpr
    decreases e,
{
    match e {
        Expression::Ident(x) => SpecExpr::Ident(view_ident(x)),
        Expression::IntegerLiteral(x) => SpecExpr::IntegerLiteral { token: x.token@, value: x.value },
        Expression::FloatLiteral(x) => SpecExpr::FloatLiteral { token: x.token@ },
        Expression::Prefix(x) => SpecExpr::Prefix {
            token: x.token@,
            operator: x.operator@,
            right: Box::new(view_expr(*x.right)),
        },
        Expression::Infix(x) => SpecExpr::Infix {
            token: x.token@,
            left: Box::new(view_expr(*x.left)),
            operator: x.operator@,
            right: Box::new(view_expr(*x.right)),
        },
        Expression::Boolean(x) => SpecExpr::Boolean { token: x.token@, value: x.value },
        Expression::If(x) => SpecExpr::If {
            token: x.token@,
            condition: Box::new(view_expr(*x.condition)),
            consequence: view_block(x.consequence),
            alternative: match x.alternative {
                Some(b) => Some(view_block(b)),
                None => None,
            },
        },
        Expression::FunctionLiteral(x) => SpecExpr::FunctionLiteral {
            token: x.token@,
            parameters: view_idents(x.parameters@),
            body: view_block(x.body),
        },
        Expression::Call(x) => SpecExpr::Call {
            token: x.token@,
            function: Box::new(view_expr(*x.function)),
            arguments: view_exprs(x.arguments@),
        },
        Expression::StringLiteral(x) => SpecExpr::StringLiteral { token: x.token@, value: x.value@ },
        Expression::ArrayLiteral(x) => SpecExpr::ArrayLiteral {
            token: x.token@,
            elements: view_exprs(x.elements@),
        },
        Expression::Index(x) => SpecExpr::Index {
            token: x.token@,
            left: Box::new(view_expr(*x.left)),
            index: Box::new(view_expr(*x.index)),
        },
        Expression::HashLiteral(x) => SpecExpr::HashLiteral {
            token: x.token@,
            pairs: view_pairs(x.pairs@),
        },
        Expression::MacroLiteral(x) => SpecExpr::MacroLiteral {
            token: x.token@,
            parameters: view_idents(x.parameters@),
            body: view_block(x.body),
        },
    }
}

pub open spec fn view_stmt(s: Statement) -> SpecStmt
    decreases s,
{
    match s {
        Statement::Let(x) => SpecStmt::Let {
            token: x.token@,
            name: view_ident(x.name),
            value: view_expr(x.value),
        },
        Statement::Return(x) => SpecStmt::Return { token: x.token@, value: view_expr(x.return_value) },
        Statement::Expression(x) => SpecStmt::Expression {
            token: x.token@,
            expression: view_expr(x.expression),
        },
        Statement::Block(b) => SpecStmt::Block(view_block(b)),
    }
}

pub open spec fn view_block(b: BlockStatement) -> SpecBlock
    decreases b,
{
    SpecBlock {
        token: b.token@,
        statements: view_stmts(b.statements@),
    }
}

pub open spec fn view_stmts(v: Seq<Statement>) -> Seq<SpecStmt>
    decreases v,
{
    Seq::new(
        v.len(),
        |k: int|
            if 0 <= k < v.len() {
                proof {
                    assert(decreases_to!(v => v[k]));
                }
                view_stmt(v[k])
            } else {
                SpecStmt::Block(SpecBlock { token: SpecToken { kind: TokenType::Illegal, literal: Seq::empty() }, statements: Seq::empty() })
            },
    )
}

pub open spec fn view_exprs(v: Seq<Expression>) -> Seq<SpecExpr>
    decreases v,
{
    Seq::new(
        v.len(),
        |k: int|
            if 0 <= k < v.len() {
                proof {
                    assert(decreases_to!(v => v[k]));
                }
                view_expr(v[k])
            } else {
                SpecExpr::FloatLiteral { token: SpecToken { kind: TokenType::Illegal, literal: Seq::empty() } }
            },
    )
}

pub open spec fn view_pairs(v: Seq<(Expression, Expression)>) -> Seq<(SpecExpr, SpecExpr)>
    decreases v,
{
    Seq::new(
        v.len(),
        |k: int|
            if 0 <= k < v.len() {
                proof {
                    assert(decreases_to!(v => v[k]));
                    assert(decreases_to!(v[k] => v[k].0));
                    assert(decreases_to!(v[k] => v[k].1));
                }
                (view_expr(v[k].0), view_expr(v[k].1))
            } else {
                (
                    SpecExpr::FloatLiteral { token: SpecToken { kind: TokenType::Illegal, literal: Seq::empty() } },
                    SpecExpr::FloatLiteral { token: SpecToken { kind: TokenType::Illegal, literal: Seq::empty() } },
                )
            },
    )
}

pub open spec fn view_node(n: Node) -> SpecNode {
    match n {
        Node::Program(p) => SpecNode::Program(view_stmts(p.statements@)),
        Node::Statement(s) => SpecNode::Statement(view_stmt(s)),
        Node::Expression(e) => SpecNode::Expression(view_expr(e)),
    }
}

pub proof fn lemma_view_block(b: BlockStatement)
    ensures
        view_block(b) == (SpecBlock { token: b.token@, statements: view_stmts(b.statements@) }),
{
}

pub proof fn lemma_view_stmts(v: Seq<Statement>)
    ensures
        view_stmts(v).len() == v.len(),
        forall|k: int| 0 <= k < v.len() ==> #[trigger] view_stmts(v)[k] == view_stmt(v[k]),
{
}

pub proof fn lemma_view_exprs(v: Seq<Expression>)
    ensures
        view_exprs(v).len() == v.len(),
        forall|k: int| 0 <= k < v.len() ==> #[trigger] view_exprs(v)[k] == view_expr(v[k]),
{
}

pub proof fn lemma_view_pairs(v: Seq<(Expression, Expression)>)
    ensures
        view_pairs(v).len() == v.len(),
        forall|k: int|
            0 <= k < v.len() ==> #[trigger] view_pairs(v)[k] == (view_expr(v[k].0), view_expr(v[k].1)),
{
}

impl View for Ident {
    type V = SpecIdent;

    open spec fn view(&self) -> SpecIdent {
        view_ident(*self)
    }
}

impl View for Expression {
    type V = SpecExpr;

    open spec fn view(&self) -> SpecExpr {
        view_expr(*self)
    }
}

impl View for Statement {
    type V = SpecStmt;

    open spec fn view(&self) -> SpecStmt {
        view_stmt(*self)
    }
}

impl View for BlockStatement {
    type V = SpecBlock;

    open spec fn view(&self) -> SpecBlock {
        view_block(*self)
    }
}

impl View for Program {
    type V = Seq<SpecStmt>;

    open spec fn view(&self) -> Seq<SpecStmt> {
        view_stmts(self.statements@)
    }
}

impl View for Node {
    type V = SpecNode;

    open spec fn view(&self) -> SpecNode {
        view_node(*self)
    }
}

// ---------------------------------------------------------------------------
// Copies
// ---------------------------------------------------------------------------

pub fn copy_token(t: &Token) -> (r: Token)
    ensures
        r == *t,
{
    Token { token_type: t.token_type, literal: t.literal.clone() }
}

pub fn copy_ident(i: &Ident) -> (r: Ident)
    ensures
        r == *i,
{
    Ident { token: copy_token(&i.token), value: i.value.clone() }
}

pub fn copy_idents(v: &Vec<Ident>) -> (r: Vec<Ident>)
    ensures
        r@ == v@,
{
    let mut r: Vec<Ident> = Vec::new();
    let mut i: usize = 0;
    while i < v.len()
        invariant
            i <= v.len(),
            r@ == v@.take(i as int),
        decreases v.len() - i,
    {
        r.push(copy_ident(&v[i]));
        i = i + 1;
        assert(r@ =~= v@.take(i as int));
    }
    assert(v@.take(v.len() as int) =~= v@);
    r
}

#[verifier::spinoff_prover]
#[verifier::rlimit(40)]
pub fn copy_expr(e: &Expression) -> (r: Expression)
    ensures
        r@ == e@,
    decreases e,
{
    match e {
        Expression::Ident(x) => Expression::Ident(copy_ident(x)),
        Expression::IntegerLiteral(x) => Expression::IntegerLiteral(
            IntegerLiteral { token: copy_token(&x.token), value: x.value },
        ),
        Expression::FloatLiteral(x) => Expression::FloatLiteral(
            FloatLiteral { token: copy_token(&x.token) },
        ),
        Expression::Prefix(x) => Expression::Prefix(
            PrefixExpression {
                token: copy_token(&x.token),
                operator: x.operator.clone(),
                right: Box::new(copy_expr(&x.right)),
            },
        ),
        Expression::Infix(x) => Expression::Infix(
            InfixExpression {
                token: copy_token(&x.token),
                left: Box::new(copy_expr(&x.left)),
                operator: x.operator.clone(),
                right: Box::new(copy_expr(&x.right)),
            },
        ),
        Expression::Boolean(x) => Expression::Boolean(
            Boolean { token: copy_token(&x.token), value: x.value },
        ),
        Expression::If(x) => {
            let alternative = match &x.alternative {
                Some(b) => Some(copy_block(b)),
                None => None,
            };
            Expression::If(
                IfExpression {
                    token: copy_token(&x.token),
                    condition: Box::new(copy_expr(&x.condition)),
                    consequence: copy_block(&x.consequence),
                    alternative,
                },
            )
        },
        Expression::FunctionLiteral(x) => Expression::FunctionLiteral(
            FunctionLiteral {
                token: copy_token(&x.token),
                parameters: copy_idents(&x.parameters),
                body: copy_block(&x.body),
            },
        ),
        Expression::Call(x) => {
            let r = Expression::Call(
                CallExpression {
                    token: copy_token(&x.token),
                    function: Box::new(copy_expr(&x.function)),
                    arguments: copy_exprs(&x.arguments),
                },
            );
            r
        },
        Expression::StringLiteral(x) => Expression::StringLiteral(
            StringLiteral { token: copy_token(&x.token), value: x.value.clone() },
        ),
        Expression::ArrayLiteral(x) => {
            let r = Expression::ArrayLiteral(
                ArrayLiteral { token: copy_token(&x.token), elements: copy_exprs(&x.elements) },
            );
            r
        },
        Expression::Index(x) => Expression::Index(
            IndexExpression {
                token: copy_token(&x.token),
                left: Box::new(copy_expr(&x.left)),
                index: Box::new(copy_expr(&x.index)),
            },
        ),
        Expression::HashLiteral(x) => {
            let r = Expression::HashLiteral(
                HashLiteral { token: copy_token(&x.token), pairs: copy_pairs(&x.pairs) },
            );
            r
        },
        Expression::MacroLiteral(x) => Expression::MacroLiteral(
            MacroLiteral {
                token: copy_token(&x.token),
                parameters: copy_idents(&x.parameters),
                body: copy_block(&x.body),
            },
        ),
    }
}

pub fn copy_exprs(v: &Vec<Expression>) -> (r: Vec<Expression>)
    ensures
        view_exprs(r@) == view_exprs(v@),
    decreases v,
{
    let mut r: Vec<Expression> = Vec::new();
    let mut i: usize = 0;
    while i < v.len()
        invariant
            i <= v.len(),
            r@.len() == i,
            forall|k: int| 0 <= k < i ==> view_expr(#[trigger] r@[k]) == view_expr(v@[k]),
        decreases v.len() - i,
    {
        proof {
            assert(decreases_to!(v => v@[i as int]));
        }
        r.push(copy_expr(&v[i]));
        i = i + 1;
    }
    assert(view_exprs(r@) =~= view_exprs(v@));
    r
}

pub fn copy_pairs(v: &Vec<(Expression, Expression)>) -> (r: Vec<(Expression, Expression)>)
    ensures
        view_pairs(r@) == view_pairs(v@),
    decreases v,
{
    let mut r: Vec<(Expression, Expression)> = Vec::new();
    let mut i: usize = 0;
    while i < v.len()
        invariant
            i <= v.len(),
            r@.len() == i,
            forall|k: int|
                0 <= k < i ==> view_expr(#[trigger] r@[k].0) == view_expr(v@[k].0) && view_expr(
                    r@[k].1,
                ) == view_expr(v@[k].1),
        decreases v.len() - i,
    {
        proof {
            assert(decreases_to!(v => v@[i as int]));
            assert(decreases_to!(v@[i as int] => v@[i as int].0));
            assert(decreases_to!(v@[i as int] => v@[i as int].1));
        }
        let k = copy_expr(&v[i].0);
        let x = copy_expr(&v[i].1);
        r.push((k, x));
        i = i + 1;
    }
    assert(view_pairs(r@) =~= view_pairs(v@));
    r
}

#[verifier::spinoff_prover]
#[verifier::rlimit(40)]
pub fn copy_stmt(s: &Statement) -> (r: Statement)
    ensures
        r@ == s@,
    decreases s,
{
    match s {
        Statement::Let(x) => Statement::Let(
            LetStatement {
                token: copy_token(&x.token),
                name: copy_ident(&x.name),
                value: copy_expr(&x.value),
            },
        ),
        Statement::Return(x) => Statement::Return(
            ReturnStatement { token: copy_token(&x.token), return_value: copy_expr(&x.return_value) },
        ),
        Statement::Expression(x) => Statement::Expression(
            ExpressionStatement { token: copy_token(&x.token), expression: copy_expr(&x.expression) },
        ),
        Statement::Block(b) => Statement::Block(copy_block(b)),
    }
}

#[verifier::spinoff_prover]
#[verifier::rlimit(40)]
pub fn copy_stmts(v: &Vec<Statement>) -> (r: Vec<Statement>)
    ensures
        view_stmts(r@) == view_stmts(v@),
    decreases v,
{
    let mut r: Vec<Statement> = Vec::new();
    let mut i: usize = 0;
    while i < v.len()
        invariant
            i <= v.len(),
            r@.len() == i,
            forall|k: int| 0 <= k < i ==> view_stmt(#[trigger] r@[k]) == view_stmt(v@[k]),
        decreases v.len() - i,
    {
        proof {
            assert(decreases_to!(v => v@[i as int]));
        }
        r.push(copy_stmt(&v[i]));
        i = i + 1;
    }
    assert(view_stmts(r@) =~= view_stmts(v@));
    r
}

#[verifier::spinoff_prover]
#[verifier::rlimit(40)]
pub fn copy_block(b: &BlockStatement) -> (r: BlockStatement)
    ensures
        r@ == b@,
    decreases b,
{
    let r = BlockStatement { token: copy_token(&b.token), statements: copy_stmts(&b.statements) };
    r
}

#[verifier::spinoff_prover]
#[verifier::rlimit(40)]
pub fn copy_node(n: &Node) -> (r: Node)
    ensures
        r@ == n@,
{
    match n {
        Node::Program(p) => Node::Program(Program { statements: copy_stmts(&p.statements) }),
        Node::Statement(s) => Node::Statement(copy_stmt(s)),
        Node::Expression(e) => Node::Expression(copy_expr(e)),
    }
}

impl Clone for Ident {
    fn clone(&self) -> (r: Self)
        ensures
            r == *self,
    {
        copy_ident(self)
    }
}

impl Clone for Expression {
    fn clone(&self) -> (r: Self)
        ensures
            r@ == self@,
    {
        copy_expr(self)
    }
}

impl Clone for Statement {
    fn clone(&self) -> (r: Self)
        ensures
            r@ == self@,
    {
        copy_stmt(self)
    }
}

impl Clone for BlockStatement {
    fn clone(&self) -> (r: Self)
        ensures
            r@ == self@,
    {
        copy_block(self)
    }
}

impl Clone for Program {
    fn clone(&self) -> (r: Self)
        ensures
            r@ == self@,
    {
        Program { statements: copy_stmts(&self.statements) }
    }
}

impl Clone for Node {
    fn clone(&self) -> (r: Self)
        ensures
            r@ == self@,
    {
        copy_node(self)
    }
}


// ---------------------------------------------------------------------------
// Rendering as text
// ---------------------------------------------------------------------------

pub open spec fn idents_str(s: Seq<SpecIdent>) -> Seq<char>
    decreases s.len(),
{
    if s.len() == 0 {
        Seq::empty()
    } else if s.len() == 1 {
        s[0].value
    } else {
        idents_str(s.drop_last()) + ", "@ + s.last().value
    }
}

pub open spec fn expr_str(e: SpecExpr) -> Seq<char>
    decreases e,
{
    match e {
        SpecExpr::Ident(i) => i.value,
        SpecExpr::IntegerLiteral { token, .. } => token.literal,
        SpecExpr::FloatLiteral { token } => token.literal,
        SpecExpr::Prefix { operator, right, .. } => "("@ + operator + expr_str(*right) + ")"@,
        SpecExpr::Infix { left, operator, right, .. } => "("@ + expr_str(*left) + " "@ + operator
            + " "@ + expr_str(*right) + ")"@,
        SpecExpr::Boolean { token, .. } => token.literal,
        SpecExpr::If { condition, consequence, alternative, .. } => "if"@ + expr_str(*condition)
            + " "@ + block_str(consequence) + match alternative {
            Some(alt) => "else "@ + block_str(alt),
            None => Seq::empty(),
        },
        SpecExpr::FunctionLiteral { token, parameters, body } => token.literal + "("@ + idents_str(
            parameters,
        ) + ") "@ + block_str(body),
        SpecExpr::Call { function, arguments, .. } => expr_str(*function) + "("@ + exprs_str(
            arguments,
        ) + ")"@,
        SpecExpr::StringLiteral { token, .. } => token.literal,
        SpecExpr::ArrayLiteral { elements, .. } => "["@ + exprs_str(elements) + "]"@,
        SpecExpr::Index { left, index, .. } => "("@ + expr_str(*left) + "["@ + expr_str(*index)
            + "])"@,
        SpecExpr::HashLiteral { pairs, .. } => "{"@ + pairs_str(pairs) + "}"@,
        SpecExpr::MacroLiteral { token, parameters, body } => token.literal + "("@ + idents_str(
            parameters,
        ) + ") "@ + block_str(body),
    }
}

/// The expressions joined by ", ".
pub open spec fn exprs_str(s: Seq<SpecExpr>) -> Seq<char>
    decreases s,
{
    if s.len() == 0 {
        Seq::empty()
    } else if s.len() == 1 {
        expr_str(s[0])
    } else {
        exprs_str(s.drop_last()) + ", "@ + expr_str(s.last())
    }
}

/// The pairs, each as "key: value", joined by ", ".
pub open spec fn pairs_str(s: Seq<(SpecExpr, SpecExpr)>) -> Seq<char>
    decreases s,
{
    if s.len() == 0 {
        Seq::empty()
    } else if s.len() == 1 {
        expr_str(s[0].0) + ": "@ + expr_str(s[0].1)
    } else {
        pairs_str(s.drop_last()) + ", "@ + expr_str(s.last().0) + ": "@ + expr_str(s.last().1)
    }
}

pub open spec fn stmt_str(s: SpecStmt) -> Seq<char>
    decreases s,
{
    match s {
        SpecStmt::Let { token, name, value } => token.literal + " "@ + name.value + " = "@
            + expr_str(value) + ";"@,
        SpecStmt::Return { token, value } => token.literal + " "@ + expr_str(value) + ";"@,
        SpecStmt::Expression { expression, .. } => expr_str(expression),
        SpecStmt::Block(b) => block_str(b),
    }
}

/// The statements, one after the other.
pub open spec fn stmts_str(s: Seq<SpecStmt>) -> Seq<char>
    decreases s,
{
    if s.len() == 0 {
        Seq::empty()
    } else {
        stmts_str(s.drop_last()) + stmt_str(s.last())
    }
}

pub open spec fn block_str(b: SpecBlock) -> Seq<char>
    decreases b,
{
    stmts_str(b.statements)
}

pub open spec fn node_str(n: SpecNode) -> Seq<char> {
    match n {
        SpecNode::Program(s) => stmts_str(s),
        SpecNode::Statement(s) => stmt_str(s),
        SpecNode::Expression(e) => expr_str(e),
    }
}

fn write_idents(v: &Vec<Ident>, out: &mut String)
    ensures
        final(out)@ == old(out)@ + idents_str(view_idents(v@)),
{
    let ghost start = old(out)@;
    let ghost sv = view_idents(v@);
    let mut i: usize = 0;
    while i < v.len()
        invariant
            i <= v.len(),
            sv == view_idents(v@),
            out@ == start + idents_str(sv.take(i as int)),
        decreases v.len() - i,
    {
        if i > 0 {
            crate::text::append_str(out, ", ");
        }
        crate::text::append_str(out, v[i].value.as_str());
        proof {
            assert(sv.take(i + 1).drop_last() =~= sv.take(i as int));
            if i == 0 {
                assert(sv.take(1) =~= seq![sv[0]]);
            }
        }
        i = i + 1;
    }
    assert(sv.take(v.len() as int) =~= sv);
}

fn write_exprs(v: &Vec<Expression>, out: &mut String)
    ensures
        final(out)@ == old(out)@ + exprs_str(view_exprs(v@)),
    decreases v,
{
    let ghost start = old(out)@;
    let ghost sv = view_exprs(v@);
    let mut i: usize = 0;
    while i < v.len()
        invariant
            i <= v.len(),
            sv == view_exprs(v@),
            out@ == start + exprs_str(sv.take(i as int)),
        decreases v.len() - i,
    {
        proof {
            assert(decreases_to!(v => v@[i as int]));
        }
        if i > 0 {
            crate::text::append_str(out, ", ");
        }
        write_expr(&v[i], out);
        proof {
            assert(sv.take(i + 1).drop_last() =~= sv.take(i as int));
            if i == 0 {
                assert(sv.take(1) =~= seq![sv[0]]);
            }
        }
        i = i + 1;
    }
    assert(sv.take(v.len() as int) =~= sv);
}

fn write_pairs(v: &Vec<(Expression, Expression)>, out: &mut String)
    ensures
        final(out)@ == old(out)@ + pairs_str(view_pairs(v@)),
    decreases v,
{
    let ghost start = old(out)@;
    let ghost sv = view_pairs(v@);
    let mut i: usize = 0;
    while i < v.len()
        invariant
            i <= v.len(),
            sv == view_pairs(v@),
            out@ == start + pairs_str(sv.take(i as int)),
        decreases v.len() - i,
    {
        proof {
            assert(decreases_to!(v => v@[i as int]));
            assert(decreases_to!(v@[i as int] => v@[i as int].0));
            assert(decreases_to!(v@[i as int] => v@[i as int].1));
        }
        if i > 0 {
            crate::text::append_str(out, ", ");
        }
        write_expr(&v[i].0, out);
        crate::text::append_str(out, ": ");
        write_expr(&v[i].1, out);
        proof {
            assert(sv.take(i + 1).drop_last() =~= sv.take(i as int));
            if i == 0 {
                assert(sv.take(1) =~= seq![sv[0]]);
            }
        }
        i = i + 1;
    }
    assert(sv.take(v.len() as int) =~= sv);
}

#[verifier::spinoff_prover]
#[verifier::rlimit(40)]
fn write_expr(e: &Expression, out: &mut String)
    ensures
        final(out)@ == old(out)@ + expr_str(e@),
    decreases e,
{
    let ghost start = old(out)@;
    match e {
        Expression::Ident(x) => {
            crate::text::append_str(out, x.value.as_str());
        },
        Expression::IntegerLiteral(x) => {
            crate::text::append_str(out, x.token.literal.as_str());
        },
        Expression::FloatLiteral(x) => {
            crate::text::append_str(out, x.token.literal.as_str());
        },
        Expression::Prefix(x) => {
            crate::text::append_str(out, "(");
            crate::text::append_str(out, x.operator.as_str());
            write_expr(&x.right, out);
            crate::text::append_str(out, ")");
            assert(out@ =~= start + expr_str(e@));
        },
        Expression::Infix(x) => {
            crate::text::append_str(out, "(");
            write_expr(&x.left, out);
            crate::text::append_str(out, " ");
            crate::text::append_str(out, x.operator.as_str());
            crate::text::append_str(out, " ");
            write_expr(&x.right, out);
            crate::text::append_str(out, ")");
            assert(out@ =~= start + expr_str(e@));
        },
        Expression::Boolean(x) => {
            crate::text::append_str(out, x.token.literal.as_str());
        },
        Expression::If(x) => {
            crate::text::append_str(out, "if");
            write_expr(&x.condition, out);
            crate::text::append_str(out, " ");
            write_block(&x.consequence, out);
            match &x.alternative {
                Some(alt) => {
                    crate::text::append_str(out, "else ");
                    write_block(alt, out);
                },
                None => {},
            }
            assert(out@ =~= start + expr_str(e@));
        },
        Expression::FunctionLiteral(x) => {
            crate::text::append_str(out, x.token.literal.as_str());
            crate::text::append_str(out, "(");
            write_idents(&x.parameters, out);
            crate::text::append_str(out, ") ");
            write_block(&x.body, out);
            assert(out@ =~= start + expr_str(e@));
        },
        Expression::Call(x) => {
            write_expr(&x.function, out);
            crate::text::append_str(out, "(");
            write_exprs(&x.arguments, out);
            crate::text::append_str(out, ")");
            assert(out@ =~= start + expr_str(e@));
        },
        Expression::StringLiteral(x) => {
            crate::text::append_str(out, x.token.literal.as_str());
        },
        Expression::ArrayLiteral(x) => {
            crate::text::append_str(out, "[");
            write_exprs(&x.elements, out);
            crate::text::append_str(out, "]");
            assert(out@ =~= start + expr_str(e@));
        },
        Expression::Index(x) => {
            crate::text::append_str(out, "(");
            write_expr(&x.left, out);
            crate::text::append_str(out, "[");
            write_expr(&x.index, out);
            crate::text::append_str(out, "])");
            assert(out@ =~= start + expr_str(e@));
        },
        Expression::HashLiteral(x) => {
            crate::text::append_str(out, "{");
            write_pairs(&x.pairs, out);
            crate::text::append_str(out, "}");
            assert(out@ =~= start + expr_str(e@));
        },
        Expression::MacroLiteral(x) => {
            crate::text::append_str(out, x.token.literal.as_str());
            crate::text::append_str(out, "(");
            write_idents(&x.parameters, out);
            crate::text::append_str(out, ") ");
            write_block(&x.body, out);
            assert(out@ =~= start + expr_str(e@));
        },
    }
}

#[verifier::spinoff_prover]
#[verifier::rlimit(40)]
fn write_stmt(s: &Statement, out: &mut String)
    ensures
        final(out)@ == old(out)@ + stmt_str(s@),
    decreases s,
{
    let ghost start = old(out)@;
    match s {
        Statement::Let(x) => {
            crate::text::append_str(out, x.token.literal.as_str());
            crate::text::append_str(out, " ");
            crate::text::append_str(out, x.name.value.as_str());
            crate::text::append_str(out, " = ");
            write_expr(&x.value, out);
            crate::text::append_str(out, ";");
            assert(out@ =~= start + stmt_str(s@));
        },
        Statement::Return(x) => {
            crate::text::append_str(out, x.token.literal.as_str());
            crate::text::append_str(out, " ");
            write_expr(&x.return_value, out);
            crate::text::append_str(out, ";");
            assert(out@ =~= start + stmt_str(s@));
        },
        Statement::Expression(x) => {
            write_expr(&x.expression, out);
        },
        Statement::Block(b) => {
            write_block(b, out);
        },
    }
}

fn write_stmts(v: &Vec<Statement>, out: &mut String)
    ensures
        final(out)@ == old(out)@ + stmts_str(view_stmts(v@)),
    decreases v,
{
    let ghost start = old(out)@;
    let ghost sv = view_stmts(v@);
    let mut i: usize = 0;
    while i < v.len()
        invariant
            i <= v.len(),
            sv == view_stmts(v@),
            out@ == start + stmts_str(sv.take(i as int)),
        decreases v.len() - i,
    {
        proof {
            assert(decreases_to!(v => v@[i as int]));
        }
        write_stmt(&v[i], out);
        proof {
            assert(sv.take(i + 1).drop_last() =~= sv.take(i as int));
        }
        i = i + 1;
    }
    assert(sv.take(v.len() as int) =~= sv);
}

fn write_block(b: &BlockStatement, out: &mut String)
    ensures
        final(out)@ == old(out)@ + block_str(b@),
    decreases b,
{
    write_stmts(&b.statements, out);
}

impl Program {
    /// The program as text: its statements one after the other.
    pub fn to_string(&self) -> (r: String)
        ensures
            r@ == stmts_str(self@),
    {
        let mut out = String::new();
        write_stmts(&self.statements, &mut out);
        out
    }

    /// The literal of the first statement's token, or "" when empty.
    pub fn token_literal(&self) -> (r: String)
        ensures
            r@ == (if self.statements@.len() == 0 {
                Seq::<char>::empty()
            } else {
                stmt_token(self@[0]).literal
            }),
    {
        if self.statements.len() == 0 {
            String::new()
        } else {
            self.statements[0].token_literal()
        }
    }
}

impl Statement {
    pub fn to_string(&self) -> (r: String)
        ensures
            r@ == stmt_str(self@),
    {
        let mut out = String::new();
        write_stmt(self, &mut out);
        out
    }

    /// The literal of the token this statement starts with.
    pub fn token_literal(&self) -> (r: String)
        ensures
            r@ == stmt_token(self@).literal,
    {
        match self {
            Statement::Let(s) => s.token.literal.clone(),
            Statement::Return(s) => s.token.literal.clone(),
            Statement::Expression(s) => s.token.literal.clone(),
            Statement::Block(s) => s.token.literal.clone(),
        }
    }
}

impl Expression {
    pub fn to_string(&self) -> (r: String)
        ensures
            r@ == expr_str(self@),
    {
        let mut out = String::new();
        write_expr(self, &mut out);
        out
    }

    /// The literal of the token this expression stands on.
    pub fn token_literal(&self) -> (r: String)
        ensures
            r@ == expr_token(self@).literal,
    {
        crate::text::string_of(self.token_literal_str())
    }

    /// The literal of the token this expression stands on, borrowed.
    pub fn token_literal_str(&self) -> (r: &str)
        ensures
            r@ == expr_token(self@).literal,
    {
        match self {
            Expression::Ident(e) => e.token.literal.as_str(),
            Expression::IntegerLiteral(e) => e.token.literal.as_str(),
            Expression::FloatLiteral(e) => e.token.literal.as_str(),
            Expression::Prefix(e) => e.token.literal.as_str(),
            Expression::Infix(e) => e.token.literal.as_str(),
            Expression::Boolean(e) => e.token.literal.as_str(),
            Expression::If(e) => e.token.literal.as_str(),
            Expression::FunctionLiteral(e) => e.token.literal.as_str(),
            Expression::Call(e) => e.token.literal.as_str(),
            Expression::StringLiteral(e) => e.token.literal.as_str(),
            Expression::ArrayLiteral(e) => e.token.literal.as_str(),
            Expression::Index(e) => e.token.literal.as_str(),
            Expression::HashLiteral(e) => e.token.literal.as_str(),
            Expression::MacroLiteral(e) => e.token.literal.as_str(),
        }
    }
}

impl BlockStatement {
    pub fn to_string(&self) -> (r: String)
        ensures
            r@ == block_str(self@),
    {
        let mut out = String::new();
        write_block(self, &mut out);
        out
    }
}

impl Ident {
    pub fn to_string(&self) -> (r: String)
        ensures
            r@ == self.value@,
    {
        self.value.clone()
    }
}

impl Node {
    pub fn to_string(&self) -> (r: String)
        ensures
            r@ == node_str(self@),
    {
        match self {
            Node::Program(p) => p.to_string(),
            Node::Statement(s) => s.to_string(),
            Node::Expression(e) => e.to_string(),
        }
    }

    /// The literal of the token this node starts with.
    pub fn token_literal(&self) -> (r: String)
        ensures
            r@ == node_token_literal(self@),
    {
        match self {
            Node::Program(p) => p.token_literal(),
            Node::Statement(s) => s.token_literal(),
            Node::Expression(e) => e.token_literal(),
        }
    }

    /// The statement this node holds.
    pub fn expect_statement(self) -> (r: Statement)
        requires
            self is Statement,
        ensures
            r == self->Statement_0,
    {
        match self {
            Node::Statement(s) => s,
            _ => {
                assert(false);
                Statement::Block(BlockStatement { token: Token::new(TokenType::Illegal, ""), statements: Vec::new() })
            },
        }
    }

    /// The expression this node holds.
    pub fn expect_expression(self) -> (r: Expression)
        requires
            self is Expression,
        ensures
            r == self->Expression_0,
    {
        match self {
            Node::Expression(e) => e,
            _ => {
                assert(false);
                Expression::Boolean(Boolean { token: Token::new(TokenType::Illegal, ""), value: false })
            },
        }
    }
}

/// The token a statement starts with.
pub open spec fn stmt_token(s: SpecStmt) -> SpecToken {
    match s {
        SpecStmt::Let { token, .. } => token,
        SpecStmt::Return { token, .. } => token,
        SpecStmt::Expression { token, .. } => token,
        SpecStmt::Block(b) => b.token,
    }
}

/// The token an expression stands on.
pub open spec fn expr_token(e: SpecExpr) -> SpecToken {
    match e {
        SpecExpr::Ident(i) => i.token,
        SpecExpr::IntegerLiteral { token, .. } => token,
        SpecExpr::FloatLiteral { token } => token,
        SpecExpr::Prefix { token, .. } => token,
        SpecExpr::Infix { token, .. } => token,
        SpecExpr::Boolean { token, .. } => token,
        SpecExpr::If { token, .. } => token,
        SpecExpr::FunctionLiteral { token, .. } => token,
        SpecExpr::Call { token, .. } => token,
        SpecExpr::StringLiteral { token, .. } => token,
        SpecExpr::ArrayLiteral { token, .. } => token,
        SpecExpr::Index { token, .. } => token,
        SpecExpr::HashLiteral { token, .. } => token,
        SpecExpr::MacroLiteral { token, .. } => token,
    }
}

pub open spec fn node_token_literal(n: SpecNode) -> Seq<char> {
    match n {
        SpecNode::Program(s) => if s.len() == 0 {
            Seq::empty()
        } else {
            stmt_token(s[0]).literal
        },
        SpecNode::Statement(s) => stmt_token(s).literal,
        SpecNode::Expression(e) => expr_token(e).literal,
    }
}

} // verus!
