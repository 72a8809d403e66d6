//! The grammar of Monkey as a functional definition over a token sequence:
//! each function takes the parse state (position and errors so far) and
//! gives the state after it with what it parsed.

use vstd::prelude::*;
use crate::ast::{SpecBlock, SpecExpr, SpecIdent, SpecStmt};
use crate::token::{SpecToken, TokenType, token_type_name};

verus! {

/// The position of the current token and the messages recorded so far.
pub struct PState {
    pub pos: int,
    pub errors: Seq<Seq<char>>,
}

/// Binding power of an operator, weakest first.
#[derive(Clone, Copy, PartialEq, Eq, Structural, Debug)]
pub enum Precedence {
    Lowest,
    Equals,
    LessGreater,
    Sum,
    Product,
    Prefix,
    Call,
    Index,
}

pub open spec fn prec_level(p: Precedence) -> int {
    match p {
        Precedence::Lowest => 0,
        Precedence::Equals => 1,
        Precedence::LessGreater => 2,
        Precedence::Sum => 3,
        Precedence::Product => 4,
        Precedence::Prefix => 5,
        Precedence::Call => 6,
        Precedence::Index => 7,
    }
}

/// The binding power of a token as an infix operator.
pub open spec fn precedence_of(t: TokenType) -> Precedence {
    match t {
        TokenType::Eq | TokenType::NotEq => Precedence::Equals,
        TokenType::Lt | TokenType::Gt => Precedence::LessGreater,
        TokenType::Plus | TokenType::Minus => Precedence::Sum,
        TokenType::Slash | TokenType::Asterisk => Precedence::Product,
        TokenType::Lparen => Precedence::Call,
        TokenType::Lbracket => Precedence::Index,
        _ => Precedence::Lowest,
    }
}

/// Whether a token can continue an expression as an infix operator.
pub open spec fn has_infix(t: TokenType) -> bool {
    match t {
        TokenType::Plus | TokenType::Minus | TokenType::Asterisk | TokenType::Slash
        | TokenType::Eq | TokenType::NotEq | TokenType::Lt | TokenType::Gt | TokenType::Lparen
        | TokenType::Lbracket => true,
        _ => false,
    }
}

/// A token sequence the parser can read: it ends with `Eof`.
pub open spec fn toks_ok(toks: Seq<SpecToken>) -> bool {
    toks.len() > 0 && toks.last().kind == TokenType::Eof
}

pub open spec fn valid(toks: Seq<SpecToken>, st: PState) -> bool {
    toks_ok(toks) && 0 <= st.pos < toks.len()
}

/// The token at `i`; past the end the last one (`Eof`) repeats.
pub open spec fn tok_at(toks: Seq<SpecToken>, i: int) -> SpecToken {
    if 0 <= i < toks.len() {
        toks[i]
    } else {
        toks.last()
    }
}

pub open spec fn cur_tok(toks: Seq<SpecToken>, st: PState) -> SpecToken {
    tok_at(toks, st.pos)
}

pub open spec fn peek_tok(toks: Seq<SpecToken>, st: PState) -> SpecToken {
    tok_at(toks, st.pos + 1)
}

/// Moves to the next token (the final `Eof` is never left).
pub open spec fn advance_tok(toks: Seq<SpecToken>, st: PState) -> PState {
    PState {
        pos: if st.pos + 1 < toks.len() {
            st.pos + 1
        } else {
            st.pos
        },
        errors: st.errors,
    }
}

pub open spec fn add_error(st: PState, msg: Seq<char>) -> PState {
    PState { pos: st.pos, errors: st.errors.push(msg) }
}

pub open spec fn peek_error_msg(expected: TokenType, got: TokenType) -> Seq<char> {
    "expected next token to be "@ + token_type_name(expected) + ", got "@ + token_type_name(got)
        + " instead"@
}

pub open spec fn no_prefix_msg(t: TokenType) -> Seq<char> {
    "no prefix parse function for "@ + token_type_name(t) + " found"@
}

pub open spec fn bad_integer_msg(literal: Seq<char>) -> Seq<char> {
    "could not parse \""@ + literal + "\" as integer"@
}

/// Moves on when the next token has kind `t`; records an error otherwise.
pub open spec fn expect_peek(toks: Seq<SpecToken>, st: PState, t: TokenType) -> (PState, bool) {
    if peek_tok(toks, st).kind == t {
        (advance_tok(toks, st), true)
    } else {
        (add_error(st, peek_error_msg(t, peek_tok(toks, st).kind)), false)
    }
}

pub open spec fn ident_of(t: SpecToken) -> SpecIdent {
    SpecIdent { token: t, value: t.literal }
}

// ---------------------------------------------------------------------------
// Integer literals
// ---------------------------------------------------------------------------

pub open spec fn is_digit_char(c: char) -> bool {
    '0' <= c && c <= '9'
}

pub open spec fn digit_value(c: char) -> int {
    (c as int) - ('0' as int)
}

/// The number a string of decimal digits denotes.
pub open spec fn decimal_value(ds: Seq<char>) -> int
    decreases ds.len(),
{
    if ds.len() == 0 {
        0
    } else {
        10 * decimal_value(ds.drop_last()) + digit_value(ds.last())
    }
}

pub open spec fn all_digits(ds: Seq<char>) -> bool {
    forall|i: int| 0 <= i < ds.len() ==> is_digit_char(#[trigger] ds[i])
}

/// What reading a string as an `i64` gives: an optional sign, at least one
/// digit, nothing else, and a value in range.
pub open spec fn parse_i64_spec(s: Seq<char>) -> Option<i64> {
    if s.len() == 0 {
        None
    } else {
        let neg = s[0] == '-';
        let ds = if s[0] == '-' || s[0] == '+' {
            s.drop_first()
        } else {
            s
        };
        if ds.len() == 0 || !all_digits(ds) {
            None
        } else {
            let v = if neg {
                -decimal_value(ds)
            } else {
                decimal_value(ds)
            };
            if i64::MIN <= v <= i64::MAX {
                Some(v as i64)
            } else {
                None
            }
        }
    }
}

pub open spec fn parse_integer_literal(toks: Seq<SpecToken>, st: PState) -> (
    PState,
    Option<SpecExpr>,
) {
    let token = cur_tok(toks, st);
    match parse_i64_spec(token.literal) {
        Some(v) => (st, Some(SpecExpr::IntegerLiteral { token, value: v })),
        None => (add_error(st, bad_integer_msg(token.literal)), None),
    }
}

// ---------------------------------------------------------------------------
// Non-recursive helpers
// ---------------------------------------------------------------------------

/// Steps over any number of `;` that follow.
pub open spec fn skip_semicolons(toks: Seq<SpecToken>, st: PState) -> PState
    decreases toks.len() - st.pos,
{
    if valid(toks, st) && peek_tok(toks, st).kind == TokenType::Semicolon && advance_tok(
        toks,
        st,
    ).pos > st.pos {
        skip_semicolons(toks, advance_tok(toks, st))
    } else {
        st
    }
}

/// The parameter names after the first, each preceded by a comma.
pub open spec fn param_loop(toks: Seq<SpecToken>, st: PState, acc: Seq<SpecIdent>) -> (
    PState,
    Seq<SpecIdent>,
)
    decreases toks.len() - st.pos,
{
    if valid(toks, st) && peek_tok(toks, st).kind == TokenType::Comma {
        let s1 = advance_tok(toks, advance_tok(toks, st));
        if s1.pos > st.pos {
            param_loop(toks, s1, acc.push(ident_of(cur_tok(toks, s1))))
        } else {
            (s1, acc)
        }
    } else {
        (st, acc)
    }
}

/// A parenthesised list of parameter names; the current token is `(`.
pub open spec fn parse_function_parameters(toks: Seq<SpecToken>, st: PState) -> (
    PState,
    Option<Seq<SpecIdent>>,
) {
    if peek_tok(toks, st).kind == TokenType::Rparen {
        (advance_tok(toks, st), Some(Seq::empty()))
    } else {
        let s1 = advance_tok(toks, st);
        let (s2, idents) = param_loop(toks, s1, seq![ident_of(cur_tok(toks, s1))]);
        let (s3, ok) = expect_peek(toks, s2, TokenType::Rparen);
        if ok {
            (s3, Some(idents))
        } else {
            (s3, None)
        }
    }
}

// ---------------------------------------------------------------------------
// The recursive grammar
// ---------------------------------------------------------------------------

pub open spec fn parse_statement(toks: Seq<SpecToken>, st: PState) -> (PState, Option<SpecStmt>)
    decreases toks.len() - st.pos, 9int,
{
    if !valid(toks, st) {
        (st, None)
    } else {
        match cur_tok(toks, st).kind {
            TokenType::Let => parse_let_statement(toks, st),
            TokenType::Return => parse_return_statement(toks, st),
            _ => parse_expression_statement(toks, st),
        }
    }
}

pub open spec fn parse_let_statement(toks: Seq<SpecToken>, st: PState) -> (
    PState,
    Option<SpecStmt>,
)
    decreases toks.len() - st.pos, 8int,
{
    let token = cur_tok(toks, st);
    let (s1, ok1) = expect_peek(toks, st, TokenType::Ident);
    if !ok1 {
        (s1, None)
    } else {
        let name = ident_of(cur_tok(toks, s1));
        let (s2, ok2) = expect_peek(toks, s1, TokenType::Assign);
        if !ok2 {
            (s2, None)
        } else {
            let s3 = advance_tok(toks, s2);
            if s3.pos <= st.pos {
                (s3, None)
            } else {
                let (s4, v) = parse_expression(toks, s3, Precedence::Lowest);
                match v {
                    None => (s4, None),
                    Some(value) => (
                        skip_semicolons(toks, s4),
                        Some(SpecStmt::Let { token, name, value }),
                    ),
                }
            }
        }
    }
}

pub open spec fn parse_return_statement(toks: Seq<SpecToken>, st: PState) -> (
    PState,
    Option<SpecStmt>,
)
    decreases toks.len() - st.pos, 8int,
{
    let token = cur_tok(toks, st);
    let s1 = advance_tok(toks, st);
    if s1.pos <= st.pos {
        (s1, None)
    } else {
        let (s2, v) = parse_expression(toks, s1, Precedence::Lowest);
        match v {
            None => (s2, None),
            Some(value) => (skip_semicolons(toks, s2), Some(SpecStmt::Return { token, value })),
        }
    }
}

pub open spec fn parse_expression_statement(toks: Seq<SpecToken>, st: PState) -> (
    PState,
    Option<SpecStmt>,
)
    decreases toks.len() - st.pos, 8int,
{
    let token = cur_tok(toks, st);
    let (s1, e) = parse_expression(toks, st, Precedence::Lowest);
    match e {
        None => (s1, None),
        Some(expression) => {
            let s2 = if peek_tok(toks, s1).kind == TokenType::Semicolon {
                advance_tok(toks, s1)
            } else {
                s1
            };
            (s2, Some(SpecStmt::Expression { token, expression }))
        },
    }
}

pub open spec fn parse_expression(toks: Seq<SpecToken>, st: PState, prec: Precedence) -> (
    PState,
    Option<SpecExpr>,
)
    decreases toks.len() - st.pos, 7int,
{
    let (s1, left) = parse_prefix(toks, st);
    match left {
        None => (s1, None),
        Some(l) => if s1.pos < st.pos || !valid(toks, s1) {
            (s1, None)
        } else {
            parse_infix_loop(toks, s1, prec, l)
        },
    }
}

/// Extends `left` with infix operators that bind tighter than `prec`.
pub open spec fn parse_infix_loop(
    toks: Seq<SpecToken>,
    st: PState,
    prec: Precedence,
    left: SpecExpr,
) -> (PState, Option<SpecExpr>)
    decreases toks.len() - st.pos, 6int,
{
    if !valid(toks, st) {
        (st, Some(left))
    } else if cur_tok(toks, st).kind != TokenType::Semicolon && prec_level(prec) < prec_level(
        precedence_of(peek_tok(toks, st).kind),
    ) {
        if !has_infix(peek_tok(toks, st).kind) {
            (st, Some(left))
        } else {
            let s1 = advance_tok(toks, st);
            if s1.pos <= st.pos {
                (s1, Some(left))
            } else {
                let (s2, r) = parse_infix(toks, s1, left);
                match r {
                    None => (s2, None),
                    Some(l2) => if s2.pos < s1.pos || !valid(toks, s2) {
                        (s2, None)
                    } else {
                        parse_infix_loop(toks, s2, prec, l2)
                    },
                }
            }
        }
    } else {
        (st, Some(left))
    }
}

pub open spec fn parse_prefix(toks: Seq<SpecToken>, st: PState) -> (PState, Option<SpecExpr>)
    decreases toks.len() - st.pos, 5int,
{
    let token = cur_tok(toks, st);
    match token.kind {
        TokenType::Ident => (st, Some(SpecExpr::Ident(ident_of(token)))),
        TokenType::Int => parse_integer_literal(toks, st),
        TokenType::Float => (st, Some(SpecExpr::FloatLiteral { token })),
        TokenType::Bang | TokenType::Minus => parse_prefix_expression(toks, st),
        TokenType::True | TokenType::False => (
            st,
            Some(SpecExpr::Boolean { token, value: token.kind == TokenType::True }),
        ),
        TokenType::Lparen => parse_grouped_expression(toks, st),
        TokenType::If => parse_if_expression(toks, st),
        TokenType::Function => parse_function_literal(toks, st),
        TokenType::String => (st, Some(SpecExpr::StringLiteral { token, value: token.literal })),
        TokenType::Lbracket => parse_array_literal(toks, st),
        TokenType::Lbrace => parse_hash_literal(toks, st),
        TokenType::Macro => parse_macro_literal(toks, st),
        _ => (add_error(st, no_prefix_msg(token.kind)), None),
    }
}

pub open spec fn parse_infix(toks: Seq<SpecToken>, st: PState, left: SpecExpr) -> (
    PState,
    Option<SpecExpr>,
)
    decreases toks.len() - st.pos, 5int,
{
    match cur_tok(toks, st).kind {
        TokenType::Plus | TokenType::Minus | TokenType::Asterisk | TokenType::Slash
        | TokenType::Eq | TokenType::NotEq | TokenType::Lt | TokenType::Gt => parse_infix_expression(
            toks,
            st,
            left,
        ),
        TokenType::Lparen => parse_call_expression(toks, st, left),
        TokenType::Lbracket => parse_index_expression(toks, st, left),
        _ => (st, Some(left)),
    }
}

pub open spec fn parse_prefix_expression(toks: Seq<SpecToken>, st: PState) -> (
    PState,
    Option<SpecExpr>,
)
    decreases toks.len() - st.pos, 4int,
{
    let token = cur_tok(toks, st);
    let s1 = advance_tok(toks, st);
    if s1.pos <= st.pos {
        (s1, None)
    } else {
        let (s2, r) = parse_expression(toks, s1, Precedence::Prefix);
        match r {
            None => (s2, None),
            Some(right) => (
                s2,
                Some(SpecExpr::Prefix { token, operator: token.literal, right: Box::new(right) }),
            ),
        }
    }
}

pub open spec fn parse_infix_expression(toks: Seq<SpecToken>, st: PState, left: SpecExpr) -> (
    PState,
    Option<SpecExpr>,
)
    decreases toks.len() - st.pos, 4int,
{
    let token = cur_tok(toks, st);
    let s1 = advance_tok(toks, st);
    if s1.pos <= st.pos {
        (s1, None)
    } else {
        let (s2, r) = parse_expression(toks, s1, precedence_of(token.kind));
        match r {
            None => (s2, None),
            Some(right) => (
                s2,
                Some(
                    SpecExpr::Infix {
                        token,
                        left: Box::new(left),
                        operator: token.literal,
                        right: Box::new(right),
                    },
                ),
            ),
        }
    }
}

pub open spec fn parse_grouped_expression(toks: Seq<SpecToken>, st: PState) -> (
    PState,
    Option<SpecExpr>,
)
    decreases toks.len() - st.pos, 4int,
{
    let s1 = advance_tok(toks, st);
    if s1.pos <= st.pos {
        (s1, None)
    } else {
        let (s2, r) = parse_expression(toks, s1, Precedence::Lowest);
        match r {
            None => (s2, None),
            Some(e) => {
                let (s3, ok) = expect_peek(toks, s2, TokenType::Rparen);
                if ok {
                    (s3, Some(e))
                } else {
                    (s3, None)
                }
            },
        }
    }
}

pub open spec fn parse_if_expression(toks: Seq<SpecToken>, st: PState) -> (
    PState,
    Option<SpecExpr>,
)
    decreases toks.len() - st.pos, 4int,
{
    let token = cur_tok(toks, st);
    let (s1, ok1) = expect_peek(toks, st, TokenType::Lparen);
    if !ok1 {
        (s1, None)
    } else {
        let s2 = advance_tok(toks, s1);
        if s2.pos <= st.pos {
            (s2, None)
        } else {
            let (s3, c) = parse_expression(toks, s2, Precedence::Lowest);
            match c {
                None => (s3, None),
                Some(condition) => {
                    let (s4, ok4) = expect_peek(toks, s3, TokenType::Rparen);
                    if !ok4 {
                        (s4, None)
                    } else {
                        let (s5, ok5) = expect_peek(toks, s4, TokenType::Lbrace);
                        if !ok5 {
                            (s5, None)
                        } else if s5.pos <= st.pos || !valid(toks, s5) {
                            (s5, None)
                        } else {
                            let (s6, consequence) = parse_block_statement(toks, s5);
                            if peek_tok(toks, s6).kind == TokenType::Else {
                                let s7 = advance_tok(toks, s6);
                                let (s8, ok8) = expect_peek(toks, s7, TokenType::Lbrace);
                                if !ok8 {
                                    (s8, None)
                                } else if s8.pos <= st.pos || !valid(toks, s8) {
                                    (s8, None)
                                } else {
                                    let (s9, alt) = parse_block_statement(toks, s8);
                                    (
                                        s9,
                                        Some(
                                            SpecExpr::If {
                                                token,
                                                condition: Box::new(condition),
                                                consequence,
                                                alternative: Some(alt),
                                            },
                                        ),
                                    )
                                }
                            } else {
                                (
                                    s6,
                                    Some(
                                        SpecExpr::If {
                                            token,
                                            condition: Box::new(condition),
                                            consequence,
                                            alternative: None,
                                        },
                                    ),
                                )
                            }
                        }
                    }
                },
            }
        }
    }
}

/// A block in braces; the current token is `{`.
pub open spec fn parse_block_statement(toks: Seq<SpecToken>, st: PState) -> (PState, SpecBlock)
    decreases toks.len() - st.pos, 3int,
{
    let token = cur_tok(toks, st);
    let s1 = advance_tok(toks, st);
    if s1.pos <= st.pos {
        (s1, SpecBlock { token, statements: Seq::empty() })
    } else {
        let (s2, statements) = block_loop(toks, s1, Seq::empty());
        (s2, SpecBlock { token, statements })
    }
}

/// The statements of a block up to its `}` (or the end of input).
pub open spec fn block_loop(toks: Seq<SpecToken>, st: PState, acc: Seq<SpecStmt>) -> (
    PState,
    Seq<SpecStmt>,
)
    decreases toks.len() - st.pos, 10int,
{
    if !valid(toks, st) || cur_tok(toks, st).kind == TokenType::Rbrace || cur_tok(toks, st).kind
        == TokenType::Eof {
        (st, acc)
    } else {
        let (s1, r) = parse_statement(toks, st);
        let acc1 = match r {
            Some(x) => acc.push(x),
            None => acc,
        };
        let s2 = advance_tok(toks, s1);
        if s2.pos <= st.pos || !valid(toks, s2) {
            (s2, acc1)
        } else {
            block_loop(toks, s2, acc1)
        }
    }
}

pub open spec fn parse_function_literal(toks: Seq<SpecToken>, st: PState) -> (
    PState,
    Option<SpecExpr>,
)
    decreases toks.len() - st.pos, 4int,
{
    let token = cur_tok(toks, st);
    let (s1, ok1) = expect_peek(toks, st, TokenType::Lparen);
    if !ok1 {
        (s1, None)
    } else {
        let (s2, params) = parse_function_parameters(toks, s1);
        match params {
            None => (s2, None),
            Some(parameters) => {
                let (s3, ok3) = expect_peek(toks, s2, TokenType::Lbrace);
                if !ok3 {
                    (s3, None)
                } else if s3.pos <= st.pos || !valid(toks, s3) {
                    (s3, None)
                } else {
                    let (s4, body) = parse_block_statement(toks, s3);
                    (s4, Some(SpecExpr::FunctionLiteral { token, parameters, body }))
                }
            },
        }
    }
}

pub open spec fn parse_macro_literal(toks: Seq<SpecToken>, st: PState) -> (
    PState,
    Option<SpecExpr>,
)
    decreases toks.len() - st.pos, 4int,
{
    let token = cur_tok(toks, st);
    let (s1, ok1) = expect_peek(toks, st, TokenType::Lparen);
    if !ok1 {
        (s1, None)
    } else {
        let (s2, params) = parse_function_parameters(toks, s1);
        match params {
            None => (s2, None),
            Some(parameters) => {
                let (s3, ok3) = expect_peek(toks, s2, TokenType::Lbrace);
                if !ok3 {
                    (s3, None)
                } else if s3.pos <= st.pos || !valid(toks, s3) {
                    (s3, None)
                } else {
                    let (s4, body) = parse_block_statement(toks, s3);
                    (s4, Some(SpecExpr::MacroLiteral { token, parameters, body }))
                }
            },
        }
    }
}

/// A comma-separated list of expressions closed by `end`; the current token
/// opens the list.
pub open spec fn parse_expression_list(toks: Seq<SpecToken>, st: PState, end: TokenType) -> (
    PState,
    Option<Seq<SpecExpr>>,
)
    decreases toks.len() - st.pos, 3int,
{
    if peek_tok(toks, st).kind == end {
        (advance_tok(toks, st), Some(Seq::empty()))
    } else {
        let s1 = advance_tok(toks, st);
        if s1.pos <= st.pos {
            (s1, None)
        } else {
            let (s2, r) = parse_expression(toks, s1, Precedence::Lowest);
            match r {
                None => (s2, None),
                Some(e) => if s2.pos < s1.pos || !valid(toks, s2) {
                    (s2, None)
                } else {
                    list_loop(toks, s2, seq![e], end)
                },
            }
        }
    }
}

/// The rest of an expression list: further `, expr` items, then `end`.
pub open spec fn list_loop(
    toks: Seq<SpecToken>,
    st: PState,
    acc: Seq<SpecExpr>,
    end: TokenType,
) -> (PState, Option<Seq<SpecExpr>>)
    decreases toks.len() - st.pos, 2int,
{
    if valid(toks, st) && peek_tok(toks, st).kind == TokenType::Comma {
        let s1 = advance_tok(toks, advance_tok(toks, st));
        if s1.pos <= st.pos {
            (s1, None)
        } else {
            let (s2, r) = parse_expression(toks, s1, Precedence::Lowest);
            match r {
                None => (s2, None),
                Some(e) => if s2.pos < s1.pos || !valid(toks, s2) {
                    (s2, None)
                } else {
                    list_loop(toks, s2, acc.push(e), end)
                },
            }
        }
    } else {
        let (s3, ok) = expect_peek(toks, st, end);
        if ok {
            (s3, Some(acc))
        } else {
            (s3, None)
        }
    }
}

pub open spec fn parse_call_expression(toks: Seq<SpecToken>, st: PState, function: SpecExpr) -> (
    PState,
    Option<SpecExpr>,
)
    decreases toks.len() - st.pos, 4int,
{
    let token = cur_tok(toks, st);
    let (s1, args) = parse_expression_list(toks, st, TokenType::Rparen);
    let arguments = match args {
        Some(a) => a,
        None => Seq::empty(),
    };
    (s1, Some(SpecExpr::Call { token, function: Box::new(function), arguments }))
}

pub open spec fn parse_array_literal(toks: Seq<SpecToken>, st: PState) -> (
    PState,
    Option<SpecExpr>,
)
    decreases toks.len() - st.pos, 4int,
{
    let token = cur_tok(toks, st);
    let (s1, els) = parse_expression_list(toks, st, TokenType::Rbracket);
    match els {
        None => (s1, None),
        Some(elements) => (s1, Some(SpecExpr::ArrayLiteral { token, elements })),
    }
}

pub open spec fn parse_index_expression(toks: Seq<SpecToken>, st: PState, left: SpecExpr) -> (
    PState,
    Option<SpecExpr>,
)
    decreases toks.len() - st.pos, 4int,
{
    let token = cur_tok(toks, st);
    let s1 = advance_tok(toks, st);
    if s1.pos <= st.pos {
        (s1, None)
    } else {
        let (s2, r) = parse_expression(toks, s1, Precedence::Lowest);
        match r {
            None => (s2, None),
            Some(index) => {
                let (s3, ok) = expect_peek(toks, s2, TokenType::Rbracket);
                if ok {
                    (s3, Some(SpecExpr::Index { token, left: Box::new(left), index: Box::new(index) }))
                } else {
                    (s3, None)
                }
            },
        }
    }
}

pub open spec fn parse_hash_literal(toks: Seq<SpecToken>, st: PState) -> (
    PState,
    Option<SpecExpr>,
)
    decreases toks.len() - st.pos, 4int,
{
    let token = cur_tok(toks, st);
    let (s1, r) = hash_loop(toks, st, Seq::empty());
    match r {
        None => (s1, None),
        Some(pairs) => (s1, Some(SpecExpr::HashLiteral { token, pairs })),
    }
}

/// The `key: value` pairs of a hash literal up to its `}`.
pub open spec fn hash_loop(toks: Seq<SpecToken>, st: PState, acc: Seq<(SpecExpr, SpecExpr)>) -> (
    PState,
    Option<Seq<(SpecExpr, SpecExpr)>>,
)
    decreases toks.len() - st.pos, 3int,
{
    if !valid(toks, st) {
        (st, None)
    } else if peek_tok(toks, st).kind != TokenType::Rbrace {
        let s1 = advance_tok(toks, st);
        if s1.pos <= st.pos {
            (s1, None)
        } else {
            let (s2, k) = parse_expression(toks, s1, Precedence::Lowest);
            match k {
                None => (s2, None),
                Some(key) => {
                    let (s3, ok3) = expect_peek(toks, s2, TokenType::Colon);
                    if !ok3 {
                        (s3, None)
                    } else {
                        let s4 = advance_tok(toks, s3);
                        if s4.pos <= st.pos || !valid(toks, s4) {
                            (s4, None)
                        } else {
                            let (s5, v) = parse_expression(toks, s4, Precedence::Lowest);
                            match v {
                                None => (s5, None),
                                Some(value) => {
                                    let acc1 = acc.push((key, value));
                                    if peek_tok(toks, s5).kind != TokenType::Rbrace {
                                        let (s6, ok6) = expect_peek(toks, s5, TokenType::Comma);
                                        if !ok6 {
                                            (s6, None)
                                        } else if s6.pos <= st.pos || !valid(toks, s6) {
                                            (s6, None)
                                        } else {
                                            hash_loop(toks, s6, acc1)
                                        }
                                    } else if s5.pos <= st.pos || !valid(toks, s5) {
                                        (s5, None)
                                    } else {
                                        hash_loop(toks, s5, acc1)
                                    }
                                },
                            }
                        }
                    }
                },
            }
        }
    } else {
        let (s7, ok7) = expect_peek(toks, st, TokenType::Rbrace);
        if ok7 {
            (s7, Some(acc))
        } else {
            (s7, None)
        }
    }
}

/// The statements of a whole program, read up to the final `Eof`.
pub open spec fn program_loop(toks: Seq<SpecToken>, st: PState, acc: Seq<SpecStmt>) -> (
    PState,
    Seq<SpecStmt>,
)
    decreases toks.len() - st.pos,
{
    if !valid(toks, st) || cur_tok(toks, st).kind == TokenType::Eof {
        (st, acc)
    } else {
        let (s1, r) = parse_statement(toks, st);
        let acc1 = match r {
            Some(x) => acc.push(x),
            None => acc,
        };
        let s2 = advance_tok(toks, s1);
        if s2.pos <= st.pos || !valid(toks, s2) {
            (s2, acc1)
        } else {
            program_loop(toks, s2, acc1)
        }
    }
}

} // verus!
