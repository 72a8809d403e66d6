//! The Pratt parser: reads the tokens of a lexer into a program, recording a
//! message for each syntax error it meets.

use vstd::prelude::*;
use crate::ast::{
    ArrayLiteral, BlockStatement, Boolean, CallExpression, Expression, ExpressionStatement,
    FloatLiteral, FunctionLiteral, HashLiteral, Ident, IfExpression, IndexExpression,
    InfixExpression, IntegerLiteral, LetStatement, MacroLiteral, PrefixExpression, Program,
    ReturnStatement, SpecExpr, SpecStmt, Statement, StringLiteral, copy_token, view_exprs,
    view_idents, view_pairs, view_stmts,
};
use crate::lexer::{Lexer, lex_all, lemma_lex_token_progress};
use crate::parser_spec::{
    PState, Precedence, prec_level, precedence_of, has_infix, valid, cur_tok, peek_tok, advance_tok, add_error, peek_error_msg, expect_peek, ident_of, is_digit_char, decimal_value, all_digits, parse_i64_spec, parse_integer_literal, skip_semicolons, param_loop, parse_function_parameters, parse_statement, parse_let_statement, parse_return_statement, parse_expression_statement, parse_expression, parse_infix_loop, parse_prefix, parse_infix, parse_prefix_expression, parse_infix_expression, parse_grouped_expression, parse_if_expression, parse_block_statement, block_loop, parse_function_literal, parse_macro_literal, parse_expression_list, list_loop, parse_call_expression, parse_array_literal, parse_index_expression, parse_hash_literal, hash_loop, program_loop,
};
use crate::text::{append_str, string_of};
use crate::token::{SpecToken, Token, TokenType};

verus! {

pub open spec fn opt_expr_view(o: Option<Expression>) -> Option<SpecExpr> {
    match o {
        Some(e) => Some(e@),
        None => None,
    }
}

pub open spec fn opt_stmt_view(o: Option<Statement>) -> Option<SpecStmt> {
    match o {
        Some(s) => Some(s@),
        None => None,
    }
}

pub open spec fn opt_exprs_view(o: Option<Vec<Expression>>) -> Option<Seq<SpecExpr>> {
    match o {
        Some(v) => Some(view_exprs(v@)),
        None => None,
    }
}

pub open spec fn tokens_view(v: Seq<Token>) -> Seq<SpecToken> {
    Seq::new(v.len(), |i: int| v[i]@)
}

pub open spec fn strings_view(v: Seq<String>) -> Seq<Seq<char>> {
    Seq::new(v.len(), |i: int| v[i]@)
}

fn precedence_of_exec(t: TokenType) -> (r: Precedence)
    ensures
        r == precedence_of(t),
{
    match t {
        TokenType::Eq | TokenType::NotEq => Precedence::Equals,
        TokenType::Lt | TokenType::Gt => Precedence::LessGreater,
        TokenType::Plus | TokenType::Minus => Precedence::Sum,
        TokenType::Slash | TokenType::Asterisk => Precedence::Product,
        TokenType::Lparen => Precedence::Call,
        TokenType::Lbracket => Precedence::Index,
        _ => Precedence::Lowest,
    }
}

fn level(p: Precedence) -> (r: u8)
    ensures
        r as int == prec_level(p),
{
    match p {
        Precedence::Lowest => 0,
        Precedence::Equals => 1,
        Precedence::LessGreater => 2,
        Precedence::Sum => 3,
        Precedence::Product => 4,
        Precedence::Prefix => 5,
        Precedence::Call => 6,
        Precedence::Index => 7,
    }
}

fn has_infix_exec(t: TokenType) -> (r: bool)
    ensures
        r == has_infix(t),
{
    match t {
        TokenType::Plus | TokenType::Minus | TokenType::Asterisk | TokenType::Slash
        | TokenType::Eq | TokenType::NotEq | TokenType::Lt | TokenType::Gt | TokenType::Lparen
        | TokenType::Lbracket => true,
        _ => false,
    }
}

proof fn lemma_decimal_nonneg(ds: Seq<char>)
    requires
        all_digits(ds),
    ensures
        decimal_value(ds) >= 0,
    decreases ds.len(),
{
    if ds.len() > 0 {
        assert(is_digit_char(ds[ds.len() - 1]));
        lemma_decimal_nonneg(ds.drop_last());
    }
}

proof fn lemma_decimal_prefix(ds: Seq<char>, k: int)
    requires
        all_digits(ds),
        0 <= k <= ds.len(),
    ensures
        decimal_value(ds.take(k)) <= decimal_value(ds),
    decreases ds.len() - k,
{
    if k < ds.len() {
        lemma_decimal_prefix(ds, k + 1);
        let p = ds.take(k + 1);
        assert(p.drop_last() =~= ds.take(k));
        assert(all_digits(ds.take(k)));
        lemma_decimal_nonneg(ds.take(k));
        assert(is_digit_char(p.last()));
    } else {
        assert(ds.take(k) =~= ds);
    }
}

/// Reads a string as an `i64`: an optional sign then decimal digits, within
/// range.
pub fn parse_i64(s: &str) -> (r: Option<i64>)
    ensures
        r == parse_i64_spec(s@),
{
    let n = s.unicode_len();
    if n == 0 {
        return None;
    }
    let c0 = s.get_char(0);
    let neg = c0 == '-';
    let start: usize = if c0 == '-' || c0 == '+' {
        1
    } else {
        0
    };
    let ghost ds = if s@[0] == '-' || s@[0] == '+' {
        s@.drop_first()
    } else {
        s@
    };
    if start == n {
        return None;
    }
    let mut acc: u64 = 0;
    let mut overflow = false;
    let mut i: usize = start;
    while i < n
        invariant
            start <= i <= n,
            n == s@.len(),
            ds.len() == n - start,
            ds == (if s@[0] == '-' || s@[0] == '+' {
                s@.drop_first()
            } else {
                s@
            }),
            neg == (s@[0] == '-'),
            forall|k: int| 0 <= k < ds.len() ==> ds[k] == s@[k + start],
            all_digits(ds.take(i - start)),
            !overflow ==> acc as int == decimal_value(ds.take(i - start)),
            overflow ==> decimal_value(ds.take(i - start)) > u64::MAX,
        decreases n - i,
    {
        let c = s.get_char(i);
        if !('0' <= c && c <= '9') {
            assert(ds[i - start] == c);
            assert(!all_digits(ds));
            return None;
        }
        let ghost k = i - start;
        proof {
            assert(ds.take(k + 1).drop_last() =~= ds.take(k));
            assert(ds.take(k + 1).last() == c);
            assert(all_digits(ds.take(k + 1)));
            lemma_decimal_nonneg(ds.take(k));
        }
        let d = (c as u32 - '0' as u32) as u64;
        if !overflow {
            match acc.checked_mul(10) {
                Some(m) => match m.checked_add(d) {
                    Some(v) => {
                        acc = v;
                    },
                    None => {
                        overflow = true;
                    },
                },
                None => {
                    overflow = true;
                },
            }
        }
        i = i + 1;
    }
    proof {
        assert(ds.take(n - start) =~= ds);
    }
    if overflow {
        return None;
    }
    if neg {
        if acc <= 9223372036854775808 {
            Some((0i128 - acc as i128) as i64)
        } else {
            None
        }
    } else {
        if acc <= 9223372036854775807 {
            Some(acc as i64)
        } else {
            None
        }
    }
}

proof fn lemma_not_eof_advances(toks: Seq<SpecToken>, st: PState)
    requires
        valid(toks, st),
    ensures
        peek_tok(toks, st).kind != TokenType::Eof ==> advance_tok(toks, st).pos == st.pos + 1,
        cur_tok(toks, st).kind != TokenType::Eof ==> st.pos + 1 < toks.len(),
{
}

proof fn lemma_program_loop_step(
    toks: Seq<SpecToken>,
    st: PState,
    acc: Seq<SpecStmt>,
    s1: PState,
    r: Option<SpecStmt>,
)
    requires
        valid(toks, st),
        valid(toks, s1),
        st.pos <= s1.pos,
        cur_tok(toks, st).kind != TokenType::Eof,
        parse_statement(toks, st) == (s1, r),
    ensures
        program_loop(toks, st, acc) == program_loop(
            toks,
            advance_tok(toks, s1),
            match r {
                Some(x) => acc.push(x),
                None => acc,
            },
        ),
{
    lemma_not_eof_advances(toks, st);
}

proof fn lemma_block_loop_step(
    toks: Seq<SpecToken>,
    st: PState,
    acc: Seq<SpecStmt>,
    s1: PState,
    r: Option<SpecStmt>,
)
    requires
        valid(toks, st),
        valid(toks, s1),
        st.pos <= s1.pos,
        cur_tok(toks, st).kind != TokenType::Eof,
        cur_tok(toks, st).kind != TokenType::Rbrace,
        parse_statement(toks, st) == (s1, r),
    ensures
        block_loop(toks, st, acc) == block_loop(
            toks,
            advance_tok(toks, s1),
            match r {
                Some(x) => acc.push(x),
                None => acc,
            },
        ),
{
    lemma_not_eof_advances(toks, st);
}

/// Reads the tokens of a lexer and parses them.
pub struct Parser {
    tokens: Vec<Token>,
    pos: usize,
    errors: Vec<String>,
}

impl Parser {
    /// The tokens being parsed; the last one is `Eof`.
    pub closed spec fn toks(&self) -> Seq<SpecToken> {
        tokens_view(self.tokens@)
    }

    /// The position reached and the messages recorded.
    pub closed spec fn state(&self) -> PState {
        PState { pos: self.pos as int, errors: strings_view(self.errors@) }
    }

    pub open spec fn wf(&self) -> bool {
        valid(self.toks(), self.state())
    }

    /// A parser over all the tokens the lexer reads from where it stands.
    pub fn new(l: Lexer) -> (p: Parser)
        requires
            l.wf(),
        ensures
            p.wf(),
            p.toks() == lex_all(l.source(), l.pos()),
            p.state() == (PState { pos: 0, errors: Seq::empty() }),
    {
        let mut l = l;
        let ghost s = l.source();
        let ghost p0 = l.pos();
        proof {
            l.lemma_wf();
            crate::lexer::lemma_lex_all_ends_with_eof(s, p0);
        }
        let mut tokens: Vec<Token> = Vec::new();
        loop
            invariant_except_break
                tokens_view(tokens@) + lex_all(s, l.pos()) == lex_all(s, p0),
            invariant
                l.wf(),
                l.source() == s,
                0 <= p0 <= l.pos() <= s.len(),
            ensures
                tokens_view(tokens@) == lex_all(s, p0),
            decreases s.len() - l.pos(),
        {
            let ghost before = l.pos();
            proof {
                lemma_lex_token_progress(s, before);
            }
            let tok = l.next_token();
            let done = tok.token_type == TokenType::Eof && l.at_end();
            let ghost tv = tok@;
            let ghost prev = tokens@;
            tokens.push(tok);
            proof {
                l.lemma_wf();
                assert(tokens_view(tokens@) =~= tokens_view(prev).push(tv));
            }
            if done {
                assert(lex_all(s, before) =~= seq![tv]);
                assert(tokens_view(tokens@) =~= lex_all(s, p0));
                break;
            }
            assert(lex_all(s, before) =~= seq![tv] + lex_all(s, l.pos()));
        }
        let p = Parser { tokens, pos: 0, errors: Vec::new() };
        assert(p.state().errors =~= Seq::<Seq<char>>::empty());
        p
    }

    /// The messages recorded so far, in order.
    pub fn errors(&self) -> (r: &[String])
        ensures
            strings_view(r@) == self.state().errors,
    {
        self.errors.as_slice()
    }

    fn cur_token(&self) -> (r: &Token)
        requires
            self.wf(),
        ensures
            r@ == cur_tok(self.toks(), self.state()),
    {
        &self.tokens[self.pos]
    }

    fn peek_token(&self) -> (r: &Token)
        requires
            self.wf(),
        ensures
            r@ == peek_tok(self.toks(), self.state()),
    {
        let n = self.tokens.len();
        if self.pos < n - 1 {
            &self.tokens[self.pos + 1]
        } else {
            &self.tokens[n - 1]
        }
    }

    fn next_token(&mut self)
        requires
            old(self).wf(),
        ensures
            final(self).wf(),
            final(self).toks() == old(self).toks(),
            final(self).state() == advance_tok(old(self).toks(), old(self).state()),
    {
        let n = self.tokens.len();
        if self.pos < n - 1 {
            self.pos = self.pos + 1;
        }
    }

    fn cur_token_is(&self, t: TokenType) -> (r: bool)
        requires
            self.wf(),
        ensures
            r == (cur_tok(self.toks(), self.state()).kind == t),
    {
        self.cur_token().token_type == t
    }

    fn peek_token_is(&self, t: TokenType) -> (r: bool)
        requires
            self.wf(),
        ensures
            r == (peek_tok(self.toks(), self.state()).kind == t),
    {
        self.peek_token().token_type == t
    }

    fn push_error(&mut self, msg: String)
        requires
            old(self).wf(),
        ensures
            final(self).wf(),
            final(self).toks() == old(self).toks(),
            final(self).state() == add_error(old(self).state(), msg@),
    {
        self.errors.push(msg);
        assert(strings_view(self.errors@) =~= strings_view(old(self).errors@).push(msg@));
    }

    fn peek_error(&mut self, t: TokenType)
        requires
            old(self).wf(),
        ensures
            final(self).wf(),
            final(self).toks() == old(self).toks(),
            final(self).state() == add_error(
                old(self).state(),
                peek_error_msg(t, peek_tok(old(self).toks(), old(self).state()).kind),
            ),
    {
        let got = self.peek_token().token_type;
        let mut msg = string_of("expected next token to be ");
        append_str(&mut msg, t.as_str());
        append_str(&mut msg, ", got ");
        append_str(&mut msg, got.as_str());
        append_str(&mut msg, " instead");
        self.push_error(msg);
    }

    fn expect_peek(&mut self, t: TokenType) -> (r: bool)
        requires
            old(self).wf(),
        ensures
            final(self).wf(),
            final(self).toks() == old(self).toks(),
            (final(self).state(), r) == expect_peek(old(self).toks(), old(self).state(), t),
    {
        if self.peek_token_is(t) {
            self.next_token();
            true
        } else {
            self.peek_error(t);
            false
        }
    }
}


impl Parser {
    /// Parses the whole token sequence into a program.
    #[verifier::rlimit(80)]
    pub fn parse_program(&mut self) -> (program: Program)
        requires
            old(self).wf(),
        ensures
            final(self).wf(),
            final(self).toks() == old(self).toks(),
            (final(self).state(), program@) == program_loop(
                old(self).toks(),
                old(self).state(),
                Seq::empty(),
            ),
    {
        let mut statements: Vec<Statement> = Vec::new();
        let ghost toks = self.toks();
        proof {
            assert(view_stmts(statements@) =~= Seq::<SpecStmt>::empty());
        }
        while !self.cur_token_is(TokenType::Eof)
            invariant
                self.wf(),
                self.toks() == toks,
                program_loop(toks, self.state(), view_stmts(statements@)) == program_loop(
                    toks,
                    old(self).state(),
                    Seq::empty(),
                ),
            decreases toks.len() - self.state().pos,
        {
            let ghost st = self.state();
            let ghost prev = statements@;
            proof {
                lemma_not_eof_advances(toks, st);
            }
            let r = self.parse_statement();
            let ghost s1 = self.state();
            let ghost rv = opt_stmt_view(r);
            match r {
                Some(stmt) => {
                    let ghost sv = stmt@;
                    statements.push(stmt);
                    assert(view_stmts(statements@) =~= view_stmts(prev).push(sv));
                },
                None => {},
            }
            self.next_token();
            proof {
                lemma_program_loop_step(toks, st, view_stmts(prev), s1, rv);
            }
        }
        Program { statements }
    }

    fn parse_statement(&mut self) -> (r: Option<Statement>)
        requires
            old(self).wf(),
        ensures
            final(self).wf(),
            final(self).toks() == old(self).toks(),
            old(self).state().pos <= final(self).state().pos,
            (final(self).state(), opt_stmt_view(r)) == parse_statement(
                old(self).toks(),
                old(self).state(),
            ),
        decreases old(self).toks().len() - old(self).state().pos, 9int,
    {
        match self.cur_token().token_type {
            TokenType::Let => self.parse_let_statement(),
            TokenType::Return => self.parse_return_statement(),
            _ => self.parse_expression_statement(),
        }
    }

    fn skip_semicolons(&mut self)
        requires
            old(self).wf(),
        ensures
            final(self).wf(),
            final(self).toks() == old(self).toks(),
            old(self).state().pos <= final(self).state().pos,
            final(self).state() == skip_semicolons(old(self).toks(), old(self).state()),
    {
        while self.peek_token_is(TokenType::Semicolon)
            invariant
                self.wf(),
                self.toks() == old(self).toks(),
                old(self).state().pos <= self.state().pos,
                skip_semicolons(self.toks(), self.state()) == skip_semicolons(
                    old(self).toks(),
                    old(self).state(),
                ),
            decreases self.toks().len() - self.state().pos,
        {
            self.next_token();
        }
    }

    fn parse_let_statement(&mut self) -> (r: Option<Statement>)
        requires
            old(self).wf(),
        ensures
            final(self).wf(),
            final(self).toks() == old(self).toks(),
            old(self).state().pos <= final(self).state().pos,
            (final(self).state(), opt_stmt_view(r)) == parse_let_statement(
                old(self).toks(),
                old(self).state(),
            ),
        decreases old(self).toks().len() - old(self).state().pos, 8int,
    {
        let p0 = self.pos;
        let token = copy_token(self.cur_token());
        if !self.expect_peek(TokenType::Ident) {
            return None;
        }
        let name = Ident { token: copy_token(self.cur_token()), value: self.cur_token().literal.clone() };
        if !self.expect_peek(TokenType::Assign) {
            return None;
        }
        self.next_token();
        if self.pos <= p0 {
            return None;
        }
        let value = match self.parse_expression(Precedence::Lowest) {
            Some(v) => v,
            None => {
                return None;
            },
        };
        self.skip_semicolons();
        Some(Statement::Let(LetStatement { token, name, value }))
    }

    fn parse_return_statement(&mut self) -> (r: Option<Statement>)
        requires
            old(self).wf(),
        ensures
            final(self).wf(),
            final(self).toks() == old(self).toks(),
            old(self).state().pos <= final(self).state().pos,
            (final(self).state(), opt_stmt_view(r)) == parse_return_statement(
                old(self).toks(),
                old(self).state(),
            ),
        decreases old(self).toks().len() - old(self).state().pos, 8int,
    {
        let p0 = self.pos;
        let token = copy_token(self.cur_token());
        self.next_token();
        if self.pos <= p0 {
            return None;
        }
        let return_value = match self.parse_expression(Precedence::Lowest) {
            Some(v) => v,
            None => {
                return None;
            },
        };
        self.skip_semicolons();
        Some(Statement::Return(ReturnStatement { token, return_value }))
    }

    fn parse_expression_statement(&mut self) -> (r: Option<Statement>)
        requires
            old(self).wf(),
        ensures
            final(self).wf(),
            final(self).toks() == old(self).toks(),
            old(self).state().pos <= final(self).state().pos,
            (final(self).state(), opt_stmt_view(r)) == parse_expression_statement(
                old(self).toks(),
                old(self).state(),
            ),
        decreases old(self).toks().len() - old(self).state().pos, 8int,
    {
        let token = copy_token(self.cur_token());
        let expression = match self.parse_expression(Precedence::Lowest) {
            Some(e) => e,
            None => {
                return None;
            },
        };
        if self.peek_token_is(TokenType::Semicolon) {
            self.next_token();
        }
        Some(Statement::Expression(ExpressionStatement { token, expression }))
    }

    fn parse_expression(&mut self, precedence: Precedence) -> (r: Option<Expression>)
        requires
            old(self).wf(),
        ensures
            final(self).wf(),
            final(self).toks() == old(self).toks(),
            old(self).state().pos <= final(self).state().pos,
            (final(self).state(), opt_expr_view(r)) == parse_expression(
                old(self).toks(),
                old(self).state(),
                precedence,
            ),
        decreases old(self).toks().len() - old(self).state().pos, 7int,
    {
        let p0 = self.pos;
        let ghost toks = self.toks();
        let ghost st0 = self.state();
        let mut left = match self.parse_prefix() {
            Some(l) => l,
            None => {
                return None;
            },
        };
        if self.pos < p0 {
            return None;
        }
        while !self.cur_token_is(TokenType::Semicolon) && level(precedence) < level(
            precedence_of_exec(self.peek_token().token_type),
        )
            invariant
                self.wf(),
                self.toks() == toks,
                p0 as int == st0.pos,
                p0 <= self.pos,
                toks == old(self).toks(),
                st0 == old(self).state(),
                parse_infix_loop(toks, self.state(), precedence, left@) == parse_expression(
                    toks,
                    st0,
                    precedence,
                ),
            decreases toks.len() - self.state().pos,
        {
            if !has_infix_exec(self.peek_token().token_type) {
                return Some(left);
            }
            let p1 = self.pos;
            self.next_token();
            if self.pos <= p1 {
                return Some(left);
            }
            let ps1 = self.pos;
            left = match self.parse_infix(left) {
                Some(l) => l,
                None => {
                    return None;
                },
            };
            if self.pos < ps1 {
                return None;
            }
        }
        Some(left)
    }

    fn parse_prefix(&mut self) -> (r: Option<Expression>)
        requires
            old(self).wf(),
        ensures
            final(self).wf(),
            final(self).toks() == old(self).toks(),
            old(self).state().pos <= final(self).state().pos,
            (final(self).state(), opt_expr_view(r)) == parse_prefix(
                old(self).toks(),
                old(self).state(),
            ),
        decreases old(self).toks().len() - old(self).state().pos, 5int,
    {
        let token = copy_token(self.cur_token());
        match token.token_type {
            TokenType::Ident => {
                let value = token.literal.clone();
                Some(Expression::Ident(Ident { token, value }))
            },
            TokenType::Int => self.parse_integer_literal(),
            TokenType::Float => Some(Expression::FloatLiteral(FloatLiteral { token })),
            TokenType::Bang | TokenType::Minus => self.parse_prefix_expression(),
            TokenType::True | TokenType::False => {
                let value = token.token_type == TokenType::True;
                Some(Expression::Boolean(Boolean { token, value }))
            },
            TokenType::Lparen => self.parse_grouped_expression(),
            TokenType::If => self.parse_if_expression(),
            TokenType::Function => self.parse_function_literal(),
            TokenType::String => {
                let value = token.literal.clone();
                Some(Expression::StringLiteral(StringLiteral { token, value }))
            },
            TokenType::Lbracket => self.parse_array_literal(),
            TokenType::Lbrace => self.parse_hash_literal(),
            TokenType::Macro => self.parse_macro_literal(),
            _ => {
                let mut msg = string_of("no prefix parse function for ");
                append_str(&mut msg, token.token_type.as_str());
                append_str(&mut msg, " found");
                self.push_error(msg);
                None
            },
        }
    }

    fn parse_integer_literal(&mut self) -> (r: Option<Expression>)
        requires
            old(self).wf(),
        ensures
            final(self).wf(),
            final(self).toks() == old(self).toks(),
            old(self).state().pos <= final(self).state().pos,
            (final(self).state(), opt_expr_view(r)) == parse_integer_literal(
                old(self).toks(),
                old(self).state(),
            ),
    {
        let token = copy_token(self.cur_token());
        match parse_i64(token.literal.as_str()) {
            Some(value) => Some(Expression::IntegerLiteral(IntegerLiteral { token, value })),
            None => {
                let mut msg = string_of("could not parse \"");
                append_str(&mut msg, token.literal.as_str());
                append_str(&mut msg, "\" as integer");
                self.push_error(msg);
                None
            },
        }
    }

    fn parse_infix(&mut self, left: Expression) -> (r: Option<Expression>)
        requires
            old(self).wf(),
        ensures
            final(self).wf(),
            final(self).toks() == old(self).toks(),
            old(self).state().pos <= final(self).state().pos,
            (final(self).state(), opt_expr_view(r)) == parse_infix(
                old(self).toks(),
                old(self).state(),
                left@,
            ),
        decreases old(self).toks().len() - old(self).state().pos, 5int,
    {
        match self.cur_token().token_type {
            TokenType::Plus | TokenType::Minus | TokenType::Asterisk | TokenType::Slash
            | TokenType::Eq | TokenType::NotEq | TokenType::Lt | TokenType::Gt => self.parse_infix_expression(
                left,
            ),
            TokenType::Lparen => self.parse_call_expression(left),
            TokenType::Lbracket => self.parse_index_expression(left),
            _ => Some(left),
        }
    }

    fn parse_prefix_expression(&mut self) -> (r: Option<Expression>)
        requires
            old(self).wf(),
        ensures
            final(self).wf(),
            final(self).toks() == old(self).toks(),
            old(self).state().pos <= final(self).state().pos,
            (final(self).state(), opt_expr_view(r)) == parse_prefix_expression(
                old(self).toks(),
                old(self).state(),
            ),
        decreases old(self).toks().len() - old(self).state().pos, 4int,
    {
        let p0 = self.pos;
        let token = copy_token(self.cur_token());
        let operator = self.cur_token().literal.clone();
        self.next_token();
        if self.pos <= p0 {
            return None;
        }
        match self.parse_expression(Precedence::Prefix) {
            Some(right) => Some(
                Expression::Prefix(PrefixExpression { token, operator, right: Box::new(right) }),
            ),
            None => None,
        }
    }

    fn parse_infix_expression(&mut self, left: Expression) -> (r: Option<Expression>)
        requires
            old(self).wf(),
        ensures
            final(self).wf(),
            final(self).toks() == old(self).toks(),
            old(self).state().pos <= final(self).state().pos,
            (final(self).state(), opt_expr_view(r)) == parse_infix_expression(
                old(self).toks(),
                old(self).state(),
                left@,
            ),
        decreases old(self).toks().len() - old(self).state().pos, 4int,
    {
        let p0 = self.pos;
        let token = copy_token(self.cur_token());
        let operator = self.cur_token().literal.clone();
        let precedence = precedence_of_exec(token.token_type);
        self.next_token();
        if self.pos <= p0 {
            return None;
        }
        match self.parse_expression(precedence) {
            Some(right) => Some(
                Expression::Infix(
                    InfixExpression { token, left: Box::new(left), operator, right: Box::new(right) },
                ),
            ),
            None => None,
        }
    }

    fn parse_grouped_expression(&mut self) -> (r: Option<Expression>)
        requires
            old(self).wf(),
        ensures
            final(self).wf(),
            final(self).toks() == old(self).toks(),
            old(self).state().pos <= final(self).state().pos,
            (final(self).state(), opt_expr_view(r)) == parse_grouped_expression(
                old(self).toks(),
                old(self).state(),
            ),
        decreases old(self).toks().len() - old(self).state().pos, 4int,
    {
        let p0 = self.pos;
        self.next_token();
        if self.pos <= p0 {
            return None;
        }
        let e = match self.parse_expression(Precedence::Lowest) {
            Some(e) => e,
            None => {
                return None;
            },
        };
        if !self.expect_peek(TokenType::Rparen) {
            return None;
        }
        Some(e)
    }

    fn parse_if_expression(&mut self) -> (r: Option<Expression>)
        requires
            old(self).wf(),
        ensures
            final(self).wf(),
            final(self).toks() == old(self).toks(),
            old(self).state().pos <= final(self).state().pos,
            (final(self).state(), opt_expr_view(r)) == parse_if_expression(
                old(self).toks(),
                old(self).state(),
            ),
        decreases old(self).toks().len() - old(self).state().pos, 4int,
    {
        let p0 = self.pos;
        let token = copy_token(self.cur_token());
        if !self.expect_peek(TokenType::Lparen) {
            return None;
        }
        self.next_token();
        if self.pos <= p0 {
            return None;
        }
        let condition = match self.parse_expression(Precedence::Lowest) {
            Some(c) => c,
            None => {
                return None;
            },
        };
        if !self.expect_peek(TokenType::Rparen) {
            return None;
        }
        if !self.expect_peek(TokenType::Lbrace) {
            return None;
        }
        if self.pos <= p0 {
            return None;
        }
        let consequence = self.parse_block_statement();
        if self.peek_token_is(TokenType::Else) {
            self.next_token();
            if !self.expect_peek(TokenType::Lbrace) {
                return None;
            }
            if self.pos <= p0 {
                return None;
            }
            let alternative = self.parse_block_statement();
            Some(
                Expression::If(
                    IfExpression {
                        token,
                        condition: Box::new(condition),
                        consequence,
                        alternative: Some(alternative),
                    },
                ),
            )
        } else {
            Some(
                Expression::If(
                    IfExpression {
                        token,
                        condition: Box::new(condition),
                        consequence,
                        alternative: None,
                    },
                ),
            )
        }
    }

    #[verifier::rlimit(80)]
    fn parse_block_statement(&mut self) -> (r: BlockStatement)
        requires
            old(self).wf(),
        ensures
            final(self).wf(),
            final(self).toks() == old(self).toks(),
            old(self).state().pos <= final(self).state().pos,
            (final(self).state(), r@) == parse_block_statement(old(self).toks(), old(self).state()),
        decreases old(self).toks().len() - old(self).state().pos, 3int,
    {
        let p0 = self.pos;
        let ghost toks = self.toks();
        let token = copy_token(self.cur_token());
        let mut statements: Vec<Statement> = Vec::new();
        self.next_token();
        if self.pos <= p0 {
            let r = BlockStatement { token, statements };
            assert(r@.statements =~= Seq::<SpecStmt>::empty());
            return r;
        }
        let ghost s1 = self.state();
        proof {
            assert(view_stmts(statements@) =~= Seq::<SpecStmt>::empty());
        }
        while !self.cur_token_is(TokenType::Rbrace) && !self.cur_token_is(TokenType::Eof)
            invariant
                self.wf(),
                self.toks() == toks,
                toks == old(self).toks(),
                p0 < self.pos,
                p0 as int == old(self).state().pos,
                block_loop(toks, self.state(), view_stmts(statements@)) == block_loop(
                    toks,
                    s1,
                    Seq::empty(),
                ),
            decreases toks.len() - self.state().pos,
        {
            let ghost prev = statements@;
            let ghost st = self.state();
            proof {
                lemma_not_eof_advances(toks, st);
            }
            let r = self.parse_statement();
            let ghost s1 = self.state();
            let ghost rv = opt_stmt_view(r);
            match r {
                Some(stmt) => {
                    let ghost sv = stmt@;
                    statements.push(stmt);
                    assert(view_stmts(statements@) =~= view_stmts(prev).push(sv));
                },
                None => {},
            }
            self.next_token();
            proof {
                lemma_block_loop_step(toks, st, view_stmts(prev), s1, rv);
            }
        }
        BlockStatement { token, statements }
    }

    fn parse_function_parameters(&mut self) -> (r: Option<Vec<Ident>>)
        requires
            old(self).wf(),
        ensures
            final(self).wf(),
            final(self).toks() == old(self).toks(),
            old(self).state().pos <= final(self).state().pos,
            (final(self).state(), match r {
                Some(v) => Some(view_idents(v@)),
                None => None,
            }) == parse_function_parameters(old(self).toks(), old(self).state()),
    {
        let mut idents: Vec<Ident> = Vec::new();
        if self.peek_token_is(TokenType::Rparen) {
            self.next_token();
            assert(view_idents(idents@) =~= Seq::<crate::ast::SpecIdent>::empty());
            return Some(idents);
        }
        self.next_token();
        let ghost toks = self.toks();
        let ghost s1 = self.state();
        idents.push(Ident { token: copy_token(self.cur_token()), value: self.cur_token().literal.clone() });
        proof {
            assert(view_idents(idents@) =~= seq![ident_of(cur_tok(toks, s1))]);
        }
        while self.peek_token_is(TokenType::Comma)
            invariant
                self.wf(),
                self.toks() == toks,
                toks == old(self).toks(),
                old(self).state().pos <= self.state().pos,
                param_loop(toks, self.state(), view_idents(idents@)) == param_loop(
                    toks,
                    s1,
                    seq![ident_of(cur_tok(toks, s1))],
                ),
            decreases toks.len() - self.state().pos,
        {
            let ghost prev = idents@;
            proof {
                lemma_not_eof_advances(toks, self.state());
            }
            self.next_token();
            self.next_token();
            let ident = Ident { token: copy_token(self.cur_token()), value: self.cur_token().literal.clone() };
            let ghost iv = ident@;
            idents.push(ident);
            assert(view_idents(idents@) =~= view_idents(prev).push(iv));
        }
        if !self.expect_peek(TokenType::Rparen) {
            return None;
        }
        Some(idents)
    }

    fn parse_function_literal(&mut self) -> (r: Option<Expression>)
        requires
            old(self).wf(),
        ensures
            final(self).wf(),
            final(self).toks() == old(self).toks(),
            old(self).state().pos <= final(self).state().pos,
            (final(self).state(), opt_expr_view(r)) == parse_function_literal(
                old(self).toks(),
                old(self).state(),
            ),
        decreases old(self).toks().len() - old(self).state().pos, 4int,
    {
        let p0 = self.pos;
        let token = copy_token(self.cur_token());
        if !self.expect_peek(TokenType::Lparen) {
            return None;
        }
        let parameters = match self.parse_function_parameters() {
            Some(p) => p,
            None => {
                return None;
            },
        };
        if !self.expect_peek(TokenType::Lbrace) {
            return None;
        }
        if self.pos <= p0 {
            return None;
        }
        let body = self.parse_block_statement();
        Some(Expression::FunctionLiteral(FunctionLiteral { token, parameters, body }))
    }

    fn parse_macro_literal(&mut self) -> (r: Option<Expression>)
        requires
            old(self).wf(),
        ensures
            final(self).wf(),
            final(self).toks() == old(self).toks(),
            old(self).state().pos <= final(self).state().pos,
            (final(self).state(), opt_expr_view(r)) == parse_macro_literal(
                old(self).toks(),
                old(self).state(),
            ),
        decreases old(self).toks().len() - old(self).state().pos, 4int,
    {
        let p0 = self.pos;
        let token = copy_token(self.cur_token());
        if !self.expect_peek(TokenType::Lparen) {
            return None;
        }
        let parameters = match self.parse_function_parameters() {
            Some(p) => p,
            None => {
                return None;
            },
        };
        if !self.expect_peek(TokenType::Lbrace) {
            return None;
        }
        if self.pos <= p0 {
            return None;
        }
        let body = self.parse_block_statement();
        Some(Expression::MacroLiteral(MacroLiteral { token, parameters, body }))
    }

    fn parse_expression_list(&mut self, end: TokenType) -> (r: Option<Vec<Expression>>)
        requires
            old(self).wf(),
        ensures
            final(self).wf(),
            final(self).toks() == old(self).toks(),
            old(self).state().pos <= final(self).state().pos,
            (final(self).state(), opt_exprs_view(r)) == parse_expression_list(
                old(self).toks(),
                old(self).state(),
                end,
            ),
        decreases old(self).toks().len() - old(self).state().pos, 3int,
    {
        let mut list: Vec<Expression> = Vec::new();
        if self.peek_token_is(end) {
            self.next_token();
            assert(view_exprs(list@) =~= Seq::<SpecExpr>::empty());
            return Some(list);
        }
        let p0 = self.pos;
        let ghost toks = self.toks();
        self.next_token();
        if self.pos <= p0 {
            return None;
        }
        let ps1 = self.pos;
        let first = match self.parse_expression(Precedence::Lowest) {
            Some(e) => e,
            None => {
                return None;
            },
        };
        if self.pos < ps1 {
            return None;
        }
        let ghost s2 = self.state();
        let ghost fv = first@;
        list.push(first);
        proof {
            assert(view_exprs(list@) =~= seq![fv]);
        }
        while self.peek_token_is(TokenType::Comma)
            invariant
                self.wf(),
                self.toks() == toks,
                toks == old(self).toks(),
                p0 < self.pos,
                p0 as int == old(self).state().pos,
                list_loop(toks, self.state(), view_exprs(list@), end) == list_loop(
                    toks,
                    s2,
                    seq![fv],
                    end,
                ),
                parse_expression_list(toks, old(self).state(), end) == list_loop(
                    toks,
                    s2,
                    seq![fv],
                    end,
                ),
            decreases toks.len() - self.state().pos,
        {
            let ghost prev = list@;
            proof {
                lemma_not_eof_advances(toks, self.state());
            }
            self.next_token();
            self.next_token();
            let e = match self.parse_expression(Precedence::Lowest) {
                Some(e) => e,
                None => {
                    return None;
                },
            };
            let ghost ev = e@;
            list.push(e);
            assert(view_exprs(list@) =~= view_exprs(prev).push(ev));
        }
        if !self.expect_peek(end) {
            return None;
        }
        Some(list)
    }

    fn parse_call_expression(&mut self, function: Expression) -> (r: Option<Expression>)
        requires
            old(self).wf(),
        ensures
            final(self).wf(),
            final(self).toks() == old(self).toks(),
            old(self).state().pos <= final(self).state().pos,
            (final(self).state(), opt_expr_view(r)) == parse_call_expression(
                old(self).toks(),
                old(self).state(),
                function@,
            ),
        decreases old(self).toks().len() - old(self).state().pos, 4int,
    {
        let token = copy_token(self.cur_token());
        let arguments = match self.parse_expression_list(TokenType::Rparen) {
            Some(a) => a,
            None => {
                let v: Vec<Expression> = Vec::new();
                assert(view_exprs(v@) =~= Seq::<SpecExpr>::empty());
                v
            },
        };
        Some(Expression::Call(CallExpression { token, function: Box::new(function), arguments }))
    }

    fn parse_array_literal(&mut self) -> (r: Option<Expression>)
        requires
            old(self).wf(),
        ensures
            final(self).wf(),
            final(self).toks() == old(self).toks(),
            old(self).state().pos <= final(self).state().pos,
            (final(self).state(), opt_expr_view(r)) == parse_array_literal(
                old(self).toks(),
                old(self).state(),
            ),
        decreases old(self).toks().len() - old(self).state().pos, 4int,
    {
        let token = copy_token(self.cur_token());
        match self.parse_expression_list(TokenType::Rbracket) {
            Some(elements) => Some(Expression::ArrayLiteral(ArrayLiteral { token, elements })),
            None => None,
        }
    }

    fn parse_index_expression(&mut self, left: Expression) -> (r: Option<Expression>)
        requires
            old(self).wf(),
        ensures
            final(self).wf(),
            final(self).toks() == old(self).toks(),
            old(self).state().pos <= final(self).state().pos,
            (final(self).state(), opt_expr_view(r)) == parse_index_expression(
                old(self).toks(),
                old(self).state(),
                left@,
            ),
        decreases old(self).toks().len() - old(self).state().pos, 4int,
    {
        let p0 = self.pos;
        let token = copy_token(self.cur_token());
        self.next_token();
        if self.pos <= p0 {
            return None;
        }
        let index = match self.parse_expression(Precedence::Lowest) {
            Some(i) => i,
            None => {
                return None;
            },
        };
        if !self.expect_peek(TokenType::Rbracket) {
            return None;
        }
        Some(Expression::Index(IndexExpression { token, left: Box::new(left), index: Box::new(index) }))
    }

    fn parse_hash_literal(&mut self) -> (r: Option<Expression>)
        requires
            old(self).wf(),
        ensures
            final(self).wf(),
            final(self).toks() == old(self).toks(),
            old(self).state().pos <= final(self).state().pos,
            (final(self).state(), opt_expr_view(r)) == parse_hash_literal(
                old(self).toks(),
                old(self).state(),
            ),
        decreases old(self).toks().len() - old(self).state().pos, 4int,
    {
        let p0 = self.pos;
        let ghost toks = self.toks();
        let ghost st0 = self.state();
        let token = copy_token(self.cur_token());
        let mut pairs: Vec<(Expression, Expression)> = Vec::new();
        proof {
            assert(view_pairs(pairs@) =~= Seq::<(SpecExpr, SpecExpr)>::empty());
        }
        while !self.peek_token_is(TokenType::Rbrace)
            invariant
                self.wf(),
                self.toks() == toks,
                toks == old(self).toks(),
                st0 == old(self).state(),
                p0 <= self.pos,
                p0 as int == old(self).state().pos,
                hash_loop(toks, self.state(), view_pairs(pairs@)) == hash_loop(
                    toks,
                    st0,
                    Seq::empty(),
                ),
            decreases toks.len() - self.state().pos,
        {
            let ps = self.pos;
            let ghost prev = pairs@;
            self.next_token();
            if self.pos <= ps {
                return None;
            }
            let key = match self.parse_expression(Precedence::Lowest) {
                Some(k) => k,
                None => {
                    return None;
                },
            };
            if !self.expect_peek(TokenType::Colon) {
                return None;
            }
            self.next_token();
            if self.pos <= ps {
                return None;
            }
            let value = match self.parse_expression(Precedence::Lowest) {
                Some(v) => v,
                None => {
                    return None;
                },
            };
            let ghost kv = (key@, value@);
            pairs.push((key, value));
            assert(view_pairs(pairs@) =~= view_pairs(prev).push(kv));
            if !self.peek_token_is(TokenType::Rbrace) {
                if !self.expect_peek(TokenType::Comma) {
                    return None;
                }
                if self.pos <= ps {
                    return None;
                }
            } else {
                if self.pos <= ps {
                    return None;
                }
            }
        }
        if !self.expect_peek(TokenType::Rbrace) {
            return None;
        }
        Some(Expression::HashLiteral(HashLiteral { token, pairs }))
    }
}

} // verus!
