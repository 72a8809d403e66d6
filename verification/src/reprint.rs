//! The printed form of an expression is canonical: for the expressions built
//! from names, numerals, `true`/`false`, the prefix operators `-` and `!`,
//! the eight infix operators and array literals, reading the printed text
//! back gives the same expression, so printing what was read is a fixed point.
//! Sources of that fragment written with any number of extra parentheses
//! parse without errors as the expression they denote.

use vstd::prelude::*;
use crate::ast::{SpecExpr, SpecStmt, expr_str, exprs_str, stmt_str, stmts_str};
use crate::lexer::{
    byte_at, is_digit_byte, is_letter_byte, is_whitespace, lex_all, lex_token,
    lemma_eof_is_fixed_point, lemma_lex_token_progress, scan_digits, scan_letters,
    single_char_type, skip_whitespace, token_start,
};
use crate::parser_spec::{
    PState, Precedence, all_digits, is_digit_char, parse_i64_spec, precedence_of,
    toks_ok, valid, peek_tok, expect_peek,
    parse_expression, parse_infix_loop, parse_prefix, parse_infix, parse_prefix_expression,
    parse_infix_expression, parse_grouped_expression, parse_array_literal,
    parse_expression_list, list_loop, parse_statement, parse_expression_statement,
    program_loop,
};
use crate::repl::parsed;
use crate::text::byte_chars;
use vstd::utf8::{encode_utf8, is_ascii_chars, is_ascii_chars_encode_utf8};
use crate::token::{SpecToken, TokenType, ident_type};
use crate::ast::SpecNode;
use crate::eval_spec::{node_result, program_result, stmt_result};
use crate::float::FloatArith;
use crate::laws::{arith_value, is_arith, law_integer_arithmetic};
use crate::object::{RtState, SpecObject};

verus! {

// ---------------------------------------------------------------------------
// The fragment
// ---------------------------------------------------------------------------

/// A token of one punctuation character.
pub open spec fn punct(kind: TokenType, c: char) -> SpecToken {
    SpecToken { kind, literal: seq![c] }
}

/// How an infix operator of the fragment is spelled.
pub open spec fn infix_spelling(kind: TokenType) -> Option<Seq<char>> {
    match kind {
        TokenType::Plus => Some(seq!['+']),
        TokenType::Minus => Some(seq!['-']),
        TokenType::Asterisk => Some(seq!['*']),
        TokenType::Slash => Some(seq!['/']),
        TokenType::Lt => Some(seq!['<']),
        TokenType::Gt => Some(seq!['>']),
        TokenType::Eq => Some(seq!['=', '=']),
        TokenType::NotEq => Some(seq!['!', '=']),
        _ => None,
    }
}

pub open spec fn is_letter_char(c: char) -> bool {
    ('a' <= c && c <= 'z') || ('A' <= c && c <= 'Z') || c == '_'
}

/// A non-empty run of letters (and underscores).
pub open spec fn is_word(w: Seq<char>) -> bool {
    w.len() > 0 && forall|i: int| 0 <= i < w.len() ==> is_letter_char(#[trigger] w[i])
}

/// An expression whose printed text the lexer and parser read back as itself:
/// names, numerals and `true`/`false` with the tokens the lexer makes of their
/// spelling, `-`/`!` prefixes, the eight infix operators and array literals.
pub open spec fn printable(e: SpecExpr) -> bool
    decreases e,
{
    match e {
        SpecExpr::Ident(i) => i.token.kind == TokenType::Ident && i.token.literal == i.value
            && is_word(i.value) && ident_type(i.value) == TokenType::Ident,
        SpecExpr::IntegerLiteral { token, value } => token.kind == TokenType::Int
            && token.literal.len() > 0 && all_digits(token.literal) && parse_i64_spec(
            token.literal,
        ) == Some(value),
        SpecExpr::Boolean { token, value } => (token.kind == TokenType::True || token.kind
            == TokenType::False) && is_word(token.literal) && ident_type(token.literal)
            == token.kind && value == (token.kind == TokenType::True),
        SpecExpr::Prefix { token, operator, right } => (token == punct(TokenType::Minus, '-')
            || token == punct(TokenType::Bang, '!')) && operator == token.literal && printable(
            *right,
        ),
        SpecExpr::Infix { token, left, operator, right } => infix_spelling(token.kind) == Some(
            token.literal,
        ) && operator == token.literal && printable(*left) && printable(*right),
        SpecExpr::ArrayLiteral { token, elements } => token == punct(TokenType::Lbracket, '[')
            && all_printable(elements),
        _ => false,
    }
}

pub open spec fn all_printable(es: Seq<SpecExpr>) -> bool
    decreases es,
{
    if es.len() == 0 {
        true
    } else {
        printable(es[0]) && all_printable(es.drop_first())
    }
}

/// The tokens the printed text of an expression of the fragment reads as.
pub open spec fn expr_tokens(e: SpecExpr) -> Seq<SpecToken>
    decreases e,
{
    match e {
        SpecExpr::Ident(i) => seq![i.token],
        SpecExpr::IntegerLiteral { token, .. } => seq![token],
        SpecExpr::Boolean { token, .. } => seq![token],
        SpecExpr::Prefix { token, right, .. } => seq![punct(TokenType::Lparen, '('), token]
            + expr_tokens(*right) + seq![punct(TokenType::Rparen, ')')],
        SpecExpr::Infix { token, left, right, .. } => seq![punct(TokenType::Lparen, '(')]
            + expr_tokens(*left) + seq![token] + expr_tokens(*right) + seq![
            punct(TokenType::Rparen, ')'),
        ],
        SpecExpr::ArrayLiteral { token, elements } => seq![token] + list_tokens(elements) + seq![
            punct(TokenType::Rbracket, ']'),
        ],
        _ => Seq::empty(),
    }
}

/// The tokens of a comma-separated list of expressions.
pub open spec fn list_tokens(es: Seq<SpecExpr>) -> Seq<SpecToken>
    decreases es,
{
    if es.len() == 0 {
        Seq::empty()
    } else {
        expr_tokens(es[0]) + tail_tokens(es.drop_first())
    }
}

/// The tokens of list items after the first: each a comma and an expression.
pub open spec fn tail_tokens(es: Seq<SpecExpr>) -> Seq<SpecToken>
    decreases es,
{
    if es.len() == 0 {
        Seq::empty()
    } else {
        seq![punct(TokenType::Comma, ',')] + expr_tokens(es[0]) + tail_tokens(es.drop_first())
    }
}

/// The printed text of list items after the first: each ", " and an expression.
pub open spec fn tail_str(es: Seq<SpecExpr>) -> Seq<char>
    decreases es,
{
    if es.len() == 0 {
        Seq::empty()
    } else {
        seq![',', ' '] + expr_str(es[0]) + tail_str(es.drop_first())
    }
}

// ---------------------------------------------------------------------------
// Text and token layout
// ---------------------------------------------------------------------------

/// The bytes of `s` from `p` on spell `t`.
pub open spec fn spells(s: Seq<u8>, p: int, t: Seq<char>) -> bool {
    0 <= p && p + t.len() <= s.len() && forall|j: int|
        0 <= j < t.len() ==> s[p + j] as int == #[trigger] t[j] as int
}

/// The tokens of `toks` from `i` on are `t`.
pub open spec fn tokens_at(toks: Seq<SpecToken>, i: int, t: Seq<SpecToken>) -> bool {
    0 <= i && i + t.len() <= toks.len() && forall|j: int|
        0 <= j < t.len() ==> toks[i + j] == #[trigger] t[j]
}

/// A byte that cannot continue a name or a numeral.
pub open spec fn ends_word(b: u8) -> bool {
    !is_letter_byte(b) && !is_digit_byte(b) && b != 46
}

/// A token kind that ends an expression of the fragment inside its context.
pub open spec fn closes(k: TokenType) -> bool {
    k == TokenType::Rparen || k == TokenType::Comma || k == TokenType::Rbracket || k
        == TokenType::Eof
}

pub open spec fn starts_text(c: char) -> bool {
    c == '(' || c == '[' || is_letter_char(c) || is_digit_char(c)
}

pub open spec fn starts_kind(k: TokenType) -> bool {
    k == TokenType::Ident || k == TokenType::Int || k == TokenType::True || k == TokenType::False
        || k == TokenType::Lparen || k == TokenType::Lbracket
}

pub open spec fn ends_kind(k: TokenType) -> bool {
    k == TokenType::Ident || k == TokenType::Int || k == TokenType::True || k == TokenType::False
        || k == TokenType::Rparen || k == TokenType::Rbracket
}

proof fn lemma_spells_split(s: Seq<u8>, p: int, a: Seq<char>, b: Seq<char>)
    requires
        spells(s, p, a + b),
    ensures
        spells(s, p, a),
        spells(s, p + a.len(), b),
{
    assert forall|j: int| 0 <= j < a.len() implies s[p + j] as int == #[trigger] a[j] as int by {
        assert((a + b)[j] == a[j]);
    }
    assert forall|j: int| 0 <= j < b.len() implies s[p + a.len() + j] as int
        == #[trigger] b[j] as int by {
        assert((a + b)[a.len() + j] == b[j]);
    }
}

proof fn lemma_tokens_split(toks: Seq<SpecToken>, i: int, a: Seq<SpecToken>, b: Seq<SpecToken>)
    requires
        tokens_at(toks, i, a + b),
    ensures
        tokens_at(toks, i, a),
        tokens_at(toks, i + a.len(), b),
{
    assert forall|j: int| 0 <= j < a.len() implies toks[i + j] == #[trigger] a[j] by {
        assert((a + b)[j] == a[j]);
    }
    assert forall|j: int| 0 <= j < b.len() implies toks[i + a.len() + j] == #[trigger] b[j] by {
        assert((a + b)[a.len() + j] == b[j]);
    }
}

/// The printed text of an expression of the fragment is not empty and starts
/// with a bracket, a letter or a digit.
proof fn lemma_text_start(e: SpecExpr)
    requires
        printable(e),
    ensures
        expr_str(e).len() > 0,
        starts_text(expr_str(e)[0]),
{
    reveal_strlit("(");
    reveal_strlit("[");
    match e {
        SpecExpr::Ident(i) => {
            assert(is_letter_char(i.value[0]));
        },
        SpecExpr::IntegerLiteral { token, .. } => {
            assert(is_digit_char(token.literal[0]));
        },
        SpecExpr::Boolean { token, .. } => {
            assert(is_letter_char(token.literal[0]));
        },
        _ => {},
    }
}

/// The tokens of an expression of the fragment are not empty; the first can
/// start an expression and the last ends one.
proof fn lemma_tokens_shape(e: SpecExpr)
    requires
        printable(e),
    ensures
        expr_tokens(e).len() > 0,
        starts_kind(expr_tokens(e)[0].kind),
        ends_kind(expr_tokens(e).last().kind),
{
}

/// Printing a list with its first item split off.
proof fn lemma_exprs_str_first(es: Seq<SpecExpr>)
    requires
        es.len() > 0,
    ensures
        exprs_str(es) == expr_str(es[0]) + tail_str(es.drop_first()),
    decreases es.len(),
{
    reveal_strlit(", ");
    if es.len() == 1 {
        assert(tail_str(es.drop_first()) == Seq::<char>::empty());
        assert(expr_str(es[0]) + Seq::<char>::empty() =~= expr_str(es[0]));
    } else {
        let dl = es.drop_last();
        lemma_exprs_str_first(dl);
        lemma_tail_str_push(dl.drop_first(), es.last());
        assert(dl.drop_first().push(es.last()) =~= es.drop_first());
        assert(dl[0] == es[0]);
        assert(exprs_str(es) == exprs_str(dl) + ", "@ + expr_str(es.last()));
        assert(exprs_str(es) =~= expr_str(es[0]) + tail_str(es.drop_first()));
    }
}

proof fn lemma_tail_str_push(rs: Seq<SpecExpr>, x: SpecExpr)
    ensures
        tail_str(rs.push(x)) == tail_str(rs) + seq![',', ' '] + expr_str(x),
    decreases rs.len(),
{
    if rs.len() == 0 {
        assert(rs.push(x).drop_first() =~= Seq::<SpecExpr>::empty());
        assert(tail_str(Seq::<SpecExpr>::empty()) == Seq::<char>::empty());
        assert(rs.push(x)[0] == x);
        assert(tail_str(rs.push(x)) =~= tail_str(rs) + seq![',', ' '] + expr_str(x));
    } else {
        lemma_tail_str_push(rs.drop_first(), x);
        assert(rs.push(x).drop_first() =~= rs.drop_first().push(x));
        assert(rs.push(x)[0] == rs[0]);
        assert(tail_str(rs.push(x)) =~= tail_str(rs) + seq![',', ' '] + expr_str(x));
    }
}


// ---------------------------------------------------------------------------
// Reading the text
// ---------------------------------------------------------------------------

/// Reading one token that is not the end of input: it comes first, and the
/// rest is read from where it ends.
proof fn lemma_lex_step(s: Seq<u8>, p: int)
    requires
        0 <= p <= s.len(),
        lex_token(s, p).0 != TokenType::Eof,
    ensures
        p < lex_token(s, p).2,
        lex_all(s, p) == seq![SpecToken { kind: lex_token(s, p).0, literal: lex_token(s, p).1 }]
            + lex_all(s, lex_token(s, p).2),
{
    lemma_lex_token_progress(s, p);
}

/// A whitespace byte before a token changes nothing that is read.
proof fn lemma_lex_space(s: Seq<u8>, p: int)
    requires
        0 <= p < s.len(),
        is_whitespace(s[p]),
        lex_token(s, p + 1).0 != TokenType::Eof,
    ensures
        lex_token(s, p) == lex_token(s, p + 1),
        lex_all(s, p) == lex_all(s, p + 1),
{
    assert(skip_whitespace(s, p) == skip_whitespace(s, p + 1));
    assert(token_start(s, p) == token_start(s, p + 1));
    lemma_lex_step(s, p + 1);
    lemma_lex_step(s, p);
}

/// Where a token starts at a byte that is neither whitespace nor the start of
/// a comment, it starts right there.
proof fn lemma_start_here(s: Seq<u8>, p: int)
    requires
        0 <= p < s.len(),
        !is_whitespace(s[p]),
        !(s[p] == 47 && byte_at(s, p + 1) == 47),
    ensures
        token_start(s, p) == p,
{
    assert(skip_whitespace(s, p) == p);
}

/// The chars read from bytes that spell `w` are `w`.
proof fn lemma_read_back(s: Seq<u8>, p: int, w: Seq<char>)
    requires
        spells(s, p, w),
    ensures
        byte_chars(s.subrange(p, p + w.len())) == w,
{
    assert forall|j: int| 0 <= j < w.len() implies #[trigger] byte_chars(
        s.subrange(p, p + w.len()),
    )[j] == w[j] by {
        assert(s[p + j] as int == w[j] as int);
        assert(s.subrange(p, p + w.len())[j] == s[p + j]);
    }
    assert(byte_chars(s.subrange(p, p + w.len())) =~= w);
}

proof fn lemma_scan_word(s: Seq<u8>, p: int, w: Seq<char>, i: int)
    requires
        spells(s, p, w),
        forall|j: int| 0 <= j < w.len() ==> is_letter_char(#[trigger] w[j]),
        !is_letter_byte(byte_at(s, p + w.len())),
        0 <= i <= w.len(),
    ensures
        scan_letters(s, p + i) == p + w.len(),
    decreases w.len() - i,
{
    if i < w.len() {
        assert(s[p + i] as int == w[i] as int);
        assert(is_letter_byte(s[p + i]));
        lemma_scan_word(s, p, w, i + 1);
    }
}

proof fn lemma_scan_numeral(s: Seq<u8>, p: int, w: Seq<char>, i: int)
    requires
        spells(s, p, w),
        all_digits(w),
        !is_digit_byte(byte_at(s, p + w.len())),
        0 <= i <= w.len(),
    ensures
        scan_digits(s, p + i) == p + w.len(),
    decreases w.len() - i,
{
    if i < w.len() {
        assert(s[p + i] as int == w[i] as int);
        assert(is_digit_char(w[i]));
        lemma_scan_numeral(s, p, w, i + 1);
    }
}

/// A name, numeral, `true` or `false` spelled at `p` reads as its token.
proof fn lemma_lex_word(s: Seq<u8>, p: int, tok: SpecToken)
    requires
        spells(s, p, tok.literal),
        ends_word(byte_at(s, p + tok.literal.len())),
        tok.literal.len() > 0,
        (is_word(tok.literal) && tok.kind == ident_type(tok.literal)) || (tok.kind
            == TokenType::Int && all_digits(tok.literal)),
    ensures
        lex_token(s, p) == (tok.kind, tok.literal, p + tok.literal.len()),
        lex_token(s, p).0 != TokenType::Eof,
        lex_all(s, p) == seq![tok] + lex_all(s, p + tok.literal.len()),
{
    let w = tok.literal;
    assert(s[p] as int == w[0] as int);
    lemma_start_here(s, p);
    lemma_read_back(s, p, w);
    if tok.kind == TokenType::Int && all_digits(w) {
        assert(is_digit_char(w[0]));
        lemma_scan_numeral(s, p, w, 0);
    } else {
        assert(is_letter_char(w[0]));
        lemma_scan_word(s, p, w, 0);
        assert(ident_type(w) != TokenType::Eof);
    }
    lemma_lex_step(s, p);
}

/// A punctuation byte at `p` reads as its one-character token.
proof fn lemma_lex_punct(s: Seq<u8>, p: int, kind: TokenType, c: char)
    requires
        0 <= p < s.len(),
        s[p] as int == c as int,
        single_char_type(s[p]) == Some(kind),
        !(s[p] == 47 && byte_at(s, p + 1) == 47),
    ensures
        lex_token(s, p) == (kind, seq![c], p + 1),
        lex_all(s, p) == seq![punct(kind, c)] + lex_all(s, p + 1),
{
    lemma_start_here(s, p);
    assert((s[p] as char) == c);
    assert(seq![s[p] as char] =~= seq![c]);
    lemma_lex_step(s, p);
}


/// `!` not followed by `=` reads as the prefix operator.
proof fn lemma_lex_bang(s: Seq<u8>, p: int)
    requires
        0 <= p < s.len(),
        s[p] == 33,
        byte_at(s, p + 1) != 61,
    ensures
        lex_token(s, p) == (TokenType::Bang, seq!['!'], p + 1),
        lex_all(s, p) == seq![punct(TokenType::Bang, '!')] + lex_all(s, p + 1),
{
    lemma_start_here(s, p);
    assert((s[p] as char) == '!');
    assert(seq![s[p] as char] =~= seq!['!']);
    lemma_lex_step(s, p);
}

/// An infix operator of the fragment followed by a space reads as its token.
proof fn lemma_lex_operator(s: Seq<u8>, p: int, tok: SpecToken)
    requires
        infix_spelling(tok.kind) == Some(tok.literal),
        spells(s, p, tok.literal),
        byte_at(s, p + tok.literal.len()) == 32,
    ensures
        lex_token(s, p).0 != TokenType::Eof,
        lex_all(s, p) == seq![tok] + lex_all(s, p + tok.literal.len()),
{
    reveal_strlit("==");
    reveal_strlit("!=");
    assert(s[p] as int == tok.literal[0] as int);
    match tok.kind {
        TokenType::Eq => {
            assert(s[p + 1] as int == tok.literal[1] as int);
            lemma_start_here(s, p);
            assert("=="@ =~= seq!['=', '=']);
            lemma_lex_step(s, p);
        },
        TokenType::NotEq => {
            assert(s[p + 1] as int == tok.literal[1] as int);
            lemma_start_here(s, p);
            assert("!="@ =~= seq!['!', '=']);
            lemma_lex_step(s, p);
        },
        TokenType::Plus => lemma_lex_punct(s, p, tok.kind, '+'),
        TokenType::Minus => lemma_lex_punct(s, p, tok.kind, '-'),
        TokenType::Asterisk => lemma_lex_punct(s, p, tok.kind, '*'),
        TokenType::Slash => lemma_lex_punct(s, p, tok.kind, '/'),
        TokenType::Lt => lemma_lex_punct(s, p, tok.kind, '<'),
        _ => lemma_lex_punct(s, p, tok.kind, '>'),
    }
}

/// The printed text of an expression of the fragment, followed by a byte that
/// cannot continue a word, reads as the expression's tokens.
proof fn lemma_lex_printed(e: SpecExpr, s: Seq<u8>, p: int)
    requires
        printable(e),
        spells(s, p, expr_str(e)),
        ends_word(byte_at(s, p + expr_str(e).len())),
    ensures
        lex_token(s, p).0 != TokenType::Eof,
        lex_all(s, p) == expr_tokens(e) + lex_all(s, p + expr_str(e).len()),
    decreases e, 1int,
{
    match e {
        SpecExpr::Ident(i) => {
            lemma_lex_word(s, p, i.token);
        },
        SpecExpr::IntegerLiteral { token, .. } => {
            lemma_lex_word(s, p, token);
        },
        SpecExpr::Boolean { token, .. } => {
            lemma_lex_word(s, p, token);
        },
        SpecExpr::Prefix { .. } => {
            lemma_lex_prefix(e, s, p);
        },
        SpecExpr::Infix { .. } => {
            lemma_lex_infix(e, s, p);
        },
        SpecExpr::ArrayLiteral { .. } => {
            lemma_lex_array(e, s, p);
        },
        _ => {},
    }
}

proof fn lemma_lex_prefix(e: SpecExpr, s: Seq<u8>, p: int)
    requires
        e is Prefix,
        printable(e),
        spells(s, p, expr_str(e)),
        ends_word(byte_at(s, p + expr_str(e).len())),
    ensures
        lex_token(s, p).0 != TokenType::Eof,
        lex_all(s, p) == expr_tokens(e) + lex_all(s, p + expr_str(e).len()),
    decreases e, 0int,
{
    reveal_strlit("(");
    reveal_strlit(")");
    let token = e->Prefix_token;
    let operator = e->Prefix_operator;
    let right = e->Prefix_right;
    let r = *right;
    let rs = expr_str(r);
    let n = rs.len();
    lemma_spells_split(s, p, "("@ + operator + rs, ")"@);
    lemma_spells_split(s, p, "("@ + operator, rs);
    lemma_spells_split(s, p, "("@, operator);
    assert(s[p] as int == "("@[0] as int);
    assert(s[p + 1] as int == operator[0] as int);
    assert(s[p + 2 + n] as int == ")"@[0] as int);
    lemma_text_start(r);
    assert(s[p + 2] as int == rs[0] as int);
    lemma_lex_punct(s, p, TokenType::Lparen, '(');
    if token.kind == TokenType::Minus {
        lemma_lex_punct(s, p + 1, TokenType::Minus, '-');
    } else {
        lemma_lex_bang(s, p + 1);
    }
    lemma_lex_printed(r, s, p + 2);
    lemma_lex_punct(s, p + 2 + n, TokenType::Rparen, ')');
    assert(lex_all(s, p) =~= expr_tokens(e) + lex_all(s, p + expr_str(e).len()));
}

#[verifier::rlimit(30)]
proof fn lemma_lex_infix(e: SpecExpr, s: Seq<u8>, p: int)
    requires
        e is Infix,
        printable(e),
        spells(s, p, expr_str(e)),
        ends_word(byte_at(s, p + expr_str(e).len())),
    ensures
        lex_token(s, p).0 != TokenType::Eof,
        lex_all(s, p) == expr_tokens(e) + lex_all(s, p + expr_str(e).len()),
    decreases e, 0int,
{
    reveal_strlit("(");
    reveal_strlit(")");
    reveal_strlit(" ");
    let token = e->Infix_token;
    let left = e->Infix_left;
    let operator = e->Infix_operator;
    let right = e->Infix_right;
    let l = *left;
    let r = *right;
    let ls = expr_str(l);
    let rs = expr_str(r);
    let x1 = "("@ + ls;
    let x2 = x1 + " "@;
    let x3 = x2 + operator;
    let x4 = x3 + " "@;
    let x5 = x4 + rs;
    assert(expr_str(e) == x5 + ")"@);
    lemma_spells_split(s, p, x5, ")"@);
    lemma_spells_split(s, p, x4, rs);
    lemma_spells_split(s, p, x3, " "@);
    lemma_spells_split(s, p, x2, operator);
    lemma_spells_split(s, p, x1, " "@);
    lemma_spells_split(s, p, "("@, ls);
    let a = p + 1 + ls.len();
    let b = a + 1 + operator.len();
    let c = b + 1 + rs.len();
    assert(s[p] as int == "("@[0] as int);
    assert(s[a] as int == " "@[0] as int);
    assert(s[b] as int == " "@[0] as int);
    assert(s[c] as int == ")"@[0] as int);
    lemma_text_start(r);
    assert(s[b + 1] as int == rs[0] as int);
    lemma_lex_punct(s, p, TokenType::Lparen, '(');
    lemma_lex_printed(l, s, p + 1);
    lemma_lex_operator(s, a + 1, token);
    lemma_lex_space(s, a);
    lemma_lex_printed(r, s, b + 1);
    lemma_lex_space(s, b);
    lemma_lex_punct(s, c, TokenType::Rparen, ')');
    assert(lex_all(s, p) =~= expr_tokens(e) + lex_all(s, p + expr_str(e).len()));
}

proof fn lemma_lex_array(e: SpecExpr, s: Seq<u8>, p: int)
    requires
        e is ArrayLiteral,
        printable(e),
        spells(s, p, expr_str(e)),
        ends_word(byte_at(s, p + expr_str(e).len())),
    ensures
        lex_token(s, p).0 != TokenType::Eof,
        lex_all(s, p) == expr_tokens(e) + lex_all(s, p + expr_str(e).len()),
    decreases e, 0int,
{
    reveal_strlit("[");
    reveal_strlit("]");
    let elements = e->ArrayLiteral_elements;
    let xs = exprs_str(elements);
    let n = xs.len();
    lemma_spells_split(s, p, "["@ + xs, "]"@);
    lemma_spells_split(s, p, "["@, xs);
    assert(s[p] as int == "["@[0] as int);
    assert(s[p + 1 + n] as int == "]"@[0] as int);
    lemma_lex_punct(s, p, TokenType::Lbracket, '[');
    lemma_lex_list(elements, s, p + 1);
    lemma_lex_punct(s, p + 1 + n, TokenType::Rbracket, ']');
    assert(lex_all(s, p) =~= expr_tokens(e) + lex_all(s, p + expr_str(e).len()));
}

/// The printed text of a list of expressions reads as the list's tokens.
proof fn lemma_lex_list(es: Seq<SpecExpr>, s: Seq<u8>, p: int)
    requires
        all_printable(es),
        spells(s, p, exprs_str(es)),
        ends_word(byte_at(s, p + exprs_str(es).len())),
    ensures
        lex_all(s, p) == list_tokens(es) + lex_all(s, p + exprs_str(es).len()),
    decreases es, 1int,
{
    if es.len() == 0 {
        assert(lex_all(s, p) =~= list_tokens(es) + lex_all(s, p + exprs_str(es).len()));
    } else {
        let rest = es.drop_first();
        let n0 = expr_str(es[0]).len();
        lemma_exprs_str_first(es);
        lemma_spells_split(s, p, expr_str(es[0]), tail_str(rest));
        if rest.len() > 0 {
            assert(tail_str(rest)[0] == ',');
            assert(s[p + n0] as int == tail_str(rest)[0] as int);
        }
        lemma_lex_printed(es[0], s, p);
        lemma_lex_tail(rest, s, p + n0);
        assert(lex_all(s, p) =~= list_tokens(es) + lex_all(s, p + exprs_str(es).len()));
    }
}

/// The printed text of the items after the first reads as their tokens.
proof fn lemma_lex_tail(es: Seq<SpecExpr>, s: Seq<u8>, p: int)
    requires
        all_printable(es),
        spells(s, p, tail_str(es)),
        ends_word(byte_at(s, p + tail_str(es).len())),
    ensures
        lex_all(s, p) == tail_tokens(es) + lex_all(s, p + tail_str(es).len()),
    decreases es, 1int,
{
    if es.len() == 0 {
        assert(lex_all(s, p) =~= tail_tokens(es) + lex_all(s, p + tail_str(es).len()));
    } else {
        let rest = es.drop_first();
        let e0 = expr_str(es[0]);
        let n0 = e0.len();
        lemma_spells_split(s, p, seq![',', ' '] + e0, tail_str(rest));
        lemma_spells_split(s, p, seq![',', ' '], e0);
        assert(s[p] as int == seq![',', ' '][0] as int);
        assert(s[p + 1] as int == seq![',', ' '][1] as int);
        lemma_text_start(es[0]);
        assert(s[p + 2] as int == e0[0] as int);
        if rest.len() > 0 {
            assert(tail_str(rest)[0] == ',');
            assert(s[p + 2 + n0] as int == tail_str(rest)[0] as int);
        }
        lemma_lex_punct(s, p, TokenType::Comma, ',');
        lemma_lex_printed(es[0], s, p + 2);
        lemma_lex_space(s, p + 1);
        lemma_lex_tail(rest, s, p + 2 + n0);
        assert(lex_all(s, p) =~= tail_tokens(es) + lex_all(s, p + tail_str(es).len()));
    }
}


// ---------------------------------------------------------------------------
// Parsing the tokens
// ---------------------------------------------------------------------------

/// Before a closing token the loop that extends an expression stops at once.
proof fn lemma_loop_stops(toks: Seq<SpecToken>, st: PState, prec: Precedence, left: SpecExpr)
    requires
        valid(toks, st),
        closes(peek_tok(toks, st).kind),
    ensures
        parse_infix_loop(toks, st, prec, left) == (st, Some(left)),
{
}

/// The tokens of an expression of the fragment parse, from their first one,
/// as that expression, ending on their last one.
proof fn lemma_parse_printed(toks: Seq<SpecToken>, st: PState, e: SpecExpr)
    requires
        printable(e),
        toks_ok(toks),
        tokens_at(toks, st.pos, expr_tokens(e)),
        st.pos + expr_tokens(e).len() < toks.len(),
    ensures
        parse_prefix(toks, st) == (
            PState { pos: st.pos + expr_tokens(e).len() - 1, errors: st.errors },
            Some(e),
        ),
    decreases e, 1int,
{
    assert(toks[st.pos + 0] == expr_tokens(e)[0]);
    match e {
        SpecExpr::Prefix { .. } => {
            lemma_parse_prefix(toks, st, e);
        },
        SpecExpr::Infix { .. } => {
            lemma_parse_infix(toks, st, e);
        },
        SpecExpr::ArrayLiteral { .. } => {
            lemma_parse_array(toks, st, e);
        },
        _ => {},
    }
}

/// Followed by a closing token, the tokens of an expression of the fragment
/// parse as that expression whatever the binding power asked for.
proof fn lemma_parse_closed(toks: Seq<SpecToken>, st: PState, e: SpecExpr, prec: Precedence)
    requires
        printable(e),
        toks_ok(toks),
        tokens_at(toks, st.pos, expr_tokens(e)),
        st.pos + expr_tokens(e).len() < toks.len(),
        closes(toks[st.pos + expr_tokens(e).len()].kind),
    ensures
        parse_expression(toks, st, prec) == (
            PState { pos: st.pos + expr_tokens(e).len() - 1, errors: st.errors },
            Some(e),
        ),
    decreases e, 2int,
{
    lemma_tokens_shape(e);
    lemma_parse_printed(toks, st, e);
    let end = PState { pos: st.pos + expr_tokens(e).len() - 1, errors: st.errors };
    lemma_loop_stops(toks, end, prec, e);
}

proof fn lemma_parse_prefix(toks: Seq<SpecToken>, st: PState, e: SpecExpr)
    requires
        e is Prefix,
        printable(e),
        toks_ok(toks),
        tokens_at(toks, st.pos, expr_tokens(e)),
        st.pos + expr_tokens(e).len() < toks.len(),
    ensures
        parse_prefix(toks, st) == (
            PState { pos: st.pos + expr_tokens(e).len() - 1, errors: st.errors },
            Some(e),
        ),
    decreases e, 0int,
{
    let token = e->Prefix_token;
    let r = *e->Prefix_right;
    let tr = expr_tokens(r);
    let k = tr.len();
    let i = st.pos;
    let lp = punct(TokenType::Lparen, '(');
    let rp = punct(TokenType::Rparen, ')');
    lemma_tokens_split(toks, i, seq![lp, token] + tr, seq![rp]);
    lemma_tokens_split(toks, i, seq![lp, token], tr);
    assert(toks[i + 0] == seq![lp, token][0]);
    assert(toks[i + 1] == seq![lp, token][1]);
    assert(toks[i + 2 + k + 0] == seq![rp][0]);
    let s1 = PState { pos: i + 1, errors: st.errors };
    let s2 = PState { pos: i + 2, errors: st.errors };
    let s3 = PState { pos: i + 1 + k, errors: st.errors };
    let s4 = PState { pos: i + 2 + k, errors: st.errors };
    lemma_parse_closed(toks, s2, r, Precedence::Prefix);
    assert(parse_prefix_expression(toks, s1) == (s3, Some(e)));
    assert(parse_prefix(toks, s1) == (s3, Some(e)));
    lemma_loop_stops(toks, s3, Precedence::Lowest, e);
    assert(parse_expression(toks, s1, Precedence::Lowest) == (s3, Some(e)));
    assert(expect_peek(toks, s3, TokenType::Rparen) == (s4, true));
    assert(parse_grouped_expression(toks, st) == (s4, Some(e)));
}

proof fn lemma_parse_infix(toks: Seq<SpecToken>, st: PState, e: SpecExpr)
    requires
        e is Infix,
        printable(e),
        toks_ok(toks),
        tokens_at(toks, st.pos, expr_tokens(e)),
        st.pos + expr_tokens(e).len() < toks.len(),
    ensures
        parse_prefix(toks, st) == (
            PState { pos: st.pos + expr_tokens(e).len() - 1, errors: st.errors },
            Some(e),
        ),
    decreases e, 0int,
{
    let token = e->Infix_token;
    let l = *e->Infix_left;
    let r = *e->Infix_right;
    let tl = expr_tokens(l);
    let tr = expr_tokens(r);
    let i = st.pos;
    let lp = punct(TokenType::Lparen, '(');
    let rp = punct(TokenType::Rparen, ')');
    let a2 = seq![lp] + tl;
    let a3 = a2 + seq![token];
    let a4 = a3 + tr;
    lemma_tokens_split(toks, i, a4, seq![rp]);
    lemma_tokens_split(toks, i, a3, tr);
    lemma_tokens_split(toks, i, a2, seq![token]);
    lemma_tokens_split(toks, i, seq![lp], tl);
    lemma_tokens_shape(l);
    let o = i + 1 + tl.len();
    let end_l = o - 1;
    let end_r = o + tr.len();
    assert(toks[i + 0] == seq![lp][0]);
    assert(toks[o + 0] == seq![token][0]);
    assert(toks[end_r + 1 + 0] == seq![rp][0]);
    assert(toks[i + 1 + (tl.len() - 1)] == tl[tl.len() - 1]);
    let s1 = PState { pos: i + 1, errors: st.errors };
    let sl = PState { pos: end_l, errors: st.errors };
    let so = PState { pos: o, errors: st.errors };
    let sr0 = PState { pos: o + 1, errors: st.errors };
    let sr = PState { pos: end_r, errors: st.errors };
    let sc = PState { pos: end_r + 1, errors: st.errors };
    lemma_parse_printed(toks, s1, l);
    lemma_parse_closed(toks, sr0, r, precedence_of(token.kind));
    assert(parse_infix_expression(toks, so, l) == (sr, Some(e)));
    assert(parse_infix(toks, so, l) == (sr, Some(e)));
    lemma_loop_stops(toks, sr, Precedence::Lowest, e);
    assert(parse_infix_loop(toks, sl, Precedence::Lowest, l) == (sr, Some(e)));
    assert(parse_expression(toks, s1, Precedence::Lowest) == (sr, Some(e)));
    assert(expect_peek(toks, sr, TokenType::Rparen) == (sc, true));
    assert(parse_grouped_expression(toks, st) == (sc, Some(e)));
}

proof fn lemma_parse_array(toks: Seq<SpecToken>, st: PState, e: SpecExpr)
    requires
        e is ArrayLiteral,
        printable(e),
        toks_ok(toks),
        tokens_at(toks, st.pos, expr_tokens(e)),
        st.pos + expr_tokens(e).len() < toks.len(),
    ensures
        parse_prefix(toks, st) == (
            PState { pos: st.pos + expr_tokens(e).len() - 1, errors: st.errors },
            Some(e),
        ),
    decreases e, 0int,
{
    let token = e->ArrayLiteral_token;
    let es = e->ArrayLiteral_elements;
    let lt = list_tokens(es);
    let i = st.pos;
    let rb = punct(TokenType::Rbracket, ']');
    lemma_tokens_split(toks, i, seq![token] + lt, seq![rb]);
    lemma_tokens_split(toks, i, seq![token], lt);
    assert(toks[i + 0] == seq![token][0]);
    assert(toks[i + 1 + lt.len() + 0] == seq![rb][0]);
    let send = PState { pos: i + 1 + lt.len(), errors: st.errors };
    if es.len() == 0 {
        assert(es =~= Seq::<SpecExpr>::empty());
        assert(parse_expression_list(toks, st, TokenType::Rbracket) == (send, Some(es)));
    } else {
        let rest = es.drop_first();
        let t0 = expr_tokens(es[0]);
        let tt = tail_tokens(rest);
        lemma_tokens_split(toks, i + 1, t0, tt);
        assert(all_printable(es));
        assert(printable(es[0]) && all_printable(rest));
        lemma_tokens_shape(es[0]);
        assert(toks[i + 1 + 0] == t0[0]);
        if rest.len() > 0 {
            assert(tt[0] == punct(TokenType::Comma, ','));
            assert(toks[i + 1 + t0.len() + 0] == tt[0]);
        }
        let s1 = PState { pos: i + 1, errors: st.errors };
        let s2 = PState { pos: i + t0.len(), errors: st.errors };
        lemma_parse_closed(toks, s1, es[0], Precedence::Lowest);
        lemma_parse_tail(toks, s2, seq![es[0]], rest);
        assert(seq![es[0]] + rest =~= es);
        assert(parse_expression_list(toks, st, TokenType::Rbracket) == (send, Some(es)));
    }
    assert(parse_array_literal(toks, st) == (send, Some(e)));
}

/// The items after the first of a list, then `]`, parse as those items.
proof fn lemma_parse_tail(
    toks: Seq<SpecToken>,
    st: PState,
    acc: Seq<SpecExpr>,
    rest: Seq<SpecExpr>,
)
    requires
        all_printable(rest),
        toks_ok(toks),
        0 <= st.pos,
        tokens_at(toks, st.pos + 1, tail_tokens(rest)),
        st.pos + 1 + tail_tokens(rest).len() < toks.len(),
        toks[st.pos + 1 + tail_tokens(rest).len()].kind == TokenType::Rbracket,
    ensures
        list_loop(toks, st, acc, TokenType::Rbracket) == (
            PState { pos: st.pos + 1 + tail_tokens(rest).len(), errors: st.errors },
            Some(acc + rest),
        ),
    decreases rest, 0int,
{
    let i = st.pos;
    if rest.len() == 0 {
        assert(acc + rest =~= acc);
    } else {
        let r0 = rest[0];
        let more = rest.drop_first();
        let t0 = expr_tokens(r0);
        let tm = tail_tokens(more);
        let comma = punct(TokenType::Comma, ',');
        lemma_tokens_split(toks, i + 1, seq![comma] + t0, tm);
        lemma_tokens_split(toks, i + 1, seq![comma], t0);
        assert(toks[i + 1 + 0] == seq![comma][0]);
        if more.len() > 0 {
            assert(tm[0] == comma);
            assert(toks[i + 2 + t0.len() + 0] == tm[0]);
        }
        let s1 = PState { pos: i + 2, errors: st.errors };
        let s2 = PState { pos: i + 1 + t0.len(), errors: st.errors };
        lemma_tokens_shape(r0);
        lemma_parse_closed(toks, s1, r0, Precedence::Lowest);
        lemma_parse_tail(toks, s2, acc.push(r0), more);
        assert(acc.push(r0) + more =~= acc + rest);
    }
}


// ---------------------------------------------------------------------------
// The law
// ---------------------------------------------------------------------------

/// Printing is canonical on the fragment: for every expression of the
/// fragment (`printable`), any source text whose bytes spell its printed form
/// parses without errors as a single expression statement holding exactly
/// that expression; so printing the parsed program gives back the same text,
/// and parsing then printing is a fixed point.
pub proof fn law_printed_expression_reads_back(e: SpecExpr, source: Seq<u8>)
    requires
        printable(e),
        byte_chars(source) == expr_str(e),
    ensures
        parsed(source).0.errors.len() == 0,
        parsed(source).1 == seq![
            SpecStmt::Expression { token: expr_tokens(e)[0], expression: e },
        ],
        stmts_str(parsed(source).1) == expr_str(e),
{
    let n = source.len() as int;
    let text = expr_str(e);
    assert forall|j: int| 0 <= j < text.len() implies source[0 + j] as int
        == #[trigger] text[j] as int by {
        assert(byte_chars(source)[j] == source[j] as char);
    }
    lemma_lex_printed(e, source, 0);
    lemma_eof_is_fixed_point(source);
    let eof = SpecToken { kind: TokenType::Eof, literal: Seq::empty() };
    assert(lex_all(source, n) == seq![eof]);
    let t = expr_tokens(e);
    let toks = lex_all(source, 0);
    assert(toks == t + seq![eof]);
    lemma_tokens_shape(e);
    assert forall|j: int| 0 <= j < t.len() implies toks[0 + j] == #[trigger] t[j] by {
        assert((t + seq![eof])[j] == t[j]);
    }
    assert(toks[t.len() as int] == eof);
    assert(toks[0] == t[0]);
    let st0 = PState { pos: 0, errors: Seq::empty() };
    let s1 = PState { pos: t.len() - 1, errors: Seq::empty() };
    let s2 = PState { pos: t.len() as int, errors: Seq::empty() };
    lemma_parse_closed(toks, st0, e, Precedence::Lowest);
    let stmt = SpecStmt::Expression { token: t[0], expression: e };
    assert(parse_expression_statement(toks, st0) == (s1, Some(stmt)));
    assert(parse_statement(toks, st0) == (s1, Some(stmt)));
    assert(Seq::<SpecStmt>::empty().push(stmt) =~= seq![stmt]);
    assert(program_loop(toks, s2, seq![stmt]) == (s2, seq![stmt]));
    assert(program_loop(toks, st0, Seq::empty()) == (s2, seq![stmt]));
    assert(seq![stmt].drop_last() =~= Seq::<SpecStmt>::empty());
    assert(stmts_str(Seq::<SpecStmt>::empty()) == Seq::<char>::empty());
    assert(seq![stmt].last() == stmt);
    assert(stmt_str(stmt) == text);
    assert(stmts_str(seq![stmt]) =~= text);
}

// ---------------------------------------------------------------------------
// Sources of the fragment
// ---------------------------------------------------------------------------

/// A source text of the fragment as a person may write it: like the printed
/// form, but with any expression also allowed in extra parentheses.
pub enum Source {
    /// A name, numeral, `true` or `false`.
    Atom(SpecExpr),
    /// `(` operator operand `)`, with `-` or `!`.
    Prefix(SpecToken, Box<Source>),
    /// `(` left operator right `)`, with spaces around the operator.
    Infix(SpecToken, Box<Source>, Box<Source>),
    /// `(` source `)`.
    Group(Box<Source>),
    /// `[` items separated by `, ` `]`.
    Array(Seq<Source>),
}

pub open spec fn source_ok(f: Source) -> bool
    decreases f,
{
    match f {
        Source::Atom(e) => printable(e) && (e is Ident || e is IntegerLiteral || e is Boolean),
        Source::Prefix(tok, r) => (tok == punct(TokenType::Minus, '-') || tok == punct(
            TokenType::Bang,
            '!',
        )) && source_ok(*r),
        Source::Infix(tok, l, r) => infix_spelling(tok.kind) == Some(tok.literal) && source_ok(*l)
            && source_ok(*r),
        Source::Group(x) => source_ok(*x),
        Source::Array(es) => sources_ok(es),
    }
}

pub open spec fn sources_ok(es: Seq<Source>) -> bool
    decreases es,
{
    if es.len() == 0 {
        true
    } else {
        source_ok(es[0]) && sources_ok(es.drop_first())
    }
}

/// The text of a source.
pub open spec fn source_text(f: Source) -> Seq<char>
    decreases f,
{
    match f {
        Source::Atom(e) => expr_str(e),
        Source::Prefix(tok, r) => "("@ + tok.literal + source_text(*r) + ")"@,
        Source::Infix(tok, l, r) => "("@ + source_text(*l) + " "@ + tok.literal + " "@
            + source_text(*r) + ")"@,
        Source::Group(x) => "("@ + source_text(*x) + ")"@,
        Source::Array(es) => "["@ + sources_text(es) + "]"@,
    }
}

pub open spec fn sources_text(es: Seq<Source>) -> Seq<char>
    decreases es,
{
    if es.len() == 0 {
        Seq::empty()
    } else {
        source_text(es[0]) + sources_tail_text(es.drop_first())
    }
}

pub open spec fn sources_tail_text(es: Seq<Source>) -> Seq<char>
    decreases es,
{
    if es.len() == 0 {
        Seq::empty()
    } else {
        seq![',', ' '] + source_text(es[0]) + sources_tail_text(es.drop_first())
    }
}

/// The tokens the text of a source reads as.
pub open spec fn source_tokens(f: Source) -> Seq<SpecToken>
    decreases f,
{
    match f {
        Source::Atom(e) => expr_tokens(e),
        Source::Prefix(tok, r) => seq![punct(TokenType::Lparen, '('), tok] + source_tokens(*r)
            + seq![punct(TokenType::Rparen, ')')],
        Source::Infix(tok, l, r) => seq![punct(TokenType::Lparen, '(')] + source_tokens(*l)
            + seq![tok] + source_tokens(*r) + seq![punct(TokenType::Rparen, ')')],
        Source::Group(x) => seq![punct(TokenType::Lparen, '(')] + source_tokens(*x) + seq![
            punct(TokenType::Rparen, ')'),
        ],
        Source::Array(es) => seq![punct(TokenType::Lbracket, '[')] + sources_tokens(es) + seq![
            punct(TokenType::Rbracket, ']'),
        ],
    }
}

pub open spec fn sources_tokens(es: Seq<Source>) -> Seq<SpecToken>
    decreases es,
{
    if es.len() == 0 {
        Seq::empty()
    } else {
        source_tokens(es[0]) + sources_tail_tokens(es.drop_first())
    }
}

pub open spec fn sources_tail_tokens(es: Seq<Source>) -> Seq<SpecToken>
    decreases es,
{
    if es.len() == 0 {
        Seq::empty()
    } else {
        seq![punct(TokenType::Comma, ',')] + source_tokens(es[0]) + sources_tail_tokens(
            es.drop_first(),
        )
    }
}

/// The expression a source denotes: extra parentheses leave no trace.
pub open spec fn source_tree(f: Source) -> SpecExpr
    decreases f,
{
    match f {
        Source::Atom(e) => e,
        Source::Prefix(tok, r) => SpecExpr::Prefix {
            token: tok,
            operator: tok.literal,
            right: Box::new(source_tree(*r)),
        },
        Source::Infix(tok, l, r) => SpecExpr::Infix {
            token: tok,
            left: Box::new(source_tree(*l)),
            operator: tok.literal,
            right: Box::new(source_tree(*r)),
        },
        Source::Group(x) => source_tree(*x),
        Source::Array(es) => SpecExpr::ArrayLiteral {
            token: punct(TokenType::Lbracket, '['),
            elements: source_trees(es),
        },
    }
}

pub open spec fn source_trees(es: Seq<Source>) -> Seq<SpecExpr>
    decreases es,
{
    if es.len() == 0 {
        Seq::empty()
    } else {
        seq![source_tree(es[0])] + source_trees(es.drop_first())
    }
}

/// The expression a source denotes is in the fragment.
proof fn lemma_source_tree_printable(f: Source)
    requires
        source_ok(f),
    ensures
        printable(source_tree(f)),
    decreases f, 1int,
{
    match f {
        Source::Prefix(_, r) => lemma_source_tree_printable(*r),
        Source::Infix(_, l, r) => {
            lemma_source_tree_printable(*l);
            lemma_source_tree_printable(*r);
        },
        Source::Group(x) => lemma_source_tree_printable(*x),
        Source::Array(es) => lemma_source_trees_printable(es),
        _ => {},
    }
}

proof fn lemma_source_trees_printable(es: Seq<Source>)
    requires
        sources_ok(es),
    ensures
        all_printable(source_trees(es)),
        source_trees(es).len() == es.len(),
    decreases es, 0int,
{
    if es.len() > 0 {
        lemma_source_tree_printable(es[0]);
        lemma_source_trees_printable(es.drop_first());
        let t = source_trees(es);
        assert(t[0] == source_tree(es[0]));
        assert(t.drop_first() =~= source_trees(es.drop_first()));
    }
}

proof fn lemma_source_text_start(f: Source)
    requires
        source_ok(f),
    ensures
        source_text(f).len() > 0,
        starts_text(source_text(f)[0]),
{
    reveal_strlit("(");
    reveal_strlit("[");
    match f {
        Source::Atom(e) => lemma_text_start(e),
        _ => {},
    }
}

proof fn lemma_source_tokens_shape(f: Source)
    requires
        source_ok(f),
    ensures
        source_tokens(f).len() > 0,
        starts_kind(source_tokens(f)[0].kind),
        ends_kind(source_tokens(f).last().kind),
{
    match f {
        Source::Atom(e) => lemma_tokens_shape(e),
        _ => {},
    }
}

// ---------------------------------------------------------------------------
// Reading a source
// ---------------------------------------------------------------------------

proof fn lemma_lex_source(f: Source, s: Seq<u8>, p: int)
    requires
        source_ok(f),
        spells(s, p, source_text(f)),
        ends_word(byte_at(s, p + source_text(f).len())),
    ensures
        lex_token(s, p).0 != TokenType::Eof,
        lex_all(s, p) == source_tokens(f) + lex_all(s, p + source_text(f).len()),
    decreases f, 1int,
{
    match f {
        Source::Atom(e) => lemma_lex_printed(e, s, p),
        Source::Prefix(..) => lemma_lex_source_prefix(f, s, p),
        Source::Infix(..) => lemma_lex_source_infix(f, s, p),
        Source::Group(..) => lemma_lex_source_group(f, s, p),
        Source::Array(..) => lemma_lex_source_array(f, s, p),
    }
}

proof fn lemma_lex_source_prefix(f: Source, s: Seq<u8>, p: int)
    requires
        f is Prefix,
        source_ok(f),
        spells(s, p, source_text(f)),
        ends_word(byte_at(s, p + source_text(f).len())),
    ensures
        lex_token(s, p).0 != TokenType::Eof,
        lex_all(s, p) == source_tokens(f) + lex_all(s, p + source_text(f).len()),
    decreases f, 0int,
{
    reveal_strlit("(");
    reveal_strlit(")");
    let token = f->Prefix_0;
    let operator = token.literal;
    let r = *f->Prefix_1;
    let rs = source_text(r);
    let n = rs.len();
    lemma_spells_split(s, p, "("@ + operator + rs, ")"@);
    lemma_spells_split(s, p, "("@ + operator, rs);
    lemma_spells_split(s, p, "("@, operator);
    assert(s[p] as int == "("@[0] as int);
    assert(s[p + 1] as int == operator[0] as int);
    assert(s[p + 2 + n] as int == ")"@[0] as int);
    lemma_source_text_start(r);
    assert(s[p + 2] as int == rs[0] as int);
    lemma_lex_punct(s, p, TokenType::Lparen, '(');
    if token.kind == TokenType::Minus {
        lemma_lex_punct(s, p + 1, TokenType::Minus, '-');
    } else {
        lemma_lex_bang(s, p + 1);
    }
    lemma_lex_source(r, s, p + 2);
    lemma_lex_punct(s, p + 2 + n, TokenType::Rparen, ')');
    assert(lex_all(s, p) =~= source_tokens(f) + lex_all(s, p + source_text(f).len()));
}

proof fn lemma_lex_source_group(f: Source, s: Seq<u8>, p: int)
    requires
        f is Group,
        source_ok(f),
        spells(s, p, source_text(f)),
        ends_word(byte_at(s, p + source_text(f).len())),
    ensures
        lex_token(s, p).0 != TokenType::Eof,
        lex_all(s, p) == source_tokens(f) + lex_all(s, p + source_text(f).len()),
    decreases f, 0int,
{
    reveal_strlit("(");
    reveal_strlit(")");
    let x = *f->Group_0;
    let xs = source_text(x);
    let n = xs.len();
    lemma_spells_split(s, p, "("@ + xs, ")"@);
    lemma_spells_split(s, p, "("@, xs);
    assert(s[p] as int == "("@[0] as int);
    assert(s[p + 1 + n] as int == ")"@[0] as int);
    lemma_lex_punct(s, p, TokenType::Lparen, '(');
    lemma_lex_source(x, s, p + 1);
    lemma_lex_punct(s, p + 1 + n, TokenType::Rparen, ')');
    assert(lex_all(s, p) =~= source_tokens(f) + lex_all(s, p + source_text(f).len()));
}

#[verifier::rlimit(30)]
proof fn lemma_lex_source_infix(f: Source, s: Seq<u8>, p: int)
    requires
        f is Infix,
        source_ok(f),
        spells(s, p, source_text(f)),
        ends_word(byte_at(s, p + source_text(f).len())),
    ensures
        lex_token(s, p).0 != TokenType::Eof,
        lex_all(s, p) == source_tokens(f) + lex_all(s, p + source_text(f).len()),
    decreases f, 0int,
{
    reveal_strlit("(");
    reveal_strlit(")");
    reveal_strlit(" ");
    let token = f->Infix_0;
    let operator = token.literal;
    let l = *f->Infix_1;
    let r = *f->Infix_2;
    let ls = source_text(l);
    let rs = source_text(r);
    let x1 = "("@ + ls;
    let x2 = x1 + " "@;
    let x3 = x2 + operator;
    let x4 = x3 + " "@;
    let x5 = x4 + rs;
    assert(source_text(f) == x5 + ")"@);
    lemma_spells_split(s, p, x5, ")"@);
    lemma_spells_split(s, p, x4, rs);
    lemma_spells_split(s, p, x3, " "@);
    lemma_spells_split(s, p, x2, operator);
    lemma_spells_split(s, p, x1, " "@);
    lemma_spells_split(s, p, "("@, ls);
    let a = p + 1 + ls.len();
    let b = a + 1 + operator.len();
    let c = b + 1 + rs.len();
    assert(s[p] as int == "("@[0] as int);
    assert(s[a] as int == " "@[0] as int);
    assert(s[b] as int == " "@[0] as int);
    assert(s[c] as int == ")"@[0] as int);
    lemma_source_text_start(r);
    assert(s[b + 1] as int == rs[0] as int);
    lemma_lex_punct(s, p, TokenType::Lparen, '(');
    lemma_lex_source(l, s, p + 1);
    lemma_lex_operator(s, a + 1, token);
    lemma_lex_space(s, a);
    lemma_lex_source(r, s, b + 1);
    lemma_lex_space(s, b);
    lemma_lex_punct(s, c, TokenType::Rparen, ')');
    assert(lex_all(s, p) =~= source_tokens(f) + lex_all(s, p + source_text(f).len()));
}

proof fn lemma_lex_source_array(f: Source, s: Seq<u8>, p: int)
    requires
        f is Array,
        source_ok(f),
        spells(s, p, source_text(f)),
        ends_word(byte_at(s, p + source_text(f).len())),
    ensures
        lex_token(s, p).0 != TokenType::Eof,
        lex_all(s, p) == source_tokens(f) + lex_all(s, p + source_text(f).len()),
    decreases f, 0int,
{
    reveal_strlit("[");
    reveal_strlit("]");
    let es = f->Array_0;
    let xs = sources_text(es);
    let n = xs.len();
    lemma_spells_split(s, p, "["@ + xs, "]"@);
    lemma_spells_split(s, p, "["@, xs);
    assert(s[p] as int == "["@[0] as int);
    assert(s[p + 1 + n] as int == "]"@[0] as int);
    lemma_lex_punct(s, p, TokenType::Lbracket, '[');
    lemma_lex_sources(es, s, p + 1);
    lemma_lex_punct(s, p + 1 + n, TokenType::Rbracket, ']');
    assert(lex_all(s, p) =~= source_tokens(f) + lex_all(s, p + source_text(f).len()));
}

proof fn lemma_lex_sources(es: Seq<Source>, s: Seq<u8>, p: int)
    requires
        sources_ok(es),
        spells(s, p, sources_text(es)),
        ends_word(byte_at(s, p + sources_text(es).len())),
    ensures
        lex_all(s, p) == sources_tokens(es) + lex_all(s, p + sources_text(es).len()),
    decreases es, 1int,
{
    if es.len() == 0 {
        assert(lex_all(s, p) =~= sources_tokens(es) + lex_all(s, p + sources_text(es).len()));
    } else {
        let rest = es.drop_first();
        let n0 = source_text(es[0]).len();
        lemma_spells_split(s, p, source_text(es[0]), sources_tail_text(rest));
        if rest.len() > 0 {
            assert(sources_tail_text(rest)[0] == ',');
            assert(s[p + n0] as int == sources_tail_text(rest)[0] as int);
        }
        lemma_lex_source(es[0], s, p);
        lemma_lex_sources_tail(rest, s, p + n0);
        assert(lex_all(s, p) =~= sources_tokens(es) + lex_all(s, p + sources_text(es).len()));
    }
}

proof fn lemma_lex_sources_tail(es: Seq<Source>, s: Seq<u8>, p: int)
    requires
        sources_ok(es),
        spells(s, p, sources_tail_text(es)),
        ends_word(byte_at(s, p + sources_tail_text(es).len())),
    ensures
        lex_all(s, p) == sources_tail_tokens(es) + lex_all(s, p + sources_tail_text(es).len()),
    decreases es, 1int,
{
    if es.len() == 0 {
        assert(lex_all(s, p) =~= sources_tail_tokens(es) + lex_all(
            s,
            p + sources_tail_text(es).len(),
        ));
    } else {
        let rest = es.drop_first();
        let e0 = source_text(es[0]);
        let n0 = e0.len();
        lemma_spells_split(s, p, seq![',', ' '] + e0, sources_tail_text(rest));
        lemma_spells_split(s, p, seq![',', ' '], e0);
        assert(s[p] as int == seq![',', ' '][0] as int);
        assert(s[p + 1] as int == seq![',', ' '][1] as int);
        lemma_source_text_start(es[0]);
        assert(s[p + 2] as int == e0[0] as int);
        if rest.len() > 0 {
            assert(sources_tail_text(rest)[0] == ',');
            assert(s[p + 2 + n0] as int == sources_tail_text(rest)[0] as int);
        }
        lemma_lex_punct(s, p, TokenType::Comma, ',');
        lemma_lex_source(es[0], s, p + 2);
        lemma_lex_space(s, p + 1);
        lemma_lex_sources_tail(rest, s, p + 2 + n0);
        assert(lex_all(s, p) =~= sources_tail_tokens(es) + lex_all(
            s,
            p + sources_tail_text(es).len(),
        ));
    }
}

// ---------------------------------------------------------------------------
// Parsing a source
// ---------------------------------------------------------------------------

proof fn lemma_parse_source(toks: Seq<SpecToken>, st: PState, f: Source)
    requires
        source_ok(f),
        toks_ok(toks),
        tokens_at(toks, st.pos, source_tokens(f)),
        st.pos + source_tokens(f).len() < toks.len(),
    ensures
        parse_prefix(toks, st) == (
            PState { pos: st.pos + source_tokens(f).len() - 1, errors: st.errors },
            Some(source_tree(f)),
        ),
    decreases f, 1int,
{
    match f {
        Source::Atom(e) => lemma_parse_printed(toks, st, e),
        Source::Prefix(..) => lemma_parse_source_prefix(toks, st, f),
        Source::Infix(..) => lemma_parse_source_infix(toks, st, f),
        Source::Group(..) => lemma_parse_source_group(toks, st, f),
        Source::Array(..) => lemma_parse_source_array(toks, st, f),
    }
}

proof fn lemma_parse_source_closed(
    toks: Seq<SpecToken>,
    st: PState,
    f: Source,
    prec: Precedence,
)
    requires
        source_ok(f),
        toks_ok(toks),
        tokens_at(toks, st.pos, source_tokens(f)),
        st.pos + source_tokens(f).len() < toks.len(),
        closes(toks[st.pos + source_tokens(f).len()].kind),
    ensures
        parse_expression(toks, st, prec) == (
            PState { pos: st.pos + source_tokens(f).len() - 1, errors: st.errors },
            Some(source_tree(f)),
        ),
    decreases f, 2int,
{
    lemma_source_tokens_shape(f);
    lemma_parse_source(toks, st, f);
    let end = PState { pos: st.pos + source_tokens(f).len() - 1, errors: st.errors };
    lemma_loop_stops(toks, end, prec, source_tree(f));
}

proof fn lemma_parse_source_group(toks: Seq<SpecToken>, st: PState, f: Source)
    requires
        f is Group,
        source_ok(f),
        toks_ok(toks),
        tokens_at(toks, st.pos, source_tokens(f)),
        st.pos + source_tokens(f).len() < toks.len(),
    ensures
        parse_prefix(toks, st) == (
            PState { pos: st.pos + source_tokens(f).len() - 1, errors: st.errors },
            Some(source_tree(f)),
        ),
    decreases f, 0int,
{
    let x = *f->Group_0;
    let tx = source_tokens(x);
    let k = tx.len();
    let i = st.pos;
    let lp = punct(TokenType::Lparen, '(');
    let rp = punct(TokenType::Rparen, ')');
    lemma_tokens_split(toks, i, seq![lp] + tx, seq![rp]);
    lemma_tokens_split(toks, i, seq![lp], tx);
    assert(toks[i + 0] == seq![lp][0]);
    assert(toks[i + 1 + k + 0] == seq![rp][0]);
    let s1 = PState { pos: i + 1, errors: st.errors };
    let s3 = PState { pos: i + k, errors: st.errors };
    let s4 = PState { pos: i + 1 + k, errors: st.errors };
    lemma_parse_source_closed(toks, s1, x, Precedence::Lowest);
    assert(expect_peek(toks, s3, TokenType::Rparen) == (s4, true));
    assert(parse_grouped_expression(toks, st) == (s4, Some(source_tree(f))));
}

proof fn lemma_parse_source_prefix(toks: Seq<SpecToken>, st: PState, f: Source)
    requires
        f is Prefix,
        source_ok(f),
        toks_ok(toks),
        tokens_at(toks, st.pos, source_tokens(f)),
        st.pos + source_tokens(f).len() < toks.len(),
    ensures
        parse_prefix(toks, st) == (
            PState { pos: st.pos + source_tokens(f).len() - 1, errors: st.errors },
            Some(source_tree(f)),
        ),
    decreases f, 0int,
{
    let token = f->Prefix_0;
    let r = *f->Prefix_1;
    let e = source_tree(f);
    let tr = source_tokens(r);
    let k = tr.len();
    let i = st.pos;
    let lp = punct(TokenType::Lparen, '(');
    let rp = punct(TokenType::Rparen, ')');
    lemma_tokens_split(toks, i, seq![lp, token] + tr, seq![rp]);
    lemma_tokens_split(toks, i, seq![lp, token], tr);
    assert(toks[i + 0] == seq![lp, token][0]);
    assert(toks[i + 1] == seq![lp, token][1]);
    assert(toks[i + 2 + k + 0] == seq![rp][0]);
    let s1 = PState { pos: i + 1, errors: st.errors };
    let s2 = PState { pos: i + 2, errors: st.errors };
    let s3 = PState { pos: i + 1 + k, errors: st.errors };
    let s4 = PState { pos: i + 2 + k, errors: st.errors };
    lemma_parse_source_closed(toks, s2, r, Precedence::Prefix);
    assert(parse_prefix_expression(toks, s1) == (s3, Some(e)));
    assert(parse_prefix(toks, s1) == (s3, Some(e)));
    lemma_loop_stops(toks, s3, Precedence::Lowest, e);
    assert(parse_expression(toks, s1, Precedence::Lowest) == (s3, Some(e)));
    assert(expect_peek(toks, s3, TokenType::Rparen) == (s4, true));
    assert(parse_grouped_expression(toks, st) == (s4, Some(e)));
}

proof fn lemma_parse_source_infix(toks: Seq<SpecToken>, st: PState, f: Source)
    requires
        f is Infix,
        source_ok(f),
        toks_ok(toks),
        tokens_at(toks, st.pos, source_tokens(f)),
        st.pos + source_tokens(f).len() < toks.len(),
    ensures
        parse_prefix(toks, st) == (
            PState { pos: st.pos + source_tokens(f).len() - 1, errors: st.errors },
            Some(source_tree(f)),
        ),
    decreases f, 0int,
{
    let token = f->Infix_0;
    let l = *f->Infix_1;
    let r = *f->Infix_2;
    let e = source_tree(f);
    let tl = source_tokens(l);
    let tr = source_tokens(r);
    let i = st.pos;
    let lp = punct(TokenType::Lparen, '(');
    let rp = punct(TokenType::Rparen, ')');
    let a2 = seq![lp] + tl;
    let a3 = a2 + seq![token];
    let a4 = a3 + tr;
    lemma_tokens_split(toks, i, a4, seq![rp]);
    lemma_tokens_split(toks, i, a3, tr);
    lemma_tokens_split(toks, i, a2, seq![token]);
    lemma_tokens_split(toks, i, seq![lp], tl);
    lemma_source_tokens_shape(l);
    let o = i + 1 + tl.len();
    let end_l = o - 1;
    let end_r = o + tr.len();
    assert(toks[i + 0] == seq![lp][0]);
    assert(toks[o + 0] == seq![token][0]);
    assert(toks[end_r + 1 + 0] == seq![rp][0]);
    assert(toks[i + 1 + (tl.len() - 1)] == tl[tl.len() - 1]);
    let s1 = PState { pos: i + 1, errors: st.errors };
    let sl = PState { pos: end_l, errors: st.errors };
    let so = PState { pos: o, errors: st.errors };
    let sr0 = PState { pos: o + 1, errors: st.errors };
    let sr = PState { pos: end_r, errors: st.errors };
    let sc = PState { pos: end_r + 1, errors: st.errors };
    lemma_parse_source(toks, s1, l);
    lemma_parse_source_closed(toks, sr0, r, precedence_of(token.kind));
    assert(parse_infix_expression(toks, so, source_tree(l)) == (sr, Some(e)));
    assert(parse_infix(toks, so, source_tree(l)) == (sr, Some(e)));
    lemma_loop_stops(toks, sr, Precedence::Lowest, e);
    assert(parse_infix_loop(toks, sl, Precedence::Lowest, source_tree(l)) == (sr, Some(e)));
    assert(parse_expression(toks, s1, Precedence::Lowest) == (sr, Some(e)));
    assert(expect_peek(toks, sr, TokenType::Rparen) == (sc, true));
    assert(parse_grouped_expression(toks, st) == (sc, Some(e)));
}

proof fn lemma_parse_source_array(toks: Seq<SpecToken>, st: PState, f: Source)
    requires
        f is Array,
        source_ok(f),
        toks_ok(toks),
        tokens_at(toks, st.pos, source_tokens(f)),
        st.pos + source_tokens(f).len() < toks.len(),
    ensures
        parse_prefix(toks, st) == (
            PState { pos: st.pos + source_tokens(f).len() - 1, errors: st.errors },
            Some(source_tree(f)),
        ),
    decreases f, 0int,
{
    let token = punct(TokenType::Lbracket, '[');
    let es = f->Array_0;
    let trees = source_trees(es);
    let lt = sources_tokens(es);
    let i = st.pos;
    let rb = punct(TokenType::Rbracket, ']');
    lemma_tokens_split(toks, i, seq![token] + lt, seq![rb]);
    lemma_tokens_split(toks, i, seq![token], lt);
    assert(toks[i + 0] == seq![token][0]);
    assert(toks[i + 1 + lt.len() + 0] == seq![rb][0]);
    let send = PState { pos: i + 1 + lt.len(), errors: st.errors };
    if es.len() == 0 {
        assert(trees =~= Seq::<SpecExpr>::empty());
        assert(parse_expression_list(toks, st, TokenType::Rbracket) == (send, Some(trees)));
    } else {
        let rest = es.drop_first();
        let t0 = source_tokens(es[0]);
        let tt = sources_tail_tokens(rest);
        lemma_tokens_split(toks, i + 1, t0, tt);
        assert(sources_ok(es));
        assert(source_ok(es[0]) && sources_ok(rest));
        lemma_source_tokens_shape(es[0]);
        assert(toks[i + 1 + 0] == t0[0]);
        if rest.len() > 0 {
            assert(tt[0] == punct(TokenType::Comma, ','));
            assert(toks[i + 1 + t0.len() + 0] == tt[0]);
        }
        let s1 = PState { pos: i + 1, errors: st.errors };
        let s2 = PState { pos: i + t0.len(), errors: st.errors };
        lemma_parse_source_closed(toks, s1, es[0], Precedence::Lowest);
        lemma_parse_sources_tail(toks, s2, seq![source_tree(es[0])], rest);
        assert(seq![source_tree(es[0])] + source_trees(rest) =~= trees);
        assert(parse_expression_list(toks, st, TokenType::Rbracket) == (send, Some(trees)));
    }
    assert(parse_array_literal(toks, st) == (send, Some(source_tree(f))));
}

proof fn lemma_parse_sources_tail(
    toks: Seq<SpecToken>,
    st: PState,
    acc: Seq<SpecExpr>,
    rest: Seq<Source>,
)
    requires
        sources_ok(rest),
        toks_ok(toks),
        0 <= st.pos,
        tokens_at(toks, st.pos + 1, sources_tail_tokens(rest)),
        st.pos + 1 + sources_tail_tokens(rest).len() < toks.len(),
        toks[st.pos + 1 + sources_tail_tokens(rest).len()].kind == TokenType::Rbracket,
    ensures
        list_loop(toks, st, acc, TokenType::Rbracket) == (
            PState { pos: st.pos + 1 + sources_tail_tokens(rest).len(), errors: st.errors },
            Some(acc + source_trees(rest)),
        ),
    decreases rest, 0int,
{
    let i = st.pos;
    if rest.len() == 0 {
        assert(acc + source_trees(rest) =~= acc);
    } else {
        let r0 = rest[0];
        let more = rest.drop_first();
        let t0 = source_tokens(r0);
        let tm = sources_tail_tokens(more);
        let comma = punct(TokenType::Comma, ',');
        lemma_tokens_split(toks, i + 1, seq![comma] + t0, tm);
        lemma_tokens_split(toks, i + 1, seq![comma], t0);
        assert(toks[i + 1 + 0] == seq![comma][0]);
        if more.len() > 0 {
            assert(tm[0] == comma);
            assert(toks[i + 2 + t0.len() + 0] == tm[0]);
        }
        let s1 = PState { pos: i + 2, errors: st.errors };
        let s2 = PState { pos: i + 1 + t0.len(), errors: st.errors };
        lemma_source_tokens_shape(r0);
        lemma_parse_source_closed(toks, s1, r0, Precedence::Lowest);
        lemma_parse_sources_tail(toks, s2, acc.push(source_tree(r0)), more);
        assert(acc.push(source_tree(r0)) + source_trees(more) =~= acc + source_trees(rest));
    }
}

/// Every source of the fragment (printed form with any number of extra
/// parentheses) parses without errors as one expression statement holding
/// the expression it denotes; printing that program and reading the text
/// back gives, without errors, the same text again: parsing then printing
/// is a fixed point.
pub proof fn law_source_parses_and_reprints(f: Source, source: Seq<u8>, printed: Seq<u8>)
    requires
        source_ok(f),
        byte_chars(source) == source_text(f),
        byte_chars(printed) == stmts_str(parsed(source).1),
    ensures
        parsed(source).0.errors.len() == 0,
        parsed(source).1 == seq![
            SpecStmt::Expression { token: source_tokens(f)[0], expression: source_tree(f) },
        ],
        printable(source_tree(f)),
        parsed(printed).0.errors.len() == 0,
        stmts_str(parsed(printed).1) == stmts_str(parsed(source).1),
{
    lemma_source_parses(f, source);
    law_printed_expression_reads_back(source_tree(f), printed);
}

proof fn lemma_source_parses(f: Source, source: Seq<u8>)
    requires
        source_ok(f),
        byte_chars(source) == source_text(f),
    ensures
        parsed(source).0.errors.len() == 0,
        parsed(source).1 == seq![
            SpecStmt::Expression { token: source_tokens(f)[0], expression: source_tree(f) },
        ],
        printable(source_tree(f)),
        stmts_str(parsed(source).1) == expr_str(source_tree(f)),
{
    let n = source.len() as int;
    let text = source_text(f);
    let e = source_tree(f);
    assert forall|j: int| 0 <= j < text.len() implies source[0 + j] as int
        == #[trigger] text[j] as int by {
        assert(byte_chars(source)[j] == source[j] as char);
    }
    lemma_lex_source(f, source, 0);
    lemma_eof_is_fixed_point(source);
    let eof = SpecToken { kind: TokenType::Eof, literal: Seq::empty() };
    assert(lex_all(source, n) == seq![eof]);
    let t = source_tokens(f);
    let toks = lex_all(source, 0);
    assert(toks == t + seq![eof]);
    lemma_source_tokens_shape(f);
    assert forall|j: int| 0 <= j < t.len() implies toks[0 + j] == #[trigger] t[j] by {
        assert((t + seq![eof])[j] == t[j]);
    }
    assert(toks[t.len() as int] == eof);
    assert(toks[0] == t[0]);
    let st0 = PState { pos: 0, errors: Seq::empty() };
    let s1 = PState { pos: t.len() - 1, errors: Seq::empty() };
    let s2 = PState { pos: t.len() as int, errors: Seq::empty() };
    lemma_parse_source_closed(toks, st0, f, Precedence::Lowest);
    let stmt = SpecStmt::Expression { token: t[0], expression: e };
    assert(parse_expression_statement(toks, st0) == (s1, Some(stmt)));
    assert(parse_statement(toks, st0) == (s1, Some(stmt)));
    assert(Seq::<SpecStmt>::empty().push(stmt) =~= seq![stmt]);
    assert(program_loop(toks, s2, seq![stmt]) == (s2, seq![stmt]));
    assert(program_loop(toks, st0, Seq::empty()) == (s2, seq![stmt]));
    lemma_source_tree_printable(f);
    assert(seq![stmt].drop_last() =~= Seq::<SpecStmt>::empty());
    assert(stmts_str(Seq::<SpecStmt>::empty()) == Seq::<char>::empty());
    assert(seq![stmt].last() == stmt);
    assert(stmt_str(stmt) == expr_str(e));
    assert(stmts_str(seq![stmt]) =~= expr_str(e));
}

/// A source of integer literals combined with `+`, `-`, `*` and prefix `-`
/// (with any extra parentheses) runs as a program to its two's-complement
/// value, and changes no state.
pub proof fn law_arithmetic_source_evaluates<F: FloatArith>(
    f: Source,
    source: Seq<u8>,
    fuel: nat,
    env: usize,
    st: RtState,
)
    requires
        source_ok(f),
        is_arith(source_tree(f)),
        byte_chars(source) == source_text(f),
    ensures
        node_result::<F>(fuel, SpecNode::Program(parsed(source).1), env, st) == (
            Some(SpecObject::Integer(arith_value(source_tree(f)))),
            st,
        ),
{
    lemma_source_parses(f, source);
    lemma_arith_program::<F>(fuel, parsed(source).1, source_tokens(f)[0], source_tree(f), env, st);
}

proof fn lemma_arith_program<F: FloatArith>(
    fuel: nat,
    ss: Seq<SpecStmt>,
    token: SpecToken,
    e: SpecExpr,
    env: usize,
    st: RtState,
)
    requires
        is_arith(e),
        ss == seq![SpecStmt::Expression { token, expression: e }],
    ensures
        node_result::<F>(fuel, SpecNode::Program(ss), env, st) == (
            Some(SpecObject::Integer(arith_value(e))),
            st,
        ),
{
    law_integer_arithmetic::<F>(fuel, e, env, st);
    let r = Some(SpecObject::Integer(arith_value(e)));
    assert(stmt_result::<F>(fuel, ss[0], env, st) == (r, st));
    assert(program_result::<F>(fuel, ss, 1, env, st, r) == (r, st));
    assert(program_result::<F>(fuel, ss, 0, env, st, None) == (r, st));
}

// ---------------------------------------------------------------------------
// Texts of the fragment are ASCII
// ---------------------------------------------------------------------------

proof fn lemma_ascii_add(a: Seq<char>, b: Seq<char>)
    requires
        is_ascii_chars(a),
        is_ascii_chars(b),
    ensures
        is_ascii_chars(a + b),
{
    assert forall|i: int| 0 <= i < (a + b).len() implies '\0' <= #[trigger] (a + b)[i] <= '\u{7f}' by {
        if i < a.len() {
            assert((a + b)[i] == a[i]);
        } else {
            assert((a + b)[i] == b[i - a.len()]);
        }
    }
}

proof fn lemma_punct_ascii()
    ensures
        is_ascii_chars("("@),
        is_ascii_chars(")"@),
        is_ascii_chars("["@),
        is_ascii_chars("]"@),
        is_ascii_chars(" "@),
        is_ascii_chars(", "@),
        is_ascii_chars(seq![',', ' ']),
{
    reveal_strlit("(");
    reveal_strlit(")");
    reveal_strlit("[");
    reveal_strlit("]");
    reveal_strlit(" ");
    reveal_strlit(", ");
}

proof fn lemma_token_ascii(tok: SpecToken)
    requires
        infix_spelling(tok.kind) == Some(tok.literal) || tok == punct(TokenType::Minus, '-')
            || tok == punct(TokenType::Bang, '!'),
    ensures
        is_ascii_chars(tok.literal),
{
}

proof fn lemma_atom_ascii(e: SpecExpr)
    requires
        printable(e),
        e is Ident || e is IntegerLiteral || e is Boolean,
    ensures
        is_ascii_chars(expr_str(e)),
{
    let w = expr_str(e);
    assert forall|i: int| 0 <= i < w.len() implies '\0' <= #[trigger] w[i] <= '\u{7f}' by {
        match e {
            SpecExpr::IntegerLiteral { token, .. } => {
                assert(is_digit_char(token.literal[i]));
            },
            SpecExpr::Ident(id) => {
                assert(is_letter_char(id.value[i]));
            },
            SpecExpr::Boolean { token, .. } => {
                assert(is_letter_char(token.literal[i]));
            },
            _ => {},
        }
    }
}

/// The text of a source of the fragment is ASCII.
proof fn lemma_source_ascii(f: Source)
    requires
        source_ok(f),
    ensures
        is_ascii_chars(source_text(f)),
    decreases f, 1int,
{
    lemma_punct_ascii();
    match f {
        Source::Atom(e) => lemma_atom_ascii(e),
        Source::Prefix(tok, r) => {
            lemma_source_ascii(*r);
            lemma_token_ascii(tok);
            lemma_ascii_add("("@, tok.literal);
            lemma_ascii_add("("@ + tok.literal, source_text(*r));
            lemma_ascii_add("("@ + tok.literal + source_text(*r), ")"@);
        },
        Source::Infix(tok, l, r) => {
            lemma_source_ascii(*l);
            lemma_source_ascii(*r);
            lemma_token_ascii(tok);
            let x1 = "("@ + source_text(*l);
            lemma_ascii_add("("@, source_text(*l));
            lemma_ascii_add(x1, " "@);
            lemma_ascii_add(x1 + " "@, tok.literal);
            lemma_ascii_add(x1 + " "@ + tok.literal, " "@);
            lemma_ascii_add(x1 + " "@ + tok.literal + " "@, source_text(*r));
            lemma_ascii_add(x1 + " "@ + tok.literal + " "@ + source_text(*r), ")"@);
        },
        Source::Group(x) => {
            lemma_source_ascii(*x);
            lemma_ascii_add("("@, source_text(*x));
            lemma_ascii_add("("@ + source_text(*x), ")"@);
        },
        Source::Array(es) => {
            lemma_sources_ascii(es);
            lemma_ascii_add("["@, sources_text(es));
            lemma_ascii_add("["@ + sources_text(es), "]"@);
        },
    }
}

proof fn lemma_sources_ascii(es: Seq<Source>)
    requires
        sources_ok(es),
    ensures
        is_ascii_chars(sources_text(es)),
        is_ascii_chars(sources_tail_text(es)),
    decreases es, 0int,
{
    lemma_punct_ascii();
    if es.len() > 0 {
        lemma_source_ascii(es[0]);
        lemma_sources_ascii(es.drop_first());
        lemma_ascii_add(source_text(es[0]), sources_tail_text(es.drop_first()));
        lemma_ascii_add(seq![',', ' '], source_text(es[0]));
        lemma_ascii_add(seq![',', ' '] + source_text(es[0]), sources_tail_text(es.drop_first()));
    } else {
        assert(is_ascii_chars(Seq::<char>::empty()));
    }
}

/// The printed text of an expression of the fragment is ASCII.
proof fn lemma_printed_ascii(e: SpecExpr)
    requires
        printable(e),
    ensures
        is_ascii_chars(expr_str(e)),
    decreases e, 1int,
{
    lemma_punct_ascii();
    match e {
        SpecExpr::Prefix { token, operator, right } => {
            lemma_printed_ascii(*right);
            lemma_token_ascii(token);
            lemma_ascii_add("("@, operator);
            lemma_ascii_add("("@ + operator, expr_str(*right));
            lemma_ascii_add("("@ + operator + expr_str(*right), ")"@);
        },
        SpecExpr::Infix { token, left, operator, right } => {
            lemma_printed_ascii(*left);
            lemma_printed_ascii(*right);
            lemma_token_ascii(token);
            let x1 = "("@ + expr_str(*left);
            lemma_ascii_add("("@, expr_str(*left));
            lemma_ascii_add(x1, " "@);
            lemma_ascii_add(x1 + " "@, operator);
            lemma_ascii_add(x1 + " "@ + operator, " "@);
            lemma_ascii_add(x1 + " "@ + operator + " "@, expr_str(*right));
            lemma_ascii_add(x1 + " "@ + operator + " "@ + expr_str(*right), ")"@);
        },
        SpecExpr::ArrayLiteral { elements, .. } => {
            lemma_printed_list_ascii(elements);
            lemma_ascii_add("["@, exprs_str(elements));
            lemma_ascii_add("["@ + exprs_str(elements), "]"@);
        },
        _ => lemma_atom_ascii(e),
    }
}

proof fn lemma_printed_list_ascii(es: Seq<SpecExpr>)
    requires
        all_printable(es),
    ensures
        is_ascii_chars(exprs_str(es)),
        is_ascii_chars(tail_str(es)),
    decreases es, 0int,
{
    lemma_punct_ascii();
    if es.len() > 0 {
        lemma_printed_ascii(es[0]);
        lemma_printed_list_ascii(es.drop_first());
        lemma_exprs_str_first(es);
        lemma_ascii_add(expr_str(es[0]), tail_str(es.drop_first()));
        lemma_ascii_add(seq![',', ' '], expr_str(es[0]));
        lemma_ascii_add(seq![',', ' '] + expr_str(es[0]), tail_str(es.drop_first()));
    } else {
        assert(is_ascii_chars(Seq::<char>::empty()));
    }
}

/// The UTF-8 bytes of ASCII text read back, byte for byte, as that text.
proof fn lemma_ascii_bytes(t: Seq<char>)
    requires
        is_ascii_chars(t),
    ensures
        byte_chars(encode_utf8(t)) == t,
{
    is_ascii_chars_encode_utf8(t);
    let b = encode_utf8(t);
    assert forall|i: int| 0 <= i < t.len() implies #[trigger] byte_chars(b)[i] == t[i] by {
        assert(t[i] as u8 == b[i]);
        assert('\0' <= t[i] <= '\u{7f}');
    }
    assert(byte_chars(b) =~= t);
}

/// The fixed point of printing, on text: a source text of the fragment,
/// taken as a string (its UTF-8 bytes), parses without errors; printing
/// the program gives a text that, taken as a string again, parses without
/// errors and prints the same.
pub proof fn law_source_text_reprints(f: Source)
    requires
        source_ok(f),
    ensures
        parsed(encode_utf8(source_text(f))).0.errors.len() == 0,
        parsed(
            encode_utf8(stmts_str(parsed(encode_utf8(source_text(f))).1)),
        ).0.errors.len() == 0,
        stmts_str(parsed(encode_utf8(stmts_str(parsed(encode_utf8(source_text(f))).1))).1)
            == stmts_str(parsed(encode_utf8(source_text(f))).1),
{
    lemma_source_ascii(f);
    lemma_ascii_bytes(source_text(f));
    lemma_source_parses(f, encode_utf8(source_text(f)));
    let e = source_tree(f);
    lemma_printed_ascii(e);
    lemma_ascii_bytes(expr_str(e));
    law_printed_expression_reads_back(e, encode_utf8(expr_str(e)));
}

} // verus!
