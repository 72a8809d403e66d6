//! The lexer: turns source text into tokens, one `next_token` call at a time.
//!
//! The lexer reads the UTF-8 bytes of the source. A zero byte reads as the end
//! of input, exactly like the end itself.

use vstd::prelude::*;
use crate::text::{byte_chars, utf8_lossy, all_ascii};
use vstd::string::StringSliceAdditionalSpecFns;
use crate::token::{SpecToken, Token, TokenType, ident_type};

verus! {

/// The byte at `p`, or 0 past the end.
pub open spec fn byte_at(s: Seq<u8>, p: int) -> u8 {
    if 0 <= p < s.len() {
        s[p]
    } else {
        0
    }
}

/// The position after `p`, never past the end.
pub open spec fn advance(s: Seq<u8>, p: int) -> int {
    if p < s.len() {
        p + 1
    } else {
        s.len() as int
    }
}

pub open spec fn is_whitespace(b: u8) -> bool {
    b == 32 || b == 9 || b == 10 || b == 13
}

/// ASCII letters and the underscore.
pub open spec fn is_letter_byte(b: u8) -> bool {
    (97 <= b && b <= 122) || (65 <= b && b <= 90) || b == 95
}

pub open spec fn is_digit_byte(b: u8) -> bool {
    48 <= b && b <= 57
}

/// The first position at or after `p` that is not whitespace.
pub open spec fn skip_whitespace(s: Seq<u8>, p: int) -> int
    decreases s.len() - p,
{
    if 0 <= p < s.len() && is_whitespace(s[p]) {
        skip_whitespace(s, p + 1)
    } else {
        p
    }
}

/// Skips a comment starting at `p` up to the end of its line, then the
/// whitespace after it.
pub open spec fn skip_comment(s: Seq<u8>, p: int) -> int
    decreases s.len() - p,
{
    if 0 <= p < s.len() && s[p] != 10 && s[p] != 13 && s[p] != 0 {
        skip_comment(s, p + 1)
    } else {
        skip_whitespace(s, p)
    }
}

/// The end of the run of letters starting at `p`.
pub open spec fn scan_letters(s: Seq<u8>, p: int) -> int
    decreases s.len() - p,
{
    if 0 <= p < s.len() && is_letter_byte(s[p]) {
        scan_letters(s, p + 1)
    } else {
        p
    }
}

/// The end of the run of digits starting at `p`.
pub open spec fn scan_digits(s: Seq<u8>, p: int) -> int
    decreases s.len() - p,
{
    if 0 <= p < s.len() && is_digit_byte(s[p]) {
        scan_digits(s, p + 1)
    } else {
        p
    }
}

/// The position of the closing quote (or the end of input) of a string whose
/// body starts at `p`.
pub open spec fn string_end(s: Seq<u8>, p: int) -> int
    decreases s.len() - p,
{
    if 0 <= p < s.len() && s[p] != 34 && s[p] != 0 {
        string_end(s, p + 1)
    } else {
        p
    }
}

/// Where the token read from `p` starts: after whitespace and a comment.
pub open spec fn token_start(s: Seq<u8>, p: int) -> int {
    let q = skip_whitespace(s, p);
    if byte_at(s, q) == 47 && byte_at(s, q + 1) == 47 {
        skip_comment(s, q)
    } else {
        q
    }
}

/// The kind of a token made of one character.
pub open spec fn single_char_type(c: u8) -> Option<TokenType> {
    if c == 59 {
        Some(TokenType::Semicolon)
    } else if c == 58 {
        Some(TokenType::Colon)
    } else if c == 40 {
        Some(TokenType::Lparen)
    } else if c == 41 {
        Some(TokenType::Rparen)
    } else if c == 44 {
        Some(TokenType::Comma)
    } else if c == 43 {
        Some(TokenType::Plus)
    } else if c == 45 {
        Some(TokenType::Minus)
    } else if c == 42 {
        Some(TokenType::Asterisk)
    } else if c == 47 {
        Some(TokenType::Slash)
    } else if c == 60 {
        Some(TokenType::Lt)
    } else if c == 62 {
        Some(TokenType::Gt)
    } else if c == 123 {
        Some(TokenType::Lbrace)
    } else if c == 125 {
        Some(TokenType::Rbrace)
    } else if c == 91 {
        Some(TokenType::Lbracket)
    } else if c == 93 {
        Some(TokenType::Rbracket)
    } else {
        None
    }
}

/// The text of a string literal's body: its bytes read as characters when
/// they are all ASCII, else their lossy UTF-8 decoding.
pub open spec fn string_text(body: Seq<u8>) -> Seq<char> {
    if all_ascii(body) {
        byte_chars(body)
    } else {
        utf8_lossy(body)
    }
}

/// The token read from position `p` of `s`: its kind, its literal text and
/// the position after it.
pub open spec fn lex_token(s: Seq<u8>, p: int) -> (TokenType, Seq<char>, int) {
    let q = token_start(s, p);
    let c = byte_at(s, q);
    if c == 61 {
        if byte_at(s, q + 1) == 61 {
            (TokenType::Eq, "=="@, advance(s, advance(s, q)))
        } else {
            (TokenType::Assign, seq![c as char], advance(s, q))
        }
    } else if c == 33 {
        if byte_at(s, q + 1) == 61 {
            (TokenType::NotEq, "!="@, advance(s, advance(s, q)))
        } else {
            (TokenType::Bang, seq![c as char], advance(s, q))
        }
    } else if single_char_type(c) is Some {
        (single_char_type(c)->0, seq![c as char], advance(s, q))
    } else if c == 34 {
        let e = string_end(s, q + 1);
        (TokenType::String, string_text(s.subrange(q + 1, e)), advance(s, e))
    } else if c == 0 {
        (TokenType::Eof, Seq::empty(), advance(s, q))
    } else if is_digit_byte(c) {
        let e1 = scan_digits(s, q);
        if byte_at(s, e1) != 46 {
            (TokenType::Int, byte_chars(s.subrange(q, e1)), e1)
        } else {
            let e2 = scan_digits(s, e1 + 1);
            (
                TokenType::Float,
                byte_chars(s.subrange(q, e1)) + "."@ + byte_chars(s.subrange(e1 + 1, e2)),
                e2,
            )
        }
    } else if is_letter_byte(c) {
        let e = scan_letters(s, q);
        let lit = byte_chars(s.subrange(q, e));
        (ident_type(lit), lit, e)
    } else {
        (TokenType::Illegal, seq![c as char], advance(s, q))
    }
}

/// Which run of bytes `read` consumes.
#[derive(Clone, Copy, PartialEq, Eq, Structural, Debug)]
pub enum CharClass {
    Letter,
    Digit,
}

pub open spec fn in_class(class: CharClass, b: u8) -> bool {
    match class {
        CharClass::Letter => is_letter_byte(b),
        CharClass::Digit => is_digit_byte(b),
    }
}

pub open spec fn scan_class(class: CharClass, s: Seq<u8>, p: int) -> int {
    match class {
        CharClass::Letter => scan_letters(s, p),
        CharClass::Digit => scan_digits(s, p),
    }
}

/// Reads the tokens of a source text.
pub struct Lexer {
    input: Vec<u8>,
    /// position of the current byte
    position: usize,
    /// the current byte (0 at the end)
    ch: u8,
}

fn is_letter(ch: u8) -> (r: bool)
    ensures
        r == is_letter_byte(ch),
{
    (97 <= ch && ch <= 122) || (65 <= ch && ch <= 90) || ch == 95
}

fn is_digit(ch: u8) -> (r: bool)
    ensures
        r == is_digit_byte(ch),
{
    48 <= ch && ch <= 57
}

/// A token whose literal is the one character of byte `ch`.
fn new_token(token_type: TokenType, ch: u8) -> (r: Token)
    ensures
        r.token_type == token_type,
        r.literal@ == seq![ch as char],
{
    let mut literal = String::new();
    crate::text::push_char(&mut literal, ch as char);
    Token { token_type, literal }
}

impl Lexer {
    /// The bytes being read.
    pub closed spec fn source(&self) -> Seq<u8> {
        self.input@
    }

    /// The position of the current byte.
    pub closed spec fn pos(&self) -> int {
        self.position as int
    }

    pub closed spec fn wf(&self) -> bool {
        &&& self.position <= self.input@.len()
        &&& self.ch == byte_at(self.input@, self.position as int)
    }

    pub proof fn lemma_wf(&self)
        requires
            self.wf(),
        ensures
            0 <= self.pos() <= self.source().len(),
    {
    }

    /// A lexer at the start of `input`.
    pub fn new(input: &str) -> (l: Lexer)
        ensures
            l.wf(),
            l.source() == input.spec_bytes(),
            l.pos() == 0,
    {
        Self::from_bytes(vstd::slice::slice_to_vec(input.as_bytes()))
    }

    /// A lexer at the start of the source text `bytes`.
    pub fn from_bytes(bytes: Vec<u8>) -> (l: Lexer)
        ensures
            l.wf(),
            l.source() == bytes@,
            l.pos() == 0,
    {
        let ch = if bytes.len() == 0 {
            0
        } else {
            bytes[0]
        };
        Lexer { input: bytes, position: 0, ch }
    }

    /// Whether every byte has been read.
    pub fn at_end(&self) -> (r: bool)
        requires
            self.wf(),
        ensures
            r == (self.pos() == self.source().len()),
    {
        self.position == self.input.len()
    }

    fn read_char(&mut self)
        requires
            old(self).wf(),
        ensures
            final(self).wf(),
            final(self).source() == old(self).source(),
            final(self).pos() == advance(old(self).source(), old(self).pos()),
    {
        if self.position < self.input.len() {
            self.position = self.position + 1;
        }
        if self.position < self.input.len() {
            self.ch = self.input[self.position];
        } else {
            self.ch = 0;
        }
    }

    fn peek_char(&self) -> (r: u8)
        requires
            self.wf(),
        ensures
            r == byte_at(self.source(), self.pos() + 1),
    {
        if self.position >= self.input.len() || self.position + 1 >= self.input.len() {
            0
        } else {
            self.input[self.position + 1]
        }
    }

    fn skip_whitespace(&mut self)
        requires
            old(self).wf(),
        ensures
            final(self).wf(),
            final(self).source() == old(self).source(),
            final(self).pos() == skip_whitespace(old(self).source(), old(self).pos()),
    {
        while self.ch == 32 || self.ch == 9 || self.ch == 10 || self.ch == 13
            invariant
                self.wf(),
                self.source() == old(self).source(),
                skip_whitespace(self.source(), self.pos()) == skip_whitespace(
                    old(self).source(),
                    old(self).pos(),
                ),
            decreases self.source().len() - self.pos(),
        {
            self.read_char();
        }
    }

    fn skip_comment(&mut self)
        requires
            old(self).wf(),
        ensures
            final(self).wf(),
            final(self).source() == old(self).source(),
            final(self).pos() == skip_comment(old(self).source(), old(self).pos()),
    {
        while self.ch != 10 && self.ch != 13 && self.ch != 0
            invariant
                self.wf(),
                self.source() == old(self).source(),
                skip_comment(self.source(), self.pos()) == skip_comment(
                    old(self).source(),
                    old(self).pos(),
                ),
            decreases self.source().len() - self.pos(),
        {
            self.read_char();
        }
        self.skip_whitespace();
    }

    fn in_class_now(&self, class: CharClass) -> (r: bool)
        ensures
            r == in_class(class, self.ch),
    {
        match class {
            CharClass::Letter => is_letter(self.ch),
            CharClass::Digit => is_digit(self.ch),
        }
    }

    /// Reads the run of bytes of the given class at the current position.
    fn read(&mut self, class: CharClass) -> (r: String)
        requires
            old(self).wf(),
        ensures
            final(self).wf(),
            final(self).source() == old(self).source(),
            final(self).pos() == scan_class(class, old(self).source(), old(self).pos()),
            r@ == byte_chars(old(self).source().subrange(old(self).pos(), final(self).pos())),
    {
        let position = self.position;
        while self.in_class_now(class)
            invariant
                self.wf(),
                self.source() == old(self).source(),
                position <= self.pos(),
                position == old(self).pos(),
                scan_class(class, self.source(), self.pos()) == scan_class(
                    class,
                    old(self).source(),
                    old(self).pos(),
                ),
                forall|i: int| position <= i < self.pos() ==> in_class(class, #[trigger] self.source()[i]),
            decreases self.source().len() - self.pos(),
        {
            self.read_char();
        }
        let slice = vstd::slice::slice_subrange(self.input.as_slice(), position, self.position);
        proof {
            assert forall|i: int| 0 <= i < slice@.len() implies slice@[i] < 128 by {
                assert(in_class(class, self.source()[position + i]));
            }
            assert(all_ascii(slice@));
        }
        crate::text::string_from_utf8_lossy(slice)
    }

    fn read_ident(&mut self) -> (r: String)
        requires
            old(self).wf(),
        ensures
            final(self).wf(),
            final(self).source() == old(self).source(),
            final(self).pos() == scan_letters(old(self).source(), old(self).pos()),
            r@ == byte_chars(old(self).source().subrange(old(self).pos(), final(self).pos())),
    {
        self.read(CharClass::Letter)
    }

    fn read_number(&mut self) -> (r: String)
        requires
            old(self).wf(),
        ensures
            final(self).wf(),
            final(self).source() == old(self).source(),
            final(self).pos() == scan_digits(old(self).source(), old(self).pos()),
            r@ == byte_chars(old(self).source().subrange(old(self).pos(), final(self).pos())),
    {
        self.read(CharClass::Digit)
    }

    /// Reads a string body; the current byte is the opening quote. Stops on
    /// the closing quote or the end.
    fn read_string(&mut self) -> (r: String)
        requires
            old(self).wf(),
            old(self).pos() < old(self).source().len(),
        ensures
            final(self).wf(),
            final(self).source() == old(self).source(),
            final(self).pos() == string_end(old(self).source(), old(self).pos() + 1),
            r@ == string_text(old(self).source().subrange(old(self).pos() + 1, final(self).pos())),
    {
        self.read_char();
        let position = self.position;
        while self.ch != 34 && self.ch != 0
            invariant
                self.wf(),
                self.source() == old(self).source(),
                position <= self.pos(),
                position == old(self).pos() + 1,
                string_end(self.source(), self.pos()) == string_end(
                    old(self).source(),
                    old(self).pos() + 1,
                ),
            decreases self.source().len() - self.pos(),
        {
            self.read_char();
        }
        let slice = vstd::slice::slice_subrange(self.input.as_slice(), position, self.position);
        crate::text::string_from_utf8_lossy(slice)
    }

    fn read_number_token(&mut self) -> (r: Token)
        requires
            old(self).wf(),
        ensures
            final(self).wf(),
            final(self).source() == old(self).source(),
            ({
                let s = old(self).source();
                let q = old(self).pos();
                let e1 = scan_digits(s, q);
                if byte_at(s, e1) != 46 {
                    r.token_type == TokenType::Int && r.literal@ == byte_chars(s.subrange(q, e1))
                        && final(self).pos() == e1
                } else {
                    let e2 = scan_digits(s, e1 + 1);
                    r.token_type == TokenType::Float && r.literal@ == byte_chars(s.subrange(q, e1))
                        + "."@ + byte_chars(s.subrange(e1 + 1, e2)) && final(self).pos() == e2
                }
            }),
    {
        let mut int_part = self.read_number();
        if self.ch != 46 {
            return Token { token_type: TokenType::Int, literal: int_part };
        }
        self.read_char();
        let frac_part = self.read_number();
        crate::text::append_str(&mut int_part, ".");
        crate::text::append_str(&mut int_part, frac_part.as_str());
        Token { token_type: TokenType::Float, literal: int_part }
    }

    /// Reads the next token. At the end of input it keeps returning `Eof`.
    pub fn next_token(&mut self) -> (r: Token)
        requires
            old(self).wf(),
        ensures
            final(self).wf(),
            final(self).source() == old(self).source(),
            (r.token_type, r.literal@, final(self).pos()) == lex_token(
                old(self).source(),
                old(self).pos(),
            ),
    {
        self.skip_whitespace();
        if self.ch == 47 && self.peek_char() == 47 {
            self.skip_comment();
        }
        let ghost s = self.source();
        let ghost q = self.pos();
        assert(q == token_start(s, old(self).pos()));
        let tok: Token;
        let c = self.ch;
        if c == 61 {
            if self.peek_char() == 61 {
                self.read_char();
                tok = Token::new(TokenType::Eq, "==");
            } else {
                tok = new_token(TokenType::Assign, c);
            }
        } else if c == 33 {
            if self.peek_char() == 61 {
                self.read_char();
                tok = Token::new(TokenType::NotEq, "!=");
            } else {
                tok = new_token(TokenType::Bang, c);
            }
        } else if c == 59 {
            tok = new_token(TokenType::Semicolon, c);
        } else if c == 58 {
            tok = new_token(TokenType::Colon, c);
        } else if c == 40 {
            tok = new_token(TokenType::Lparen, c);
        } else if c == 41 {
            tok = new_token(TokenType::Rparen, c);
        } else if c == 44 {
            tok = new_token(TokenType::Comma, c);
        } else if c == 43 {
            tok = new_token(TokenType::Plus, c);
        } else if c == 45 {
            tok = new_token(TokenType::Minus, c);
        } else if c == 42 {
            tok = new_token(TokenType::Asterisk, c);
        } else if c == 47 {
            tok = new_token(TokenType::Slash, c);
        } else if c == 60 {
            tok = new_token(TokenType::Lt, c);
        } else if c == 62 {
            tok = new_token(TokenType::Gt, c);
        } else if c == 123 {
            tok = new_token(TokenType::Lbrace, c);
        } else if c == 125 {
            tok = new_token(TokenType::Rbrace, c);
        } else if c == 91 {
            tok = new_token(TokenType::Lbracket, c);
        } else if c == 93 {
            tok = new_token(TokenType::Rbracket, c);
        } else if c == 34 {
            let literal = self.read_string();
            tok = Token { token_type: TokenType::String, literal };
        } else if c == 0 {
            tok = Token::new(TokenType::Eof, "");
            proof {
                reveal_strlit("");
            }
        } else {
            if is_digit(c) {
                return self.read_number_token();
            }
            if is_letter(c) {
                let literal = self.read_ident();
                let token_type = crate::token::lookup_ident(literal.as_str());
                return Token { token_type, literal };
            }
            tok = new_token(TokenType::Illegal, c);
        }
        self.read_char();
        tok
    }
}


proof fn lemma_skip_whitespace_bounds(s: Seq<u8>, p: int)
    requires
        0 <= p <= s.len(),
    ensures
        p <= skip_whitespace(s, p) <= s.len(),
    decreases s.len() - p,
{
    if 0 <= p < s.len() && is_whitespace(s[p]) {
        lemma_skip_whitespace_bounds(s, p + 1);
    }
}

proof fn lemma_skip_comment_bounds(s: Seq<u8>, p: int)
    requires
        0 <= p <= s.len(),
    ensures
        p <= skip_comment(s, p) <= s.len(),
    decreases s.len() - p,
{
    if 0 <= p < s.len() && s[p] != 10 && s[p] != 13 && s[p] != 0 {
        lemma_skip_comment_bounds(s, p + 1);
    } else {
        lemma_skip_whitespace_bounds(s, p);
    }
}

proof fn lemma_scan_letters_bounds(s: Seq<u8>, p: int)
    requires
        0 <= p <= s.len(),
    ensures
        p <= scan_letters(s, p) <= s.len(),
        is_letter_byte(byte_at(s, p)) ==> p < scan_letters(s, p),
    decreases s.len() - p,
{
    if 0 <= p < s.len() && is_letter_byte(s[p]) {
        lemma_scan_letters_bounds(s, p + 1);
    }
}

proof fn lemma_scan_digits_bounds(s: Seq<u8>, p: int)
    requires
        0 <= p <= s.len(),
    ensures
        p <= scan_digits(s, p) <= s.len(),
        is_digit_byte(byte_at(s, p)) ==> p < scan_digits(s, p),
    decreases s.len() - p,
{
    if 0 <= p < s.len() && is_digit_byte(s[p]) {
        lemma_scan_digits_bounds(s, p + 1);
    }
}

proof fn lemma_string_end_bounds(s: Seq<u8>, p: int)
    requires
        0 <= p <= s.len(),
    ensures
        p <= string_end(s, p) <= s.len(),
    decreases s.len() - p,
{
    if 0 <= p < s.len() && s[p] != 34 && s[p] != 0 {
        lemma_string_end_bounds(s, p + 1);
    }
}

/// Every token read moves the lexer forward, except at the very end, where
/// it reads `Eof` with an empty literal and stays put.
pub proof fn lemma_lex_token_progress(s: Seq<u8>, p: int)
    requires
        0 <= p <= s.len(),
    ensures
        lex_token(s, p).2 <= s.len(),
        p < lex_token(s, p).2 || (p == s.len() && lex_token(s, p) == (
            TokenType::Eof,
            Seq::<char>::empty(),
            s.len() as int,
        )),
{
    lemma_skip_whitespace_bounds(s, p);
    let q0 = skip_whitespace(s, p);
    if byte_at(s, q0) == 47 && byte_at(s, q0 + 1) == 47 {
        lemma_skip_comment_bounds(s, q0);
    }
    let q = token_start(s, p);
    lemma_scan_digits_bounds(s, q);
    lemma_scan_letters_bounds(s, q);
    let c = byte_at(s, q);
    if c == 34 {
        lemma_string_end_bounds(s, q + 1);
    }
    if is_digit_byte(c) {
        let e1 = scan_digits(s, q);
        if byte_at(s, e1) == 46 {
            lemma_scan_digits_bounds(s, e1 + 1);
        }
    }
}

/// At the end of the input the lexer reads `Eof` with an empty literal, and
/// reading again gives the same.
pub proof fn lemma_eof_is_fixed_point(s: Seq<u8>)
    ensures
        lex_token(s, s.len() as int) == (TokenType::Eof, Seq::<char>::empty(), s.len() as int),
{
    lemma_lex_token_progress(s, s.len() as int);
}

/// Whether reading at most `n` tokens from `p` reads an `Eof`.
pub open spec fn reaches_eof(s: Seq<u8>, p: int, n: nat) -> bool
    decreases n,
{
    if n == 0 {
        false
    } else {
        lex_token(s, p).0 == TokenType::Eof || reaches_eof(s, lex_token(s, p).2, (n - 1) as nat)
    }
}

/// From any position, the lexer reads `Eof` within one token more than the
/// bytes left.
pub proof fn lemma_lexer_reaches_eof(s: Seq<u8>, p: int)
    requires
        0 <= p <= s.len(),
    ensures
        reaches_eof(s, p, (s.len() - p + 1) as nat),
    decreases s.len() - p,
{
    lemma_lex_token_progress(s, p);
    if lex_token(s, p).0 != TokenType::Eof {
        let np = lex_token(s, p).2;
        lemma_lexer_reaches_eof(s, np);
        lemma_reaches_eof_monotone(s, np, (s.len() - np + 1) as nat, (s.len() - p) as nat);
    }
}

proof fn lemma_reaches_eof_monotone(s: Seq<u8>, p: int, n: nat, m: nat)
    requires
        reaches_eof(s, p, n),
        n <= m,
    ensures
        reaches_eof(s, p, m),
    decreases n,
{
    if lex_token(s, p).0 != TokenType::Eof {
        lemma_reaches_eof_monotone(s, lex_token(s, p).2, (n - 1) as nat, (m - 1) as nat);
    }
}

/// The tokens read from `p` up to and including the `Eof` read at the end of
/// the input (an `Eof` read at a zero byte before the end does not stop it).
pub open spec fn lex_all(s: Seq<u8>, p: int) -> Seq<SpecToken>
    decreases s.len() - p,
{
    if 0 <= p <= s.len() {
        let (t, lit, np) = lex_token(s, p);
        proof {
            lemma_lex_token_progress(s, p);
        }
        let tok = SpecToken { kind: t, literal: lit };
        if np == s.len() && t == TokenType::Eof {
            seq![tok]
        } else if p < np {
            seq![tok] + lex_all(s, np)
        } else {
            seq![tok]
        }
    } else {
        Seq::empty()
    }
}

/// The token sequence of an input always ends with `Eof`.
pub proof fn lemma_lex_all_ends_with_eof(s: Seq<u8>, p: int)
    requires
        0 <= p <= s.len(),
    ensures
        lex_all(s, p).len() > 0,
        lex_all(s, p).last().kind == TokenType::Eof,
    decreases s.len() - p,
{
    lemma_lex_token_progress(s, p);
    let (t, lit, np) = lex_token(s, p);
    if np == s.len() && t == TokenType::Eof {
    } else if p < np {
        lemma_lex_all_ends_with_eof(s, np);
        let tok = SpecToken { kind: t, literal: lit };
        assert((seq![tok] + lex_all(s, np)).last() == lex_all(s, np).last());
    }
}

/// The kinds of a name token: an identifier or a keyword.
pub open spec fn is_name_kind(t: TokenType) -> bool {
    t == TokenType::Ident || t == TokenType::Function || t == TokenType::Let || t
        == TokenType::True || t == TokenType::False || t == TokenType::If || t == TokenType::Else
        || t == TokenType::Return || t == TokenType::Macro
}

proof fn lemma_scan_letters_run(s: Seq<u8>, p: int)
    requires
        0 <= p <= s.len(),
    ensures
        p <= scan_letters(s, p) <= s.len(),
        forall|i: int| p <= i < scan_letters(s, p) ==> is_letter_byte(#[trigger] s[i]),
        !is_letter_byte(byte_at(s, scan_letters(s, p))),
    decreases s.len() - p,
{
    if 0 <= p < s.len() && is_letter_byte(s[p]) {
        lemma_scan_letters_run(s, p + 1);
    }
}

/// A name token (an identifier or a keyword) is the whole run of letters
/// where it starts: its text is not empty, is made of letters and
/// underscores, is not followed by another letter, and its kind is the
/// keyword kind of its spelling, else `Ident`.
pub proof fn law_name_tokens(s: Seq<u8>, p: int)
    requires
        0 <= p <= s.len(),
        is_name_kind(lex_token(s, p).0),
    ensures
        ({
            let (t, lit, np) = lex_token(s, p);
            &&& 0 < lit.len() <= np <= s.len()
            &&& lit == byte_chars(s.subrange(np - lit.len(), np))
            &&& forall|i: int| np - lit.len() <= i < np ==> is_letter_byte(#[trigger] s[i])
            &&& !is_letter_byte(byte_at(s, np))
            &&& t == ident_type(lit)
        }),
{
    lemma_lex_token_progress(s, p);
    lemma_skip_whitespace_bounds(s, p);
    let q0 = skip_whitespace(s, p);
    if byte_at(s, q0) == 47 && byte_at(s, q0 + 1) == 47 {
        lemma_skip_comment_bounds(s, q0);
    }
    let q = token_start(s, p);
    let c = byte_at(s, q);
    assert(is_letter_byte(c));
    lemma_scan_letters_bounds(s, q);
    lemma_scan_letters_run(s, q);
}

/// The first `n` tokens read from position `p` of `s`, one `next_token`
/// call after another (reading on at the end repeats `Eof`).
pub open spec fn tokens_read(s: Seq<u8>, p: int, n: nat) -> Seq<SpecToken>
    decreases n,
{
    if n == 0 {
        Seq::empty()
    } else {
        let (t, lit, np) = lex_token(s, p);
        seq![SpecToken { kind: t, literal: lit }] + tokens_read(s, np, (n - 1) as nat)
    }
}

/// What a lexer reads depends only on its text and position: two lexers on
/// equal text (such as two made by `Lexer::new` from equal strings, which
/// start at position 0) read, call after call, the same tokens, and
/// `tokens_read` is what they read.
pub proof fn law_tokens_depend_only_on_text(a: Lexer, b: Lexer, n: nat)
    requires
        a.source() == b.source(),
        a.pos() == b.pos(),
    ensures
        tokens_read(a.source(), a.pos(), n) == tokens_read(b.source(), b.pos(), n),
        n > 0 ==> tokens_read(a.source(), a.pos(), n)[0] == (SpecToken {
            kind: lex_token(a.source(), a.pos()).0,
            literal: lex_token(a.source(), a.pos()).1,
        }),
        n > 0 ==> tokens_read(a.source(), a.pos(), n).drop_first() == tokens_read(
            a.source(),
            lex_token(a.source(), a.pos()).2,
            (n - 1) as nat,
        ),
{
    if n > 0 {
        let (t, lit, np) = lex_token(a.source(), a.pos());
        assert((seq![SpecToken { kind: t, literal: lit }] + tokens_read(a.source(), np, (n - 1) as nat)).drop_first()
            =~= tokens_read(a.source(), np, (n - 1) as nat));
    }
}

} // verus!
