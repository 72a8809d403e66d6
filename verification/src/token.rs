//! Tokens of the Monkey language.

use vstd::prelude::*;

verus! {

/// The kind of a token.
#[derive(Clone, Copy, PartialEq, Eq, Structural, Hash, Debug)]
pub enum TokenType {
    Illegal,
    Eof,
    Ident,
    Int,
    Float,
    String,
    Bang,
    Assign,
    Plus,
    Minus,
    Asterisk,
    Slash,
    Lt,
    Gt,
    Eq,
    NotEq,
    Comma,
    Semicolon,
    Colon,
    Lparen,
    Rparen,
    Lbrace,
    Rbrace,
    Lbracket,
    Rbracket,
    Function,
    Let,
    True,
    False,
    If,
    Else,
    Return,
    Macro,
}

/// The name under which a token kind appears in parser messages.
pub open spec fn token_type_name(t: TokenType) -> Seq<char> {
    match t {
        TokenType::Illegal => "ILLEGAL"@,
        TokenType::Eof => "EOF"@,
        TokenType::Ident => "IDENT"@,
        TokenType::Int => "INT"@,
        TokenType::Float => "FLOAT"@,
        TokenType::String => "STRING"@,
        TokenType::Bang => "!"@,
        TokenType::Assign => "="@,
        TokenType::Plus => "+"@,
        TokenType::Minus => "-"@,
        TokenType::Asterisk => "*"@,
        TokenType::Slash => "/"@,
        TokenType::Lt => "<"@,
        TokenType::Gt => ">"@,
        TokenType::Eq => "=="@,
        TokenType::NotEq => "!="@,
        TokenType::Comma => ","@,
        TokenType::Semicolon => ";"@,
        TokenType::Colon => ":"@,
        TokenType::Lparen => "("@,
        TokenType::Rparen => ")"@,
        TokenType::Lbrace => "{"@,
        TokenType::Rbrace => "}"@,
        TokenType::Lbracket => "["@,
        TokenType::Rbracket => "]"@,
        TokenType::Function => "FUNCTION"@,
        TokenType::Let => "LET"@,
        TokenType::True => "TRUE"@,
        TokenType::False => "FALSE"@,
        TokenType::If => "IF"@,
        TokenType::Else => "ELSE"@,
        TokenType::Return => "RETURN"@,
        TokenType::Macro => "MACRO"@,
    }
}

impl TokenType {
    /// The name of this token kind, as parser messages spell it.
    pub fn as_str(&self) -> (r: &'static str)
        ensures
            r@ == token_type_name(*self),
    {
        match self {
            TokenType::Illegal => "ILLEGAL",
            TokenType::Eof => "EOF",
            TokenType::Ident => "IDENT",
            TokenType::Int => "INT",
            TokenType::Float => "FLOAT",
            TokenType::String => "STRING",
            TokenType::Bang => "!",
            TokenType::Assign => "=",
            TokenType::Plus => "+",
            TokenType::Minus => "-",
            TokenType::Asterisk => "*",
            TokenType::Slash => "/",
            TokenType::Lt => "<",
            TokenType::Gt => ">",
            TokenType::Eq => "==",
            TokenType::NotEq => "!=",
            TokenType::Comma => ",",
            TokenType::Semicolon => ";",
            TokenType::Colon => ":",
            TokenType::Lparen => "(",
            TokenType::Rparen => ")",
            TokenType::Lbrace => "{",
            TokenType::Rbrace => "}",
            TokenType::Lbracket => "[",
            TokenType::Rbracket => "]",
            TokenType::Function => "FUNCTION",
            TokenType::Let => "LET",
            TokenType::True => "TRUE",
            TokenType::False => "FALSE",
            TokenType::If => "IF",
            TokenType::Else => "ELSE",
            TokenType::Return => "RETURN",
            TokenType::Macro => "MACRO",
        }
    }

    /// The name of this token kind as an owned string (the text `{}` prints).
    pub fn to_string(&self) -> (r: String)
        ensures
            r@ == token_type_name(*self),
    {
        String::from_str(self.as_str())
    }
}

/// A token: its kind and the source text it stands for.
#[derive(PartialEq, Eq, Debug)]
pub struct Token {
    pub token_type: TokenType,
    pub literal: String,
}

/// What a token means: its kind and its literal characters.
pub struct SpecToken {
    pub kind: TokenType,
    pub literal: Seq<char>,
}

impl View for Token {
    type V = SpecToken;

    open spec fn view(&self) -> SpecToken {
        SpecToken { kind: self.token_type, literal: self.literal@ }
    }
}

impl Clone for Token {
    fn clone(&self) -> (r: Self)
        ensures
            r == *self,
    {
        Token { token_type: self.token_type, literal: self.literal.clone() }
    }
}

impl Token {
    /// A token of the given kind with the given literal text.
    pub fn new(token_type: TokenType, literal: &str) -> (r: Token)
        ensures
            r.token_type == token_type,
            r.literal@ == literal@,
    {
        Token { token_type, literal: String::from_str(literal) }
    }
}

/// The keyword kind of an identifier spelling, if it is one.
pub open spec fn keyword_of(ident: Seq<char>) -> Option<TokenType> {
    if ident == "fn"@ {
        Some(TokenType::Function)
    } else if ident == "let"@ {
        Some(TokenType::Let)
    } else if ident == "true"@ {
        Some(TokenType::True)
    } else if ident == "false"@ {
        Some(TokenType::False)
    } else if ident == "if"@ {
        Some(TokenType::If)
    } else if ident == "else"@ {
        Some(TokenType::Else)
    } else if ident == "return"@ {
        Some(TokenType::Return)
    } else if ident == "macro"@ {
        Some(TokenType::Macro)
    } else {
        None
    }
}

/// The token kind of an identifier spelling: its keyword kind, else `Ident`.
pub open spec fn ident_type(ident: Seq<char>) -> TokenType {
    match keyword_of(ident) {
        Some(t) => t,
        None => TokenType::Ident,
    }
}

/// The keyword table: each keyword's spelling and token kind.
pub fn keywords() -> (r: Vec<(&'static str, TokenType)>)
    ensures
        r@.len() == 8,
        forall|i: int| 0 <= i < r@.len() ==> keyword_of(#[trigger] r@[i].0@) == Some(r@[i].1),
        forall|s: Seq<char>|
            keyword_of(s) is Some ==> exists|i: int| 0 <= i < r@.len() && #[trigger] r@[i].0@ == s,
{
    let mut r: Vec<(&'static str, TokenType)> = Vec::new();
    r.push(("fn", TokenType::Function));
    r.push(("let", TokenType::Let));
    r.push(("true", TokenType::True));
    r.push(("false", TokenType::False));
    r.push(("if", TokenType::If));
    r.push(("else", TokenType::Else));
    r.push(("return", TokenType::Return));
    r.push(("macro", TokenType::Macro));
    proof {
        reveal_strlit("fn");
        reveal_strlit("let");
        reveal_strlit("true");
        reveal_strlit("false");
        reveal_strlit("if");
        reveal_strlit("else");
        reveal_strlit("return");
        reveal_strlit("macro");
        assert(r@[0].0@ == "fn"@);
        assert(r@[1].0@ == "let"@);
        assert(r@[2].0@ == "true"@);
        assert(r@[3].0@ == "false"@);
        assert(r@[4].0@ == "if"@);
        assert(r@[5].0@ == "else"@);
        assert(r@[6].0@ == "return"@);
        assert(r@[7].0@ == "macro"@);
        assert("if"@[0] != "fn"@[0]);
        assert("else"@[0] != "true"@[0]);
        assert("macro"@[0] != "false"@[0]);
        assert(keyword_of(r@[0].0@) == Some(TokenType::Function));
        assert(keyword_of(r@[1].0@) == Some(TokenType::Let));
        assert(keyword_of(r@[2].0@) == Some(TokenType::True));
        assert(keyword_of(r@[3].0@) == Some(TokenType::False));
        assert(keyword_of(r@[4].0@) == Some(TokenType::If));
        assert(keyword_of(r@[5].0@) == Some(TokenType::Else));
        assert(keyword_of(r@[6].0@) == Some(TokenType::Return));
        assert(keyword_of(r@[7].0@) == Some(TokenType::Macro));
    }
    r
}

/// The token kind of an identifier: the keyword kind for a keyword, else
/// `Ident`.
pub fn lookup_ident(ident: &str) -> (r: TokenType)
    ensures
        r == ident_type(ident@),
{
    if crate::text::str_eq(ident, "fn") {
        TokenType::Function
    } else if crate::text::str_eq(ident, "let") {
        TokenType::Let
    } else if crate::text::str_eq(ident, "true") {
        TokenType::True
    } else if crate::text::str_eq(ident, "false") {
        TokenType::False
    } else if crate::text::str_eq(ident, "if") {
        TokenType::If
    } else if crate::text::str_eq(ident, "else") {
        TokenType::Else
    } else if crate::text::str_eq(ident, "return") {
        TokenType::Return
    } else if crate::text::str_eq(ident, "macro") {
        TokenType::Macro
    } else {
        TokenType::Ident
    }
}

} // verus!
