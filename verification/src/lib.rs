//! An interpreter for the Monkey programming language: lexer, Pratt parser,
//! tree-walking evaluator with closures, hashes and a quote/unquote macro
//! system.

pub mod text;
pub mod numfmt;
pub mod float;
pub mod token;
pub mod lexer;
pub mod ast;
pub mod parser_spec;
pub mod parser;
pub mod object;
pub mod eval_spec;
pub mod operators;
pub mod builtin;
pub mod eval;
pub mod macros;
pub mod repl;
pub mod laws;
pub mod rewrite;
pub mod reprint;
