//! A front end for a small expression-oriented source language: a parser that
//! turns source text into an abstract syntax tree, and a translator that
//! rewrites that tree as source text of an ML-style target language.

pub mod ast;
pub mod compiler;
pub mod lexer;
pub mod parser;
pub mod translator;
pub mod text;

pub use ast::Expr;
pub use ast::Function;
pub use ast::ParseError;
pub use ast::ParseErrorKind;
pub use ast::Statement;
