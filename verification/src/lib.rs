//! Front end of a small expression language: a lexical scanner that turns
//! source text into a token sequence, and a recursive-descent parser that
//! turns the token sequence into an expression tree, together with a
//! deterministic tree printer and an error-reporting collaborator.

pub mod expr;
pub mod lox;
pub mod parser;
pub mod scanner;
pub mod token;

pub use token::Token;
pub use token::TokenKind;
