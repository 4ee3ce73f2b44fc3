//! Front end for a small expression-oriented scripting language.
//!
//! The lexer turns raw source text into a sequence of typed tokens with
//! position metadata, and the parser turns that token sequence into an
//! abstract syntax tree of statements and expressions.  Both are specified
//! against mathematical scanners and grammars over sequences of characters
//! and token views, and the executable code is proved to agree with them.

pub mod tokens;
pub mod errors;
pub mod scan;
pub mod lexer;
pub mod numbers;
pub mod grammar;
pub mod ast;
pub mod laws;
