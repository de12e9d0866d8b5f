//! Front end of a small expression language: a scanner from source text to
//! tokens, a recursive-descent parser from tokens to an expression tree, and a
//! printer from the tree to a fully parenthesized string.
pub mod ast;
pub mod expr;
pub mod parser;
pub mod scanner;
pub mod token;
