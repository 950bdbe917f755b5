//! Front end for a small scripting language: a lexer that turns source text
//! into position-tagged tokens, and a recursive-descent expression parser that
//! builds an abstract syntax tree with the usual precedence and associativity.

pub mod lexer;
pub mod parser;
pub mod token;
