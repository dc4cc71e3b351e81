//! Front end of the Circuit scripting language: a lexer that turns source
//! text into span-tagged tokens, and a recursive-descent parser that turns
//! those tokens into an abstract syntax tree.
pub mod bytecode;
pub mod lexer;
pub mod parser;
pub mod span;
