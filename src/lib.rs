//! Front end of a small scripting language: its tokens, a lexer proved
//! against a model of the token grammar, the syntax tree, the store of
//! variable bindings, a parser from tokens to statements, and a tree-walking
//! evaluator whose number arithmetic is supplied by the host.
pub mod token;
pub mod lexer;
pub mod laws;
pub mod ast;
pub mod value;
pub mod eval;
pub mod parser;
pub mod run;
