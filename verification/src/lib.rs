//! A small arithmetic expression language: a lexer, a token model with
//! operator precedences, an abstract syntax tree, and a precedence-climbing
//! parser, all with verified contracts. The laws module proves that a
//! successful parse groups operators exactly as standard precedence
//! demands, and that re-parsing a tree's canonical re-rendering yields the
//! identical tree.

pub mod ast;
pub mod laws;
pub mod lexer;
pub mod parser;
pub mod token;
pub mod tree;
