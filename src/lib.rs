//! An interpreter for Weave, a small imperative scripting language: a byte
//! scanner, a recursive-descent parser and a tree-walking evaluator.
pub mod ast;
pub mod grammar;
pub mod interpreter;
pub mod lexer;
pub mod parser;
pub mod runtime;
pub mod semantics;
pub mod table;
pub mod token;
pub mod value;
