//! A small scripting language: lexer, parser, lexical scopes and a
//! tree-walking evaluator, each stated over a mathematical model.

pub mod ast;
pub mod environment;
pub mod error;
pub mod grammar;
pub mod interpreter;
pub mod lexer;
pub mod number;
pub mod parser;
pub mod semantics;
pub mod text;
pub mod token;
pub mod values;
