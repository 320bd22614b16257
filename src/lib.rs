//! A small compiler pipeline for a C-like language: spans, a lexer, a
//! backtracking parser, a type checker, a bytecode format and a stack machine.
pub mod ast;
pub mod bytecode;
pub mod checker;
pub mod codegen;
pub mod compiler;
pub mod cursor;
pub mod diagnostic;
pub mod interpreter;
pub mod lexer;
pub mod location;
pub mod parser;
pub mod token;
pub mod typed;
