//! A small imperative language: a scanner, a parser that checks declarations and
//! emits a three-address intermediate code, and a machine that runs that code.

pub mod text;
pub mod token;
pub mod lexer;
pub mod ir;
pub mod grammar;
pub mod parser;
pub mod machine;
pub mod render;
pub mod laws;
pub mod roundtrip;
