//! PiaRao: a small expression-oriented language with a lexer, a recursive-descent
//! parser and a tree-walking interpreter over exact rational numbers.

pub mod text;
pub mod lexer;
pub mod ast;
pub mod parser;
pub mod number;
pub mod builtins;
pub mod objects;
pub mod interpreter;
pub mod semantics;
pub mod lang;
pub mod laws;
pub mod replay;
pub mod depth;
pub mod reading;
