//! Effect scripts: lexing, types, builtins, syntax, type checking and bytecode.
pub mod diag;
pub mod lexer;
pub mod types;
pub mod builtins;
pub mod bytecode;
pub mod specialize;
pub mod ast;
pub mod type_check;
pub mod compile;
pub mod parser;
pub mod int_ops;
pub mod compiled;
