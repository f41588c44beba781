//! Stage 0 compiler for the Bxen language: lexer, parser, x86-64 code
//! generation, NASM/Rust text output, machine-code encoding and PE32+
//! packaging.

pub mod ast;
pub mod codegen;
pub mod text;
pub mod ir;
pub mod limits;
pub mod link;
pub mod machine;
pub mod lexer;
pub mod output;
pub mod parser;
pub mod pe;
pub mod rust_source;
pub mod shape;
pub mod stack;
pub mod x64;
