//! An interpreter for a Scheme dialect: lexer, parser, printer, environments,
//! native procedures and a register machine with proper tail calls.

pub mod datum;
pub mod text;
pub mod printer;
pub mod lexer;
pub mod parser;
pub mod environment;
pub mod error;
pub mod builtin;
pub mod machine;
pub mod vm;
pub mod interpreter;
pub mod laws;
pub mod reading;
