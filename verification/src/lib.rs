//! An intermediate-language toolchain: lexer, parser, module importer,
//! two-pass type checker and AMD64 assembler, with their contracts.

pub mod text;
pub mod error;
pub mod types;
pub mod token;
pub mod lexer;
pub mod ast;
pub mod number;
pub mod grammar;
pub mod parser;
pub mod parser_laws;
pub mod type_name_laws;
pub mod strmap;
pub mod checker_spec;
pub mod symbol;
pub mod checker;
pub mod importer;
pub mod assembler;
pub mod assembly_laws;
pub mod arena;
pub mod floats;
pub mod checker_laws;
pub mod lexer_laws;
