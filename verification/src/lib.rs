//! A compiler for a small pseudocode language: lexer, parser, pretty printer,
//! type checker and code generators for the Little Man Computer and QBE.
pub mod position;
pub mod token;
pub mod text;
pub mod cursor;
pub mod lexer;
pub mod ast;
pub mod error;
pub mod token_cursor;
pub mod parser;
pub mod visitor;
pub mod pretty_print;
pub mod type_checker;
pub mod lmc;
pub mod optimiser;
pub mod compiler;
pub mod ir;
pub mod qbe_compiler;
pub mod pipeline;
