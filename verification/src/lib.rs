//! A lexer, parser and early semantic analysis for the Lazy programming language.
pub mod text;
pub mod errors;
pub mod diagnostics;
pub mod input_parser;
pub mod numeric;
pub mod tokenizer;
pub mod parser_error;
pub mod ast;
pub mod parser;
pub mod symbol;
pub mod value;
pub mod type_error;
pub mod macros;
pub mod macro_params;
pub mod display;
pub mod path;
pub mod names;
pub mod module;
pub mod symbol_table;
pub mod token_error;
pub mod scope;
pub mod analyzer;
pub mod report;
