//! A verified MiniMessage markup tokenizer, parser and component builder.
pub mod token;
pub mod tokenizer;
pub mod parse_error;
pub mod text;
pub mod parser_spec;
pub mod parser;
pub mod parser_laws;
pub mod style;
pub mod runtime;
pub mod render;
pub mod runtime_laws;
pub mod codegen;
