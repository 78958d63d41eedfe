pub mod ast;
pub mod breaks;
pub mod code;
pub mod config;
pub mod doc;
pub mod doc_rules;
pub mod flat;
pub mod preservation;
pub mod tokens;
pub mod whitespace;
