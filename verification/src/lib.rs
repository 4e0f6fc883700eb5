//! Tokenizer for a lightweight outline markup.
pub mod lang;
pub mod laws;
pub mod lexer;
pub mod line;
pub mod lines;
pub mod parser;
pub mod scan;
pub mod text;
