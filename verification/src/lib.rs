pub mod ast;
pub mod check;
pub mod cli;
pub mod driver;
pub mod error;
pub mod lexer;
pub mod lines;
pub mod lsp;
pub mod parser;
pub mod plan;
pub mod source;
pub mod span;
pub mod strmap;
pub mod text;
