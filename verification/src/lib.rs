pub mod ast;
pub mod copy;
pub mod failure;
pub mod formatter;
pub mod grammar;
pub mod interpreter;
pub mod lexer;
pub mod native;
pub mod optimizer;
pub mod parse_failure;
pub mod parser;
pub mod render;
pub mod report;
pub mod semantics;
pub mod text;
pub mod token;
pub mod utils;
pub mod value;
pub mod vault;
