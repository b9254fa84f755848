pub mod ast;
pub mod ast_printer;
pub mod environment;
pub mod error;
pub mod interpreter;
pub mod lox;
pub mod number;
pub mod parser;
pub mod scanner;
pub mod text;
pub mod token;
pub mod token_type;
