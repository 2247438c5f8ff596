pub mod ast;
pub mod lexer;
pub mod number;
pub mod parser;
pub mod theorems;
