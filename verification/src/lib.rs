pub mod ast;
pub mod eval;
pub mod lexer;
pub mod object;
pub mod parser;
pub mod tokens;
