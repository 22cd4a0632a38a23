pub mod ast;
pub mod chars;
pub mod err;
pub mod lexer;
pub mod span;
pub mod token;
