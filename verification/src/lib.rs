//! A small compiler middle end: lexing of a C-like language and the
//! construction of a typed, control-flow-explicit intermediate representation.

pub mod compiler;
