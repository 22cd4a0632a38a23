pub mod basic_block;
pub mod constant;
pub mod func;
pub mod global;
pub mod inst;
pub mod module;
pub mod ty;
pub mod value;
