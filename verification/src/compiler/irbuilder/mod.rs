pub mod builder;
pub mod code;
pub mod context;
pub mod err;
pub mod rules;
