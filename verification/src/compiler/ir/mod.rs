pub mod arena;
pub mod listing;
pub mod text;
pub mod value;
