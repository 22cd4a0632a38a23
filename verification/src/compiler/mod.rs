pub mod ir;
pub mod irbuilder;
pub mod syntax;
