pub mod ast;
pub mod builder;
pub mod parse;
pub mod where_dsl;
pub mod binding;
pub mod meaning;
