pub mod ast;
pub mod parsers;
