//! A combinator library for building recursive-descent parsers over sliceable
//! input, with Unicode-correct position, line and column tracking.

pub mod asdl;
pub mod ast;
pub mod errors;
pub mod internals;
pub mod parser;
pub mod parsers;
pub mod traits;
pub mod utils;
pub mod vyper;
