pub mod value;
pub mod env;
pub mod numeral;
pub mod ast;
pub mod semantics;
pub mod ops;
pub mod interpreter;
pub mod laws;
