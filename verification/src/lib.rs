pub mod casing;
pub mod codegen;
pub mod number;
pub mod parse;
pub mod text;
