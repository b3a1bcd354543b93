pub mod ast;
pub mod codegen;
pub mod interp;
pub mod laws;
pub mod optimizer;
pub mod parser;
