pub mod ast;
pub mod bytes;
pub mod codegen;
pub mod elfgen;
pub mod image;
pub mod ir;
pub mod lexer;
pub mod parser;
pub mod samplegen;
pub mod vm;
