pub mod text;
pub mod names;
pub mod error;
pub mod edition;
pub mod commitment_contract;
pub mod ast;
pub mod lifecycle;
pub mod ir;
pub mod assembler;
pub mod codegen;
