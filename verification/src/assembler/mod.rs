//! The internal RV64 assembler: assembly syntax, instruction encoding,
//! machine layout and ELF emission.

pub mod syntax;
pub mod encode;
pub mod instr;
pub mod parse;
pub mod layout;
pub mod cfg;
pub mod order;
pub mod plan;
pub mod emit;
