//! RISC-V code generation from the IR.

pub mod lines;
pub mod generator;
pub mod shape;
pub mod widths;
pub mod consume;
pub mod ir_facts;
pub mod schema;
pub mod scalar_slots;
pub mod abi;
pub mod operands;
pub mod calls;
pub mod collections;
pub mod runtime;
pub mod mutate;
pub mod pointers;
pub mod compare;
pub mod frame;
pub mod frame_model;
pub mod checks;
pub mod terminator;
pub mod locals;
pub mod molecule;
pub mod fields;

pub use generator::{ArtifactFormat, CodeGenerator, CodegenOptions, TargetProfile};
pub use shape::analyze_backend_shape;
