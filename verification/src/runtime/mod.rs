//! Runtime: values, float handling and the bytecode machine.

pub mod float;
pub mod value;
pub mod vm;
