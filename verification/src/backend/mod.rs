//! Backend: stack bytecode and the compiler that emits it.

pub mod bytecode;
pub mod compiler;
pub mod emission;
pub mod layout;
