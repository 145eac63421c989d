//! Middle end: static types, the symbol table, the static rules and the
//! semantic checker.

pub mod reports;
pub mod semantic;
pub mod symbol_table;
pub mod types;
pub mod typing;
