//! Shared source locations, diagnostics and text helpers.

pub mod diagnostic;
pub mod graphemes;
pub mod source;
pub mod numeric;
pub mod text;
