//! Peps bytecode instructions and constant values.

use vstd::prelude::*;

use crate::common::numeric::Int;
use crate::frontend::ast::{ConversionKind, InputKind};

verus! {

/// One instruction of the Peps stack machine.
#[derive(Debug, Clone, PartialEq)]
pub enum Instruction {
    /// Push a constant.
    LoadConst(Value),
    /// Read one typed input value and push it.
    Input(InputKind),
    /// Convert the top value to an integer or a float.
    Convert(ConversionKind),
    /// Push the value of a top-level variable.
    LoadVar(String),
    /// Pop a value into a top-level variable.
    StoreVar(String),
    /// Push the value of a variable of the current call frame.
    LoadLocal(String),
    /// Pop a value into a variable of the current call frame.
    StoreLocal(String),
    /// Add numbers or concatenate text.
    Add,
    /// Subtract numbers.
    Sub,
    /// Multiply numbers.
    Mul,
    /// Divide numbers.
    Div,
    /// Scalar equality.
    Eq,
    /// Scalar inequality.
    NotEq,
    /// Numeric less-than.
    Lt,
    /// Numeric greater-than.
    Gt,
    /// Numeric less-than-or-equal.
    LtEq,
    /// Numeric greater-than-or-equal.
    GtEq,
    /// Pop the given number of values into a list.
    MakeList(usize),
    /// Pop the given number of key-value pairs into a map.
    MakeMap(usize),
    /// Length of text (in graphemes), a list or a map.
    ListLen,
    /// Index text or a list, or look a key up in a map.
    ListGet,
    /// Whether a map holds a key.
    MapHas,
    /// Append to a list, or merge a map into a map.
    ListAppend,
    /// Pop a value and print it.
    Print,
    /// Discard the top value.
    Pop,
    /// Call the function whose code starts at `target` with `arity` arguments.
    Call { target: usize, arity: usize },
    /// Return the top value to the caller.
    Return,
    /// Continue at the given instruction.
    Jump(usize),
    /// Pop a boolean and continue at the given instruction when it is false.
    JumpIfFalse(usize),
}

/// A constant operand of [`Instruction::LoadConst`].
#[derive(Debug, Clone, PartialEq)]
pub enum Value {
    /// An integer.
    Num(Int),
    /// A float, as the decimal text of its literal (for example `-1.5`).
    Float(String),
    /// Text.
    Str(String),
    /// A boolean.
    Bool(bool),
    /// An emoji literal.
    Emoji(String),
}

} // verus!
