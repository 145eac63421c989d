//! Static type definitions used by semantic analysis.

use vstd::prelude::*;

verus! {

/// Static types supported by the Peps semantic checker.
#[derive(Debug, PartialEq, Eq)]
pub enum Type {
    /// A value whose concrete type is only known when a function runs.
    Unknown,
    /// Arbitrary-precision integer values.
    Num,
    /// Floating-point values.
    Float,
    /// Text values.
    Str,
    /// Boolean values.
    Bool,
    /// Emoji literal values.
    Emoji,
    /// Homogeneous list values.
    List(Box<Type>),
    /// Ordered text-keyed map with homogeneous values.
    TextMap(Box<Type>),
}

impl Type {
    /// A copy of this type.
    pub fn duplicate(&self) -> (r: Type)
        ensures
            r == *self,
        decreases self,
    {
        match self {
            Type::Unknown => Type::Unknown,
            Type::Num => Type::Num,
            Type::Float => Type::Float,
            Type::Str => Type::Str,
            Type::Bool => Type::Bool,
            Type::Emoji => Type::Emoji,
            Type::List(inner) => Type::List(Box::new((**inner).duplicate())),
            Type::TextMap(inner) => Type::TextMap(Box::new((**inner).duplicate())),
        }
    }

    /// Whether two types are the same type.
    pub fn same(&self, other: &Type) -> (r: bool)
        ensures
            r == (*self == *other),
        decreases self,
    {
        match (self, other) {
            (Type::Unknown, Type::Unknown) => true,
            (Type::Num, Type::Num) => true,
            (Type::Float, Type::Float) => true,
            (Type::Str, Type::Str) => true,
            (Type::Bool, Type::Bool) => true,
            (Type::Emoji, Type::Emoji) => true,
            (Type::List(a), Type::List(b)) => (**a).same(&**b),
            (Type::TextMap(a), Type::TextMap(b)) => (**a).same(&**b),
            _ => false,
        }
    }
}

} // verus!
