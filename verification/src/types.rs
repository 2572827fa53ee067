//! Positions in a template and the arguments that filters take.
use vstd::prelude::*;
use crate::integer::Integer;

verus! {

/// A span of a template: its start and its length, in bytes.
pub type At = (usize, usize);

/// What a filter argument is, as written in the template.
#[derive(Debug, PartialEq)]
pub enum ArgumentType {
    /// A quoted string; the span is that of its text between the quotes.
    Text(At),
    /// A string marked for localization, `_("...")`; the span is that of
    /// its text.
    Localized(At),
    /// A variable looked up in the context; the span is that of its name.
    Variable(At),
    /// An integer literal.
    Int(Integer),
    /// A floating-point literal; the span is that of its text.
    Float(At),
}

/// A filter argument and where it stands in the template.
#[derive(Debug, PartialEq)]
pub struct Argument {
    pub at: At,
    pub argument_type: ArgumentType,
}

impl ArgumentType {
    /// The same kind of argument at the same place, or integers of the same
    /// value.
    pub open spec fn same_as(&self, other: &ArgumentType) -> bool {
        match (*self, *other) {
            (ArgumentType::Int(a), ArgumentType::Int(b)) => a.value() == b.value(),
            _ => *self == *other,
        }
    }
}

impl Argument {
    pub open spec fn same_as(&self, other: &Argument) -> bool {
        self.at == other.at && self.argument_type.same_as(&other.argument_type)
    }
}

/// Both missing, or both present and the same.
pub open spec fn same_optional_argument(a: Option<Argument>, b: Option<Argument>) -> bool {
    match (a, b) {
        (Some(x), Some(y)) => x.same_as(&y),
        (None, None) => true,
        _ => false,
    }
}

impl Clone for ArgumentType {
    fn clone(&self) -> (r: Self)
        ensures
            r.same_as(self),
    {
        match self {
            ArgumentType::Text(at) => ArgumentType::Text(*at),
            ArgumentType::Localized(at) => ArgumentType::Localized(*at),
            ArgumentType::Variable(at) => ArgumentType::Variable(*at),
            ArgumentType::Int(n) => ArgumentType::Int(n.clone()),
            ArgumentType::Float(at) => ArgumentType::Float(*at),
        }
    }
}

impl Clone for Argument {
    fn clone(&self) -> (r: Self)
        ensures
            r.same_as(self),
    {
        Argument { at: self.at, argument_type: self.argument_type.clone() }
    }
}

} // verus!
