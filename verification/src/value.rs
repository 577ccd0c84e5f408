use vstd::prelude::*;

verus! {

/// A runtime value of the scripting language.
///
/// The language is dynamically typed: every stack slot and every constant
/// carries one of these tagged variants. A `Number` holds the 64-bit pattern
/// of an IEEE-754 double-precision value; all arithmetic on numbers is
/// defined over these bit patterns (see `crate::numeric`). The tag space
/// deliberately leaves room for further variants (heap objects) that the
/// arithmetic core does not yet use.
#[derive(Clone, Copy, PartialEq, Eq, Structural, Debug)]
pub enum Value {
    /// A number, carried as the bit pattern of an IEEE-754 double.
    Number(u64),
    /// A boolean.
    Bool(bool),
    /// The nil value.
    Nil,
}

impl Value {
    /// True exactly of `Number` values.
    pub open spec fn is_number(self) -> bool {
        matches!(self, Value::Number(_))
    }

    /// The bit pattern of a `Number` value.
    pub open spec fn as_bits(self) -> u64
        recommends
            self.is_number(),
    {
        match self {
            Value::Number(b) => b,
            _ => 0,
        }
    }
}

} // verus!
