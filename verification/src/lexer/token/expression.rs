//! Operator tags recognized by the expression sub-tokenizer.

use vstd::prelude::*;

verus! {

/// The operator fragments that the expression sub-tokenizer maps 1:1 to a
/// tag; every other fragment becomes an opaque value atom.
#[derive(Clone, Copy, Debug, PartialEq, Eq, Structural)]
pub enum Operator {
    BitShiftRight,
    BitShiftLeft,
    And,
    Or,
    BitAnd,
    BitOr,
    Plus,
    Minus,
    Mul,
    Div,
    Equals,
    Pipe,
}

} // verus!
