//! Numbers. A number is an IEEE 754 double, carried as its 64 bits. The
//! library never computes on doubles: where an operator needs a sum, a
//! quotient or a comparison, it states the work as a `Question`, and the
//! host's `Answer` becomes the operator's value.

use vstd::prelude::*;

verus! {

/// Arithmetic on two doubles that gives a double.
#[derive(Debug, Clone, Copy, PartialEq, Eq, Structural)]
pub enum Arithmetic {
    Add,
    Subtract,
    Multiply,
    Divide,
}

/// A comparison of two doubles.
#[derive(Debug, Clone, Copy, PartialEq, Eq, Structural)]
pub enum Comparison {
    Equal,
    NotEqual,
    Greater,
    GreaterEqual,
    Less,
    LessEqual,
}

/// Work on doubles, each given by its bits, that the host carries out.
#[derive(Debug, Clone, Copy, PartialEq, Eq, Structural)]
pub enum Question {
    /// The negation of a double.
    Negate(u64),
    /// Left operand, then right operand.
    Arithmetic(Arithmetic, u64, u64),
    /// Left operand, then right operand.
    Comparison(Comparison, u64, u64),
}

/// The host's answer to a `Question`.
#[derive(Debug, Clone, Copy, PartialEq, Eq, Structural)]
pub enum Answer {
    /// The bits of the double that negation or arithmetic gave.
    Number(u64),
    /// Whether the comparison holds.
    Truth(bool),
}

} // verus!
