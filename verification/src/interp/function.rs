//! Callable values.

use vstd::prelude::*;
use lasso::Spur;

verus! {

/// A function declared in a script, known by its interned name.
#[derive(Debug, PartialEq, PartialOrd)]
pub struct Function {
    pub name: Spur,
}

/// A function that the host provides, known by its interned name.
#[derive(Debug, PartialEq, PartialOrd)]
pub struct NativeFunction {
    pub name: Spur,
}

} // verus!
