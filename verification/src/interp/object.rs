//! Instances of user-defined types.

use vstd::prelude::*;

verus! {

/// An instance. It has no behaviour yet: no statement makes one.
#[derive(Debug, PartialEq, PartialOrd)]
pub struct Object {}

} // verus!
