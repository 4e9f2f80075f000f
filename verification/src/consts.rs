//! The built-in strategies as constants, for where a reference to a
//! strategy is wanted that lives as long as the program.

use crate::Display;
use vstd::prelude::*;

verus! {

/// The display strategy.
pub const DISPLAY: Display = Display;

/// The debug strategy.
pub const DEBUG: crate::Debug = crate::Debug;

} // verus!
