//! Error kinds reported by the command-stream core.

use vstd::prelude::*;

verus! {

/// A structural error: a `[` without a matching `]`, or the reverse.
/// It is fatal to both interpretation and translation.
#[derive(Clone, Copy, Debug, PartialEq, Eq, Structural)]
pub enum Error {
    UnbalancedBrackets,
}

} // verus!
