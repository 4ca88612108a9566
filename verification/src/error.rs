use vstd::prelude::*;

verus! {

/// Why a request was turned down before any window was looked at.
#[derive(Clone, Copy, Debug, PartialEq, Eq, Structural)]
pub enum FilterError {
    /// The window size is zero, so the samples cannot be cut into windows.
    InvalidInput,
    /// The number of scores differs from the number of windows.
    ScoreCountMismatch,
}

} // verus!
