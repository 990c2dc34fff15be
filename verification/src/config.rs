//! Configuration values that the components refuse.

use vstd::prelude::*;

verus! {

/// Why a component could not be built from the values it was given.
#[derive(Clone, Copy, Debug, PartialEq, Eq, Structural)]
pub enum ConfigError {
    /// The bucket width was zero or negative.
    InvalidBucketWidth,
    /// The alert window was zero or negative.
    InvalidAlertWindow,
    /// The alert threshold was zero.
    InvalidAlertThreshold,
}

} // verus!
