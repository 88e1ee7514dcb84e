//! The two configuration axes of a handle manager, and the ways a request can fail.

use vstd::prelude::*;

verus! {

/// How a handle value is chosen when one is requested.
#[derive(Debug, Clone, Copy, PartialEq, Eq, Structural)]
pub enum AllocPolicy {
    /// Released handles are never handed out again, whether or not they are remembered.
    NeverRecycle,
    /// The smallest released handle is handed out again before any new value is minted.
    RecycleLowest,
}

/// Whether released handles are remembered.
#[derive(Debug, Clone, Copy, PartialEq, Eq, Structural)]
pub enum ReleasePolicy {
    /// Released handles are forgotten at once: nothing can be reused, and a released
    /// handle cannot be told apart from a live one.
    DontTrack,
    /// Released handles are kept in a free set.
    Track,
}

/// Why a request was refused. A refused request leaves the manager as it was.
#[derive(Debug, Clone, Copy, PartialEq, Eq, Structural)]
pub enum HandleError {
    /// A policy change was attempted after the first handle had been dispensed.
    ConfigurationLocked,
    /// The counter has reached the largest representable value: no new handle can be minted.
    OutOfHandles,
    /// The released handle is not live: it was never dispensed, or it is already free.
    InvalidRelease,
}

} // verus!
