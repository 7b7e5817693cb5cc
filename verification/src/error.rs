//! What can go wrong when a device is put together.

use vstd::prelude::*;

verus! {

/// Why something was refused.
#[derive(Debug, Clone, Copy, PartialEq, Eq, Structural)]
pub enum ErrorCode {
    /// There is no room left.
    NoSpace,
    /// A value lies outside what it may be.
    InvalidArgument,
    /// Not in this state.
    InvalidState,
}

} // verus!
