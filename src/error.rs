//! The failures that the session subsystem reports.
use vstd::prelude::*;

verus! {

/// A failure of the session subsystem.
#[derive(Debug, Clone, Copy, PartialEq, Eq, Structural)]
pub enum JabraError {
    /// A stored session could not be read back: it is absent, malformed,
    /// tampered with, or sealed under another key.
    CookieFetchError,
    /// A login exchange failed, for whatever reason.
    LoginError,
    /// The identity endpoint answered a refresh with this non-success status.
    APIResponseError(u16),
    /// The exchange did not complete, or its answer could not be read.
    TransportError,
}

} // verus!
