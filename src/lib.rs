//! Session-credential management: a sealed session record kept in a named
//! client-side slot, its expiry, the login and refresh exchanges that create
//! it, and the policy that decides when a session is valid.
use vstd::prelude::*;

pub mod auth;
pub mod cipher;
pub mod codec;
pub mod controller;
pub mod cookies;
pub mod error;

verus! {

/// The change signal that observers of the session watch: it flips each time
/// the session is published anew, and counts how often that happened.
pub struct Refetcher {
    pub flag: bool,
    pub fired: u64,
}

/// A change signal as values.
pub ghost struct SignalView {
    pub flag: bool,
    pub fired: nat,
}

impl SignalView {
    /// The signal after it fires once more.
    pub open spec fn fired(self) -> SignalView {
        SignalView { flag: !self.flag, fired: (self.fired + 1) % 0x1_0000_0000_0000_0000 }
    }
}

impl View for Refetcher {
    type V = SignalView;

    open spec fn view(&self) -> SignalView {
        SignalView { flag: self.flag, fired: self.fired as nat }
    }
}

impl Refetcher {
    pub fn new() -> (r: Self)
        ensures
            r@ == (SignalView { flag: false, fired: 0 }),
    {
        Refetcher { flag: false, fired: 0 }
    }

    /// Tells every observer that the session changed.
    pub fn fire(&mut self)
        ensures
            final(self)@ == old(self)@.fired(),
    {
        self.flag = !self.flag;
        self.fired = if self.fired == u64::MAX {
            0
        } else {
            self.fired + 1
        };
    }
}

/// Whether the last login attempt failed, for the interface to report.
pub struct HasError(pub bool);

/// The result of the latest validity check: `None` while it is not yet
/// known, then whether the session is valid.
pub struct CheckCookie(pub Option<bool>);

} // verus!
