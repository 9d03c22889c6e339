//! The policy that ties the slot, the cipher and the exchanges together:
//! when a session is valid, when it has expired, and when it is dropped.
use vstd::prelude::*;
use crate::auth::{AuthReply, directus_login, login_outcome, refresh_outcome, refresh_token};
use crate::cipher::{Cipher, NONCE_LEN, PLAIN_MAX, token_of};
use crate::cookies::{
    CookieSlot,
    SessionView,
    access_of,
    check_server_cookie,
    clear_jabra_cookie,
    get_bearer_token,
    logout_expired_token,
    read_jabra_cookie,
    record_bytes,
    set_jabra_cookie,
    slot_sealed,
    stored_record,
    valid_at,
};
use crate::{CheckCookie, HasError, Refetcher, SignalView};

verus! {

/// Where a session stands.
#[derive(Debug, Clone, Copy, PartialEq, Eq, Structural)]
pub enum SessionState {
    Anonymous,
    Authenticated,
    Expired,
}

/// The state that a check at `now` finds for a slot holding `v`.
pub open spec fn state_for(v: SessionView, now: i64) -> SessionState {
    if now > v.expires_in {
        SessionState::Expired
    } else {
        SessionState::Authenticated
    }
}

/// The signal after a step from state `a` to state `b`: it fires exactly
/// when the state changes.
pub open spec fn signal_after(s: SignalView, a: SessionState, b: SessionState) -> SignalView {
    if a != b {
        s.fired()
    } else {
        s
    }
}

/// The one owner of a session slot.
pub struct SessionController {
    pub state: SessionState,
    pub slot: CookieSlot,
    pub cipher: Cipher,
    pub refetcher: Refetcher,
    pub has_error: HasError,
    /// Whether a login or refresh exchange has started and not yet ended.
    pub in_flight: bool,
}

impl SessionController {
    pub open spec fn wf(&self) -> bool {
        self.cipher.wf()
    }

    /// A controller over an empty slot named `name`.
    pub fn new(name: String, cipher: Cipher) -> (r: Self)
        requires
            cipher.wf(),
        ensures
            r.wf(),
            r.state == SessionState::Anonymous,
            r.slot.name@ == name@,
            r.slot.value@.len() == 0,
            r.cipher.key@ == cipher.key@,
            r.refetcher@ == (SignalView { flag: false, fired: 0 }),
            !r.has_error.0,
            !r.in_flight,
    {
        SessionController {
            state: SessionState::Anonymous,
            slot: CookieSlot::new(name),
            cipher,
            refetcher: Refetcher::new(),
            has_error: HasError(false),
            in_flight: false,
        }
    }

    /// Takes the answer to a login of `userid` at `now`. On a granted answer
    /// the new record is sealed with `nonce` into the slot, the session is
    /// authenticated and observers are told; on any other answer only the
    /// error flag is raised. Returns whether the login succeeded.
    pub fn login(&mut self, userid: String, reply: AuthReply, now: i64, nonce: &Vec<u8>) -> (r:
        bool)
        requires
            old(self).wf(),
            nonce@.len() == NONCE_LEN,
        ensures
            final(self).wf(),
            final(self).cipher == old(self).cipher,
            final(self).slot.name@ == old(self).slot.name@,
            r == (login_outcome(userid@, reply, now) matches Some(v) && record_bytes(v).len()
                <= PLAIN_MAX),
            r ==> (login_outcome(userid@, reply, now) matches Some(v) && final(self).slot.value@
                == token_of(old(self).cipher.key@, nonce@, record_bytes(v))),
            r ==> final(self).state == SessionState::Authenticated,
            r ==> final(self).refetcher@ == old(self).refetcher@.fired(),
            r == !final(self).has_error.0,
            !final(self).in_flight,
            !r ==> final(self).state == old(self).state,
            !r ==> final(self).slot.value@ == old(self).slot.value@,
            !r ==> final(self).refetcher@ == old(self).refetcher@,
    {
        self.in_flight = false;
        match directus_login(userid, reply, now) {
            Ok(cookie) => {
                if set_jabra_cookie(&mut self.slot, &cookie, &self.cipher, nonce) {
                    self.state = SessionState::Authenticated;
                    self.has_error = HasError(false);
                    self.refetcher.fire();
                    true
                } else {
                    self.has_error = HasError(true);
                    false
                }
            },
            Err(_) => {
                self.has_error = HasError(true);
                false
            },
        }
    }

    /// Takes the answer to a refresh for `owner` at `now`. On a granted
    /// answer the new record is sealed with `nonce` into the slot and the
    /// session is authenticated; on any other answer the slot is emptied and
    /// the session is anonymous. Either way observers are told exactly once.
    pub fn refresh(&mut self, owner: String, reply: AuthReply, now: i64, nonce: &Vec<u8>) -> (r:
        bool)
        requires
            old(self).wf(),
            nonce@.len() == NONCE_LEN,
        ensures
            final(self).wf(),
            final(self).cipher == old(self).cipher,
            final(self).slot.name@ == old(self).slot.name@,
            final(self).has_error == old(self).has_error,
            final(self).refetcher@ == old(self).refetcher@.fired(),
            !final(self).in_flight,
            r == (refresh_outcome(owner@, reply, now) matches Ok(v) && record_bytes(v).len()
                <= PLAIN_MAX),
            r ==> (refresh_outcome(owner@, reply, now) matches Ok(v) && final(self).slot.value@
                == token_of(old(self).cipher.key@, nonce@, record_bytes(v))),
            r ==> final(self).state == SessionState::Authenticated,
            !r ==> final(self).state == SessionState::Anonymous,
            !r ==> final(self).slot.value@.len() == 0,
    {
        self.in_flight = false;
        match refresh_token(owner, reply, now) {
            Ok(cookie) => {
                if set_jabra_cookie(&mut self.slot, &cookie, &self.cipher, nonce) {
                    self.state = SessionState::Authenticated;
                    self.refetcher.fire();
                    return true;
                }
            },
            Err(_) => {},
        }
        self.logout();
        false
    }

    /// Ends the session: the slot is emptied, the session is anonymous, and
    /// observers are told.
    pub fn logout(&mut self)
        ensures
            final(self).cipher == old(self).cipher,
            final(self).has_error == old(self).has_error,
            final(self).slot.name@ == old(self).slot.name@,
            final(self).slot.value@.len() == 0,
            final(self).state == SessionState::Anonymous,
            final(self).refetcher@ == old(self).refetcher@.fired(),
            final(self).in_flight == old(self).in_flight,
    {
        logout_expired_token(&mut self.slot, &mut self.refetcher);
        self.state = SessionState::Anonymous;
    }

    /// Checks the session at `now` and returns whether it is valid. A slot
    /// that holds a record gives `Authenticated` or `Expired`; an empty one
    /// gives `Anonymous`, and one that holds no session (its text is refused
    /// by the cipher, opens to no record, or its record lacks a token) is
    /// emptied and gives `Anonymous` too. Observers are told exactly when the state
    /// changes.
    pub fn check(&mut self, now: i64) -> (r: bool)
        requires
            old(self).wf(),
        ensures
            final(self).wf(),
            final(self).cipher == old(self).cipher,
            final(self).has_error == old(self).has_error,
            final(self).in_flight == old(self).in_flight,
            final(self).slot.name@ == old(self).slot.name@,
            final(self).refetcher@ == signal_after(
                old(self).refetcher@,
                old(self).state,
                final(self).state,
            ),
            r == (final(self).state == SessionState::Authenticated),
            match stored_record(old(self).cipher.key@, old(self).slot.value@) {
                Some(v) => final(self).state == state_for(v, now) && final(self).slot.value@ == old(
                    self,
                ).slot.value@,
                None => final(self).state == SessionState::Anonymous && final(self).slot.value@.len()
                    == 0,
            },
            forall|nonce: Seq<u8>, v: SessionView|
                #[trigger] slot_sealed(old(self).slot.value@, old(self).cipher.key@, nonce, v)
                    ==> final(self).state == state_for(v, now) && final(self).slot.value@ == old(
                    self,
                ).slot.value@,
    {
        let before = self.state;
        let next = match read_jabra_cookie(&self.slot, &self.cipher) {
            Some(c) => {
                if c.is_expired(now) {
                    SessionState::Expired
                } else {
                    SessionState::Authenticated
                }
            },
            None => {
                clear_jabra_cookie(&mut self.slot);
                SessionState::Anonymous
            },
        };
        self.state = next;
        if before != next {
            self.refetcher.fire();
        }
        next == SessionState::Authenticated
    }

    /// Marks the start of a login or refresh exchange. Returns `false`, and
    /// changes nothing, when one is already under way: the caller then waits
    /// for that one instead of starting a second.
    pub fn begin_exchange(&mut self) -> (r: bool)
        ensures
            r == !old(self).in_flight,
            final(self).in_flight,
            final(self).state == old(self).state,
            final(self).slot == old(self).slot,
            final(self).cipher == old(self).cipher,
            final(self).refetcher == old(self).refetcher,
            final(self).has_error == old(self).has_error,
    {
        if self.in_flight {
            false
        } else {
            self.in_flight = true;
            true
        }
    }

    /// What observers are shown: not yet known while an exchange is under
    /// way, and otherwise whether the session is authenticated.
    pub fn validity(&self) -> (r: CheckCookie)
        ensures
            r.0 == (if self.in_flight {
                None
            } else {
                Some(self.state == SessionState::Authenticated)
            }),
    {
        if self.in_flight {
            CheckCookie(None)
        } else {
            CheckCookie(Some(self.state == SessionState::Authenticated))
        }
    }

    /// Whether the slot holds a record that has not expired at `now`; the
    /// state is left as it is.
    pub fn is_valid_at(&self, now: i64) -> (r: bool)
        requires
            self.wf(),
        ensures
            r == valid_at(self.cipher.key@, self.slot.value@, now),
            forall|nonce: Seq<u8>, v: SessionView|
                #[trigger] slot_sealed(self.slot.value@, self.cipher.key@, nonce, v) ==> r == !(now
                    > v.expires_in),
    {
        check_server_cookie(&self.slot, &self.cipher, now)
    }

    /// The header value that authorizes calls with the session's access
    /// token.
    pub fn bearer(&self) -> (r: String)
        requires
            self.wf(),
        ensures
            r@ == "Bearer "@ + access_of(self.cipher.key@, self.slot.value@),
            forall|nonce: Seq<u8>, v: SessionView|
                #[trigger] slot_sealed(self.slot.value@, self.cipher.key@, nonce, v) ==> r@
                    == "Bearer "@ + v.access_token,
    {
        get_bearer_token(&self.slot, &self.cipher)
    }
}

} // verus!
