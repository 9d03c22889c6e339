//! What the login and refresh exchanges with the identity endpoint make of
//! the answers they get.
use vstd::prelude::*;
use vstd::string::*;
use crate::cookies::{JabraCookie, SessionView};
use crate::error::JabraError;

verus! {

/// Taken off the lifetime that a login grants, in milliseconds: requests
/// that the interface starts on its own still need a valid token while the
/// user works through a form.
pub const LOGIN_MARGIN_MS: i64 = 600_000;

/// Taken off the lifetime that a refresh grants, in milliseconds. Refreshes
/// happen close to expiry, so the buffer is smaller.
pub const REFRESH_MARGIN_MS: i64 = 60_000;

/// The tokens that the identity endpoint hands out, and their lifetime in
/// milliseconds.
#[derive(Debug, Clone)]
pub struct TokenGrant {
    pub access_token: String,
    pub refresh_token: String,
    pub expires: i64,
}

/// How an exchange with the identity endpoint ended.
#[derive(Debug, Clone)]
pub enum AuthReply {
    /// A success status with a readable body.
    Granted(TokenGrant),
    /// A non-success status.
    Rejected(u16),
    /// A success status whose body could not be read as a grant.
    Unreadable,
    /// No answer: the request could not be sent or did not complete.
    Unreachable,
}

/// The instant `now + lifetime - margin`.
pub open spec fn expiry(now: i64, lifetime: i64, margin: i64) -> int {
    now + lifetime - margin
}

/// The record that a grant makes for `owner` at `now`, or `None` when a
/// token is empty or the expiry does not fit in an `i64`.
pub open spec fn granted_session(owner: Seq<char>, g: TokenGrant, now: i64, margin: i64) -> Option<
    SessionView,
> {
    let e = expiry(now, g.expires, margin);
    if g.access_token@.len() > 0 && g.refresh_token@.len() > 0 && i64::MIN <= e && e <= i64::MAX {
        Some(
            SessionView {
                user_id: owner,
                access_token: g.access_token@,
                refresh_token: g.refresh_token@,
                expires_in: e as i64,
            },
        )
    } else {
        None
    }
}

/// The record that a login answer makes, if any.
pub open spec fn login_outcome(owner: Seq<char>, reply: AuthReply, now: i64) -> Option<SessionView> {
    match reply {
        AuthReply::Granted(g) => granted_session(owner, g, now, LOGIN_MARGIN_MS),
        _ => None,
    }
}

/// The record that a refresh answer makes, or the error it is reported as.
pub open spec fn refresh_outcome(owner: Seq<char>, reply: AuthReply, now: i64) -> Result<
    SessionView,
    JabraError,
> {
    match reply {
        AuthReply::Granted(g) => match granted_session(owner, g, now, REFRESH_MARGIN_MS) {
            Some(v) => Ok(v),
            None => Err(JabraError::TransportError),
        },
        AuthReply::Rejected(status) => Err(JabraError::APIResponseError(status)),
        _ => Err(JabraError::TransportError),
    }
}

/// Builds the record for a grant, expiring `margin` before the lifetime ends.
fn session_from_grant(owner: String, grant: TokenGrant, now: i64, margin: i64) -> (r: Option<
    JabraCookie,
>)
    requires
        0 <= margin <= REFRESH_MARGIN_MS * 10,
    ensures
        match r {
            Some(c) => granted_session(owner@, grant, now, margin) == Some(c@),
            None => granted_session(owner@, grant, now, margin) is None,
        },
{
    if grant.access_token.as_str().unicode_len() == 0 || grant.refresh_token.as_str().unicode_len()
        == 0 {
        return None;
    }
    let e = now as i128 + grant.expires as i128 - margin as i128;
    if e < i64::MIN as i128 || e > i64::MAX as i128 {
        return None;
    }
    Some(JabraCookie::new(owner, grant.access_token, grant.refresh_token, e as i64))
}

/// What a login answer means for `userid` at `now`: a granted answer with
/// two tokens makes a record that expires `LOGIN_MARGIN_MS` before the
/// granted lifetime ends; every other answer is one and the same
/// `LoginError`.
pub fn directus_login(userid: String, reply: AuthReply, now: i64) -> (r: Result<
    JabraCookie,
    JabraError,
>)
    ensures
        match r {
            Ok(c) => login_outcome(userid@, reply, now) == Some(c@),
            Err(e) => login_outcome(userid@, reply, now) is None && e == JabraError::LoginError,
        },
{
    match reply {
        AuthReply::Granted(g) => match session_from_grant(userid, g, now, LOGIN_MARGIN_MS) {
            Some(c) => Ok(c),
            None => Err(JabraError::LoginError),
        },
        _ => Err(JabraError::LoginError),
    }
}

/// What a refresh answer means for `owner` at `now`: a granted answer with
/// two tokens makes a record that expires `REFRESH_MARGIN_MS` before the
/// granted lifetime ends; a non-success status is reported with that status;
/// anything else is a `TransportError`.
pub fn refresh_token(owner: String, reply: AuthReply, now: i64) -> (r: Result<
    JabraCookie,
    JabraError,
>)
    ensures
        match (r, refresh_outcome(owner@, reply, now)) {
            (Ok(c), Ok(v)) => c@ == v,
            (Err(e), Err(f)) => e == f,
            _ => false,
        },
{
    match reply {
        AuthReply::Granted(g) => match session_from_grant(owner, g, now, REFRESH_MARGIN_MS) {
            Some(c) => Ok(c),
            None => Err(JabraError::TransportError),
        },
        AuthReply::Rejected(status) => Err(JabraError::APIResponseError(status)),
        _ => Err(JabraError::TransportError),
    }
}

/// The login margin: a record made at login instant `T` from a lifetime of
/// `L` milliseconds expires at `T + L - 600000`, whenever that fits in an
/// `i64`.
pub proof fn lemma_login_margin(owner: Seq<char>, g: TokenGrant, t: i64)
    requires
        g.access_token@.len() > 0,
        g.refresh_token@.len() > 0,
        i64::MIN <= t + g.expires - 600000 <= i64::MAX,
    ensures
        login_outcome(owner, AuthReply::Granted(g), t) matches Some(v) && v.expires_in == t
            + g.expires - 600000,
{
}

/// The refresh margin: a refreshed record expires `L - 60000` milliseconds
/// after the refresh instant `T`, whenever that instant fits in an `i64`.
pub proof fn lemma_refresh_margin(owner: Seq<char>, g: TokenGrant, t: i64)
    requires
        g.access_token@.len() > 0,
        g.refresh_token@.len() > 0,
        i64::MIN <= t + g.expires - 60000 <= i64::MAX,
    ensures
        refresh_outcome(owner, AuthReply::Granted(g), t) matches Ok(v) && v.expires_in == t
            + g.expires - 60000,
{
}

} // verus!
