//! The session record, its byte encoding, and the named slot that holds it
//! sealed.
use vstd::prelude::*;
use vstd::string::*;
use vstd::utf8::*;
use crate::cipher::{Cipher, NONCE_LEN, PLAIN_MAX, open_token, opens_to, token_of};
use crate::codec::{be_bytes, be_value, lemma_be_round_trip, lemma_pow256_8, push_be, read_be};
use crate::error::JabraError;

verus! {

broadcast use encode_utf8_decode_utf8, encode_utf8_valid_utf8;

/// Version byte that leads every encoded record.
pub const RECORD_VERSION: u8 = 1;

/// Added to an expiry instant so that it is stored as an unsigned number.
pub const EXPIRY_BIAS: u64 = 0x8000_0000_0000_0000;

/// The credentials of a signed-in user.
#[derive(Debug, Clone, PartialEq, Default)]
pub struct JabraCookie {
    pub user_id: String,
    pub access_token: String,
    pub refresh_token: String,
    /// Instant, in milliseconds since the epoch, after which the access
    /// token must not be used.
    pub expires_in: i64,
}

/// A session record as values.
pub ghost struct SessionView {
    pub user_id: Seq<char>,
    pub access_token: Seq<char>,
    pub refresh_token: Seq<char>,
    pub expires_in: i64,
}

impl View for JabraCookie {
    type V = SessionView;

    open spec fn view(&self) -> SessionView {
        SessionView {
            user_id: self.user_id@,
            access_token: self.access_token@,
            refresh_token: self.refresh_token@,
            expires_in: self.expires_in,
        }
    }
}

/// A field: its UTF-8 length in eight bytes, then its UTF-8 bytes.
pub open spec fn field_bytes(s: Seq<char>) -> Seq<u8> {
    be_bytes(encode_utf8(s).len(), 8) + encode_utf8(s)
}

/// An expiry instant as the unsigned number it is stored as.
pub open spec fn biased(e: i64) -> nat {
    (e + EXPIRY_BIAS) as nat
}

/// The expiry instant that a stored number stands for.
pub open spec fn unbiased(v: nat) -> i64 {
    (v - EXPIRY_BIAS) as i64
}

/// The encoding of a record: the version byte, the three text fields, and
/// the expiry instant in eight bytes.
pub open spec fn record_bytes(v: SessionView) -> Seq<u8> {
    seq![RECORD_VERSION] + field_bytes(v.user_id) + field_bytes(v.access_token) + field_bytes(
        v.refresh_token,
    ) + be_bytes(biased(v.expires_in), 8)
}

/// Each text field of `v` is short enough for its length to take eight bytes.
pub open spec fn fits(v: SessionView) -> bool {
    &&& encode_utf8(v.user_id).len() < 0x1_0000_0000_0000_0000
    &&& encode_utf8(v.access_token).len() < 0x1_0000_0000_0000_0000
    &&& encode_utf8(v.refresh_token).len() < 0x1_0000_0000_0000_0000
}

/// `v` can be sealed: its encoding is not too long for the cipher.
pub open spec fn sealable(v: SessionView) -> bool {
    record_bytes(v).len() <= PLAIN_MAX
}

/// A record that can be sealed has fields that fit the encoding.
pub proof fn lemma_sealable_fits(v: SessionView)
    requires
        sealable(v),
    ensures
        fits(v),
{
    crate::codec::lemma_be_bytes_len(encode_utf8(v.user_id).len(), 8);
    crate::codec::lemma_be_bytes_len(encode_utf8(v.access_token).len(), 8);
    crate::codec::lemma_be_bytes_len(encode_utf8(v.refresh_token).len(), 8);
    crate::codec::lemma_be_bytes_len(biased(v.expires_in), 8);
}

/// The text field that starts at `pos`, and the position after it.
pub open spec fn take_field(b: Seq<u8>, pos: int) -> Option<(Seq<char>, int)> {
    if pos < 0 || pos + 8 > b.len() {
        None
    } else {
        let n = be_value(b.subrange(pos, pos + 8));
        if pos + 8 + n > b.len() {
            None
        } else {
            let raw = b.subrange(pos + 8, pos + 8 + n);
            if valid_utf8(raw) {
                Some((decode_utf8(raw), pos + 8 + n))
            } else {
                None
            }
        }
    }
}

/// The record that `b` encodes, if it is a well-formed encoding.
pub open spec fn parse_record(b: Seq<u8>) -> Option<SessionView> {
    if b.len() < 1 || b[0] != RECORD_VERSION {
        None
    } else {
        match take_field(b, 1) {
            Some((u, p1)) => match take_field(b, p1) {
                Some((a, p2)) => match take_field(b, p2) {
                    Some((r, p3)) => if p3 + 8 == b.len() {
                        Some(
                            SessionView {
                                user_id: u,
                                access_token: a,
                                refresh_token: r,
                                expires_in: unbiased(be_value(b.subrange(p3, p3 + 8))),
                            },
                        )
                    } else {
                        None
                    },
                    None => None,
                },
                None => None,
            },
            None => None,
        }
    }
}

/// A field followed by anything reads back at its own position.
proof fn lemma_take_field(pre: Seq<u8>, s: Seq<char>, rest: Seq<u8>)
    requires
        encode_utf8(s).len() < 0x1_0000_0000_0000_0000,
    ensures
        take_field(pre + field_bytes(s) + rest, pre.len() as int) == Some(
            (s, (pre.len() + field_bytes(s).len()) as int),
        ),
        field_bytes(s).len() == 8 + encode_utf8(s).len(),
{
    let e = encode_utf8(s);
    lemma_pow256_8();
    lemma_be_round_trip(e.len(), 8);
    let b = pre + field_bytes(s) + rest;
    let p = pre.len() as int;
    assert(b.subrange(p, p + 8) =~= be_bytes(e.len(), 8));
    assert(b.subrange(p + 8, p + 8 + e.len()) =~= e);
}

/// A record's encoding reads back as the record.
pub proof fn lemma_record_round_trip(v: SessionView)
    requires
        fits(v),
    ensures
        parse_record(record_bytes(v)) == Some(v),
{
    let f1 = field_bytes(v.user_id);
    let f2 = field_bytes(v.access_token);
    let f3 = field_bytes(v.refresh_token);
    let tail = be_bytes(biased(v.expires_in), 8);
    let h = seq![RECORD_VERSION];
    let b = record_bytes(v);
    lemma_take_field(h, v.user_id, f2 + f3 + tail);
    assert(b =~= h + f1 + (f2 + f3 + tail));
    lemma_take_field(h + f1, v.access_token, f3 + tail);
    assert(b =~= (h + f1) + f2 + (f3 + tail));
    lemma_take_field(h + f1 + f2, v.refresh_token, tail);
    assert(b =~= (h + f1 + f2) + f3 + tail);
    lemma_pow256_8();
    lemma_be_round_trip(biased(v.expires_in), 8);
    let p3 = (h + f1 + f2 + f3).len() as int;
    assert(b.subrange(p3, p3 + 8) =~= tail);
}

/// Relies on `String::from_utf8`: it succeeds exactly on valid UTF-8 and then
/// holds the characters that the bytes encode.
#[verifier::external_body]
fn string_from_utf8(b: Vec<u8>) -> (r: Option<String>)
    ensures
        match r {
            Some(s) => valid_utf8(b@) && s@ == decode_utf8(b@),
            None => !valid_utf8(b@),
        },
{
    String::from_utf8(b).ok()
}

/// Appends the encoding of one text field.
fn push_field(out: &mut Vec<u8>, s: &String)
    ensures
        final(out)@ == old(out)@ + field_bytes(s@),
{
    let mut bytes = s.as_str().as_bytes_vec();
    push_be(out, bytes.len() as u64, 8);
    proof {
        lemma_pow256_8();
    }
    out.append(&mut bytes);
    assert(final(out)@ =~= old(out)@ + field_bytes(s@));
}

/// Reads the text field at `pos`, with the position after it.
fn read_field(b: &Vec<u8>, pos: usize) -> (r: Option<(String, usize)>)
    ensures
        match r {
            Some((s, p)) => take_field(b@, pos as int) == Some((s@, p as int)),
            None => take_field(b@, pos as int) is None,
        },
{
    if pos > b.len() || b.len() - pos < 8 {
        return None;
    }
    let n = read_be(b, pos, 8);
    if n > (b.len() - pos - 8) as u64 {
        return None;
    }
    let end = pos + 8 + n as usize;
    let raw = crate::cipher::copy_range(b, pos + 8, end);
    match string_from_utf8(raw) {
        Some(s) => Some((s, end)),
        None => None,
    }
}

impl JabraCookie {
    pub fn new(user_id: String, access_token: String, refresh_token: String, expires_in: i64) -> (r:
        Self)
        ensures
            r@ == (SessionView {
                user_id: user_id@,
                access_token: access_token@,
                refresh_token: refresh_token@,
                expires_in,
            }),
    {
        JabraCookie { user_id, access_token, refresh_token, expires_in }
    }

    /// The record's encoding.
    pub fn to_bytes(&self) -> (r: Vec<u8>)
        ensures
            r@ == record_bytes(self@),
    {
        let mut out: Vec<u8> = Vec::new();
        out.push(RECORD_VERSION);
        push_field(&mut out, &self.user_id);
        push_field(&mut out, &self.access_token);
        push_field(&mut out, &self.refresh_token);
        let e = (self.expires_in as i128 + EXPIRY_BIAS as i128) as u64;
        push_be(&mut out, e, 8);
        assert(out@ =~= record_bytes(self@));
        out
    }

    /// Reads a record back from its encoding; anything else is refused.
    pub fn from_bytes(b: &Vec<u8>) -> (r: Result<Self, JabraError>)
        ensures
            match r {
                Ok(c) => parse_record(b@) == Some(c@),
                Err(e) => parse_record(b@) is None && e == JabraError::CookieFetchError,
            },
    {
        if b.len() < 1 || b[0] != RECORD_VERSION {
            return Err(JabraError::CookieFetchError);
        }
        let (user_id, p1) = match read_field(b, 1) {
            Some(x) => x,
            None => {
                return Err(JabraError::CookieFetchError);
            },
        };
        let (access_token, p2) = match read_field(b, p1) {
            Some(x) => x,
            None => {
                return Err(JabraError::CookieFetchError);
            },
        };
        let (refresh_token, p3) = match read_field(b, p2) {
            Some(x) => x,
            None => {
                return Err(JabraError::CookieFetchError);
            },
        };
        if p3 > b.len() || b.len() - p3 != 8 {
            return Err(JabraError::CookieFetchError);
        }
        let e = read_be(b, p3, 8);
        let expires_in = (e as i128 - EXPIRY_BIAS as i128) as i64;
        Ok(JabraCookie { user_id, access_token, refresh_token, expires_in })
    }

    /// Whether the record has expired at `now`: strictly after its expiry
    /// instant.
    pub fn is_expired(&self, now: i64) -> (r: bool)
        ensures
            r == (now > self.expires_in),
    {
        now > self.expires_in
    }
}

/// `r` is a record equal to `v`.
pub open spec fn holds_record(r: Result<JabraCookie, JabraError>, v: SessionView) -> bool {
    r matches Ok(c) && c@ == v
}

/// The record that a token holds under `key`: what it opens to, read as a
/// record.
pub open spec fn decrypted_record(key: Seq<u8>, token: Seq<char>) -> Option<SessionView> {
    match open_token(key, token) {
        Some(p) => parse_record(p),
        None => None,
    }
}

/// Both tokens of `v` are present, as a record that is in use requires.
pub open spec fn has_tokens(v: SessionView) -> bool {
    v.access_token.len() > 0 && v.refresh_token.len() > 0
}

/// The session that a slot holding `value` stands for under `key`: none when
/// the slot is empty, when its text holds no record, or when the record
/// lacks a token.
pub open spec fn stored_record(key: Seq<u8>, value: Seq<char>) -> Option<SessionView> {
    if value.len() == 0 {
        None
    } else {
        match decrypted_record(key, value) {
            Some(v) => if has_tokens(v) {
                Some(v)
            } else {
                None
            },
            None => None,
        }
    }
}

impl JabraCookie {
    /// Seals the record's encoding into a token. Fails only when the encoding
    /// is longer than the cipher accepts.
    pub fn encrypt(&self, cipher: &Cipher, nonce: &Vec<u8>) -> (r: Option<String>)
        requires
            cipher.wf(),
            nonce@.len() == NONCE_LEN,
        ensures
            record_bytes(self@).len() <= PLAIN_MAX <==> r is Some,
            r matches Some(t) ==> t@ == token_of(cipher.key@, nonce@, record_bytes(self@)),
    {
        let plain = self.to_bytes();
        cipher.encrypt(&plain, nonce)
    }

    /// Opens a token and reads the record inside. A token that `encrypt`
    /// wrote under the same key gives back that record. Anything else that
    /// the cipher refuses (not lower-case hexadecimal, so another spelling of the
    /// same bytes too, too short, tampered with, sealed
    /// under another key), and whatever opens to no record, fails with
    /// `CookieFetchError`.
    pub fn decrypt(cipher: &Cipher, encrypted_text: &str) -> (r: Result<Self, JabraError>)
        requires
            cipher.wf(),
        ensures
            match r {
                Ok(c) => decrypted_record(cipher.key@, encrypted_text@) == Some(c@),
                Err(e) => decrypted_record(cipher.key@, encrypted_text@) is None && e
                    == JabraError::CookieFetchError,
            },
            open_token(cipher.key@, encrypted_text@) is None ==> r is Err,
            crate::codec::unhex(encrypted_text@) is None ==> r is Err,
            r is Ok ==> (crate::codec::unhex(encrypted_text@) matches Some(b) && encrypted_text@
                == crate::codec::hex_of(b)),
            crate::codec::unhex(encrypted_text@) matches Some(b) && b.len() < NONCE_LEN ==> r is Err,
            forall|nonce: Seq<u8>, v: SessionView|
                #![trigger token_of(cipher.key@, nonce, record_bytes(v))]
                nonce.len() == NONCE_LEN && sealable(v) && encrypted_text@ == token_of(
                    cipher.key@,
                    nonce,
                    record_bytes(v),
                ) ==> holds_record(r, v),
    {
        match cipher.decrypt(encrypted_text) {
            Some(plain) => {
                let r = Self::from_bytes(&plain);
                assert forall|nonce: Seq<u8>, v: SessionView|
                    nonce.len() == NONCE_LEN && sealable(v) && encrypted_text@ == #[trigger] token_of(
                        cipher.key@,
                        nonce,
                        record_bytes(v),
                    ) implies holds_record(r, v) by {
                    lemma_sealable_fits(v);
                    lemma_record_round_trip(v);
                    assert(opens_to(Some(plain), record_bytes(v)));
                }
                r
            },
            None => Err(JabraError::CookieFetchError),
        }
    }
}

/// A named storage slot that holds one string: empty when there is no
/// session, otherwise a sealed record.
pub struct CookieSlot {
    pub name: String,
    pub value: String,
}

/// The slot holds a token that `JabraCookie::encrypt` wrote under `key` for
/// `v`, a record with both tokens.
pub open spec fn slot_sealed(value: Seq<char>, key: Seq<u8>, nonce: Seq<u8>, v: SessionView) -> bool {
    nonce.len() == NONCE_LEN && sealable(v) && has_tokens(v) && value == token_of(
        key,
        nonce,
        record_bytes(v),
    )
}

impl CookieSlot {
    /// An empty slot under `name`.
    pub fn new(name: String) -> (r: Self)
        ensures
            r.name@ == name@,
            r.value@.len() == 0,
    {
        CookieSlot { name, value: String::new() }
    }
}

/// Seals `jabra_cookie` into the slot. Returns whether it was written; it is
/// written exactly when its encoding is not too long for the cipher, and the
/// slot is left as it was otherwise.
pub fn set_jabra_cookie(
    slot: &mut CookieSlot,
    jabra_cookie: &JabraCookie,
    cipher: &Cipher,
    nonce: &Vec<u8>,
) -> (r: bool)
    requires
        cipher.wf(),
        nonce@.len() == NONCE_LEN,
    ensures
        r == (record_bytes(jabra_cookie@).len() <= PLAIN_MAX),
        final(slot).name@ == old(slot).name@,
        r ==> final(slot).value@ == token_of(cipher.key@, nonce@, record_bytes(jabra_cookie@)),
        !r ==> final(slot).value@ == old(slot).value@,
{
    match jabra_cookie.encrypt(cipher, nonce) {
        Some(token) => {
            slot.value = token;
            true
        },
        None => false,
    }
}

/// The raw text that the slot holds.
pub fn get_jabra_cookie(slot: &CookieSlot) -> (r: String)
    ensures
        r@ == slot.value@,
{
    slot.value.clone()
}

/// The record that the slot holds, if any. An empty slot, one whose text
/// the cipher refuses or that opens to no record, and one whose record lacks
/// a token, hold none.
pub fn read_jabra_cookie(slot: &CookieSlot, cipher: &Cipher) -> (r: Option<JabraCookie>)
    requires
        cipher.wf(),
    ensures
        match r {
            Some(c) => stored_record(cipher.key@, slot.value@) == Some(c@),
            None => stored_record(cipher.key@, slot.value@) is None,
        },
        r matches Some(c) ==> has_tokens(c@),
        forall|nonce: Seq<u8>, v: SessionView|
            #[trigger] slot_sealed(slot.value@, cipher.key@, nonce, v) ==> (r matches Some(c) && c@
                == v),
{
    if slot.value.as_str().unicode_len() == 0 {
        assert forall|nonce: Seq<u8>, v: SessionView|
            !#[trigger] slot_sealed(slot.value@, cipher.key@, nonce, v) by {
            if slot_sealed(slot.value@, cipher.key@, nonce, v) {
                crate::codec::lemma_hex_len(
                    nonce + crate::cipher::sealed_of(cipher.key@, nonce, record_bytes(v)),
                );
            }
        }
        return None;
    }
    match JabraCookie::decrypt(cipher, slot.value.as_str()) {
        Ok(c) => {
            if c.access_token.as_str().unicode_len() == 0 || c.refresh_token.as_str().unicode_len()
                == 0 {
                None
            } else {
                Some(c)
            }
        },
        Err(_) => None,
    }
}

/// Empties the slot, which ends the session it held.
pub fn clear_jabra_cookie(slot: &mut CookieSlot)
    ensures
        final(slot).name@ == old(slot).name@,
        final(slot).value@.len() == 0,
        old(slot).value@.len() == 0 ==> final(slot).value@ == old(slot).value@,
{
    slot.value = String::new();
}

/// Empties the slot and tells observers that the session changed.
pub fn logout_expired_token(slot: &mut CookieSlot, refetcher: &mut crate::Refetcher)
    ensures
        final(slot).name@ == old(slot).name@,
        final(slot).value@.len() == 0,
        final(refetcher)@ == old(refetcher)@.fired(),
{
    clear_jabra_cookie(slot);
    refetcher.fire();
}

/// The access token of the session that `value` stands for, or nothing.
pub open spec fn access_of(key: Seq<u8>, value: Seq<char>) -> Seq<char> {
    match stored_record(key, value) {
        Some(v) => v.access_token,
        None => Seq::empty(),
    }
}

/// `Bearer ` followed by the access token of the slot's record, or by
/// nothing when the slot holds no session.
pub fn get_bearer_token(slot: &CookieSlot, cipher: &Cipher) -> (r: String)
    requires
        cipher.wf(),
    ensures
        r@ == "Bearer "@ + access_of(cipher.key@, slot.value@),
        stored_record(cipher.key@, slot.value@) is None ==> r@ == "Bearer "@,
        forall|nonce: Seq<u8>, v: SessionView|
            #[trigger] slot_sealed(slot.value@, cipher.key@, nonce, v) ==> r@ == "Bearer "@
                + v.access_token,
{
    let mut bearer = String::from_str("Bearer ");
    match read_jabra_cookie(slot, cipher) {
        Some(c) => {
            bearer.append(c.access_token.as_str());
        },
        None => {
            proof {
                assert(bearer@ =~= "Bearer "@ + Seq::<char>::empty());
            }
        },
    }
    bearer
}

/// The slot holding `value` stands for a session that has not expired at
/// `now`.
pub open spec fn valid_at(key: Seq<u8>, value: Seq<char>, now: i64) -> bool {
    stored_record(key, value) matches Some(v) && !(now > v.expires_in)
}

/// Whether the slot holds a session, with both tokens, that has not expired
/// at `now`.
pub fn check_server_cookie(slot: &CookieSlot, cipher: &Cipher, now: i64) -> (r: bool)
    requires
        cipher.wf(),
    ensures
        r == valid_at(cipher.key@, slot.value@, now),
        r ==> (stored_record(cipher.key@, slot.value@) matches Some(v) && has_tokens(v)),
        forall|nonce: Seq<u8>, v: SessionView|
            #[trigger] slot_sealed(slot.value@, cipher.key@, nonce, v) ==> r == !(now
                > v.expires_in),
{
    match read_jabra_cookie(slot, cipher) {
        Some(c) => !c.is_expired(now),
        None => false,
    }
}

} // verus!
