//! Authenticated symmetric encryption of opaque byte strings into hexadecimal
//! tokens that may be kept in untrusted storage.
use aes_gcm::aead::{Aead, KeyInit};
use aes_gcm::aead::consts::U12;
use aes_gcm::{Aes256Gcm, Key, Nonce};
use vstd::prelude::*;
use crate::codec::{from_hex, hex_of, lemma_unhex_hex, lemma_unhex_unique, to_hex, unhex};

verus! {

/// Length of a cipher key, in bytes.
pub const KEY_LEN: usize = 32;

/// Length of the nonce that leads every token, in bytes.
pub const NONCE_LEN: usize = 12;

/// Length of the authentication tag that follows the encrypted bytes.
pub const TAG_LEN: usize = 16;

/// Longest plaintext that the cipher accepts, in bytes.
pub const PLAIN_MAX: u64 = 0x10_0000_0000;

/// What AES-256-GCM makes of `plain` under `key` and `nonce`, tag included.
pub uninterp spec fn sealed_of(key: Seq<u8>, nonce: Seq<u8>, plain: Seq<u8>) -> Seq<u8>;

/// Relies on `Aead::encrypt` of `aes_gcm::Aes256Gcm` with no associated data:
/// it fails only on a plaintext longer than `P_MAX` (2^36 bytes) and
/// otherwise appends a 16-byte tag to as many encrypted bytes as it was given.
#[verifier::external_body]
fn aead_seal(key: &Vec<u8>, nonce: &Vec<u8>, plain: &Vec<u8>) -> (r: Option<Vec<u8>>)
    requires
        key@.len() == KEY_LEN,
        nonce@.len() == NONCE_LEN,
    ensures
        match r {
            Some(c) => plain@.len() <= PLAIN_MAX && c@ == sealed_of(key@, nonce@, plain@) && c@.len() == plain@.len()
                + TAG_LEN,
            None => plain@.len() > PLAIN_MAX,
        },
{
    let cipher = Aes256Gcm::new(Key::<Aes256Gcm>::from_slice(key));
    cipher.encrypt(Nonce::<U12>::from_slice(nonce), plain.as_slice()).ok()
}

/// What AES-256-GCM opening makes of `sealed` under `key` and `nonce`:
/// `None` where the tag does not match.
pub uninterp spec fn opened_of(key: Seq<u8>, nonce: Seq<u8>, sealed: Seq<u8>) -> Option<Seq<u8>>;

/// Relies on `Aead::decrypt` of `aes_gcm::Aes256Gcm` with no associated data:
/// its result depends on key, nonce and sealed bytes alone, and bytes that
/// `Aead::encrypt` produced under the same key and nonce open to the
/// plaintext they were made from.
#[verifier::external_body]
fn aead_open(key: &Vec<u8>, nonce: &Vec<u8>, sealed: &Vec<u8>) -> (r: Option<Vec<u8>>)
    requires
        key@.len() == KEY_LEN,
        nonce@.len() == NONCE_LEN,
    ensures
        r is None <==> opened_of(key@, nonce@, sealed@) is None,
        r matches Some(v) ==> opened_of(key@, nonce@, sealed@) == Some(v@),
        forall|p: Seq<u8>|
            p.len() <= PLAIN_MAX && sealed_of(key@, nonce@, p) == sealed@ ==> opens_to(r, p),
{
    let cipher = Aes256Gcm::new(Key::<Aes256Gcm>::from_slice(key));
    cipher.decrypt(Nonce::<U12>::from_slice(nonce), sealed.as_slice()).ok()
}

/// `r` holds exactly the bytes `p`.
pub open spec fn opens_to(r: Option<Vec<u8>>, p: Seq<u8>) -> bool {
    r matches Some(v) && v@ == p
}

/// The token for `plain` sealed under `key` with `nonce`: the nonce and the
/// sealed bytes, written in hexadecimal.
pub open spec fn token_of(key: Seq<u8>, nonce: Seq<u8>, plain: Seq<u8>) -> Seq<char> {
    hex_of(nonce + sealed_of(key, nonce, plain))
}

/// What a token opens to under `key`: nothing when it is not hexadecimal
/// or too short to hold a nonce, otherwise what the cipher makes of the
/// sealed bytes under the leading nonce.
pub open spec fn open_token(key: Seq<u8>, token: Seq<char>) -> Option<Seq<u8>> {
    match unhex(token) {
        Some(b) => if b.len() < NONCE_LEN {
            None
        } else {
            opened_of(key, b.subrange(0, NONCE_LEN as int), b.subrange(NONCE_LEN as int, b.len() as int))
        },
        None => None,
    }
}

/// `r` as a value.
pub open spec fn bytes_of(r: Option<Vec<u8>>) -> Option<Seq<u8>> {
    match r {
        Some(v) => Some(v@),
        None => None,
    }
}

/// Copies `b[from .. to]`.
pub fn copy_range(b: &Vec<u8>, from: usize, to: usize) -> (r: Vec<u8>)
    requires
        from <= to <= b@.len(),
    ensures
        r@ == b@.subrange(from as int, to as int),
{
    let mut out: Vec<u8> = Vec::new();
    let mut i = from;
    while i < to
        invariant
            from <= i <= to <= b@.len(),
            out@ == b@.subrange(from as int, i as int),
        decreases to - i,
    {
        out.push(b[i]);
        assert(out@ =~= b@.subrange(from as int, i + 1));
        i = i + 1;
    }
    out
}

/// A symmetric cipher under one fixed key.
pub struct Cipher {
    pub key: Vec<u8>,
}

impl Cipher {
    pub open spec fn wf(&self) -> bool {
        self.key@.len() == KEY_LEN
    }

    /// A cipher under `key`, which must be 32 bytes long.
    pub fn new(key: Vec<u8>) -> (r: Option<Cipher>)
        ensures
            key@.len() == KEY_LEN <==> r is Some,
            r matches Some(c) ==> c.wf() && c.key@ == key@,
    {
        if key.len() == KEY_LEN {
            Some(Cipher { key })
        } else {
            None
        }
    }

    /// Seals `plain` with `nonce` and writes the nonce and the sealed bytes
    /// as one hexadecimal token. Fails only on a plaintext that is too long.
    pub fn encrypt(&self, plain: &Vec<u8>, nonce: &Vec<u8>) -> (r: Option<String>)
        requires
            self.wf(),
            nonce@.len() == NONCE_LEN,
        ensures
            plain@.len() <= PLAIN_MAX <==> r is Some,
            r matches Some(t) ==> t@ == token_of(self.key@, nonce@, plain@),
    {
        match aead_seal(&self.key, nonce, plain) {
            Some(sealed) => {
                let mut all = copy_range(nonce, 0, nonce.len());
                let mut tail = sealed;
                all.append(&mut tail);
                assert(all@ =~= nonce@ + sealed_of(self.key@, nonce@, plain@));
                Some(to_hex(&all))
            },
            None => None,
        }
    }

    /// Opens a token. Text that is not lower-case hexadecimal, or too short
    /// to hold a nonce, fails; a token that `encrypt` wrote under this key opens to the
    /// bytes it was made from.
    pub fn decrypt(&self, token: &str) -> (r: Option<Vec<u8>>)
        requires
            self.wf(),
        ensures
            bytes_of(r) == open_token(self.key@, token@),
            r is Some ==> (unhex(token@) matches Some(b) && token@ == hex_of(b)),
            unhex(token@) is None ==> r is None,
            unhex(token@) matches Some(b) && b.len() < NONCE_LEN ==> r is None,
            forall|nonce: Seq<u8>, plain: Seq<u8>|
                #![trigger token_of(self.key@, nonce, plain)]
                nonce.len() == NONCE_LEN && plain.len() <= PLAIN_MAX && token@ == token_of(
                    self.key@,
                    nonce,
                    plain,
                ) ==> opens_to(
                    r,
                    plain,
                ),
    {
        assert forall|n: Seq<u8>, p: Seq<u8>|
            n.len() == NONCE_LEN && token@ == #[trigger] token_of(self.key@, n, p) implies unhex(
                token@,
            ) == Some(n + sealed_of(self.key@, n, p)) by {
            lemma_unhex_hex(n + sealed_of(self.key@, n, p));
        }
        proof {
            lemma_unhex_unique(token@);
        }
        let bytes = match from_hex(token) {
            Some(b) => b,
            None => {
                return None;
            },
        };
        if bytes.len() < NONCE_LEN {
            return None;
        }
        let nonce = copy_range(&bytes, 0, NONCE_LEN);
        let sealed = copy_range(&bytes, NONCE_LEN, bytes.len());
        let r = aead_open(&self.key, &nonce, &sealed);
        assert forall|n: Seq<u8>, p: Seq<u8>|
            n.len() == NONCE_LEN && p.len() <= PLAIN_MAX && token@ == #[trigger] token_of(
                self.key@,
                n,
                p,
            ) implies opens_to(
                r,
                p,
            ) by {
            assert(bytes@ == n + sealed_of(self.key@, n, p));
            assert(nonce@ =~= n);
            assert(sealed@ =~= sealed_of(self.key@, n, p));
        }
        r
    }
}

} // verus!
