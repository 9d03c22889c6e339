use jabra_session::auth::{directus_login, refresh_token, AuthReply, TokenGrant};
use jabra_session::cipher::Cipher;
use jabra_session::codec::{from_hex, push_be, read_be, to_hex};
use jabra_session::controller::{SessionController, SessionState};
use jabra_session::cookies::{
    check_server_cookie, clear_jabra_cookie, get_bearer_token, get_jabra_cookie,
    logout_expired_token, read_jabra_cookie, set_jabra_cookie, CookieSlot, JabraCookie,
};
use jabra_session::error::JabraError;
use jabra_session::Refetcher;

fn key() -> Vec<u8> {
    (0u8..32).collect()
}

fn other_key() -> Vec<u8> {
    (100u8..132).collect()
}

fn nonce(seed: u8) -> Vec<u8> {
    vec![seed; 12]
}

fn cipher() -> Cipher {
    Cipher::new(key()).unwrap()
}

fn record() -> JabraCookie {
    JabraCookie::new(
        "ana@example.com".to_string(),
        "A".to_string(),
        "R".to_string(),
        3_000_000,
    )
}

fn grant(access: &str, refresh: &str, expires: i64) -> AuthReply {
    AuthReply::Granted(TokenGrant {
        access_token: access.to_string(),
        refresh_token: refresh.to_string(),
        expires,
    })
}

#[test]
fn hex_writes_two_lower_case_digits_per_byte() {
    assert_eq!(to_hex(&vec![0x00, 0xab, 0xff, 0x10]), "00abff10");
    assert_eq!(to_hex(&vec![]), "");
}

#[test]
fn hex_reads_back_lower_case_only() {
    assert_eq!(from_hex("00abff10"), Some(vec![0x00, 0xab, 0xff, 0x10]));
    assert_eq!(from_hex(""), Some(vec![]));
    assert_eq!(from_hex("00ABff10"), None);
    assert_eq!(from_hex("0A"), None);
}

#[test]
fn hex_refuses_odd_length_and_non_digits() {
    assert_eq!(from_hex("abc"), None);
    assert_eq!(from_hex("zz"), None);
    assert_eq!(from_hex("0g"), None);
}

#[test]
fn big_endian_numbers_round_trip() {
    let mut out = vec![9u8];
    push_be(&mut out, 0x0102_0304_0506_0708, 8);
    assert_eq!(out, vec![9, 1, 2, 3, 4, 5, 6, 7, 8]);
    assert_eq!(read_be(&out, 1, 8), 0x0102_0304_0506_0708);
    assert_eq!(read_be(&out, 1, 2), 0x0102);
}

#[test]
fn cipher_needs_a_32_byte_key() {
    assert!(Cipher::new(vec![1u8; 31]).is_none());
    assert!(Cipher::new(vec![1u8; 33]).is_none());
    assert!(Cipher::new(vec![1u8; 32]).is_some());
}

#[test]
fn cipher_round_trips_bytes() {
    let c = cipher();
    let plain = b"session payload".to_vec();
    let token = c.encrypt(&plain, &nonce(7)).unwrap();
    assert_eq!(token.len(), 2 * (12 + plain.len() + 16));
    assert!(token.starts_with("070707070707070707070707"));
    assert!(!token.contains(&to_hex(&plain)));
    assert_eq!(c.decrypt(&token), Some(plain));
}

#[test]
fn cipher_round_trips_empty_plaintext() {
    let c = cipher();
    let token = c.encrypt(&vec![], &nonce(1)).unwrap();
    assert_eq!(token.len(), 2 * (12 + 16));
    assert_eq!(c.decrypt(&token), Some(vec![]));
}

#[test]
fn different_nonces_give_different_tokens_that_both_open() {
    let c = cipher();
    let plain = b"abc".to_vec();
    let t1 = c.encrypt(&plain, &nonce(1)).unwrap();
    let t2 = c.encrypt(&plain, &nonce(2)).unwrap();
    assert_ne!(t1, t2);
    assert_eq!(c.decrypt(&t1), Some(plain.clone()));
    assert_eq!(c.decrypt(&t2), Some(plain));
}

#[test]
fn cipher_refuses_other_key_short_and_malformed_tokens() {
    let c = cipher();
    let token = c.encrypt(&b"abc".to_vec(), &nonce(3)).unwrap();
    let other = Cipher::new(other_key()).unwrap();
    assert_eq!(other.decrypt(&token), None);
    assert_eq!(c.decrypt("0011"), None);
    assert_eq!(c.decrypt("not hex at all"), None);
    assert_eq!(c.decrypt(""), None);
}

#[test]
fn flipping_any_byte_of_a_token_is_detected() {
    let c = cipher();
    let token = record().encrypt(&c, &nonce(5)).unwrap();
    let bytes = from_hex(&token).unwrap();
    for i in 0..bytes.len() {
        let mut tampered = bytes.clone();
        tampered[i] ^= 0x01;
        let text = to_hex(&tampered);
        assert_eq!(c.decrypt(&text), None);
        assert!(matches!(
            JabraCookie::decrypt(&c, &text),
            Err(JabraError::CookieFetchError)
        ));
        let mut slot = CookieSlot::new("admin_portal_csr".to_string());
        slot.value = text;
        assert!(read_jabra_cookie(&slot, &c).is_none());
    }
}

#[test]
fn record_encoding_round_trips() {
    let r = JabraCookie::new("jürgen".to_string(), "tök€n".to_string(), "".to_string(), -42);
    let bytes = r.to_bytes();
    assert_eq!(bytes[0], 1);
    let back = JabraCookie::from_bytes(&bytes).unwrap();
    assert_eq!(back, r);
}

#[test]
fn record_encoding_keeps_extreme_instants() {
    for e in [i64::MIN, -1, 0, 1, i64::MAX] {
        let r = JabraCookie::new("u".to_string(), "a".to_string(), "r".to_string(), e);
        let back = JabraCookie::from_bytes(&r.to_bytes()).unwrap();
        assert_eq!(back.expires_in, e);
    }
}

#[test]
fn record_decoding_refuses_malformed_bytes() {
    let good = record().to_bytes();
    let mut trailing = good.clone();
    trailing.push(0);
    let mut version = good.clone();
    version[0] = 2;
    let truncated = good[..good.len() - 1].to_vec();
    for bad in [vec![], vec![1u8], trailing, version, truncated] {
        assert!(matches!(
            JabraCookie::from_bytes(&bad),
            Err(JabraError::CookieFetchError)
        ));
    }
}

#[test]
fn record_decoding_refuses_invalid_utf8() {
    let mut bytes = vec![1u8];
    bytes.extend_from_slice(&[0, 0, 0, 0, 0, 0, 0, 1, 0xff]);
    for _ in 0..2 {
        bytes.extend_from_slice(&[0, 0, 0, 0, 0, 0, 0, 0]);
    }
    bytes.extend_from_slice(&[0x80, 0, 0, 0, 0, 0, 0, 0]);
    assert!(JabraCookie::from_bytes(&bytes).is_err());
    bytes[9] = b'x';
    let r = JabraCookie::from_bytes(&bytes).unwrap();
    assert_eq!(r.user_id, "x");
    assert_eq!(r.expires_in, 0);
}

#[test]
fn sealed_record_round_trips() {
    let c = cipher();
    let r = record();
    let token = r.encrypt(&c, &nonce(9)).unwrap();
    let back = JabraCookie::decrypt(&c, &token).unwrap();
    assert_eq!(back, r);
}

#[test]
fn expiry_is_strictly_after_the_instant() {
    let r = record();
    assert!(r.is_expired(3_000_001));
    assert!(!r.is_expired(3_000_000));
    assert!(!r.is_expired(2_999_999));
}

#[test]
fn expiry_boundary_at_now() {
    let now = 1_700_000_000_000i64;
    let at = JabraCookie::new("u".into(), "a".into(), "r".into(), now);
    let after = JabraCookie::new("u".into(), "a".into(), "r".into(), now + 1);
    assert!(!at.is_expired(now));
    assert!(at.is_expired(now + 1));
    assert!(!after.is_expired(now));
}

#[test]
fn login_subtracts_ten_minutes() {
    let r = directus_login("ana".to_string(), grant("A", "R", 3_600_000), 1_000).unwrap();
    assert_eq!(r.user_id, "ana");
    assert_eq!(r.access_token, "A");
    assert_eq!(r.refresh_token, "R");
    assert_eq!(r.expires_in, 1_000 + 3_600_000 - 600_000);
}

#[test]
fn refresh_subtracts_one_minute() {
    let r = refresh_token("ana".to_string(), grant("A2", "R2", 3_600_000), 1_000).unwrap();
    assert_eq!(r.access_token, "A2");
    assert_eq!(r.refresh_token, "R2");
    assert_eq!(r.expires_in, 1_000 + 3_600_000 - 60_000);
}

#[test]
fn login_failures_are_all_login_errors() {
    for reply in [
        AuthReply::Rejected(401),
        AuthReply::Rejected(500),
        AuthReply::Unreadable,
        AuthReply::Unreachable,
    ] {
        assert!(matches!(
            directus_login("ana".to_string(), reply, 0),
            Err(JabraError::LoginError)
        ));
    }
    assert!(matches!(
        directus_login("ana".to_string(), grant("A", "R", i64::MAX), 600_001),
        Err(JabraError::LoginError)
    ));
    assert!(matches!(
        directus_login("ana".to_string(), grant("A", "R", -1), i64::MIN),
        Err(JabraError::LoginError)
    ));
    let edge = directus_login("ana".to_string(), grant("A", "R", i64::MAX), 600_000).unwrap();
    assert_eq!(edge.expires_in, i64::MAX);
}

#[test]
fn refresh_failures_keep_their_kind() {
    assert!(matches!(
        refresh_token("ana".into(), AuthReply::Rejected(401), 0),
        Err(JabraError::APIResponseError(401))
    ));
    assert!(matches!(
        refresh_token("ana".into(), AuthReply::Unreachable, 0),
        Err(JabraError::TransportError)
    ));
    assert!(matches!(
        refresh_token("ana".into(), AuthReply::Unreadable, 0),
        Err(JabraError::TransportError)
    ));
    assert!(matches!(
        refresh_token("ana".into(), grant("A", "R", i64::MAX), 60_001),
        Err(JabraError::TransportError)
    ));
}

#[test]
fn slot_set_get_and_check() {
    let c = cipher();
    let mut slot = CookieSlot::new("admin_portal_csr".to_string());
    assert_eq!(get_jabra_cookie(&slot), "");
    assert!(read_jabra_cookie(&slot, &c).is_none());
    assert!(set_jabra_cookie(&mut slot, &record(), &c, &nonce(4)));
    assert_eq!(slot.name, "admin_portal_csr");
    assert_eq!(get_jabra_cookie(&slot), record().encrypt(&c, &nonce(4)).unwrap());
    assert_eq!(read_jabra_cookie(&slot, &c).unwrap(), record());
    assert!(check_server_cookie(&slot, &c, 2_999_999));
    assert!(check_server_cookie(&slot, &c, 3_000_000));
    assert!(!check_server_cookie(&slot, &c, 3_000_001));
}

#[test]
fn clearing_twice_leaves_no_session() {
    let c = cipher();
    let mut slot = CookieSlot::new("admin_portal_csr".to_string());
    set_jabra_cookie(&mut slot, &record(), &c, &nonce(4));
    clear_jabra_cookie(&mut slot);
    assert!(read_jabra_cookie(&slot, &c).is_none());
    clear_jabra_cookie(&mut slot);
    assert!(read_jabra_cookie(&slot, &c).is_none());
    assert_eq!(slot.value, "");
    assert_eq!(slot.name, "admin_portal_csr");
}

#[test]
fn corrupt_slot_reads_as_no_session() {
    let c = cipher();
    let mut slot = CookieSlot::new("s".to_string());
    slot.value = "garbage".to_string();
    assert!(read_jabra_cookie(&slot, &c).is_none());
    assert!(!check_server_cookie(&slot, &c, 0));
    assert_eq!(get_bearer_token(&slot, &c), "Bearer ");
}

#[test]
fn bearer_token_carries_the_access_token() {
    let c = cipher();
    let mut slot = CookieSlot::new("s".to_string());
    assert_eq!(get_bearer_token(&slot, &c), "Bearer ");
    set_jabra_cookie(&mut slot, &record(), &c, &nonce(4));
    assert_eq!(get_bearer_token(&slot, &c), "Bearer A");
}

#[test]
fn logout_empties_the_slot_and_fires_once() {
    let c = cipher();
    let mut slot = CookieSlot::new("s".to_string());
    set_jabra_cookie(&mut slot, &record(), &c, &nonce(4));
    let mut signal = Refetcher::new();
    logout_expired_token(&mut slot, &mut signal);
    assert_eq!(slot.value, "");
    assert!(signal.flag);
    assert_eq!(signal.fired, 1);
}

#[test]
fn signal_counter_wraps() {
    let mut signal = Refetcher { flag: true, fired: u64::MAX };
    signal.fire();
    assert!(!signal.flag);
    assert_eq!(signal.fired, 0);
}

#[test]
fn login_then_check_at_the_margin() {
    let mut ctl = SessionController::new("admin_portal_csr".to_string(), cipher());
    assert!(ctl.login("ana".to_string(), grant("A", "R", 3_600_000), 0, &nonce(8)));
    assert_eq!(ctl.state, SessionState::Authenticated);
    assert!(!ctl.has_error.0);
    assert_eq!(ctl.refetcher.fired, 1);
    let stored = JabraCookie::decrypt(&ctl.cipher, &ctl.slot.value).unwrap();
    assert_eq!(stored.access_token, "A");
    assert_eq!(stored.refresh_token, "R");
    assert_eq!(stored.expires_in, 3_000_000);
    assert!(ctl.is_valid_at(2_999_999));
    assert!(!ctl.is_valid_at(3_000_001));
    assert!(ctl.check(2_999_999));
    assert_eq!(ctl.refetcher.fired, 1);
    assert!(!ctl.check(3_000_001));
    assert_eq!(ctl.state, SessionState::Expired);
    assert_eq!(ctl.refetcher.fired, 2);
    assert_eq!(ctl.bearer(), "Bearer A");
}

#[test]
fn failed_login_raises_the_error_flag_only() {
    let mut ctl = SessionController::new("s".to_string(), cipher());
    assert!(!ctl.login("ana".to_string(), AuthReply::Rejected(401), 0, &nonce(8)));
    assert!(ctl.has_error.0);
    assert_eq!(ctl.state, SessionState::Anonymous);
    assert_eq!(ctl.slot.value, "");
    assert_eq!(ctl.refetcher.fired, 0);
}

#[test]
fn rejected_refresh_drops_the_session() {
    let mut ctl = SessionController::new("admin_portal_csr".to_string(), cipher());
    ctl.login("ana".to_string(), grant("A", "R", 3_600_000), 0, &nonce(8));
    assert!(!ctl.check(3_000_001));
    let fired = ctl.refetcher.fired;
    let flag = ctl.refetcher.flag;
    assert!(!ctl.refresh("ana".to_string(), AuthReply::Rejected(401), 3_000_001, &nonce(9)));
    assert_eq!(ctl.state, SessionState::Anonymous);
    assert_eq!(ctl.slot.value, "");
    assert_eq!(ctl.refetcher.fired, fired + 1);
    assert_eq!(ctl.refetcher.flag, !flag);
    assert!(read_jabra_cookie(&ctl.slot, &ctl.cipher).is_none());
}

#[test]
fn granted_refresh_renews_the_session() {
    let mut ctl = SessionController::new("s".to_string(), cipher());
    ctl.login("ana".to_string(), grant("A", "R", 3_600_000), 0, &nonce(8));
    assert!(ctl.refresh("ana".to_string(), grant("A2", "R2", 3_600_000), 3_000_001, &nonce(9)));
    assert_eq!(ctl.state, SessionState::Authenticated);
    let stored = read_jabra_cookie(&ctl.slot, &ctl.cipher).unwrap();
    assert_eq!(stored.user_id, "ana");
    assert_eq!(stored.access_token, "A2");
    assert_eq!(stored.expires_in, 3_000_001 + 3_600_000 - 60_000);
    assert!(ctl.check(3_000_001));
}

#[test]
fn check_empties_a_corrupt_slot() {
    let mut ctl = SessionController::new("s".to_string(), cipher());
    ctl.slot.value = "deadbeef".to_string();
    assert!(!ctl.check(0));
    assert_eq!(ctl.slot.value, "");
    assert_eq!(ctl.state, SessionState::Anonymous);
    assert_eq!(ctl.refetcher.fired, 0);
}

#[test]
fn logout_from_the_controller() {
    let mut ctl = SessionController::new("s".to_string(), cipher());
    ctl.login("ana".to_string(), grant("A", "R", 3_600_000), 0, &nonce(8));
    ctl.logout();
    assert_eq!(ctl.state, SessionState::Anonymous);
    assert_eq!(ctl.slot.value, "");
    assert_eq!(ctl.refetcher.fired, 2);
    assert!(!ctl.check(0));
    assert_eq!(ctl.refetcher.fired, 2);
}

#[test]
fn grants_with_an_empty_token_make_no_session() {
    assert!(matches!(
        directus_login("ana".to_string(), grant("", "R", 3_600_000), 0),
        Err(JabraError::LoginError)
    ));
    assert!(matches!(
        directus_login("ana".to_string(), grant("A", "", 3_600_000), 0),
        Err(JabraError::LoginError)
    ));
    assert!(matches!(
        refresh_token("ana".to_string(), grant("", "R", 3_600_000), 0),
        Err(JabraError::TransportError)
    ));
}

#[test]
fn one_exchange_at_a_time_and_validity_unknown_meanwhile() {
    let mut ctl = SessionController::new("s".to_string(), cipher());
    assert_eq!(ctl.validity().0, Some(false));
    assert!(ctl.begin_exchange());
    assert!(!ctl.begin_exchange());
    assert_eq!(ctl.validity().0, None);
    assert!(ctl.login("ana".to_string(), grant("A", "R", 3_600_000), 0, &nonce(8)));
    assert!(!ctl.in_flight);
    assert_eq!(ctl.validity().0, Some(true));
    assert!(ctl.begin_exchange());
    assert!(!ctl.refresh("ana".to_string(), AuthReply::Unreachable, 1, &nonce(9)));
    assert!(!ctl.in_flight);
    assert_eq!(ctl.validity().0, Some(false));
}

#[test]
fn decrypt_refuses_empty_text_and_other_keys() {
    let c = cipher();
    assert_eq!(JabraCookie::decrypt(&c, ""), Err(JabraError::CookieFetchError));
    let token = record().encrypt(&c, &nonce(3)).unwrap();
    let other = Cipher::new(other_key()).unwrap();
    assert_eq!(JabraCookie::decrypt(&other, &token), Err(JabraError::CookieFetchError));
    let mut slot = CookieSlot::new("s".to_string());
    slot.value = token;
    assert!(read_jabra_cookie(&slot, &other).is_none());
    assert!(!check_server_cookie(&slot, &other, 0));
    assert_eq!(get_bearer_token(&slot, &other), "Bearer ");
}

#[test]
fn tampered_slot_gives_no_bearer_and_no_validity() {
    let c = cipher();
    let token = record().encrypt(&c, &nonce(5)).unwrap();
    let mut bytes = from_hex(&token).unwrap();
    let last = bytes.len() - 1;
    bytes[last] ^= 0x80;
    let mut slot = CookieSlot::new("s".to_string());
    slot.value = to_hex(&bytes);
    assert_eq!(get_bearer_token(&slot, &c), "Bearer ");
    assert!(!check_server_cookie(&slot, &c, 0));
    let mut ctl = SessionController::new("s".to_string(), cipher());
    ctl.slot.value = to_hex(&bytes);
    assert!(!ctl.check(0));
    assert_eq!(ctl.slot.value, "");
    assert_eq!(ctl.state, SessionState::Anonymous);
}

#[test]
fn record_without_tokens_is_no_session() {
    let c = cipher();
    let mut slot = CookieSlot::new("s".to_string());
    let empty = JabraCookie::new("u".to_string(), "".to_string(), "".to_string(), i64::MAX);
    assert!(set_jabra_cookie(&mut slot, &empty, &c, &nonce(2)));
    assert_eq!(JabraCookie::decrypt(&c, &slot.value), Ok(empty.clone()));
    assert!(read_jabra_cookie(&slot, &c).is_none());
    assert!(!check_server_cookie(&slot, &c, 0));
    assert_eq!(get_bearer_token(&slot, &c), "Bearer ");
    let half = JabraCookie::new("u".to_string(), "A".to_string(), "".to_string(), i64::MAX);
    set_jabra_cookie(&mut slot, &half, &c, &nonce(2));
    assert!(read_jabra_cookie(&slot, &c).is_none());
}

#[test]
fn record_that_never_expires_is_valid_at_any_instant() {
    let c = cipher();
    let mut slot = CookieSlot::new("s".to_string());
    let r = JabraCookie::new("u".to_string(), "A".to_string(), "R".to_string(), i64::MAX);
    set_jabra_cookie(&mut slot, &r, &c, &nonce(2));
    assert!(check_server_cookie(&slot, &c, i64::MIN));
    assert!(check_server_cookie(&slot, &c, i64::MAX));
}

#[test]
fn upper_casing_one_digit_of_a_token_is_detected() {
    let c = cipher();
    let token = record().encrypt(&c, &nonce(0xab)).unwrap();
    let mut changed = 0;
    for (i, ch) in token.char_indices() {
        if ch.is_ascii_lowercase() {
            let mut t = token.clone();
            t.replace_range(i..i + 1, &ch.to_ascii_uppercase().to_string());
            assert_eq!(c.decrypt(&t), None);
            assert_eq!(JabraCookie::decrypt(&c, &t), Err(JabraError::CookieFetchError));
            let mut slot = CookieSlot::new("s".to_string());
            slot.value = t;
            assert_eq!(get_bearer_token(&slot, &c), "Bearer ");
            assert!(!check_server_cookie(&slot, &c, 0));
            assert!(read_jabra_cookie(&slot, &c).is_none());
            changed += 1;
        }
    }
    assert!(changed > 0);
}
