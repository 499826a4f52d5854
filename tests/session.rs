use libminer::error::Error;
use libminer::session::{next_session_step, pad_nul, trim_nul, SessionStep, TokenData, TokenResponse, WhatsminerToken};
use libminer::status::StatusCode;

fn challenge(msg: Option<TokenData>) -> TokenResponse {
    TokenResponse { status: StatusCode::SUCC, when: 1, code: 134, msg, description: String::new() }
}

fn data() -> TokenData {
    TokenData { salt: "BQ5hoXV9".to_string(), time: "3604".to_string(), newsalt: "jbzkfQls".to_string() }
}

fn session() -> WhatsminerToken {
    challenge(Some(data())).make_token("admin", 1_000).unwrap()
}

#[test]
fn token_is_made_from_the_challenge() {
    let t = session();
    assert_eq!(t.expires, 1_000 + 30 * 60);
    assert_eq!(t.cipher.len(), 32);
    assert_eq!(t.get_token().len(), 22);
    let again = session();
    assert_eq!(again, t);
    let other = challenge(Some(data())).make_token("other", 1_000).unwrap();
    assert_ne!(other.cipher, t.cipher);
}

#[test]
fn token_expiry_saturates() {
    let t = challenge(Some(data())).make_token("admin", i64::MAX - 5).unwrap();
    assert_eq!(t.expires, i64::MAX);
}

#[test]
fn token_needs_a_challenge_and_valid_salts() {
    assert_eq!(
        challenge(None).make_token("admin", 0),
        Err(Error::ApiCallFailed("Failed to get token".to_string()))
    );
    let mut bad = data();
    bad.salt = "$$".to_string();
    assert_eq!(challenge(Some(bad)).make_token("admin", 0), Err(Error::EncodingError));
    let mut bad = data();
    bad.newsalt = "a-b".to_string();
    assert_eq!(challenge(Some(bad)).make_token("admin", 0), Err(Error::EncodingError));
}

#[test]
fn envelope_round_trips_across_block_boundaries() {
    let t = session();
    for n in [0usize, 1, 15, 16, 17, 31, 32, 33] {
        let payload: Vec<u8> = (0..n).map(|i| b'a' + (i % 26) as u8).collect();
        let enc = t.encrypt(&payload, 1_000).unwrap();
        assert_ne!(enc.as_bytes(), payload.as_slice());
        let padded = (n / 16 + 1) * 16;
        assert_eq!(enc.len(), (padded + 2) / 3 * 4);
        assert_eq!(t.decrypt(&enc).unwrap(), payload);
    }
}

#[test]
fn json_payload_round_trips() {
    let t = session();
    let payload = br#"{"cmd":"get_miner_info","token":"abc"}"#;
    let enc = t.encrypt(payload, 2_000).unwrap();
    assert_eq!(t.decrypt(&enc).unwrap(), payload.to_vec());
}

#[test]
fn expired_session_refuses_to_encrypt() {
    let t = session();
    assert_eq!(t.encrypt(b"{}", 1_000 + 30 * 60 + 1), Err(Error::TokenExpired));
    assert!(t.is_expired(2_801));
    assert!(!t.is_expired(2_800));
}

#[test]
fn unexpired_session_with_a_full_key_encrypts() {
    let t = session();
    assert!(t.encrypt(b"x", 2_800).is_ok());
    let short = WhatsminerToken { token: "t".to_string(), expires: i64::MAX, cipher: vec![1u8; 16] };
    assert_eq!(short.encrypt(b"x", 0), Err(Error::EncodingError));
}

#[test]
fn decrypt_refuses_partial_blocks() {
    let t = session();
    assert_eq!(t.decrypt("AAAA"), Err(Error::EncodingError));
}

#[test]
fn decrypt_refuses_text_that_is_not_base64() {
    let t = session();
    assert_eq!(t.decrypt("not base64!"), Err(Error::EncodingError));
}

#[test]
fn padding_adds_a_whole_block_when_aligned() {
    assert_eq!(pad_nul(&[]), vec![0u8; 16]);
    assert_eq!(pad_nul(&[1u8; 16]).len(), 32);
    let p = pad_nul(&[1, 2, 3]);
    assert_eq!(p.len(), 16);
    assert_eq!(&p[..3], &[1, 2, 3]);
    assert_eq!(trim_nul(p), vec![1, 2, 3]);
    assert_eq!(trim_nul(vec![0, 0]), Vec::<u8>::new());
}

#[test]
fn expired_session_is_refreshed_once() {
    let t = session();
    let token = Some(t);
    assert_eq!(next_session_step(false, &token, 5_000), SessionStep::Refresh);
    assert_eq!(next_session_step(true, &token, 5_000), SessionStep::Fail(Error::TokenExpired));
    assert_eq!(next_session_step(false, &token, 1_500), SessionStep::Send);
    assert_eq!(next_session_step(true, &token, 1_500), SessionStep::Send);
    assert_eq!(next_session_step(false, &None, 1_500), SessionStep::Fail(Error::Unauthorized));
}
