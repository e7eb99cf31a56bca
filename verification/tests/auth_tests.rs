use chat_server::auth::{check_token, decode_jwt, encode_jwt, Jwt};
use chat_server::types::UserID;

const SECRET: &[u8] = b"another-secret";

fn now() -> u64 {
    jsonwebtoken::get_current_timestamp()
}

#[test]
fn token_round_trip() {
    let t = now();
    let token = encode_jwt(&UserID("alice".to_string()), SECRET, t);
    let claims = decode_jwt(&token, SECRET).expect("decodes");
    assert_eq!(claims.name.0, "alice");
    assert_eq!(claims.exp, t + 3600);
}

#[test]
fn token_rejected_with_wrong_secret() {
    let token = encode_jwt(&UserID("alice".to_string()), SECRET, now());
    assert!(decode_jwt(&token, b"not-the-secret").is_none());
}

#[test]
fn garbage_token_rejected() {
    assert!(decode_jwt("definitely.not.a-token", SECRET).is_none());
    assert!(decode_jwt("", SECRET).is_none());
}

#[test]
fn token_whitespace_tolerated() {
    let token = encode_jwt(&UserID("alice".to_string()), SECRET, now());
    let padded = format!("  {}\n", token);
    let claims = decode_jwt(&padded, SECRET).expect("decodes after trim");
    assert_eq!(claims.name.0, "alice");
}

#[test]
fn expiry_policy() {
    let t = now();
    let j = Jwt { name: UserID("alice".to_string()), exp: t + 10 };
    assert!(j.is_current(t));
    assert!(j.is_current(t + 10));
    assert!(!j.is_current(t + 11));
    // a token that is current now is rejected once `now` passes its expiry
    let token = encode_jwt(&UserID("alice".to_string()), SECRET, t);
    assert!(check_token(&token, SECRET, t).is_some());
    assert!(check_token(&token, SECRET, t + 3601).is_none());
    assert!(check_token(&token, b"wrong", t).is_none());
}
