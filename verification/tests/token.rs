use std::time::{SystemTime, UNIX_EPOCH};

use ruthenium::auth::{authenticate, AuthUser};
use ruthenium::token::{Claims, InvalidReason, SESSION_TTL_SECS};

fn key() -> Vec<u8> {
    b"deadbeef".to_vec()
}

#[test]
fn issue_and_validate_round_trip() {
    let now: i64 = 1_655_000_000;
    let claims = Claims::new(7, String::from("alice"), now);
    assert_eq!(claims.expiry(), now + SESSION_TTL_SECS);
    let token = claims.generate(&key());
    assert!(!token.is_empty());

    let got = Claims::validate(&token, &key(), now).expect("fresh token should validate");
    assert_eq!(got.id, 7);
    assert_eq!(got.username, "alice");
    assert_eq!(got.exp, now + SESSION_TTL_SECS);
}

#[test]
fn token_lifetime_window() {
    let now: i64 = 1_655_000_000;
    let ttl = SESSION_TTL_SECS;
    let token = Claims::new(3, String::from("bob"), now).generate(&key());

    assert!(Claims::validate(&token, &key(), now).is_ok());
    assert!(Claims::validate(&token, &key(), now + ttl - 1).is_ok());
    assert_eq!(
        Claims::validate(&token, &key(), now + ttl),
        Err(InvalidReason::Expired)
    );
    assert_eq!(
        Claims::validate(&token, &key(), now + ttl + 12345),
        Err(InvalidReason::Expired)
    );
}

#[test]
fn wrong_key_is_bad_signature() {
    let now: i64 = 1_655_000_000;
    let token = Claims::new(3, String::from("bob"), now).generate(&key());
    let other: Vec<u8> = b"cafebabe".to_vec();
    assert_eq!(
        Claims::validate(&token, &other, now),
        Err(InvalidReason::BadSignature)
    );
}

#[test]
fn garbage_tokens_are_malformed() {
    let now: i64 = 1_655_000_000;
    assert_eq!(
        Claims::validate("", &key(), now),
        Err(InvalidReason::Malformed)
    );
    assert_eq!(
        Claims::validate("abc", &key(), now),
        Err(InvalidReason::Malformed)
    );
    assert_eq!(
        Claims::validate("a.b.c.d", &key(), now),
        Err(InvalidReason::Malformed)
    );
}

#[test]
fn tampered_token_rejected() {
    let now: i64 = 1_655_000_000;
    let token = Claims::new(3, String::from("bob"), now).generate(&key());
    let mut tampered = token.clone();
    // flip the last character of the signature
    let last = tampered.pop().unwrap();
    tampered.push(if last == 'A' { 'B' } else { 'A' });
    assert!(Claims::validate(&tampered, &key(), now).is_err());
}

#[test]
fn unicode_username_round_trips() {
    let now: i64 = 1_655_000_000;
    let name = String::from("\u{e9}l\u{e8}ne \"quoted\" \\slash\u{00a0}\u{1F980}\u{8}");
    let token = Claims::new(42, name.clone(), now).generate(&key());
    let got = Claims::validate(&token, &key(), now).expect("token should validate");
    assert_eq!(got.username, name);
    assert_eq!(got.id, 42);
}

#[test]
fn token_decodes_with_jsonwebtoken() {
    let now: i64 = SystemTime::now()
        .duration_since(UNIX_EPOCH)
        .unwrap()
        .as_secs() as i64;
    let token = Claims::new(9, String::from("carol"), now).generate(&key());
    let decoding = jsonwebtoken::DecodingKey::from_secret(b"deadbeef");
    let validation = jsonwebtoken::Validation::new(jsonwebtoken::Algorithm::HS256);
    let data = jsonwebtoken::decode::<serde_json::Value>(&token, &decoding, &validation)
        .expect("a generated token is a standard JWT");
    assert_eq!(data.claims.get("id").and_then(|v| v.as_i64()), Some(9));
    assert_eq!(
        data.claims.get("username").and_then(|v| v.as_str()),
        Some("carol")
    );
    assert_eq!(
        data.claims.get("exp").and_then(|v| v.as_i64()),
        Some(now + SESSION_TTL_SECS)
    );
}

#[test]
fn authenticate_bearer_header() {
    let now: i64 = 1_655_000_000;
    let token = Claims::new(5, String::from("dora"), now).generate(&key());
    let header = format!("Bearer {}", token);

    let claims = authenticate(Some(&header), &key(), now).expect("bearer header should pass");
    assert_eq!(claims.id, 5);
    assert_eq!(claims.username, "dora");

    let principal = AuthUser::from_claims(&claims);
    assert_eq!(principal.user_id, "5");
}

#[test]
fn authenticate_rejections() {
    let now: i64 = 1_655_000_000;
    let token = Claims::new(5, String::from("dora"), now).generate(&key());

    assert!(authenticate(None, &key(), now).is_err());
    assert!(authenticate(Some(&token), &key(), now).is_err());
    let basic = format!("Basic {}", token);
    assert!(authenticate(Some(&basic), &key(), now).is_err());
    let header = format!("Bearer {}", token);
    assert_eq!(
        authenticate(Some(&header), &key(), now + SESSION_TTL_SECS),
        Err(InvalidReason::Expired)
    );
}
