use std::collections::BTreeMap;

use auth_core::token::create_jwt;
use auth_core::token::TokenIssuer;
use hmac::Hmac;
use hmac::Mac;
use jwt::VerifyWithKey;
use sha2::Sha384;

type Key = Hmac<Sha384>;

fn decode_claims(token: &str, secret: &[u8]) -> BTreeMap<String, String> {
    let key: Key = Hmac::new_from_slice(secret).unwrap();
    let verified: jwt::Token<jwt::Header, BTreeMap<String, String>, _> =
        VerifyWithKey::verify_with_key(token, &key).unwrap();
    verified.claims().clone()
}

#[test]
fn token_has_three_dot_joined_segments() {
    let issuer = TokenIssuer::new(b"secret".to_vec());
    let t = issuer.issue_at("alice", 1000, 4600);
    let parts: Vec<&str> = t.split('.').collect();
    assert_eq!(parts.len(), 3);
    assert!(parts.iter().all(|p| !p.is_empty()));
}

#[test]
fn header_segment_is_the_fixed_hs384_header() {
    let issuer = TokenIssuer::new(b"secret".to_vec());
    let t = issuer.issue_at("alice", 1000, 4600);
    // base64url of {"alg":"HS384","typ":"JWT"}
    assert_eq!(
        t.split('.').next().unwrap(),
        "eyJhbGciOiJIUzM4NCIsInR5cCI6IkpXVCJ9"
    );
}

#[test]
fn signature_verifies_under_the_issuing_secret() {
    let issuer = TokenIssuer::new(b"another secret".to_vec());
    let t = issuer.issue_at("alice", 1000, 4600);
    let claims = decode_claims(&t, b"another secret");
    assert_eq!(claims["user_name"], "alice");
    assert_eq!(claims["iat"], "1000");
    assert_eq!(claims["exp"], "4600");
}

#[test]
fn signature_fails_under_a_different_secret() {
    let issuer = TokenIssuer::new(b"secret".to_vec());
    let t = issuer.issue_at("alice", 1000, 4600);
    let key: Key = Hmac::new_from_slice(b"not the secret").unwrap();
    let r: Result<jwt::Token<jwt::Header, BTreeMap<String, String>, _>, _> =
        VerifyWithKey::verify_with_key(t.as_str(), &key);
    assert!(r.is_err());
}

#[test]
fn sixty_minute_ttl_spans_exactly_3600_seconds() {
    let t = create_jwt("alice", 60).unwrap();
    let claims = decode_claims(&t, b"secret");
    let iat: i64 = claims["iat"].parse().unwrap();
    let exp: i64 = claims["exp"].parse().unwrap();
    assert_eq!(exp - iat, 3600);
}

#[test]
fn distinct_issue_instants_give_distinct_tokens() {
    let issuer = TokenIssuer::new(b"secret".to_vec());
    let t1 = issuer.issue_at("bob", 1000, 4600);
    let t2 = issuer.issue_at("bob", 1001, 4601);
    assert_ne!(t1, t2);
}

#[test]
fn negative_timestamps_are_rendered_with_a_sign() {
    let issuer = TokenIssuer::new(b"secret".to_vec());
    let t = issuer.issue_at("alice", -5, 3595);
    let claims = decode_claims(&t, b"secret");
    assert_eq!(claims["iat"], "-5");
    assert_eq!(claims["exp"], "3595");
}

#[test]
fn subject_with_json_metacharacters_is_escaped() {
    let issuer = TokenIssuer::new(b"secret".to_vec());
    let subject = "al\"ice\\\n";
    let t = issuer.issue_at(subject, 1000, 4600);
    let claims = decode_claims(&t, b"secret");
    assert_eq!(claims["user_name"], subject);
}

#[test]
fn a_lifetime_that_overflows_the_timestamps_is_refused() {
    assert!(create_jwt("alice", i64::MAX).is_err());
}

#[test]
fn every_representable_lifetime_gets_a_token() {
    // A million minutes keeps the expiry well inside the timestamps.
    assert!(create_jwt("alice", 1_000_000).is_ok());
    assert!(create_jwt("alice", 0).is_ok());
    assert!(create_jwt("alice", -60).is_ok());
}

#[test]
fn create_jwt_signs_under_the_process_secret() {
    let t = create_jwt("carol", 1).unwrap();
    let parts: Vec<&str> = t.split('.').collect();
    assert_eq!(parts.len(), 3);
    let claims = decode_claims(&t, b"secret");
    assert_eq!(claims["user_name"], "carol");
    let iat: i64 = claims["iat"].parse().unwrap();
    let exp: i64 = claims["exp"].parse().unwrap();
    assert_eq!(exp - iat, 60);
}
