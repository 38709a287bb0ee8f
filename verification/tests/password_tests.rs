use argon2::password_hash::PasswordHasher;
use argon2::password_hash::SaltString;
use auth_core::password::hash_password;
use auth_core::password::verify_password;
use auth_core::password::VerificationError;

#[test]
fn hash_then_verify_accepts_the_same_password() {
    let h = hash_password("Secret123").unwrap();
    assert_eq!(verify_password("Secret123", &h), Ok(true));
}

#[test]
fn wrong_password_is_false_not_an_error() {
    let h = hash_password("Secret123").unwrap();
    assert_eq!(verify_password("wrong", &h), Ok(false));
    assert_eq!(verify_password("", &h), Ok(false));
}

#[test]
fn two_hashes_of_one_password_differ_yet_both_verify() {
    let h1 = hash_password("pw").unwrap();
    let h2 = hash_password("pw").unwrap();
    assert_ne!(h1, h2);
    assert_eq!(verify_password("pw", &h1), Ok(true));
    assert_eq!(verify_password("pw", &h2), Ok(true));
}

#[test]
fn malformed_stored_hash_is_an_integrity_error() {
    assert_eq!(
        verify_password("pw", "not-a-phc-string"),
        Err(VerificationError::MalformedHash)
    );
    assert_eq!(
        verify_password("pw", ""),
        Err(VerificationError::MalformedHash)
    );
    // A salt that is not valid B64 fails the parse itself.
    assert_eq!(
        verify_password("pw", "$argon2id$v=19$m=19456,t=2,p=1$&&&&&&$####"),
        Err(VerificationError::MalformedHash)
    );
}

#[test]
fn unsupported_algorithm_tag_is_an_integrity_error() {
    // A structurally plausible PHC string under an algorithm the hasher
    // does not support.
    let stored = "$nosuchalg$v=19$m=19456,t=2,p=1$c29tZXNhbHQ$dGVzdGRpZ2VzdA";
    assert_eq!(
        verify_password("pw", stored),
        Err(VerificationError::MalformedHash)
    );
}

#[test]
fn stored_hash_is_a_self_describing_argon2id_string() {
    let h = hash_password("pw").unwrap();
    assert!(h.starts_with("$argon2id$"));
    assert!(h.contains("$v="));
    assert!(h.contains("m="));
    assert!(h.contains("t="));
    assert!(h.contains("p="));
}

#[test]
fn hashes_under_different_parameters_both_verify() {
    // Parameters travel inside the stored string, so hashes made under
    // different cost settings verify side by side.
    let salt = SaltString::generate(argon2::password_hash::rand_core::OsRng);
    let params = argon2::Params::new(8192, 1, 1, None).unwrap();
    let other = argon2::Argon2::new(argon2::Algorithm::Argon2id, argon2::Version::V0x13, params);
    let weak = other
        .hash_password("pw".as_bytes(), &salt)
        .unwrap()
        .to_string();
    let strong = hash_password("pw").unwrap();
    assert_eq!(verify_password("pw", &weak), Ok(true));
    assert_eq!(verify_password("pw", &strong), Ok(true));
    assert_eq!(verify_password("other", &weak), Ok(false));
}
