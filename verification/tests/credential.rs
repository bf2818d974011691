use ruthenium::credential::{hash_password, verify_password, VerifyOutcome};

#[test]
fn fresh_hash_verifies() {
    let hash = hash_password("112358").expect("hashing should succeed");
    assert_eq!(verify_password("112358", &hash), VerifyOutcome::Match);
}

#[test]
fn wrong_password_fails() {
    let hash = hash_password("112358").expect("hashing should succeed");
    assert_eq!(verify_password("112359", &hash), VerifyOutcome::NoMatch);
    assert_eq!(verify_password("", &hash), VerifyOutcome::NoMatch);
}

#[test]
fn hash_of_other_plaintext_fails() {
    let hash_q = hash_password("other-secret").expect("hashing should succeed");
    assert_eq!(verify_password("s3cret", &hash_q), VerifyOutcome::NoMatch);
}

#[test]
fn malformed_hash_detected() {
    assert_eq!(verify_password("s3cret", "123455"), VerifyOutcome::Malformed);
    assert_eq!(verify_password("s3cret", ""), VerifyOutcome::Malformed);
    assert_eq!(
        verify_password("s3cret", "$unknown$v=1$m=1$x"),
        VerifyOutcome::Malformed
    );
}

#[test]
fn salts_are_unique() {
    let first = hash_password("same-password").expect("hashing should succeed");
    let second = hash_password("same-password").expect("hashing should succeed");
    assert_ne!(first, second);
    assert_eq!(verify_password("same-password", &first), VerifyOutcome::Match);
    assert_eq!(verify_password("same-password", &second), VerifyOutcome::Match);
}
