//! Tests of the password-based encrypted-pair codec.

use wallet_kv::crypto::{confirm_password, KeyPair, MixedPair};
use wallet_kv::errors::KvError;
use wallet_kv::records::PublicKey;
use wallet_kv::PasswordRetry;

#[test]
fn decrypt_inverts_pack_under_same_password() {
    let public = PublicKey("the-public-half".to_string());
    let secret = KeyPair {
        public: "the-public-half".to_string(),
        secret: "the-secret-half".to_string(),
    };
    let pair = MixedPair::pack(&public, &secret, "pw1").unwrap();
    let back = pair.decrypt("pw1").unwrap();
    assert_eq!(back, secret);
}

#[test]
fn wrong_password_fails_with_decryption_failure() {
    let public = PublicKey("p".to_string());
    let secret = KeyPair {
        public: "p".to_string(),
        secret: "s".to_string(),
    };
    let pair = MixedPair::pack(&public, &secret, "pw1").unwrap();
    let r = pair.decrypt("wrong");
    assert!(matches!(r, Err(KvError::DecryptionFailure { .. })));
}

#[test]
fn clear_no_verify_needs_no_password() {
    let public = PublicKey("readable".to_string());
    let secret = KeyPair {
        public: "readable".to_string(),
        secret: "hidden".to_string(),
    };
    let pair = MixedPair::pack(&public, &secret, "pw1").unwrap();
    assert_eq!(pair.clear_no_verify(), public);
}

#[test]
fn unicode_secret_survives_the_round_trip() {
    let public = PublicKey("pk".to_string());
    let secret = KeyPair {
        public: "pk".to_string(),
        secret: "gehéim → ünïcode ✓".to_string(),
    };
    let pair = MixedPair::pack(&public, &secret, "päss wörd").unwrap();
    assert_eq!(pair.decrypt("päss wörd").unwrap(), secret);
    assert!(pair.decrypt("pass word").is_err());
}

#[test]
fn confirm_password_requires_matching_entries() {
    assert_eq!(
        confirm_password("abc".to_string(), "abc".to_string()),
        Some("abc".to_string())
    );
    assert_eq!(confirm_password("abc".to_string(), "abd".to_string()), None);
}

#[test]
fn password_retry_allows_three_attempts() {
    let mut retry = PasswordRetry::new();
    assert_eq!(retry.remaining, 3);
    assert!(retry.record_failure()); // 2 left
    assert!(retry.record_failure()); // 1 left
    assert!(!retry.record_failure()); // exhausted
    assert_eq!(retry.remaining, 0);
}
