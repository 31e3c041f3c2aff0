//! Tokens and replay protection.

use aetherlink::crypto::auth::{
    generate_auth_token, generate_nonce, verify_auth_token, NonceCache,
};
use aetherlink::crypto::{AUTH_PREFIX, NONCE_SIZE};

#[test]
fn test_generate_auth_token_deterministic() {
    let psk = b"test-psk-32-bytes-long-exactly!!";
    let nonce = [0x42u8; NONCE_SIZE];

    let token1 = generate_auth_token(psk, &nonce);
    let token2 = generate_auth_token(psk, &nonce);

    assert_eq!(token1, token2, "Token generation must be deterministic");
}

#[test]
fn test_different_nonce_different_token() {
    let psk = b"same-psk-for-both-tests";
    let nonce1 = [0x01u8; NONCE_SIZE];
    let nonce2 = [0x02u8; NONCE_SIZE];

    let token1 = generate_auth_token(psk, &nonce1);
    let token2 = generate_auth_token(psk, &nonce2);

    assert_ne!(
        token1, token2,
        "Different nonces must produce different tokens"
    );
}

#[test]
fn test_different_psk_different_token() {
    let psk1 = b"psk-one-32-bytes-long-exactly!!";
    let psk2 = b"psk-two-32-bytes-long-exactly!!";
    let nonce = [0x42u8; NONCE_SIZE];

    let token1 = generate_auth_token(psk1, &nonce);
    let token2 = generate_auth_token(psk2, &nonce);

    assert_ne!(
        token1, token2,
        "Different PSKs must produce different tokens"
    );
}

#[test]
fn test_verify_auth_token_valid() {
    let psk = b"test-psk-32-bytes-long-exactly!!";
    let nonce = [0xABu8; NONCE_SIZE];
    let token = generate_auth_token(psk, &nonce);

    assert!(verify_auth_token(psk, &nonce, &token).is_ok());
}

#[test]
fn test_verify_auth_token_invalid() {
    let psk = b"test-psk-32-bytes-long-exactly!!";
    let nonce = [0xABu8; NONCE_SIZE];
    let mut token = generate_auth_token(psk, &nonce);

    // Corrupt the token
    token[0] ^= 0xFF;

    assert!(verify_auth_token(psk, &nonce, &token).is_err());
}

#[test]
fn test_verify_auth_token_wrong_nonce() {
    let psk = b"test-psk-32-bytes-long-exactly!!";
    let nonce1 = [0x01u8; NONCE_SIZE];
    let nonce2 = [0x02u8; NONCE_SIZE];
    let token = generate_auth_token(psk, &nonce1);

    // Try to verify with different nonce
    assert!(verify_auth_token(psk, &nonce2, &token).is_err());
}

#[test]
fn test_nonce_cache_replay_detection() {
    let mut cache = NonceCache::new();
    let nonce = [0x42u8; NONCE_SIZE];

    // First use should succeed
    assert!(cache.check_and_insert(nonce).is_ok());

    // Second use should fail (replay)
    assert!(cache.check_and_insert(nonce).is_err());
}

#[test]
fn test_nonce_cache_expiry() {
    let mut cache = NonceCache::with_config(1, 100); // 1 second TTL
    let nonce = [0x42u8; NONCE_SIZE];

    // Insert nonce
    assert!(cache.check_and_insert_at(nonce, 0).is_ok());

    // Should be able to use again two seconds later, after expiry
    assert!(cache.check_and_insert_at(nonce, 2_000_000_000).is_ok());
}

#[test]
fn auth_test_generate_nonce_unique() {
    let nonce1 = generate_nonce();
    let nonce2 = generate_nonce();

    // Extremely unlikely to be equal (2^256 possibilities)
    assert_ne!(nonce1, nonce2);
}

#[test]
fn test_auth_prefix_constant() {
    assert_eq!(&AUTH_PREFIX, b"aetherlink-auth-v1");
}

#[test]
fn known_token() {
    // HMAC-SHA256 under an empty key.
    let token = generate_auth_token(b"", &[0u8; NONCE_SIZE]);
    assert_eq!(token.len(), 32);
    assert!(verify_auth_token(b"", &[0u8; NONCE_SIZE], &token).is_ok());
    let e = verify_auth_token(b"x", &[0u8; NONCE_SIZE], &token).unwrap_err();
    assert_eq!(e.message(), "Authentication failed: Invalid auth token");
}

#[test]
fn replay_is_refused_within_the_lifetime_only() {
    let second = 1_000_000_000u128;
    let mut cache = NonceCache::with_config(300, 10);
    let nonce = [5u8; NONCE_SIZE];
    assert!(cache.check_and_insert_at(nonce, 0).is_ok());
    let e = cache.check_and_insert_at(nonce, 299 * second).unwrap_err();
    assert_eq!(e.message(), "Authentication failed: Nonce replay detected");
    assert!(cache.check_and_insert_at(nonce, 300 * second).is_ok());
}

#[test]
fn full_cache_forgets_the_oldest() {
    let mut cache = NonceCache::with_config(300, 2);
    assert!(cache.check_and_insert_at([1u8; NONCE_SIZE], 0).is_ok());
    assert!(cache.check_and_insert_at([2u8; NONCE_SIZE], 1).is_ok());
    assert!(cache.check_and_insert_at([3u8; NONCE_SIZE], 2).is_ok());
    assert!(cache.check_and_insert_at([1u8; NONCE_SIZE], 3).is_ok());
    assert!(cache.check_and_insert_at([3u8; NONCE_SIZE], 4).is_err());
}

#[test]
fn replay_is_refused_after_other_nonces() {
    let mut cache = NonceCache::with_config(300, 4);
    let nonce = [9u8; NONCE_SIZE];
    assert!(cache.check_and_insert_at(nonce, 10).is_ok());
    for i in 1..4u8 {
        assert!(cache.check_and_insert_at([i; NONCE_SIZE], 10 + i as u128).is_ok());
        assert!(cache.check_and_insert_at(nonce, 10 + i as u128).is_err());
    }
    // One more than there is room for.
    assert!(cache.check_and_insert_at([4u8; NONCE_SIZE], 20).is_ok());
    assert!(cache.check_and_insert_at(nonce, 21).is_ok());
}

#[test]
fn refused_nonces_take_no_room_and_no_longer_lifetime() {
    let second = 1_000_000_000u128;
    let mut cache = NonceCache::with_config(300, 2);
    let (a, b, c) = ([1u8; NONCE_SIZE], [2u8; NONCE_SIZE], [3u8; NONCE_SIZE]);
    assert!(cache.check_and_insert_at(a, 0).is_ok());
    assert!(cache.check_and_insert_at(b, second).is_ok());
    // Many more offers than there is room for, all refused.
    for i in 2..50 {
        assert!(cache.check_and_insert_at(a, i * second).is_err());
        assert!(cache.check_and_insert_at(b, i * second).is_err());
    }
    assert!(cache.check_and_insert_at(a, 299 * second).is_err());
    // The first acceptance counts, not the last refusal.
    assert!(cache.check_and_insert_at(a, 300 * second).is_ok());
    assert!(cache.check_and_insert_at(c, 300 * second).is_ok());
    assert!(cache.check_and_insert_at(a, 599 * second).is_err());
}
