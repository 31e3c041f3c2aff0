//! Authenticated encryption.

use aetherlink::crypto::aead::{
    decrypt, decrypt_in_place, encrypt, encrypt_in_place, generate_nonce, NonceSequence,
};
use aetherlink::crypto::{AEAD_KEY_SIZE, AEAD_NONCE_LEN, AEAD_TAG_LEN};

#[test]
fn test_encrypt_decrypt_roundtrip() {
    let key = [0x42u8; AEAD_KEY_SIZE];
    let nonce = [0x24u8; AEAD_NONCE_LEN];
    let plaintext = b"Hello AetherLink AEAD Test";
    let aad = b"additional-authenticated-data";

    let ciphertext = encrypt(key, nonce, plaintext, aad);

    // Ciphertext = plaintext + 16 byte tag
    assert_eq!(ciphertext.len(), plaintext.len() + AEAD_TAG_LEN);

    let decrypted = decrypt(key, nonce, &ciphertext, aad).expect("Decryption should succeed");
    assert_eq!(decrypted, plaintext);
}

#[test]
fn test_decrypt_wrong_key_fails() {
    let key1 = [0x01u8; AEAD_KEY_SIZE];
    let key2 = [0x02u8; AEAD_KEY_SIZE];
    let nonce = [0x42u8; AEAD_NONCE_LEN];
    let plaintext = b"secret message";
    let aad = b"aad";

    let ciphertext = encrypt(key1, nonce, plaintext, aad);

    assert!(decrypt(key2, nonce, &ciphertext, aad).is_err());
}

#[test]
fn test_decrypt_wrong_nonce_fails() {
    let key = [0x42u8; AEAD_KEY_SIZE];
    let nonce1 = [0x01u8; AEAD_NONCE_LEN];
    let nonce2 = [0x02u8; AEAD_NONCE_LEN];
    let plaintext = b"secret message";
    let aad = b"aad";

    let ciphertext = encrypt(key, nonce1, plaintext, aad);

    assert!(decrypt(key, nonce2, &ciphertext, aad).is_err());
}

#[test]
fn test_decrypt_wrong_aad_fails() {
    let key = [0x42u8; AEAD_KEY_SIZE];
    let nonce = [0x42u8; AEAD_NONCE_LEN];
    let plaintext = b"secret message";
    let aad1 = b"correct-aad";
    let aad2 = b"wrong-aad";

    let ciphertext = encrypt(key, nonce, plaintext, aad1);

    assert!(decrypt(key, nonce, &ciphertext, aad2).is_err());
}

#[test]
fn test_decrypt_corrupted_ciphertext_fails() {
    let key = [0x42u8; AEAD_KEY_SIZE];
    let nonce = [0x42u8; AEAD_NONCE_LEN];
    let plaintext = b"secret message";
    let aad = b"aad";

    let mut ciphertext = encrypt(key, nonce, plaintext, aad);

    // Corrupt a byte in the ciphertext (not the tag)
    if ciphertext.len() > AEAD_TAG_LEN {
        ciphertext[0] ^= 0xFF;
    }

    assert!(decrypt(key, nonce, &ciphertext, aad).is_err());
}

#[test]
fn test_decrypt_corrupted_tag_fails() {
    let key = [0x42u8; AEAD_KEY_SIZE];
    let nonce = [0x42u8; AEAD_NONCE_LEN];
    let plaintext = b"secret message";
    let aad = b"aad";

    let mut ciphertext = encrypt(key, nonce, plaintext, aad);

    // Corrupt the tag (last 16 bytes)
    let tag_start = ciphertext.len() - AEAD_TAG_LEN;
    ciphertext[tag_start] ^= 0xFF;

    assert!(decrypt(key, nonce, &ciphertext, aad).is_err());
}

#[test]
fn test_empty_plaintext() {
    let key = [0x42u8; AEAD_KEY_SIZE];
    let nonce = [0x24u8; AEAD_NONCE_LEN];
    let plaintext = b"";
    let aad = b"aad";

    let ciphertext = encrypt(key, nonce, plaintext, aad);
    assert_eq!(ciphertext.len(), AEAD_TAG_LEN); // Only tag

    let decrypted = decrypt(key, nonce, &ciphertext, aad).expect("Decryption should succeed");
    assert_eq!(decrypted, plaintext);
}

#[test]
fn test_large_plaintext() {
    let key = [0x42u8; AEAD_KEY_SIZE];
    let nonce = [0x24u8; AEAD_NONCE_LEN];
    let plaintext = vec![0xABu8; 10000]; // 10KB
    let aad = b"aad";

    let ciphertext = encrypt(key, nonce, &plaintext, aad);
    assert_eq!(ciphertext.len(), plaintext.len() + AEAD_TAG_LEN);

    let decrypted = decrypt(key, nonce, &ciphertext, aad).expect("Decryption should succeed");
    assert_eq!(decrypted, plaintext);
}

#[test]
fn test_encrypt_in_place() {
    let key = [0x42u8; AEAD_KEY_SIZE];
    let nonce = [0x24u8; AEAD_NONCE_LEN];
    let mut buffer = b"plaintext data".to_vec();
    let aad = b"aad";
    let original = buffer.clone();

    encrypt_in_place(key, nonce, &mut buffer, aad).expect("In-place encryption should succeed");

    assert_eq!(buffer.len(), original.len() + AEAD_TAG_LEN);

    // Decrypt back
    decrypt_in_place(key, nonce, &mut buffer, aad).expect("In-place decryption should succeed");
    assert_eq!(buffer, original);
}

#[test]
fn test_nonce_sequence() {
    let base = [0x42u8; AEAD_NONCE_LEN];
    let mut seq = NonceSequence::new(base);

    let n1 = seq.next();
    let n2 = seq.next();
    let n3 = seq.next();

    // First 8 bytes should be same, last 4 should increment
    assert_eq!(&n1[..8], &n2[..8]);
    assert_eq!(&n2[..8], &n3[..8]);

    assert_eq!(u32::from_be_bytes(n1[8..12].try_into().unwrap()), 0);
    assert_eq!(u32::from_be_bytes(n2[8..12].try_into().unwrap()), 1);
    assert_eq!(u32::from_be_bytes(n3[8..12].try_into().unwrap()), 2);

    assert_eq!(seq.counter(), 3);
}

#[test]
fn aead_test_generate_nonce_unique() {
    let n1 = generate_nonce();
    let n2 = generate_nonce();

    assert_ne!(n1, n2);
}

#[test]
fn known_ciphertext() {
    // The first example of RFC 8439 for this cipher.
    let key: [u8; 32] = std::array::from_fn(|i| 0x80 + i as u8);
    let nonce: [u8; 12] = [0x07, 0, 0, 0, 0x40, 0x41, 0x42, 0x43, 0x44, 0x45, 0x46, 0x47];
    let aad = [0x50, 0x51, 0x52, 0x53, 0xc0, 0xc1, 0xc2, 0xc3, 0xc4, 0xc5, 0xc6, 0xc7];
    let plaintext = b"Ladies and Gentlemen of the class of '99: If I could offer you only one tip for the future, sunscreen would be it.";
    let sealed = encrypt(key, nonce, plaintext, &aad);
    assert_eq!(&sealed[..8], &[0xd3, 0x1a, 0x8d, 0x34, 0x64, 0x8e, 0x60, 0xdb]);
    assert_eq!(
        &sealed[sealed.len() - 16..],
        &[
            0x1a, 0xe1, 0x0b, 0x59, 0x4f, 0x09, 0xe2, 0x6a, 0x7e, 0x90, 0x2e, 0xcb, 0xd0, 0x60,
            0x06, 0x91
        ]
    );
}

#[test]
fn short_ciphertext_is_named() {
    let e = decrypt([1u8; 32], [2u8; 12], &[0u8; 15], b"").unwrap_err();
    assert_eq!(e.message(), "Decryption failed: Ciphertext too short");
    let e = decrypt([1u8; 32], [2u8; 12], &[0u8; 16], b"").unwrap_err();
    assert_eq!(e.message(), "Decryption failed: Authentication failed");
}

#[test]
fn failed_decryption_keeps_the_buffer() {
    let mut buffer = vec![9u8; 40];
    assert!(decrypt_in_place([1u8; 32], [2u8; 12], &mut buffer, b"").is_err());
    assert_eq!(buffer, vec![9u8; 40]);
}

#[test]
fn nonce_sequence_starts_over_after_reset() {
    let mut seq = NonceSequence::new([7u8; AEAD_NONCE_LEN]);
    let first = seq.next();
    seq.next();
    seq.reset();
    assert_eq!(seq.counter(), 0);
    assert_eq!(seq.next(), first);
}

#[test]
fn wiped_sequence_starts_at_zero() {
    let mut seq = NonceSequence::new([7u8; AEAD_NONCE_LEN]);
    seq.next();
    seq.zeroize();
    assert_eq!(seq.next(), [0u8; AEAD_NONCE_LEN]);
}

#[test]
fn altered_ciphertext_is_never_taken_for_the_genuine_one() {
    let (key, nonce) = ([3u8; AEAD_KEY_SIZE], [4u8; AEAD_NONCE_LEN]);
    let genuine = encrypt(key, nonce, b"abc", b"");
    for i in 0..genuine.len() {
        let mut altered = genuine.clone();
        altered[i] ^= 1;
        assert!(decrypt(key, nonce, &altered, b"").is_err());
    }
    let plain = decrypt(key, nonce, &genuine, b"").unwrap();
    assert_eq!(encrypt(key, nonce, &plain, b""), genuine);
}
