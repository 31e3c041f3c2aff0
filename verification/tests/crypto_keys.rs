//! Key derivation.

use aetherlink::crypto::keys::{derive_key, derive_keys, derive_keys_default, derive_keys_multi, SessionKeys};
use aetherlink::crypto::{AEAD_KEY_SIZE, HKDF_RX_LABEL, HKDF_SALT, HKDF_TX_LABEL};

#[test]
fn test_derive_keys_deterministic() {
    let master = b"shared-master-secret-32-bytes!!";
    let salt = &HKDF_SALT;

    let (tx1, rx1) = derive_keys(master, salt);
    let (tx2, rx2) = derive_keys(master, salt);

    assert_eq!(tx1, tx2, "TX key derivation must be deterministic");
    assert_eq!(rx1, rx2, "RX key derivation must be deterministic");
}

#[test]
fn test_tx_rx_keys_different() {
    let master = b"shared-master-secret-32-bytes!!";
    let salt = &HKDF_SALT;

    let (tx_key, rx_key) = derive_keys(master, salt);

    assert_ne!(tx_key, rx_key, "TX and RX keys must be different");
}

#[test]
fn test_key_lengths() {
    let master = b"shared-master-secret-32-bytes!!";
    let salt = &HKDF_SALT;

    let (tx_key, rx_key) = derive_keys(master, salt);

    assert_eq!(tx_key.len(), AEAD_KEY_SIZE);
    assert_eq!(rx_key.len(), AEAD_KEY_SIZE);
}

#[test]
fn test_different_master_different_keys() {
    let master1 = b"master-secret-one-32-bytes-long!";
    let master2 = b"master-secret-two-32-bytes-long!";
    let salt = &HKDF_SALT;

    let (tx1, rx1) = derive_keys(master1, salt);
    let (tx2, rx2) = derive_keys(master2, salt);

    assert_ne!(
        tx1, tx2,
        "Different master secrets must produce different TX keys"
    );
    assert_ne!(
        rx1, rx2,
        "Different master secrets must produce different RX keys"
    );
}

#[test]
fn test_different_salt_different_keys() {
    let master = b"shared-master-secret-32-bytes!!";
    let salt1 = b"salt-one";
    let salt2 = b"salt-two";

    let (tx1, rx1) = derive_keys(master, salt1);
    let (tx2, rx2) = derive_keys(master, salt2);

    assert_ne!(tx1, tx2, "Different salts must produce different TX keys");
    assert_ne!(rx1, rx2, "Different salts must produce different RX keys");
}

#[test]
fn test_derive_key_custom_label() {
    let master = b"shared-master-secret-32-bytes!!";
    let salt = &HKDF_SALT;

    let key1 = derive_key(master, salt, b"custom-label-1");
    let key2 = derive_key(master, salt, b"custom-label-2");

    assert_ne!(key1, key2, "Different labels must produce different keys");
    assert_eq!(key1.len(), AEAD_KEY_SIZE);
}

#[test]
fn test_derive_keys_multi() {
    let master = b"shared-master-secret-32-bytes!!";
    let salt = &HKDF_SALT;
    let labels: &[&[u8]] = &[b"key1", b"key2", b"key3"];

    let keys = derive_keys_multi(master, salt, labels);

    assert_eq!(keys.len(), 3);
    assert_eq!(keys[0].len(), AEAD_KEY_SIZE);
    assert_eq!(keys[1].len(), AEAD_KEY_SIZE);
    assert_eq!(keys[2].len(), AEAD_KEY_SIZE);

    // All keys should be different
    assert_ne!(keys[0], keys[1]);
    assert_ne!(keys[1], keys[2]);
    assert_ne!(keys[0], keys[2]);
}

#[test]
fn test_session_keys_new() {
    let master = b"shared-master-secret-32-bytes!!";
    let keys = SessionKeys::new(master);

    assert_ne!(keys.tx_key, keys.rx_key);
    assert_eq!(keys.tx_key.len(), AEAD_KEY_SIZE);
    assert_eq!(keys.rx_key.len(), AEAD_KEY_SIZE);
}

#[test]
fn test_session_keys_swap() {
    let master = b"shared-master-secret-32-bytes!!";
    let mut keys = SessionKeys::new(master);

    let original_tx = keys.tx_key;
    let original_rx = keys.rx_key;

    keys.swap();

    assert_eq!(keys.tx_key, original_rx);
    assert_eq!(keys.rx_key, original_tx);
}

#[test]
fn test_session_keys_swapped() {
    let master = b"shared-master-secret-32-bytes!!";
    let keys = SessionKeys::new(master);
    let swapped = keys.swapped();

    assert_eq!(swapped.tx_key, keys.rx_key);
    assert_eq!(swapped.rx_key, keys.tx_key);

    // Original unchanged
    assert_eq!(keys.tx_key, swapped.rx_key);
    assert_eq!(keys.rx_key, swapped.tx_key);
}

#[test]
fn test_hkdf_salt_constant() {
    assert_eq!(&HKDF_SALT, b"aetherlink-v1");
}

#[test]
fn test_hkdf_labels_constants() {
    assert_eq!(&HKDF_TX_LABEL, b"tx");
    assert_eq!(&HKDF_RX_LABEL, b"rx");
}

#[test]
fn known_key() {
    // The first example of RFC 5869, cut to 32 bytes.
    let secret = [0x0bu8; 22];
    let salt: Vec<u8> = (0u8..=12).collect();
    let label: Vec<u8> = (0xf0u8..=0xf9).collect();
    let key = derive_key(&secret, &salt, &label);
    assert_eq!(
        key,
        [
            0x3c, 0xb2, 0x5f, 0x25, 0xfa, 0xac, 0xd5, 0x7a, 0x90, 0x43, 0x4f, 0x64, 0xd0, 0x36,
            0x2f, 0x2a, 0x2d, 0x2d, 0x0a, 0x90, 0xcf, 0x1a, 0x5a, 0x4c, 0x5d, 0xb0, 0x2d, 0x56,
            0xec, 0xc4, 0xc5, 0xbf
        ]
    );
}

#[test]
fn default_keys_use_the_standard_salt() {
    assert_eq!(derive_keys_default(b"secret"), derive_keys(b"secret", &HKDF_SALT));
}

#[test]
fn peers_hold_mirrored_keys() {
    let client = SessionKeys::new_with_salt(b"psk", b"salt");
    let mut server = SessionKeys::new_with_salt(b"psk", b"salt");
    server.swap();
    assert_eq!(client.tx_key(), server.rx_key());
    assert_eq!(client.rx_key(), server.tx_key());
}

#[test]
fn wiped_keys_are_zero() {
    let mut keys = SessionKeys::new(b"secret");
    assert_ne!(keys.tx_key(), &[0u8; AEAD_KEY_SIZE]);
    keys.zeroize();
    assert_eq!(keys.tx_key(), &[0u8; AEAD_KEY_SIZE]);
    assert_eq!(keys.rx_key(), &[0u8; AEAD_KEY_SIZE]);
}

#[test]
fn keys_and_nonces_have_a_destructor() {
    assert!(std::mem::needs_drop::<SessionKeys>());
    assert!(std::mem::needs_drop::<aetherlink::crypto::aead::NonceSequence>());
    // A copy outlives the keys that it was made of.
    let keys = SessionKeys::new(b"secret");
    let copy = keys.clone();
    let tx = *keys.tx_key();
    drop(keys);
    assert_eq!(*copy.tx_key(), tx);
}
