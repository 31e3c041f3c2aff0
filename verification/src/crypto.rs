//! Cryptographic primitives of the tunnel.
//!
//! - HMAC-SHA256 authentication tokens
//! - ChaCha20-Poly1305 authenticated encryption
//! - HKDF-SHA256 key derivation

use vstd::prelude::*;
use vstd::string::*;

use crate::text::{decimal, decimal_of, joined};

pub mod aead;
pub mod auth;
pub mod keys;

verus! {

/// What can go wrong in the cryptographic layer.
#[derive(Clone, Debug, PartialEq, Eq)]
pub enum CryptoError {
    /// A key of the wrong size was supplied.
    InvalidKeyLength { expected: usize, actual: usize },
    /// A nonce of the wrong size was supplied.
    InvalidNonceLength { expected: usize, actual: usize },
    /// The cipher refused to encrypt.
    EncryptionFailed(String),
    /// The ciphertext is not authentic, or not a ciphertext at all.
    DecryptionFailed(String),
    /// A token or a nonce was refused.
    AuthenticationFailed(String),
    /// A key could not be derived.
    KeyDerivationFailed(String),
}

/// Mathematical counterpart of [`CryptoError`].
pub enum CryptoFault {
    InvalidKeyLength { expected: usize, actual: usize },
    InvalidNonceLength { expected: usize, actual: usize },
    EncryptionFailed(Seq<char>),
    DecryptionFailed(Seq<char>),
    AuthenticationFailed(Seq<char>),
    KeyDerivationFailed(Seq<char>),
}

impl View for CryptoError {
    type V = CryptoFault;

    open spec fn view(&self) -> CryptoFault {
        match *self {
            CryptoError::InvalidKeyLength { expected, actual } => CryptoFault::InvalidKeyLength {
                expected,
                actual,
            },
            CryptoError::InvalidNonceLength { expected, actual } => CryptoFault::InvalidNonceLength {
                expected,
                actual,
            },
            CryptoError::EncryptionFailed(m) => CryptoFault::EncryptionFailed(m@),
            CryptoError::DecryptionFailed(m) => CryptoFault::DecryptionFailed(m@),
            CryptoError::AuthenticationFailed(m) => CryptoFault::AuthenticationFailed(m@),
            CryptoError::KeyDerivationFailed(m) => CryptoFault::KeyDerivationFailed(m@),
        }
    }
}

/// The sentence that describes a fault.
pub open spec fn crypto_text(fault: CryptoFault) -> Seq<char> {
    match fault {
        CryptoFault::InvalidKeyLength { expected, actual } => "Invalid key length: expected "@
            + decimal(expected as nat) + ", got "@ + decimal(actual as nat),
        CryptoFault::InvalidNonceLength { expected, actual } => "Invalid nonce length: expected "@
            + decimal(expected as nat) + ", got "@ + decimal(actual as nat),
        CryptoFault::EncryptionFailed(m) => "Encryption failed: "@ + m,
        CryptoFault::DecryptionFailed(m) => "Decryption failed: "@ + m,
        CryptoFault::AuthenticationFailed(m) => "Authentication failed: "@ + m,
        CryptoFault::KeyDerivationFailed(m) => "Key derivation failed: "@ + m,
    }
}

fn lengths(start: &str, expected: usize, actual: usize) -> (r: String)
    ensures
        r@ == start@ + decimal(expected as nat) + ", got "@ + decimal(actual as nat),
{
    let mut r = joined(start, decimal_of(expected as u64).as_str());
    r.append(", got ");
    r.append(decimal_of(actual as u64).as_str());
    r
}

impl CryptoError {
    /// The sentence that describes the error.
    pub fn message(&self) -> (r: String)
        ensures
            r@ == crypto_text(self@),
    {
        match self {
            CryptoError::InvalidKeyLength { expected, actual } => lengths(
                "Invalid key length: expected ",
                *expected,
                *actual,
            ),
            CryptoError::InvalidNonceLength { expected, actual } => lengths(
                "Invalid nonce length: expected ",
                *expected,
                *actual,
            ),
            CryptoError::EncryptionFailed(m) => joined("Encryption failed: ", m.as_str()),
            CryptoError::DecryptionFailed(m) => joined("Decryption failed: ", m.as_str()),
            CryptoError::AuthenticationFailed(m) => joined("Authentication failed: ", m.as_str()),
            CryptoError::KeyDerivationFailed(m) => joined("Key derivation failed: ", m.as_str()),
        }
    }
}

/// Protocol version constant.
pub const PROTOCOL_VERSION: u8 = 1;

/// Prefix of the authenticated message, the text `aetherlink-auth-v1`.
pub const AUTH_PREFIX: [u8; 18] = [
    97, 101, 116, 104, 101, 114, 108, 105, 110, 107, 45, 97, 117, 116, 104, 45, 118, 49,
];

/// Tag length of ChaCha20-Poly1305.
pub const AEAD_TAG_LEN: usize = 16;

/// Nonce length of ChaCha20-Poly1305.
pub const AEAD_NONCE_LEN: usize = 12;

/// Key length of ChaCha20-Poly1305.
pub const AEAD_KEY_SIZE: usize = 32;

/// Length of a client nonce.
pub const NONCE_SIZE: usize = 32;

/// Length of an authentication token (a SHA-256 output).
pub const AUTH_TOKEN_SIZE: usize = 32;

/// Standard HKDF salt, the text `aetherlink-v1`.
pub const HKDF_SALT: [u8; 13] = [97, 101, 116, 104, 101, 114, 108, 105, 110, 107, 45, 118, 49];

/// HKDF label of the sending direction, the text `tx`.
pub const HKDF_TX_LABEL: [u8; 2] = [116, 120];

/// HKDF label of the receiving direction, the text `rx`.
pub const HKDF_RX_LABEL: [u8; 2] = [114, 120];

/// How long a nonce is remembered by default (five minutes).
pub const DEFAULT_NONCE_TTL_SECS: u64 = 300;

/// Largest frame payload (16 MiB).
pub const MAX_FRAME_PAYLOAD: usize = 16 * 1024 * 1024;

/// Default padding multiple.
pub const DEFAULT_PAD_MULTIPLE: usize = 128;

} // verus!
