//! ChaCha20-Poly1305 authenticated encryption (RFC 8439).

use chacha20poly1305::aead::{Aead, KeyInit, Payload};
use chacha20poly1305::{ChaCha20Poly1305, Nonce};
use rand::RngCore;
use vstd::prelude::*;
use zeroize::Zeroize;

use crate::buf::{be32, be32_injective, most_significant_byte_first};
use crate::crypto::{CryptoError, CryptoFault, AEAD_KEY_SIZE, AEAD_NONCE_LEN, AEAD_TAG_LEN};

verus! {

/// Key of the cipher.
pub type AeadKey = [u8; AEAD_KEY_SIZE];

/// Nonce of the cipher.
pub type AeadNonce = [u8; AEAD_NONCE_LEN];

/// The opaque error of the `aead` traits.
#[verifier::external_type_specification]
#[verifier::external_body]
pub struct ExAeadError(chacha20poly1305::aead::Error);

/// What ChaCha20-Poly1305 encryption returns: ciphertext followed by the tag.
pub uninterp spec fn chacha20poly1305_seal(
    key: Seq<u8>,
    nonce: Seq<u8>,
    plaintext: Seq<u8>,
    aad: Seq<u8>,
) -> Seq<u8>;

/// What ChaCha20-Poly1305 decryption returns: the plaintext of an authentic
/// ciphertext, `None` for any other input.
pub uninterp spec fn chacha20poly1305_open(
    key: Seq<u8>,
    nonce: Seq<u8>,
    ciphertext: Seq<u8>,
    aad: Seq<u8>,
) -> Option<Seq<u8>>;

/// Whether the cipher takes a plaintext of this length: at most the 2^32 - 2
/// blocks of 64 bytes that its key stream has left behind the first block, and
/// room for the tag in one allocation.
pub open spec fn cipher_accepts(len: nat) -> bool {
    len <= 64 * 0xffff_fffe && len + 16 <= isize::MAX
}

/// Whether the cipher takes a ciphertext of this length, tag included.
pub open spec fn cipher_opens(len: nat) -> bool {
    len <= 64 * 0xffff_fffe + 16
}

/// Whether a plaintext of `len` bytes can be encrypted.
fn accepted(len: usize) -> (r: bool)
    ensures
        r == cipher_accepts(len as nat),
{
    len as u64 <= 0x3f_ffff_ff80 && len as u64 + 16 <= isize::MAX as u64
}

/// Whether a ciphertext of `len` bytes can be decrypted.
fn opened(len: usize) -> (r: bool)
    ensures
        r == cipher_opens(len as nat),
{
    len as u64 <= 0x3f_ffff_ff90
}

/// Calls `Aead::encrypt` of `ChaCha20Poly1305`.
///
/// Claimed of it: on a message that the key stream is long enough for it returns
/// the sealed message, which is the tag length longer than the message and which
/// `Aead::decrypt` opens to the same message.
#[verifier::external_body]
fn cipher_encrypt(key: &AeadKey, nonce: &AeadNonce, plaintext: &[u8], aad: &[u8]) -> (r: Result<
    Vec<u8>,
    chacha20poly1305::aead::Error,
>)
    requires
        cipher_accepts(plaintext@.len()),
    ensures
        r is Ok,
        r matches Ok(sealed) ==> sealed@ == chacha20poly1305_seal(key@, nonce@, plaintext@, aad@),
        r matches Ok(sealed) ==> sealed@.len() == plaintext@.len() + 16,
        r matches Ok(sealed) ==> chacha20poly1305_open(key@, nonce@, sealed@, aad@) == Some(
            plaintext@,
        ),
{
    let cipher = ChaCha20Poly1305::new(key.into());
    cipher.encrypt(Nonce::from_slice(nonce), Payload { msg: plaintext, aad })
}

/// Calls `Aead::decrypt` of `ChaCha20Poly1305`.
///
/// Claimed of it: on a ciphertext that the key stream is long enough for it
/// returns the opened plaintext or fails, as the name says. A plaintext it returns
/// is the tag length shorter than the ciphertext, and `Aead::encrypt` seals it to
/// that ciphertext again: the tag was compared with the one made of the rest.
/// That a forged ciphertext is hard to find is not claimed.
#[verifier::external_body]
fn cipher_decrypt(key: &AeadKey, nonce: &AeadNonce, ciphertext: &[u8], aad: &[u8]) -> (r: Result<
    Vec<u8>,
    chacha20poly1305::aead::Error,
>)
    requires
        cipher_opens(ciphertext@.len()),
    ensures
        r is Ok <==> chacha20poly1305_open(key@, nonce@, ciphertext@, aad@) is Some,
        r matches Ok(plain) ==> chacha20poly1305_open(key@, nonce@, ciphertext@, aad@) == Some(
            plain@,
        ),
        r matches Ok(plain) ==> plain@.len() + 16 == ciphertext@.len(),
        r matches Ok(plain) ==> ciphertext@ == chacha20poly1305_seal(
            key@,
            nonce@,
            plain@,
            aad@,
        ),
{
    let cipher = ChaCha20Poly1305::new(key.into());
    cipher.decrypt(Nonce::from_slice(nonce), Payload { msg: ciphertext, aad })
}

/// Fills an array with `RngCore::fill_bytes` of the thread's generator. Nothing
/// is claimed of the bytes.
#[verifier::external_body]
pub(crate) fn random_bytes<const N: usize>() -> [u8; N] {
    let mut bytes = [0u8; N];
    rand::thread_rng().fill_bytes(&mut bytes);
    bytes
}

/// Calls `Zeroize::zeroize` on an array, which overwrites every byte with zero, is
/// not optimised away, and does not panic.
#[verifier::external_body]
pub(crate) fn wipe<const N: usize>(bytes: &mut [u8; N])
    ensures
        forall|i: int| 0 <= i < N ==> final(bytes)@[i] == 0,
    opens_invariants none
    no_unwind
{
    bytes.zeroize();
}

/// Outcome of decrypting `ciphertext`.
pub open spec fn decrypted(
    key: Seq<u8>,
    nonce: Seq<u8>,
    ciphertext: Seq<u8>,
    aad: Seq<u8>,
) -> Result<Seq<u8>, CryptoFault> {
    if ciphertext.len() < AEAD_TAG_LEN {
        Err(CryptoFault::DecryptionFailed("Ciphertext too short"@))
    } else if !cipher_opens(ciphertext.len()) {
        Err(CryptoFault::DecryptionFailed("Authentication failed"@))
    } else {
        match chacha20poly1305_open(key, nonce, ciphertext, aad) {
            Some(plain) => Ok(plain),
            None => Err(CryptoFault::DecryptionFailed("Authentication failed"@)),
        }
    }
}

/// Whether `ciphertext` decrypts and is what its plaintext is encrypted to.
pub open spec fn authentic(
    key: Seq<u8>,
    nonce: Seq<u8>,
    ciphertext: Seq<u8>,
    aad: Seq<u8>,
) -> bool {
    decrypted(key, nonce, ciphertext, aad) matches Ok(plain) && ciphertext
        == chacha20poly1305_seal(key, nonce, plain, aad)
}

/// Encrypts `plaintext` and appends the tag.
///
/// The nonce must be unique per key. The key stream is long enough for a
/// plaintext of 2^32 - 2 blocks.
pub fn encrypt(key: AeadKey, nonce: AeadNonce, plaintext: &[u8], aad: &[u8]) -> (r: Vec<u8>)
    requires
        cipher_accepts(plaintext@.len()),
    ensures
        r@ == chacha20poly1305_seal(key@, nonce@, plaintext@, aad@),
        r@.len() == plaintext@.len() + AEAD_TAG_LEN,
        decrypted(key@, nonce@, r@, aad@) == Ok::<Seq<u8>, CryptoFault>(plaintext@),
        authentic(key@, nonce@, r@, aad@),
{
    match cipher_encrypt(&key, &nonce, plaintext, aad) {
        Ok(sealed) => sealed,
        Err(_) => vstd::pervasive::unreached(),
    }
}

/// Decrypts `ciphertext`, tag included. A ciphertext longer than any that the key
/// stream can have made is not authentic.
pub fn decrypt(key: AeadKey, nonce: AeadNonce, ciphertext: &[u8], aad: &[u8]) -> (r: Result<
    Vec<u8>,
    CryptoError,
>)
    ensures
        match r {
            Ok(plain) => decrypted(key@, nonce@, ciphertext@, aad@) == Ok::<Seq<u8>, CryptoFault>(
                plain@,
            ) && plain@.len() + AEAD_TAG_LEN == ciphertext@.len() && authentic(
                key@,
                nonce@,
                ciphertext@,
                aad@,
            ),
            Err(e) => decrypted(key@, nonce@, ciphertext@, aad@) == Err::<Seq<u8>, CryptoFault>(
                e@,
            ),
        },
{
    if ciphertext.len() < AEAD_TAG_LEN {
        return Err(CryptoError::DecryptionFailed("Ciphertext too short".to_owned()));
    }
    if !opened(ciphertext.len()) {
        return Err(CryptoError::DecryptionFailed("Authentication failed".to_owned()));
    }
    match cipher_decrypt(&key, &nonce, ciphertext, aad) {
        Ok(plain) => Ok(plain),
        Err(_) => Err(CryptoError::DecryptionFailed("Authentication failed".to_owned())),
    }
}

/// Replaces the plaintext in `buffer` with its ciphertext and tag.
pub fn encrypt_in_place(key: AeadKey, nonce: AeadNonce, buffer: &mut Vec<u8>, aad: &[u8]) -> (r:
    Result<(), CryptoError>)
    ensures
        r is Ok <==> cipher_accepts(old(buffer)@.len()),
        r is Ok ==> {
            &&& final(buffer)@ == chacha20poly1305_seal(key@, nonce@, old(buffer)@, aad@)
            &&& final(buffer)@.len() == old(buffer)@.len() + AEAD_TAG_LEN
            &&& decrypted(key@, nonce@, final(buffer)@, aad@) == Ok::<Seq<u8>, CryptoFault>(
                old(buffer)@,
            )
        },
        r matches Err(e) ==> {
            &&& final(buffer)@ == old(buffer)@
            &&& e@ == CryptoFault::EncryptionFailed("Encryption failed"@)
        },
{
    if !accepted(buffer.len()) {
        return Err(CryptoError::EncryptionFailed("Encryption failed".to_owned()));
    }
    match cipher_encrypt(&key, &nonce, buffer.as_slice(), aad) {
        Ok(sealed) => {
            *buffer = sealed;
            Ok(())
        },
        Err(_) => Err(CryptoError::EncryptionFailed("Encryption failed".to_owned())),
    }
}

/// Replaces the ciphertext and tag in `buffer` with the plaintext.
pub fn decrypt_in_place(key: AeadKey, nonce: AeadNonce, buffer: &mut Vec<u8>, aad: &[u8]) -> (r:
    Result<(), CryptoError>)
    ensures
        match r {
            Ok(_) => decrypted(key@, nonce@, old(buffer)@, aad@) == Ok::<Seq<u8>, CryptoFault>(
                final(buffer)@,
            ) && authentic(key@, nonce@, old(buffer)@, aad@),
            Err(e) => decrypted(key@, nonce@, old(buffer)@, aad@) == Err::<Seq<u8>, CryptoFault>(
                e@,
            ) && final(buffer)@ == old(buffer)@,
        },
{
    match decrypt(key, nonce, buffer.as_slice(), aad) {
        Ok(plain) => {
            *buffer = plain;
            Ok(())
        },
        Err(e) => Err(e),
    }
}

/// A fresh random nonce.
pub fn generate_nonce() -> (r: AeadNonce)
    ensures
        r@.len() == AEAD_NONCE_LEN,
{
    random_bytes::<AEAD_NONCE_LEN>()
}

/// Sequence of nonces that share their first eight bytes and count up in the
/// last four.
#[derive(Clone, Debug)]
pub struct NonceSequence {
    base: AeadNonce,
    counter: u32,
}

impl NonceSequence {
    /// The nonce that the sequence was started from.
    pub closed spec fn spec_base(&self) -> Seq<u8> {
        self.base@
    }

    /// How many nonces were handed out since the start or the last reset, modulo 2^32.
    pub closed spec fn spec_counter(&self) -> u32 {
        self.counter
    }

    /// The nonce at position `counter` of the sequence over `base`.
    pub open spec fn nonce_at(base: Seq<u8>, counter: u32) -> Seq<u8> {
        base.subrange(0, 8) + be32(counter)
    }

    /// Starts a sequence from a base nonce.
    pub fn new(base: AeadNonce) -> (r: Self)
        ensures
            r.spec_base() == base@,
            r.spec_counter() == 0,
    {
        NonceSequence { base, counter: 0 }
    }

    /// The next nonce; the counter wraps after 2^32 nonces.
    pub fn next(&mut self) -> (r: AeadNonce)
        ensures
            r@ == NonceSequence::nonce_at(old(self).spec_base(), old(self).spec_counter()),
            final(self).spec_base() == old(self).spec_base(),
            final(self).spec_counter() == (old(self).spec_counter() + 1) % 0x1_0000_0000,
    {
        let n: u32 = self.counter;
        let mut nonce = self.base;
        nonce[8] = (n / 0x100_0000) as u8;
        nonce[9] = (n / 0x1_0000 % 0x100) as u8;
        nonce[10] = (n / 0x100 % 0x100) as u8;
        nonce[11] = (n % 0x100) as u8;
        self.counter = n.wrapping_add(1);
        assert(nonce@ =~= NonceSequence::nonce_at(self.base@, n));
        nonce
    }

    /// Current counter.
    pub fn counter(&self) -> (r: u32)
        ensures
            r == self.spec_counter(),
    {
        self.counter
    }

    /// Restarts the counter.
    pub fn reset(&mut self)
        ensures
            final(self).spec_base() == old(self).spec_base(),
            final(self).spec_counter() == 0,
    {
        self.counter = 0;
    }

    /// Overwrites the sequence with zeros.
    pub fn zeroize(&mut self)
        ensures
            forall|i: int| 0 <= i < AEAD_NONCE_LEN ==> final(self).spec_base()[i] == 0,
            final(self).spec_counter() == 0,
        opens_invariants none
        no_unwind
    {
        wipe(&mut self.base);
        self.counter = 0;
    }
}

/// A sequence is overwritten with zeros when it goes.
impl Drop for NonceSequence {
    fn drop(&mut self)
        ensures
            forall|i: int| 0 <= i < AEAD_NONCE_LEN ==> final(self).spec_base()[i] == 0,
            final(self).spec_counter() == 0,
        opens_invariants none
        no_unwind
    {
        self.zeroize();
    }
}

/// An altered ciphertext never decrypts to the plaintext of the genuine one.
pub proof fn altered_ciphertext_is_told_apart(
    key: Seq<u8>,
    nonce: Seq<u8>,
    aad: Seq<u8>,
    genuine: Seq<u8>,
    altered: Seq<u8>,
)
    requires
        authentic(key, nonce, genuine, aad),
        authentic(key, nonce, altered, aad),
        altered != genuine,
    ensures
        decrypted(key, nonce, altered, aad) != decrypted(key, nonce, genuine, aad),
{
}

/// Two nonces of one sequence are equal only where the counter is.
pub proof fn nonces_unique(base: Seq<u8>, m: u32, n: u32)
    requires
        base.len() == AEAD_NONCE_LEN,
        NonceSequence::nonce_at(base, m) == NonceSequence::nonce_at(base, n),
    ensures
        m == n,
{
    let a = NonceSequence::nonce_at(base, m);
    let b = NonceSequence::nonce_at(base, n);
    assert(a.subrange(8, 12) =~= be32(m));
    assert(b.subrange(8, 12) =~= be32(n));
    be32_injective(m, n);
}

/// A nonce of a sequence has the first eight bytes of the base, and spells its position in
/// the last four, the most significant byte first.
pub proof fn sequence_nonce_layout(base: Seq<u8>, counter: u32)
    requires
        base.len() == AEAD_NONCE_LEN,
    ensures
        ({
            let b = NonceSequence::nonce_at(base, counter);
            &&& b.len() == 12
            &&& b.take(8) == base.take(8)
            &&& b[8] * 0x100_0000 + b[9] * 0x1_0000 + b[10] * 0x100 + b[11] == counter
        }),
{
    let b = NonceSequence::nonce_at(base, counter);
    most_significant_byte_first(0, counter, Seq::empty());
    assert(b.take(8) =~= base.take(8));
    assert(b[8] == be32(counter)[0] && b[9] == be32(counter)[1]);
    assert(b[10] == be32(counter)[2] && b[11] == be32(counter)[3]);
}

/// A ciphertext decrypts exactly where it is long enough for a tag, not longer than the cipher
/// takes, and opens under the key, the nonce and the associated data; it then decrypts to what
/// it opens to.
pub proof fn ciphertexts_decrypt_to_what_they_open_to(
    key: Seq<u8>,
    nonce: Seq<u8>,
    ciphertext: Seq<u8>,
    aad: Seq<u8>,
)
    ensures
        match decrypted(key, nonce, ciphertext, aad) {
            Ok(plain) => ciphertext.len() >= 16 && chacha20poly1305_open(
                key,
                nonce,
                ciphertext,
                aad,
            ) == Some(plain),
            Err(fault) => fault is DecryptionFailed && (ciphertext.len() < 16 || ciphertext.len()
                > 64 * 0xffff_fffe + 16 || chacha20poly1305_open(
                key,
                nonce,
                ciphertext,
                aad,
            ) is None),
        },
{
}

} // verus!
