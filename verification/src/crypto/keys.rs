//! HKDF-SHA256 key derivation (RFC 5869).

use hkdf::Hkdf;
use sha2::Sha256;
use vstd::prelude::*;

use crate::crypto::aead::wipe;
use crate::crypto::{AEAD_KEY_SIZE, HKDF_RX_LABEL, HKDF_SALT, HKDF_TX_LABEL};

verus! {

/// Key of the cipher.
pub type AeadKey = [u8; AEAD_KEY_SIZE];

/// Sending key and receiving key.
pub type KeyPair = (AeadKey, AeadKey);

/// The first 32 bytes of HKDF-SHA256 output for a salt, an input secret and a label.
pub uninterp spec fn hkdf_sha256(salt: Seq<u8>, secret: Seq<u8>, label: Seq<u8>) -> Seq<u8>;

/// Calls `Hkdf::<Sha256>::new` and `Hkdf::expand`.
///
/// Claimed of them: the 32 bytes written depend on salt, secret and label alone.
/// `expand` refuses only outputs above 255 * 32 bytes, so it never fails here.
#[verifier::external_body]
fn hkdf_expand(salt: &[u8], secret: &[u8], label: &[u8]) -> (key: AeadKey)
    ensures
        key@ == hkdf_sha256(salt@, secret@, label@),
{
    let hkdf = Hkdf::<Sha256>::new(Some(salt), secret);
    let mut key = [0u8; AEAD_KEY_SIZE];
    hkdf.expand(label, &mut key).expect("32 bytes are a valid output length");
    key
}

/// Derives the session keys of a master secret: the first from the label `tx`,
/// the second from the label `rx`.
pub fn derive_keys(master_secret: &[u8], salt: &[u8]) -> (r: KeyPair)
    ensures
        r.0@ == hkdf_sha256(salt@, master_secret@, HKDF_TX_LABEL@),
        r.1@ == hkdf_sha256(salt@, master_secret@, HKDF_RX_LABEL@),
{
    let tx_key = derive_key(master_secret, salt, HKDF_TX_LABEL.as_slice());
    let rx_key = derive_key(master_secret, salt, HKDF_RX_LABEL.as_slice());
    (tx_key, rx_key)
}

/// Derives the session keys with the standard salt.
pub fn derive_keys_default(master_secret: &[u8]) -> (r: KeyPair)
    ensures
        r.0@ == hkdf_sha256(HKDF_SALT@, master_secret@, HKDF_TX_LABEL@),
        r.1@ == hkdf_sha256(HKDF_SALT@, master_secret@, HKDF_RX_LABEL@),
{
    derive_keys(master_secret, HKDF_SALT.as_slice())
}

/// Derives one key with a label of the caller's choice.
pub fn derive_key(master_secret: &[u8], salt: &[u8], label: &[u8]) -> (r: AeadKey)
    ensures
        r@ == hkdf_sha256(salt@, master_secret@, label@),
{
    hkdf_expand(salt, master_secret, label)
}

/// Derives one key per label, in the order of the labels.
pub fn derive_keys_multi(master_secret: &[u8], salt: &[u8], labels: &[&[u8]]) -> (r: Vec<AeadKey>)
    ensures
        r@.len() == labels@.len(),
        forall|i: int|
            0 <= i < labels@.len() ==> (#[trigger] r@[i])@ == hkdf_sha256(
                salt@,
                master_secret@,
                labels@[i]@,
            ),
{
    let mut keys: Vec<AeadKey> = Vec::with_capacity(labels.len());
    let mut i: usize = 0;
    while i < labels.len()
        invariant
            0 <= i <= labels@.len(),
            keys@.len() == i,
            forall|j: int|
                0 <= j < i ==> (#[trigger] keys@[j])@ == hkdf_sha256(
                    salt@,
                    master_secret@,
                    labels@[j]@,
                ),
        decreases labels@.len() - i,
    {
        keys.push(derive_key(master_secret, salt, labels[i]));
        i += 1;
    }
    keys
}

/// Keys of one session, seen from one side.
///
/// For the client, `tx_key` protects client-to-server traffic; for the server
/// the two are exchanged.
#[derive(Clone, Debug)]
pub struct SessionKeys {
    /// Key for outgoing frames.
    pub tx_key: AeadKey,
    /// Key for incoming frames.
    pub rx_key: AeadKey,
}

impl SessionKeys {
    /// The same keys, seen from the peer.
    pub open spec fn spec_swapped(self) -> SessionKeys {
        SessionKeys { tx_key: self.rx_key, rx_key: self.tx_key }
    }

    /// Whether these are the keys that the initiating side derives.
    pub open spec fn derived_from(self, master_secret: Seq<u8>, salt: Seq<u8>) -> bool {
        &&& self.tx_key@ == hkdf_sha256(salt, master_secret, HKDF_TX_LABEL@)
        &&& self.rx_key@ == hkdf_sha256(salt, master_secret, HKDF_RX_LABEL@)
    }

    /// Session keys of a master secret under the standard salt.
    pub fn new(master_secret: &[u8]) -> (r: Self)
        ensures
            r.derived_from(master_secret@, HKDF_SALT@),
    {
        let (tx_key, rx_key) = derive_keys_default(master_secret);
        SessionKeys { tx_key, rx_key }
    }

    /// Session keys of a master secret under a given salt.
    pub fn new_with_salt(master_secret: &[u8], salt: &[u8]) -> (r: Self)
        ensures
            r.derived_from(master_secret@, salt@),
    {
        let (tx_key, rx_key) = derive_keys(master_secret, salt);
        SessionKeys { tx_key, rx_key }
    }

    /// Key for outgoing frames.
    pub fn tx_key(&self) -> (r: &AeadKey)
        ensures
            *r == self.tx_key,
    {
        &self.tx_key
    }

    /// Key for incoming frames.
    pub fn rx_key(&self) -> (r: &AeadKey)
        ensures
            *r == self.rx_key,
    {
        &self.rx_key
    }

    /// Exchanges the two keys.
    pub fn swap(&mut self)
        ensures
            *final(self) == old(self).spec_swapped(),
    {
        let tx_key = self.tx_key;
        self.tx_key = self.rx_key;
        self.rx_key = tx_key;
    }

    /// The keys as the peer holds them.
    pub fn swapped(&self) -> (r: Self)
        ensures
            r == self.spec_swapped(),
    {
        SessionKeys { tx_key: self.rx_key, rx_key: self.tx_key }
    }

    /// Overwrites both keys with zeros.
    pub fn zeroize(&mut self)
        ensures
            forall|i: int| 0 <= i < AEAD_KEY_SIZE ==> final(self).tx_key@[i] == 0,
            forall|i: int| 0 <= i < AEAD_KEY_SIZE ==> final(self).rx_key@[i] == 0,
        opens_invariants none
        no_unwind
    {
        wipe(&mut self.tx_key);
        wipe(&mut self.rx_key);
    }
}

/// Keys are overwritten with zeros when they go.
impl Drop for SessionKeys {
    fn drop(&mut self)
        ensures
            forall|i: int| 0 <= i < AEAD_KEY_SIZE ==> final(self).tx_key@[i] == 0,
            forall|i: int| 0 <= i < AEAD_KEY_SIZE ==> final(self).rx_key@[i] == 0,
        opens_invariants none
        no_unwind
    {
        self.zeroize();
    }
}

/// Exchanging the keys twice gives them back.
pub proof fn swapping_twice_is_identity(keys: SessionKeys)
    ensures
        keys.spec_swapped().spec_swapped() == keys,
{
}

/// When both sides derive from the same secret and salt and one of them swaps,
/// each side receives with the key that the other one sends with.
pub proof fn peers_mirror_each_other(
    client: SessionKeys,
    server: SessionKeys,
    master_secret: Seq<u8>,
    salt: Seq<u8>,
)
    requires
        client.derived_from(master_secret, salt),
        server.spec_swapped().derived_from(master_secret, salt),
    ensures
        client.tx_key@ == server.rx_key@,
        client.rx_key@ == server.tx_key@,
{
}

/// The side that derives sends under the key with the label `tx` and receives under the one
/// with the label `rx`, both of the same secret and salt.
pub proof fn keys_are_told_apart_by_their_label(
    keys: SessionKeys,
    master_secret: Seq<u8>,
    salt: Seq<u8>,
)
    requires
        keys.derived_from(master_secret, salt),
    ensures
        keys.tx_key@ == hkdf_sha256(salt, master_secret, seq![116u8, 120u8]),
        keys.rx_key@ == hkdf_sha256(salt, master_secret, seq![114u8, 120u8]),
        keys.spec_swapped().tx_key == keys.rx_key,
        keys.spec_swapped().rx_key == keys.tx_key,
{
    assert(HKDF_TX_LABEL@ =~= seq![116u8, 120u8]);
    assert(HKDF_RX_LABEL@ =~= seq![114u8, 120u8]);
}

} // verus!
