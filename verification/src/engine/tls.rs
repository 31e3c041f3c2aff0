//! What TLS needs before the first byte: the server's identity, the name that a
//! client asks for, and the protocols that both sides offer.

use rustls::pki_types::{PrivateKeyDer, ServerName};
use vstd::prelude::*;
use vstd::string::*;

use crate::engine::{CoreError, CoreFault};
use crate::protocol::{ALPN_H2, ALPN_HTTP11};
use crate::text::joined;

verus! {

/// How a private key is encoded.
#[derive(Clone, Copy, Debug, PartialEq, Eq, Structural)]
pub enum KeyKind {
    Pkcs1,
    Sec1,
    Pkcs8,
}

/// A private key in DER.
pub struct PrivateKey {
    pub kind: KeyKind,
    pub der: Vec<u8>,
}

/// Mathematical counterpart of [`PrivateKey`].
pub struct KeyModel {
    pub kind: KeyKind,
    pub der: Seq<u8>,
}

impl View for PrivateKey {
    type V = KeyModel;

    open spec fn view(&self) -> KeyModel {
        KeyModel { kind: self.kind, der: self.der@ }
    }
}

/// The certificates of a PEM text in DER, or why it cannot be read.
pub uninterp spec fn pem_certs(pem: Seq<u8>) -> Result<Seq<Seq<u8>>, Seq<char>>;

/// The first private key of a PEM text, if there is one, or why it cannot be read.
pub uninterp spec fn pem_key(pem: Seq<u8>) -> Result<Option<KeyModel>, Seq<char>>;

/// The name that a TLS client asks for when it connects to a host, or why the host
/// has none.
pub uninterp spec fn tls_name(host: Seq<char>) -> Result<Seq<char>, Seq<char>>;

/// The bytes of each certificate.
pub open spec fn ders(certs: Seq<Vec<u8>>) -> Seq<Seq<u8>> {
    certs.map_values(|c: Vec<u8>| c@)
}

/// What reading certificates came to.
pub open spec fn certs_read(r: Result<Vec<Vec<u8>>, String>) -> Result<Seq<Seq<u8>>, Seq<char>> {
    match r {
        Ok(certs) => Ok(ders(certs@)),
        Err(why) => Err(why@),
    }
}

/// What reading a private key came to.
pub open spec fn key_read(r: Result<Option<PrivateKey>, String>) -> Result<
    Option<KeyModel>,
    Seq<char>,
> {
    match r {
        Ok(Some(key)) => Ok(Some(key@)),
        Ok(None) => Ok(None),
        Err(why) => Err(why@),
    }
}

/// Collects what `rustls_pemfile::certs` yields; an error is returned as its text.
///
/// Claimed of it: the outcome depends on the PEM text alone.
#[verifier::external_body]
fn read_certs(pem: &[u8]) -> (r: Result<Vec<Vec<u8>>, String>)
    ensures
        certs_read(r) == pem_certs(pem@),
{
    rustls_pemfile::certs(&mut &pem[..])
        .map(|cert| cert.map(|der| der.to_vec()).map_err(|e| e.to_string()))
        .collect()
}

/// Calls `rustls_pemfile::private_key`; an error is returned as its text.
///
/// Claimed of it: the outcome depends on the PEM text alone. A key is PKCS#1, SEC1
/// or PKCS#8; the crate knows no other.
#[verifier::external_body]
fn read_key(pem: &[u8]) -> (r: Result<Option<PrivateKey>, String>)
    ensures
        key_read(r) == pem_key(pem@),
{
    let found = rustls_pemfile::private_key(&mut &pem[..]).map_err(|e| e.to_string())?;
    Ok(found.map(|key| {
        let kind = match &key {
            PrivateKeyDer::Pkcs1(_) => KeyKind::Pkcs1,
            PrivateKeyDer::Sec1(_) => KeyKind::Sec1,
            _ => KeyKind::Pkcs8,
        };
        PrivateKey { kind, der: key.secret_der().to_vec() }
    }))
}

/// Calls `ServerName::try_from` and writes the name with `to_str`; an error is
/// returned as its text.
///
/// Claimed of them: the outcome depends on the host alone.
#[verifier::external_body]
fn read_name(host: &str) -> (r: Result<String, String>)
    ensures
        match (r, tls_name(host@)) {
            (Ok(s), Ok(m)) => s@ == m,
            (Err(why), Err(m)) => why@ == m,
            _ => false,
        },
{
    ServerName::try_from(host).map(|n| n.to_str().into_owned()).map_err(|e| e.to_string())
}

/// The identity that certificates and a key make up, or what is wrong with them. The
/// certificates are looked at first.
pub open spec fn identity_of(
    certs: Result<Seq<Seq<u8>>, Seq<char>>,
    key: Result<Option<KeyModel>, Seq<char>>,
) -> Result<(Seq<Seq<u8>>, KeyModel), CoreFault> {
    match certs {
        Err(why) => Err(CoreFault::TlsError("bad cert pem: "@ + why)),
        Ok(chain) => if chain.len() == 0 {
            Err(CoreFault::TlsError("empty cert chain"@))
        } else {
            match key {
                Err(why) => Err(CoreFault::TlsError("bad key pem: "@ + why)),
                Ok(None) => Err(CoreFault::TlsError("no private key found"@)),
                Ok(Some(key)) => Ok((chain, key)),
            }
        },
    }
}

/// The identity that certificates and a key make up.
pub fn identity(
    certs: Result<Vec<Vec<u8>>, String>,
    key: Result<Option<PrivateKey>, String>,
) -> (r: Result<(Vec<Vec<u8>>, PrivateKey), CoreError>)
    ensures
        match (r, identity_of(certs_read(certs), key_read(key))) {
            (Ok(v), Ok(m)) => ders(v.0@) == m.0 && v.1@ == m.1,
            (Err(e), Err(fault)) => e@ == fault,
            _ => false,
        },
{
    let chain = match certs {
        Ok(chain) => chain,
        Err(why) => {
            return Err(CoreError::TlsError(joined("bad cert pem: ", why.as_str())));
        },
    };
    if chain.len() == 0 {
        return Err(CoreError::TlsError("empty cert chain".to_owned()));
    }
    match key {
        Err(why) => Err(CoreError::TlsError(joined("bad key pem: ", why.as_str()))),
        Ok(None) => Err(CoreError::TlsError("no private key found".to_owned())),
        Ok(Some(key)) => Ok((chain, key)),
    }
}

/// Reads the certificate chain and the private key of a server, both in PEM.
pub fn load_cert_key(cert_pem: &[u8], key_pem: &[u8]) -> (r: Result<
    (Vec<Vec<u8>>, PrivateKey),
    CoreError,
>)
    ensures
        match (r, identity_of(pem_certs(cert_pem@), pem_key(key_pem@))) {
            (Ok(v), Ok(m)) => ders(v.0@) == m.0 && v.1@ == m.1,
            (Err(e), Err(fault)) => e@ == fault,
            _ => false,
        },
{
    identity(read_certs(cert_pem), read_key(key_pem))
}

/// The name that a client asks for, by what the host was read as.
pub fn named(name: Result<String, String>) -> (r: Result<String, CoreError>)
    ensures
        match (r, name) {
            (Ok(s), Ok(n)) => s == n,
            (Err(e), Err(why)) => e@ == CoreFault::TlsError("bad sni: "@ + why@),
            _ => false,
        },
{
    match name {
        Ok(n) => Ok(n),
        Err(why) => Err(CoreError::TlsError(joined("bad sni: ", why.as_str()))),
    }
}

/// The name that a client asks for when it connects to a host.
pub fn server_name(host: &str) -> (r: Result<String, CoreError>)
    ensures
        match (r, tls_name(host@)) {
            (Ok(s), Ok(m)) => s@ == m,
            (Err(e), Err(why)) => e@ == CoreFault::TlsError("bad sni: "@ + why),
            _ => false,
        },
{
    named(read_name(host))
}

/// Checks what the system's trust store gave: `failure` is the first thing that went
/// wrong there. A store that gave some roots is good enough.
pub fn check_roots(found: usize, failure: Option<&str>) -> (r: Result<(), CoreError>)
    ensures
        match (r, failure) {
            (Ok(_), Some(_)) => found > 0,
            (Ok(_), None) => true,
            (Err(e), Some(why)) => found == 0 && e@ == CoreFault::TlsError(
                "native roots: "@ + why@,
            ),
            (Err(_), None) => false,
        },
{
    match failure {
        Some(why) => if found == 0 {
            Err(CoreError::TlsError(joined("native roots: ", why)))
        } else {
            Ok(())
        },
        None => Ok(()),
    }
}

/// The protocols that both sides offer, the preferred one first.
pub fn alpn_protocols() -> (r: Vec<Vec<u8>>)
    ensures
        ders(r@) == seq![ALPN_H2@, ALPN_HTTP11@],
{
    let h2 = vstd::slice::slice_to_vec(ALPN_H2.as_slice());
    let http11 = vstd::slice::slice_to_vec(ALPN_HTTP11.as_slice());
    let mut r: Vec<Vec<u8>> = Vec::new();
    r.push(h2);
    r.push(http11);
    assert(ders(r@) =~= seq![ALPN_H2@, ALPN_HTTP11@]);
    r
}

/// An identity is the whole chain and the key that were read; without a certificate or without
/// a key there is none.
pub proof fn identities_have_a_chain_and_a_key(
    certs: Result<Seq<Seq<u8>>, Seq<char>>,
    key: Result<Option<KeyModel>, Seq<char>>,
)
    ensures
        match identity_of(certs, key) {
            Ok((chain, private)) => {
                &&& certs == Ok::<Seq<Seq<u8>>, Seq<char>>(chain)
                &&& chain.len() > 0
                &&& key == Ok::<Option<KeyModel>, Seq<char>>(Some(private))
            },
            Err(fault) => fault is TlsError && (certs is Err || certs->Ok_0.len() == 0
                || key is Err || key->Ok_0 is None),
        },
{
}

} // verus!
