//! Certificates and private keys read from the PEM text of their files:
//! the client's pinned server certificate and the server's certificate chain
//! and key.

use vstd::prelude::*;

verus! {

/// The DER bytes of the certificate sections of PEM text, in order, as
/// `rustls_pemfile::certs` yields them (other sections are passed over);
/// none when a section cannot be read before the text ends.
pub uninterp spec fn pem_certificates(pem: Seq<u8>) -> Option<Seq<Seq<u8>>>;

/// The first item `rustls_pemfile::pkcs8_private_keys` yields for PEM text:
/// none when the text holds no PKCS#8 key section, `Some(None)` when a
/// section cannot be read before one is found, else that key's DER bytes.
pub uninterp spec fn pem_first_pkcs8_key(pem: Seq<u8>) -> Option<Option<Seq<u8>>>;

/// The same for PKCS#1 (RSA) keys, as `rustls_pemfile::rsa_private_keys`
/// yields them.
pub uninterp spec fn pem_first_rsa_key(pem: Seq<u8>) -> Option<Option<Seq<u8>>>;

/// The byte strings held by a vector of byte vectors.
pub open spec fn byte_strings(v: Seq<Vec<u8>>) -> Seq<Seq<u8>> {
    Seq::new(v.len(), |i: int| v[i]@)
}

/// Reads every certificate of PEM text through `rustls_pemfile::certs`,
/// stopping at the first section that cannot be read.
/// The contract claims that the result is the named reading of the text:
/// the certificates' DER bytes, or none exactly when that reading failed.
#[verifier::external_body]
fn read_pem_certificates(pem: &[u8]) -> (r: Option<Vec<Vec<u8>>>)
    ensures
        match pem_certificates(pem@) {
            Some(c) => r matches Some(v) && byte_strings(v@) == c,
            None => r is None,
        },
{
    let mut reader: &[u8] = pem;
    rustls_pemfile::certs(&mut reader)
        .map(|item| item.map(|der| der.as_ref().to_vec()))
        .collect::<Result<Vec<Vec<u8>>, _>>()
        .ok()
}

/// The first item of `rustls_pemfile::pkcs8_private_keys` on PEM text.
/// The contract claims that it is the named first item, the key's DER bytes
/// taken whole.
#[verifier::external_body]
fn read_first_pkcs8_key(pem: &[u8]) -> (r: Option<Option<Vec<u8>>>)
    ensures
        match pem_first_pkcs8_key(pem@) {
            None => r is None,
            Some(None) => r == Some(None::<Vec<u8>>),
            Some(Some(k)) => r matches Some(Some(v)) && v@ == k,
        },
{
    let mut reader: &[u8] = pem;
    let first = rustls_pemfile::pkcs8_private_keys(&mut reader).next();
    match first {
        None => None,
        Some(Err(_)) => Some(None),
        Some(Ok(key)) => Some(Some(key.secret_pkcs8_der().to_vec())),
    }
}

/// The first item of `rustls_pemfile::rsa_private_keys` on PEM text.
/// The contract claims that it is the named first item, the key's DER bytes
/// taken whole.
#[verifier::external_body]
fn read_first_rsa_key(pem: &[u8]) -> (r: Option<Option<Vec<u8>>>)
    ensures
        match pem_first_rsa_key(pem@) {
            None => r is None,
            Some(None) => r == Some(None::<Vec<u8>>),
            Some(Some(k)) => r matches Some(Some(v)) && v@ == k,
        },
{
    let mut reader: &[u8] = pem;
    let first = rustls_pemfile::rsa_private_keys(&mut reader).next();
    match first {
        None => None,
        Some(Err(_)) => Some(None),
        Some(Ok(key)) => Some(Some(key.secret_pkcs1_der().to_vec())),
    }
}

/// Why certificates cannot be taken from PEM text.
#[derive(Clone, Copy, Debug, PartialEq, Eq, Structural)]
pub enum CertError {
    /// A section of the text cannot be read.
    Unparsable,
}

/// The certificates of PEM text (the client pins them as the server's
/// certificates; the server presents them as its chain), as DER bytes.
pub fn pinned_certificates(pem: &[u8]) -> (r: Result<Vec<Vec<u8>>, CertError>)
    ensures
        match pem_certificates(pem@) {
            Some(c) => r matches Ok(v) && byte_strings(v@) == c,
            None => r == Err::<Vec<Vec<u8>>, CertError>(CertError::Unparsable),
        },
{
    match read_pem_certificates(pem) {
        Some(certs) => Ok(certs),
        None => Err(CertError::Unparsable),
    }
}

/// A private key by its encoding, as DER bytes.
pub enum PrivateKey {
    Pkcs8(Vec<u8>),
    Pkcs1(Vec<u8>),
}

pub enum KeyView {
    Pkcs8(Seq<u8>),
    Pkcs1(Seq<u8>),
}

impl View for PrivateKey {
    type V = KeyView;

    open spec fn view(&self) -> KeyView {
        match self {
            PrivateKey::Pkcs8(k) => KeyView::Pkcs8(k@),
            PrivateKey::Pkcs1(k) => KeyView::Pkcs1(k@),
        }
    }
}

/// Why no private key can be taken from PEM text.
#[derive(Clone, Copy, Debug, PartialEq, Eq, Structural)]
pub enum KeyError {
    /// A section cannot be read before a key is found.
    Unparsable,
    /// The text holds no PKCS#8 and no RSA key.
    Missing,
}

/// The server's key: the first PKCS#8 key of the text; if there is none,
/// the first RSA key; if there is neither, no key.
pub open spec fn key_from_pem(pem: Seq<u8>) -> Result<KeyView, KeyError> {
    match pem_first_pkcs8_key(pem) {
        Some(Some(k)) => Ok(KeyView::Pkcs8(k)),
        Some(None) => Err(KeyError::Unparsable),
        None => match pem_first_rsa_key(pem) {
            Some(Some(k)) => Ok(KeyView::Pkcs1(k)),
            Some(None) => Err(KeyError::Unparsable),
            None => Err(KeyError::Missing),
        },
    }
}

pub fn private_key_from_pem(pem: &[u8]) -> (r: Result<PrivateKey, KeyError>)
    ensures
        match r {
            Ok(k) => key_from_pem(pem@) == Ok::<KeyView, KeyError>(k@),
            Err(e) => key_from_pem(pem@) == Err::<KeyView, KeyError>(e),
        },
{
    match read_first_pkcs8_key(pem) {
        Some(Some(k)) => Ok(PrivateKey::Pkcs8(k)),
        Some(None) => Err(KeyError::Unparsable),
        None => match read_first_rsa_key(pem) {
            Some(Some(k)) => Ok(PrivateKey::Pkcs1(k)),
            Some(None) => Err(KeyError::Unparsable),
            None => Err(KeyError::Missing),
        },
    }
}

} // verus!
