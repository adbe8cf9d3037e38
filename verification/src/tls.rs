//! The certificates and the key with which the relay speaks TLS.

use crate::bytes::byte_views;
use tokio_rustls::rustls::pki_types::PrivateKeyDer;
use vstd::prelude::*;

verus! {

/// How a private key is encoded.
#[derive(Debug, Clone, Copy, PartialEq, Eq, Structural)]
pub enum KeyKind {
    Pkcs1,
    Sec1,
    Pkcs8,
}

/// A private key.
#[derive(Debug)]
pub struct PemKey {
    pub kind: KeyKind,
    pub der: Vec<u8>,
}

/// Why there are no certificates or there is no key.
#[derive(Debug, Clone, Copy, PartialEq, Eq, Structural)]
pub enum TlsError {
    /// The certificate file is damaged.
    BadCertificates,
    /// There are no certificates in the file.
    NoCertificates,
    /// The key file is damaged.
    BadKey,
    /// There is no key in the file.
    NoKey,
}

/// The certificates that `rustls_pemfile::certs` finds in a file, unless it is damaged.
pub uninterp spec fn pem_certificates(file: Seq<u8>) -> Option<Seq<Seq<u8>>>;

/// The key that `rustls_pemfile::private_key` finds in a file, if any, unless it is
/// damaged.
pub uninterp spec fn pem_private_key(file: Seq<u8>) -> Option<Option<(KeyKind, Seq<u8>)>>;

/// What an optional list of runs of bytes holds.
pub open spec fn list_of(list: Option<Vec<Vec<u8>>>) -> Option<Seq<Seq<u8>>> {
    match list {
        Some(v) => Some(byte_views(v@)),
        None => None,
    }
}

/// What a key that was looked for holds.
pub open spec fn key_view(key: Option<Option<PemKey>>) -> Option<Option<(KeyKind, Seq<u8>)>> {
    match key {
        Some(Some(k)) => Some(Some((k.kind, k.der@))),
        Some(None) => Some(None),
        None => None,
    }
}

/// Wraps `rustls_pemfile::certs`, over the bytes of a file: the certificates, in order,
/// or nothing if one of the file's sections cannot be read. What they are is a function
/// of the bytes alone, and named `pem_certificates`.
#[verifier::external_body]
fn read_certificates(file: &[u8]) -> (r: Option<Vec<Vec<u8>>>)
    ensures
        list_of(r) == pem_certificates(file@),
{
    let mut rest: &[u8] = file;
    rustls_pemfile::certs(&mut rest).map(|c| c.map(|der| der.to_vec()).ok()).collect()
}

/// Wraps `rustls_pemfile::private_key`, over the bytes of a file: the first key, if there
/// is one, or nothing if a section before it cannot be read, or the key is of none of the
/// three kinds. What it is is a function of the bytes alone, and named `pem_private_key`.
#[verifier::external_body]
fn read_private_key(file: &[u8]) -> (r: Option<Option<PemKey>>)
    ensures
        key_view(r) == pem_private_key(file@),
{
    let mut rest: &[u8] = file;
    match rustls_pemfile::private_key(&mut rest).ok()? {
        None => Some(None),
        Some(PrivateKeyDer::Pkcs1(d)) => Some(
            Some(PemKey { kind: KeyKind::Pkcs1, der: d.secret_pkcs1_der().to_vec() }),
        ),
        Some(PrivateKeyDer::Sec1(d)) => Some(
            Some(PemKey { kind: KeyKind::Sec1, der: d.secret_sec1_der().to_vec() }),
        ),
        Some(PrivateKeyDer::Pkcs8(d)) => Some(
            Some(PemKey { kind: KeyKind::Pkcs8, der: d.secret_pkcs8_der().to_vec() }),
        ),
        Some(_) => None,
    }
}

/// What is made of the certificates found in a file.
pub open spec fn certificates_verdict(found: Option<Seq<Seq<u8>>>) -> Result<Seq<Seq<u8>>, TlsError> {
    match found {
        None => Err(TlsError::BadCertificates),
        Some(list) => if list.len() == 0 {
            Err(TlsError::NoCertificates)
        } else {
            Ok(list)
        },
    }
}

/// What is made of the key found in a file.
pub open spec fn key_verdict(
    found: Option<Option<(KeyKind, Seq<u8>)>>,
) -> Result<(KeyKind, Seq<u8>), TlsError> {
    match found {
        None => Err(TlsError::BadKey),
        Some(None) => Err(TlsError::NoKey),
        Some(Some(key)) => Ok(key),
    }
}

/// What a result with certificates holds.
pub open spec fn certificates_view(r: Result<Vec<Vec<u8>>, TlsError>) -> Result<
    Seq<Seq<u8>>,
    TlsError,
> {
    match r {
        Ok(v) => Ok(byte_views(v@)),
        Err(e) => Err(e),
    }
}

/// What a result with a key holds.
pub open spec fn key_result_view(r: Result<PemKey, TlsError>) -> Result<
    (KeyKind, Seq<u8>),
    TlsError,
> {
    match r {
        Ok(k) => Ok((k.kind, k.der@)),
        Err(e) => Err(e),
    }
}

/// What is made of the certificates found in a file: there must be some.
pub fn accept_certificates(found: Option<Vec<Vec<u8>>>) -> (r: Result<Vec<Vec<u8>>, TlsError>)
    ensures
        certificates_view(r) == certificates_verdict(list_of(found)),
{
    match found {
        None => Err(TlsError::BadCertificates),
        Some(list) => if list.len() == 0 {
            Err(TlsError::NoCertificates)
        } else {
            Ok(list)
        },
    }
}

/// What is made of the key found in a file: there must be one.
pub fn accept_key(found: Option<Option<PemKey>>) -> (r: Result<PemKey, TlsError>)
    ensures
        key_result_view(r) == key_verdict(key_view(found)),
{
    match found {
        None => Err(TlsError::BadKey),
        Some(None) => Err(TlsError::NoKey),
        Some(Some(key)) => Ok(key),
    }
}

/// The certificates in a PEM file.
pub fn load_certificates(file: &[u8]) -> (r: Result<Vec<Vec<u8>>, TlsError>)
    ensures
        certificates_view(r) == certificates_verdict(pem_certificates(file@)),
{
    accept_certificates(read_certificates(file))
}

/// The private key in a PEM file.
pub fn load_key(file: &[u8]) -> (r: Result<PemKey, TlsError>)
    ensures
        key_result_view(r) == key_verdict(pem_private_key(file@)),
{
    accept_key(read_private_key(file))
}

/// A damaged file and an empty one are told apart, for certificates and for keys; anything
/// else is taken as it was found.
pub proof fn law_verdicts(list: Seq<Seq<u8>>, key: (KeyKind, Seq<u8>))
    ensures
        certificates_verdict(None) == Err::<Seq<Seq<u8>>, TlsError>(TlsError::BadCertificates),
        certificates_verdict(Some(Seq::empty())) == Err::<Seq<Seq<u8>>, TlsError>(
            TlsError::NoCertificates,
        ),
        list.len() > 0 ==> certificates_verdict(Some(list)) == Ok::<Seq<Seq<u8>>, TlsError>(list),
        key_verdict(None) == Err::<(KeyKind, Seq<u8>), TlsError>(TlsError::BadKey),
        key_verdict(Some(None)) == Err::<(KeyKind, Seq<u8>), TlsError>(TlsError::NoKey),
        key_verdict(Some(Some(key))) == Ok::<(KeyKind, Seq<u8>), TlsError>(key),
{
}

} // verus!
