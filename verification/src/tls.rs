//! Where the HTTPS certificate comes from.  HTTPS is optional (browsers
//! treat loopback as a secure context), but the daemon listens on 44951 for
//! parity with the macOS agent: with the configured PEM files when both are
//! given, with a freshly generated self-signed certificate otherwise.

use vstd::prelude::*;
use crate::text::string_from_chars;

verus! {

#[verifier::external_type_specification]
#[verifier::external_body]
pub struct ExCertifiedKey(rcgen::CertifiedKey);

#[verifier::external_type_specification]
#[verifier::external_body]
pub struct ExRcgenError(rcgen::Error);

/// The certificate to serve.
pub enum TlsSource {
    /// Load the certificate and key from these PEM files.
    PemFiles { cert: Vec<u8>, key: Vec<u8> },
    /// Generate a self-signed certificate.
    SelfSigned,
}

/// The configured files when both are set; a self-signed certificate otherwise.
pub fn tls_source(cert: Option<Vec<u8>>, key: Option<Vec<u8>>) -> (src: TlsSource)
    ensures
        match (cert, key) {
            (Some(c), Some(k)) => src matches TlsSource::PemFiles { cert: sc, key: sk } && sc@ == c@
                && sk@ == k@,
            _ => src is SelfSigned,
        },
{
    match (cert, key) {
        (Some(c), Some(k)) => TlsSource::PemFiles { cert: c, key: k },
        _ => TlsSource::SelfSigned,
    }
}

pub open spec fn localhost() -> Seq<char> {
    seq!['l', 'o', 'c', 'a', 'l', 'h', 'o', 's', 't']
}

pub open spec fn loopback_ip() -> Seq<char> {
    seq!['1', '2', '7', '.', '0', '.', '0', '.', '1']
}

/// The names the self-signed certificate is issued for: localhost and 127.0.0.1.
pub fn self_signed_names() -> (names: Vec<String>)
    ensures
        names@.len() == 2,
        names@[0]@ == localhost(),
        names@[1]@ == loopback_ip(),
{
    let a = vec!['l', 'o', 'c', 'a', 'l', 'h', 'o', 's', 't'];
    let b = vec!['1', '2', '7', '.', '0', '.', '0', '.', '1'];
    assert(a@ =~= localhost());
    assert(b@ =~= loopback_ip());
    let mut names: Vec<String> = Vec::new();
    names.push(string_from_chars(&a));
    names.push(string_from_chars(&b));
    names
}

/// `rcgen::generate_simple_self_signed`: a new key pair and a certificate
/// for the given subject alternative names, signed by that key.  The key is
/// random, so nothing is stated of the result.
#[verifier::external_body]
fn generate_simple_self_signed(names: Vec<String>) -> Result<rcgen::CertifiedKey, rcgen::Error> {
    rcgen::generate_simple_self_signed(names)
}

pub open spec fn begins_with(s: Seq<char>, prefix: Seq<char>) -> bool {
    prefix.len() <= s.len() && s.take(prefix.len() as int) == prefix
}

pub open spec fn ends_with(s: Seq<char>, suffix: Seq<char>) -> bool {
    suffix.len() <= s.len() && s.skip(s.len() - suffix.len()) == suffix
}

/// A PEM block with this label: it opens with `-----BEGIN <label>-----` and
/// closes with `-----END <label>-----` and a line ending (`\n`, or `\r\n`
/// on Windows).
pub open spec fn pem_block(s: Seq<char>, label: Seq<char>) -> bool {
    &&& begins_with(s, "-----BEGIN "@ + label + "-----"@)
    &&& ends_with(s, "-----END "@ + label + "-----\n"@) || ends_with(
        s,
        "-----END "@ + label + "-----\r\n"@,
    )
}

/// `rcgen::Certificate::pem`: the certificate as a PEM block labelled
/// CERTIFICATE (`pem::encode_config` writes the BEGIN line first and the END
/// line last).  Its base64 body encodes a DER certificate that depends on a
/// random key, so nothing is stated of it.
#[verifier::external_body]
fn certificate_pem(ck: &rcgen::CertifiedKey) -> (pem: String)
    ensures
        pem_block(pem@, "CERTIFICATE"@),
{
    ck.cert.pem()
}

/// `rcgen::KeyPair::serialize_pem`: the private key as a PEM block labelled
/// PRIVATE KEY; its body, the random key, is not stated.
#[verifier::external_body]
fn key_pair_pem(ck: &rcgen::CertifiedKey) -> (pem: String)
    ensures
        pem_block(pem@, "PRIVATE KEY"@),
{
    ck.key_pair.serialize_pem()
}

/// Why no certificate could be made.
pub enum TlsError {
    /// The certificate generator failed.
    Generation,
}

/// A new self-signed certificate for localhost and 127.0.0.1, as
/// (certificate PEM, private key PEM).  Whether generation succeeds is the
/// generator's to decide.
pub fn generate_self_signed() -> (res: Result<(String, String), TlsError>)
    ensures
        res matches Ok((cert, key)) ==> pem_block(cert@, "CERTIFICATE"@) && pem_block(
            key@,
            "PRIVATE KEY"@,
        ),
{
    match generate_simple_self_signed(self_signed_names()) {
        Ok(ck) => Ok((certificate_pem(&ck), key_pair_pem(&ck))),
        Err(_) => Err(TlsError::Generation),
    }
}

}
