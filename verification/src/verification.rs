//! Trust-on-first-use verification of a peer certificate.
//!
//! The certificate travels as its DER bytes.  Verification first checks the
//! cryptographic binding to the requested hostname and the validity window
//! — both must pass even on first contact — then pins or compares the
//! SHA-256 fingerprint in the trust store.  A fingerprint mismatch is a
//! `Conflict` and writes nothing; it must block the request unless the
//! caller explicitly overrides.  A verification holds the store exclusively,
//! so two first contacts for one hostname cannot race.

use vstd::prelude::*;

use crate::error::Error;
use crate::store::{tofu_spec, CertV, TrustStore};
use crate::text::str_eq;
use crate::urls::{host_of_url, url_host};

verus! {

/// The trust state of one verification, relative to the store.
#[derive(Debug, Clone, Copy, PartialEq, Eq, Structural)]
pub enum State {
    New,
    Matched,
    Conflict,
}

/// The SHA-256 digest of a byte sequence.
pub uninterp spec fn sha256_of(data: Seq<u8>) -> Seq<u8>;

/// Relies on sha2's `Sha256::digest`: the digest is 32 bytes and depends on
/// the input bytes alone.
#[verifier::external_body]
fn sha256(data: &[u8]) -> (r: Vec<u8>)
    ensures
        r@ == sha256_of(data@),
        r@.len() == 32,
{
    <sha2::Sha256 as sha2::digest::Digest>::digest(data).to_vec()
}

/// A lower-case hex digit.
pub open spec fn hex_digit(n: u8) -> char {
    if n < 10 {
        (48 + n) as char
    } else {
        (87 + n) as char
    }
}

/// Lower-case hex encoding: two digits per byte, high nibble first.
pub open spec fn hex_lower_of(data: Seq<u8>) -> Seq<char> {
    Seq::new(
        2 * data.len(),
        |i: int|
            if i % 2 == 0 {
                hex_digit(data[i / 2] / 16)
            } else {
                hex_digit(data[i / 2] % 16)
            },
    )
}

/// Relies on base16ct's `lower::encode_string`: two lower-case hex digits
/// per byte, high nibble first.
#[verifier::external_body]
fn hex_encode(data: &[u8]) -> (r: String)
    requires
        data@.len() <= usize::MAX / 2,
    ensures
        r@ == hex_lower_of(data@),
{
    base16ct::lower::encode_string(data)
}

/// The fingerprint of a certificate: lower-case hex of the SHA-256 digest
/// of its DER encoding.
pub open spec fn fingerprint_of(der: Seq<u8>) -> Seq<char> {
    hex_lower_of(sha256_of(der))
}

/// Computes the fingerprint of a DER-encoded certificate.
pub fn create_fingerprint(der: &[u8]) -> (r: String)
    ensures
        r@ == fingerprint_of(der@),
{
    let digest = sha256(der);
    hex_encode(digest.as_slice())
}

/// Hashing the same DER bytes always yields the same fingerprint.
pub proof fn lemma_fingerprint_deterministic(d1: Seq<u8>, d2: Seq<u8>)
    requires
        d1 == d2,
    ensures
        fingerprint_of(d1) == fingerprint_of(d2),
{
}

/// Whether the end-entity certificate in some DER bytes is validly bound to
/// a hostname.
pub uninterp spec fn cert_matches_host(der: Seq<u8>, host: Seq<char>) -> bool;

/// Relies on webpki's `DnsNameRef::try_from_ascii_str`,
/// `EndEntityCert::try_from` and
/// `EndEntityCert::verify_is_valid_for_dns_name`: whether the certificate in
/// `der` is valid for `host` depends on the two values alone.  Any failure
/// along the way counts as not valid.
#[verifier::external_body]
fn verify_dns_name(der: &[u8], host: &str) -> (r: bool)
    ensures
        r == cert_matches_host(der@, host@),
{
    let name = match webpki::DnsNameRef::try_from_ascii_str(host) {
        Ok(n) => n,
        Err(_) => return false,
    };
    let cert = match webpki::EndEntityCert::try_from(der) {
        Ok(c) => c,
        Err(_) => return false,
    };
    cert.verify_is_valid_for_dns_name(name).is_ok()
}

/// The validity window of the certificate in some DER bytes, as unix
/// seconds; `None` when the bytes do not parse as a certificate.
pub uninterp spec fn validity_window_of(der: Seq<u8>) -> Option<(int, int)>;

/// Relies on x509-parser's `parse_x509_certificate` and
/// `ASN1Time::timestamp`: the not-before and not-after instants of the
/// certificate depend on the DER bytes alone.
#[verifier::external_body]
fn cert_validity_window(der: &[u8]) -> (r: Option<(i64, i64)>)
    ensures
        match r {
            Some(w) => validity_window_of(der@) == Some((w.0 as int, w.1 as int)),
            None => validity_window_of(der@) is None,
        },
{
    match x509_parser::parse_x509_certificate(der) {
        Ok((_, cert)) => {
            let v = cert.validity();
            Some((v.not_before.timestamp(), v.not_after.timestamp()))
        },
        Err(_) => None,
    }
}

/// The DER bytes of an optional certificate.
pub open spec fn opt_bytes(c: Option<&Vec<u8>>) -> Option<Seq<u8>> {
    match c {
        Some(v) => Some(v@),
        None => None,
    }
}

/// What one verification decides and what it does to the store, step by
/// step: a certificate must be present; it must be bound to the URL's host;
/// its validity window must contain `now`; only then does the
/// trust-on-first-use rule run on its fingerprint.
pub open spec fn verify_spec(s: Seq<CertV>, cert: Option<Seq<u8>>, url: Seq<char>, now: int) -> (
    Result<State, Error>,
    Seq<CertV>,
) {
    match cert {
        None => (Err(Error::NoPeerCertificate), s),
        Some(der) => match host_of_url(url) {
            None => (Err(Error::CertificateInvalid), s),
            Some(host) => if !cert_matches_host(der, host) {
                (Err(Error::CertificateInvalid), s)
            } else {
                match validity_window_of(der) {
                    None => (Err(Error::CertificateInvalid), s),
                    Some(w) => if now < w.0 {
                        (Err(Error::CertificateNotYetValid), s)
                    } else if now > w.1 {
                        (Err(Error::CertificateExpired), s)
                    } else {
                        let t = tofu_spec(s, host, fingerprint_of(der), now);
                        (Ok(t.0), t.1)
                    },
                }
            },
        },
    }
}

/// The single capability a client needs from a trust policy.
pub trait Verifier {
    /// The policy's own invariant, preserved across verifications.
    spec fn inv(&self) -> bool;

    /// Decides the trust state of the certificate a connection to `url`
    /// presented, at time `now` in unix seconds.
    fn verify(&mut self, certificate: Option<&Vec<u8>>, url: &str, now: i64) -> (r: Result<
        State,
        Error,
    >)
        requires
            old(self).inv(),
        ensures
            final(self).inv(),
    ;
}

/// The trust-on-first-use policy over a [`TrustStore`].
#[derive(Debug)]
pub struct TofuVerifier {
    db: TrustStore,
}

impl TofuVerifier {
    /// The records of the underlying store.
    pub closed spec fn store_view(&self) -> Seq<CertV> {
        self.db@
    }

    /// The store's invariant: hostnames are unique.
    pub open spec fn wf(&self) -> bool {
        crate::store::store_wf(self.store_view())
    }

    pub fn new(db: TrustStore) -> (r: Self)
        ensures
            r.store_view() == db@,
            db.wf() ==> r.wf(),
    {
        Self { db }
    }

    /// The underlying store, for hosts that persist it.
    pub fn store(&self) -> (r: &TrustStore)
        ensures
            r@ == self.store_view(),
    {
        &self.db
    }

    /// Runs one trust-on-first-use verification; see [`verify_spec`] for
    /// the exact decision.
    pub fn verify_tofu(&mut self, certificate: Option<&Vec<u8>>, url: &str, now: i64) -> (r:
        Result<State, Error>)
        requires
            old(self).wf(),
        ensures
            final(self).wf(),
            verify_spec(old(self).store_view(), opt_bytes(certificate), url@, now as int) == (
                r,
                final(self).store_view(),
            ),
    {
        let der = match certificate {
            Some(d) => d,
            None => {
                return Err(Error::NoPeerCertificate);
            },
        };
        let host = match url_host(url) {
            Some(h) => h,
            None => {
                return Err(Error::CertificateInvalid);
            },
        };
        if !verify_dns_name(der.as_slice(), host.as_str()) {
            return Err(Error::CertificateInvalid);
        }
        let window = match cert_validity_window(der.as_slice()) {
            Some(w) => w,
            None => {
                return Err(Error::CertificateInvalid);
            },
        };
        if now < window.0 {
            return Err(Error::CertificateNotYetValid);
        }
        if now > window.1 {
            return Err(Error::CertificateExpired);
        }
        let fingerprint = create_fingerprint(der.as_slice());
        match self.db.get_certificate(host.as_str()) {
            Some(existing) => {
                if str_eq(fingerprint.as_str(), existing.fingerprint.as_str()) {
                    self.db.update_certificate_timestamp(host.as_str(), now);
                    Ok(State::Matched)
                } else {
                    Ok(State::Conflict)
                }
            },
            None => {
                self.db.insert_certificate(host.as_str(), fingerprint.as_str(), now);
                Ok(State::New)
            },
        }
    }
}

impl Verifier for TofuVerifier {
    open spec fn inv(&self) -> bool {
        self.wf()
    }

    fn verify(&mut self, certificate: Option<&Vec<u8>>, url: &str, now: i64) -> (r: Result<
        State,
        Error,
    >) {
        self.verify_tofu(certificate, url, now)
    }
}

} // verus!
