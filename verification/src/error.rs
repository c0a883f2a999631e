//! The library's failure taxonomy.
//!
//! Every failure is recoverable at the call site; none is retried by the
//! library.  `TrustConflict` stands apart from the rest: it reports a
//! possible impersonation, never a transient fault, and must not be resolved
//! silently.

use vstd::prelude::*;

verus! {

/// Everything that can go wrong in one fetch.
#[derive(Debug, Clone, Copy, PartialEq, Eq, Structural)]
pub enum Error {
    /// Address resolution, transport connection or handshake failed.
    ConnectError,
    /// The server presented no certificate at all.
    NoPeerCertificate,
    /// The certificate is not bound to the requested hostname.
    CertificateInvalid,
    /// The certificate's validity window has closed.
    CertificateExpired,
    /// The certificate's validity window has not opened yet.
    CertificateNotYetValid,
    /// The certificate differs from the one pinned for this hostname.
    TrustConflict,
    /// The response header does not follow the wire grammar.
    HeaderParseError,
    /// The header's metadata is not a valid value of its typed field.
    HeaderFieldInvalid,
    /// The response body is not a well-formed document.
    DocumentParseError,
    /// The trust store could not be read or written.
    StoreError,
}

impl Error {
    /// A short, stable description for hosts that show failures to a user.
    pub fn describe(&self) -> (r: &'static str)
        ensures
            r@ == match self {
                Error::ConnectError => "failed to connect"@,
                Error::NoPeerCertificate => "failed to receive peer certificate"@,
                Error::CertificateInvalid => "failed to validate certificate via dns name"@,
                Error::CertificateExpired => "certificate validity window has closed"@,
                Error::CertificateNotYetValid => "certificate validity window has not opened"@,
                Error::TrustConflict => "certificate conflict"@,
                Error::HeaderParseError => "failed to parse response header"@,
                Error::HeaderFieldInvalid => "failed to parse header metadata field"@,
                Error::DocumentParseError => "failed to parse gemini document"@,
                Error::StoreError => "failed to access the trust store"@,
            },
    {
        match self {
            Error::ConnectError => "failed to connect",
            Error::NoPeerCertificate => "failed to receive peer certificate",
            Error::CertificateInvalid => "failed to validate certificate via dns name",
            Error::CertificateExpired => "certificate validity window has closed",
            Error::CertificateNotYetValid => "certificate validity window has not opened",
            Error::TrustConflict => "certificate conflict",
            Error::HeaderParseError => "failed to parse response header",
            Error::HeaderFieldInvalid => "failed to parse header metadata field",
            Error::DocumentParseError => "failed to parse gemini document",
            Error::StoreError => "failed to access the trust store",
        }
    }
}

} // verus!
