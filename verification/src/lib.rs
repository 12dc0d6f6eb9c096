//! Conversion of RSA public keys from the X.509 `SubjectPublicKeyInfo`
//! form (PEM-armored or raw DER) into the single-line OpenSSH
//! `authorized_keys` representation.

pub mod b64;
pub mod bytes;
pub mod der;
pub mod pem;
pub mod roundtrip;
pub mod ssh;

pub use crate::pem::pem_to_der;
pub use crate::ssh::der_to_openssh;

use vstd::prelude::*;

verus! {

/// The ways a conversion can fail. Every failure is fatal to the
/// enclosing call; the library never recovers or retries.
#[derive(Debug, Clone, Copy, PartialEq, Eq, Structural)]
pub enum Error {
    /// Failure of an underlying byte source or sink.
    Io,
    /// The PEM body is not valid base64.
    Base64Decode,
    /// The DER does not match the expected `SubjectPublicKeyInfo` grammar.
    DerParse,
    /// The DER parsed, but the algorithm OID is not the RSA-encryption OID.
    UnsupportedAlgorithm,
}

} // verus!
