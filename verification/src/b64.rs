//! Trusted boundary to the `base64` crate: standard-alphabet base64
//! with `=` padding and no line wrapping, as both the PEM body and
//! the emitted `authorized_keys` line use it.

use vstd::prelude::*;

use crate::Error;

verus! {

/// The characters `base64::encode` produces for a byte sequence: the
/// standard base64 encoding (alphabet `A-Z a-z 0-9 + /`, `=` padding,
/// no line wrapping), a pure function of the bytes.
pub uninterp spec fn b64_encode_of(b: Seq<u8>) -> Seq<char>;

/// What `base64::decode` yields for an input: the decoded bytes, or
/// nothing when the input is not valid standard base64. A pure
/// function of the input bytes.
pub uninterp spec fn b64_decode_of(s: Seq<u8>) -> Option<Seq<u8>>;

/// Relies on `base64::encode`: standard base64 of the input bytes,
/// depending on nothing but those bytes.
#[verifier::external_body]
pub(crate) fn encode_base64(b: &[u8]) -> (r: String)
    ensures
        r@ == b64_encode_of(b@),
{
    base64::encode(b)
}

/// Relies on `base64::decode`: it decodes standard base64, depending
/// on nothing but the input bytes, and fails exactly on inputs that
/// are not valid base64.
#[verifier::external_body]
pub(crate) fn decode_base64(s: &[u8]) -> (r: Result<Vec<u8>, Error>)
    ensures
        r is Ok <==> b64_decode_of(s@) is Some,
        r is Ok ==> r->Ok_0@ == b64_decode_of(s@)->Some_0,
        r is Err ==> r->Err_0 == Error::Base64Decode,
{
    match base64::decode(s) {
        Ok(v) => Ok(v),
        Err(_) => Err(Error::Base64Decode),
    }
}

} // verus!
