//! The transport encoding of binary values: standard base64 with padding,
//! as the remote API expects key material and ciphertexts.

use vstd::prelude::*;

verus! {

/// What standard base64 decoding yields on a string: the bytes, or nothing
/// when the string is not valid base64. Decoding is a function of the
/// characters alone.
pub uninterp spec fn base64_decoded(s: Seq<char>) -> Option<Seq<u8>>;

/// Relies on base64::encode (standard alphabet, padded): the result decodes
/// back to the input bytes, four characters per three-byte group.
#[verifier::external_body]
pub(crate) fn base64_encode(bytes: &[u8]) -> (r: String)
    ensures
        base64_decoded(r@) == Some(bytes@),
        r@.len() == 4 * ((bytes@.len() + 2) / 3),
{
    base64::encode(bytes)
}

/// Relies on base64::decode: the outcome depends on the characters alone,
/// and decoding succeeds on anything base64::encode produced.
#[verifier::external_body]
pub(crate) fn base64_decode(s: &str) -> (r: Option<Vec<u8>>)
    ensures
        match r {
            Some(v) => base64_decoded(s@) == Some(v@),
            None => base64_decoded(s@) is None,
        },
{
    base64::decode(s).ok()
}

} // verus!
