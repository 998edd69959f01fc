//! The digest of an encoded challenge: SHA3-512, computed by OpenSSL.

use vstd::prelude::*;
use crate::error::PowError;

verus! {

/// Number of bytes of a SHA3-512 digest.
pub const DIGEST_LEN: usize = 64;

/// The SHA3-512 digest of `data`.
pub uninterp spec fn sha3_512(data: Seq<u8>) -> Seq<u8>;

/// OpenSSL's error stack, which the library maps to its own error.
#[verifier::external_type_specification]
#[verifier::external_body]
pub struct ExErrorStack(openssl::error::ErrorStack);

/// Calls `openssl::hash::hash` with `MessageDigest::sha3_512()`. Where it
/// succeeds, the bytes are the SHA3-512 digest of `data`, a function of
/// `data` alone, and there are 64 of them, the size of that digest.
#[verifier::external_body]
fn openssl_sha3_512(data: &[u8]) -> (r: Result<Vec<u8>, openssl::error::ErrorStack>)
    ensures
        r matches Ok(d) ==> d@ == sha3_512(data@) && d@.len() == DIGEST_LEN,
{
    match openssl::hash::hash(openssl::hash::MessageDigest::sha3_512(), data) {
        Ok(bytes) => Ok(bytes.to_vec()),
        Err(stack) => Err(stack),
    }
}

/// The SHA3-512 digest of `data`, or `DigestUnavailable` where OpenSSL
/// reports a failure.
pub fn digest(data: &[u8]) -> (r: Result<Vec<u8>, PowError>)
    ensures
        match r {
            Ok(d) => d@ == sha3_512(data@) && d@.len() == DIGEST_LEN,
            Err(e) => e == PowError::DigestUnavailable,
        },
{
    match openssl_sha3_512(data) {
        Ok(d) => Ok(d),
        Err(_) => Err(PowError::DigestUnavailable),
    }
}

} // verus!
