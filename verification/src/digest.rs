//! SHA-256 digests in lower-case hexadecimal.

use vstd::prelude::*;

verus! {

/// The SHA-256 digest of `data`, written as hexadecimal text.
pub uninterp spec fn sha256_hex(data: Seq<u8>) -> Seq<char>;

/// The number of characters of a SHA-256 digest in hexadecimal.
pub open spec fn digest_len() -> nat {
    64
}

/// Calls `crypto_hash::hex_digest` with `Algorithm::SHA256`.
///
/// Trusted: the text returned is the hexadecimal SHA-256 digest of `data`,
/// which depends on the bytes of `data` and on nothing else; and it has 64
/// characters, two hexadecimal digits for each of the 32 bytes of a
/// SHA-256 digest.
#[verifier::external_body]
pub(crate) fn sha256_hex_digest(data: &[u8]) -> (digest: String)
    ensures
        digest@ == sha256_hex(data@),
        digest@.len() == digest_len(),
{
    crypto_hash::hex_digest(crypto_hash::Algorithm::SHA256, data)
}

} // verus!
