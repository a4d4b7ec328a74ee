//! Content digests of files, by SHA-512.

use sha2::Digest;
use vstd::prelude::*;

verus! {

/// The SHA-512 digest of the bytes.
pub uninterp spec fn sha512_of(data: Seq<u8>) -> Seq<u8>;

/// Calls `sha2::Sha512::new`, `update` with the bytes, and `finalize`. States that
/// the result is the digest named `sha512_of` of the bytes, 64 bytes long (the
/// output size of SHA-512); the digest itself is not spelled out.
#[verifier::external_body]
fn sha512_digest(data: &[u8]) -> (r: Vec<u8>)
    ensures
        r@ == sha512_of(data@),
        r@.len() == 64,
{
    let mut hasher = sha2::Sha512::new();
    hasher.update(data);
    hasher.finalize().to_vec()
}

/// The key by which PNG files are grouped: the SHA-512 digest of their contents.
pub fn png_key(data: &[u8]) -> (r: Vec<u8>)
    ensures
        r@ == sha512_of(data@),
        r@.len() == 64,
{
    sha512_digest(data)
}

} // verus!
