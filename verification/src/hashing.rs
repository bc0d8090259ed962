//! Trusted bindings for the content hashes the protocol uses: BLAKE3 for
//! message digests and conversation addressing, SHA-512 for curve
//! conversion.

use vstd::prelude::*;

verus! {

/// The BLAKE3 digest of a byte string; a function of the input alone.
pub uninterp spec fn blake3_of(b: Seq<u8>) -> Seq<u8>;

/// The SHA-512 digest of a byte string; a function of the input alone.
pub uninterp spec fn sha512_of(b: Seq<u8>) -> Seq<u8>;

/// Relies on blake3::hash: a 32-byte digest of the input bytes.
#[verifier::external_body]
pub fn blake3_hash(b: &Vec<u8>) -> (r: Vec<u8>)
    ensures
        r@ == blake3_of(b@),
        r@.len() == 32,
{
    blake3::hash(b).as_bytes().to_vec()
}

/// Relies on sha2::Sha512: a 64-byte digest of the input bytes.
#[verifier::external_body]
pub fn sha512(b: &Vec<u8>) -> (r: Vec<u8>)
    ensures
        r@ == sha512_of(b@),
        r@.len() == 64,
{
    let mut hasher = <sha2::Sha512 as sha2::Digest>::new();
    sha2::Digest::update(&mut hasher, b);
    let out = sha2::Digest::finalize(hasher);
    out.to_vec()
}

} // verus!
