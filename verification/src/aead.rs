//! Trusted binding for the authenticated cipher that protects envelope
//! fields: XSalsa20Poly1305 with a fresh random 24-byte nonce prepended
//! to the ciphertext, as pubky_common::crypto implements it.

use vstd::prelude::*;

verus! {

/// What authenticated decryption yields for a ciphertext (nonce-prefixed)
/// and a 32-byte key; deterministic, so a function of the two alone.
pub uninterp spec fn aead_open_of(cipher: Seq<u8>, key: Seq<u8>) -> Option<Seq<u8>>;

/// Relies on pubky_common::crypto::encrypt: an empty plaintext is
/// returned unchanged; otherwise the fresh 24-byte nonce is prepended to
/// the ciphertext (16-byte tag), and pubky_common::crypto::decrypt
/// recovers the plaintext under the same key.
#[verifier::external_body]
pub fn aead_encrypt(plain: &Vec<u8>, key: &Vec<u8>) -> (r: Vec<u8>)
    requires
        key@.len() == 32,
    ensures
        aead_open_of(r@, key@) == Some(plain@),
        plain@.len() == 0 ==> r@.len() == 0,
        plain@.len() > 0 ==> r@.len() == plain@.len() + 40,
{
    let mut key_bytes = [0u8; 32];
    key_bytes.copy_from_slice(key);
    pubky_common::crypto::encrypt(plain, &key_bytes)
}

/// Relies on pubky_common::crypto::decrypt: deterministic in ciphertext
/// and key; empty input yields an empty plaintext, fewer than 24 bytes is
/// rejected, otherwise the first 24 bytes are the nonce and the rest is
/// opened and authenticated.
#[verifier::external_body]
pub fn aead_decrypt(cipher: &Vec<u8>, key: &Vec<u8>) -> (r: Option<Vec<u8>>)
    requires
        key@.len() == 32,
    ensures
        r is Some <==> aead_open_of(cipher@, key@) is Some,
        r is Some ==> Some(r->Some_0@) == aead_open_of(cipher@, key@),
        cipher@.len() == 0 ==> (r is Some && r->Some_0@.len() == 0),
        0 < cipher@.len() < 24 ==> r is None,
{
    let mut key_bytes = [0u8; 32];
    key_bytes.copy_from_slice(key);
    pubky_common::crypto::decrypt(cipher, &key_bytes).ok()
}

} // verus!
