//! Curve conversion and shared-secret derivation: an Edwards signing
//! keypair is converted to its Montgomery Diffie-Hellman form, and a
//! per-pair symmetric key is computed from one party's secret and the
//! other's public identity key.

use vstd::prelude::*;
use crate::encoding::hex_of;
use crate::errors::CoreError;
use crate::hashing::{sha512, sha512_of};
use crate::keys::Keypair;

verus! {

/// The Montgomery u-coordinate of a compressed Edwards point, or nothing
/// when the 32 bytes are not a valid point encoding; a function of the
/// bytes alone.
pub uninterp spec fn mont_of(ed_pub: Seq<u8>) -> Option<Seq<u8>>;

/// The X25519 Diffie-Hellman output for a secret scalar and a public
/// point; a function of the two byte strings alone.
pub uninterp spec fn dh_of(x_secret: Seq<u8>, x_public: Seq<u8>) -> Seq<u8>;

/// RFC 7748 clamping of a 32-byte scalar: clear the low 3 bits of byte 0,
/// clear the top bit and set the second-highest bit of byte 31.
pub open spec fn clamp_spec(k: Seq<u8>) -> Seq<u8>
    recommends
        k.len() == 32,
{
    k.update(0, (k[0] & 248) as u8).update(31, ((k[31] & 127) | 64) as u8)
}

/// The Montgomery secret scalar for an Edwards signing seed: the first 32
/// bytes of the seed's SHA-512 digest, clamped.
pub open spec fn x_secret_of(ed_secret: Seq<u8>) -> Seq<u8> {
    clamp_spec(sha512_of(ed_secret).take(32))
}

/// The raw shared secret for a local seed and a remote public key, when
/// the remote key is a valid point.
pub open spec fn shared_key_of(ed_secret: Seq<u8>, other_pub: Seq<u8>) -> Option<Seq<u8>> {
    match mont_of(other_pub) {
        Some(x_pub) => Some(dh_of(x_secret_of(ed_secret), x_pub)),
        None => None,
    }
}

/// The shared secret rendered as lowercase hex, as the rest of the
/// protocol consumes it.
pub open spec fn shared_hex_of(ed_secret: Seq<u8>, other_pub: Seq<u8>) -> Seq<char>
    recommends
        shared_key_of(ed_secret, other_pub) is Some,
{
    hex_of(shared_key_of(ed_secret, other_pub)->Some_0)
}

/// Relies on curve25519_dalek: CompressedEdwardsY::decompress (fails
/// exactly on an invalid point encoding) followed by
/// EdwardsPoint::to_montgomery.
#[verifier::external_body]
fn ed_public_to_mont(ed_pub: &Vec<u8>) -> (r: Option<Vec<u8>>)
    requires
        ed_pub@.len() == 32,
    ensures
        r is Some <==> mont_of(ed_pub@) is Some,
        r is Some ==> Some(r->Some_0@) == mont_of(ed_pub@),
        r is Some ==> r->Some_0@.len() == 32,
{
    let mut bytes = [0u8; 32];
    bytes.copy_from_slice(ed_pub);
    let compressed = curve25519_dalek::edwards::CompressedEdwardsY(bytes);
    compressed.decompress().map(|p| p.to_montgomery().to_bytes().to_vec())
}

/// Relies on x25519_dalek::StaticSecret::diffie_hellman: the 32-byte
/// X25519 shared output, a function of the two inputs alone.
#[verifier::external_body]
fn x25519_shared(x_secret: &Vec<u8>, x_public: &Vec<u8>) -> (r: Vec<u8>)
    requires
        x_secret@.len() == 32,
        x_public@.len() == 32,
    ensures
        r@ == dh_of(x_secret@, x_public@),
        r@.len() == 32,
{
    let mut secret_bytes = [0u8; 32];
    secret_bytes.copy_from_slice(x_secret);
    let mut public_bytes = [0u8; 32];
    public_bytes.copy_from_slice(x_public);
    let secret = x25519_dalek::StaticSecret::from(secret_bytes);
    let public = x25519_dalek::PublicKey::from(public_bytes);
    secret.diffie_hellman(&public).to_bytes().to_vec()
}

/// Convert an Edwards public key to its Montgomery Diffie-Hellman form;
/// fails exactly when the encoding is not a valid curve point.
pub fn ed25519_public_to_x25519(ed_pub: &Vec<u8>) -> (r: Option<Vec<u8>>)
    requires
        ed_pub@.len() == 32,
    ensures
        r is Some <==> mont_of(ed_pub@) is Some,
        r is Some ==> Some(r->Some_0@) == mont_of(ed_pub@),
        r is Some ==> r->Some_0@.len() == 32,
{
    ed_public_to_mont(ed_pub)
}

/// Convert an Edwards signing seed to a Montgomery secret scalar: SHA-512
/// the seed, take the first 32 bytes, clamp. Total and deterministic.
pub fn ed25519_secret_to_x25519(ed_secret: &Vec<u8>) -> (r: Vec<u8>)
    requires
        ed_secret@.len() == 32,
    ensures
        r@ == x_secret_of(ed_secret@),
        r@.len() == 32,
{
    let digest = sha512(ed_secret);
    let mut out: Vec<u8> = Vec::new();
    let mut i: usize = 0;
    while i < 32
        invariant
            i <= 32,
            digest@.len() == 64,
            digest@ == sha512_of(ed_secret@),
            out@ == sha512_of(ed_secret@).take(32).take(i as int),
        decreases 32 - i,
    {
        out.push(digest[i]);
        i = i + 1;
    }
    let b0 = out[0] & 248;
    vstd::pervasive::VecAdditionalExecFns::set(&mut out, 0, b0);
    let b31 = (out[31] & 127) | 64;
    vstd::pervasive::VecAdditionalExecFns::set(&mut out, 31, b31);
    proof {
        assert(out@ =~= x_secret_of(ed_secret@));
    }
    out
}

/// Both participants derive the same shared secret, whichever side
/// computes it: with the Diffie-Hellman output equal in both directions
/// (as X25519 guarantees for keys belonging to the same pair), the hex
/// secrets agree too.
pub proof fn lemma_shared_secret_symmetric(a_seed: Seq<u8>, b_seed: Seq<u8>)
    requires
        shared_key_of(a_seed, crate::keys::ed_pub_of(b_seed)) == shared_key_of(
            b_seed,
            crate::keys::ed_pub_of(a_seed),
        ),
    ensures
        shared_hex_of(a_seed, crate::keys::ed_pub_of(b_seed)) == shared_hex_of(
            b_seed,
            crate::keys::ed_pub_of(a_seed),
        ),
{
}

/// Derive the raw 32-byte shared secret for this keypair and a remote
/// public key. Fails with `InvalidKeyLength` exactly when the remote key
/// is not 32 bytes, and with `InvalidPoint` exactly when it is not a
/// valid curve point.
pub fn derive_shared_key(keypair: &Keypair, other_pubkey: &Vec<u8>) -> (r: Result<
    Vec<u8>,
    CoreError,
>)
    requires
        keypair.wf(),
    ensures
        r is Ok <==> (other_pubkey@.len() == 32 && mont_of(other_pubkey@) is Some),
        r is Ok ==> Some(r->Ok_0@) == shared_key_of(keypair.seed(), other_pubkey@),
        r is Ok ==> r->Ok_0@.len() == 32,
        other_pubkey@.len() != 32 ==> r == Err::<Vec<u8>, CoreError>(CoreError::InvalidKeyLength),
        other_pubkey@.len() == 32 && mont_of(other_pubkey@) is None ==> r == Err::<
            Vec<u8>,
            CoreError,
        >(CoreError::InvalidPoint),
{
    if other_pubkey.len() != 32 {
        return Err(CoreError::InvalidKeyLength);
    }
    let secret_seed = keypair.secret_key();
    let x_secret = ed25519_secret_to_x25519(&secret_seed);
    match ed25519_public_to_x25519(other_pubkey) {
        Some(x_public) => Ok(x25519_shared(&x_secret, &x_public)),
        None => Err(CoreError::InvalidPoint),
    }
}

/// Derive the shared secret and render it as the lowercase hex string the
/// protocol stores and hashes. Same failure cases as `derive_shared_key`.
pub fn generate_shared_secret(keypair: &Keypair, other_pubkey: &Vec<u8>) -> (r: Result<
    String,
    CoreError,
>)
    requires
        keypair.wf(),
    ensures
        r is Ok <==> (other_pubkey@.len() == 32 && mont_of(other_pubkey@) is Some),
        r is Ok ==> r->Ok_0@ == shared_hex_of(keypair.seed(), other_pubkey@),
        other_pubkey@.len() != 32 ==> r == Err::<String, CoreError>(CoreError::InvalidKeyLength),
        other_pubkey@.len() == 32 && mont_of(other_pubkey@) is None ==> r == Err::<
            String,
            CoreError,
        >(CoreError::InvalidPoint),
{
    match derive_shared_key(keypair, other_pubkey) {
        Ok(key) => Ok(crate::encoding::hex_encode(&key)),
        Err(e) => Err(e),
    }
}

} // verus!
