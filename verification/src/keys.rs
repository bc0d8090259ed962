//! Identity keys: an Ed25519 signing keypair whose public key doubles as
//! the account's network address, rendered as a z-base32 string.

use vstd::prelude::*;
use crate::errors::CoreError;

verus! {

/// The Ed25519 public key derived from a 32-byte seed; a function of the
/// seed alone.
pub uninterp spec fn ed_pub_of(seed: Seq<u8>) -> Seq<u8>;

/// The z-base32 rendering of a 32-byte public key; a function of the key
/// alone.
pub uninterp spec fn zb32_of(pk: Seq<u8>) -> Seq<char>;

/// What parsing a public-key string yields: the 32 key bytes, or nothing
/// when the string does not decode to a valid key.
pub uninterp spec fn pk_parse_of(s: Seq<char>) -> Option<Seq<u8>>;

/// Whether 32 bytes are the encoding of a valid Ed25519 public key.
pub uninterp spec fn pk_valid(pk: Seq<u8>) -> bool;

/// The Ed25519 signature of a message under a seed; Ed25519 signing is
/// deterministic, so this is a function of seed and message alone.
pub uninterp spec fn sig_of(seed: Seq<u8>, msg: Seq<u8>) -> Seq<u8>;

/// Whether a signature verifies for a public key and message.
pub uninterp spec fn sig_ok(pk: Seq<u8>, msg: Seq<u8>, sig: Seq<u8>) -> bool;

/// Relies on pkarr::Keypair::public_key: the Ed25519 public key derived
/// from the 32-byte secret seed.
#[verifier::external_body]
fn keypair_public(secret: &Vec<u8>) -> (r: Vec<u8>)
    requires
        secret@.len() == 32,
    ensures
        r@ == ed_pub_of(secret@),
        r@.len() == 32,
        pk_valid(r@),
{
    let mut seed = [0u8; 32];
    seed.copy_from_slice(secret);
    pkarr::Keypair::from_secret_key(&seed).public_key().to_bytes().to_vec()
}

/// Relies on pkarr::PublicKey's Display: 52 z-base32 characters that
/// pkarr::PublicKey::try_from parses back to the same key bytes. Fails
/// exactly when the bytes are not a valid public key.
#[verifier::external_body]
pub fn pk_to_string(pk: &Vec<u8>) -> (r: Option<String>)
    requires
        pk@.len() == 32,
    ensures
        r is Some <==> pk_valid(pk@),
        r is Some ==> r->Some_0@ == zb32_of(pk@),
        r is Some ==> r->Some_0@.len() == 52,
        r is Some ==> vstd::utf8::is_ascii_chars(r->Some_0@),
        r is Some ==> pk_parse_of(zb32_of(pk@)) == Some(pk@),
{
    let mut bytes = [0u8; 32];
    bytes.copy_from_slice(pk);
    match pkarr::PublicKey::try_from(&bytes) {
        Ok(p) => Some(p.to_string()),
        Err(_) => None,
    }
}

/// Relies on pkarr::PublicKey::try_from(&str): z-base32 decoding plus
/// validation of the key bytes; a function of the string alone.
#[verifier::external_body]
pub fn pk_parse(s: &str) -> (r: Option<Vec<u8>>)
    ensures
        r is Some <==> pk_parse_of(s@) is Some,
        r is Some ==> Some(r->Some_0@) == pk_parse_of(s@),
        r is Some ==> r->Some_0@.len() == 32,
        r is Some ==> pk_valid(r->Some_0@),
{
    match pkarr::PublicKey::try_from(s) {
        Ok(p) => Some(p.to_bytes().to_vec()),
        Err(_) => None,
    }
}

/// Relies on pkarr::Keypair::sign: deterministic Ed25519 signing; the
/// 64-byte signature verifies under the keypair's public key.
#[verifier::external_body]
fn keypair_sign(secret: &Vec<u8>, msg: &Vec<u8>) -> (r: Vec<u8>)
    requires
        secret@.len() == 32,
    ensures
        r@ == sig_of(secret@, msg@),
        r@.len() == 64,
        sig_ok(ed_pub_of(secret@), msg@, r@),
{
    let mut seed = [0u8; 32];
    seed.copy_from_slice(secret);
    let keypair = pkarr::Keypair::from_secret_key(&seed);
    keypair.sign(msg).to_bytes().to_vec()
}

/// Relies on pkarr::PublicKey::verify (Ed25519): deterministic; false
/// when the key bytes are invalid or the signature does not verify.
#[verifier::external_body]
pub fn pk_verify(pk: &Vec<u8>, msg: &Vec<u8>, sig: &Vec<u8>) -> (r: bool)
    requires
        pk@.len() == 32,
        sig@.len() == 64,
    ensures
        r == sig_ok(pk@, msg@, sig@),
{
    let mut key_bytes = [0u8; 32];
    key_bytes.copy_from_slice(pk);
    let mut sig_bytes = [0u8; 64];
    sig_bytes.copy_from_slice(sig);
    match pkarr::PublicKey::try_from(&key_bytes) {
        Ok(p) => p.verify(msg, &ed25519_dalek::Signature::from_bytes(&sig_bytes)).is_ok(),
        Err(_) => false,
    }
}

/// An identity signing keypair, held as its 32-byte secret seed.
pub struct Keypair {
    secret: Vec<u8>,
}

impl Keypair {
    /// The keypair holds exactly the 32-byte seed.
    pub open spec fn wf(&self) -> bool {
        self.seed().len() == 32
    }

    /// The secret seed.
    pub closed spec fn seed(&self) -> Seq<u8> {
        self.secret@
    }

    /// The public key bytes, as a function of the seed.
    pub open spec fn spec_public_key(&self) -> Seq<u8> {
        ed_pub_of(self.seed())
    }

    /// Build a keypair from its 32-byte secret seed.
    pub fn from_secret_key(secret: &Vec<u8>) -> (r: Keypair)
        requires
            secret@.len() == 32,
        ensures
            r.wf(),
            r.seed() == secret@,
    {
        let mut copy: Vec<u8> = Vec::new();
        let mut i: usize = 0;
        while i < secret.len()
            invariant
                i <= secret@.len(),
                copy@ == secret@.take(i as int),
            decreases secret@.len() - i,
        {
            copy.push(secret[i]);
            i = i + 1;
        }
        proof {
            assert(copy@ =~= secret@);
        }
        Keypair { secret: copy }
    }

    /// The secret seed as bytes.
    pub fn secret_key(&self) -> (r: Vec<u8>)
        requires
            self.wf(),
        ensures
            r@ == self.seed(),
    {
        let mut copy: Vec<u8> = Vec::new();
        let mut i: usize = 0;
        while i < self.secret.len()
            invariant
                i <= self.secret@.len(),
                copy@ == self.secret@.take(i as int),
            decreases self.secret@.len() - i,
        {
            copy.push(self.secret[i]);
            i = i + 1;
        }
        proof {
            assert(copy@ =~= self.secret@);
        }
        copy
    }

    /// The public key bytes.
    pub fn public_key(&self) -> (r: Vec<u8>)
        requires
            self.wf(),
        ensures
            r@ == self.spec_public_key(),
            r@.len() == 32,
            pk_valid(r@),
    {
        keypair_public(&self.secret)
    }

    /// The public key as its z-base32 account address string.
    pub fn public_key_string(&self) -> (r: String)
        requires
            self.wf(),
        ensures
            r@ == zb32_of(self.spec_public_key()),
            r@.len() == 52,
            vstd::utf8::is_ascii_chars(r@),
            pk_parse_of(r@) == Some(self.spec_public_key()),
    {
        let pk = self.public_key();
        match pk_to_string(&pk) {
            Some(s) => s,
            None => {
                proof {
                    assert(false);
                }
                String::new()
            },
        }
    }

    /// Sign a message with the secret seed.
    pub fn sign(&self, msg: &Vec<u8>) -> (r: Vec<u8>)
        requires
            self.wf(),
        ensures
            r@ == sig_of(self.seed(), msg@),
            r@.len() == 64,
            sig_ok(self.spec_public_key(), msg@, r@),
    {
        keypair_sign(&self.secret, msg)
    }
}

} // verus!
