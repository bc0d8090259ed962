//! The message envelope: a signed, doubly-encrypted record hiding both
//! the content and the sender identity from anyone but the two
//! participants. The signature covers a digest of the plaintext content,
//! the sender public key and the timestamp, never the ciphertext, so
//! verification requires decryption first.

use vstd::prelude::*;
use vstd::string::StringSliceAdditionalSpecFns;
use crate::aead::{aead_decrypt, aead_encrypt, aead_open_of};
use crate::curve::{derive_shared_key, mont_of, shared_key_of};
use crate::encoding::{be64_of, push_all, str_to_bytes, string_from_utf8, u64_to_be_bytes};
use crate::entropy::now_unix_seconds;
use crate::errors::CoreError;
use crate::hashing::{blake3_hash, blake3_of};
use crate::keys::{ed_pub_of, pk_parse, pk_parse_of, pk_verify, sig_of, sig_ok, zb32_of, Keypair};

verus! {

/// A stored message: envelope fields as persisted, immutable once
/// created.
pub struct PrivateMessage {
    /// Unix seconds at composition time.
    pub timestamp: u64,
    /// The sender's address string, encrypted under the pair's shared key.
    pub encrypted_sender: Vec<u8>,
    /// The message text, encrypted under the pair's shared key.
    pub encrypted_content: Vec<u8>,
    /// 64-byte Ed25519 signature over the message digest.
    pub signature_bytes: Vec<u8>,
}

/// The byte string the message digest is computed over: plaintext
/// content, then the sender's public key bytes, then the big-endian
/// timestamp.
pub open spec fn digest_input_of(content: Seq<u8>, sender_pk: Seq<u8>, timestamp: u64) -> Seq<
    u8,
> {
    content + sender_pk + be64_of(timestamp)
}

/// The signed digest: BLAKE3 of the digest input.
pub open spec fn msg_digest_of(content: Seq<u8>, sender_pk: Seq<u8>, timestamp: u64) -> Seq<u8> {
    blake3_of(digest_input_of(content, sender_pk, timestamp))
}

/// What holds of an envelope composed by the holder of `seed` for the
/// peer `other_pub` over plaintext `content`, over the envelope's field
/// views: both ciphertexts open to their plaintexts under the pair's
/// shared key, and the signature is the seed's signature over the digest
/// and verifies under the sender's public key.
pub open spec fn composed_view(
    timestamp: u64,
    encrypted_sender: Seq<u8>,
    encrypted_content: Seq<u8>,
    signature: Seq<u8>,
    seed: Seq<u8>,
    other_pub: Seq<u8>,
    content: Seq<u8>,
) -> bool {
    let key = shared_key_of(seed, other_pub)->Some_0;
    let digest = msg_digest_of(content, ed_pub_of(seed), timestamp);
    &&& shared_key_of(seed, other_pub) is Some
    &&& aead_open_of(encrypted_content, key) == Some(content)
    &&& aead_open_of(encrypted_sender, key) == Some(
        vstd::utf8::encode_utf8(zb32_of(ed_pub_of(seed))),
    )
    &&& signature == sig_of(seed, digest)
    &&& signature.len() == 64
    &&& sig_ok(ed_pub_of(seed), digest, signature)
}

/// `composed_view` applied to an envelope's fields.
pub open spec fn composed_with(
    env: PrivateMessage,
    seed: Seq<u8>,
    other_pub: Seq<u8>,
    content: Seq<u8>,
) -> bool {
    composed_view(
        env.timestamp,
        env.encrypted_sender@,
        env.encrypted_content@,
        env.signature_bytes@,
        seed,
        other_pub,
        content,
    )
}

/// What decrypting one encrypted field of an envelope yields for a local
/// seed and the other participant's public key: the decoded text, or the
/// exact error.
pub open spec fn decrypted_text_of(cipher: Seq<u8>, seed: Seq<u8>, other_pub: Seq<u8>) -> Result<
    Seq<char>,
    CoreError,
> {
    if other_pub.len() != 32 {
        Err(CoreError::InvalidKeyLength)
    } else if mont_of(other_pub) is None {
        Err(CoreError::InvalidPoint)
    } else {
        match aead_open_of(cipher, shared_key_of(seed, other_pub)->Some_0) {
            Some(plain) => if vstd::utf8::valid_utf8(plain) {
                Ok(vstd::utf8::decode_utf8(plain))
            } else {
                Err(CoreError::Utf8Error)
            },
            None => Err(CoreError::DecryptionFailed),
        }
    }
}

/// What signature verification yields for decrypted content and sender:
/// `InvalidPoint` when the sender string does not parse, `FormatError`
/// when the signature is not 64 bytes, else whether the signature checks
/// out under the recomputed digest.
pub open spec fn verification_of(
    timestamp: u64,
    signature: Seq<u8>,
    content: Seq<char>,
    sender: Seq<char>,
) -> Result<bool, CoreError> {
    match pk_parse_of(sender) {
        Some(pk) => if signature.len() == 64 {
            Ok(sig_ok(pk, msg_digest_of(vstd::utf8::encode_utf8(content), pk, timestamp), signature))
        } else {
            Err(CoreError::FormatError)
        },
        None => Err(CoreError::InvalidPoint),
    }
}

/// What opening an envelope yields: the decrypted sender and content and
/// the verification flag, or the first decryption error. A failed
/// verification is reported through the flag, never as an error.
pub open spec fn open_spec(env: PrivateMessage, seed: Seq<u8>, other_pub: Seq<u8>) -> Result<
    (Seq<char>, Seq<char>, bool),
    CoreError,
> {
    match decrypted_text_of(env.encrypted_content@, seed, other_pub) {
        Ok(content) => match decrypted_text_of(env.encrypted_sender@, seed, other_pub) {
            Ok(sender) => {
                let verified = match verification_of(
                    env.timestamp,
                    env.signature_bytes@,
                    content,
                    sender,
                ) {
                    Ok(b) => b,
                    Err(_) => false,
                };
                Ok((sender, content, verified))
            },
            Err(e) => Err(e),
        },
        Err(e) => Err(e),
    }
}

impl PrivateMessage {
    /// Compose an envelope at an explicit timestamp: digest and sign the
    /// plaintext, then encrypt content and sender address independently
    /// under the pair's shared key. Fails exactly when the recipient key
    /// is not 32 bytes (`InvalidKeyLength`) or not a valid curve point
    /// (`InvalidPoint`).
    pub fn new_at(
        sender_keypair: &Keypair,
        recipient_pk: &Vec<u8>,
        content: &str,
        timestamp: u64,
    ) -> (r: Result<PrivateMessage, CoreError>)
        requires
            sender_keypair.wf(),
        ensures
            r is Ok <==> (recipient_pk@.len() == 32 && mont_of(recipient_pk@) is Some),
            r is Ok ==> composed_with(
                r->Ok_0,
                sender_keypair.seed(),
                recipient_pk@,
                content.spec_bytes(),
            ),
            r is Ok ==> r->Ok_0.timestamp == timestamp,
            recipient_pk@.len() != 32 ==> r == Err::<PrivateMessage, CoreError>(
                CoreError::InvalidKeyLength,
            ),
            recipient_pk@.len() == 32 && mont_of(recipient_pk@) is None ==> r == Err::<
                PrivateMessage,
                CoreError,
            >(CoreError::InvalidPoint),
    {
        let content_bytes = str_to_bytes(content);
        let sender_pub = sender_keypair.public_key();
        let mut digest_input: Vec<u8> = Vec::new();
        push_all(&mut digest_input, &content_bytes);
        push_all(&mut digest_input, &sender_pub);
        let ts_bytes = u64_to_be_bytes(timestamp);
        push_all(&mut digest_input, &ts_bytes);
        let digest = blake3_hash(&digest_input);
        let signature_bytes = sender_keypair.sign(&digest);
        let key = match derive_shared_key(sender_keypair, recipient_pk) {
            Ok(k) => k,
            Err(e) => {
                return Err(e);
            },
        };
        let encrypted_content = aead_encrypt(&content_bytes, &key);
        let sender_string = sender_keypair.public_key_string();
        let sender_bytes = str_to_bytes(sender_string.as_str());
        let encrypted_sender = aead_encrypt(&sender_bytes, &key);
        proof {
            vstd::utf8::is_ascii_chars_encode_utf8(sender_string@);
        }
        Ok(
            PrivateMessage {
                timestamp,
                encrypted_sender,
                encrypted_content,
                signature_bytes,
            },
        )
    }

    /// Compose an envelope at the current clock time.
    pub fn new(sender_keypair: &Keypair, recipient_pk: &Vec<u8>, content: &str) -> (r: Result<
        PrivateMessage,
        CoreError,
    >)
        requires
            sender_keypair.wf(),
        ensures
            r is Ok <==> (recipient_pk@.len() == 32 && mont_of(recipient_pk@) is Some),
            r is Ok ==> composed_with(
                r->Ok_0,
                sender_keypair.seed(),
                recipient_pk@,
                content.spec_bytes(),
            ),
            recipient_pk@.len() != 32 ==> r == Err::<PrivateMessage, CoreError>(
                CoreError::InvalidKeyLength,
            ),
            recipient_pk@.len() == 32 && mont_of(recipient_pk@) is None ==> r == Err::<
                PrivateMessage,
                CoreError,
            >(CoreError::InvalidPoint),
    {
        let timestamp = now_unix_seconds();
        Self::new_at(sender_keypair, recipient_pk, content, timestamp)
    }

    /// Decrypt the content field under the pair's shared key.
    pub fn decrypt_content(&self, receiver_keypair: &Keypair, other_participant: &Vec<u8>) -> (r:
        Result<String, CoreError>)
        requires
            receiver_keypair.wf(),
        ensures
            r is Ok <==> decrypted_text_of(
                self.encrypted_content@,
                receiver_keypair.seed(),
                other_participant@,
            ) is Ok,
            r is Ok ==> Ok::<Seq<char>, CoreError>(r->Ok_0@) == decrypted_text_of(
                self.encrypted_content@,
                receiver_keypair.seed(),
                other_participant@,
            ),
            r is Err ==> Err::<Seq<char>, CoreError>(r->Err_0) == decrypted_text_of(
                self.encrypted_content@,
                receiver_keypair.seed(),
                other_participant@,
            ),
    {
        decrypt_field(&self.encrypted_content, receiver_keypair, other_participant)
    }

    /// Decrypt the sender field under the pair's shared key.
    pub fn decrypt_sender(&self, receiver_keypair: &Keypair, other_participant: &Vec<u8>) -> (r:
        Result<String, CoreError>)
        requires
            receiver_keypair.wf(),
        ensures
            r is Ok <==> decrypted_text_of(
                self.encrypted_sender@,
                receiver_keypair.seed(),
                other_participant@,
            ) is Ok,
            r is Ok ==> Ok::<Seq<char>, CoreError>(r->Ok_0@) == decrypted_text_of(
                self.encrypted_sender@,
                receiver_keypair.seed(),
                other_participant@,
            ),
            r is Err ==> Err::<Seq<char>, CoreError>(r->Err_0) == decrypted_text_of(
                self.encrypted_sender@,
                receiver_keypair.seed(),
                other_participant@,
            ),
    {
        decrypt_field(&self.encrypted_sender, receiver_keypair, other_participant)
    }

    /// Recompute the digest from the decrypted content and sender and
    /// check the stored signature against the sender's key.
    pub fn verify_signature(&self, decrypted_content: &str, decrypted_sender: &str) -> (r: Result<
        bool,
        CoreError,
    >)
        ensures
            r == verification_of(
                self.timestamp,
                self.signature_bytes@,
                decrypted_content@,
                decrypted_sender@,
            ),
    {
        let sender_pk = match pk_parse(decrypted_sender) {
            Some(pk) => pk,
            None => {
                return Err(CoreError::InvalidPoint);
            },
        };
        if self.signature_bytes.len() != 64 {
            return Err(CoreError::FormatError);
        }
        let content_bytes = str_to_bytes(decrypted_content);
        let mut digest_input: Vec<u8> = Vec::new();
        push_all(&mut digest_input, &content_bytes);
        push_all(&mut digest_input, &sender_pk);
        let ts_bytes = u64_to_be_bytes(self.timestamp);
        push_all(&mut digest_input, &ts_bytes);
        let digest = blake3_hash(&digest_input);
        Ok(pk_verify(&sender_pk, &digest, &self.signature_bytes))
    }

    /// Open an envelope: decrypt both fields, then verify the signature.
    /// Returns (sender, content, verified); a cryptographically invalid
    /// signature yields `verified == false`, not an error.
    pub fn open_envelope(&self, receiver_keypair: &Keypair, other_participant: &Vec<u8>) -> (r:
        Result<(String, String, bool), CoreError>)
        requires
            receiver_keypair.wf(),
        ensures
            r is Ok <==> open_spec(*self, receiver_keypair.seed(), other_participant@) is Ok,
            r is Ok ==> {
                let s = open_spec(*self, receiver_keypair.seed(), other_participant@)->Ok_0;
                r->Ok_0.0@ == s.0 && r->Ok_0.1@ == s.1 && r->Ok_0.2 == s.2
            },
            r is Err ==> Err::<(Seq<char>, Seq<char>, bool), CoreError>(r->Err_0) == open_spec(
                *self,
                receiver_keypair.seed(),
                other_participant@,
            ),
    {
        let content = match self.decrypt_content(receiver_keypair, other_participant) {
            Ok(c) => c,
            Err(e) => {
                return Err(e);
            },
        };
        let sender = match self.decrypt_sender(receiver_keypair, other_participant) {
            Ok(s) => s,
            Err(e) => {
                return Err(e);
            },
        };
        let verified = match self.verify_signature(content.as_str(), sender.as_str()) {
            Ok(b) => b,
            Err(_) => false,
        };
        Ok((sender, content, verified))
    }
}

/// Decrypt one encrypted field: derive the shared key, open the
/// ciphertext, decode the plaintext as UTF-8.
fn decrypt_field(cipher: &Vec<u8>, receiver_keypair: &Keypair, other_participant: &Vec<u8>) -> (r:
    Result<String, CoreError>)
    requires
        receiver_keypair.wf(),
    ensures
        r is Ok <==> decrypted_text_of(cipher@, receiver_keypair.seed(), other_participant@) is Ok,
        r is Ok ==> Ok::<Seq<char>, CoreError>(r->Ok_0@) == decrypted_text_of(
            cipher@,
            receiver_keypair.seed(),
            other_participant@,
        ),
        r is Err ==> Err::<Seq<char>, CoreError>(r->Err_0) == decrypted_text_of(
            cipher@,
            receiver_keypair.seed(),
            other_participant@,
        ),
{
    let key = match derive_shared_key(receiver_keypair, other_participant) {
        Ok(k) => k,
        Err(e) => {
            return Err(e);
        },
    };
    let plain = match aead_decrypt(cipher, &key) {
        Some(p) => p,
        None => {
            return Err(CoreError::DecryptionFailed);
        },
    };
    let ghost plain_view = plain@;
    match string_from_utf8(plain) {
        Some(s) => Ok(s),
        None => Err(CoreError::Utf8Error),
    }
}

/// Opening inverts composing: an envelope composed by the sender for the
/// receiver opens on the receiver's side to the sender's address string,
/// the original content, and a verified signature. The premises are what
/// the key layer guarantees of valid keypairs: both public keys are 32
/// bytes, the Diffie-Hellman secret is the same in both directions, and
/// the sender's address string parses back to the sender's key.
pub proof fn lemma_compose_open_round_trip(
    env: PrivateMessage,
    sender_seed: Seq<u8>,
    receiver_seed: Seq<u8>,
    content: Seq<char>,
)
    requires
        composed_with(env, sender_seed, ed_pub_of(receiver_seed), vstd::utf8::encode_utf8(content)),
        shared_key_of(receiver_seed, ed_pub_of(sender_seed)) == shared_key_of(
            sender_seed,
            ed_pub_of(receiver_seed),
        ),
        ed_pub_of(sender_seed).len() == 32,
        pk_parse_of(zb32_of(ed_pub_of(sender_seed))) == Some(ed_pub_of(sender_seed)),
    ensures
        open_spec(env, receiver_seed, ed_pub_of(sender_seed)) == Ok::<
            (Seq<char>, Seq<char>, bool),
            CoreError,
        >((zb32_of(ed_pub_of(sender_seed)), content, true)),
{
    broadcast use vstd::utf8::encode_utf8_valid_utf8, vstd::utf8::encode_utf8_decode_utf8;

    let sender_pub = ed_pub_of(sender_seed);
    let receiver_pub = ed_pub_of(receiver_seed);
    let key = shared_key_of(sender_seed, receiver_pub)->Some_0;
    assert(shared_key_of(receiver_seed, sender_pub) is Some);
    assert(mont_of(sender_pub) is Some);
    assert(decrypted_text_of(env.encrypted_content@, receiver_seed, sender_pub) == Ok::<
        Seq<char>,
        CoreError,
    >(content));
    assert(decrypted_text_of(env.encrypted_sender@, receiver_seed, sender_pub) == Ok::<
        Seq<char>,
        CoreError,
    >(zb32_of(sender_pub)));
    assert(verification_of(env.timestamp, env.signature_bytes@, content, zb32_of(sender_pub))
        == Ok::<bool, CoreError>(true));
}

} // verus!
