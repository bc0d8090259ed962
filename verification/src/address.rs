//! Deterministic conversation addressing: the pair's shared secret is
//! content-hashed into a path segment both participants can compute
//! privately. Each participant writes into its own namespace under the
//! shared address, so a reader enumerates both namespaces.

use vstd::prelude::*;
use crate::curve::{generate_shared_secret, mont_of, shared_hex_of, shared_key_of};
use crate::encoding::{hex_of, str_to_bytes};
use crate::errors::CoreError;
use crate::hashing::{blake3_hash, blake3_of};
use crate::keys::{ed_pub_of, Keypair};

verus! {

/// The fixed prefix of every conversation path.
pub open spec fn path_prefix_chars() -> Seq<char> {
    "/pub/private_messages/"@
}

/// The conversation path for a shared-secret hex string: the prefix, the
/// hex of the BLAKE3 hash of the hex string's bytes, and a trailing
/// slash.
pub open spec fn address_of(shared_hex: Seq<char>) -> Seq<char> {
    path_prefix_chars() + hex_of(blake3_of(vstd::utf8::encode_utf8(shared_hex))) + "/"@
}

/// The conversation path two participants derive: the address of their
/// shared secret.
pub open spec fn conversation_path_of(seed: Seq<u8>, other_pub: Seq<u8>) -> Seq<char>
    recommends
        shared_key_of(seed, other_pub) is Some,
{
    address_of(shared_hex_of(seed, other_pub))
}

/// The URI prefix of one participant's copy of a conversation:
/// `pubky://<owner>` followed by the conversation path.
pub open spec fn namespace_prefix_of(owner: Seq<char>, path: Seq<char>) -> Seq<char> {
    "pubky://"@ + owner + path
}

/// The full object URI one message is written to: the owner's namespace
/// prefix, a fresh message id, and the `.json` suffix.
pub open spec fn message_uri_of(owner: Seq<char>, path: Seq<char>, msg_id: Seq<char>) -> Seq<
    char,
> {
    namespace_prefix_of(owner, path) + msg_id + ".json"@
}

impl Keypair {
    /// Compute the conversation path shared with `other_pubkey`. Fails
    /// exactly as shared-secret derivation does.
    pub fn private_conversation_path(&self, other_pubkey: &Vec<u8>) -> (r: Result<
        String,
        CoreError,
    >)
        requires
            self.wf(),
        ensures
            r is Ok <==> (other_pubkey@.len() == 32 && mont_of(other_pubkey@) is Some),
            r is Ok ==> r->Ok_0@ == conversation_path_of(self.seed(), other_pubkey@),
            other_pubkey@.len() != 32 ==> r == Err::<String, CoreError>(
                CoreError::InvalidKeyLength,
            ),
            other_pubkey@.len() == 32 && mont_of(other_pubkey@) is None ==> r == Err::<
                String,
                CoreError,
            >(CoreError::InvalidPoint),
    {
        let shared_secret = match generate_shared_secret(self, other_pubkey) {
            Ok(s) => s,
            Err(e) => {
                return Err(e);
            },
        };
        let secret_bytes = str_to_bytes(shared_secret.as_str());
        let digest = blake3_hash(&secret_bytes);
        let path_id = crate::encoding::hex_encode(&digest);
        let mut path = String::from_str("/pub/private_messages/");
        path.append(path_id.as_str());
        path.append("/");
        proof {
            assert(path@ =~= conversation_path_of(self.seed(), other_pubkey@));
        }
        Ok(path)
    }
}

/// Build the `pubky://<owner><path>` namespace prefix of one
/// participant's copy of a conversation.
pub fn namespace_prefix(owner: &str, path: &str) -> (r: String)
    ensures
        r@ == namespace_prefix_of(owner@, path@),
{
    let mut uri = String::from_str("pubky://");
    uri.append(owner);
    uri.append(path);
    proof {
        assert(uri@ =~= namespace_prefix_of(owner@, path@));
    }
    uri
}

/// Build the full object URI a message is written to.
pub fn message_uri(owner: &str, path: &str, msg_id: &str) -> (r: String)
    ensures
        r@ == message_uri_of(owner@, path@, msg_id@),
{
    let mut uri = namespace_prefix(owner, path);
    uri.append(msg_id);
    uri.append(".json");
    proof {
        assert(uri@ =~= message_uri_of(owner@, path@, msg_id@));
    }
    uri
}

/// The conversation address is independent of which participant computes
/// it: with the Diffie-Hellman secret equal in both directions (as X25519
/// guarantees), both parties derive the same path.
pub proof fn lemma_conversation_path_symmetric(a_seed: Seq<u8>, b_seed: Seq<u8>)
    requires
        shared_key_of(a_seed, ed_pub_of(b_seed)) == shared_key_of(b_seed, ed_pub_of(a_seed)),
    ensures
        conversation_path_of(a_seed, ed_pub_of(b_seed)) == conversation_path_of(
            b_seed,
            ed_pub_of(a_seed),
        ),
{
}

} // verus!
