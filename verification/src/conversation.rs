//! Conversation retrieval: decode and open every fetched object from
//! both participants' copies of the shared address, skip whatever fails,
//! and return the survivors in chronological order. One corrupt or
//! foreign object never fails the batch.

use vstd::prelude::*;
use vstd::string::StringSliceAdditionalSpecFns;
use crate::envelope::{decrypted_text_of, open_spec, verification_of, PrivateMessage};
use crate::errors::CoreError;
use crate::keys::{zb32_of, Keypair};
use crate::wire::{parse_private_message, spec_parse_envelope};

verus! {

/// View of one conversation entry: the envelope fields, the decrypted
/// content, and the verification flag.
pub open spec fn entry_view(e: (PrivateMessage, String, bool)) -> (
    (u64, Seq<u8>, Seq<u8>, Seq<u8>),
    Seq<char>,
    bool,
) {
    (
        (e.0.timestamp, e.0.encrypted_sender@, e.0.encrypted_content@, e.0.signature_bytes@),
        e.1@,
        e.2,
    )
}

/// Views of a vector of entries.
pub open spec fn entries_views(v: Seq<(PrivateMessage, String, bool)>) -> Seq<
    ((u64, Seq<u8>, Seq<u8>, Seq<u8>), Seq<char>, bool),
> {
    Seq::new(v.len(), |k: int| entry_view(v[k]))
}

/// What one fetched body contributes to a conversation: the parsed
/// envelope, its decrypted content and the verification flag, or nothing
/// when the body does not parse or either field does not decrypt.
pub open spec fn conv_entry_of(b: Seq<u8>, seed: Seq<u8>, other: Seq<u8>) -> Option<
    ((u64, Seq<u8>, Seq<u8>, Seq<u8>), Seq<char>, bool),
> {
    match spec_parse_envelope(b) {
        Some((ts, es, ec, sg)) => match decrypted_text_of(ec, seed, other) {
            Ok(content) => match decrypted_text_of(es, seed, other) {
                Ok(sender) => Some(
                    (
                        (ts, es, ec, sg),
                        content,
                        match verification_of(ts, sg, content, sender) {
                            Ok(v) => v,
                            Err(_) => false,
                        },
                    ),
                ),
                Err(_) => None,
            },
            Err(_) => None,
        },
        None => None,
    }
}

/// The entries contributed by a list of fetched bodies, in list order.
pub open spec fn conv_entries_of(bodies: Seq<Seq<u8>>, seed: Seq<u8>, other: Seq<u8>) -> Seq<
    ((u64, Seq<u8>, Seq<u8>, Seq<u8>), Seq<char>, bool),
>
    decreases bodies.len(),
{
    if bodies.len() == 0 {
        Seq::empty()
    } else {
        let rest = conv_entries_of(bodies.drop_first(), seed, other);
        match conv_entry_of(bodies[0], seed, other) {
            Some(e) => seq![e] + rest,
            None => rest,
        }
    }
}

/// The byte strings of a list of fetched bodies.
pub open spec fn bodies_bytes(v: Seq<String>) -> Seq<Seq<u8>> {
    Seq::new(v.len(), |k: int| vstd::utf8::encode_utf8(v[k]@))
}

/// Chronological order: for any two entries, index order matches
/// timestamp order.
pub open spec fn sorted_by_timestamp(v: Seq<(PrivateMessage, String, bool)>) -> bool {
    forall|i: int, j: int|
        0 <= i <= j < v.len() ==> #[trigger] v[i].0.timestamp <= #[trigger] v[j].0.timestamp
}

/// A listed object that does not decode to a valid entry (foreign
/// format, corrupt ciphertext, undecryptable fields) contributes nothing
/// to the conversation and removes no valid message from it.
#[verifier::rlimit(100)]
#[verifier::spinoff_prover]
pub proof fn lemma_garbage_body_adds_nothing(
    bodies: Seq<Seq<u8>>,
    garbage: Seq<u8>,
    seed: Seq<u8>,
    other: Seq<u8>,
)
    requires
        conv_entry_of(garbage, seed, other) is None,
    ensures
        conv_entries_of(bodies.push(garbage), seed, other) == conv_entries_of(
            bodies,
            seed,
            other,
        ),
    decreases bodies.len(),
{
    if bodies.len() == 0 {
        assert(bodies.push(garbage)[0] == garbage);
        assert(bodies.push(garbage).drop_first() =~= Seq::<Seq<u8>>::empty());
        assert(conv_entries_of(bodies.push(garbage), seed, other) == conv_entries_of(
            bodies.push(garbage).drop_first(),
            seed,
            other,
        ));
    } else {
        let tail = bodies.drop_first();
        lemma_garbage_body_adds_nothing(tail, garbage, seed, other);
        assert(bodies.push(garbage)[0] == bodies[0]);
        assert(bodies.push(garbage).drop_first() =~= tail.push(garbage));
        let head = conv_entry_of(bodies[0], seed, other);
        if head is Some {
            assert(conv_entries_of(bodies.push(garbage), seed, other) == seq![head->Some_0]
                + conv_entries_of(tail.push(garbage), seed, other));
            assert(conv_entries_of(bodies, seed, other) == seq![head->Some_0]
                + conv_entries_of(tail, seed, other));
        } else {
            assert(conv_entries_of(bodies.push(garbage), seed, other) == conv_entries_of(
                tail.push(garbage),
                seed,
                other,
            ));
            assert(conv_entries_of(bodies, seed, other) == conv_entries_of(tail, seed, other));
        }
    }
}

/// Inserting an element anywhere adds exactly that element to the
/// multiset of a sequence.
pub proof fn lemma_to_multiset_insert<A>(s: Seq<A>, p: int, x: A)
    requires
        0 <= p <= s.len(),
    ensures
        s.insert(p, x).to_multiset() == s.to_multiset().insert(x),
{
    broadcast use vstd::seq_lib::group_to_multiset_ensures;

    let s2 = s.insert(p, x);
    assert(s2.remove(p) =~= s);
    assert(s2[p] == x);
    assert(s2.remove(p).to_multiset() =~= s2.to_multiset().remove(x));
    assert(s2.contains(x));
    assert(s2.to_multiset().count(x) > 0);
    assert forall|y: A| s2.to_multiset().count(y) == s.to_multiset().insert(x).count(y) by {
        if y == x {
            assert(s.to_multiset().count(x) == s2.to_multiset().remove(x).count(x));
        } else {
            assert(s.to_multiset().count(y) == s2.to_multiset().remove(x).count(y));
        }
    }
    assert(s2.to_multiset() =~= s.to_multiset().insert(x));
}

/// Decode, open and verify all fetched conversation objects, skipping
/// per-object failures, and sort the survivors by timestamp ascending
/// (ties keep encounter order). The result is a permutation of exactly
/// the decodable entries.
pub fn process_message_bodies(
    keypair: &Keypair,
    other_pubkey: &Vec<u8>,
    bodies: &Vec<String>,
) -> (r: Vec<(PrivateMessage, String, bool)>)
    requires
        keypair.wf(),
    ensures
        sorted_by_timestamp(r@),
        entries_views(r@).to_multiset() == conv_entries_of(
            bodies_bytes(bodies@),
            keypair.seed(),
            other_pubkey@,
        ).to_multiset(),
{
    broadcast use vstd::seq_lib::group_to_multiset_ensures;

    let ghost seed = keypair.seed();
    let ghost other = other_pubkey@;
    let ghost all = bodies_bytes(bodies@);
    let mut collected: Vec<(PrivateMessage, String, bool)> = Vec::new();
    let mut i: usize = 0;
    proof {
        assert(entries_views(collected@) =~= Seq::<
            ((u64, Seq<u8>, Seq<u8>, Seq<u8>), Seq<char>, bool),
        >::empty());
        assert(all.skip(0) =~= all);
    }
    while i < bodies.len()
        invariant
            keypair.wf(),
            seed == keypair.seed(),
            other == other_pubkey@,
            all == bodies_bytes(bodies@),
            0 <= i <= bodies@.len(),
            conv_entries_of(all, seed, other) == entries_views(collected@) + conv_entries_of(
                all.skip(i as int),
                seed,
                other,
            ),
        decreases bodies@.len() - i,
    {
        let ghost rem = all.skip(i as int);
        proof {
            assert(rem[0] == all[i as int]);
            assert(rem.drop_first() =~= all.skip(i + 1));
        }
        let body_bytes = crate::encoding::str_to_bytes(bodies[i].as_str());
        let ghost old_views = entries_views(collected@);
        match parse_private_message(&body_bytes) {
            Some(msg) => {
                match msg.decrypt_content(keypair, other_pubkey) {
                    Ok(content) => {
                        match msg.decrypt_sender(keypair, other_pubkey) {
                            Ok(sender) => {
                                let verified = match msg.verify_signature(
                                    content.as_str(),
                                    sender.as_str(),
                                ) {
                                    Ok(v) => v,
                                    Err(_) => false,
                                };
                                let ghost e = (
                                    (
                                        msg.timestamp,
                                        msg.encrypted_sender@,
                                        msg.encrypted_content@,
                                        msg.signature_bytes@,
                                    ),
                                    content@,
                                    verified,
                                );
                                proof {
                                    assert(conv_entry_of(rem[0], seed, other) == Some(e));
                                }
                                collected.push((msg, content, verified));
                                proof {
                                    assert(entries_views(collected@) =~= old_views + seq![e]);
                                    assert(old_views + (seq![e] + conv_entries_of(
                                        all.skip(i + 1),
                                        seed,
                                        other,
                                    )) =~= entries_views(collected@) + conv_entries_of(
                                        all.skip(i + 1),
                                        seed,
                                        other,
                                    ));
                                }
                            },
                            Err(_) => {
                                proof {
                                    assert(conv_entry_of(rem[0], seed, other) is None);
                                }
                            },
                        }
                    },
                    Err(_) => {
                        proof {
                            assert(conv_entry_of(rem[0], seed, other) is None);
                        }
                    },
                }
            },
            None => {
                proof {
                    assert(conv_entry_of(rem[0], seed, other) is None);
                }
            },
        }
        i = i + 1;
    }
    proof {
        assert(conv_entries_of(all.skip(bodies@.len() as int), seed, other) =~= Seq::<
            ((u64, Seq<u8>, Seq<u8>, Seq<u8>), Seq<char>, bool),
        >::empty());
        assert(conv_entries_of(all, seed, other) =~= entries_views(collected@));
    }
    sort_entries_by_timestamp(collected)
}

/// Stable insertion sort of conversation entries by timestamp
/// ascending: each entry is inserted after any equal timestamps already
/// placed.
pub fn sort_entries_by_timestamp(entries: Vec<(PrivateMessage, String, bool)>) -> (r: Vec<
    (PrivateMessage, String, bool),
>)
    ensures
        sorted_by_timestamp(r@),
        entries_views(r@).to_multiset() == entries_views(entries@).to_multiset(),
{
    broadcast use vstd::seq_lib::group_to_multiset_ensures;

    let mut out: Vec<(PrivateMessage, String, bool)> = Vec::new();
    let mut src_vec = entries;
    let ghost full = entries_views(src_vec@);
    let mut i: usize = 0;
    proof {
        assert(entries_views(out@) =~= Seq::<
            ((u64, Seq<u8>, Seq<u8>, Seq<u8>), Seq<char>, bool),
        >::empty());
        assert(entries_views(src_vec@.take(0)) =~= Seq::<
            ((u64, Seq<u8>, Seq<u8>, Seq<u8>), Seq<char>, bool),
        >::empty());
    }
    while i < src_vec.len()
        invariant
            0 <= i <= src_vec@.len(),
            full == entries_views(src_vec@),
            sorted_by_timestamp(out@),
            entries_views(out@).to_multiset() == entries_views(src_vec@.take(i as int))
                .to_multiset(),
        decreases src_vec@.len() - i,
    {
        let e = clone_entry(&src_vec[i]);
        let ghost ev = entry_view(src_vec@[i as int]);
        let mut p: usize = out.len();
        while p > 0 && out[p - 1].0.timestamp > e.0.timestamp
            invariant
                0 <= p <= out@.len(),
                forall|m: int| p <= m < out@.len() ==> #[trigger] out@[m].0.timestamp
                    > e.0.timestamp,
            decreases p,
        {
            p = p - 1;
        }
        let ghost out_old = out@;
        out.insert(p, e);
        proof {
            assert(entries_views(out@) =~= entries_views(out_old).insert(p as int, ev));
            lemma_to_multiset_insert(entries_views(out_old), p as int, ev);
            assert(src_vec@.take(i + 1) =~= src_vec@.take(i as int).push(src_vec@[i as int]));
            assert(entries_views(src_vec@.take(i + 1)) =~= entries_views(
                src_vec@.take(i as int),
            ).push(ev));
            entries_views(src_vec@.take(i as int)).to_multiset_ensures();
            assert(entries_views(src_vec@.take(i as int)).push(ev).to_multiset() =~= entries_views(
                src_vec@.take(i as int),
            ).to_multiset().insert(ev));
            assert(entries_views(out@).to_multiset() =~= entries_views(
                src_vec@.take(i + 1),
            ).to_multiset());
            assert forall|a: int, b: int| 0 <= a <= b < out@.len() implies #[trigger] out@[a]
                .0.timestamp <= #[trigger] out@[b].0.timestamp by {
                if a < p && b == p {
                    assert(out@[a] == out_old[a]);
                } else if a == p && b > p {
                    assert(out@[b] == out_old[b - 1]);
                } else if a < p && b > p {
                    assert(out@[a] == out_old[a]);
                    assert(out@[b] == out_old[b - 1]);
                } else if a > p && b > p {
                    assert(out@[a] == out_old[a - 1]);
                    assert(out@[b] == out_old[b - 1]);
                } else if a < p && b < p {
                    assert(out@[a] == out_old[a]);
                    assert(out@[b] == out_old[b]);
                }
            }
        }
        i = i + 1;
    }
    proof {
        assert(src_vec@.take(src_vec@.len() as int) =~= src_vec@);
    }
    out
}

/// Copy one conversation entry.
fn clone_entry(e: &(PrivateMessage, String, bool)) -> (r: (PrivateMessage, String, bool))
    ensures
        entry_view(r) == entry_view(*e),
        r.0.timestamp == e.0.timestamp,
        r.0.encrypted_sender@ == e.0.encrypted_sender@,
        r.0.encrypted_content@ == e.0.encrypted_content@,
        r.0.signature_bytes@ == e.0.signature_bytes@,
        r.1@ == e.1@,
        r.2 == e.2,
{
    let msg = PrivateMessage {
        timestamp: e.0.timestamp,
        encrypted_sender: clone_bytes(&e.0.encrypted_sender),
        encrypted_content: clone_bytes(&e.0.encrypted_content),
        signature_bytes: clone_bytes(&e.0.signature_bytes),
    };
    let content = e.1.clone();
    (msg, content, e.2)
}

/// Copy a byte vector.
pub fn clone_bytes(v: &Vec<u8>) -> (r: Vec<u8>)
    ensures
        r@ == v@,
{
    let mut out: Vec<u8> = Vec::new();
    let mut i: usize = 0;
    while i < v.len()
        invariant
            i <= v@.len(),
            out@ == v@.take(i as int),
        decreases v@.len() - i,
    {
        out.push(v[i]);
        i = i + 1;
    }
    proof {
        assert(out@ =~= v@);
    }
    out
}

/// A message row for the caller's user interface.
pub struct ChatMessage {
    /// The decrypted sender address string.
    pub sender: String,
    /// The decrypted message text.
    pub content: String,
    /// Unix seconds at composition time.
    pub timestamp: u64,
    /// Whether the signature verified.
    pub verified: bool,
    /// Whether the local user sent this message.
    pub is_own_message: bool,
}

/// What one conversation entry becomes as a chat row for the local
/// user: nothing when the sender field does not decrypt.
pub open spec fn chat_of(
    e: ((u64, Seq<u8>, Seq<u8>, Seq<u8>), Seq<char>, bool),
    seed: Seq<u8>,
    other: Seq<u8>,
    own: Seq<char>,
) -> Option<(Seq<char>, Seq<char>, u64, bool, bool)> {
    match decrypted_text_of(e.0.1, seed, other) {
        Ok(sender) => Some((sender, e.1, e.0.0, e.2, sender == own)),
        Err(_) => None,
    }
}

/// The chat rows of a list of entries, in order.
pub open spec fn chats_of(
    es: Seq<((u64, Seq<u8>, Seq<u8>, Seq<u8>), Seq<char>, bool)>,
    seed: Seq<u8>,
    other: Seq<u8>,
    own: Seq<char>,
) -> Seq<(Seq<char>, Seq<char>, u64, bool, bool)>
    decreases es.len(),
{
    if es.len() == 0 {
        Seq::empty()
    } else {
        let rest = chats_of(es.drop_first(), seed, other, own);
        match chat_of(es[0], seed, other, own) {
            Some(c) => seq![c] + rest,
            None => rest,
        }
    }
}

/// Views of chat rows.
pub open spec fn chats_views(v: Seq<ChatMessage>) -> Seq<(Seq<char>, Seq<char>, u64, bool, bool)> {
    Seq::new(
        v.len(),
        |k: int| (v[k].sender@, v[k].content@, v[k].timestamp, v[k].verified, v[k].is_own_message),
    )
}

/// Turn processed conversation entries into chat rows for the local
/// user: decrypt each sender, mark the rows the local user sent, skip
/// entries whose sender does not decrypt, keep order.
pub fn to_chat_messages(
    keypair: &Keypair,
    other_pubkey: &Vec<u8>,
    entries: &Vec<(PrivateMessage, String, bool)>,
) -> (r: Vec<ChatMessage>)
    requires
        keypair.wf(),
    ensures
        chats_views(r@) == chats_of(
            entries_views(entries@),
            keypair.seed(),
            other_pubkey@,
            zb32_of(keypair.spec_public_key()),
        ),
{
    let ghost seed = keypair.seed();
    let ghost other = other_pubkey@;
    let ghost own = zb32_of(keypair.spec_public_key());
    let ghost evs = entries_views(entries@);
    let current_user = keypair.public_key_string();
    let mut out: Vec<ChatMessage> = Vec::new();
    let mut i: usize = 0;
    proof {
        assert(chats_views(out@) =~= Seq::<(Seq<char>, Seq<char>, u64, bool, bool)>::empty());
        assert(evs.skip(0) =~= evs);
    }
    while i < entries.len()
        invariant
            keypair.wf(),
            seed == keypair.seed(),
            other == other_pubkey@,
            own == zb32_of(keypair.spec_public_key()),
            evs == entries_views(entries@),
            current_user@ == own,
            0 <= i <= entries@.len(),
            chats_of(evs, seed, other, own) == chats_views(out@) + chats_of(
                evs.skip(i as int),
                seed,
                other,
                own,
            ),
        decreases entries@.len() - i,
    {
        let ghost rem = evs.skip(i as int);
        proof {
            assert(rem[0] == evs[i as int]);
            assert(rem.drop_first() =~= evs.skip(i + 1));
        }
        let entry = &entries[i];
        let ghost old_views = chats_views(out@);
        match entry.0.decrypt_sender(keypair, other_pubkey) {
            Ok(sender) => {
                let is_own = sender == current_user;
                let ghost c = (sender@, entry.1@, entry.0.timestamp, entry.2, sender@ == own);
                proof {
                    assert(chat_of(rem[0], seed, other, own) == Some(c));
                }
                let row = ChatMessage {
                    sender,
                    content: entry.1.clone(),
                    timestamp: entry.0.timestamp,
                    verified: entry.2,
                    is_own_message: is_own,
                };
                out.push(row);
                proof {
                    assert(chats_views(out@) =~= old_views + seq![c]);
                    assert(old_views + (seq![c] + chats_of(evs.skip(i + 1), seed, other, own))
                        =~= chats_views(out@) + chats_of(evs.skip(i + 1), seed, other, own));
                }
            },
            Err(_) => {
                proof {
                    assert(chat_of(rem[0], seed, other, own) is None);
                }
            },
        }
        i = i + 1;
    }
    proof {
        assert(chats_of(evs.skip(entries@.len() as int), seed, other, own) =~= Seq::<
            (Seq<char>, Seq<char>, u64, bool, bool),
        >::empty());
        assert(chats_views(out@) =~= chats_of(evs, seed, other, own));
    }
    out
}

} // verus!
