//! Messaging operations above the envelope and store layers: preparing
//! a message write, decoding a recovery file, and merging messages from
//! many contacts into one ordered list.

use vstd::prelude::*;
use vstd::string::StringSliceAdditionalSpecFns;
use crate::address::{conversation_path_of, message_uri_of, message_uri};
use crate::conversation::{entries_views, lemma_to_multiset_insert};
use crate::curve::mont_of;
use crate::encoding::{base64_decode, str_to_bytes};
use crate::entropy::{new_object_id, now_unix_seconds};
use crate::envelope::{composed_view, decrypted_text_of, PrivateMessage};
use crate::errors::CoreError;
use crate::keys::Keypair;
use crate::wire::{serialize_private_message, spec_parse_envelope, lemma_envelope_round_trip};

verus! {

/// What the secret seed inside a recovery file is, for given file bytes
/// and passphrase; a function of the two alone.
pub uninterp spec fn recovery_seed_of(file: Seq<u8>, passphrase: Seq<char>) -> Option<Seq<u8>>;

/// Relies on pubky_common::recovery_file::decrypt_recovery_file: checks
/// the spec line, derives the key from the passphrase, opens the sealed
/// seed; deterministic in its inputs; a recovered seed is 32 bytes.
#[verifier::external_body]
fn recovery_decrypt(file: &Vec<u8>, passphrase: &str) -> (r: Option<Vec<u8>>)
    ensures
        r is Some <==> recovery_seed_of(file@, passphrase@) is Some,
        r is Some ==> Some(r->Some_0@) == recovery_seed_of(file@, passphrase@),
        r is Some ==> r->Some_0@.len() == 32,
{
    match pubky_common::recovery_file::decrypt_recovery_file(file, passphrase) {
        Ok(keypair) => Some(keypair.secret_key().to_vec()),
        Err(_) => None,
    }
}

/// Decode a base64 recovery file and decrypt it with the passphrase.
/// Empty inputs and undecodable base64 are rejected as `FormatError`; a
/// wrong passphrase or corrupt file is `DecryptionFailed`.
pub fn decrypt_recovery_file(recovery_file: &str, passphrase: &str) -> (r: Result<
    Keypair,
    CoreError,
>)
    ensures
        recovery_file@.len() == 0 || passphrase@.len() == 0 ==> r == Err::<Keypair, CoreError>(
            CoreError::FormatError,
        ),
        r is Ok <==> (recovery_file@.len() > 0 && passphrase@.len() > 0 && crate::encoding::b64_parse_of(
            recovery_file@,
        ) is Some && recovery_seed_of(
            crate::encoding::b64_parse_of(recovery_file@)->Some_0,
            passphrase@,
        ) is Some),
        r is Ok ==> Some(r->Ok_0.seed()) == recovery_seed_of(
            crate::encoding::b64_parse_of(recovery_file@)->Some_0,
            passphrase@,
        ),
        r is Ok ==> r->Ok_0.wf(),
{
    if recovery_file.unicode_len() == 0 || passphrase.unicode_len() == 0 {
        return Err(CoreError::FormatError);
    }
    let file_bytes = match base64_decode(recovery_file) {
        Some(b) => b,
        None => {
            return Err(CoreError::FormatError);
        },
    };
    let seed = match recovery_decrypt(&file_bytes, passphrase) {
        Some(s) => s,
        None => {
            return Err(CoreError::DecryptionFailed);
        },
    };
    Ok(Keypair::from_secret_key(&seed))
}

/// Prepare one message write: compose and sign the envelope at the
/// current time, serialize it, and build the object URI
/// `pubky://<sender><conversation path><fresh id>.json`. Fails exactly
/// when the recipient key is rejected by shared-secret derivation.
pub fn prepare_send(sender_keypair: &Keypair, recipient_pk: &Vec<u8>, content: &str) -> (r: Result<
    (String, Vec<u8>, String),
    CoreError,
>)
    requires
        sender_keypair.wf(),
    ensures
        r is Ok <==> (recipient_pk@.len() == 32 && mont_of(recipient_pk@) is Some),
        r is Ok ==> {
            let (uri, body, msg_id) = r->Ok_0;
            let parsed = spec_parse_envelope(body@);
            &&& parsed is Some
            &&& composed_view(
                parsed->Some_0.0,
                parsed->Some_0.1,
                parsed->Some_0.2,
                parsed->Some_0.3,
                sender_keypair.seed(),
                recipient_pk@,
                content.spec_bytes(),
            )
            &&& msg_id@.len() == 36
            &&& uri@ == message_uri_of(
                crate::keys::zb32_of(sender_keypair.spec_public_key()),
                conversation_path_of(sender_keypair.seed(), recipient_pk@),
                msg_id@,
            )
        },
        recipient_pk@.len() != 32 ==> r == Err::<(String, Vec<u8>, String), CoreError>(
            CoreError::InvalidKeyLength,
        ),
        recipient_pk@.len() == 32 && mont_of(recipient_pk@) is None ==> r == Err::<
            (String, Vec<u8>, String),
            CoreError,
        >(CoreError::InvalidPoint),
{
    let message = match PrivateMessage::new(sender_keypair, recipient_pk, content) {
        Ok(m) => m,
        Err(e) => {
            return Err(e);
        },
    };
    let body = serialize_private_message(&message);
    proof {
        lemma_envelope_round_trip(
            message.timestamp,
            message.encrypted_sender@,
            message.encrypted_content@,
            message.signature_bytes@,
        );
    }
    let msg_id = new_object_id();
    let path = match sender_keypair.private_conversation_path(recipient_pk) {
        Ok(p) => p,
        Err(e) => {
            return Err(e);
        },
    };
    let owner = sender_keypair.public_key_string();
    let uri = message_uri(owner.as_str(), path.as_str(), msg_id.as_str());
    Ok((uri, body, msg_id))
}

/// Byte-wise lexicographic order on strings, as Rust's own string order
/// compares them.
pub open spec fn lex_le(a: Seq<u8>, b: Seq<u8>) -> bool
    decreases a.len(),
{
    if a.len() == 0 {
        true
    } else if b.len() == 0 {
        false
    } else if a[0] < b[0] {
        true
    } else if a[0] > b[0] {
        false
    } else {
        lex_le(a.drop_first(), b.drop_first())
    }
}

/// The lexicographic order is total.
pub proof fn lemma_lex_le_total(a: Seq<u8>, b: Seq<u8>)
    ensures
        lex_le(a, b) || lex_le(b, a),
    decreases a.len(),
{
    if a.len() > 0 && b.len() > 0 && a[0] == b[0] {
        lemma_lex_le_total(a.drop_first(), b.drop_first());
    }
}

/// The lexicographic order is transitive.
pub proof fn lemma_lex_le_trans(a: Seq<u8>, b: Seq<u8>, c: Seq<u8>)
    requires
        lex_le(a, b),
        lex_le(b, c),
    ensures
        lex_le(a, c),
    decreases a.len(),
{
    if a.len() > 0 && b.len() > 0 && c.len() > 0 && a[0] == b[0] && b[0] == c[0] {
        lemma_lex_le_trans(a.drop_first(), b.drop_first(), c.drop_first());
    }
}

/// Compare two strings in byte-wise lexicographic order.
pub fn str_lex_le(a: &str, b: &str) -> (r: bool)
    ensures
        r == lex_le(a.spec_bytes(), b.spec_bytes()),
{
    let av = str_to_bytes(a);
    let bv = str_to_bytes(b);
    bytes_lex_le(&av, &bv)
}

/// Compare two byte vectors in lexicographic order.
pub fn bytes_lex_le(a: &Vec<u8>, b: &Vec<u8>) -> (r: bool)
    ensures
        r == lex_le(a@, b@),
{
    let mut i: usize = 0;
    proof {
        assert(a@.skip(0) =~= a@);
        assert(b@.skip(0) =~= b@);
    }
    loop
        invariant
            i <= a@.len(),
            i <= b@.len(),
            forall|m: int| 0 <= m < i ==> a@[m] == b@[m],
            lex_le(a@, b@) == lex_le(a@.skip(i as int), b@.skip(i as int)),
        decreases a@.len() - i,
    {
        let ghost ar = a@.skip(i as int);
        let ghost br = b@.skip(i as int);
        proof {
            if ar.len() > 0 {
                assert(ar[0] == a@[i as int]);
            }
            if br.len() > 0 {
                assert(br[0] == b@[i as int]);
            }
        }
        if i >= a.len() {
            return true;
        }
        if i >= b.len() {
            return false;
        }
        if a[i] < b[i] {
            return true;
        }
        if a[i] > b[i] {
            return false;
        }
        proof {
            assert(ar.drop_first() =~= a@.skip(i + 1));
            assert(br.drop_first() =~= b@.skip(i + 1));
        }
        i = i + 1;
    }
}

/// View of one merged row with timestamp.
pub open spec fn row_view(e: (String, String, u64, bool)) -> (Seq<char>, Seq<char>, u64, bool) {
    (e.0@, e.1@, e.2, e.3)
}

/// Views of merged rows.
pub open spec fn rows_views(v: Seq<(String, String, u64, bool)>) -> Seq<
    (Seq<char>, Seq<char>, u64, bool),
> {
    Seq::new(v.len(), |k: int| row_view(v[k]))
}

/// What one conversation entry contributes to a merged row: the
/// decrypted sender, the content, the timestamp and the flag; nothing
/// when the sender does not decrypt.
pub open spec fn merged_row_of(
    e: ((u64, Seq<u8>, Seq<u8>, Seq<u8>), Seq<char>, bool),
    seed: Seq<u8>,
    contact: Seq<u8>,
) -> Option<(Seq<char>, Seq<char>, u64, bool)> {
    match decrypted_text_of(e.0.1, seed, contact) {
        Ok(sender) => Some((sender, e.1, e.0.0, e.2)),
        Err(_) => None,
    }
}

/// The merged rows of one contact's conversation entries, in order.
pub open spec fn merged_rows_of(
    es: Seq<((u64, Seq<u8>, Seq<u8>, Seq<u8>), Seq<char>, bool)>,
    seed: Seq<u8>,
    contact: Seq<u8>,
) -> Seq<(Seq<char>, Seq<char>, u64, bool)>
    decreases es.len(),
{
    if es.len() == 0 {
        Seq::empty()
    } else {
        let rest = merged_rows_of(es.drop_first(), seed, contact);
        match merged_row_of(es[0], seed, contact) {
            Some(c) => seq![c] + rest,
            None => rest,
        }
    }
}

/// The merged rows over all contacts, in contact order.
pub open spec fn all_merged_rows_of(
    contacts: Seq<Seq<u8>>,
    conversations: Seq<Seq<((u64, Seq<u8>, Seq<u8>, Seq<u8>), Seq<char>, bool)>>,
    seed: Seq<u8>,
) -> Seq<(Seq<char>, Seq<char>, u64, bool)>
    decreases contacts.len(),
{
    if contacts.len() == 0 || conversations.len() == 0 {
        Seq::empty()
    } else {
        merged_rows_of(conversations[0], seed, contacts[0]) + all_merged_rows_of(
            contacts.drop_first(),
            conversations.drop_first(),
            seed,
        )
    }
}

/// Views of the contact keys.
pub open spec fn contacts_views(v: Seq<Vec<u8>>) -> Seq<Seq<u8>> {
    Seq::new(v.len(), |k: int| v[k]@)
}

/// Views of the per-contact conversations.
pub open spec fn conversations_views(v: Seq<Vec<(PrivateMessage, String, bool)>>) -> Seq<
    Seq<((u64, Seq<u8>, Seq<u8>, Seq<u8>), Seq<char>, bool)>,
> {
    Seq::new(v.len(), |k: int| entries_views(v[k]@))
}

/// Collect the merged rows of all contacts' processed conversations, in
/// contact order, decrypting each entry's sender against its contact
/// and skipping entries whose sender does not decrypt.
fn collect_contact_rows(
    keypair: &Keypair,
    contacts: &Vec<Vec<u8>>,
    conversations: &Vec<Vec<(PrivateMessage, String, bool)>>,
) -> (r: Vec<(String, String, u64, bool)>)
    requires
        keypair.wf(),
        contacts@.len() == conversations@.len(),
    ensures
        rows_views(r@) == all_merged_rows_of(
            contacts_views(contacts@),
            conversations_views(conversations@),
            keypair.seed(),
        ),
{
    let ghost seed = keypair.seed();
    let ghost cvs = contacts_views(contacts@);
    let ghost vvs = conversations_views(conversations@);
    let mut out: Vec<(String, String, u64, bool)> = Vec::new();
    let mut c: usize = 0;
    proof {
        assert(rows_views(out@) =~= Seq::<(Seq<char>, Seq<char>, u64, bool)>::empty());
        assert(cvs.skip(0) =~= cvs);
        assert(vvs.skip(0) =~= vvs);
    }
    while c < contacts.len()
        invariant
            keypair.wf(),
            seed == keypair.seed(),
            cvs == contacts_views(contacts@),
            vvs == conversations_views(conversations@),
            cvs.len() == vvs.len(),
            0 <= c <= cvs.len(),
            all_merged_rows_of(cvs, vvs, seed) == rows_views(out@) + all_merged_rows_of(
                cvs.skip(c as int),
                vvs.skip(c as int),
                seed,
            ),
        decreases contacts@.len() - c,
    {
        let ghost crem = cvs.skip(c as int);
        let ghost vrem = vvs.skip(c as int);
        proof {
            assert(crem[0] == cvs[c as int]);
            assert(vrem[0] == vvs[c as int]);
            assert(crem.drop_first() =~= cvs.skip(c + 1));
            assert(vrem.drop_first() =~= vvs.skip(c + 1));
        }
        let contact = &contacts[c];
        let convo = &conversations[c];
        let ghost evs = entries_views(convo@);
        let mut i: usize = 0;
        proof {
            assert(evs.skip(0) =~= evs);
            assert(rows_views(out@) + merged_rows_of(evs, seed, contact@) + all_merged_rows_of(
                cvs.skip(c + 1),
                vvs.skip(c + 1),
                seed,
            ) =~= rows_views(out@) + (merged_rows_of(evs, seed, contact@) + all_merged_rows_of(
                cvs.skip(c + 1),
                vvs.skip(c + 1),
                seed,
            )));
        }
        while i < convo.len()
            invariant
                keypair.wf(),
                seed == keypair.seed(),
                evs == entries_views(convo@),
                0 <= i <= evs.len(),
                all_merged_rows_of(cvs, vvs, seed) == rows_views(out@) + merged_rows_of(
                    evs.skip(i as int),
                    seed,
                    contact@,
                ) + all_merged_rows_of(cvs.skip(c + 1), vvs.skip(c + 1), seed),
            decreases convo@.len() - i,
        {
            let ghost erem = evs.skip(i as int);
            proof {
                assert(erem[0] == evs[i as int]);
                assert(erem.drop_first() =~= evs.skip(i + 1));
            }
            let entry = &convo[i];
            let ghost old_views = rows_views(out@);
            match entry.0.decrypt_sender(keypair, contact) {
                Ok(sender) => {
                    let ghost rv = (sender@, entry.1@, entry.0.timestamp, entry.2);
                    proof {
                        assert(merged_row_of(erem[0], seed, contact@) == Some(rv));
                    }
                    out.push((sender, entry.1.clone(), entry.0.timestamp, entry.2));
                    proof {
                        assert(rows_views(out@) =~= old_views + seq![rv]);
                        assert(old_views + (seq![rv] + merged_rows_of(evs.skip(i + 1), seed,
                            contact@)) + all_merged_rows_of(cvs.skip(c + 1), vvs.skip(c + 1), seed)
                            =~= rows_views(out@) + merged_rows_of(evs.skip(i + 1), seed, contact@)
                            + all_merged_rows_of(cvs.skip(c + 1), vvs.skip(c + 1), seed));
                    }
                },
                Err(_) => {
                    proof {
                        assert(merged_row_of(erem[0], seed, contact@) is None);
                    }
                },
            }
            i = i + 1;
        }
        proof {
            assert(merged_rows_of(evs.skip(evs.len() as int), seed, contact@) =~= Seq::<
                (Seq<char>, Seq<char>, u64, bool),
            >::empty());
            assert(rows_views(out@) + merged_rows_of(evs.skip(evs.len() as int), seed, contact@)
                + all_merged_rows_of(cvs.skip(c + 1), vvs.skip(c + 1), seed) =~= rows_views(out@)
                + all_merged_rows_of(cvs.skip(c + 1), vvs.skip(c + 1), seed));
        }
        c = c + 1;
    }
    proof {
        assert(all_merged_rows_of(cvs.skip(cvs.len() as int), vvs.skip(cvs.len() as int), seed)
            =~= Seq::<(Seq<char>, Seq<char>, u64, bool)>::empty());
        assert(rows_views(out@) =~= all_merged_rows_of(cvs, vvs, seed));
    }
    out
}

/// Merged rows ordered most recent first.
pub open spec fn sorted_by_timestamp_desc(v: Seq<(String, String, u64, bool)>) -> bool {
    forall|i: int, j: int| 0 <= i <= j < v.len() ==> #[trigger] v[i].2 >= #[trigger] v[j].2
}

/// Merge all contacts' processed conversations into one list of
/// (sender, content, timestamp, verified), most recent first (ties keep
/// encounter order). The result is a permutation of exactly the rows
/// whose sender decrypts.
pub fn get_all_new_messages_from_contacts_with_timestamp(
    keypair: &Keypair,
    contacts: &Vec<Vec<u8>>,
    conversations: &Vec<Vec<(PrivateMessage, String, bool)>>,
) -> (r: Vec<(String, String, u64, bool)>)
    requires
        keypair.wf(),
        contacts@.len() == conversations@.len(),
    ensures
        sorted_by_timestamp_desc(r@),
        rows_views(r@).to_multiset() == all_merged_rows_of(
            contacts_views(contacts@),
            conversations_views(conversations@),
            keypair.seed(),
        ).to_multiset(),
{
    broadcast use vstd::seq_lib::group_to_multiset_ensures;

    let rows = collect_contact_rows(keypair, contacts, conversations);
    let ghost full = rows_views(rows@);
    let mut out: Vec<(String, String, u64, bool)> = Vec::new();
    let mut i: usize = 0;
    proof {
        assert(rows_views(out@) =~= Seq::<(Seq<char>, Seq<char>, u64, bool)>::empty());
        assert(rows_views(rows@.take(0)) =~= Seq::<(Seq<char>, Seq<char>, u64, bool)>::empty());
    }
    while i < rows.len()
        invariant
            0 <= i <= rows@.len(),
            full == rows_views(rows@),
            sorted_by_timestamp_desc(out@),
            rows_views(out@).to_multiset() == rows_views(rows@.take(i as int)).to_multiset(),
        decreases rows@.len() - i,
    {
        let e = clone_row(&rows[i]);
        let ghost ev = row_view(rows@[i as int]);
        let mut p: usize = out.len();
        while p > 0 && out[p - 1].2 < e.2
            invariant
                0 <= p <= out@.len(),
                forall|m: int| p <= m < out@.len() ==> #[trigger] out@[m].2 < e.2,
            decreases p,
        {
            p = p - 1;
        }
        let ghost out_old = out@;
        out.insert(p, e);
        proof {
            assert(rows_views(out@) =~= rows_views(out_old).insert(p as int, ev));
            lemma_to_multiset_insert(rows_views(out_old), p as int, ev);
            assert(rows@.take(i + 1) =~= rows@.take(i as int).push(rows@[i as int]));
            assert(rows_views(rows@.take(i + 1)) =~= rows_views(rows@.take(i as int)).push(ev));
            rows_views(rows@.take(i as int)).to_multiset_ensures();
            assert(rows_views(out@).to_multiset() =~= rows_views(rows@.take(i + 1)).to_multiset());
            assert forall|a: int, b: int| 0 <= a <= b < out@.len() implies #[trigger] out@[a].2
                >= #[trigger] out@[b].2 by {
                if a < p && b == p {
                    assert(out@[a] == out_old[a]);
                } else if a == p && b > p {
                    assert(out@[b] == out_old[b - 1]);
                } else if a < p && b > p {
                    assert(out@[a] == out_old[a]);
                    assert(out@[b] == out_old[b - 1]);
                } else if a > p && b > p {
                    assert(out@[a] == out_old[a - 1]);
                    assert(out@[b] == out_old[b - 1]);
                } else if a < p && b < p {
                    assert(out@[a] == out_old[a]);
                    assert(out@[b] == out_old[b]);
                }
            }
        }
        i = i + 1;
    }
    proof {
        assert(rows@.take(rows@.len() as int) =~= rows@);
    }
    out
}

/// Copy one merged row.
fn clone_row(e: &(String, String, u64, bool)) -> (r: (String, String, u64, bool))
    ensures
        row_view(r) == row_view(*e),
        r.0@ == e.0@,
        r.1@ == e.1@,
        r.2 == e.2,
        r.3 == e.3,
{
    (e.0.clone(), e.1.clone(), e.2, e.3)
}

/// Rows without timestamps, ordered by sender.
pub open spec fn short_rows_views(v: Seq<(String, String, bool)>) -> Seq<
    (Seq<char>, Seq<char>, bool),
> {
    Seq::new(v.len(), |k: int| (v[k].0@, v[k].1@, v[k].2))
}

/// Drop the timestamps from merged rows.
pub open spec fn drop_ts(rows: Seq<(Seq<char>, Seq<char>, u64, bool)>) -> Seq<
    (Seq<char>, Seq<char>, bool),
> {
    Seq::new(rows.len(), |k: int| (rows[k].0, rows[k].1, rows[k].3))
}

/// Rows ordered by sender in byte-wise lexicographic order.
pub open spec fn sorted_by_sender(v: Seq<(String, String, bool)>) -> bool {
    forall|i: int, j: int|
        0 <= i <= j < v.len() ==> lex_le(
            vstd::utf8::encode_utf8(#[trigger] v[i].0@),
            vstd::utf8::encode_utf8(#[trigger] v[j].0@),
        )
}

/// Merge all contacts' processed conversations into one list of
/// (sender, content, verified), ordered by sender (ties keep encounter
/// order). The result is a permutation of exactly the rows whose sender
/// decrypts.
pub fn get_all_new_messages_from_contacts(
    keypair: &Keypair,
    contacts: &Vec<Vec<u8>>,
    conversations: &Vec<Vec<(PrivateMessage, String, bool)>>,
) -> (r: Vec<(String, String, bool)>)
    requires
        keypair.wf(),
        contacts@.len() == conversations@.len(),
    ensures
        sorted_by_sender(r@),
        short_rows_views(r@).to_multiset() == drop_ts(
            all_merged_rows_of(
                contacts_views(contacts@),
                conversations_views(conversations@),
                keypair.seed(),
            ),
        ).to_multiset(),
{
    broadcast use vstd::seq_lib::group_to_multiset_ensures;

    let rows = collect_contact_rows(keypair, contacts, conversations);
    let ghost full = drop_ts(rows_views(rows@));
    let mut out: Vec<(String, String, bool)> = Vec::new();
    let mut i: usize = 0;
    proof {
        assert(short_rows_views(out@) =~= Seq::<(Seq<char>, Seq<char>, bool)>::empty());
        assert(drop_ts(rows_views(rows@.take(0))) =~= Seq::<(Seq<char>, Seq<char>, bool)>::empty());
    }
    while i < rows.len()
        invariant
            0 <= i <= rows@.len(),
            full == drop_ts(rows_views(rows@)),
            sorted_by_sender(out@),
            short_rows_views(out@).to_multiset() == drop_ts(rows_views(rows@.take(i as int)))
                .to_multiset(),
        decreases rows@.len() - i,
    {
        let row = &rows[i];
        let e: (String, String, bool) = (row.0.clone(), row.1.clone(), row.3);
        let ghost ev = (rows@[i as int].0@, rows@[i as int].1@, rows@[i as int].3);
        let mut p: usize = out.len();
        while p > 0 && !str_lex_le(out[p - 1].0.as_str(), e.0.as_str())
            invariant
                0 <= p <= out@.len(),
                e.0@ == ev.0,
                forall|m: int|
                    p <= m < out@.len() ==> !lex_le(
                        vstd::utf8::encode_utf8(#[trigger] out@[m].0@),
                        vstd::utf8::encode_utf8(ev.0),
                    ),
            decreases p,
        {
            p = p - 1;
        }
        let ghost out_old = out@;
        out.insert(p, e);
        proof {
            assert(short_rows_views(out@) =~= short_rows_views(out_old).insert(p as int, ev));
            lemma_to_multiset_insert(short_rows_views(out_old), p as int, ev);
            assert(rows@.take(i + 1) =~= rows@.take(i as int).push(rows@[i as int]));
            assert(drop_ts(rows_views(rows@.take(i + 1))) =~= drop_ts(
                rows_views(rows@.take(i as int)),
            ).push(ev));
            drop_ts(rows_views(rows@.take(i as int))).to_multiset_ensures();
            assert(short_rows_views(out@).to_multiset() =~= drop_ts(
                rows_views(rows@.take(i + 1)),
            ).to_multiset());
            assert forall|a: int, b: int| 0 <= a <= b < out@.len() implies lex_le(
                vstd::utf8::encode_utf8(#[trigger] out@[a].0@),
                vstd::utf8::encode_utf8(#[trigger] out@[b].0@),
            ) by {
                if a == b {
                    lemma_lex_le_total(
                        vstd::utf8::encode_utf8(out@[a].0@),
                        vstd::utf8::encode_utf8(out@[a].0@),
                    );
                } else if a < p && b == p {
                    assert(out@[a] == out_old[a]);
                    if p < out_old.len() + 1 && p >= 1 {
                        lemma_lex_le_total(
                            vstd::utf8::encode_utf8(out_old[p - 1].0@),
                            vstd::utf8::encode_utf8(ev.0),
                        );
                        if (a as int) < p - 1 {
                            lemma_lex_le_trans(
                                vstd::utf8::encode_utf8(out_old[a].0@),
                                vstd::utf8::encode_utf8(out_old[p - 1].0@),
                                vstd::utf8::encode_utf8(ev.0),
                            );
                        }
                    }
                } else if a == p && b > p {
                    assert(out@[b] == out_old[b - 1]);
                    lemma_lex_le_total(
                        vstd::utf8::encode_utf8(out_old[b - 1].0@),
                        vstd::utf8::encode_utf8(ev.0),
                    );
                } else if a < p && b > p {
                    assert(out@[a] == out_old[a]);
                    assert(out@[b] == out_old[b - 1]);
                } else if a > p && b > p {
                    assert(out@[a] == out_old[a - 1]);
                    assert(out@[b] == out_old[b - 1]);
                } else if a < p && b < p {
                    assert(out@[a] == out_old[a]);
                    assert(out@[b] == out_old[b]);
                }
            }
        }
        i = i + 1;
    }
    proof {
        assert(rows@.take(rows@.len() as int) =~= rows@);
    }
    out
}

} // verus!
