use pubky_messenger::conversation::{process_message_bodies, to_chat_messages};
use pubky_messenger::envelope::PrivateMessage;
use pubky_messenger::keys::Keypair;
use pubky_messenger::messaging::{
    get_all_new_messages_from_contacts, get_all_new_messages_from_contacts_with_timestamp,
    prepare_send,
};
use pubky_messenger::profile::resolve_profiles;
use pubky_messenger::session::SessionState;
use pubky_messenger::wire::serialize_private_message;

fn kp(byte: u8) -> Keypair {
    Keypair::from_secret_key(&vec![byte; 32])
}

fn body_of(sender: &Keypair, recipient: &Keypair, text: &str, ts: u64) -> String {
    let msg = PrivateMessage::new_at(sender, &recipient.public_key(), text, ts).unwrap();
    String::from_utf8(serialize_private_message(&msg)).unwrap()
}

#[test]
fn conversation_is_sorted_ascending_and_garbage_is_skipped() {
    let a = kp(1);
    let b = kp(2);
    let bodies = vec![
        body_of(&a, &b, "second", 200),
        "not an envelope at all".to_string(),
        body_of(&b, &a, "third", 300),
        "{\"timestamp\":5,\"encrypted_sender\":[1],\"msg_id\":\"legacy\"}".to_string(),
        body_of(&a, &b, "first", 100),
    ];
    let entries = process_message_bodies(&b, &a.public_key(), &bodies);
    assert_eq!(entries.len(), 3);
    assert_eq!(entries[0].1, "first");
    assert_eq!(entries[1].1, "second");
    assert_eq!(entries[2].1, "third");
    assert!(entries[0].0.timestamp <= entries[1].0.timestamp);
    assert!(entries[1].0.timestamp <= entries[2].0.timestamp);
    assert!(entries.iter().all(|e| e.2));
}

#[test]
fn equal_timestamps_keep_encounter_order() {
    let a = kp(1);
    let b = kp(2);
    let bodies = vec![
        body_of(&a, &b, "one", 500),
        body_of(&a, &b, "two", 500),
        body_of(&a, &b, "zero", 100),
    ];
    let entries = process_message_bodies(&b, &a.public_key(), &bodies);
    assert_eq!(entries.len(), 3);
    assert_eq!(entries[0].1, "zero");
    assert_eq!(entries[1].1, "one");
    assert_eq!(entries[2].1, "two");
}

#[test]
fn scenario_a_sends_hello_to_b() {
    let a = kp(1);
    let b = kp(2);
    let t = 1712000000u64;
    let body = body_of(&a, &b, "hello", t);
    // B fetches the conversation with A.
    let entries = process_message_bodies(&b, &a.public_key(), &vec![body.clone()]);
    assert_eq!(entries.len(), 1);
    assert_eq!(entries[0].1, "hello");
    assert_eq!(entries[0].0.timestamp, t);
    assert!(entries[0].2);
    let chats = to_chat_messages(&b, &a.public_key(), &entries);
    assert_eq!(chats.len(), 1);
    assert_eq!(chats[0].sender, a.public_key_string());
    assert_eq!(chats[0].content, "hello");
    assert_eq!(chats[0].timestamp, t);
    assert!(chats[0].verified);
    assert!(!chats[0].is_own_message);
    // A fetches the conversation with B before B replies: A sees its own
    // sent message through the shared address.
    let entries_a = process_message_bodies(&a, &b.public_key(), &vec![body]);
    assert_eq!(entries_a.len(), 1);
    assert_eq!(entries_a[0].1, "hello");
    assert_eq!(entries_a[0].0.timestamp, t);
    assert!(entries_a[0].2);
    let chats_a = to_chat_messages(&a, &b.public_key(), &entries_a);
    assert_eq!(chats_a[0].sender, a.public_key_string());
    assert!(chats_a[0].is_own_message);
}

#[test]
fn contact_merge_sorts_most_recent_first() {
    let me = kp(9);
    let a = kp(1);
    let b = kp(2);
    let conv_a = process_message_bodies(
        &me,
        &a.public_key(),
        &vec![body_of(&a, &me, "old", 10), body_of(&a, &me, "newest", 90)],
    );
    let conv_b = process_message_bodies(
        &me,
        &b.public_key(),
        &vec![body_of(&b, &me, "middle", 50)],
    );
    let contacts = vec![a.public_key(), b.public_key()];
    let conversations = vec![conv_a, conv_b];
    let merged =
        get_all_new_messages_from_contacts_with_timestamp(&me, &contacts, &conversations);
    assert_eq!(merged.len(), 3);
    assert_eq!(merged[0].1, "newest");
    assert_eq!(merged[1].1, "middle");
    assert_eq!(merged[2].1, "old");
    assert_eq!(merged[0].0, a.public_key_string());
    assert_eq!(merged[1].0, b.public_key_string());
}

#[test]
fn contact_merge_without_timestamp_sorts_by_sender() {
    let me = kp(9);
    let a = kp(1);
    let b = kp(2);
    let conv_a = process_message_bodies(
        &me,
        &a.public_key(),
        &vec![body_of(&a, &me, "from a", 10)],
    );
    let conv_b = process_message_bodies(
        &me,
        &b.public_key(),
        &vec![body_of(&b, &me, "from b", 50)],
    );
    let contacts = vec![a.public_key(), b.public_key()];
    let conversations = vec![conv_a, conv_b];
    let merged = get_all_new_messages_from_contacts(&me, &contacts, &conversations);
    assert_eq!(merged.len(), 2);
    let mut senders: Vec<String> = merged.iter().map(|r| r.0.clone()).collect();
    let mut expected = vec![a.public_key_string(), b.public_key_string()];
    expected.sort();
    assert_eq!(senders.remove(0), expected[0]);
    assert_eq!(senders.remove(0), expected[1]);
}

#[test]
fn scenario_resolve_profiles_with_one_missing() {
    let urls = vec![
        "pubky://me/pub/pubky.app/follows/AAA".to_string(),
        "pubky://me/pub/pubky.app/follows/BBB".to_string(),
        "pubky://me/pub/pubky.app/follows/CCC".to_string(),
    ];
    let bodies = vec![
        Some("{\"name\":\"Alice\"}".to_string()),
        None,
        Some("{\"name\":\"Cleo\",\"status\":null}".to_string()),
    ];
    let users = resolve_profiles(&urls, &bodies);
    assert_eq!(users.len(), 3);
    assert_eq!(users[0].pubky, "AAA");
    assert_eq!(users[0].name.as_deref(), Some("Alice"));
    assert_eq!(users[1].pubky, "BBB");
    assert!(users[1].name.is_none());
    assert_eq!(users[2].pubky, "CCC");
    assert_eq!(users[2].name.as_deref(), Some("Cleo"));
}

#[test]
fn resolve_profiles_tolerates_unparseable_profile() {
    let urls = vec!["pubky://me/pub/pubky.app/follows/XYZ".to_string()];
    let bodies = vec![Some("500 internal server error".to_string())];
    let users = resolve_profiles(&urls, &bodies);
    assert_eq!(users.len(), 1);
    assert_eq!(users[0].pubky, "XYZ");
    assert!(users[0].name.is_none());
}

#[test]
fn conversation_paths_match_for_both_participants() {
    let a = kp(1);
    let b = kp(2);
    let p_ab = a.private_conversation_path(&b.public_key()).unwrap();
    let p_ba = b.private_conversation_path(&a.public_key()).unwrap();
    assert_eq!(p_ab, p_ba);
    assert!(p_ab.starts_with("/pub/private_messages/"));
    assert!(p_ab.ends_with('/'));
    assert_eq!(p_ab.len(), "/pub/private_messages/".len() + 64 + 1);
    // stable across repeated computation
    assert_eq!(a.private_conversation_path(&b.public_key()).unwrap(), p_ab);
    // a different pair gets a different address
    let c = kp(3);
    assert_ne!(a.private_conversation_path(&c.public_key()).unwrap(), p_ab);
}

#[test]
fn prepare_send_builds_uri_and_parseable_body() {
    let a = kp(1);
    let b = kp(2);
    let (uri, body, msg_id) = prepare_send(&a, &b.public_key(), "hi there").unwrap();
    assert_eq!(msg_id.len(), 36);
    let path = a.private_conversation_path(&b.public_key()).unwrap();
    let expected_prefix = format!("pubky://{}{}", a.public_key_string(), path);
    assert!(uri.starts_with(&expected_prefix));
    assert!(uri.ends_with(".json"));
    let msg = pubky_messenger::wire::parse_private_message(&body).unwrap();
    let (who, text, verified) = msg.open_envelope(&b, &a.public_key()).unwrap();
    assert_eq!(who, a.public_key_string());
    assert_eq!(text, "hi there");
    assert!(verified);
}

#[test]
fn prepare_notification_targets_recipient_location() {
    let a = kp(1);
    let (uri, body) = pubky_messenger::notify::prepare_notification(&a, "RECIP", "msg-9");
    assert!(uri.starts_with("pubky://RECIP/pub/notifications/"));
    assert!(uri.ends_with(".json"));
    let text = String::from_utf8(body).unwrap();
    let (delete, yielded) = pubky_messenger::notify::notification_action(&text);
    assert!(delete);
    let (who, id) = yielded.unwrap();
    assert_eq!(who, a.public_key_string());
    assert_eq!(id, "msg-9");
}

#[test]
fn session_state_lifecycle() {
    let mut state = SessionState::new();
    assert!(!state.is_signed_in());
    assert!(state.user_profile().is_none());
    let keypair = kp(4);
    let expected_pk = keypair.public_key_string();
    state.sign_in_with(keypair, Some("Dana".to_string()));
    assert!(state.is_signed_in());
    let profile = state.user_profile().unwrap();
    assert!(profile.signed_in);
    assert_eq!(profile.public_key, expected_pk);
    assert_eq!(profile.name.as_deref(), Some("Dana"));
    state.sign_out();
    assert!(!state.is_signed_in());
    assert!(state.user_profile().is_none());
}
