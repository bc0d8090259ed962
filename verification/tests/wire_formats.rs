use pubky_messenger::envelope::PrivateMessage;
use pubky_messenger::keys::Keypair;
use pubky_messenger::notify::{
    classify_notification, notification_action, serialize_notification, NotificationKind,
    PrivateNotification,
};
use pubky_messenger::profile::{
    extract_pubky_from_follow_url, parse_follow_list, parse_profile_fields, parse_profile_name,
    parse_pubky_profile,
};
use pubky_messenger::wire::{parse_private_message, serialize_private_message};

fn kp(byte: u8) -> Keypair {
    Keypair::from_secret_key(&vec![byte; 32])
}

fn sample_message() -> PrivateMessage {
    PrivateMessage {
        timestamp: 1712345678,
        encrypted_sender: vec![0, 1, 2, 255],
        encrypted_content: vec![9, 8, 7],
        signature_bytes: (0u8..64).collect(),
    }
}

#[test]
fn envelope_json_round_trips() {
    let msg = sample_message();
    let body = serialize_private_message(&msg);
    let text = String::from_utf8(body.clone()).unwrap();
    assert!(text.starts_with("{\"timestamp\":1712345678,\"encrypted_sender\":[0,1,2,255],"));
    let parsed = parse_private_message(&body).unwrap();
    assert_eq!(parsed.timestamp, msg.timestamp);
    assert_eq!(parsed.encrypted_sender, msg.encrypted_sender);
    assert_eq!(parsed.encrypted_content, msg.encrypted_content);
    assert_eq!(parsed.signature_bytes, msg.signature_bytes);
}

#[test]
fn envelope_parse_accepts_whitespace_and_any_member_order() {
    let body = b" { \"signature_bytes\" : [ 1 , 2 ] , \"encrypted_content\" : [ ] ,\n \"timestamp\" : 7 , \"encrypted_sender\" : [ 255 ] , \"extra\" : { \"deep\" : [ true , null ] } } ".to_vec();
    let parsed = parse_private_message(&body).unwrap();
    assert_eq!(parsed.timestamp, 7);
    assert_eq!(parsed.encrypted_sender, vec![255]);
    assert_eq!(parsed.encrypted_content, Vec::<u8>::new());
    assert_eq!(parsed.signature_bytes, vec![1, 2]);
}

#[test]
fn envelope_parse_rejects_bad_documents() {
    // missing member
    assert!(parse_private_message(&b"{\"timestamp\":1}".to_vec()).is_none());
    // duplicate member
    assert!(parse_private_message(
        &b"{\"timestamp\":1,\"timestamp\":2,\"encrypted_sender\":[],\"encrypted_content\":[],\"signature_bytes\":[]}"
            .to_vec()
    )
    .is_none());
    // byte out of range
    assert!(parse_private_message(
        &b"{\"timestamp\":1,\"encrypted_sender\":[256],\"encrypted_content\":[],\"signature_bytes\":[]}"
            .to_vec()
    )
    .is_none());
    // fractional timestamp
    assert!(parse_private_message(
        &b"{\"timestamp\":1.5,\"encrypted_sender\":[],\"encrypted_content\":[],\"signature_bytes\":[]}"
            .to_vec()
    )
    .is_none());
    // leading zero
    assert!(parse_private_message(
        &b"{\"timestamp\":01,\"encrypted_sender\":[],\"encrypted_content\":[],\"signature_bytes\":[]}"
            .to_vec()
    )
    .is_none());
    // timestamp overflow past u64
    assert!(parse_private_message(
        &b"{\"timestamp\":18446744073709551616,\"encrypted_sender\":[],\"encrypted_content\":[],\"signature_bytes\":[]}"
            .to_vec()
    )
    .is_none());
    // trailing garbage
    assert!(parse_private_message(
        &b"{\"timestamp\":1,\"encrypted_sender\":[],\"encrypted_content\":[],\"signature_bytes\":[]}x"
            .to_vec()
    )
    .is_none());
    // the largest timestamp still parses
    let max = parse_private_message(
        &b"{\"timestamp\":18446744073709551615,\"encrypted_sender\":[],\"encrypted_content\":[],\"signature_bytes\":[]}"
            .to_vec(),
    )
    .unwrap();
    assert_eq!(max.timestamp, u64::MAX);
}

#[test]
fn notification_json_round_trips_with_escapes() {
    let record = PrivateNotification {
        timestamp: 33,
        sender: "quote\" back\\slash \n tab\t".to_string(),
        msg_id: "id-\u{00e9}\u{1F600}".to_string(),
    };
    let body = serialize_notification(&record);
    let (ts, sender_bytes, msg_id_bytes) =
        pubky_messenger::notify::parse_notification_fields(&body).unwrap();
    assert_eq!(ts, 33);
    assert_eq!(sender_bytes, record.sender.as_bytes().to_vec());
    assert_eq!(msg_id_bytes, record.msg_id.as_bytes().to_vec());
    let text = String::from_utf8(body).unwrap();
    // classification re-parses the serialized record; the sender is not
    // a valid key, so the record is recognized but not yielded.
    match classify_notification(&text) {
        NotificationKind::CurrentBadSender => {}
        _ => panic!("expected a current-format record with a bad sender"),
    }
}

#[test]
fn unicode_escapes_parse() {
    let body = "{\"timestamp\":1,\"sender\":\"\\u0041\\u00e9\\ud83d\\ude00\",\"msg_id\":\"m\"}";
    let (_, sender_bytes, _) =
        pubky_messenger::notify::parse_notification_fields(&body.as_bytes().to_vec()).unwrap();
    assert_eq!(sender_bytes, "A\u{00e9}\u{1F600}".as_bytes().to_vec());
    match classify_notification(body) {
        NotificationKind::CurrentBadSender => {}
        _ => panic!("expected current format"),
    }
    // lone surrogate is rejected: the document is not a current record
    let bad = "{\"timestamp\":1,\"sender\":\"\\ud800\",\"msg_id\":\"m\"}";
    match classify_notification(bad) {
        NotificationKind::Unknown => {}
        _ => panic!("expected unknown format"),
    }
}

#[test]
fn current_notification_with_valid_sender_is_yielded() {
    let sender = kp(6);
    let record = PrivateNotification {
        timestamp: 44,
        sender: sender.public_key_string(),
        msg_id: "msg-1".to_string(),
    };
    let body = String::from_utf8(serialize_notification(&record)).unwrap();
    let (delete, yielded) = notification_action(&body);
    assert!(delete);
    let (who, id) = yielded.unwrap();
    assert_eq!(who, sender.public_key_string());
    assert_eq!(id, "msg-1");
}

#[test]
fn legacy_notification_is_deleted_without_data() {
    let body = "{\"timestamp\":5,\"encrypted_sender\":[1,2,3],\"msg_id\":\"old\"}";
    match classify_notification(body) {
        NotificationKind::Legacy => {}
        _ => panic!("expected legacy format"),
    }
    let (delete, yielded) = notification_action(body);
    assert!(delete);
    assert!(yielded.is_none());
}

#[test]
fn unknown_notification_is_deleted_without_data() {
    let (delete, yielded) = notification_action("complete garbage");
    assert!(delete);
    assert!(yielded.is_none());
    let (delete2, yielded2) = notification_action("{\"something\":1}");
    assert!(delete2);
    assert!(yielded2.is_none());
}

#[test]
fn bad_sender_notification_is_kept() {
    let body = "{\"timestamp\":1,\"sender\":\"not-a-key\",\"msg_id\":\"m\"}";
    let (delete, yielded) = notification_action(body);
    assert!(!delete);
    assert!(yielded.is_none());
}

#[test]
fn profile_name_extraction() {
    assert_eq!(
        parse_profile_name("{\"name\":\"Alice\"}").unwrap(),
        "Alice"
    );
    assert_eq!(
        parse_profile_name("{\"bio\":\"about\",\"name\":\"Bob\",\"unknown\":[1,2]}").unwrap(),
        "Bob"
    );
    assert!(parse_profile_name("{\"bio\":\"no name\"}").is_none());
    assert!(parse_profile_name("not json").is_none());
}

#[test]
fn full_profile_parses() {
    let body = b"{\"name\":\"Carol\",\"bio\":null,\"image\":\"http://x/i.png\",\"links\":[{\"title\":\"home\",\"url\":\"http://x\"},{\"url\":\"http://y\",\"title\":\"other\",\"note\":7}],\"status\":\"hi\",\"future\":{\"a\":[{\"b\":1}]}}".to_vec();
    let (name, bio, image, links, status) = parse_profile_fields(&body).unwrap();
    assert_eq!(name, b"Carol".to_vec());
    assert!(bio.is_none());
    assert_eq!(image.unwrap(), b"http://x/i.png".to_vec());
    let links = links.unwrap();
    assert_eq!(links.len(), 2);
    assert_eq!(links[0].0, b"home".to_vec());
    assert_eq!(links[0].1, b"http://x".to_vec());
    assert_eq!(links[1].0, b"other".to_vec());
    assert_eq!(status.unwrap(), b"hi".to_vec());
    let empty_links = parse_profile_fields(&b"{\"name\":\"D\",\"links\":[]}".to_vec()).unwrap();
    assert_eq!(empty_links.3.unwrap().len(), 0);
    let null_links = parse_profile_fields(&b"{\"name\":\"D\",\"links\":null}".to_vec()).unwrap();
    assert!(null_links.3.is_none());
}

#[test]
fn profile_struct_parses() {
    let body = "{\"name\":\"Erin\",\"bio\":\"writes\",\"links\":[{\"title\":\"home\",\"url\":\"http://e\"}]}";
    let profile = parse_pubky_profile(body).unwrap();
    assert_eq!(profile.name, "Erin");
    assert_eq!(profile.bio.as_deref(), Some("writes"));
    assert!(profile.image.is_none());
    assert!(profile.status.is_none());
    let links = profile.links.unwrap();
    assert_eq!(links.len(), 1);
    assert_eq!(links[0].title, "home");
    assert_eq!(links[0].url, "http://e");
    assert!(parse_pubky_profile("{\"bio\":\"nameless\"}").is_none());
}

#[test]
fn follow_list_splits_lines() {
    let body = "pubky://me/pub/pubky.app/follows/AAA\n\r\npubky://me/pub/pubky.app/follows/BBB\r\n";
    let urls = parse_follow_list(body);
    assert_eq!(urls.len(), 2);
    assert_eq!(urls[0], "pubky://me/pub/pubky.app/follows/AAA");
    assert_eq!(urls[1], "pubky://me/pub/pubky.app/follows/BBB");
    assert_eq!(parse_follow_list("").len(), 0);
}

#[test]
fn follow_url_trailing_segment() {
    assert_eq!(
        extract_pubky_from_follow_url("pubky://me/pub/pubky.app/follows/XYZ"),
        "XYZ"
    );
    assert_eq!(extract_pubky_from_follow_url("no-slashes"), "no-slashes");
    assert_eq!(extract_pubky_from_follow_url("ends-with/"), "");
}
