use pubky_messenger::curve::{ed25519_secret_to_x25519, generate_shared_secret};
use pubky_messenger::envelope::PrivateMessage;
use pubky_messenger::errors::CoreError;
use pubky_messenger::keys::{pk_parse, Keypair};
use pubky_messenger::messaging::decrypt_recovery_file;
use pubky_messenger::vault::{
    decrypt_keypair, encrypt_keypair, unwrap_session, wrap_session, EncryptedSession,
};

fn kp(byte: u8) -> Keypair {
    Keypair::from_secret_key(&vec![byte; 32])
}

fn err_of<T>(r: Result<T, CoreError>) -> CoreError {
    match r {
        Err(e) => e,
        Ok(_) => panic!("expected an error"),
    }
}

#[test]
fn hex_encode_decode_round_trip() {
    let bytes: Vec<u8> = vec![0, 1, 15, 16, 171, 255];
    let hex = pubky_messenger::encoding::hex_encode(&bytes);
    assert_eq!(hex, "00010f10abff");
    let back = pubky_messenger::encoding::hex_decode(&hex).unwrap();
    assert_eq!(back, bytes);
    let upper = pubky_messenger::encoding::hex_decode("ABFF").unwrap();
    assert_eq!(upper, vec![171, 255]);
    assert!(pubky_messenger::encoding::hex_decode("abc").is_none());
    assert!(pubky_messenger::encoding::hex_decode("zz").is_none());
}

#[test]
fn secret_conversion_is_clamped_and_differs_from_seed() {
    let seed = vec![9u8; 32];
    let x = ed25519_secret_to_x25519(&seed);
    assert_eq!(x.len(), 32);
    assert_ne!(x, seed);
    assert_eq!(x[0] & 7, 0);
    assert_eq!(x[31] & 128, 0);
    assert_eq!(x[31] & 64, 64);
}

#[test]
fn shared_secret_is_symmetric() {
    let a = kp(1);
    let b = kp(2);
    let a_pub = a.public_key();
    let b_pub = b.public_key();
    let ab = generate_shared_secret(&a, &b_pub).unwrap();
    let ba = generate_shared_secret(&b, &a_pub).unwrap();
    assert_eq!(ab, ba);
    assert_eq!(ab.len(), 64);
    let c = kp(3);
    let ac = generate_shared_secret(&a, &c.public_key()).unwrap();
    assert_ne!(ab, ac);
}

#[test]
fn shared_secret_rejects_bad_keys() {
    let a = kp(1);
    let short = vec![1u8; 31];
    assert_eq!(
        generate_shared_secret(&a, &short).unwrap_err(),
        CoreError::InvalidKeyLength
    );
    let mut found_invalid_point = false;
    for fill in 0u8..=255 {
        let candidate = vec![fill; 32];
        if let Err(e) = generate_shared_secret(&a, &candidate) {
            assert_eq!(e, CoreError::InvalidPoint);
            found_invalid_point = true;
            break;
        }
    }
    assert!(found_invalid_point);
}

#[test]
fn public_key_string_round_trips() {
    let a = kp(5);
    let s = a.public_key_string();
    assert_eq!(s.len(), 52);
    let parsed = pk_parse(&s).unwrap();
    assert_eq!(parsed, a.public_key());
    assert!(pk_parse("not a key").is_none());
}

#[test]
fn envelope_round_trip_verifies() {
    let sender = kp(11);
    let receiver = kp(22);
    let msg = PrivateMessage::new_at(&sender, &receiver.public_key(), "hello world", 1700000000)
        .unwrap();
    assert_eq!(msg.timestamp, 1700000000);
    let (who, text, verified) = msg.open_envelope(&receiver, &sender.public_key()).unwrap();
    assert_eq!(who, sender.public_key_string());
    assert_eq!(text, "hello world");
    assert!(verified);
    // The sender can read its own stored message through the shared address.
    let (who2, text2, verified2) = msg.open_envelope(&sender, &receiver.public_key()).unwrap();
    assert_eq!(who2, sender.public_key_string());
    assert_eq!(text2, "hello world");
    assert!(verified2);
}

#[test]
fn tampered_content_fails_decryption() {
    let sender = kp(11);
    let receiver = kp(22);
    let mut msg =
        PrivateMessage::new_at(&sender, &receiver.public_key(), "payload", 1700000001).unwrap();
    msg.encrypted_content[30] ^= 1;
    let r = msg.open_envelope(&receiver, &sender.public_key());
    assert_eq!(r.unwrap_err(), CoreError::DecryptionFailed);
}

#[test]
fn tampered_sender_fails_decryption() {
    let sender = kp(11);
    let receiver = kp(22);
    let mut msg =
        PrivateMessage::new_at(&sender, &receiver.public_key(), "payload", 1700000002).unwrap();
    msg.encrypted_sender[25] ^= 1;
    let r = msg.open_envelope(&receiver, &sender.public_key());
    assert_eq!(r.unwrap_err(), CoreError::DecryptionFailed);
}

#[test]
fn tampered_signature_is_unverified_not_error() {
    let sender = kp(11);
    let receiver = kp(22);
    let mut msg =
        PrivateMessage::new_at(&sender, &receiver.public_key(), "payload", 1700000003).unwrap();
    msg.signature_bytes[10] ^= 1;
    let (_who, text, verified) = msg.open_envelope(&receiver, &sender.public_key()).unwrap();
    assert_eq!(text, "payload");
    assert!(!verified);
}

#[test]
fn wrong_participant_cannot_open() {
    let sender = kp(11);
    let receiver = kp(22);
    let outsider = kp(33);
    let msg =
        PrivateMessage::new_at(&sender, &receiver.public_key(), "secret", 1700000004).unwrap();
    let r = msg.open_envelope(&outsider, &sender.public_key());
    assert_eq!(r.unwrap_err(), CoreError::DecryptionFailed);
}

#[test]
fn vault_wrap_unwrap_recovers_seed() {
    let keypair = kp(42);
    let entropy = b"host-user".to_vec();
    let session = wrap_session(&keypair, &entropy);
    assert_eq!(session.nonce.len(), 12);
    assert_eq!(session.salt.len(), 32);
    let restored = unwrap_session(&session, &entropy).unwrap();
    assert_eq!(restored.secret_key(), vec![42u8; 32]);
}

#[test]
fn vault_rejects_tampered_ciphertext() {
    let keypair = kp(42);
    let entropy = b"host-user".to_vec();
    let mut session = wrap_session(&keypair, &entropy);
    session.ciphertext[5] ^= 1;
    assert_eq!(
        err_of(unwrap_session(&session, &entropy)),
        CoreError::DecryptionFailed
    );
}

#[test]
fn vault_rejects_wrong_entropy() {
    let keypair = kp(42);
    let session = wrap_session(&keypair, &b"machine-a".to_vec());
    assert_eq!(
        err_of(unwrap_session(&session, &b"machine-b".to_vec())),
        CoreError::DecryptionFailed
    );
}

#[test]
fn vault_rejects_bad_nonce_length() {
    let session = EncryptedSession {
        ciphertext: vec![1, 2, 3],
        nonce: vec![0u8; 11],
        salt: vec![0u8; 32],
    };
    assert_eq!(
        err_of(unwrap_session(&session, &b"e".to_vec())),
        CoreError::BadNonceLength
    );
}

#[test]
fn encoded_vault_round_trips() {
    let keypair = kp(77);
    let entropy = b"host-user-app".to_vec();
    let encoded = encrypt_keypair(&keypair, &entropy);
    let restored = decrypt_keypair(&encoded, &entropy).unwrap();
    assert_eq!(restored.secret_key(), vec![77u8; 32]);
    assert_eq!(
        err_of(decrypt_keypair("not base64 at all!!", &entropy)),
        CoreError::FormatError
    );
}

#[test]
fn recovery_file_round_trips() {
    let seed = [7u8; 32];
    let pubky_keypair = pubky_common::crypto::Keypair::from_secret(&seed);
    let file_bytes = pubky_common::recovery_file::create_recovery_file(&pubky_keypair, "hunter2");
    let encoded = base64::encode(&file_bytes);
    let restored = decrypt_recovery_file(&encoded, "hunter2").unwrap();
    assert_eq!(restored.secret_key(), seed.to_vec());
    assert_eq!(
        err_of(decrypt_recovery_file(&encoded, "wrong")),
        CoreError::DecryptionFailed
    );
    assert_eq!(
        err_of(decrypt_recovery_file("", "hunter2")),
        CoreError::FormatError
    );
    assert_eq!(
        err_of(decrypt_recovery_file(&encoded, "")),
        CoreError::FormatError
    );
    assert_eq!(
        err_of(decrypt_recovery_file("!!!not-base64!!!", "hunter2")),
        CoreError::FormatError
    );
}
