//! Local session vault: derives a device-bound key from environment
//! entropy and wraps/unwraps the user's secret seed for persistence
//! across restarts. A wrapped session is only portable on the machine
//! and account that created it.

use vstd::prelude::*;
use vstd::string::StringSliceAdditionalSpecFns;
use crate::encoding::{
    b64_parse_of, base64_decode, base64_encode, push_all, str_to_bytes,
};
use crate::entropy::random_bytes;
use crate::errors::CoreError;
use crate::json::{
    parse_byte_array, parse_string_token, ser_bytes, ser_bytes_of, ser_string_bytes,
    ser_string_of, skip_value, skip_ws, spec_byte_array, spec_skip_value, spec_string, spec_ws,
    suffix_of, lemma_ws_noop, lemma_byte_array_round_trip,
};
use crate::keys::Keypair;
use crate::wire::{is_plain_byte, member_sep, opt_bytes_view, read_member_sep};

verus! {

/// The HKDF-SHA256 output (32 bytes) for salt, input keying material and
/// info string; a function of the three alone.
pub uninterp spec fn hkdf_of(salt: Seq<u8>, ikm: Seq<u8>, info: Seq<u8>) -> Seq<u8>;

/// What ChaCha20-Poly1305 sealing yields for a 32-byte key, a 12-byte
/// nonce and a plaintext; deterministic, so a function of the three
/// alone.
pub uninterp spec fn chacha_seal_of(key: Seq<u8>, nonce: Seq<u8>, plain: Seq<u8>) -> Seq<u8>;

/// What ChaCha20-Poly1305 opening yields for a key, nonce and
/// ciphertext; a function of the three alone.
pub uninterp spec fn chacha_open_of(key: Seq<u8>, nonce: Seq<u8>, cipher: Seq<u8>) -> Option<
    Seq<u8>,
>;

/// Relies on hkdf::Hkdf::<Sha256>: extract with the salt over the input
/// keying material, expand 32 bytes under the info string. Expanding 32
/// bytes never fails.
#[verifier::external_body]
fn hkdf_sha256_32(salt: &Vec<u8>, ikm: &Vec<u8>, info: &Vec<u8>) -> (r: Vec<u8>)
    ensures
        r@ == hkdf_of(salt@, ikm@, info@),
        r@.len() == 32,
{
    let hk = hkdf::Hkdf::<sha2::Sha256>::new(Some(salt), ikm);
    let mut key = [0u8; 32];
    hk.expand(info, &mut key).expect("32-byte output is within the HKDF bound");
    key.to_vec()
}

/// Relies on chacha20poly1305::ChaCha20Poly1305::encrypt: deterministic
/// in key, nonce and plaintext; appends the 16-byte tag; opening with the
/// same key and nonce recovers the plaintext.
#[verifier::external_body]
fn chacha_encrypt(key: &Vec<u8>, nonce: &Vec<u8>, plain: &Vec<u8>) -> (r: Vec<u8>)
    requires
        key@.len() == 32,
        nonce@.len() == 12,
    ensures
        r@ == chacha_seal_of(key@, nonce@, plain@),
        chacha_open_of(key@, nonce@, r@) == Some(plain@),
        r@.len() == plain@.len() + 16,
{
    let mut key_bytes = [0u8; 32];
    key_bytes.copy_from_slice(key);
    let mut nonce_bytes = [0u8; 12];
    nonce_bytes.copy_from_slice(nonce);
    let cipher = <chacha20poly1305::ChaCha20Poly1305 as chacha20poly1305::KeyInit>::new(
        (&key_bytes).into(),
    );
    chacha20poly1305::aead::Aead::encrypt(
        &cipher,
        (&nonce_bytes).into(),
        plain.as_slice(),
    ).expect("ChaCha20-Poly1305 encryption of an in-memory buffer is infallible")
}

/// Relies on chacha20poly1305::ChaCha20Poly1305::decrypt: deterministic
/// in key, nonce and ciphertext; fails exactly when authentication
/// fails.
#[verifier::external_body]
fn chacha_decrypt(key: &Vec<u8>, nonce: &Vec<u8>, cipher_text: &Vec<u8>) -> (r: Option<Vec<u8>>)
    requires
        key@.len() == 32,
        nonce@.len() == 12,
    ensures
        r is Some <==> chacha_open_of(key@, nonce@, cipher_text@) is Some,
        r is Some ==> Some(r->Some_0@) == chacha_open_of(key@, nonce@, cipher_text@),
{
    let mut key_bytes = [0u8; 32];
    key_bytes.copy_from_slice(key);
    let mut nonce_bytes = [0u8; 12];
    nonce_bytes.copy_from_slice(nonce);
    let cipher = <chacha20poly1305::ChaCha20Poly1305 as chacha20poly1305::KeyInit>::new(
        (&key_bytes).into(),
    );
    chacha20poly1305::aead::Aead::decrypt(&cipher, (&nonce_bytes).into(), cipher_text.as_slice())
        .ok()
}

/// A wrapped session as persisted: ciphertext, 12-byte nonce, 32-byte
/// salt.
pub struct EncryptedSession {
    /// The seed sealed under the device-bound key.
    pub ciphertext: Vec<u8>,
    /// Fresh random nonce used for the sealing.
    pub nonce: Vec<u8>,
    /// Fresh random salt the device-bound key was derived with.
    pub salt: Vec<u8>,
}

/// The fixed application identifier appended to the device entropy.
pub open spec fn app_id_chars() -> Seq<char> {
    "pubky_private_messenger_v1"@
}

/// The HKDF info string for session keys.
pub open spec fn session_info_chars() -> Seq<char> {
    "session_encryption_key"@
}

/// The input keying material: caller-supplied device entropy (host and
/// user names) followed by the fixed application identifier.
pub open spec fn device_info_of(device_entropy: Seq<u8>) -> Seq<u8> {
    device_entropy + vstd::utf8::encode_utf8(app_id_chars())
}

/// The device-bound vault key for a salt and device entropy.
pub open spec fn vault_key_of(salt: Seq<u8>, device_entropy: Seq<u8>) -> Seq<u8> {
    hkdf_of(salt, device_info_of(device_entropy), vstd::utf8::encode_utf8(session_info_chars()))
}

/// What unwrapping a session yields for a given device entropy: the
/// 32-byte seed, or the exact error. Fails closed on a nonce that is not
/// 12 bytes, on failed authentication, and on a decrypted seed that is
/// not 32 bytes.
pub open spec fn unwrap_spec(
    ciphertext: Seq<u8>,
    nonce: Seq<u8>,
    salt: Seq<u8>,
    device_entropy: Seq<u8>,
) -> Result<Seq<u8>, CoreError> {
    if nonce.len() != 12 {
        Err(CoreError::BadNonceLength)
    } else {
        match chacha_open_of(vault_key_of(salt, device_entropy), nonce, ciphertext) {
            Some(seed) => if seed.len() == 32 {
                Ok(seed)
            } else {
                Err(CoreError::BadKeyLength)
            },
            None => Err(CoreError::DecryptionFailed),
        }
    }
}

/// Derive the device-bound encryption key from a salt and the
/// caller-supplied device entropy.
pub fn derive_encryption_key(salt: &Vec<u8>, device_entropy: &Vec<u8>) -> (r: Vec<u8>)
    ensures
        r@ == vault_key_of(salt@, device_entropy@),
        r@.len() == 32,
{
    let mut ikm: Vec<u8> = Vec::new();
    push_all(&mut ikm, device_entropy);
    let app_id = str_to_bytes("pubky_private_messenger_v1");
    push_all(&mut ikm, &app_id);
    let info = str_to_bytes("session_encryption_key");
    proof {
        assert(ikm@ =~= device_info_of(device_entropy@));
    }
    hkdf_sha256_32(salt, &ikm, &info)
}

/// Wrap a keypair's seed for local persistence: fresh 32-byte salt,
/// device-bound key, fresh 12-byte nonce, authenticated sealing. The
/// result unwraps back to the seed under the same device entropy.
pub fn wrap_session(keypair: &Keypair, device_entropy: &Vec<u8>) -> (r: EncryptedSession)
    requires
        keypair.wf(),
    ensures
        r.salt@.len() == 32,
        r.nonce@.len() == 12,
        r.ciphertext@.len() == 48,
        unwrap_spec(r.ciphertext@, r.nonce@, r.salt@, device_entropy@) == Ok::<Seq<u8>, CoreError>(
            keypair.seed(),
        ),
{
    let salt = random_bytes(32);
    let key = derive_encryption_key(&salt, device_entropy);
    let nonce = random_bytes(12);
    let seed = keypair.secret_key();
    let ciphertext = chacha_encrypt(&key, &nonce, &seed);
    EncryptedSession { ciphertext, nonce, salt }
}

/// Unwrap a persisted session under the same device entropy: re-derive
/// the key from the stored salt, open, and rebuild the keypair. Fails
/// exactly as `unwrap_spec` says.
pub fn unwrap_session(session: &EncryptedSession, device_entropy: &Vec<u8>) -> (r: Result<
    Keypair,
    CoreError,
>)
    ensures
        r is Ok <==> unwrap_spec(
            session.ciphertext@,
            session.nonce@,
            session.salt@,
            device_entropy@,
        ) is Ok,
        r is Ok ==> Ok::<Seq<u8>, CoreError>(r->Ok_0.seed()) == unwrap_spec(
            session.ciphertext@,
            session.nonce@,
            session.salt@,
            device_entropy@,
        ),
        r is Ok ==> r->Ok_0.wf(),
        r is Err ==> Err::<Seq<u8>, CoreError>(r->Err_0) == unwrap_spec(
            session.ciphertext@,
            session.nonce@,
            session.salt@,
            device_entropy@,
        ),
{
    if session.nonce.len() != 12 {
        return Err(CoreError::BadNonceLength);
    }
    let key = derive_encryption_key(&session.salt, device_entropy);
    let seed = match chacha_decrypt(&key, &session.nonce, &session.ciphertext) {
        Some(p) => p,
        None => {
            return Err(CoreError::DecryptionFailed);
        },
    };
    if seed.len() != 32 {
        return Err(CoreError::BadKeyLength);
    }
    Ok(Keypair::from_secret_key(&seed))
}

/// One member step of a wrapped-session object: `ciphertext`, `nonce`
/// and `salt`, each a byte array.
pub open spec fn sess_member_step(
    key: Seq<u8>,
    after: Seq<u8>,
    a0: Option<Seq<u8>>,
    a1: Option<Seq<u8>>,
    a2: Option<Seq<u8>>,
) -> Option<((Option<Seq<u8>>, Option<Seq<u8>>, Option<Seq<u8>>), Seq<u8>)> {
    if key == "ciphertext".spec_bytes() {
        if a0 is Some {
            None
        } else {
            match spec_byte_array(spec_ws(after)) {
                Some((v, r)) => Some(((Some(v), a1, a2), r)),
                None => None,
            }
        }
    } else if key == "nonce".spec_bytes() {
        if a1 is Some {
            None
        } else {
            match spec_byte_array(spec_ws(after)) {
                Some((v, r)) => Some(((a0, Some(v), a2), r)),
                None => None,
            }
        }
    } else if key == "salt".spec_bytes() {
        if a2 is Some {
            None
        } else {
            match spec_byte_array(spec_ws(after)) {
                Some((v, r)) => Some(((a0, a1, Some(v)), r)),
                None => None,
            }
        }
    } else {
        match spec_skip_value(after) {
            Some(r) => Some(((a0, a1, a2), r)),
            None => None,
        }
    }
}

/// One whole member of a wrapped-session object.
pub open spec fn sess_member_parse(
    t: Seq<u8>,
    a0: Option<Seq<u8>>,
    a1: Option<Seq<u8>>,
    a2: Option<Seq<u8>>,
) -> Option<((Option<Seq<u8>>, Option<Seq<u8>>, Option<Seq<u8>>), Seq<u8>)> {
    match spec_string(t) {
        Some((key, rest)) => {
            let t2 = spec_ws(rest);
            if t2.len() > 0 && t2[0] == 58 {
                sess_member_step(key, t2.drop_first(), a0, a1, a2)
            } else {
                None
            }
        },
        None => None,
    }
}

/// The members of a wrapped-session object after the opening brace.
pub open spec fn spec_sess_members(
    s: Seq<u8>,
    a0: Option<Seq<u8>>,
    a1: Option<Seq<u8>>,
    a2: Option<Seq<u8>>,
) -> Option<((Seq<u8>, Seq<u8>, Seq<u8>), Seq<u8>)>
    decreases s.len(),
{
    let t = spec_ws(s);
    if t.len() > 0 && t[0] == 125 {
        if a0 is Some && a1 is Some && a2 is Some {
            Some(((a0->Some_0, a1->Some_0, a2->Some_0), t.drop_first()))
        } else {
            None
        }
    } else {
        match sess_member_parse(t, a0, a1, a2) {
            Some((acc2, r)) => match member_sep(r) {
                Some((closed, r2)) => if closed {
                    if acc2.0 is Some && acc2.1 is Some && acc2.2 is Some {
                        Some(((acc2.0->Some_0, acc2.1->Some_0, acc2.2->Some_0), r2))
                    } else {
                        None
                    }
                } else {
                    if r2.len() < s.len() {
                        spec_sess_members(r2, acc2.0, acc2.1, acc2.2)
                    } else {
                        None
                    }
                },
                None => None,
            },
            None => None,
        }
    }
}

/// What parsing a wrapped-session document yields: (ciphertext, nonce,
/// salt).
pub open spec fn spec_parse_session(s: Seq<u8>) -> Option<(Seq<u8>, Seq<u8>, Seq<u8>)> {
    let t = spec_ws(s);
    if t.len() > 0 && t[0] == 123 {
        match spec_sess_members(t.drop_first(), None, None, None) {
            Some((vals, rest)) => if spec_ws(rest).len() == 0 {
                Some(vals)
            } else {
                None
            },
            None => None,
        }
    } else {
        None
    }
}

/// Parse one member of a wrapped-session object.
#[verifier::rlimit(100)]
fn parse_sess_member(s: &Vec<u8>, j: usize, a0: Option<Vec<u8>>, a1: Option<Vec<u8>>, a2: Option<
    Vec<u8>,
>) -> (r: Option<((Option<Vec<u8>>, Option<Vec<u8>>, Option<Vec<u8>>), usize)>)
    requires
        j <= s@.len(),
    ensures
        r is None ==> sess_member_parse(
            suffix_of(s@, j as int),
            opt_bytes_view(a0),
            opt_bytes_view(a1),
            opt_bytes_view(a2),
        ) is None,
        r is Some ==> j < r->Some_0.1 <= s@.len(),
        r is Some ==> sess_member_parse(
            suffix_of(s@, j as int),
            opt_bytes_view(a0),
            opt_bytes_view(a1),
            opt_bytes_view(a2),
        ) == Some(
            (
                (
                    opt_bytes_view(r->Some_0.0.0),
                    opt_bytes_view(r->Some_0.0.1),
                    opt_bytes_view(r->Some_0.0.2),
                ),
                suffix_of(s@, r->Some_0.1 as int),
            ),
        ),
{
    let (key, k2) = match parse_string_token(s, j) {
        Some(p) => p,
        None => {
            return None;
        },
    };
    let k3 = skip_ws(s, k2);
    if k3 >= s.len() {
        return None;
    }
    proof {
        assert(suffix_of(s@, k3 as int)[0] == s@[k3 as int]);
    }
    if s[k3] != 58 {
        return None;
    }
    proof {
        assert(suffix_of(s@, k3 as int).drop_first() =~= suffix_of(s@, k3 + 1));
    }
    let after = k3 + 1;
    if crate::wire::key_is(&key, "ciphertext") {
        if a0.is_some() {
            return None;
        }
        let k4 = skip_ws(s, after);
        let (v, k5) = match parse_byte_array(s, k4) {
            Some(p) => p,
            None => {
                return None;
            },
        };
        Some(((Some(v), a1, a2), k5))
    } else if crate::wire::key_is(&key, "nonce") {
        if a1.is_some() {
            return None;
        }
        let k4 = skip_ws(s, after);
        let (v, k5) = match parse_byte_array(s, k4) {
            Some(p) => p,
            None => {
                return None;
            },
        };
        Some(((a0, Some(v), a2), k5))
    } else if crate::wire::key_is(&key, "salt") {
        if a2.is_some() {
            return None;
        }
        let k4 = skip_ws(s, after);
        let (v, k5) = match parse_byte_array(s, k4) {
            Some(p) => p,
            None => {
                return None;
            },
        };
        Some(((a0, a1, Some(v)), k5))
    } else {
        let k5 = match skip_value(s, after) {
            Some(p) => p,
            None => {
                return None;
            },
        };
        if k5 <= j {
            proof {
                assert(false);
            }
            return None;
        }
        Some(((a0, a1, a2), k5))
    }
}

/// Parse a wrapped-session document.
#[verifier::rlimit(100)]
pub fn parse_encrypted_session(s: &Vec<u8>) -> (r: Option<EncryptedSession>)
    ensures
        r is Some <==> spec_parse_session(s@) is Some,
        r is Some ==> Some((r->Some_0.ciphertext@, r->Some_0.nonce@, r->Some_0.salt@))
            == spec_parse_session(s@),
{
    let j0 = skip_ws(s, 0);
    proof {
        assert(suffix_of(s@, 0) =~= s@);
        if (j0 as int) < s@.len() {
            assert(suffix_of(s@, j0 as int)[0] == s@[j0 as int]);
        }
    }
    if j0 >= s.len() || s[j0] != 123 {
        return None;
    }
    proof {
        assert(suffix_of(s@, j0 as int).drop_first() =~= suffix_of(s@, j0 + 1));
    }
    let mut a0: Option<Vec<u8>> = None;
    let mut a1: Option<Vec<u8>> = None;
    let mut a2: Option<Vec<u8>> = None;
    let mut j: usize = j0 + 1;
    loop
        invariant
            j0 + 1 <= j <= s@.len(),
            spec_sess_members(suffix_of(s@, j0 + 1), None, None, None) == spec_sess_members(
                suffix_of(s@, j as int),
                opt_bytes_view(a0),
                opt_bytes_view(a1),
                opt_bytes_view(a2),
            ),
            spec_parse_session(s@) == (match spec_sess_members(
                suffix_of(s@, j0 + 1),
                None,
                None,
                None,
            ) {
                Some((vals, rest)) => if spec_ws(rest).len() == 0 {
                    Some(vals)
                } else {
                    None
                },
                None => None,
            }),
        decreases s@.len() - j,
    {
        let k = skip_ws(s, j);
        proof {
            if (k as int) < s@.len() {
                assert(suffix_of(s@, k as int)[0] == s@[k as int]);
            }
        }
        if k < s.len() && s[k] == 125 {
            proof {
                assert(suffix_of(s@, k as int).drop_first() =~= suffix_of(s@, k + 1));
            }
            match (a0, a1, a2) {
                (Some(ct), Some(n), Some(st)) => {
                    let k2 = skip_ws(s, k + 1);
                    if k2 < s.len() {
                        return None;
                    }
                    return Some(EncryptedSession { ciphertext: ct, nonce: n, salt: st });
                },
                _ => {
                    return None;
                },
            }
        }
        let (acc2, vend) = match parse_sess_member(s, k, a0, a1, a2) {
            Some(p) => p,
            None => {
                return None;
            },
        };
        a0 = acc2.0;
        a1 = acc2.1;
        a2 = acc2.2;
        let (closed, k6) = match read_member_sep(s, vend) {
            Some(p) => p,
            None => {
                return None;
            },
        };
        if closed {
            match (a0, a1, a2) {
                (Some(ct), Some(n), Some(st)) => {
                    let k7 = skip_ws(s, k6);
                    if k7 < s.len() {
                        return None;
                    }
                    return Some(EncryptedSession { ciphertext: ct, nonce: n, salt: st });
                },
                _ => {
                    return None;
                },
            }
        }
        j = k6;
    }
}

/// The canonical wrapped-session document, member by member from the
/// back.
pub open spec fn sess_m3(st: Seq<u8>) -> Seq<u8> {
    ser_string_of("salt".spec_bytes()) + seq![58u8] + ser_bytes_of(st) + seq![125u8]
}

pub open spec fn sess_m2(n: Seq<u8>, st: Seq<u8>) -> Seq<u8> {
    ser_string_of("nonce".spec_bytes()) + seq![58u8] + ser_bytes_of(n) + seq![44u8] + sess_m3(st)
}

pub open spec fn sess_m1(ct: Seq<u8>, n: Seq<u8>, st: Seq<u8>) -> Seq<u8> {
    ser_string_of("ciphertext".spec_bytes()) + seq![58u8] + ser_bytes_of(ct) + seq![44u8]
        + sess_m2(n, st)
}

/// The canonical wrapped-session document.
pub open spec fn sess_json_of(ct: Seq<u8>, n: Seq<u8>, st: Seq<u8>) -> Seq<u8> {
    seq![123u8] + sess_m1(ct, n, st)
}

/// Serialize a wrapped session canonically.
pub fn serialize_encrypted_session(e: &EncryptedSession) -> (r: Vec<u8>)
    ensures
        r@ == sess_json_of(e.ciphertext@, e.nonce@, e.salt@),
{
    let mut out: Vec<u8> = Vec::new();
    out.push(123);
    let k1 = str_to_bytes("ciphertext");
    ser_string_bytes(&mut out, &k1);
    out.push(58);
    ser_bytes(&mut out, &e.ciphertext);
    out.push(44);
    let k2 = str_to_bytes("nonce");
    ser_string_bytes(&mut out, &k2);
    out.push(58);
    ser_bytes(&mut out, &e.nonce);
    out.push(44);
    let k3 = str_to_bytes("salt");
    ser_string_bytes(&mut out, &k3);
    out.push(58);
    ser_bytes(&mut out, &e.salt);
    out.push(125);
    proof {
        assert(out@ =~= sess_json_of(e.ciphertext@, e.nonce@, e.salt@));
    }
    out
}

/// The wrapped-session member keys are plain ASCII and pairwise
/// distinct.
proof fn lemma_sess_keys_plain()
    ensures
        forall|k: int|
            0 <= k < "ciphertext".spec_bytes().len() ==> is_plain_byte(
                #[trigger] "ciphertext".spec_bytes()[k],
            ),
        forall|k: int|
            0 <= k < "nonce".spec_bytes().len() ==> is_plain_byte(
                #[trigger] "nonce".spec_bytes()[k],
            ),
        forall|k: int|
            0 <= k < "salt".spec_bytes().len() ==> is_plain_byte(
                #[trigger] "salt".spec_bytes()[k],
            ),
        "ciphertext".spec_bytes() != "nonce".spec_bytes(),
        "ciphertext".spec_bytes() != "salt".spec_bytes(),
        "nonce".spec_bytes() != "salt".spec_bytes(),
{
    reveal_strlit("ciphertext");
    reveal_strlit("nonce");
    reveal_strlit("salt");
    broadcast use vstd::utf8::is_ascii_chars_encode_utf8;

    assert(vstd::utf8::is_ascii_chars("ciphertext"@));
    assert(vstd::utf8::is_ascii_chars("nonce"@));
    assert(vstd::utf8::is_ascii_chars("salt"@));
    assert("ciphertext".spec_bytes().len() == 10);
    assert("nonce".spec_bytes().len() == 5);
    assert("salt".spec_bytes().len() == 4);
}

/// The third member and the closing brace.
#[verifier::rlimit(100)]
proof fn lemma_sess_step3(ct: Seq<u8>, n: Seq<u8>, st: Seq<u8>)
    ensures
        spec_sess_members(sess_m3(st), Some(ct), Some(n), None) == Some(
            ((ct, n, st), Seq::<u8>::empty()),
        ),
{
    lemma_sess_keys_plain();
    let ks = "salt".spec_bytes();
    let m3 = sess_m3(st);
    lemma_ws_noop(m3);
    assert(m3[0] == 34);
    crate::wire::lemma_member_key(ks, ser_bytes_of(st), seq![125u8]);
    assert(m3 =~= ser_string_of(ks) + seq![58u8] + ser_bytes_of(st) + seq![125u8]);
    let r3 = seq![58u8] + (ser_bytes_of(st) + seq![125u8]);
    assert(spec_string(m3) == Some((ks, r3)));
    lemma_ws_noop(r3);
    assert(r3[0] == 58);
    let after = r3.drop_first();
    assert(after =~= ser_bytes_of(st) + seq![125u8]);
    assert(after[0] == 91);
    lemma_ws_noop(after);
    lemma_byte_array_round_trip(st, seq![125u8]);
    let rest = seq![125u8];
    assert(ks != "ciphertext".spec_bytes());
    assert(ks != "nonce".spec_bytes());
    assert(sess_member_step(ks, after, Some(ct), Some(n), None) == Some(
        ((Some(ct), Some(n), Some(st)), rest),
    ));
    lemma_ws_noop(rest);
    assert(rest[0] == 125);
    assert(member_sep(rest) == Some((true, rest.drop_first())));
    assert(rest.drop_first() =~= Seq::<u8>::empty());
}

/// The second member.
#[verifier::rlimit(100)]
proof fn lemma_sess_step2(ct: Seq<u8>, n: Seq<u8>, st: Seq<u8>)
    ensures
        spec_sess_members(sess_m2(n, st), Some(ct), None, None) == spec_sess_members(
            sess_m3(st),
            Some(ct),
            Some(n),
            None,
        ),
{
    lemma_sess_keys_plain();
    let kn = "nonce".spec_bytes();
    let m2 = sess_m2(n, st);
    let m3 = sess_m3(st);
    lemma_ws_noop(m2);
    assert(m2[0] == 34);
    crate::wire::lemma_member_key(kn, ser_bytes_of(n), seq![44u8] + m3);
    assert(m2 =~= ser_string_of(kn) + seq![58u8] + ser_bytes_of(n) + (seq![44u8] + m3));
    let r2 = seq![58u8] + (ser_bytes_of(n) + (seq![44u8] + m3));
    assert(spec_string(m2) == Some((kn, r2)));
    lemma_ws_noop(r2);
    assert(r2[0] == 58);
    let after = r2.drop_first();
    assert(after =~= ser_bytes_of(n) + (seq![44u8] + m3));
    assert(after[0] == 91);
    lemma_ws_noop(after);
    lemma_byte_array_round_trip(n, seq![44u8] + m3);
    let rest = seq![44u8] + m3;
    assert(kn != "ciphertext".spec_bytes());
    assert(sess_member_step(kn, after, Some(ct), None, None) == Some(
        ((Some(ct), Some(n), None::<Seq<u8>>), rest),
    ));
    lemma_ws_noop(rest);
    assert(rest[0] == 44);
    assert(member_sep(rest) == Some((false, rest.drop_first())));
    assert(rest.drop_first() =~= m3);
    assert(m3.len() < m2.len());
}

/// The first member.
#[verifier::rlimit(100)]
proof fn lemma_sess_step1(ct: Seq<u8>, n: Seq<u8>, st: Seq<u8>)
    ensures
        spec_sess_members(sess_m1(ct, n, st), None, None, None) == spec_sess_members(
            sess_m2(n, st),
            Some(ct),
            None,
            None,
        ),
{
    lemma_sess_keys_plain();
    let kc = "ciphertext".spec_bytes();
    let m1 = sess_m1(ct, n, st);
    let m2 = sess_m2(n, st);
    lemma_ws_noop(m1);
    assert(m1[0] == 34);
    crate::wire::lemma_member_key(kc, ser_bytes_of(ct), seq![44u8] + m2);
    assert(m1 =~= ser_string_of(kc) + seq![58u8] + ser_bytes_of(ct) + (seq![44u8] + m2));
    let r1 = seq![58u8] + (ser_bytes_of(ct) + (seq![44u8] + m2));
    assert(spec_string(m1) == Some((kc, r1)));
    lemma_ws_noop(r1);
    assert(r1[0] == 58);
    let after = r1.drop_first();
    assert(after =~= ser_bytes_of(ct) + (seq![44u8] + m2));
    assert(after[0] == 91);
    lemma_ws_noop(after);
    lemma_byte_array_round_trip(ct, seq![44u8] + m2);
    let rest = seq![44u8] + m2;
    assert(sess_member_step(kc, after, None, None, None) == Some(
        ((Some(ct), None::<Seq<u8>>, None::<Seq<u8>>), rest),
    ));
    lemma_ws_noop(rest);
    assert(rest[0] == 44);
    assert(member_sep(rest) == Some((false, rest.drop_first())));
    assert(rest.drop_first() =~= m2);
    assert(m2.len() < m1.len());
}

/// Parsing inverts serializing for wrapped sessions.
pub proof fn lemma_session_json_round_trip(ct: Seq<u8>, n: Seq<u8>, st: Seq<u8>)
    ensures
        spec_parse_session(sess_json_of(ct, n, st)) == Some((ct, n, st)),
{
    let s = sess_json_of(ct, n, st);
    let m1 = sess_m1(ct, n, st);
    assert(s[0] == 123);
    lemma_ws_noop(s);
    assert(s.drop_first() =~= m1);
    lemma_sess_step1(ct, n, st);
    lemma_sess_step2(ct, n, st);
    lemma_sess_step3(ct, n, st);
    assert(spec_ws(Seq::<u8>::empty()).len() == 0);
}

/// What restoring from an encoded wrapped session yields for a device
/// entropy: base64-decode, parse the document, unwrap; a failure to
/// decode or parse is a `FormatError`.
pub open spec fn decrypt_keypair_spec(s: Seq<char>, device_entropy: Seq<u8>) -> Result<
    Seq<u8>,
    CoreError,
> {
    match b64_parse_of(s) {
        Some(bytes) => match spec_parse_session(bytes) {
            Some((ct, n, st)) => unwrap_spec(ct, n, st, device_entropy),
            None => Err(CoreError::FormatError),
        },
        None => Err(CoreError::FormatError),
    }
}

/// Wrap a keypair and encode the wrapped session as base64 JSON for
/// storage. The result decodes, parses and unwraps back to the seed
/// under the same device entropy.
pub fn encrypt_keypair(keypair: &Keypair, device_entropy: &Vec<u8>) -> (r: String)
    requires
        keypair.wf(),
    ensures
        decrypt_keypair_spec(r@, device_entropy@) == Ok::<Seq<u8>, CoreError>(keypair.seed()),
{
    let session = wrap_session(keypair, device_entropy);
    let json = serialize_encrypted_session(&session);
    let encoded = base64_encode(&json);
    proof {
        lemma_session_json_round_trip(session.ciphertext@, session.nonce@, session.salt@);
    }
    encoded
}

/// Restore a keypair from an encoded wrapped session under the same
/// device entropy. Fails exactly as `decrypt_keypair_spec` says.
pub fn decrypt_keypair(encrypted_data: &str, device_entropy: &Vec<u8>) -> (r: Result<
    Keypair,
    CoreError,
>)
    ensures
        r is Ok <==> decrypt_keypair_spec(encrypted_data@, device_entropy@) is Ok,
        r is Ok ==> Ok::<Seq<u8>, CoreError>(r->Ok_0.seed()) == decrypt_keypair_spec(
            encrypted_data@,
            device_entropy@,
        ),
        r is Ok ==> r->Ok_0.wf(),
        r is Err ==> Err::<Seq<u8>, CoreError>(r->Err_0) == decrypt_keypair_spec(
            encrypted_data@,
            device_entropy@,
        ),
{
    let bytes = match base64_decode(encrypted_data) {
        Some(b) => b,
        None => {
            return Err(CoreError::FormatError);
        },
    };
    let session = match parse_encrypted_session(&bytes) {
        Some(e) => e,
        None => {
            return Err(CoreError::FormatError);
        },
    };
    unwrap_session(&session, device_entropy)
}

/// Wrapping then unwrapping on the same machine and account recovers the
/// original 32-byte seed exactly: what `wrap_session` guarantees of its
/// result makes `unwrap_spec` yield the seed under the same device
/// entropy.
pub proof fn lemma_wrap_unwrap_round_trip(
    session: EncryptedSession,
    seed: Seq<u8>,
    device_entropy: Seq<u8>,
)
    requires
        session.nonce@.len() == 12,
        seed.len() == 32,
        chacha_open_of(vault_key_of(session.salt@, device_entropy), session.nonce@,
            session.ciphertext@) == Some(seed),
    ensures
        unwrap_spec(session.ciphertext@, session.nonce@, session.salt@, device_entropy) == Ok::<
            Seq<u8>,
            CoreError,
        >(seed),
{
}

} // verus!
