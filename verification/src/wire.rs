//! The persisted object shapes: envelope, notification (current and
//! legacy), wrapped session and public profile, as JSON documents over
//! the token layer. Own formats are serialized canonically and parsing
//! inverts serializing exactly; foreign documents are parsed tolerantly
//! (any member order, whitespace, unknown members skipped).

use vstd::prelude::*;
use vstd::string::StringSliceAdditionalSpecFns;
use crate::encoding::{push_all, str_to_bytes};
use crate::envelope::PrivateMessage;
use crate::json::{
    dec_of, parse_byte_array, parse_string_token, parse_u64_token,
    ser_bytes, ser_bytes_of, ser_string_bytes, ser_string_of, skip_value, skip_ws, spec_byte_array,
    spec_skip_value, spec_string, spec_u64_token, spec_ws, suffix_of, lemma_ws_noop,
    lemma_string_round_trip, lemma_u64_token_round_trip, lemma_byte_array_round_trip, esc_of,
    esc_byte,
};

verus! {

/// View of an optional byte vector.
pub open spec fn opt_bytes_view(o: Option<Vec<u8>>) -> Option<Seq<u8>> {
    match o {
        Some(v) => Some(v@),
        None => None,
    }
}

/// Whether a byte needs no escaping inside a JSON string.
pub open spec fn is_plain_byte(b: u8) -> bool {
    b != 34 && b != 92 && b >= 32
}

/// Escaping is the identity on strings of plain bytes.
pub proof fn lemma_esc_of_plain(b: Seq<u8>)
    requires
        forall|k: int| 0 <= k < b.len() ==> is_plain_byte(#[trigger] b[k]),
    ensures
        esc_of(b) == b,
    decreases b.len(),
{
    if b.len() > 0 {
        lemma_esc_of_plain(b.drop_first());
        assert(esc_byte(b[0]) =~= seq![b[0]]);
        assert(esc_of(b) =~= b);
    }
}

/// Compare parsed key bytes against a literal.
pub fn key_is(key: &Vec<u8>, lit: &str) -> (r: bool)
    ensures
        r == (key@ == lit.spec_bytes()),
{
    let lb = str_to_bytes(lit);
    if key.len() != lb.len() {
        return false;
    }
    let mut k: usize = 0;
    while k < key.len()
        invariant
            k <= key@.len(),
            key@.len() == lb@.len(),
            lb@ == lit.spec_bytes(),
            forall|m: int| 0 <= m < k ==> key@[m] == lb@[m],
        decreases key@.len() - k,
    {
        if key[k] != lb[k] {
            return false;
        }
        k = k + 1;
    }
    proof {
        assert(key@ =~= lit.spec_bytes());
    }
    true
}

/// What follows a parsed member: a comma (more members) or a closing
/// brace (end of object).
pub open spec fn member_sep(s: Seq<u8>) -> Option<(bool, Seq<u8>)> {
    let t = spec_ws(s);
    if t.len() > 0 && t[0] == 44 {
        Some((false, t.drop_first()))
    } else if t.len() > 0 && t[0] == 125 {
        Some((true, t.drop_first()))
    } else {
        None
    }
}

/// Advance past a member separator.
pub fn read_member_sep(s: &Vec<u8>, i: usize) -> (r: Option<(bool, usize)>)
    requires
        i <= s@.len(),
    ensures
        r is None ==> member_sep(suffix_of(s@, i as int)) is None,
        r is Some ==> i < r->Some_0.1 <= s@.len(),
        r is Some ==> member_sep(suffix_of(s@, i as int)) == Some(
            (r->Some_0.0, suffix_of(s@, r->Some_0.1 as int)),
        ),
{
    let k = skip_ws(s, i);
    if k >= s.len() {
        return None;
    }
    proof {
        assert(suffix_of(s@, k as int)[0] == s@[k as int]);
        assert(suffix_of(s@, k as int).drop_first() =~= suffix_of(s@, k + 1));
    }
    if s[k] == 44 {
        Some((false, k + 1))
    } else if s[k] == 125 {
        Some((true, k + 1))
    } else {
        None
    }
}

/// One parsed member step of an envelope object: the updated field
/// accumulators and the rest after the member's value. Duplicate members
/// are rejected; unknown members are skipped.
pub open spec fn env_member_step(
    key: Seq<u8>,
    after: Seq<u8>,
    a0: Option<u64>,
    a1: Option<Seq<u8>>,
    a2: Option<Seq<u8>>,
    a3: Option<Seq<u8>>,
) -> Option<((Option<u64>, Option<Seq<u8>>, Option<Seq<u8>>, Option<Seq<u8>>), Seq<u8>)> {
    if key == "timestamp".spec_bytes() {
        if a0 is Some {
            None
        } else {
            match spec_u64_token(spec_ws(after)) {
                Some((v, r)) => Some(((Some(v), a1, a2, a3), r)),
                None => None,
            }
        }
    } else if key == "encrypted_sender".spec_bytes() {
        if a1 is Some {
            None
        } else {
            match spec_byte_array(spec_ws(after)) {
                Some((v, r)) => Some(((a0, Some(v), a2, a3), r)),
                None => None,
            }
        }
    } else if key == "encrypted_content".spec_bytes() {
        if a2 is Some {
            None
        } else {
            match spec_byte_array(spec_ws(after)) {
                Some((v, r)) => Some(((a0, a1, Some(v), a3), r)),
                None => None,
            }
        }
    } else if key == "signature_bytes".spec_bytes() {
        if a3 is Some {
            None
        } else {
            match spec_byte_array(spec_ws(after)) {
                Some((v, r)) => Some(((a0, a1, a2, Some(v)), r)),
                None => None,
            }
        }
    } else {
        match spec_skip_value(after) {
            Some(r) => Some(((a0, a1, a2, a3), r)),
            None => None,
        }
    }
}

/// One whole member of an envelope object: key string, colon, value.
pub open spec fn env_member_parse(
    t: Seq<u8>,
    a0: Option<u64>,
    a1: Option<Seq<u8>>,
    a2: Option<Seq<u8>>,
    a3: Option<Seq<u8>>,
) -> Option<((Option<u64>, Option<Seq<u8>>, Option<Seq<u8>>, Option<Seq<u8>>), Seq<u8>)> {
    match spec_string(t) {
        Some((key, rest)) => {
            let t2 = spec_ws(rest);
            if t2.len() > 0 && t2[0] == 58 {
                env_member_step(key, t2.drop_first(), a0, a1, a2, a3)
            } else {
                None
            }
        },
        None => None,
    }
}

/// The members of an envelope object after the opening brace.
pub open spec fn spec_env_members(
    s: Seq<u8>,
    a0: Option<u64>,
    a1: Option<Seq<u8>>,
    a2: Option<Seq<u8>>,
    a3: Option<Seq<u8>>,
) -> Option<((u64, Seq<u8>, Seq<u8>, Seq<u8>), Seq<u8>)>
    decreases s.len(),
{
    let t = spec_ws(s);
    if t.len() > 0 && t[0] == 125 {
        if a0 is Some && a1 is Some && a2 is Some && a3 is Some {
            Some(((a0->Some_0, a1->Some_0, a2->Some_0, a3->Some_0), t.drop_first()))
        } else {
            None
        }
    } else {
        match env_member_parse(t, a0, a1, a2, a3) {
            Some((acc2, r)) => match member_sep(r) {
                Some((closed, r2)) => if closed {
                    if acc2.0 is Some && acc2.1 is Some && acc2.2 is Some && acc2.3 is Some {
                        Some(
                            (
                                (acc2.0->Some_0, acc2.1->Some_0, acc2.2->Some_0, acc2.3->Some_0),
                                r2,
                            ),
                        )
                    } else {
                        None
                    }
                } else {
                    if r2.len() < s.len() {
                        spec_env_members(r2, acc2.0, acc2.1, acc2.2, acc2.3)
                    } else {
                        None
                    }
                },
                None => None,
            },
            None => None,
        }
    }
}

/// What parsing an envelope document yields: the four fields, when the
/// document is one object with exactly those members (in any order, with
/// unknown members skipped) and nothing but whitespace after it.
pub open spec fn spec_parse_envelope(s: Seq<u8>) -> Option<(u64, Seq<u8>, Seq<u8>, Seq<u8>)> {
    let t = spec_ws(s);
    if t.len() > 0 && t[0] == 123 {
        match spec_env_members(t.drop_first(), None, None, None, None) {
            Some((vals, rest)) => if spec_ws(rest).len() == 0 {
                Some(vals)
            } else {
                None
            },
            None => None,
        }
    } else {
        None
    }
}

/// Parse one member of an envelope object, starting at the key's
/// opening quote position (whitespace already skipped by the caller's
/// spec; this function skips it itself).
#[verifier::rlimit(100)]
fn parse_env_member(
    s: &Vec<u8>,
    j: usize,
    a0: Option<u64>,
    a1: Option<Vec<u8>>,
    a2: Option<Vec<u8>>,
    a3: Option<Vec<u8>>,
) -> (r: Option<((Option<u64>, Option<Vec<u8>>, Option<Vec<u8>>, Option<Vec<u8>>), usize)>)
    requires
        j <= s@.len(),
    ensures
        r is None ==> env_member_parse(
            suffix_of(s@, j as int),
            a0,
            opt_bytes_view(a1),
            opt_bytes_view(a2),
            opt_bytes_view(a3),
        ) is None,
        r is Some ==> j < r->Some_0.1 <= s@.len(),
        r is Some ==> env_member_parse(
            suffix_of(s@, j as int),
            a0,
            opt_bytes_view(a1),
            opt_bytes_view(a2),
            opt_bytes_view(a3),
        ) == Some(
            (
                (
                    r->Some_0.0.0,
                    opt_bytes_view(r->Some_0.0.1),
                    opt_bytes_view(r->Some_0.0.2),
                    opt_bytes_view(r->Some_0.0.3),
                ),
                suffix_of(s@, r->Some_0.1 as int),
            ),
        ),
{
    let (key, k2) = match parse_string_token(s, j) {
        Some(p) => p,
        None => {
            return None;
        },
    };
    let k3 = skip_ws(s, k2);
    if k3 >= s.len() {
        return None;
    }
    proof {
        assert(suffix_of(s@, k3 as int)[0] == s@[k3 as int]);
    }
    if s[k3] != 58 {
        return None;
    }
    proof {
        assert(suffix_of(s@, k3 as int).drop_first() =~= suffix_of(s@, k3 + 1));
    }
    let after = k3 + 1;
    if key_is(&key, "timestamp") {
        if a0.is_some() {
            return None;
        }
        let k4 = skip_ws(s, after);
        let (v, k5) = match parse_u64_token(s, k4) {
            Some(p) => p,
            None => {
                return None;
            },
        };
        Some(((Some(v), a1, a2, a3), k5))
    } else if key_is(&key, "encrypted_sender") {
        if a1.is_some() {
            return None;
        }
        let k4 = skip_ws(s, after);
        let (v, k5) = match parse_byte_array(s, k4) {
            Some(p) => p,
            None => {
                return None;
            },
        };
        Some(((a0, Some(v), a2, a3), k5))
    } else if key_is(&key, "encrypted_content") {
        if a2.is_some() {
            return None;
        }
        let k4 = skip_ws(s, after);
        let (v, k5) = match parse_byte_array(s, k4) {
            Some(p) => p,
            None => {
                return None;
            },
        };
        Some(((a0, a1, Some(v), a3), k5))
    } else if key_is(&key, "signature_bytes") {
        if a3.is_some() {
            return None;
        }
        let k4 = skip_ws(s, after);
        let (v, k5) = match parse_byte_array(s, k4) {
            Some(p) => p,
            None => {
                return None;
            },
        };
        Some(((a0, a1, a2, Some(v)), k5))
    } else {
        let k5 = match skip_value(s, after) {
            Some(p) => p,
            None => {
                return None;
            },
        };
        if k5 <= j {
            proof {
                assert(false);
            }
            return None;
        }
        Some(((a0, a1, a2, a3), k5))
    }
}

/// Parse an envelope document.
#[verifier::rlimit(100)]
pub fn parse_private_message(s: &Vec<u8>) -> (r: Option<PrivateMessage>)
    ensures
        r is Some <==> spec_parse_envelope(s@) is Some,
        r is Some ==> Some(
            (
                r->Some_0.timestamp,
                r->Some_0.encrypted_sender@,
                r->Some_0.encrypted_content@,
                r->Some_0.signature_bytes@,
            ),
        ) == spec_parse_envelope(s@),
{
    let j0 = skip_ws(s, 0);
    proof {
        assert(suffix_of(s@, 0) =~= s@);
        if (j0 as int) < s@.len() {
            assert(suffix_of(s@, j0 as int)[0] == s@[j0 as int]);
        }
    }
    if j0 >= s.len() || s[j0] != 123 {
        return None;
    }
    proof {
        assert(suffix_of(s@, j0 as int).drop_first() =~= suffix_of(s@, j0 + 1));
    }
    let mut a0: Option<u64> = None;
    let mut a1: Option<Vec<u8>> = None;
    let mut a2: Option<Vec<u8>> = None;
    let mut a3: Option<Vec<u8>> = None;
    let mut j: usize = j0 + 1;
    loop
        invariant
            j0 + 1 <= j <= s@.len(),
            spec_env_members(suffix_of(s@, j0 + 1), None, None, None, None) == spec_env_members(
                suffix_of(s@, j as int),
                a0,
                opt_bytes_view(a1),
                opt_bytes_view(a2),
                opt_bytes_view(a3),
            ),
            spec_parse_envelope(s@) == (match spec_env_members(
                suffix_of(s@, j0 + 1),
                None,
                None,
                None,
                None,
            ) {
                Some((vals, rest)) => if spec_ws(rest).len() == 0 {
                    Some(vals)
                } else {
                    None
                },
                None => None,
            }),
        decreases s@.len() - j,
    {
        let k = skip_ws(s, j);
        proof {
            if (k as int) < s@.len() {
                assert(suffix_of(s@, k as int)[0] == s@[k as int]);
            }
        }
        if k < s.len() && s[k] == 125 {
            proof {
                assert(suffix_of(s@, k as int).drop_first() =~= suffix_of(s@, k + 1));
            }
            match (a0, a1, a2, a3) {
                (Some(ts), Some(es), Some(ec), Some(sg)) => {
                    let k2 = skip_ws(s, k + 1);
                    if k2 < s.len() {
                        return None;
                    }
                    return Some(
                        PrivateMessage {
                            timestamp: ts,
                            encrypted_sender: es,
                            encrypted_content: ec,
                            signature_bytes: sg,
                        },
                    );
                },
                _ => {
                    return None;
                },
            }
        }
        let (acc2, vend) = match parse_env_member(s, k, a0, a1, a2, a3) {
            Some(p) => p,
            None => {
                return None;
            },
        };
        a0 = acc2.0;
        a1 = acc2.1;
        a2 = acc2.2;
        a3 = acc2.3;
        let (closed, k6) = match read_member_sep(s, vend) {
            Some(p) => p,
            None => {
                return None;
            },
        };
        if closed {
            match (a0, a1, a2, a3) {
                (Some(ts), Some(es), Some(ec), Some(sg)) => {
                    let k7 = skip_ws(s, k6);
                    if k7 < s.len() {
                        return None;
                    }
                    return Some(
                        PrivateMessage {
                            timestamp: ts,
                            encrypted_sender: es,
                            encrypted_content: ec,
                            signature_bytes: sg,
                        },
                    );
                },
                _ => {
                    return None;
                },
            }
        }
        j = k6;
    }
}

/// The canonical envelope document, built member by member from the
/// back.
pub open spec fn env_m4(sg: Seq<u8>) -> Seq<u8> {
    ser_string_of("signature_bytes".spec_bytes()) + seq![58u8] + ser_bytes_of(sg) + seq![125u8]
}

pub open spec fn env_m3(ec: Seq<u8>, sg: Seq<u8>) -> Seq<u8> {
    ser_string_of("encrypted_content".spec_bytes()) + seq![58u8] + ser_bytes_of(ec) + seq![44u8]
        + env_m4(sg)
}

pub open spec fn env_m2(es: Seq<u8>, ec: Seq<u8>, sg: Seq<u8>) -> Seq<u8> {
    ser_string_of("encrypted_sender".spec_bytes()) + seq![58u8] + ser_bytes_of(es) + seq![44u8]
        + env_m3(ec, sg)
}

pub open spec fn env_m1(ts: u64, es: Seq<u8>, ec: Seq<u8>, sg: Seq<u8>) -> Seq<u8> {
    ser_string_of("timestamp".spec_bytes()) + seq![58u8] + dec_of(ts) + seq![44u8] + env_m2(
        es,
        ec,
        sg,
    )
}

/// The canonical envelope document.
pub open spec fn env_json_of(ts: u64, es: Seq<u8>, ec: Seq<u8>, sg: Seq<u8>) -> Seq<u8> {
    seq![123u8] + env_m1(ts, es, ec, sg)
}

/// Serialize an envelope canonically.
pub fn serialize_private_message(m: &PrivateMessage) -> (r: Vec<u8>)
    ensures
        r@ == env_json_of(
            m.timestamp,
            m.encrypted_sender@,
            m.encrypted_content@,
            m.signature_bytes@,
        ),
{
    let mut out: Vec<u8> = Vec::new();
    out.push(123);
    let k1 = str_to_bytes("timestamp");
    ser_string_bytes(&mut out, &k1);
    out.push(58);
    let d = crate::json::u64_to_dec(m.timestamp);
    push_all(&mut out, &d);
    out.push(44);
    let k2 = str_to_bytes("encrypted_sender");
    ser_string_bytes(&mut out, &k2);
    out.push(58);
    ser_bytes(&mut out, &m.encrypted_sender);
    out.push(44);
    let k3 = str_to_bytes("encrypted_content");
    ser_string_bytes(&mut out, &k3);
    out.push(58);
    ser_bytes(&mut out, &m.encrypted_content);
    out.push(44);
    let k4 = str_to_bytes("signature_bytes");
    ser_string_bytes(&mut out, &k4);
    out.push(58);
    ser_bytes(&mut out, &m.signature_bytes);
    out.push(125);
    proof {
        assert(out@ =~= env_json_of(
            m.timestamp,
            m.encrypted_sender@,
            m.encrypted_content@,
            m.signature_bytes@,
        ));
    }
    out
}

/// The bytes of the four member keys are plain ASCII and pairwise
/// distinct.
proof fn lemma_env_keys_plain()
    ensures
        forall|k: int|
            0 <= k < "timestamp".spec_bytes().len() ==> is_plain_byte(
                #[trigger] "timestamp".spec_bytes()[k],
            ),
        forall|k: int|
            0 <= k < "encrypted_sender".spec_bytes().len() ==> is_plain_byte(
                #[trigger] "encrypted_sender".spec_bytes()[k],
            ),
        forall|k: int|
            0 <= k < "encrypted_content".spec_bytes().len() ==> is_plain_byte(
                #[trigger] "encrypted_content".spec_bytes()[k],
            ),
        forall|k: int|
            0 <= k < "signature_bytes".spec_bytes().len() ==> is_plain_byte(
                #[trigger] "signature_bytes".spec_bytes()[k],
            ),
        "timestamp".spec_bytes() != "encrypted_sender".spec_bytes(),
        "timestamp".spec_bytes() != "encrypted_content".spec_bytes(),
        "timestamp".spec_bytes() != "signature_bytes".spec_bytes(),
        "encrypted_sender".spec_bytes() != "encrypted_content".spec_bytes(),
        "encrypted_sender".spec_bytes() != "signature_bytes".spec_bytes(),
        "encrypted_content".spec_bytes() != "signature_bytes".spec_bytes(),
{
    reveal_strlit("timestamp");
    reveal_strlit("encrypted_sender");
    reveal_strlit("encrypted_content");
    reveal_strlit("signature_bytes");
    broadcast use vstd::utf8::is_ascii_chars_encode_utf8;

    assert(vstd::utf8::is_ascii_chars("timestamp"@));
    assert(vstd::utf8::is_ascii_chars("encrypted_sender"@));
    assert(vstd::utf8::is_ascii_chars("encrypted_content"@));
    assert(vstd::utf8::is_ascii_chars("signature_bytes"@));
    assert("timestamp".spec_bytes().len() == 9);
    assert("encrypted_sender".spec_bytes().len() == 16);
    assert("encrypted_content".spec_bytes().len() == 17);
    assert("signature_bytes".spec_bytes().len() == 15);
    assert("encrypted_sender".spec_bytes()[10] == 's' as u8);
    assert("encrypted_content".spec_bytes()[10] == 'c' as u8);
}

/// One member of the canonical document parses as expected: the key
/// string, leaving the colon, the value and the tail.
pub proof fn lemma_member_key(key: Seq<u8>, val: Seq<u8>, tail: Seq<u8>)
    requires
        forall|k: int| 0 <= k < key.len() ==> is_plain_byte(#[trigger] key[k]),
    ensures
        spec_string(ser_string_of(key) + seq![58u8] + val + tail) == Some(
            (key, seq![58u8] + (val + tail)),
        ),
{
    lemma_esc_of_plain(key);
    lemma_string_round_trip(key, seq![58u8] + (val + tail));
    assert(ser_string_of(key) + seq![58u8] + val + tail =~= ser_string_of(key) + (seq![58u8]
        + (val + tail)));
}

/// The fourth member and the closing brace.
#[verifier::rlimit(100)]
proof fn lemma_env_step4(ts: u64, es: Seq<u8>, ec: Seq<u8>, sg: Seq<u8>)
    ensures
        spec_env_members(env_m4(sg), Some(ts), Some(es), Some(ec), None) == Some(
            ((ts, es, ec, sg), Seq::<u8>::empty()),
        ),
{
    lemma_env_keys_plain();
    let ks = "signature_bytes".spec_bytes();
    let m4 = env_m4(sg);
    lemma_ws_noop(m4);
    assert(m4[0] == 34);
    lemma_member_key(ks, ser_bytes_of(sg), seq![125u8]);
    assert(m4 =~= ser_string_of(ks) + seq![58u8] + ser_bytes_of(sg) + seq![125u8]);
    let r4 = seq![58u8] + (ser_bytes_of(sg) + seq![125u8]);
    assert(spec_string(m4) == Some((ks, r4)));
    lemma_ws_noop(r4);
    assert(r4[0] == 58);
    let after = r4.drop_first();
    assert(after =~= ser_bytes_of(sg) + seq![125u8]);
    assert(after[0] == 91);
    lemma_ws_noop(after);
    lemma_byte_array_round_trip(sg, seq![125u8]);
    let rest = seq![125u8];
    assert(ks != "timestamp".spec_bytes());
    assert(ks != "encrypted_sender".spec_bytes());
    assert(ks != "encrypted_content".spec_bytes());
    assert(env_member_step(ks, after, Some(ts), Some(es), Some(ec), None) == Some(
        ((Some(ts), Some(es), Some(ec), Some(sg)), rest),
    ));
    lemma_ws_noop(rest);
    assert(rest[0] == 125);
    assert(member_sep(rest) == Some((true, rest.drop_first())));
    assert(rest.drop_first() =~= Seq::<u8>::empty());
}

/// The third member.
#[verifier::rlimit(100)]
proof fn lemma_env_step3(ts: u64, es: Seq<u8>, ec: Seq<u8>, sg: Seq<u8>)
    ensures
        spec_env_members(env_m3(ec, sg), Some(ts), Some(es), None, None) == spec_env_members(
            env_m4(sg),
            Some(ts),
            Some(es),
            Some(ec),
            None,
        ),
{
    lemma_env_keys_plain();
    let kc = "encrypted_content".spec_bytes();
    let m3 = env_m3(ec, sg);
    let m4 = env_m4(sg);
    lemma_ws_noop(m3);
    assert(m3[0] == 34);
    lemma_member_key(kc, ser_bytes_of(ec), seq![44u8] + m4);
    assert(m3 =~= ser_string_of(kc) + seq![58u8] + ser_bytes_of(ec) + (seq![44u8] + m4));
    let r3 = seq![58u8] + (ser_bytes_of(ec) + (seq![44u8] + m4));
    assert(spec_string(m3) == Some((kc, r3)));
    lemma_ws_noop(r3);
    assert(r3[0] == 58);
    let after = r3.drop_first();
    assert(after =~= ser_bytes_of(ec) + (seq![44u8] + m4));
    assert(after[0] == 91);
    lemma_ws_noop(after);
    lemma_byte_array_round_trip(ec, seq![44u8] + m4);
    let rest = seq![44u8] + m4;
    assert(kc != "timestamp".spec_bytes());
    assert(kc != "encrypted_sender".spec_bytes());
    assert(env_member_step(kc, after, Some(ts), Some(es), None, None) == Some(
        ((Some(ts), Some(es), Some(ec), None::<Seq<u8>>), rest),
    ));
    lemma_ws_noop(rest);
    assert(rest[0] == 44);
    assert(member_sep(rest) == Some((false, rest.drop_first())));
    assert(rest.drop_first() =~= m4);
    assert(m4.len() < m3.len());
}

/// The second member.
#[verifier::rlimit(100)]
proof fn lemma_env_step2(ts: u64, es: Seq<u8>, ec: Seq<u8>, sg: Seq<u8>)
    ensures
        spec_env_members(env_m2(es, ec, sg), Some(ts), None, None, None) == spec_env_members(
            env_m3(ec, sg),
            Some(ts),
            Some(es),
            None,
            None,
        ),
{
    lemma_env_keys_plain();
    let ke = "encrypted_sender".spec_bytes();
    let m2 = env_m2(es, ec, sg);
    let m3 = env_m3(ec, sg);
    lemma_ws_noop(m2);
    assert(m2[0] == 34);
    lemma_member_key(ke, ser_bytes_of(es), seq![44u8] + m3);
    assert(m2 =~= ser_string_of(ke) + seq![58u8] + ser_bytes_of(es) + (seq![44u8] + m3));
    let r2 = seq![58u8] + (ser_bytes_of(es) + (seq![44u8] + m3));
    assert(spec_string(m2) == Some((ke, r2)));
    lemma_ws_noop(r2);
    assert(r2[0] == 58);
    let after = r2.drop_first();
    assert(after =~= ser_bytes_of(es) + (seq![44u8] + m3));
    assert(after[0] == 91);
    lemma_ws_noop(after);
    lemma_byte_array_round_trip(es, seq![44u8] + m3);
    let rest = seq![44u8] + m3;
    assert(ke != "timestamp".spec_bytes());
    assert(env_member_step(ke, after, Some(ts), None, None, None) == Some(
        ((Some(ts), Some(es), None::<Seq<u8>>, None::<Seq<u8>>), rest),
    ));
    lemma_ws_noop(rest);
    assert(rest[0] == 44);
    assert(member_sep(rest) == Some((false, rest.drop_first())));
    assert(rest.drop_first() =~= m3);
    assert(m3.len() < m2.len());
}

/// The first member.
#[verifier::rlimit(100)]
proof fn lemma_env_step1(ts: u64, es: Seq<u8>, ec: Seq<u8>, sg: Seq<u8>)
    ensures
        spec_env_members(env_m1(ts, es, ec, sg), None, None, None, None) == spec_env_members(
            env_m2(es, ec, sg),
            Some(ts),
            None,
            None,
            None,
        ),
{
    lemma_env_keys_plain();
    let kt = "timestamp".spec_bytes();
    let m1 = env_m1(ts, es, ec, sg);
    let m2 = env_m2(es, ec, sg);
    lemma_ws_noop(m1);
    assert(m1[0] == 34);
    lemma_member_key(kt, dec_of(ts), seq![44u8] + m2);
    assert(m1 =~= ser_string_of(kt) + seq![58u8] + dec_of(ts) + (seq![44u8] + m2));
    let r1 = seq![58u8] + (dec_of(ts) + (seq![44u8] + m2));
    assert(spec_string(m1) == Some((kt, r1)));
    lemma_ws_noop(r1);
    assert(r1[0] == 58);
    let after = r1.drop_first();
    assert(after =~= dec_of(ts) + (seq![44u8] + m2));
    crate::json::lemma_dec_of_digits(ts);
    assert(after[0] == dec_of(ts)[0]);
    lemma_ws_noop(after);
    lemma_u64_token_round_trip(ts, seq![44u8] + m2);
    let rest = seq![44u8] + m2;
    assert(env_member_step(kt, after, None, None, None, None) == Some(
        ((Some(ts), None::<Seq<u8>>, None::<Seq<u8>>, None::<Seq<u8>>), rest),
    ));
    lemma_ws_noop(rest);
    assert(rest[0] == 44);
    assert(member_sep(rest) == Some((false, rest.drop_first())));
    assert(rest.drop_first() =~= m2);
    assert(m2.len() < m1.len());
}

/// Parsing inverts serializing for envelopes.
pub proof fn lemma_envelope_round_trip(ts: u64, es: Seq<u8>, ec: Seq<u8>, sg: Seq<u8>)
    ensures
        spec_parse_envelope(env_json_of(ts, es, ec, sg)) == Some((ts, es, ec, sg)),
{
    let s = env_json_of(ts, es, ec, sg);
    let m1 = env_m1(ts, es, ec, sg);
    assert(s[0] == 123);
    lemma_ws_noop(s);
    assert(s.drop_first() =~= m1);
    lemma_env_step1(ts, es, ec, sg);
    lemma_env_step2(ts, es, ec, sg);
    lemma_env_step3(ts, es, ec, sg);
    lemma_env_step4(ts, es, ec, sg);
    assert(spec_ws(Seq::<u8>::empty()).len() == 0);
}

} // verus!
