//! Notification sub-protocol: a best-effort side channel announcing "new
//! message" events. The current record carries the sender in plaintext; a
//! legacy record carries an encrypted sender and is recognized only to be
//! discarded; anything else is unknown and self-healed by deletion.

use vstd::prelude::*;
use vstd::string::StringSliceAdditionalSpecFns;
use crate::encoding::{push_all, str_to_bytes, string_from_utf8};
use crate::json::{
    dec_of, parse_string_token, parse_u64_token, ser_string_bytes, ser_string_of, skip_value,
    skip_ws, spec_skip_value, spec_string, spec_u64_token, spec_ws, suffix_of, lemma_ws_noop,
    lemma_string_round_trip, lemma_u64_token_round_trip,
};
use crate::keys::{pk_parse, pk_parse_of};
use crate::wire::{is_plain_byte, member_sep, opt_bytes_view, read_member_sep};

verus! {

/// A current-format notification record as persisted.
pub struct PrivateNotification {
    /// Unix seconds at send time.
    pub timestamp: u64,
    /// The sender's address string, in plaintext.
    pub sender: String,
    /// The fresh identifier of the message object.
    pub msg_id: String,
}

/// One member step of a notification object (current format).
pub open spec fn notif_member_step(
    key: Seq<u8>,
    after: Seq<u8>,
    a0: Option<u64>,
    a1: Option<Seq<u8>>,
    a2: Option<Seq<u8>>,
) -> Option<((Option<u64>, Option<Seq<u8>>, Option<Seq<u8>>), Seq<u8>)> {
    if key == "timestamp".spec_bytes() {
        if a0 is Some {
            None
        } else {
            match spec_u64_token(spec_ws(after)) {
                Some((v, r)) => Some(((Some(v), a1, a2), r)),
                None => None,
            }
        }
    } else if key == "sender".spec_bytes() {
        if a1 is Some {
            None
        } else {
            match spec_string(spec_ws(after)) {
                Some((v, r)) => Some(((a0, Some(v), a2), r)),
                None => None,
            }
        }
    } else if key == "msg_id".spec_bytes() {
        if a2 is Some {
            None
        } else {
            match spec_string(spec_ws(after)) {
                Some((v, r)) => Some(((a0, a1, Some(v)), r)),
                None => None,
            }
        }
    } else {
        match spec_skip_value(after) {
            Some(r) => Some(((a0, a1, a2), r)),
            None => None,
        }
    }
}

/// One whole member of a notification object.
pub open spec fn notif_member_parse(
    t: Seq<u8>,
    a0: Option<u64>,
    a1: Option<Seq<u8>>,
    a2: Option<Seq<u8>>,
) -> Option<((Option<u64>, Option<Seq<u8>>, Option<Seq<u8>>), Seq<u8>)> {
    match spec_string(t) {
        Some((key, rest)) => {
            let t2 = spec_ws(rest);
            if t2.len() > 0 && t2[0] == 58 {
                notif_member_step(key, t2.drop_first(), a0, a1, a2)
            } else {
                None
            }
        },
        None => None,
    }
}

/// The members of a notification object after the opening brace.
pub open spec fn spec_notif_members(
    s: Seq<u8>,
    a0: Option<u64>,
    a1: Option<Seq<u8>>,
    a2: Option<Seq<u8>>,
) -> Option<((u64, Seq<u8>, Seq<u8>), Seq<u8>)>
    decreases s.len(),
{
    let t = spec_ws(s);
    if t.len() > 0 && t[0] == 125 {
        if a0 is Some && a1 is Some && a2 is Some {
            Some(((a0->Some_0, a1->Some_0, a2->Some_0), t.drop_first()))
        } else {
            None
        }
    } else {
        match notif_member_parse(t, a0, a1, a2) {
            Some((acc2, r)) => match member_sep(r) {
                Some((closed, r2)) => if closed {
                    if acc2.0 is Some && acc2.1 is Some && acc2.2 is Some {
                        Some(((acc2.0->Some_0, acc2.1->Some_0, acc2.2->Some_0), r2))
                    } else {
                        None
                    }
                } else {
                    if r2.len() < s.len() {
                        spec_notif_members(r2, acc2.0, acc2.1, acc2.2)
                    } else {
                        None
                    }
                },
                None => None,
            },
            None => None,
        }
    }
}

/// What parsing a current-format notification document yields:
/// (timestamp, sender bytes, msg_id bytes).
pub open spec fn spec_parse_notification(s: Seq<u8>) -> Option<(u64, Seq<u8>, Seq<u8>)> {
    let t = spec_ws(s);
    if t.len() > 0 && t[0] == 123 {
        match spec_notif_members(t.drop_first(), None, None, None) {
            Some((vals, rest)) => if spec_ws(rest).len() == 0 {
                Some(vals)
            } else {
                None
            },
            None => None,
        }
    } else {
        None
    }
}

/// Parse one member of a notification object.
#[verifier::rlimit(100)]
fn parse_notif_member(s: &Vec<u8>, j: usize, a0: Option<u64>, a1: Option<Vec<u8>>, a2: Option<
    Vec<u8>,
>) -> (r: Option<((Option<u64>, Option<Vec<u8>>, Option<Vec<u8>>), usize)>)
    requires
        j <= s@.len(),
    ensures
        r is None ==> notif_member_parse(
            suffix_of(s@, j as int),
            a0,
            opt_bytes_view(a1),
            opt_bytes_view(a2),
        ) is None,
        r is Some ==> j < r->Some_0.1 <= s@.len(),
        r is Some ==> notif_member_parse(
            suffix_of(s@, j as int),
            a0,
            opt_bytes_view(a1),
            opt_bytes_view(a2),
        ) == Some(
            (
                (r->Some_0.0.0, opt_bytes_view(r->Some_0.0.1), opt_bytes_view(r->Some_0.0.2)),
                suffix_of(s@, r->Some_0.1 as int),
            ),
        ),
{
    let (key, k2) = match parse_string_token(s, j) {
        Some(p) => p,
        None => {
            return None;
        },
    };
    let k3 = skip_ws(s, k2);
    if k3 >= s.len() {
        return None;
    }
    proof {
        assert(suffix_of(s@, k3 as int)[0] == s@[k3 as int]);
    }
    if s[k3] != 58 {
        return None;
    }
    proof {
        assert(suffix_of(s@, k3 as int).drop_first() =~= suffix_of(s@, k3 + 1));
    }
    let after = k3 + 1;
    if crate::wire::key_is(&key, "timestamp") {
        if a0.is_some() {
            return None;
        }
        let k4 = skip_ws(s, after);
        let (v, k5) = match parse_u64_token(s, k4) {
            Some(p) => p,
            None => {
                return None;
            },
        };
        Some(((Some(v), a1, a2), k5))
    } else if crate::wire::key_is(&key, "sender") {
        if a1.is_some() {
            return None;
        }
        let k4 = skip_ws(s, after);
        let (v, k5) = match parse_string_token(s, k4) {
            Some(p) => p,
            None => {
                return None;
            },
        };
        Some(((a0, Some(v), a2), k5))
    } else if crate::wire::key_is(&key, "msg_id") {
        if a2.is_some() {
            return None;
        }
        let k4 = skip_ws(s, after);
        let (v, k5) = match parse_string_token(s, k4) {
            Some(p) => p,
            None => {
                return None;
            },
        };
        Some(((a0, a1, Some(v)), k5))
    } else {
        let k5 = match skip_value(s, after) {
            Some(p) => p,
            None => {
                return None;
            },
        };
        if k5 <= j {
            proof {
                assert(false);
            }
            return None;
        }
        Some(((a0, a1, a2), k5))
    }
}

/// Parse a current-format notification document into its raw fields.
#[verifier::rlimit(100)]
pub fn parse_notification_fields(s: &Vec<u8>) -> (r: Option<(u64, Vec<u8>, Vec<u8>)>)
    ensures
        r is Some <==> spec_parse_notification(s@) is Some,
        r is Some ==> Some((r->Some_0.0, r->Some_0.1@, r->Some_0.2@)) == spec_parse_notification(
            s@,
        ),
{
    let j0 = skip_ws(s, 0);
    proof {
        assert(suffix_of(s@, 0) =~= s@);
        if (j0 as int) < s@.len() {
            assert(suffix_of(s@, j0 as int)[0] == s@[j0 as int]);
        }
    }
    if j0 >= s.len() || s[j0] != 123 {
        return None;
    }
    proof {
        assert(suffix_of(s@, j0 as int).drop_first() =~= suffix_of(s@, j0 + 1));
    }
    let mut a0: Option<u64> = None;
    let mut a1: Option<Vec<u8>> = None;
    let mut a2: Option<Vec<u8>> = None;
    let mut j: usize = j0 + 1;
    loop
        invariant
            j0 + 1 <= j <= s@.len(),
            spec_notif_members(suffix_of(s@, j0 + 1), None, None, None) == spec_notif_members(
                suffix_of(s@, j as int),
                a0,
                opt_bytes_view(a1),
                opt_bytes_view(a2),
            ),
            spec_parse_notification(s@) == (match spec_notif_members(
                suffix_of(s@, j0 + 1),
                None,
                None,
                None,
            ) {
                Some((vals, rest)) => if spec_ws(rest).len() == 0 {
                    Some(vals)
                } else {
                    None
                },
                None => None,
            }),
        decreases s@.len() - j,
    {
        let k = skip_ws(s, j);
        proof {
            if (k as int) < s@.len() {
                assert(suffix_of(s@, k as int)[0] == s@[k as int]);
            }
        }
        if k < s.len() && s[k] == 125 {
            proof {
                assert(suffix_of(s@, k as int).drop_first() =~= suffix_of(s@, k + 1));
            }
            match (a0, a1, a2) {
                (Some(ts), Some(snd), Some(mid)) => {
                    let k2 = skip_ws(s, k + 1);
                    if k2 < s.len() {
                        return None;
                    }
                    return Some((ts, snd, mid));
                },
                _ => {
                    return None;
                },
            }
        }
        let (acc2, vend) = match parse_notif_member(s, k, a0, a1, a2) {
            Some(p) => p,
            None => {
                return None;
            },
        };
        a0 = acc2.0;
        a1 = acc2.1;
        a2 = acc2.2;
        let (closed, k6) = match read_member_sep(s, vend) {
            Some(p) => p,
            None => {
                return None;
            },
        };
        if closed {
            match (a0, a1, a2) {
                (Some(ts), Some(snd), Some(mid)) => {
                    let k7 = skip_ws(s, k6);
                    if k7 < s.len() {
                        return None;
                    }
                    return Some((ts, snd, mid));
                },
                _ => {
                    return None;
                },
            }
        }
        j = k6;
    }
}

/// One member step of a legacy notification object: `timestamp`,
/// `encrypted_sender` (a byte array) and `msg_id`.
pub open spec fn legacy_member_step(
    key: Seq<u8>,
    after: Seq<u8>,
    a0: Option<u64>,
    a1: Option<Seq<u8>>,
    a2: Option<Seq<u8>>,
) -> Option<((Option<u64>, Option<Seq<u8>>, Option<Seq<u8>>), Seq<u8>)> {
    if key == "timestamp".spec_bytes() {
        if a0 is Some {
            None
        } else {
            match spec_u64_token(spec_ws(after)) {
                Some((v, r)) => Some(((Some(v), a1, a2), r)),
                None => None,
            }
        }
    } else if key == "encrypted_sender".spec_bytes() {
        if a1 is Some {
            None
        } else {
            match crate::json::spec_byte_array(spec_ws(after)) {
                Some((v, r)) => Some(((a0, Some(v), a2), r)),
                None => None,
            }
        }
    } else if key == "msg_id".spec_bytes() {
        if a2 is Some {
            None
        } else {
            match spec_string(spec_ws(after)) {
                Some((v, r)) => Some(((a0, a1, Some(v)), r)),
                None => None,
            }
        }
    } else {
        match spec_skip_value(after) {
            Some(r) => Some(((a0, a1, a2), r)),
            None => None,
        }
    }
}

/// One whole member of a legacy notification object.
pub open spec fn legacy_member_parse(
    t: Seq<u8>,
    a0: Option<u64>,
    a1: Option<Seq<u8>>,
    a2: Option<Seq<u8>>,
) -> Option<((Option<u64>, Option<Seq<u8>>, Option<Seq<u8>>), Seq<u8>)> {
    match spec_string(t) {
        Some((key, rest)) => {
            let t2 = spec_ws(rest);
            if t2.len() > 0 && t2[0] == 58 {
                legacy_member_step(key, t2.drop_first(), a0, a1, a2)
            } else {
                None
            }
        },
        None => None,
    }
}

/// The members of a legacy notification object after the opening brace.
pub open spec fn spec_legacy_members(
    s: Seq<u8>,
    a0: Option<u64>,
    a1: Option<Seq<u8>>,
    a2: Option<Seq<u8>>,
) -> Option<((u64, Seq<u8>, Seq<u8>), Seq<u8>)>
    decreases s.len(),
{
    let t = spec_ws(s);
    if t.len() > 0 && t[0] == 125 {
        if a0 is Some && a1 is Some && a2 is Some {
            Some(((a0->Some_0, a1->Some_0, a2->Some_0), t.drop_first()))
        } else {
            None
        }
    } else {
        match legacy_member_parse(t, a0, a1, a2) {
            Some((acc2, r)) => match member_sep(r) {
                Some((closed, r2)) => if closed {
                    if acc2.0 is Some && acc2.1 is Some && acc2.2 is Some {
                        Some(((acc2.0->Some_0, acc2.1->Some_0, acc2.2->Some_0), r2))
                    } else {
                        None
                    }
                } else {
                    if r2.len() < s.len() {
                        spec_legacy_members(r2, acc2.0, acc2.1, acc2.2)
                    } else {
                        None
                    }
                },
                None => None,
            },
            None => None,
        }
    }
}

/// What parsing a legacy notification document yields.
pub open spec fn spec_parse_legacy_notification(s: Seq<u8>) -> Option<(u64, Seq<u8>, Seq<u8>)> {
    let t = spec_ws(s);
    if t.len() > 0 && t[0] == 123 {
        match spec_legacy_members(t.drop_first(), None, None, None) {
            Some((vals, rest)) => if spec_ws(rest).len() == 0 {
                Some(vals)
            } else {
                None
            },
            None => None,
        }
    } else {
        None
    }
}

/// Parse one member of a legacy notification object.
#[verifier::rlimit(100)]
fn parse_legacy_member(s: &Vec<u8>, j: usize, a0: Option<u64>, a1: Option<Vec<u8>>, a2: Option<
    Vec<u8>,
>) -> (r: Option<((Option<u64>, Option<Vec<u8>>, Option<Vec<u8>>), usize)>)
    requires
        j <= s@.len(),
    ensures
        r is None ==> legacy_member_parse(
            suffix_of(s@, j as int),
            a0,
            opt_bytes_view(a1),
            opt_bytes_view(a2),
        ) is None,
        r is Some ==> j < r->Some_0.1 <= s@.len(),
        r is Some ==> legacy_member_parse(
            suffix_of(s@, j as int),
            a0,
            opt_bytes_view(a1),
            opt_bytes_view(a2),
        ) == Some(
            (
                (r->Some_0.0.0, opt_bytes_view(r->Some_0.0.1), opt_bytes_view(r->Some_0.0.2)),
                suffix_of(s@, r->Some_0.1 as int),
            ),
        ),
{
    let (key, k2) = match parse_string_token(s, j) {
        Some(p) => p,
        None => {
            return None;
        },
    };
    let k3 = skip_ws(s, k2);
    if k3 >= s.len() {
        return None;
    }
    proof {
        assert(suffix_of(s@, k3 as int)[0] == s@[k3 as int]);
    }
    if s[k3] != 58 {
        return None;
    }
    proof {
        assert(suffix_of(s@, k3 as int).drop_first() =~= suffix_of(s@, k3 + 1));
    }
    let after = k3 + 1;
    if crate::wire::key_is(&key, "timestamp") {
        if a0.is_some() {
            return None;
        }
        let k4 = skip_ws(s, after);
        let (v, k5) = match parse_u64_token(s, k4) {
            Some(p) => p,
            None => {
                return None;
            },
        };
        Some(((Some(v), a1, a2), k5))
    } else if crate::wire::key_is(&key, "encrypted_sender") {
        if a1.is_some() {
            return None;
        }
        let k4 = skip_ws(s, after);
        let (v, k5) = match crate::json::parse_byte_array(s, k4) {
            Some(p) => p,
            None => {
                return None;
            },
        };
        Some(((a0, Some(v), a2), k5))
    } else if crate::wire::key_is(&key, "msg_id") {
        if a2.is_some() {
            return None;
        }
        let k4 = skip_ws(s, after);
        let (v, k5) = match parse_string_token(s, k4) {
            Some(p) => p,
            None => {
                return None;
            },
        };
        Some(((a0, a1, Some(v)), k5))
    } else {
        let k5 = match skip_value(s, after) {
            Some(p) => p,
            None => {
                return None;
            },
        };
        if k5 <= j {
            proof {
                assert(false);
            }
            return None;
        }
        Some(((a0, a1, a2), k5))
    }
}

/// Parse a legacy notification document into its raw fields.
#[verifier::rlimit(100)]
pub fn parse_legacy_notification_fields(s: &Vec<u8>) -> (r: Option<(u64, Vec<u8>, Vec<u8>)>)
    ensures
        r is Some <==> spec_parse_legacy_notification(s@) is Some,
        r is Some ==> Some((r->Some_0.0, r->Some_0.1@, r->Some_0.2@))
            == spec_parse_legacy_notification(s@),
{
    let j0 = skip_ws(s, 0);
    proof {
        assert(suffix_of(s@, 0) =~= s@);
        if (j0 as int) < s@.len() {
            assert(suffix_of(s@, j0 as int)[0] == s@[j0 as int]);
        }
    }
    if j0 >= s.len() || s[j0] != 123 {
        return None;
    }
    proof {
        assert(suffix_of(s@, j0 as int).drop_first() =~= suffix_of(s@, j0 + 1));
    }
    let mut a0: Option<u64> = None;
    let mut a1: Option<Vec<u8>> = None;
    let mut a2: Option<Vec<u8>> = None;
    let mut j: usize = j0 + 1;
    loop
        invariant
            j0 + 1 <= j <= s@.len(),
            spec_legacy_members(suffix_of(s@, j0 + 1), None, None, None) == spec_legacy_members(
                suffix_of(s@, j as int),
                a0,
                opt_bytes_view(a1),
                opt_bytes_view(a2),
            ),
            spec_parse_legacy_notification(s@) == (match spec_legacy_members(
                suffix_of(s@, j0 + 1),
                None,
                None,
                None,
            ) {
                Some((vals, rest)) => if spec_ws(rest).len() == 0 {
                    Some(vals)
                } else {
                    None
                },
                None => None,
            }),
        decreases s@.len() - j,
    {
        let k = skip_ws(s, j);
        proof {
            if (k as int) < s@.len() {
                assert(suffix_of(s@, k as int)[0] == s@[k as int]);
            }
        }
        if k < s.len() && s[k] == 125 {
            proof {
                assert(suffix_of(s@, k as int).drop_first() =~= suffix_of(s@, k + 1));
            }
            match (a0, a1, a2) {
                (Some(ts), Some(snd), Some(mid)) => {
                    let k2 = skip_ws(s, k + 1);
                    if k2 < s.len() {
                        return None;
                    }
                    return Some((ts, snd, mid));
                },
                _ => {
                    return None;
                },
            }
        }
        let (acc2, vend) = match parse_legacy_member(s, k, a0, a1, a2) {
            Some(p) => p,
            None => {
                return None;
            },
        };
        a0 = acc2.0;
        a1 = acc2.1;
        a2 = acc2.2;
        let (closed, k6) = match read_member_sep(s, vend) {
            Some(p) => p,
            None => {
                return None;
            },
        };
        if closed {
            match (a0, a1, a2) {
                (Some(ts), Some(snd), Some(mid)) => {
                    let k7 = skip_ws(s, k6);
                    if k7 < s.len() {
                        return None;
                    }
                    return Some((ts, snd, mid));
                },
                _ => {
                    return None;
                },
            }
        }
        j = k6;
    }
}

/// How a drained object is classified, and what the drain does with it:
/// a valid current record is yielded and its object deleted; a current
/// record whose sender does not parse is left alone; a legacy record is
/// deleted without yielding data; anything else is unknown and deleted.
pub enum NotificationKind {
    /// Current format with a well-formed sender: yield (sender, msg_id),
    /// then delete.
    Current { sender: String, msg_id: String },
    /// Current format, but the sender is not a valid public key: leave
    /// the object in place.
    CurrentBadSender,
    /// Legacy format: delete, yield nothing.
    Legacy,
    /// Unrecognized: delete, yield nothing.
    Unknown,
}

/// The classification of a notification body, over the byte string.
pub open spec fn spec_classify(b: Seq<u8>) -> NotificationClass {
    match spec_parse_notification(b) {
        Some((ts, snd, mid)) => if vstd::utf8::valid_utf8(snd) && vstd::utf8::valid_utf8(mid) {
            if pk_parse_of(vstd::utf8::decode_utf8(snd)) is Some {
                NotificationClass::Current(
                    vstd::utf8::decode_utf8(snd),
                    vstd::utf8::decode_utf8(mid),
                )
            } else {
                NotificationClass::CurrentBadSender
            }
        } else {
            NotificationClass::CurrentBadSender
        },
        None => match spec_parse_legacy_notification(b) {
            Some(_) => NotificationClass::Legacy,
            None => NotificationClass::Unknown,
        },
    }
}

/// Spec-level classification result.
pub enum NotificationClass {
    /// Current format with a well-formed sender.
    Current(Seq<char>, Seq<char>),
    /// Current format with a malformed or undecodable sender.
    CurrentBadSender,
    /// Legacy format.
    Legacy,
    /// Unrecognized.
    Unknown,
}

/// Classify one notification object body: current format first, then
/// legacy, else unknown.
pub fn classify_notification(body: &str) -> (r: NotificationKind)
    ensures
        (match r {
            NotificationKind::Current { sender, msg_id } => spec_classify(body.spec_bytes())
                == NotificationClass::Current(sender@, msg_id@),
            NotificationKind::CurrentBadSender => spec_classify(body.spec_bytes())
                == NotificationClass::CurrentBadSender,
            NotificationKind::Legacy => spec_classify(body.spec_bytes())
                == NotificationClass::Legacy,
            NotificationKind::Unknown => spec_classify(body.spec_bytes())
                == NotificationClass::Unknown,
        }),
{
    let bytes = str_to_bytes(body);
    match parse_notification_fields(&bytes) {
        Some((ts, snd, mid)) => {
            let ghost snd_view = snd@;
            let ghost mid_view = mid@;
            let sender = match string_from_utf8(snd) {
                Some(s2) => s2,
                None => {
                    return NotificationKind::CurrentBadSender;
                },
            };
            let msg_id = match string_from_utf8(mid) {
                Some(s2) => s2,
                None => {
                    return NotificationKind::CurrentBadSender;
                },
            };
            match pk_parse(sender.as_str()) {
                Some(_) => NotificationKind::Current { sender, msg_id },
                None => NotificationKind::CurrentBadSender,
            }
        },
        None => {
            match parse_legacy_notification_fields(&bytes) {
                Some(_) => NotificationKind::Legacy,
                None => NotificationKind::Unknown,
            }
        },
    }
}

/// The canonical current-format notification document.
pub open spec fn notif_json_of(ts: u64, sender: Seq<u8>, msg_id: Seq<u8>) -> Seq<u8> {
    seq![123u8] + notif_m1(ts, sender, msg_id)
}

pub open spec fn notif_m3(msg_id: Seq<u8>) -> Seq<u8> {
    ser_string_of("msg_id".spec_bytes()) + seq![58u8] + ser_string_of(msg_id) + seq![125u8]
}

pub open spec fn notif_m2(sender: Seq<u8>, msg_id: Seq<u8>) -> Seq<u8> {
    ser_string_of("sender".spec_bytes()) + seq![58u8] + ser_string_of(sender) + seq![44u8]
        + notif_m3(msg_id)
}

pub open spec fn notif_m1(ts: u64, sender: Seq<u8>, msg_id: Seq<u8>) -> Seq<u8> {
    ser_string_of("timestamp".spec_bytes()) + seq![58u8] + dec_of(ts) + seq![44u8] + notif_m2(
        sender,
        msg_id,
    )
}

/// Serialize a notification record canonically.
pub fn serialize_notification(n: &PrivateNotification) -> (r: Vec<u8>)
    ensures
        r@ == notif_json_of(
            n.timestamp,
            vstd::utf8::encode_utf8(n.sender@),
            vstd::utf8::encode_utf8(n.msg_id@),
        ),
{
    let mut out: Vec<u8> = Vec::new();
    out.push(123);
    let k1 = str_to_bytes("timestamp");
    ser_string_bytes(&mut out, &k1);
    out.push(58);
    let d = crate::json::u64_to_dec(n.timestamp);
    push_all(&mut out, &d);
    out.push(44);
    let k2 = str_to_bytes("sender");
    ser_string_bytes(&mut out, &k2);
    out.push(58);
    let sv = str_to_bytes(n.sender.as_str());
    ser_string_bytes(&mut out, &sv);
    out.push(44);
    let k3 = str_to_bytes("msg_id");
    ser_string_bytes(&mut out, &k3);
    out.push(58);
    let mv = str_to_bytes(n.msg_id.as_str());
    ser_string_bytes(&mut out, &mv);
    out.push(125);
    proof {
        assert(out@ =~= notif_json_of(
            n.timestamp,
            vstd::utf8::encode_utf8(n.sender@),
            vstd::utf8::encode_utf8(n.msg_id@),
        ));
    }
    out
}

/// The notification member keys are plain ASCII and pairwise distinct.
proof fn lemma_notif_keys_plain()
    ensures
        forall|k: int|
            0 <= k < "timestamp".spec_bytes().len() ==> is_plain_byte(
                #[trigger] "timestamp".spec_bytes()[k],
            ),
        forall|k: int|
            0 <= k < "sender".spec_bytes().len() ==> is_plain_byte(
                #[trigger] "sender".spec_bytes()[k],
            ),
        forall|k: int|
            0 <= k < "msg_id".spec_bytes().len() ==> is_plain_byte(
                #[trigger] "msg_id".spec_bytes()[k],
            ),
        "timestamp".spec_bytes() != "sender".spec_bytes(),
        "timestamp".spec_bytes() != "msg_id".spec_bytes(),
        "sender".spec_bytes() != "msg_id".spec_bytes(),
{
    reveal_strlit("timestamp");
    reveal_strlit("sender");
    reveal_strlit("msg_id");
    broadcast use vstd::utf8::is_ascii_chars_encode_utf8;

    assert(vstd::utf8::is_ascii_chars("timestamp"@));
    assert(vstd::utf8::is_ascii_chars("sender"@));
    assert(vstd::utf8::is_ascii_chars("msg_id"@));
    assert("timestamp".spec_bytes().len() == 9);
    assert("sender".spec_bytes().len() == 6);
    assert("msg_id".spec_bytes().len() == 6);
    assert("sender".spec_bytes()[0] == 's' as u8);
    assert("msg_id".spec_bytes()[0] == 'm' as u8);
}

/// The third member and the closing brace.
#[verifier::rlimit(100)]
proof fn lemma_notif_step3(ts: u64, sender: Seq<u8>, msg_id: Seq<u8>)
    ensures
        spec_notif_members(notif_m3(msg_id), Some(ts), Some(sender), None) == Some(
            ((ts, sender, msg_id), Seq::<u8>::empty()),
        ),
{
    lemma_notif_keys_plain();
    let km = "msg_id".spec_bytes();
    let m3 = notif_m3(msg_id);
    lemma_ws_noop(m3);
    assert(m3[0] == 34);
    crate::wire::lemma_member_key(km, ser_string_of(msg_id), seq![125u8]);
    assert(m3 =~= ser_string_of(km) + seq![58u8] + ser_string_of(msg_id) + seq![125u8]);
    let r3 = seq![58u8] + (ser_string_of(msg_id) + seq![125u8]);
    assert(spec_string(m3) == Some((km, r3)));
    lemma_ws_noop(r3);
    assert(r3[0] == 58);
    let after = r3.drop_first();
    assert(after =~= ser_string_of(msg_id) + seq![125u8]);
    assert(after[0] == 34);
    lemma_ws_noop(after);
    lemma_string_round_trip(msg_id, seq![125u8]);
    let rest = seq![125u8];
    assert(km != "timestamp".spec_bytes());
    assert(km != "sender".spec_bytes());
    assert(notif_member_step(km, after, Some(ts), Some(sender), None) == Some(
        ((Some(ts), Some(sender), Some(msg_id)), rest),
    ));
    lemma_ws_noop(rest);
    assert(rest[0] == 125);
    assert(member_sep(rest) == Some((true, rest.drop_first())));
    assert(rest.drop_first() =~= Seq::<u8>::empty());
}

/// The second member.
#[verifier::rlimit(100)]
proof fn lemma_notif_step2(ts: u64, sender: Seq<u8>, msg_id: Seq<u8>)
    ensures
        spec_notif_members(notif_m2(sender, msg_id), Some(ts), None, None) == spec_notif_members(
            notif_m3(msg_id),
            Some(ts),
            Some(sender),
            None,
        ),
{
    lemma_notif_keys_plain();
    let ks = "sender".spec_bytes();
    let m2 = notif_m2(sender, msg_id);
    let m3 = notif_m3(msg_id);
    lemma_ws_noop(m2);
    assert(m2[0] == 34);
    crate::wire::lemma_member_key(ks, ser_string_of(sender), seq![44u8] + m3);
    assert(m2 =~= ser_string_of(ks) + seq![58u8] + ser_string_of(sender) + (seq![44u8] + m3));
    let r2 = seq![58u8] + (ser_string_of(sender) + (seq![44u8] + m3));
    assert(spec_string(m2) == Some((ks, r2)));
    lemma_ws_noop(r2);
    assert(r2[0] == 58);
    let after = r2.drop_first();
    assert(after =~= ser_string_of(sender) + (seq![44u8] + m3));
    assert(after[0] == 34);
    lemma_ws_noop(after);
    lemma_string_round_trip(sender, seq![44u8] + m3);
    let rest = seq![44u8] + m3;
    assert(ks != "timestamp".spec_bytes());
    assert(notif_member_step(ks, after, Some(ts), None, None) == Some(
        ((Some(ts), Some(sender), None::<Seq<u8>>), rest),
    ));
    lemma_ws_noop(rest);
    assert(rest[0] == 44);
    assert(member_sep(rest) == Some((false, rest.drop_first())));
    assert(rest.drop_first() =~= m3);
    assert(m3.len() < m2.len());
}

/// The first member.
#[verifier::rlimit(100)]
proof fn lemma_notif_step1(ts: u64, sender: Seq<u8>, msg_id: Seq<u8>)
    ensures
        spec_notif_members(notif_m1(ts, sender, msg_id), None, None, None) == spec_notif_members(
            notif_m2(sender, msg_id),
            Some(ts),
            None,
            None,
        ),
{
    lemma_notif_keys_plain();
    let kt = "timestamp".spec_bytes();
    let m1 = notif_m1(ts, sender, msg_id);
    let m2 = notif_m2(sender, msg_id);
    lemma_ws_noop(m1);
    assert(m1[0] == 34);
    crate::wire::lemma_member_key(kt, dec_of(ts), seq![44u8] + m2);
    assert(m1 =~= ser_string_of(kt) + seq![58u8] + dec_of(ts) + (seq![44u8] + m2));
    let r1 = seq![58u8] + (dec_of(ts) + (seq![44u8] + m2));
    assert(spec_string(m1) == Some((kt, r1)));
    lemma_ws_noop(r1);
    assert(r1[0] == 58);
    let after = r1.drop_first();
    assert(after =~= dec_of(ts) + (seq![44u8] + m2));
    crate::json::lemma_dec_of_digits(ts);
    assert(after[0] == dec_of(ts)[0]);
    lemma_ws_noop(after);
    lemma_u64_token_round_trip(ts, seq![44u8] + m2);
    let rest = seq![44u8] + m2;
    assert(notif_member_step(kt, after, None, None, None) == Some(
        ((Some(ts), None::<Seq<u8>>, None::<Seq<u8>>), rest),
    ));
    lemma_ws_noop(rest);
    assert(rest[0] == 44);
    assert(member_sep(rest) == Some((false, rest.drop_first())));
    assert(rest.drop_first() =~= m2);
    assert(m2.len() < m1.len());
}

/// The URI one notification is written to:
/// `pubky://<recipient>/pub/notifications/<id>.json`.
pub open spec fn notification_uri_of(recipient: Seq<char>, id: Seq<char>) -> Seq<char> {
    "pubky://"@ + recipient + "/pub/notifications/"@ + id + ".json"@
}

/// The listing prefix of an account's notification location.
pub open spec fn notifications_prefix_of(owner: Seq<char>) -> Seq<char> {
    "pubky://"@ + owner + "/pub/notifications/"@
}

/// Build the URI one notification is written to.
pub fn notification_uri(recipient: &str, id: &str) -> (r: String)
    ensures
        r@ == notification_uri_of(recipient@, id@),
{
    let mut uri = String::from_str("pubky://");
    uri.append(recipient);
    uri.append("/pub/notifications/");
    uri.append(id);
    uri.append(".json");
    proof {
        assert(uri@ =~= notification_uri_of(recipient@, id@));
    }
    uri
}

/// Build the listing prefix of an account's notification location.
pub fn notifications_prefix(owner: &str) -> (r: String)
    ensures
        r@ == notifications_prefix_of(owner@),
{
    let mut uri = String::from_str("pubky://");
    uri.append(owner);
    uri.append("/pub/notifications/");
    proof {
        assert(uri@ =~= notifications_prefix_of(owner@));
    }
    uri
}

/// Prepare one notification write for a sent message: a fresh object
/// identifier, the record body at the current time with the sender in
/// plaintext, and the target URI under the recipient's notification
/// location.
pub fn prepare_notification(sender_keypair: &crate::keys::Keypair, recipient: &str, msg_id: &str)
    -> (r: (String, Vec<u8>))
    requires
        sender_keypair.wf(),
    ensures
        ({
            let p = spec_parse_notification(r.1@);
            &&& p is Some
            &&& p->Some_0.1 == vstd::utf8::encode_utf8(
                crate::keys::zb32_of(sender_keypair.spec_public_key()),
            )
            &&& p->Some_0.2 == vstd::utf8::encode_utf8(msg_id@)
        }),
        ({
            exists|id: Seq<char>|
                r.0@ == notification_uri_of(recipient@, id) && #[trigger] id.len() == 36
        }),
{
    let timestamp = crate::entropy::now_unix_seconds();
    let sender = sender_keypair.public_key_string();
    let record = PrivateNotification {
        timestamp,
        sender,
        msg_id: String::from_str(msg_id),
    };
    let body = serialize_notification(&record);
    proof {
        lemma_notification_round_trip(
            record.timestamp,
            vstd::utf8::encode_utf8(record.sender@),
            vstd::utf8::encode_utf8(record.msg_id@),
        );
    }
    let notification_id = crate::entropy::new_object_id();
    let uri = notification_uri(recipient, notification_id.as_str());
    proof {
        assert(uri@ == notification_uri_of(recipient@, notification_id@) && notification_id@.len()
            == 36);
    }
    (uri, body)
}

/// The drain's decision for one notification object: whether to delete
/// it, and what it yields. A valid current record yields its sender and
/// message id and is deleted; a current record with a bad sender is
/// left alone; legacy and unknown objects are deleted and yield
/// nothing.
pub fn notification_action(body: &str) -> (r: (bool, Option<(String, String)>))
    ensures
        (match spec_classify(body.spec_bytes()) {
            NotificationClass::Current(snd, mid) => r.0 && r.1 is Some && r.1->Some_0.0@ == snd
                && r.1->Some_0.1@ == mid,
            NotificationClass::CurrentBadSender => !r.0 && r.1 is None,
            NotificationClass::Legacy => r.0 && r.1 is None,
            NotificationClass::Unknown => r.0 && r.1 is None,
        }),
{
    match classify_notification(body) {
        NotificationKind::Current { sender, msg_id } => (true, Some((sender, msg_id))),
        NotificationKind::CurrentBadSender => (false, None),
        NotificationKind::Legacy => (true, None),
        NotificationKind::Unknown => (true, None),
    }
}

/// Parsing inverts serializing for current-format notifications.
pub proof fn lemma_notification_round_trip(ts: u64, sender: Seq<u8>, msg_id: Seq<u8>)
    ensures
        spec_parse_notification(notif_json_of(ts, sender, msg_id)) == Some((ts, sender, msg_id)),
{
    let s = notif_json_of(ts, sender, msg_id);
    let m1 = notif_m1(ts, sender, msg_id);
    assert(s[0] == 123);
    lemma_ws_noop(s);
    assert(s.drop_first() =~= m1);
    lemma_notif_step1(ts, sender, msg_id);
    lemma_notif_step2(ts, sender, msg_id);
    lemma_notif_step3(ts, sender, msg_id);
    assert(spec_ws(Seq::<u8>::empty()).len() == 0);
}

} // verus!
