//! Trusted bindings for environment-dependent values: the clock, the
//! system random source, and fresh object identifiers. Nothing beyond
//! shape is assumed of any of them.

use vstd::prelude::*;

verus! {

/// Relies on std::time::SystemTime: seconds since the Unix epoch, or 0 if
/// the clock reads before the epoch. No value is assumed.
#[verifier::external_body]
pub fn now_unix_seconds() -> (r: u64) {
    match std::time::SystemTime::now().duration_since(std::time::UNIX_EPOCH) {
        Ok(d) => d.as_secs(),
        Err(_) => 0,
    }
}

/// Relies on rand_core::OsRng::fill_bytes: `n` bytes from the operating
/// system's random source. No value is assumed.
#[verifier::external_body]
pub fn random_bytes(n: usize) -> (r: Vec<u8>)
    ensures
        r@.len() == n,
{
    let mut out = vec![0u8; n];
    rand_core::RngCore::fill_bytes(&mut rand_core::OsRng, &mut out);
    out
}

/// Whether a character may appear in a hyphenated UUID rendering.
pub open spec fn is_uuid_char(c: char) -> bool {
    ('0' <= c && c <= '9') || ('a' <= c && c <= 'f') || c == '-'
}

/// Relies on uuid::Uuid::new_v4: a random version-4 UUID rendered in the
/// hyphenated form, 36 lowercase-hex-and-hyphen characters. No value is
/// assumed beyond the format.
#[verifier::external_body]
pub fn new_object_id() -> (r: String)
    ensures
        r@.len() == 36,
        forall|i: int| 0 <= i < r@.len() ==> is_uuid_char(#[trigger] r@[i]),
        vstd::utf8::is_ascii_chars(r@),
{
    uuid::Uuid::new_v4().to_string()
}

} // verus!
