//! Byte-level JSON scanning for the persisted object shapes: unsigned
//! integers, strings with the standard escapes, and arrays of bytes. The
//! parsers are specified as functions from the remaining input to the
//! parsed value and the rest; the serializers emit the canonical form
//! (no whitespace) and each token round-trips exactly.

use vstd::prelude::*;

verus! {

/// The suffix of a byte string from position `i`.
pub open spec fn suffix_of(s: Seq<u8>, i: int) -> Seq<u8>
    recommends
        0 <= i <= s.len(),
{
    s.subrange(i, s.len() as int)
}

/// JSON whitespace: space, tab, line feed, carriage return.
pub open spec fn is_ws_byte(b: u8) -> bool {
    b == 32 || b == 9 || b == 10 || b == 13
}

/// ASCII decimal digit.
pub open spec fn is_digit_byte(b: u8) -> bool {
    48 <= b && b <= 57
}

/// ASCII hex digit, either case.
pub open spec fn is_hex_byte(b: u8) -> bool {
    is_digit_byte(b) || (97 <= b && b <= 102) || (65 <= b && b <= 70)
}

/// Value of an ASCII hex digit.
pub open spec fn hex_byte_val(b: u8) -> u32
    recommends
        is_hex_byte(b),
{
    if is_digit_byte(b) {
        (b - 48) as u32
    } else if 97 <= b && b <= 102 {
        (b - 97 + 10) as u32
    } else {
        (b - 65 + 10) as u32
    }
}

/// The ASCII byte of a lowercase hex digit.
pub open spec fn hex_digit_byte(n: u8) -> u8
    recommends
        n < 16,
{
    if n < 10 {
        (48 + n) as u8
    } else {
        (97 + n - 10) as u8
    }
}

/// The remaining input after leading whitespace.
pub open spec fn spec_ws(s: Seq<u8>) -> Seq<u8>
    decreases s.len(),
{
    if s.len() > 0 && is_ws_byte(s[0]) {
        spec_ws(s.drop_first())
    } else {
        s
    }
}

/// Skipping whitespace never lengthens the input, and the result is a
/// suffix that starts with a non-whitespace byte (or is empty).
pub proof fn lemma_ws_len(s: Seq<u8>)
    ensures
        spec_ws(s).len() <= s.len(),
        spec_ws(s).len() > 0 ==> !is_ws_byte(spec_ws(s)[0]),
    decreases s.len(),
{
    if s.len() > 0 && is_ws_byte(s[0]) {
        lemma_ws_len(s.drop_first());
    }
}

/// On input that does not start with whitespace, skipping is the
/// identity.
pub proof fn lemma_ws_noop(s: Seq<u8>)
    requires
        s.len() == 0 || !is_ws_byte(s[0]),
    ensures
        spec_ws(s) == s,
{
}

/// Advance past JSON whitespace.
pub fn skip_ws(s: &Vec<u8>, i: usize) -> (r: usize)
    requires
        i <= s@.len(),
    ensures
        i <= r <= s@.len(),
        suffix_of(s@, r as int) == spec_ws(suffix_of(s@, i as int)),
{
    let mut j: usize = i;
    while j < s.len() && (s[j] == 32 || s[j] == 9 || s[j] == 10 || s[j] == 13)
        invariant
            i <= j <= s@.len(),
            spec_ws(suffix_of(s@, i as int)) == spec_ws(suffix_of(s@, j as int)),
        decreases s@.len() - j,
    {
        proof {
            assert(suffix_of(s@, j as int).drop_first() =~= suffix_of(s@, j + 1));
        }
        j = j + 1;
    }
    proof {
        if j < s@.len() {
            assert(suffix_of(s@, j as int)[0] == s@[j as int]);
        }
        assert(spec_ws(suffix_of(s@, j as int)) == suffix_of(s@, j as int));
    }
    j
}

/// Value of the decimal digit prefix `s[0..j)`.
pub open spec fn run_val(s: Seq<u8>, j: int) -> int
    recommends
        0 <= j <= s.len(),
    decreases j,
{
    if j <= 0 {
        0
    } else {
        run_val(s, j - 1) * 10 + (s[j - 1] - 48)
    }
}

/// Length of the leading run of decimal digits.
pub open spec fn digit_run_len(s: Seq<u8>) -> int
    decreases s.len(),
{
    if s.len() > 0 && is_digit_byte(s[0]) {
        1 + digit_run_len(s.drop_first())
    } else {
        0
    }
}

pub proof fn lemma_digit_run_len_bounds(s: Seq<u8>)
    ensures
        0 <= digit_run_len(s) <= s.len(),
        forall|k: int| 0 <= k < digit_run_len(s) ==> is_digit_byte(#[trigger] s[k]),
        digit_run_len(s) < s.len() ==> !is_digit_byte(s[digit_run_len(s)]),
    decreases s.len(),
{
    if s.len() > 0 && is_digit_byte(s[0]) {
        lemma_digit_run_len_bounds(s.drop_first());
        let n = digit_run_len(s);
        assert forall|k: int| 0 <= k < n implies is_digit_byte(#[trigger] s[k]) by {
            if k > 0 {
                assert(s[k] == s.drop_first()[k - 1]);
            }
        }
        if n < s.len() {
            assert(s[n] == s.drop_first()[n - 1]);
        }
    }
}

/// The digit run is determined by any prefix that covers it: if the
/// first `k` bytes are digits and byte `k` (if any) is not, the run is
/// exactly `k`.
pub proof fn lemma_digit_run_len_exact(s: Seq<u8>, k: int)
    requires
        0 <= k <= s.len(),
        forall|m: int| 0 <= m < k ==> is_digit_byte(#[trigger] s[m]),
        k == s.len() || !is_digit_byte(s[k]),
    ensures
        digit_run_len(s) == k,
    decreases s.len(),
{
    if k == 0 {
    } else {
        assert(is_digit_byte(s[0]));
        assert forall|m: int| 0 <= m < k - 1 implies is_digit_byte(#[trigger] s.drop_first()[m]) by {
            assert(s.drop_first()[m] == s[m + 1]);
        }
        if k - 1 < s.drop_first().len() {
            assert(s.drop_first()[k - 1] == s[k]);
        }
        lemma_digit_run_len_exact(s.drop_first(), k - 1);
    }
}

/// The value of a digit run is non-negative.
pub proof fn lemma_run_val_nonneg(s: Seq<u8>, j: int)
    requires
        0 <= j <= s.len(),
        forall|k: int| 0 <= k < j ==> is_digit_byte(#[trigger] s[k]),
    ensures
        run_val(s, j) >= 0,
    decreases j,
{
    if j > 0 {
        lemma_run_val_nonneg(s, j - 1);
        let v = run_val(s, j - 1);
        assert(is_digit_byte(s[j - 1]));
        assert(v * 10 >= 0) by (nonlinear_arith)
            requires
                v >= 0,
        ;
    }
}

/// The value of a digit run is non-negative and grows (weakly) with its
/// length.
pub proof fn lemma_run_val_mono(s: Seq<u8>, j1: int, j2: int)
    requires
        0 <= j1 <= j2 <= s.len(),
        forall|k: int| 0 <= k < j2 ==> is_digit_byte(#[trigger] s[k]),
    ensures
        0 <= run_val(s, j1) <= run_val(s, j2),
    decreases j2 - j1,
{
    lemma_run_val_nonneg(s, j1);
    if j1 < j2 {
        lemma_run_val_mono(s, j1, j2 - 1);
        let v = run_val(s, j2 - 1);
        assert(is_digit_byte(s[j2 - 1]));
        assert(run_val(s, j2) == v * 10 + (s[j2 - 1] - 48));
        assert(v * 10 >= v) by (nonlinear_arith)
            requires
                v >= 0,
        ;
    }
}

/// What parsing an unsigned 64-bit JSON number yields: the leading digit
/// run's value and the rest, or nothing when there is no digit, on a
/// leading zero, on overflow, or when a fraction or exponent follows.
pub open spec fn spec_u64_token(s: Seq<u8>) -> Option<(u64, Seq<u8>)> {
    let n = digit_run_len(s);
    if n == 0 {
        None
    } else if s[0] == 48 && n > 1 {
        None
    } else if run_val(s, n) > u64::MAX {
        None
    } else if n < s.len() && (s[n] == 46 || s[n] == 101 || s[n] == 69) {
        None
    } else {
        Some((run_val(s, n) as u64, suffix_of(s, n)))
    }
}

/// Parse an unsigned 64-bit JSON number.
pub fn parse_u64_token(s: &Vec<u8>, i: usize) -> (r: Option<(u64, usize)>)
    requires
        i <= s@.len(),
    ensures
        r is None ==> spec_u64_token(suffix_of(s@, i as int)) is None,
        r is Some ==> i < r->Some_0.1 <= s@.len(),
        r is Some ==> spec_u64_token(suffix_of(s@, i as int)) == Some(
            (r->Some_0.0, suffix_of(s@, r->Some_0.1 as int)),
        ),
{
    let ghost t = suffix_of(s@, i as int);
    proof {
        lemma_digit_run_len_bounds(t);
    }
    if i >= s.len() || s[i] < 48 || s[i] > 57 {
        proof {
            if t.len() > 0 {
                assert(t[0] == s@[i as int]);
            }
            assert(digit_run_len(t) == 0);
        }
        return None;
    }
    let mut j: usize = i;
    let mut acc: u64 = 0;
    let mut overflow: bool = false;
    while j < s.len() && s[j] >= 48 && s[j] <= 57
        invariant
            i <= j <= s@.len(),
            t == suffix_of(s@, i as int),
            forall|k: int| 0 <= k < j - i ==> is_digit_byte(#[trigger] t[k]),
            !overflow ==> acc == run_val(t, j - i),
            overflow ==> j - i >= 1 && run_val(t, j - i) > u64::MAX,
            forall|k: int| j - i <= k < t.len() ==> t[k] == s@[i + k],
        decreases s@.len() - j,
    {
        let d: u64 = (s[j] - 48) as u64;
        proof {
            assert(t[j - i] == s@[j as int]);
            assert(run_val(t, j - i + 1) == run_val(t, j - i) * 10 + (t[j - i] - 48));
        }
        if !overflow {
            if acc > (u64::MAX - d) / 10 {
                proof {
                    let v = acc as int;
                    let m = u64::MAX as int;
                    assert(v * 10 + d > m) by (nonlinear_arith)
                        requires
                            v > (m - d) / 10,
                            0 <= d <= 9,
                            m >= 0,
                            v >= 0,
                    ;
                }
                overflow = true;
            } else {
                proof {
                    let v = acc as int;
                    let m = u64::MAX as int;
                    assert(v * 10 + d <= m) by (nonlinear_arith)
                        requires
                            v <= (m - d) / 10,
                            0 <= d <= 9,
                            m >= 0,
                            v >= 0,
                    ;
                }
                acc = acc * 10 + d;
            }
        } else {
            proof {
                let v = run_val(t, j - i);
                assert(run_val(t, j - i + 1) == v * 10 + (t[j - i] - 48));
                assert(v * 10 >= v) by (nonlinear_arith)
                    requires
                        v >= 0,
                ;
                lemma_run_val_mono(t, 0, j - i);
            }
        }
        j = j + 1;
    }
    let n: usize = j - i;
    proof {
        if (j as int) < s@.len() {
            assert(t[n as int] == s@[j as int]);
        }
        lemma_digit_run_len_exact(t, n as int);
    }
    if overflow {
        return None;
    }
    if s[i] == 48 && n > 1 {
        return None;
    }
    if j < s.len() && (s[j] == 46 || s[j] == 101 || s[j] == 69) {
        proof {
            assert(t[n as int] == s@[j as int]);
        }
        return None;
    }
    proof {
        assert(suffix_of(s@, j as int) =~= suffix_of(t, n as int));
    }
    Some((acc, j))
}

/// The canonical decimal rendering of an unsigned 64-bit integer.
pub open spec fn dec_of(t: u64) -> Seq<u8>
    decreases t,
{
    if t < 10 {
        seq![(48 + t) as u8]
    } else {
        dec_of(t / 10).push((48 + t % 10) as u8)
    }
}

pub proof fn lemma_dec_of_digits(t: u64)
    ensures
        dec_of(t).len() >= 1,
        forall|k: int| 0 <= k < dec_of(t).len() ==> is_digit_byte(#[trigger] dec_of(t)[k]),
        dec_of(t)[0] == 48 <==> t == 0,
    decreases t,
{
    if t >= 10 {
        lemma_dec_of_digits(t / 10);
    }
}

/// The decimal rendering parses back to the value it was printed from.
pub proof fn lemma_dec_run_val(t: u64, s: Seq<u8>)
    requires
        dec_of(t).len() <= s.len(),
        forall|k: int| 0 <= k < dec_of(t).len() ==> s[k] == dec_of(t)[k],
    ensures
        run_val(s, dec_of(t).len() as int) == t,
    decreases t,
{
    let d = dec_of(t);
    if t < 10 {
        assert(run_val(s, 1) == run_val(s, 0) * 10 + (s[0] - 48));
    } else {
        let dh = dec_of(t / 10);
        assert(d == dh.push((48 + t % 10) as u8));
        assert forall|k: int| 0 <= k < dh.len() implies s[k] == dh[k] by {
            assert(d[k] == dh[k]);
        }
        lemma_dec_run_val(t / 10, s);
        assert(s[d.len() - 1] == d[d.len() - 1]);
        assert(run_val(s, d.len() as int) == run_val(s, d.len() - 1) * 10 + (s[d.len() - 1]
            - 48));
    }
}

/// Parsing inverts printing: the canonical rendering of `t`, followed by
/// anything that does not extend the number, parses to exactly `t`.
pub proof fn lemma_u64_token_round_trip(t: u64, tail: Seq<u8>)
    requires
        tail.len() == 0 || !(is_digit_byte(tail[0]) || tail[0] == 46 || tail[0] == 101
            || tail[0] == 69),
    ensures
        spec_u64_token(dec_of(t) + tail) == Some((t, tail)),
{
    let d = dec_of(t);
    let s = d + tail;
    lemma_dec_of_digits(t);
    assert forall|m: int| 0 <= m < d.len() implies is_digit_byte(#[trigger] s[m]) by {
        assert(s[m] == d[m]);
    }
    if (d.len() as int) < s.len() {
        assert(s[d.len() as int] == tail[0]);
    }
    lemma_digit_run_len_exact(s, d.len() as int);
    lemma_dec_run_val(t, s);
    assert(s[0] == d[0]);
    assert(suffix_of(s, d.len() as int) =~= tail);
}

/// The UTF-8 encoding of a Unicode scalar value.
pub open spec fn utf8_enc(cp: u32) -> Seq<u8>
    recommends
        cp < 0x110000,
{
    if cp < 0x80 {
        seq![cp as u8]
    } else if cp < 0x800 {
        seq![(0xC0 | (cp >> 6)) as u8, (0x80 | (cp & 0x3F)) as u8]
    } else if cp < 0x10000 {
        seq![
            (0xE0 | (cp >> 12)) as u8,
            (0x80 | ((cp >> 6) & 0x3F)) as u8,
            (0x80 | (cp & 0x3F)) as u8,
        ]
    } else {
        seq![
            (0xF0 | (cp >> 18)) as u8,
            (0x80 | ((cp >> 12) & 0x3F)) as u8,
            (0x80 | ((cp >> 6) & 0x3F)) as u8,
            (0x80 | (cp & 0x3F)) as u8,
        ]
    }
}

/// Append the UTF-8 encoding of a scalar value.
pub fn push_utf8(acc: &mut Vec<u8>, cp: u32)
    requires
        cp < 0x110000,
    ensures
        final(acc)@ == old(acc)@ + utf8_enc(cp),
{
    if cp < 0x80 {
        acc.push(cp as u8);
    } else if cp < 0x800 {
        proof {
            assert((0xC0u32 | (cp >> 6u32)) < 256 && (0x80u32 | (cp & 0x3Fu32)) < 256)
                by (bit_vector)
                requires
                    cp < 0x800u32,
            ;
        }
        acc.push((0xC0 | (cp >> 6)) as u8);
        acc.push((0x80 | (cp & 0x3F)) as u8);
    } else if cp < 0x10000 {
        proof {
            assert((0xE0u32 | (cp >> 12u32)) < 256 && (0x80u32 | ((cp >> 6u32) & 0x3Fu32)) < 256
                && (0x80u32 | (cp & 0x3Fu32)) < 256) by (bit_vector)
                requires
                    cp < 0x10000u32,
            ;
        }
        acc.push((0xE0 | (cp >> 12)) as u8);
        acc.push((0x80 | ((cp >> 6) & 0x3F)) as u8);
        acc.push((0x80 | (cp & 0x3F)) as u8);
    } else {
        proof {
            assert((0xF0u32 | (cp >> 18u32)) < 256 && (0x80u32 | ((cp >> 12u32) & 0x3Fu32)) < 256
                && (0x80u32 | ((cp >> 6u32) & 0x3Fu32)) < 256 && (0x80u32 | (cp & 0x3Fu32)) < 256)
                by (bit_vector)
                requires
                    cp < 0x110000u32,
            ;
        }
        acc.push((0xF0 | (cp >> 18)) as u8);
        acc.push((0x80 | ((cp >> 12) & 0x3F)) as u8);
        acc.push((0x80 | ((cp >> 6) & 0x3F)) as u8);
        acc.push((0x80 | (cp & 0x3F)) as u8);
    }
    proof {
        assert(acc@ =~= old(acc)@ + utf8_enc(cp));
    }
}

/// Value of four hex digits.
pub open spec fn hex4_val(a: u8, b: u8, c: u8, d: u8) -> u32
    recommends
        is_hex_byte(a) && is_hex_byte(b) && is_hex_byte(c) && is_hex_byte(d),
{
    (((hex_byte_val(a) * 16 + hex_byte_val(b)) * 16 + hex_byte_val(c)) * 16 + hex_byte_val(
        d,
    )) as u32
}

/// What parsing the body of a JSON string (after the opening quote)
/// yields: the unescaped bytes and the rest after the closing quote.
/// Handles the standard escapes, including surrogate pairs; rejects raw
/// control bytes and lone surrogates.
pub open spec fn spec_string_body(s: Seq<u8>, acc: Seq<u8>) -> Option<(Seq<u8>, Seq<u8>)>
    decreases s.len(),
{
    if s.len() == 0 {
        None
    } else if s[0] == 34 {
        Some((acc, s.drop_first()))
    } else if s[0] == 92 {
        if s.len() < 2 {
            None
        } else {
            let e = s[1];
            if e == 34 || e == 92 || e == 47 {
                spec_string_body(s.skip(2), acc.push(e))
            } else if e == 98 {
                spec_string_body(s.skip(2), acc.push(8))
            } else if e == 102 {
                spec_string_body(s.skip(2), acc.push(12))
            } else if e == 110 {
                spec_string_body(s.skip(2), acc.push(10))
            } else if e == 114 {
                spec_string_body(s.skip(2), acc.push(13))
            } else if e == 116 {
                spec_string_body(s.skip(2), acc.push(9))
            } else if e == 117 {
                if s.len() < 6 {
                    None
                } else if !(is_hex_byte(s[2]) && is_hex_byte(s[3]) && is_hex_byte(s[4])
                    && is_hex_byte(s[5])) {
                    None
                } else {
                    let cp = hex4_val(s[2], s[3], s[4], s[5]);
                    if 0xD800 <= cp && cp <= 0xDBFF {
                        if s.len() >= 12 && s[6] == 92 && s[7] == 117 && is_hex_byte(s[8])
                            && is_hex_byte(s[9]) && is_hex_byte(s[10]) && is_hex_byte(s[11]) {
                            let lo = hex4_val(s[8], s[9], s[10], s[11]);
                            if 0xDC00 <= lo && lo <= 0xDFFF {
                                spec_string_body(
                                    s.skip(12),
                                    acc + utf8_enc(
                                        (0x10000 + (cp - 0xD800) * 0x400 + (lo - 0xDC00)) as u32,
                                    ),
                                )
                            } else {
                                None
                            }
                        } else {
                            None
                        }
                    } else if 0xDC00 <= cp && cp <= 0xDFFF {
                        None
                    } else {
                        spec_string_body(s.skip(6), acc + utf8_enc(cp))
                    }
                }
            } else {
                None
            }
        }
    } else if s[0] < 32 {
        None
    } else {
        spec_string_body(s.drop_first(), acc.push(s[0]))
    }
}

/// What parsing a JSON string yields: requires the opening quote, then
/// the body.
pub open spec fn spec_string(s: Seq<u8>) -> Option<(Seq<u8>, Seq<u8>)> {
    if s.len() > 0 && s[0] == 34 {
        spec_string_body(s.drop_first(), Seq::<u8>::empty())
    } else {
        None
    }
}

/// Classify a hex digit byte and give its value.
fn hex_nibble(b: u8) -> (r: Option<u8>)
    ensures
        r is Some <==> is_hex_byte(b),
        r is Some ==> r->Some_0 as u32 == hex_byte_val(b) && r->Some_0 < 16,
{
    if 48 <= b && b <= 57 {
        Some(b - 48)
    } else if 97 <= b && b <= 102 {
        Some(b - 97 + 10)
    } else if 65 <= b && b <= 70 {
        Some(b - 65 + 10)
    } else {
        None
    }
}

/// Parse a JSON string token into its unescaped bytes.
#[verifier::rlimit(100)]
pub fn parse_string_token(s: &Vec<u8>, i: usize) -> (r: Option<(Vec<u8>, usize)>)
    requires
        i <= s@.len(),
    ensures
        r is None ==> spec_string(suffix_of(s@, i as int)) is None,
        r is Some ==> i < r->Some_0.1 <= s@.len(),
        r is Some ==> spec_string(suffix_of(s@, i as int)) == Some(
            (r->Some_0.0@, suffix_of(s@, r->Some_0.1 as int)),
        ),
{
    let ghost t = suffix_of(s@, i as int);
    if i >= s.len() || s[i] != 34 {
        proof {
            if t.len() > 0 {
                assert(t[0] == s@[i as int]);
            }
        }
        return None;
    }
    proof {
        assert(t[0] == s@[i as int]);
        assert(t.drop_first() =~= suffix_of(s@, i + 1));
    }
    let mut j: usize = i + 1;
    let mut acc: Vec<u8> = Vec::new();
    loop
        invariant
            i + 1 <= j <= s@.len(),
            i < s@.len(),
            t == suffix_of(s@, i as int),
            spec_string(t) == spec_string_body(suffix_of(s@, j as int), acc@),
        decreases s@.len() - j,
    {
        let ghost cur = suffix_of(s@, j as int);
        proof {
            assert(forall|k: int| 0 <= k < cur.len() ==> cur[k] == s@[j + k]);
        }
        if j >= s.len() {
            return None;
        }
        let b = s[j];
        if b == 34 {
            proof {
                assert(cur.drop_first() =~= suffix_of(s@, j + 1));
            }
            return Some((acc, j + 1));
        }
        if b == 92 {
            if s.len() - j < 2 {
                return None;
            }
            let e = s[j + 1];
            if e == 34 || e == 92 || e == 47 {
                proof {
                    assert(cur.skip(2) =~= suffix_of(s@, j + 2));
                }
                acc.push(e);
                j = j + 2;
            } else if e == 98 {
                proof {
                    assert(cur.skip(2) =~= suffix_of(s@, j + 2));
                }
                acc.push(8);
                j = j + 2;
            } else if e == 102 {
                proof {
                    assert(cur.skip(2) =~= suffix_of(s@, j + 2));
                }
                acc.push(12);
                j = j + 2;
            } else if e == 110 {
                proof {
                    assert(cur.skip(2) =~= suffix_of(s@, j + 2));
                }
                acc.push(10);
                j = j + 2;
            } else if e == 114 {
                proof {
                    assert(cur.skip(2) =~= suffix_of(s@, j + 2));
                }
                acc.push(13);
                j = j + 2;
            } else if e == 116 {
                proof {
                    assert(cur.skip(2) =~= suffix_of(s@, j + 2));
                }
                acc.push(9);
                j = j + 2;
            } else if e == 117 {
                if s.len() - j < 6 {
                    return None;
                }
                let h1 = match hex_nibble(s[j + 2]) {
                    Some(h) => h,
                    None => {
                        return None;
                    },
                };
                let h2 = match hex_nibble(s[j + 3]) {
                    Some(h) => h,
                    None => {
                        return None;
                    },
                };
                let h3 = match hex_nibble(s[j + 4]) {
                    Some(h) => h,
                    None => {
                        return None;
                    },
                };
                let h4 = match hex_nibble(s[j + 5]) {
                    Some(h) => h,
                    None => {
                        return None;
                    },
                };
                let cp: u32 = ((h1 as u32 * 16 + h2 as u32) * 16 + h3 as u32) * 16 + h4 as u32;
                proof {
                    assert(cp == hex4_val(cur[2], cur[3], cur[4], cur[5]));
                }
                if 0xD800 <= cp && cp <= 0xDBFF {
                    if s.len() - j < 12 || s[j + 6] != 92 || s[j + 7] != 117 {
                        return None;
                    }
                    let g1 = match hex_nibble(s[j + 8]) {
                        Some(h) => h,
                        None => {
                            return None;
                        },
                    };
                    let g2 = match hex_nibble(s[j + 9]) {
                        Some(h) => h,
                        None => {
                            return None;
                        },
                    };
                    let g3 = match hex_nibble(s[j + 10]) {
                        Some(h) => h,
                        None => {
                            return None;
                        },
                    };
                    let g4 = match hex_nibble(s[j + 11]) {
                        Some(h) => h,
                        None => {
                            return None;
                        },
                    };
                    let lo: u32 = ((g1 as u32 * 16 + g2 as u32) * 16 + g3 as u32) * 16
                        + g4 as u32;
                    proof {
                        assert(lo == hex4_val(cur[8], cur[9], cur[10], cur[11]));
                    }
                    if !(0xDC00 <= lo && lo <= 0xDFFF) {
                        return None;
                    }
                    let full: u32 = 0x10000 + (cp - 0xD800) * 0x400 + (lo - 0xDC00);
                    proof {
                        assert(cur.skip(12) =~= suffix_of(s@, j + 12));
                    }
                    push_utf8(&mut acc, full);
                    j = j + 12;
                } else if 0xDC00 <= cp && cp <= 0xDFFF {
                    return None;
                } else {
                    proof {
                        assert(cur.skip(6) =~= suffix_of(s@, j + 6));
                    }
                    push_utf8(&mut acc, cp);
                    j = j + 6;
                }
            } else {
                return None;
            }
        } else if b < 32 {
            return None;
        } else {
            proof {
                assert(cur.drop_first() =~= suffix_of(s@, j + 1));
            }
            acc.push(b);
            j = j + 1;
        }
    }
}

/// How one byte is escaped inside a JSON string: quote and backslash get
/// a backslash, control bytes become a `\u00XX` escape, everything else
/// passes through.
pub open spec fn esc_byte(b: u8) -> Seq<u8> {
    if b == 34 {
        seq![92u8, 34u8]
    } else if b == 92 {
        seq![92u8, 92u8]
    } else if b < 32 {
        seq![92u8, 117u8, 48u8, 48u8, hex_digit_byte(b / 16), hex_digit_byte(b % 16)]
    } else {
        seq![b]
    }
}

/// The escaped form of a byte string.
pub open spec fn esc_of(b: Seq<u8>) -> Seq<u8>
    decreases b.len(),
{
    if b.len() == 0 {
        Seq::<u8>::empty()
    } else {
        esc_byte(b[0]) + esc_of(b.drop_first())
    }
}

/// The serialized JSON string for a byte string: quote, escaped bytes,
/// quote.
pub open spec fn ser_string_of(b: Seq<u8>) -> Seq<u8> {
    seq![34u8] + esc_of(b) + seq![34u8]
}

pub proof fn lemma_esc_of_push(b: Seq<u8>, x: u8)
    ensures
        esc_of(b.push(x)) == esc_of(b) + esc_byte(x),
    decreases b.len(),
{
    if b.len() == 0 {
        assert(b.push(x).drop_first() =~= b);
        assert(esc_of(b.push(x)) =~= esc_of(b) + esc_byte(x));
    } else {
        assert(b.push(x).drop_first() =~= b.drop_first().push(x));
        lemma_esc_of_push(b.drop_first(), x);
        assert(esc_of(b.push(x)) =~= esc_of(b) + esc_byte(x));
    }
}

/// Append the serialized JSON string for a byte string.
pub fn ser_string_bytes(out: &mut Vec<u8>, b: &Vec<u8>)
    ensures
        final(out)@ == old(out)@ + ser_string_of(b@),
{
    out.push(34);
    let mut k: usize = 0;
    while k < b.len()
        invariant
            k <= b@.len(),
            out@ == old(out)@ + seq![34u8] + esc_of(b@.take(k as int)),
        decreases b@.len() - k,
    {
        proof {
            assert(b@.take(k + 1) =~= b@.take(k as int).push(b@[k as int]));
            lemma_esc_of_push(b@.take(k as int), b@[k as int]);
        }
        let x = b[k];
        if x == 34 {
            out.push(92);
            out.push(34);
        } else if x == 92 {
            out.push(92);
            out.push(92);
        } else if x < 32 {
            out.push(92);
            out.push(117);
            out.push(48);
            out.push(48);
            out.push(48 + x / 16);
            let lo = x % 16;
            if lo < 10 {
                out.push(48 + lo);
            } else {
                out.push(97 + lo - 10);
            }
        } else {
            out.push(x);
        }
        proof {
            assert(out@ =~= old(out)@ + seq![34u8] + esc_of(b@.take(k + 1)));
        }
        k = k + 1;
    }
    out.push(34);
    proof {
        assert(b@.take(b@.len() as int) =~= b@);
        assert(out@ =~= old(out)@ + ser_string_of(b@));
    }
}

pub proof fn lemma_hex_digit_byte(n: u8)
    requires
        n < 16,
    ensures
        is_hex_byte(hex_digit_byte(n)),
        hex_byte_val(hex_digit_byte(n)) == n,
{
}

/// Parsing inverts escaping: the body parser applied to the escaped
/// bytes, a closing quote and a tail yields the original bytes.
pub proof fn lemma_string_body_round_trip(b: Seq<u8>, acc: Seq<u8>, tail: Seq<u8>)
    ensures
        spec_string_body(esc_of(b) + seq![34u8] + tail, acc) == Some((acc + b, tail)),
    decreases b.len(),
{
    let s = esc_of(b) + seq![34u8] + tail;
    if b.len() == 0 {
        assert(s =~= seq![34u8] + tail);
        assert(s[0] == 34);
        assert(s.drop_first() =~= tail);
        assert(acc + b =~= acc);
    } else {
        let x = b[0];
        let rest = esc_of(b.drop_first()) + seq![34u8] + tail;
        assert(s =~= esc_byte(x) + rest);
        if x == 34 || x == 92 {
            assert(s[0] == 92 && s[1] == x);
            assert(s.skip(2) =~= rest);
            lemma_string_body_round_trip(b.drop_first(), acc.push(x), tail);
            assert(acc.push(x) + b.drop_first() =~= acc + b);
        } else if x < 32 {
            assert(s[0] == 92 && s[1] == 117 && s[2] == 48 && s[3] == 48);
            assert(s[4] == hex_digit_byte(x / 16) && s[5] == hex_digit_byte(x % 16));
            lemma_hex_digit_byte(x / 16);
            lemma_hex_digit_byte(x % 16);
            let cp = hex4_val(s[2], s[3], s[4], s[5]);
            assert(cp == (x / 16) * 16 + (x % 16));
            assert(cp == x as u32);
            assert(utf8_enc(cp) =~= seq![x]);
            assert(s.skip(6) =~= rest);
            lemma_string_body_round_trip(b.drop_first(), acc + seq![x], tail);
            assert(acc + seq![x] =~= acc.push(x));
            assert(acc.push(x) + b.drop_first() =~= acc + b);
        } else {
            assert(s[0] == x);
            assert(x != 34 && x != 92 && x >= 32);
            assert(s.drop_first() =~= rest);
            lemma_string_body_round_trip(b.drop_first(), acc.push(x), tail);
            assert(acc.push(x) + b.drop_first() =~= acc + b);
        }
    }
}

/// Parsing inverts serializing for string tokens.
pub proof fn lemma_string_round_trip(b: Seq<u8>, tail: Seq<u8>)
    ensures
        spec_string(ser_string_of(b) + tail) == Some((b, tail)),
{
    let s = ser_string_of(b) + tail;
    assert(s[0] == 34);
    assert(s.drop_first() =~= esc_of(b) + seq![34u8] + tail);
    lemma_string_body_round_trip(b, Seq::<u8>::empty(), tail);
    assert(Seq::<u8>::empty() + b =~= b);
}

/// What parsing the items of a non-empty JSON byte array yields: the
/// collected bytes and the rest after the closing bracket. Each item
/// must be an integer in 0..=255.
pub open spec fn spec_byte_items(s: Seq<u8>, acc: Seq<u8>) -> Option<(Seq<u8>, Seq<u8>)>
    decreases s.len(),
    via spec_byte_items_decreases
{
    let s1 = spec_ws(s);
    match spec_u64_token(s1) {
        Some((v, rest)) => if v <= 255 {
            let r2 = spec_ws(rest);
            if r2.len() > 0 && r2[0] == 44 {
                spec_byte_items(r2.drop_first(), acc.push(v as u8))
            } else if r2.len() > 0 && r2[0] == 93 {
                Some((acc.push(v as u8), r2.drop_first()))
            } else {
                None
            }
        } else {
            None
        },
        None => None,
    }
}

#[via_fn]
proof fn spec_byte_items_decreases(s: Seq<u8>, acc: Seq<u8>) {
    lemma_ws_len(s);
    let s1 = spec_ws(s);
    lemma_digit_run_len_bounds(s1);
    if spec_u64_token(s1) is Some {
        let rest = spec_u64_token(s1)->Some_0.1;
        lemma_ws_len(rest);
    }
}

/// What parsing a JSON byte array yields.
pub open spec fn spec_byte_array(s: Seq<u8>) -> Option<(Seq<u8>, Seq<u8>)> {
    if s.len() > 0 && s[0] == 91 {
        let inner = spec_ws(s.drop_first());
        if inner.len() > 0 && inner[0] == 93 {
            Some((Seq::<u8>::empty(), inner.drop_first()))
        } else {
            spec_byte_items(s.drop_first(), Seq::<u8>::empty())
        }
    } else {
        None
    }
}

/// Parse a JSON array of integers in 0..=255 into bytes.
pub fn parse_byte_array(s: &Vec<u8>, i: usize) -> (r: Option<(Vec<u8>, usize)>)
    requires
        i <= s@.len(),
    ensures
        r is None ==> spec_byte_array(suffix_of(s@, i as int)) is None,
        r is Some ==> i < r->Some_0.1 <= s@.len(),
        r is Some ==> spec_byte_array(suffix_of(s@, i as int)) == Some(
            (r->Some_0.0@, suffix_of(s@, r->Some_0.1 as int)),
        ),
{
    let ghost t = suffix_of(s@, i as int);
    if i >= s.len() || s[i] != 91 {
        proof {
            if t.len() > 0 {
                assert(t[0] == s@[i as int]);
            }
        }
        return None;
    }
    proof {
        assert(t[0] == s@[i as int]);
        assert(t.drop_first() =~= suffix_of(s@, i + 1));
    }
    let j0 = skip_ws(s, i + 1);
    if j0 < s.len() && s[j0] == 93 {
        proof {
            let inner = spec_ws(suffix_of(s@, i + 1));
            assert(inner[0] == s@[j0 as int]);
            assert(inner.drop_first() =~= suffix_of(s@, j0 + 1));
        }
        return Some((Vec::new(), j0 + 1));
    }
    proof {
        let inner = spec_ws(suffix_of(s@, i + 1));
        if inner.len() > 0 {
            assert(inner[0] == s@[j0 as int]);
        }
    }
    let mut acc: Vec<u8> = Vec::new();
    let mut j: usize = i + 1;
    loop
        invariant
            i + 1 <= j <= s@.len(),
            t == suffix_of(s@, i as int),
            spec_byte_items(suffix_of(s@, i + 1), Seq::<u8>::empty()) == spec_byte_items(
                suffix_of(s@, j as int),
                acc@,
            ),
            spec_byte_array(t) == spec_byte_items(suffix_of(s@, i + 1), Seq::<u8>::empty()),
        decreases s@.len() - j,
    {
        let k = skip_ws(s, j);
        let (v, k2) = match parse_u64_token(s, k) {
            Some(p) => p,
            None => {
                return None;
            },
        };
        if v > 255 {
            return None;
        }
        let k3 = skip_ws(s, k2);
        if k3 >= s.len() {
            return None;
        }
        proof {
            assert(suffix_of(s@, k3 as int)[0] == s@[k3 as int]);
        }
        if s[k3] == 44 {
            proof {
                assert(suffix_of(s@, k3 as int).drop_first() =~= suffix_of(s@, k3 + 1));
            }
            acc.push(v as u8);
            j = k3 + 1;
        } else if s[k3] == 93 {
            proof {
                assert(suffix_of(s@, k3 as int).drop_first() =~= suffix_of(s@, k3 + 1));
            }
            acc.push(v as u8);
            return Some((acc, k3 + 1));
        } else {
            return None;
        }
    }
}

/// The serialized items of a byte array after the first element: for
/// each further byte a comma and its decimal rendering, then the closing
/// bracket.
pub open spec fn ser_items_rest_of(v: Seq<u8>) -> Seq<u8>
    decreases v.len(),
{
    if v.len() == 0 {
        seq![93u8]
    } else {
        seq![44u8] + dec_of(v[0] as u64) + ser_items_rest_of(v.drop_first())
    }
}

/// The serialized JSON byte array: `[`, the decimal bytes separated by
/// commas, `]`.
pub open spec fn ser_bytes_of(v: Seq<u8>) -> Seq<u8> {
    if v.len() == 0 {
        seq![91u8, 93u8]
    } else {
        seq![91u8] + dec_of(v[0] as u64) + ser_items_rest_of(v.drop_first())
    }
}

/// Append the serialized items after the first element, from index `k`.
fn ser_items_rest(out: &mut Vec<u8>, v: &Vec<u8>, k: usize)
    requires
        k <= v@.len(),
    ensures
        final(out)@ == old(out)@ + ser_items_rest_of(v@.skip(k as int)),
    decreases v@.len() - k,
{
    if k == v.len() {
        out.push(93);
        proof {
            assert(v@.skip(k as int).len() == 0);
            assert(out@ =~= old(out)@ + ser_items_rest_of(v@.skip(k as int)));
        }
    } else {
        out.push(44);
        let d = u64_to_dec(v[k] as u64);
        crate::encoding::push_all(out, &d);
        ser_items_rest(out, v, k + 1);
        proof {
            assert(v@.skip(k as int).drop_first() =~= v@.skip(k + 1));
            assert(v@.skip(k as int)[0] == v@[k as int]);
            assert(out@ =~= old(out)@ + ser_items_rest_of(v@.skip(k as int)));
        }
    }
}

/// Append the serialized JSON byte array for `v`.
pub fn ser_bytes(out: &mut Vec<u8>, v: &Vec<u8>)
    ensures
        final(out)@ == old(out)@ + ser_bytes_of(v@),
{
    out.push(91);
    if v.len() == 0 {
        out.push(93);
        proof {
            assert(out@ =~= old(out)@ + ser_bytes_of(v@));
        }
    } else {
        let d = u64_to_dec(v[0] as u64);
        crate::encoding::push_all(out, &d);
        ser_items_rest(out, v, 1);
        proof {
            assert(v@.skip(1) =~= v@.drop_first());
            assert(out@ =~= old(out)@ + ser_bytes_of(v@));
        }
    }
}

/// Parsing inverts serializing for the items after the first element.
proof fn lemma_byte_items_round_trip(v: Seq<u8>, acc: Seq<u8>, tail: Seq<u8>)
    requires
        v.len() > 0,
        tail.len() == 0 || !(is_digit_byte(tail[0]) || is_ws_byte(tail[0])),
    ensures
        spec_byte_items(dec_of(v[0] as u64) + ser_items_rest_of(v.drop_first()) + tail, acc)
            == Some((acc + v, tail)),
    decreases v.len(),
{
    let s = dec_of(v[0] as u64) + ser_items_rest_of(v.drop_first()) + tail;
    let tail2 = ser_items_rest_of(v.drop_first()) + tail;
    assert(s =~= dec_of(v[0] as u64) + tail2);
    lemma_dec_of_digits(v[0] as u64);
    assert(s[0] == dec_of(v[0] as u64)[0]);
    lemma_ws_noop(s);
    if v.len() == 1 {
        assert(tail2 =~= seq![93u8] + tail);
        assert(tail2[0] == 93);
    } else {
        assert(tail2 =~= seq![44u8] + (dec_of(v.drop_first()[0] as u64) + ser_items_rest_of(
            v.drop_first().drop_first(),
        ) + tail));
        assert(tail2[0] == 44);
    }
    lemma_u64_token_round_trip(v[0] as u64, tail2);
    lemma_ws_noop(tail2);
    if v.len() == 1 {
        assert(tail2.drop_first() =~= tail);
        assert(acc.push(v[0]) =~= acc + v);
    } else {
        let v1 = v.drop_first();
        assert(tail2.drop_first() =~= dec_of(v1[0] as u64) + ser_items_rest_of(v1.drop_first())
            + tail);
        lemma_byte_items_round_trip(v1, acc.push(v[0]), tail);
        assert(acc.push(v[0]) + v1 =~= acc + v);
    }
}

/// Parsing inverts serializing for byte arrays.
pub proof fn lemma_byte_array_round_trip(v: Seq<u8>, tail: Seq<u8>)
    requires
        tail.len() == 0 || !(is_digit_byte(tail[0]) || is_ws_byte(tail[0])),
    ensures
        spec_byte_array(ser_bytes_of(v) + tail) == Some((v, tail)),
{
    let s = ser_bytes_of(v) + tail;
    assert(s[0] == 91);
    if v.len() == 0 {
        assert(s.drop_first() =~= seq![93u8] + tail);
        lemma_ws_noop(s.drop_first());
        assert(s.drop_first()[0] == 93);
        assert(s.drop_first().drop_first() =~= tail);
        assert(spec_byte_array(s) == Some((Seq::<u8>::empty(), tail)));
    } else {
        assert(s.drop_first() =~= dec_of(v[0] as u64) + ser_items_rest_of(v.drop_first())
            + tail);
        lemma_dec_of_digits(v[0] as u64);
        assert(s.drop_first()[0] == dec_of(v[0] as u64)[0]);
        lemma_ws_noop(s.drop_first());
        lemma_byte_items_round_trip(v, Seq::<u8>::empty(), tail);
        assert(Seq::<u8>::empty() + v =~= v);
    }
}

/// Skip a JSON number leniently: optional sign, digits, optional
/// fraction, optional exponent. Yields the rest, or nothing when no
/// digit follows the sign or the exponent is empty.
pub open spec fn spec_skip_number(s: Seq<u8>) -> Option<Seq<u8>> {
    let s1 = if s.len() > 0 && s[0] == 45 {
        s.drop_first()
    } else {
        s
    };
    let n1 = digit_run_len(s1);
    if n1 == 0 {
        None
    } else {
        let s2 = suffix_of(s1, n1);
        let s3 = if s2.len() >= 2 && s2[0] == 46 && is_digit_byte(s2[1]) {
            suffix_of(s2, 1 + digit_run_len(s2.drop_first()))
        } else {
            s2
        };
        if s3.len() > 0 && (s3[0] == 101 || s3[0] == 69) {
            let s4 = s3.drop_first();
            let s5 = if s4.len() > 0 && (s4[0] == 43 || s4[0] == 45) {
                s4.drop_first()
            } else {
                s4
            };
            let n2 = digit_run_len(s5);
            if n2 == 0 {
                None
            } else {
                Some(suffix_of(s5, n2))
            }
        } else {
            Some(s3)
        }
    }
}

/// Skip any JSON value, leniently: strings, numbers, literals, arrays,
/// objects. Yields the rest after the value.
pub open spec fn spec_skip_value(s: Seq<u8>) -> Option<Seq<u8>>
    decreases s.len(), 0int,
{
    let t = spec_ws(s);
    if t.len() == 0 {
        None
    } else if t[0] == 34 {
        match spec_string(t) {
            Some((b, rest)) => Some(rest),
            None => None,
        }
    } else if t[0] == 45 || is_digit_byte(t[0]) {
        spec_skip_number(t)
    } else if t[0] == 116 {
        if t.len() >= 4 && t[1] == 114 && t[2] == 117 && t[3] == 101 {
            Some(t.skip(4))
        } else {
            None
        }
    } else if t[0] == 102 {
        if t.len() >= 5 && t[1] == 97 && t[2] == 108 && t[3] == 115 && t[4] == 101 {
            Some(t.skip(5))
        } else {
            None
        }
    } else if t[0] == 110 {
        if t.len() >= 4 && t[1] == 117 && t[2] == 108 && t[3] == 108 {
            Some(t.skip(4))
        } else {
            None
        }
    } else if t[0] == 91 {
        if t.skip(1).len() < s.len() {
            spec_skip_array(t.skip(1))
        } else {
            None
        }
    } else if t[0] == 123 {
        if t.skip(1).len() < s.len() {
            spec_skip_object(t.skip(1))
        } else {
            None
        }
    } else {
        None
    }
}

/// Skip the items of a JSON array after the opening bracket.
pub open spec fn spec_skip_array(s: Seq<u8>) -> Option<Seq<u8>>
    decreases s.len(), 1int,
{
    let t = spec_ws(s);
    if t.len() > 0 && t[0] == 93 {
        Some(t.drop_first())
    } else {
        match spec_skip_value(s) {
            Some(rest) => {
                let t2 = spec_ws(rest);
                if t2.len() > 0 && t2[0] == 44 {
                    if t2.drop_first().len() < s.len() {
                        spec_skip_array(t2.drop_first())
                    } else {
                        None
                    }
                } else if t2.len() > 0 && t2[0] == 93 {
                    Some(t2.drop_first())
                } else {
                    None
                }
            },
            None => None,
        }
    }
}

/// Skip the members of a JSON object after the opening brace.
pub open spec fn spec_skip_object(s: Seq<u8>) -> Option<Seq<u8>>
    decreases s.len(), 1int,
{
    let t = spec_ws(s);
    if t.len() > 0 && t[0] == 125 {
        Some(t.drop_first())
    } else {
        match spec_string(t) {
            Some((key, rest)) => {
                let t2 = spec_ws(rest);
                if t2.len() > 0 && t2[0] == 58 {
                    if t2.drop_first().len() < s.len() {
                        match spec_skip_value(t2.drop_first()) {
                            Some(rest2) => {
                                let t3 = spec_ws(rest2);
                                if t3.len() > 0 && t3[0] == 44 {
                                    if t3.drop_first().len() < s.len() {
                                        spec_skip_object(t3.drop_first())
                                    } else {
                                        None
                                    }
                                } else if t3.len() > 0 && t3[0] == 125 {
                                    Some(t3.drop_first())
                                } else {
                                    None
                                }
                            },
                            None => None,
                        }
                    } else {
                        None
                    }
                } else {
                    None
                }
            },
            None => None,
        }
    }
}

/// Advance past the leading run of decimal digits.
fn scan_digits(s: &Vec<u8>, i: usize) -> (r: usize)
    requires
        i <= s@.len(),
    ensures
        i <= r <= s@.len(),
        r - i == digit_run_len(suffix_of(s@, i as int)),
        suffix_of(s@, r as int) == suffix_of(suffix_of(s@, i as int), digit_run_len(
            suffix_of(s@, i as int),
        )),
{
    let ghost t = suffix_of(s@, i as int);
    let mut j: usize = i;
    while j < s.len() && s[j] >= 48 && s[j] <= 57
        invariant
            i <= j <= s@.len(),
            t == suffix_of(s@, i as int),
            forall|k: int| 0 <= k < j - i ==> is_digit_byte(#[trigger] t[k]),
            forall|k: int| 0 <= k < t.len() ==> t[k] == s@[i + k],
        decreases s@.len() - j,
    {
        j = j + 1;
    }
    proof {
        if (j as int) < s@.len() {
            assert(t[j - i] == s@[j as int]);
        }
        lemma_digit_run_len_exact(t, j - i);
        assert(suffix_of(s@, j as int) =~= suffix_of(t, j - i));
    }
    j
}

/// Skip a JSON number token.
#[verifier::rlimit(100)]
fn skip_number(s: &Vec<u8>, i: usize) -> (r: Option<usize>)
    requires
        i <= s@.len(),
    ensures
        r is None ==> spec_skip_number(suffix_of(s@, i as int)) is None,
        r is Some ==> i <= r->Some_0 <= s@.len(),
        r is Some ==> spec_skip_number(suffix_of(s@, i as int)) == Some(
            suffix_of(s@, r->Some_0 as int),
        ),
{
    let ghost t = suffix_of(s@, i as int);
    proof {
        assert(forall|k: int| 0 <= k < t.len() ==> t[k] == s@[i + k]);
    }
    let mut j: usize = i;
    if j < s.len() && s[j] == 45 {
        proof {
            assert(t.drop_first() =~= suffix_of(s@, i + 1));
        }
        j = j + 1;
    }
    let j1 = scan_digits(s, j);
    if j1 == j {
        return None;
    }
    let mut j2 = j1;
    if s.len() - j1 >= 2 && s[j1] == 46 && s[j1 + 1] >= 48 && s[j1 + 1] <= 57 {
        proof {
            let s2 = suffix_of(s@, j1 as int);
            assert(s2[0] == s@[j1 as int]);
            assert(s2[1] == s@[j1 + 1]);
            assert(s2.drop_first() =~= suffix_of(s@, j1 + 1));
        }
        let j3 = scan_digits(s, j1 + 1);
        proof {
            let s2 = suffix_of(s@, j1 as int);
            assert(suffix_of(s2, 1 + digit_run_len(s2.drop_first())) =~= suffix_of(
                s@,
                j3 as int,
            ));
        }
        j2 = j3;
    } else {
        proof {
            let s2 = suffix_of(s@, j1 as int);
            if s2.len() >= 2 {
                assert(s2[0] == s@[j1 as int]);
                assert(s2[1] == s@[j1 + 1]);
            }
        }
    }
    if j2 < s.len() && (s[j2] == 101 || s[j2] == 69) {
        proof {
            let s3 = suffix_of(s@, j2 as int);
            assert(s3[0] == s@[j2 as int]);
            assert(s3.drop_first() =~= suffix_of(s@, j2 + 1));
        }
        let mut j4: usize = j2 + 1;
        if j4 < s.len() && (s[j4] == 43 || s[j4] == 45) {
            proof {
                let s4 = suffix_of(s@, j2 + 1);
                assert(s4[0] == s@[j2 + 1]);
                assert(s4.drop_first() =~= suffix_of(s@, j2 + 2));
            }
            j4 = j4 + 1;
        } else {
            proof {
                let s4 = suffix_of(s@, j2 + 1);
                if s4.len() > 0 {
                    assert(s4[0] == s@[j2 + 1]);
                }
            }
        }
        let j5 = scan_digits(s, j4);
        if j5 == j4 {
            return None;
        }
        proof {
            assert(suffix_of(suffix_of(s@, j4 as int), digit_run_len(suffix_of(s@, j4 as int)))
                =~= suffix_of(s@, j5 as int));
        }
        Some(j5)
    } else {
        proof {
            let s3 = suffix_of(s@, j2 as int);
            if s3.len() > 0 {
                assert(s3[0] == s@[j2 as int]);
            }
        }
        Some(j2)
    }
}

/// Skip any JSON value.
#[verifier::rlimit(100)]
pub fn skip_value(s: &Vec<u8>, i: usize) -> (r: Option<usize>)
    requires
        i <= s@.len(),
    ensures
        r is None ==> spec_skip_value(suffix_of(s@, i as int)) is None,
        r is Some ==> i <= r->Some_0 <= s@.len(),
        r is Some ==> spec_skip_value(suffix_of(s@, i as int)) == Some(
            suffix_of(s@, r->Some_0 as int),
        ),
    decreases s@.len() - i, 0int,
{
    let ghost t0 = suffix_of(s@, i as int);
    let j = skip_ws(s, i);
    let ghost t = suffix_of(s@, j as int);
    if j >= s.len() {
        return None;
    }
    proof {
        assert(forall|k: int| 0 <= k < t.len() ==> t[k] == s@[j + k]);
    }
    let b = s[j];
    if b == 34 {
        match parse_string_token(s, j) {
            Some((v, j2)) => Some(j2),
            None => None,
        }
    } else if b == 45 || (48 <= b && b <= 57) {
        skip_number(s, j)
    } else if b == 116 {
        if s.len() - j >= 4 && s[j + 1] == 114 && s[j + 2] == 117 && s[j + 3] == 101 {
            proof {
                assert(t.skip(4) =~= suffix_of(s@, j + 4));
            }
            Some(j + 4)
        } else {
            None
        }
    } else if b == 102 {
        if s.len() - j >= 5 && s[j + 1] == 97 && s[j + 2] == 108 && s[j + 3] == 115 && s[j + 4]
            == 101 {
            proof {
                assert(t.skip(5) =~= suffix_of(s@, j + 5));
            }
            Some(j + 5)
        } else {
            None
        }
    } else if b == 110 {
        if s.len() - j >= 4 && s[j + 1] == 117 && s[j + 2] == 108 && s[j + 3] == 108 {
            proof {
                assert(t.skip(4) =~= suffix_of(s@, j + 4));
            }
            Some(j + 4)
        } else {
            None
        }
    } else if b == 91 {
        proof {
            assert(t.skip(1) =~= suffix_of(s@, j + 1));
        }
        skip_array_items(s, j + 1)
    } else if b == 123 {
        proof {
            assert(t.skip(1) =~= suffix_of(s@, j + 1));
        }
        skip_object_members(s, j + 1)
    } else {
        None
    }
}

/// Skip the items of a JSON array after the opening bracket.
fn skip_array_items(s: &Vec<u8>, i: usize) -> (r: Option<usize>)
    requires
        i <= s@.len(),
    ensures
        r is None ==> spec_skip_array(suffix_of(s@, i as int)) is None,
        r is Some ==> i <= r->Some_0 <= s@.len(),
        r is Some ==> spec_skip_array(suffix_of(s@, i as int)) == Some(
            suffix_of(s@, r->Some_0 as int),
        ),
    decreases s@.len() - i, 1int,
{
    let mut j: usize = i;
    loop
        invariant
            i <= j <= s@.len(),
            spec_skip_array(suffix_of(s@, i as int)) == spec_skip_array(suffix_of(s@, j as int)),
        decreases s@.len() - j, 1int,
    {
        let k = skip_ws(s, j);
        proof {
            if (k as int) < s@.len() {
                assert(suffix_of(s@, k as int)[0] == s@[k as int]);
            }
        }
        if k < s.len() && s[k] == 93 {
            proof {
                assert(suffix_of(s@, k as int).drop_first() =~= suffix_of(s@, k + 1));
            }
            return Some(k + 1);
        }
        let k2 = match skip_value(s, j) {
            Some(k2) => k2,
            None => {
                return None;
            },
        };
        let k3 = skip_ws(s, k2);
        if k3 >= s.len() {
            return None;
        }
        proof {
            assert(suffix_of(s@, k3 as int)[0] == s@[k3 as int]);
        }
        if s[k3] == 44 {
            proof {
                assert(suffix_of(s@, k3 as int).drop_first() =~= suffix_of(s@, k3 + 1));
            }
            if k3 + 1 <= j {
                return None;
            }
            j = k3 + 1;
        } else if s[k3] == 93 {
            proof {
                assert(suffix_of(s@, k3 as int).drop_first() =~= suffix_of(s@, k3 + 1));
            }
            return Some(k3 + 1);
        } else {
            return None;
        }
    }
}

/// Skip the members of a JSON object after the opening brace.
#[verifier::rlimit(100)]
fn skip_object_members(s: &Vec<u8>, i: usize) -> (r: Option<usize>)
    requires
        i <= s@.len(),
    ensures
        r is None ==> spec_skip_object(suffix_of(s@, i as int)) is None,
        r is Some ==> i <= r->Some_0 <= s@.len(),
        r is Some ==> spec_skip_object(suffix_of(s@, i as int)) == Some(
            suffix_of(s@, r->Some_0 as int),
        ),
    decreases s@.len() - i, 1int,
{
    let mut j: usize = i;
    loop
        invariant
            i <= j <= s@.len(),
            spec_skip_object(suffix_of(s@, i as int)) == spec_skip_object(
                suffix_of(s@, j as int),
            ),
        decreases s@.len() - j, 1int,
    {
        let k = skip_ws(s, j);
        proof {
            if (k as int) < s@.len() {
                assert(suffix_of(s@, k as int)[0] == s@[k as int]);
            }
        }
        if k < s.len() && s[k] == 125 {
            proof {
                assert(suffix_of(s@, k as int).drop_first() =~= suffix_of(s@, k + 1));
            }
            return Some(k + 1);
        }
        let (key, k2) = match parse_string_token(s, k) {
            Some(p) => p,
            None => {
                return None;
            },
        };
        let k3 = skip_ws(s, k2);
        if k3 >= s.len() {
            return None;
        }
        proof {
            assert(suffix_of(s@, k3 as int)[0] == s@[k3 as int]);
        }
        if s[k3] != 58 {
            return None;
        }
        proof {
            assert(suffix_of(s@, k3 as int).drop_first() =~= suffix_of(s@, k3 + 1));
        }
        let k4 = match skip_value(s, k3 + 1) {
            Some(k4) => k4,
            None => {
                return None;
            },
        };
        let k5 = skip_ws(s, k4);
        if k5 >= s.len() {
            return None;
        }
        proof {
            assert(suffix_of(s@, k5 as int)[0] == s@[k5 as int]);
        }
        if s[k5] == 44 {
            proof {
                assert(suffix_of(s@, k5 as int).drop_first() =~= suffix_of(s@, k5 + 1));
            }
            if k5 + 1 <= j {
                return None;
            }
            j = k5 + 1;
        } else if s[k5] == 125 {
            proof {
                assert(suffix_of(s@, k5 as int).drop_first() =~= suffix_of(s@, k5 + 1));
            }
            return Some(k5 + 1);
        } else {
            return None;
        }
    }
}

/// Render an unsigned 64-bit integer in decimal.
pub fn u64_to_dec(t: u64) -> (r: Vec<u8>)
    ensures
        r@ == dec_of(t),
    decreases t,
{
    if t < 10 {
        let mut out: Vec<u8> = Vec::new();
        out.push(48 + (t as u8));
        proof {
            assert(out@ =~= dec_of(t));
        }
        out
    } else {
        let mut out = u64_to_dec(t / 10);
        out.push(48 + ((t % 10) as u8));
        out
    }
}

} // verus!
