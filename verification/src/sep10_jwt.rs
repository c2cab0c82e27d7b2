//! Minimal SEP-10 JWT verification (JWS compact serialisation, Ed25519 / `EdDSA`).
//!
//! A token is accepted when it is `header.payload.signature` in base64url, the header
//! names `EdDSA`, the signature verifies under one of the issuer's 32-byte Ed25519 keys,
//! and the payload carries an integer `exp` not yet passed (with the clock skew allowed)
//! and a string `sub` (equal to the expected subject, when one is given).

use vstd::prelude::*;

use crate::crypto::{
    decode_verifying_key, ed25519_point_decodes, ed25519_signature_verifies,
    signature_from_bytes, verify_signature,
};
use crate::text::{has_subrange, occurs_at};

verus! {

/// Maximum JWT length in bytes accepted (a defensive bound).
pub const MAX_JWT_LEN: u32 = 2048;

/// Maximum number of verifying keys kept per issuer (to allow key rotation).
pub const MAX_VERIFYING_KEYS: u32 = 3;

/// ASCII bytes of the token syntax: `=`, `.`, `"`, `\`, `0` and `9`.
pub const EQUALS: u8 = 61;
pub const DOT: u8 = 46;
pub const QUOTE: u8 = 34;
pub const BACKSLASH: u8 = 92;
pub const DIGIT_ZERO: u8 = 48;
pub const DIGIT_NINE: u8 = 57;

// ── Base64url ────────────────────────────────────────────────────────────────

/// The 6-bit value of a base64url character.
pub open spec fn base64url_value(c: u8) -> Option<u8> {
    if 65 <= c <= 90 {
        Some((c - 65) as u8)
    } else if 97 <= c <= 122 {
        Some((c - 97 + 26) as u8)
    } else if 48 <= c <= 57 {
        Some((c - 48 + 52) as u8)
    } else if c == 45 {
        Some(62u8)
    } else if c == 95 {
        Some(63u8)
    } else {
        None
    }
}

/// `s` without its trailing `=` characters.
pub open spec fn trim_padding(s: Seq<u8>) -> Seq<u8>
    decreases s.len(),
{
    if s.len() > 0 && s.last() == EQUALS {
        trim_padding(s.drop_last())
    } else {
        s
    }
}

/// Byte `k` of the bit stream formed by the 6-bit values `v`: every four values give
/// three bytes.
pub open spec fn sextet_byte(v: Seq<u8>, k: int) -> u8 {
    let g = k / 3;
    if k % 3 == 0 {
        (v[4 * g] as int * 4 + v[4 * g + 1] as int / 16) as u8
    } else if k % 3 == 1 {
        ((v[4 * g + 1] as int % 16) * 16 + v[4 * g + 2] as int / 4) as u8
    } else {
        ((v[4 * g + 2] as int % 4) * 64 + v[4 * g + 3] as int) as u8
    }
}

/// The whole bytes carried by the 6-bit values `v` (leftover bits are dropped).
pub open spec fn decode_sextets(v: Seq<u8>) -> Seq<u8> {
    Seq::new(((6 * v.len()) / 8) as nat, |k: int| sextet_byte(v, k))
}

pub open spec fn all_base64url(s: Seq<u8>) -> bool {
    forall|i: int| 0 <= i < s.len() ==> (#[trigger] base64url_value(s[i])) is Some
}

pub open spec fn sextets_of(s: Seq<u8>) -> Seq<u8> {
    Seq::new(s.len(), |i: int| base64url_value(s[i])->0)
}

/// Base64url decoding of `input` with any trailing padding ignored; `None` when a
/// character outside the base64url alphabet remains.
pub open spec fn base64url_decoded(input: Seq<u8>) -> Option<Seq<u8>> {
    let t = trim_padding(input);
    if all_base64url(t) {
        Some(decode_sextets(sextets_of(t)))
    } else {
        None
    }
}

fn decode_base64url_char(c: u8) -> (r: Option<u8>)
    ensures
        r == base64url_value(c),
{
    // 'A'..='Z', 'a'..='z', '0'..='9', '-', '_'
    if c >= 65u8 && c <= 90u8 {
        Some(c - 65u8)
    } else if c >= 97u8 && c <= 122u8 {
        Some(c - 97u8 + 26)
    } else if c >= 48u8 && c <= 57u8 {
        Some(c - 48u8 + 52)
    } else if c == 45u8 {
        Some(62)
    } else if c == 95u8 {
        Some(63)
    } else {
        None
    }
}

proof fn lemma_trim_padding_take(s: Seq<u8>, end: int)
    requires
        0 < end <= s.len(),
        s[end - 1] == EQUALS,
    ensures
        trim_padding(s.take(end)) == trim_padding(s.take(end - 1)),
{
    assert(s.take(end).drop_last() =~= s.take(end - 1));
}

proof fn lemma_bits_first(b: u32, val: u32)
    by (bit_vector)
    requires
        val < 64,
    ensures
        ((b << 6) | val) & 63 == val,
{
}

proof fn lemma_bits_second(b: u32, val: u32)
    by (bit_vector)
    requires
        val < 64,
    ensures
        (((b << 6) | val) >> 4) & 0xff == (b & 63) * 4 + val / 16,
        ((b << 6) | val) & 15 == val % 16,
{
}

proof fn lemma_bits_third(b: u32, val: u32)
    by (bit_vector)
    requires
        val < 64,
    ensures
        (((b << 6) | val) >> 2) & 0xff == (b & 15) * 16 + val / 4,
        ((b << 6) | val) & 3 == val % 4,
{
}

proof fn lemma_bits_fourth(b: u32, val: u32)
    by (bit_vector)
    requires
        val < 64,
    ensures
        (((b << 6) | val) >> 0) & 0xff == (b & 3) * 64 + val,
{
}

/// Base64url decoding; padded, unpadded and over-padded input are all accepted.
///
/// Trailing `=` characters are stripped before decoding, as most JWT libraries omit
/// padding (RFC 7515 §2). Any other character outside the alphabet is an error.
pub fn base64url_decode(input: &[u8]) -> (r: Result<Vec<u8>, ()>)
    ensures
        match base64url_decoded(input@) {
            Some(out) => r matches Ok(v) && v@ == out,
            None => r is Err,
        },
{
    let mut end = input.len();
    assert(input@.take(input@.len() as int) =~= input@);
    while end > 0 && input[end - 1] == EQUALS
        invariant
            end <= input@.len(),
            trim_padding(input@) == trim_padding(input@.take(end as int)),
        decreases end,
    {
        proof {
            lemma_trim_padding_take(input@, end as int);
        }
        end = end - 1;
    }
    let ghost t = input@.take(end as int);
    assert(input@.take(input@.len() as int) =~= input@);
    assert(trim_padding(t) == t);
    let ghost v = sextets_of(t);
    let mut out: Vec<u8> = Vec::new();
    let mut buffer: u32 = 0;
    let mut bits: u32 = 0;
    let mut i: usize = 0;
    while i < end
        invariant
            end <= input@.len(),
            t == input@.take(end as int),
            v == sextets_of(t),
            trim_padding(input@) == t,
            i <= end,
            forall|k: int| 0 <= k < i ==> (#[trigger] base64url_value(t[k])) is Some,
            bits == (6 * i) % 8,
            out@ =~= Seq::new(((6 * i) / 8) as nat, |k: int| sextet_byte(v, k)),
            i % 4 == 1 ==> buffer & 63 == v[i - 1] as u32,
            i % 4 == 2 ==> buffer & 15 == (v[i - 1] % 16) as u32,
            i % 4 == 3 ==> buffer & 3 == (v[i - 1] % 4) as u32,
        decreases end - i,
    {
        let val = match decode_base64url_char(input[i]) {
            Some(x) => x,
            None => {
                assert(!all_base64url(t)) by {
                    assert(t[i as int] == input@[i as int]);
                }
                return Err(());
            },
        };
        assert(t[i as int] == input@[i as int]);
        assert(v[i as int] == val);
        let old_buffer = buffer;
        let ghost old_out = out@;
        let w: u32 = val as u32;
        buffer = (buffer << 6) | w;
        bits = bits + 6;
        if bits >= 8 {
            bits = bits - 8;
            let byte = ((buffer >> bits) & 0xff) as u8;
            proof {
                let k = (6 * i) / 8;
                let g = k / 3;
                if i % 4 == 1 {
                    lemma_bits_second(old_buffer, w);
                    assert(k == 3 * (i / 4) && g == i / 4 && k % 3 == 0);
                    assert(4 * g + 1 == i);
                } else if i % 4 == 2 {
                    lemma_bits_third(old_buffer, w);
                    assert(k == 3 * (i / 4) + 1 && g == i / 4 && k % 3 == 1);
                    assert(4 * g + 2 == i);
                } else {
                    lemma_bits_fourth(old_buffer, w);
                    assert(i % 4 == 3);
                    assert(k == 3 * (i / 4) + 2 && g == i / 4 && k % 3 == 2);
                    assert(4 * g + 3 == i);
                }
                assert(byte == sextet_byte(v, k));
            }
            out.push(byte);
        }
        proof {
            if i % 4 == 0 {
                lemma_bits_first(old_buffer, w);
            } else if i % 4 == 1 {
                lemma_bits_second(old_buffer, w);
            } else if i % 4 == 2 {
                lemma_bits_third(old_buffer, w);
            }
        }
        i = i + 1;
    }
    assert(all_base64url(t));
    Ok(out)
}

// ── Searching bytes ──────────────────────────────────────────────────────────

/// The first position at or after `i` where `needle` occurs in `haystack`.
pub open spec fn first_occurrence_from(haystack: Seq<u8>, needle: Seq<u8>, i: int) -> Option<int>
    decreases haystack.len() + 1 - i,
{
    if i < 0 || i + needle.len() > haystack.len() {
        None
    } else if haystack.subrange(i, i + needle.len()) =~= needle {
        Some(i)
    } else {
        first_occurrence_from(haystack, needle, i + 1)
    }
}

/// The first position where `needle` occurs in `haystack`.
pub open spec fn first_occurrence(haystack: Seq<u8>, needle: Seq<u8>) -> Option<int> {
    first_occurrence_from(haystack, needle, 0)
}

proof fn lemma_first_occurrence_from(haystack: Seq<u8>, needle: Seq<u8>, i: int)
    requires
        0 <= i,
    ensures
        first_occurrence_from(haystack, needle, i) matches Some(p) ==> i <= p && occurs_at(
            haystack,
            needle,
            p,
        ) && forall|q: int| i <= q < p ==> !occurs_at(haystack, needle, q),
        first_occurrence_from(haystack, needle, i) is None ==> forall|q: int|
            i <= q ==> !occurs_at(haystack, needle, q),
    decreases haystack.len() + 1 - i,
{
    if i + needle.len() <= haystack.len() && haystack.subrange(i, i + needle.len()) != needle {
        lemma_first_occurrence_from(haystack, needle, i + 1);
    }
}

/// The first position where `needle` occurs in `haystack`, or `None`.
/// An empty needle occurs at position 0.
pub fn find_bytes(haystack: &[u8], needle: &[u8]) -> (r: Option<usize>)
    ensures
        r matches Some(p) ==> first_occurrence(haystack@, needle@) == Some(p as int),
        r is None ==> first_occurrence(haystack@, needle@) is None,
{
    let n = haystack.len();
    let m = needle.len();
    if m == 0 {
        assert(haystack@.subrange(0, 0) =~= needle@);
        return Some(0);
    }
    if m > n {
        return None;
    }
    let mut i: usize = 0;
    while i <= n - m
        invariant
            n == haystack@.len(),
            m == needle@.len(),
            0 < m <= n,
            i <= n - m + 1,
            first_occurrence(haystack@, needle@) == first_occurrence_from(haystack@, needle@, i as int),
        decreases n - m + 1 - i,
    {
        let mut j: usize = 0;
        let mut same = true;
        while j < m
            invariant
                n == haystack@.len(),
                m == needle@.len(),
                i + m <= n,
                j <= m,
                same == (forall|k: int| 0 <= k < j ==> haystack@[i + k] == needle@[k]),
            decreases m - j,
        {
            if haystack[i + j] != needle[j] {
                same = false;
            }
            j = j + 1;
        }
        if same {
            assert(haystack@.subrange(i as int, i + m) =~= needle@);
            return Some(i);
        }
        assert(haystack@.subrange(i as int, i + m) != needle@) by {
            let k = choose|k: int| 0 <= k < m && haystack@[i + k] != needle@[k];
            assert(haystack@.subrange(i as int, i + m)[k] == haystack@[i + k]);
        }
        i = i + 1;
    }
    None
}

/// Whether `needle` (which must not be empty) occurs in `haystack`.
pub fn contains_subslice(haystack: &[u8], needle: &[u8]) -> (r: bool)
    requires
        needle@.len() > 0,
    ensures
        r == has_subrange(haystack@, needle@),
{
    let found = find_bytes(haystack, needle);
    proof {
        lemma_first_occurrence_from(haystack@, needle@, 0);
        if found is None {
            assert forall|q: int|
                0 <= q && q + needle@.len() <= haystack@.len() implies #[trigger] haystack@.subrange(
                q,
                q + needle@.len(),
            ) != needle@ by {
                assert(!occurs_at(haystack@, needle@, q));
            }
        }
    }
    found.is_some()
}

// ── JSON claims ──────────────────────────────────────────────────────────────

/// `"exp":`
pub open spec fn exp_key() -> Seq<u8> {
    seq![34u8, 101u8, 120u8, 112u8, 34u8, 58u8]
}

/// `"sub":`
pub open spec fn sub_key() -> Seq<u8> {
    seq![34u8, 115u8, 117u8, 98u8, 34u8, 58u8]
}

/// `EdDSA`
pub open spec fn eddsa_name() -> Seq<u8> {
    seq![69u8, 100u8, 68u8, 83u8, 65u8]
}

/// ASCII whitespace: space, tab, line feed, form feed and carriage return.
pub open spec fn is_ascii_whitespace_byte(b: u8) -> bool {
    b == 32 || b == 9 || b == 10 || b == 12 || b == 13
}

pub open spec fn is_ascii_digit_byte(b: u8) -> bool {
    48 <= b <= 57
}

/// The first position at or after `i` that is not ASCII whitespace.
pub open spec fn skip_whitespace(s: Seq<u8>, i: int) -> int
    decreases s.len() - i,
{
    if 0 <= i < s.len() && is_ascii_whitespace_byte(s[i]) {
        skip_whitespace(s, i + 1)
    } else {
        i
    }
}

/// The end of the run of ASCII digits starting at `i`.
pub open spec fn digits_end(s: Seq<u8>, i: int) -> int
    decreases s.len() - i,
{
    if 0 <= i < s.len() && is_ascii_digit_byte(s[i]) {
        digits_end(s, i + 1)
    } else {
        i
    }
}

/// The number written in decimal by a run of ASCII digits.
pub open spec fn decimal_of(s: Seq<u8>) -> nat
    decreases s.len(),
{
    if s.len() == 0 {
        0
    } else {
        decimal_of(s.drop_last()) * 10 + (s.last() - 48) as nat
    }
}

/// The integer value of the first `"exp":` claim: ASCII whitespace may follow the colon,
/// then at least one digit; `None` when absent, malformed or above `u64::MAX`.
pub open spec fn json_exp(payload: Seq<u8>) -> Option<u64> {
    match first_occurrence(payload, exp_key()) {
        None => None,
        Some(p) => {
            let i = skip_whitespace(payload, p + 6);
            let j = digits_end(payload, i);
            if j == i {
                None
            } else if decimal_of(payload.subrange(i, j)) > u64::MAX {
                None
            } else {
                Some(decimal_of(payload.subrange(i, j)) as u64)
            }
        },
    }
}

/// The position of the closing quote of a JSON string whose body starts at `i`; a
/// backslash makes the next byte part of the body.
pub open spec fn string_close(s: Seq<u8>, i: int) -> Option<int>
    decreases s.len() - i,
{
    if i < 0 || i >= s.len() {
        None
    } else if s[i] == BACKSLASH {
        if i + 1 >= s.len() {
            None
        } else {
            string_close(s, i + 2)
        }
    } else if s[i] == QUOTE {
        Some(i)
    } else {
        string_close(s, i + 1)
    }
}

/// The raw body (escapes kept as written) of the first `"sub":` string claim.
pub open spec fn json_sub(payload: Seq<u8>) -> Option<Seq<u8>> {
    match first_occurrence(payload, sub_key()) {
        None => None,
        Some(p) => {
            let i = skip_whitespace(payload, p + 6);
            if i >= payload.len() || payload[i] != QUOTE {
                None
            } else {
                match string_close(payload, i + 1) {
                    Some(e) => Some(payload.subrange(i + 1, e)),
                    None => None,
                }
            }
        },
    }
}

fn skip_ascii_whitespace(s: &[u8], start: usize) -> (i: usize)
    requires
        start <= s@.len(),
    ensures
        i == skip_whitespace(s@, start as int),
        start <= i <= s@.len(),
{
    let mut i = start;
    // space, tab, line feed, form feed, carriage return
    while i < s.len() && (s[i] == 32u8 || s[i] == 9u8 || s[i] == 10u8 || s[i] == 12u8 || s[i]
        == 13u8)
        invariant
            start <= i <= s@.len(),
            skip_whitespace(s@, start as int) == skip_whitespace(s@, i as int),
        decreases s@.len() - i,
    {
        i = i + 1;
    }
    i
}

proof fn lemma_decimal_push(s: Seq<u8>, a: int, i: int)
    requires
        0 <= a <= i < s.len(),
    ensures
        decimal_of(s.subrange(a, i + 1)) == decimal_of(s.subrange(a, i)) * 10 + (s[i] - 48) as nat,
{
    assert(s.subrange(a, i + 1).drop_last() =~= s.subrange(a, i));
}

proof fn lemma_decimal_grows(s: Seq<u8>, a: int, i: int, j: int)
    requires
        0 <= a <= i <= j <= s.len(),
        forall|k: int| a <= k < j ==> is_ascii_digit_byte(#[trigger] s[k]),
    ensures
        decimal_of(s.subrange(a, i)) <= decimal_of(s.subrange(a, j)),
    decreases j - i,
{
    if i < j {
        lemma_decimal_grows(s, a, i, j - 1);
        lemma_decimal_push(s, a, j - 1);
    }
}

proof fn lemma_digits_end(s: Seq<u8>, i: int)
    requires
        0 <= i <= s.len(),
    ensures
        i <= digits_end(s, i) <= s.len(),
        forall|k: int| i <= k < digits_end(s, i) ==> is_ascii_digit_byte(#[trigger] s[k]),
        digits_end(s, i) < s.len() ==> !is_ascii_digit_byte(s[digits_end(s, i)]),
    decreases s.len() - i,
{
    if i < s.len() && is_ascii_digit_byte(s[i]) {
        lemma_digits_end(s, i + 1);
    }
}

/// Parses the first `"exp": <digits>` claim.
pub fn parse_json_exp(payload: &[u8]) -> (r: Result<u64, ()>)
    ensures
        match json_exp(payload@) {
            Some(v) => r == Ok::<u64, ()>(v),
            None => r is Err,
        },
{
    // `"exp":`
    let key: [u8; 6] = [34u8, 101u8, 120u8, 112u8, 34u8, 58u8];
    let key_slice = key.as_slice();
    assert(key_slice@ =~= exp_key());
    let pos = match find_bytes(payload, key_slice) {
        Some(p) => p,
        None => {
            return Err(());
        },
    };
    proof {
        lemma_first_occurrence_from(payload@, exp_key(), 0);
        assert(occurs_at(payload@, exp_key(), pos as int));
        assert(pos + 6 <= payload@.len());
    }
    let plen = payload.len();
    assert(pos + 6 <= plen);
    let start = skip_ascii_whitespace(payload, pos + 6);
    proof {
        lemma_digits_end(payload@, start as int);
    }
    let ghost j = digits_end(payload@, start as int);
    let mut i = start;
    let mut n: u64 = 0;
    while i < payload.len() && payload[i] >= DIGIT_ZERO && payload[i] <= DIGIT_NINE
        invariant
            first_occurrence(payload@, exp_key()) == Some(pos as int),
            start == skip_whitespace(payload@, pos + 6),
            start <= i <= j,
            j == digits_end(payload@, start as int),
            j <= payload@.len(),
            forall|k: int| start <= k < j ==> is_ascii_digit_byte(#[trigger] payload@[k]),
            j < payload@.len() ==> !is_ascii_digit_byte(payload@[j]),
            n == decimal_of(payload@.subrange(start as int, i as int)),
        decreases payload@.len() - i,
    {
        proof {
            lemma_decimal_push(payload@, start as int, i as int);
        }
        let d: u64 = (payload[i] - DIGIT_ZERO) as u64;
        let next = match n.checked_mul(10) {
            Some(x) => x.checked_add(d),
            None => None,
        };
        match next {
            Some(x) => {
                n = x;
            },
            None => {
                proof {
                    assert(i < j);
                    lemma_decimal_grows(payload@, start as int, i + 1, j);
                    assert(decimal_of(payload@.subrange(start as int, i + 1)) > u64::MAX);
                    assert(decimal_of(payload@.subrange(start as int, j)) > u64::MAX);
                    assert(first_occurrence(payload@, exp_key()) == Some(pos as int));
                }
                return Err(());
            },
        }
        i = i + 1;
    }
    if i == start {
        return Err(());
    }
    Ok(n)
}

/// Parses the first `"sub":"..."` string claim and returns its raw body; `\"` and other
/// escapes are kept as written.
pub fn parse_json_sub(payload: &[u8]) -> (r: Result<Vec<u8>, ()>)
    ensures
        match json_sub(payload@) {
            Some(v) => r matches Ok(b) && b@ == v,
            None => r is Err,
        },
{
    // `"sub":`
    let key: [u8; 6] = [34u8, 115u8, 117u8, 98u8, 34u8, 58u8];
    let key_slice = key.as_slice();
    assert(key_slice@ =~= sub_key());
    let pos = match find_bytes(payload, key_slice) {
        Some(p) => p,
        None => {
            return Err(());
        },
    };
    proof {
        lemma_first_occurrence_from(payload@, sub_key(), 0);
        assert(occurs_at(payload@, sub_key(), pos as int));
        assert(pos + 6 <= payload@.len());
    }
    let plen = payload.len();
    assert(pos + 6 <= plen);
    let mut i = skip_ascii_whitespace(payload, pos + 6);
    if i >= payload.len() || payload[i] != QUOTE {
        return Err(());
    }
    i = i + 1;
    let start = i;
    while i < payload.len()
        invariant
            start <= i <= payload@.len() + 1,
            json_sub(payload@) == (match string_close(payload@, i as int) {
                Some(e) => Some(payload@.subrange(start as int, e)),
                None => None,
            }),
        decreases payload@.len() + 1 - i,
    {
        if payload[i] == BACKSLASH {
            // An escape with nothing after it is malformed.
            if i + 1 >= payload.len() {
                return Err(());
            }
            i = i + 2;
            continue;
        }
        if payload[i] == QUOTE {
            let sub = vstd::slice::slice_subrange(payload, start, i);
            return Ok(vstd::slice::slice_to_vec(sub));
        }
        i = i + 1;
    }
    Err(())
}

// ── Token verification ───────────────────────────────────────────────────────

/// The first position at or after `i` holding the byte `c`.
pub open spec fn index_from(s: Seq<u8>, c: u8, i: int) -> Option<int>
    decreases s.len() - i,
{
    if i < 0 || i >= s.len() {
        None
    } else if s[i] == c {
        Some(i)
    } else {
        index_from(s, c, i + 1)
    }
}

/// The positions of the two dots of a token that holds exactly two.
pub open spec fn two_dots(t: Seq<u8>) -> Option<(int, int)> {
    match index_from(t, DOT, 0) {
        None => None,
        Some(d0) => match index_from(t, DOT, d0 + 1) {
            None => None,
            Some(d1) => if index_from(t, DOT, d1 + 1) is None {
                Some((d0, d1))
            } else {
                None
            },
        },
    }
}

/// The signing input, the base64url payload and the base64url signature of a token of
/// the form `header.payload.signature` with three non-empty parts, together with the
/// base64url header.
pub open spec fn jws_parts(t: Seq<u8>) -> Option<(Seq<u8>, Seq<u8>, Seq<u8>, Seq<u8>)> {
    match two_dots(t) {
        Some((d0, d1)) => if d0 != 0 && d1 > d0 + 1 && d1 + 1 < t.len() {
            Some((t.take(d0), t.take(d1), t.subrange(d0 + 1, d1), t.subrange(d1 + 1, t.len() as int)))
        } else {
            None
        },
        None => None,
    }
}

/// One of `keys` is 32 bytes long, decodes to a curve point, and verifies `signature` of
/// `message`.
pub open spec fn some_key_verifies(keys: Seq<Seq<u8>>, message: Seq<u8>, signature: Seq<u8>) -> bool {
    exists|k: int|
        0 <= k < keys.len() && (#[trigger] keys[k]).len() == 32 && ed25519_point_decodes(keys[k])
            && ed25519_signature_verifies(keys[k], message, signature)
}

/// The claims of a decoded payload are acceptable at time `now`: `exp` plus the clock
/// skew (saturating) is still ahead of `now`, and `sub` is present and, when expected,
/// equal to the expected subject.
pub open spec fn claims_accepted(
    payload: Seq<u8>,
    expected_sub: Option<Seq<u8>>,
    clock_skew_seconds: u64,
    now: u64,
) -> bool {
    &&& json_exp(payload) matches Some(exp) && (if exp + clock_skew_seconds > u64::MAX {
        u64::MAX as int
    } else {
        exp + clock_skew_seconds
    }) > now
    &&& json_sub(payload) matches Some(sub) && (expected_sub matches Some(e) ==> sub == e)
}

/// The base64url payload decodes to acceptable claims.
pub open spec fn encoded_claims_accepted(
    payload_b64: Seq<u8>,
    expected_sub: Option<Seq<u8>>,
    clock_skew_seconds: u64,
    now: u64,
) -> bool {
    base64url_decoded(payload_b64) matches Some(p) && claims_accepted(
        p,
        expected_sub,
        clock_skew_seconds,
        now,
    )
}

/// A token is accepted when there is at least one key, it is 1..=2048 bytes of
/// `header.payload.signature`, the decoded header names `EdDSA`, the decoded signature is
/// 64 bytes and verifies under one of the keys, and the payload's claims are accepted.
pub open spec fn sep10_token_accepted(
    token: Seq<u8>,
    keys: Seq<Seq<u8>>,
    expected_sub: Option<Seq<u8>>,
    clock_skew_seconds: u64,
    now: u64,
) -> bool {
    &&& keys.len() > 0
    &&& 0 < token.len() <= 2048
    &&& jws_parts(token) matches Some((header, signing_input, payload_b64, sig_b64)) && {
        &&& base64url_decoded(header) matches Some(h) && has_subrange(h, eddsa_name())
        &&& base64url_decoded(sig_b64) matches Some(sig) && sig.len() == 64 && some_key_verifies(
            keys,
            signing_input,
            sig,
        )
        &&& encoded_claims_accepted(payload_b64, expected_sub, clock_skew_seconds, now)
    }
}

/// The base64url character of a 6-bit value.
pub open spec fn base64url_char(v: u8) -> u8 {
    if v < 26 {
        (65 + v) as u8
    } else if v < 52 {
        (97 + v - 26) as u8
    } else if v < 62 {
        (48 + v - 52) as u8
    } else if v == 62 {
        45u8
    } else {
        95u8
    }
}

/// Byte `i` of `data`, or 0 past its end.
pub open spec fn byte_or_zero(data: Seq<u8>, i: int) -> int {
    if 0 <= i < data.len() {
        data[i] as int
    } else {
        0
    }
}

/// Six-bit value `j` of the bit stream of `data`, padded with zero bits to a whole
/// number of values: every three bytes give four values.
pub open spec fn data_sextet(data: Seq<u8>, j: int) -> u8 {
    let g = j / 4;
    let b0 = byte_or_zero(data, 3 * g);
    let b1 = byte_or_zero(data, 3 * g + 1);
    let b2 = byte_or_zero(data, 3 * g + 2);
    if j % 4 == 0 {
        (b0 / 4) as u8
    } else if j % 4 == 1 {
        ((b0 % 4) * 16 + b1 / 16) as u8
    } else if j % 4 == 2 {
        ((b1 % 16) * 4 + b2 / 64) as u8
    } else {
        (b2 % 64) as u8
    }
}

/// The number of base64url characters that encode `n` bytes without padding.
pub open spec fn encoded_len(n: nat) -> nat {
    if n % 3 == 0 {
        4 * (n / 3)
    } else {
        4 * (n / 3) + n % 3 + 1
    }
}

/// The unpadded base64url encoding of `data` (RFC 4648 §5, alphabet `A-Z a-z 0-9 - _`).
pub open spec fn base64url_encoded(data: Seq<u8>) -> Seq<u8> {
    Seq::new(encoded_len(data.len()), |j: int| base64url_char(data_sextet(data, j)))
}

proof fn lemma_base64url_char(v: u8)
    requires
        v < 64,
    ensures
        base64url_value(base64url_char(v)) == Some(v),
        base64url_char(v) != EQUALS,
{
}

proof fn lemma_decoded_byte(data: Seq<u8>, k: int)
    requires
        0 <= k < data.len(),
    ensures
        sextet_byte(Seq::new(encoded_len(data.len()), |j: int| data_sextet(data, j)), k) == data[k],
{
    let v = Seq::new(encoded_len(data.len()), |j: int| data_sextet(data, j));
    let n = data.len() as int;
    let g = k / 3;
    assert(4 * g + 3 < encoded_len(data.len()) || (k % 3 == 0 && 4 * g + 1 < encoded_len(
        data.len(),
    )) || (k % 3 == 1 && 4 * g + 2 < encoded_len(data.len())));
    let b0 = byte_or_zero(data, 3 * g);
    let b1 = byte_or_zero(data, 3 * g + 1);
    let b2 = byte_or_zero(data, 3 * g + 2);
    assert(0 <= b0 < 256 && 0 <= b1 < 256 && 0 <= b2 < 256);
    if k % 3 == 0 {
        assert(k == 3 * g);
        assert(v[4 * g] == data_sextet(data, 4 * g));
        assert(v[4 * g + 1] == data_sextet(data, 4 * g + 1));
        assert((4 * g) / 4 == g && (4 * g) % 4 == 0);
        assert((4 * g + 1) / 4 == g && (4 * g + 1) % 4 == 1);
        assert((b0 / 4) * 4 + ((b0 % 4) * 16 + b1 / 16) / 16 == b0) by (nonlinear_arith)
            requires
                0 <= b0 < 256,
                0 <= b1 < 256,
        ;
    } else if k % 3 == 1 {
        assert(k == 3 * g + 1);
        assert(v[4 * g + 1] == data_sextet(data, 4 * g + 1));
        assert(v[4 * g + 2] == data_sextet(data, 4 * g + 2));
        assert((4 * g + 1) / 4 == g && (4 * g + 1) % 4 == 1);
        assert((4 * g + 2) / 4 == g && (4 * g + 2) % 4 == 2);
        assert((((b0 % 4) * 16 + b1 / 16) % 16) * 16 + ((b1 % 16) * 4 + b2 / 64) / 4 == b1)
            by (nonlinear_arith)
            requires
                0 <= b0 < 256,
                0 <= b1 < 256,
                0 <= b2 < 256,
        ;
    } else {
        assert(k == 3 * g + 2);
        assert(v[4 * g + 2] == data_sextet(data, 4 * g + 2));
        assert(v[4 * g + 3] == data_sextet(data, 4 * g + 3));
        assert((4 * g + 2) / 4 == g && (4 * g + 2) % 4 == 2);
        assert((4 * g + 3) / 4 == g && (4 * g + 3) % 4 == 3);
        assert((((b1 % 16) * 4 + b2 / 64) % 4) * 64 + b2 % 64 == b2) by (nonlinear_arith)
            requires
                0 <= b1 < 256,
                0 <= b2 < 256,
        ;
    }
}

/// Decoding the base64url encoding of any bytes, with or without `=` padding, gives the
/// bytes back.
pub proof fn law_base64url_round_trip(data: Seq<u8>, padding: nat)
    ensures
        base64url_decoded(base64url_encoded(data)) == Some(data),
        base64url_decoded(base64url_encoded(data) + Seq::new(padding, |i: int| EQUALS)) == Some(
            data,
        ),
{
    let e = base64url_encoded(data);
    let v = Seq::new(encoded_len(data.len()), |j: int| data_sextet(data, j));
    assert forall|j: int| 0 <= j < e.len() implies base64url_value(e[j]) == Some(v[j])
        && e[j] != EQUALS by {
        assert(data_sextet(data, j) < 64);
        lemma_base64url_char(data_sextet(data, j));
    }
    if e.len() > 0 {
        assert(e.last() != EQUALS);
    }
    assert(trim_padding(e) == e);
    assert(all_base64url(e));
    assert(sextets_of(e) =~= v);
    let n = data.len();
    assert((6 * encoded_len(n)) / 8 == n);
    assert forall|k: int| 0 <= k < n implies #[trigger] decode_sextets(v)[k] == data[k] by {
        lemma_decoded_byte(data, k);
    }
    assert(decode_sextets(v) =~= data);
    law_padding_ignored(e, padding);
}

proof fn lemma_trim_padding_suffix(s: Seq<u8>, k: nat)
    ensures
        trim_padding(s + Seq::new(k, |i: int| EQUALS)) == trim_padding(s),
    decreases k,
{
    if k > 0 {
        let longer = s + Seq::new(k, |i: int| EQUALS);
        let shorter = s + Seq::new((k - 1) as nat, |i: int| EQUALS);
        assert(longer.drop_last() =~= shorter);
        lemma_trim_padding_suffix(s, (k - 1) as nat);
    }
}

/// Padding is irrelevant: appending any number of `=` to an input decodes to the same
/// result, so padded, unpadded and over-padded inputs are equivalent.
pub proof fn law_padding_ignored(s: Seq<u8>, k: nat)
    ensures
        base64url_decoded(s + Seq::new(k, |i: int| EQUALS)) == base64url_decoded(s),
{
    lemma_trim_padding_suffix(s, k);
}

/// A token accepted for an expected subject is accepted when no subject is expected:
/// the `sub` claim is required either way, and only compared when one is expected.
pub proof fn law_expected_subject_only_narrows(
    token: Seq<u8>,
    keys: Seq<Seq<u8>>,
    expected: Seq<u8>,
    clock_skew_seconds: u64,
    now: u64,
)
    requires
        sep10_token_accepted(token, keys, Some(expected), clock_skew_seconds, now),
    ensures
        sep10_token_accepted(token, keys, None, clock_skew_seconds, now),
{
}

/// Acceptance is monotone in time and skew: a token accepted at `now` with some clock
/// skew is also accepted at any earlier time and with any larger skew.
pub proof fn law_acceptance_monotone_in_time(
    token: Seq<u8>,
    keys: Seq<Seq<u8>>,
    expected_sub: Option<Seq<u8>>,
    clock_skew_seconds: u64,
    now: u64,
    larger_skew: u64,
    earlier: u64,
)
    requires
        sep10_token_accepted(token, keys, expected_sub, clock_skew_seconds, now),
        clock_skew_seconds <= larger_skew,
        earlier <= now,
    ensures
        sep10_token_accepted(token, keys, expected_sub, larger_skew, earlier),
{
}

/// The expiry window: once a token is accepted at some time with some clock skew, it is
/// accepted at any other time `other_now` with any skew `other_skew` exactly when its
/// `exp` claim plus that skew (saturating at `u64::MAX`) is later than `other_now`.
pub proof fn law_expiry_window(
    token: Seq<u8>,
    keys: Seq<Seq<u8>>,
    expected_sub: Option<Seq<u8>>,
    clock_skew_seconds: u64,
    now: u64,
    other_skew: u64,
    other_now: u64,
)
    requires
        sep10_token_accepted(token, keys, expected_sub, clock_skew_seconds, now),
    ensures
        ({
            let (header, signing_input, payload_b64, sig_b64) = jws_parts(token)->0;
            let payload = base64url_decoded(payload_b64)->0;
            let exp = json_exp(payload)->0;
            sep10_token_accepted(token, keys, expected_sub, other_skew, other_now) <==> (if exp
                + other_skew > u64::MAX {
                u64::MAX as int
            } else {
                exp + other_skew
            }) > other_now
        }),
{
}

/// Acceptance depends on the decoded header only through whether it holds the bytes
/// `EdDSA` somewhere: of two tokens with the same payload segment, each within the size
/// limit, each with a header that decodes to bytes holding `EdDSA` and a signature that
/// decodes to 64 bytes verifying its own signing input under one of the keys, one is
/// accepted exactly when the other is. So the order of the header's JSON members (or
/// any other member) never matters.
pub proof fn law_header_only_needs_eddsa(
    token1: Seq<u8>,
    token2: Seq<u8>,
    keys: Seq<Seq<u8>>,
    expected_sub: Option<Seq<u8>>,
    clock_skew_seconds: u64,
    now: u64,
)
    requires
        0 < token1.len() <= 2048,
        0 < token2.len() <= 2048,
        jws_parts(token1) matches Some((h1, i1, p1, s1)) && jws_parts(token2) matches Some((
            h2,
            i2,
            p2,
            s2,
        )) && {
            &&& p1 == p2
            &&& base64url_decoded(h1) matches Some(d1) && has_subrange(
                d1,
                seq![69u8, 100u8, 68u8, 83u8, 65u8],
            )
            &&& base64url_decoded(h2) matches Some(d2) && has_subrange(
                d2,
                seq![69u8, 100u8, 68u8, 83u8, 65u8],
            )
            &&& base64url_decoded(s1) matches Some(g1) && g1.len() == 64 && some_key_verifies(
                keys,
                i1,
                g1,
            )
            &&& base64url_decoded(s2) matches Some(g2) && g2.len() == 64 && some_key_verifies(
                keys,
                i2,
                g2,
            )
        },
    ensures
        sep10_token_accepted(token1, keys, expected_sub, clock_skew_seconds, now)
            <==> sep10_token_accepted(token2, keys, expected_sub, clock_skew_seconds, now),
{
    assert(eddsa_name() == seq![69u8, 100u8, 68u8, 83u8, 65u8]);
}

/// An accepted token has a header that decodes to bytes holding `EdDSA`, and a signature
/// that decodes to 64 bytes verifying `header.payload` under one of the keys.
pub proof fn law_accepted_token_is_eddsa_signed(
    token: Seq<u8>,
    keys: Seq<Seq<u8>>,
    expected_sub: Option<Seq<u8>>,
    clock_skew_seconds: u64,
    now: u64,
)
    requires
        sep10_token_accepted(token, keys, expected_sub, clock_skew_seconds, now),
    ensures
        jws_parts(token) matches Some((h, i, p, s)) && {
            &&& base64url_decoded(h) matches Some(d) && has_subrange(
                d,
                seq![69u8, 100u8, 68u8, 83u8, 65u8],
            )
            &&& base64url_decoded(s) matches Some(g) && g.len() == 64 && some_key_verifies(keys, i, g)
        },
{
    assert(eddsa_name() == seq![69u8, 100u8, 68u8, 83u8, 65u8]);
}

/// Key rotation: adding verifying keys never turns an accepted token into a rejected one.
pub proof fn law_more_keys_keep_acceptance(
    token: Seq<u8>,
    keys: Seq<Seq<u8>>,
    more: Seq<Seq<u8>>,
    expected_sub: Option<Seq<u8>>,
    clock_skew_seconds: u64,
    now: u64,
)
    requires
        sep10_token_accepted(token, keys, expected_sub, clock_skew_seconds, now),
    ensures
        sep10_token_accepted(token, keys + more, expected_sub, clock_skew_seconds, now),
{
    let (header, signing_input, payload_b64, sig_b64) = jws_parts(token)->0;
    let sig = base64url_decoded(sig_b64)->0;
    let k = choose|k: int|
        0 <= k < keys.len() && (#[trigger] keys[k]).len() == 32 && ed25519_point_decodes(keys[k])
            && ed25519_signature_verifies(keys[k], signing_input, sig);
    assert((keys + more)[k] == keys[k]);
}

/// Checks the claims of a token whose signature has been verified: decodes the base64url
/// payload, then requires `exp` plus `clock_skew_seconds` (saturating) to be after `now`
/// and a string `sub` equal to `expected_sub` when one is given.
pub fn verify_sep10_claims(
    payload_b64: &[u8],
    expected_sub: Option<&[u8]>,
    clock_skew_seconds: u64,
    now: u64,
) -> (r: Result<(), ()>)
    ensures
        r is Ok <==> encoded_claims_accepted(
            payload_b64@,
            match expected_sub {
                Some(e) => Some(e@),
                None => None,
            },
            clock_skew_seconds,
            now,
        ),
{
    let payload = match base64url_decode(payload_b64) {
        Ok(p) => p,
        Err(()) => {
            return Err(());
        },
    };
    let exp = match parse_json_exp(payload.as_slice()) {
        Ok(e) => e,
        Err(()) => {
            return Err(());
        },
    };
    if exp.saturating_add(clock_skew_seconds) <= now {
        return Err(());
    }
    let sub = match parse_json_sub(payload.as_slice()) {
        Ok(s) => s,
        Err(()) => {
            return Err(());
        },
    };
    if let Some(expected) = expected_sub {
        if !bytes_eq(sub.as_slice(), expected) {
            return Err(());
        }
    }
    Ok(())
}

fn bytes_eq(a: &[u8], b: &[u8]) -> (r: bool)
    ensures
        r == (a@ == b@),
{
    if a.len() != b.len() {
        return false;
    }
    let mut i: usize = 0;
    while i < a.len()
        invariant
            a@.len() == b@.len(),
            i <= a@.len(),
            forall|k: int| 0 <= k < i ==> a@[k] == b@[k],
        decreases a@.len() - i,
    {
        if a[i] != b[i] {
            return false;
        }
        i = i + 1;
    }
    assert(a@ =~= b@);
    true
}

/// Whether one of `keys` verifies `signature` of `message`. Keys that are not 32 bytes
/// long, or do not decode to a curve point, are passed over.
fn any_key_verifies(keys: &Vec<Vec<u8>>, message: &[u8], signature: &[u8; 64]) -> (ok: bool)
    ensures
        ok == some_key_verifies(keys.deep_view(), message@, signature@),
{
    let sig = signature_from_bytes(signature);
    let mut i: usize = 0;
    while i < keys.len()
        invariant
            sig.encoded() == signature@,
            i <= keys@.len(),
            forall|k: int|
                0 <= k < i ==> !((#[trigger] keys.deep_view()[k]).len() == 32 && ed25519_point_decodes(
                    keys.deep_view()[k],
                ) && ed25519_signature_verifies(keys.deep_view()[k], message@, signature@)),
        decreases keys@.len() - i,
    {
        let key = &keys[i];
        assert(keys.deep_view()[i as int] == key@);
        if key.len() == 32 {
            let mut pk: [u8; 32] = [0u8; 32];
            let mut j: usize = 0;
            while j < 32
                invariant
                    key@.len() == 32,
                    j <= 32,
                    forall|k: int| 0 <= k < j ==> pk@[k] == key@[k],
                decreases 32 - j,
            {
                pk[j] = key[j];
                j = j + 1;
            }
            assert(pk@ =~= key@);
            if let Some(vk) = decode_verifying_key(&pk) {
                if verify_signature(&vk, message, &sig) {
                    return true;
                }
            }
        }
        i = i + 1;
    }
    false
}

/// Verifies a SEP-10 style JWT: JWS compact form, `EdDSA` signature by one of `keys`,
/// `exp` after `now` (allowing `clock_skew_seconds`), and `sub` equal to `expected_sub`
/// when one is given. When `expected_sub` is `None` the token must still carry a string
/// `sub` claim.
pub fn verify_sep10_jwt(
    token: &[u8],
    keys: &Vec<Vec<u8>>,
    expected_sub: Option<&[u8]>,
    clock_skew_seconds: u64,
    now: u64,
) -> (r: Result<(), ()>)
    ensures
        r is Ok <==> sep10_token_accepted(
            token@,
            keys.deep_view(),
            match expected_sub {
                Some(e) => Some(e@),
                None => None,
            },
            clock_skew_seconds,
            now,
        ),
{
    if keys.len() == 0 {
        return Err(());
    }
    let n = token.len();
    if n == 0 || n > MAX_JWT_LEN as usize {
        return Err(());
    }
    // Find the two dots; a third one is an error.
    let mut d0: usize = 0;
    let mut d1: usize = 0;
    let mut dot_count: usize = 0;
    let mut i: usize = 0;
    while i < n
        invariant
            n == token@.len(),
            i <= n,
            dot_count <= 2,
            dot_count == 0 ==> index_from(token@, DOT, 0) == index_from(token@, DOT, i as int),
            dot_count >= 1 ==> index_from(token@, DOT, 0) == Some(d0 as int) && d0 < i,
            dot_count == 1 ==> index_from(token@, DOT, d0 + 1) == index_from(token@, DOT, i as int),
            dot_count == 2 ==> index_from(token@, DOT, d0 + 1) == Some(d1 as int) && d0 < d1 < i
                && index_from(token@, DOT, d1 + 1) == index_from(token@, DOT, i as int),
        decreases n - i,
    {
        if token[i] == DOT {
            if dot_count == 0 {
                d0 = i;
                dot_count = 1;
            } else if dot_count == 1 {
                d1 = i;
                dot_count = 2;
            } else {
                assert(two_dots(token@) is None);
                return Err(());
            }
        }
        i = i + 1;
    }
    if dot_count != 2 {
        return Err(());
    }
    if d0 == 0 || d1 <= d0 + 1 || d1 + 1 >= n {
        return Err(());
    }
    let header_b64 = vstd::slice::slice_subrange(token, 0, d0);
    let signing_input = vstd::slice::slice_subrange(token, 0, d1);
    let payload_b64 = vstd::slice::slice_subrange(token, d0 + 1, d1);
    let sig_b64 = vstd::slice::slice_subrange(token, d1 + 1, n);
    assert(token@.take(d0 as int) == header_b64@);
    let header = match base64url_decode(header_b64) {
        Ok(h) => h,
        Err(()) => {
            return Err(());
        },
    };
    // `EdDSA`
    let name: [u8; 5] = [69u8, 100u8, 68u8, 83u8, 65u8];
    let name_slice = name.as_slice();
    assert(name_slice@ =~= eddsa_name());
    if !contains_subslice(header.as_slice(), name_slice) {
        return Err(());
    }
    let sig = match base64url_decode(sig_b64) {
        Ok(s) => s,
        Err(()) => {
            return Err(());
        },
    };
    if sig.len() != 64 {
        return Err(());
    }
    let mut sig_arr: [u8; 64] = [0u8; 64];
    let mut j: usize = 0;
    while j < 64
        invariant
            sig@.len() == 64,
            j <= 64,
            forall|k: int| 0 <= k < j ==> sig_arr@[k] == sig@[k],
        decreases 64 - j,
    {
        sig_arr[j] = sig[j];
        j = j + 1;
    }
    assert(sig_arr@ =~= sig@);
    if !any_key_verifies(keys, signing_input, &sig_arr) {
        return Err(());
    }
    verify_sep10_claims(payload_b64, expected_sub, clock_skew_seconds, now)
}

} // verus!
