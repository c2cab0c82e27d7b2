//! Validation of anchor domain URLs before any request is made to them:
//! HTTPS only, a well-formed public host name, an optional port in range, and no
//! characters that have no place in a URL.

use vstd::prelude::*;
use vstd::slice::slice_subrange;
use vstd::utf8::encode_utf8;

use crate::errors::AnchorKitError;
use crate::text::{
    chars_eq_ignore_ascii_case, chars_of, char_is_ascii_alphanumeric, char_is_ascii_digit,
    contains_char, contains_subslice_char, eq_ignore_ascii_case, has_subrange, is_ascii_alphabetic,
    is_ascii_alphanumeric, is_ascii_digit, to_ascii_lower,
};

verus! {

broadcast use vstd::string::group_string_axioms;

// ── Specification ────────────────────────────────────────────────────────────

/// The only scheme accepted: `https://`.
pub open spec fn https_scheme() -> Seq<char> {
    seq!['h', 't', 't', 'p', 's', ':', '/', '/']
}

/// The host part of a URL ends at the first `/`, `?` or `#`.
pub open spec fn is_host_terminator(c: char) -> bool {
    c == '/' || c == '?' || c == '#'
}

/// The index of the first host terminator at or after `i`, or the length of `s`.
pub open spec fn host_end_from(s: Seq<char>, i: int) -> int
    decreases s.len() - i,
{
    if i < 0 || i >= s.len() {
        s.len() as int
    } else if is_host_terminator(s[i]) {
        i
    } else {
        host_end_from(s, i + 1)
    }
}

/// The host (with its optional port) at the start of what follows the scheme.
pub open spec fn host_of(rest: Seq<char>) -> Seq<char> {
    rest.take(host_end_from(rest, 0))
}

/// The index of the last `c` among the first `n` characters of `s`, if any.
pub open spec fn last_index_of(s: Seq<char>, c: char, n: int) -> Option<int>
    decreases n,
{
    if n <= 0 {
        None
    } else if s[n - 1] == c {
        Some(n - 1)
    } else {
        last_index_of(s, c, n - 1)
    }
}

/// The number written in decimal by a run of ASCII digits.
pub open spec fn decimal_value(s: Seq<char>) -> nat
    decreases s.len(),
{
    if s.len() == 0 {
        0
    } else {
        decimal_value(s.drop_last()) * 10 + ((s.last() as nat) - ('0' as nat)) as nat
    }
}

/// A port: one or more ASCII digits whose value lies in 1..=65535.
pub open spec fn valid_port(p: Seq<char>) -> bool {
    &&& p.len() > 0
    &&& forall|i: int| 0 <= i < p.len() ==> is_ascii_digit(#[trigger] p[i])
    &&& 1 <= decimal_value(p) <= 65535
}

pub open spec fn localhost_word() -> Seq<char> {
    seq!['l', 'o', 'c', 'a', 'l', 'h', 'o', 's', 't']
}

pub open spec fn punycode_prefix() -> Seq<char> {
    seq!['x', 'n', '-', '-']
}

/// `localhost` itself (in any ASCII case), a name whose first label is `localhost`,
/// or a name whose last label is `localhost`.
pub open spec fn is_localhost(d: Seq<char>) -> bool {
    ||| eq_ignore_ascii_case(d, localhost_word())
    ||| d.len() > 9 && eq_ignore_ascii_case(d.take(9), localhost_word()) && d[9] == '.'
    ||| d.len() > 9 && eq_ignore_ascii_case(d.skip(d.len() - 9), localhost_word()) && d[d.len()
        - 10] == '.'
}

/// Characters a host name may hold: ASCII letters, digits, `-` and the label separator `.`.
pub open spec fn is_host_name_char(c: char) -> bool {
    is_ascii_alphanumeric(c) || c == '-' || c == '.'
}

/// Position `i` starts a label.
pub open spec fn starts_label(d: Seq<char>, i: int) -> bool {
    i == 0 || d[i - 1] == '.'
}

/// Position `i` ends a label.
pub open spec fn ends_label(d: Seq<char>, i: int) -> bool {
    i == d.len() - 1 || d[i + 1] == '.'
}

/// The number of non-`.` characters that directly precede position `n`: the length of
/// the label so far.
pub open spec fn label_run_before(d: Seq<char>, n: int) -> nat
    decreases n,
{
    if n <= 0 {
        0
    } else if d[n - 1] == '.' {
        0
    } else {
        1 + label_run_before(d, n - 1)
    }
}

/// A public DNS host name: at least two labels; every label 1..=63 ASCII letters, digits
/// or hyphens, starting and ending with a letter or digit and not a Punycode (`xn--`)
/// label; not all labels numeric (an IPv4 address); and not a loopback name.
pub open spec fn valid_domain_name(d: Seq<char>) -> bool {
    &&& d.len() > 0
    &&& !is_localhost(d)
    &&& d.contains('.')
    &&& forall|i: int| 0 <= i < d.len() ==> is_host_name_char(#[trigger] d[i])
    &&& forall|i: int| 0 <= i < d.len() && starts_label(d, i) ==> is_ascii_alphanumeric(#[trigger] d[i])
    &&& forall|i: int| 0 <= i < d.len() && ends_label(d, i) ==> is_ascii_alphanumeric(#[trigger] d[i])
    &&& forall|n: int| 1 <= n <= d.len() ==> #[trigger] label_run_before(d, n) <= 63
    &&& forall|i: int|
        0 <= i && i + 4 <= d.len() && starts_label(d, i) ==> !eq_ignore_ascii_case(
            #[trigger] d.subrange(i, i + 4),
            punycode_prefix(),
        )
    &&& exists|i: int| 0 <= i < d.len() && #[trigger] d[i] != '.' && !is_ascii_digit(d[i])
}

/// A host with an optional `:port` suffix (split at the last `:`).
pub open spec fn valid_host(h: Seq<char>) -> bool {
    &&& h.len() > 0
    &&& !h.contains(' ')
    &&& match last_index_of(h, ':', h.len() as int) {
        Some(c) => valid_port(h.skip(c + 1)) && valid_domain_name(h.take(c)),
        None => valid_domain_name(h),
    }
}

/// Unicode control characters (general category Cc).
pub open spec fn is_control(c: char) -> bool {
    (c as u32) < 0x20 || (0x7f <= (c as u32) && (c as u32) <= 0x9f)
}

/// Characters refused anywhere in the URL.
pub open spec fn is_forbidden_url_char(c: char) -> bool {
    is_control(c) || c == '<' || c == '>' || c == '{' || c == '}' || c == '|' || c == '\\'
}

pub open spec fn percent_encoded_null() -> Seq<char> {
    seq!['%', '0', '0']
}

/// No control characters, none of `<>{}|\`, and no percent-encoded null byte.
pub open spec fn valid_url_characters(s: Seq<char>) -> bool {
    &&& !has_subrange(s, percent_encoded_null())
    &&& forall|i: int| 0 <= i < s.len() ==> !is_forbidden_url_char(#[trigger] s[i])
}

/// An acceptable anchor domain URL: 10 to 2048 bytes of UTF-8, the `https://` scheme,
/// a valid host (up to the first `/`, `?` or `#`), and only acceptable characters.
pub open spec fn valid_anchor_domain(s: Seq<char>) -> bool {
    &&& 10 <= encode_utf8(s).len() <= 2048
    &&& s.len() >= 8
    &&& s.take(8) == https_scheme()
    &&& valid_host(host_of(s.skip(8)))
    &&& valid_url_characters(s)
}

/// The host name without its port, as `valid_host` splits it.
pub open spec fn host_name_of(h: Seq<char>) -> Seq<char> {
    match last_index_of(h, ':', h.len() as int) {
        Some(c) => h.take(c),
        None => h,
    }
}

proof fn lemma_last_index_of_bounds(s: Seq<char>, c: char, n: int)
    requires
        0 <= n <= s.len(),
    ensures
        last_index_of(s, c, n) matches Some(k) ==> 0 <= k < n && s[k] == c,
    decreases n,
{
    if n > 0 && s[n - 1] != c {
        lemma_last_index_of_bounds(s, c, n - 1);
    }
}

/// An accepted URL uses HTTPS, and its host name (the part before any port) is made of
/// ASCII characters only, has at least two labels and is not an IPv4 address or a
/// loopback name.
pub proof fn law_accepted_domain_is_public_https(s: Seq<char>)
    requires
        valid_anchor_domain(s),
    ensures
        s.take(8) == https_scheme(),
        ({
            let d = host_name_of(host_of(s.skip(8)));
            &&& forall|i: int| 0 <= i < d.len() ==> (#[trigger] d[i] as u32) < 128
            &&& d.contains('.')
            &&& !is_localhost(d)
            &&& exists|i: int| 0 <= i < d.len() && #[trigger] d[i] != '.' && !is_ascii_digit(d[i])
        }),
{
    let h = host_of(s.skip(8));
    let d = host_name_of(h);
    lemma_last_index_of_bounds(h, ':', h.len() as int);
    assert(valid_domain_name(d));
    assert forall|i: int| 0 <= i < d.len() implies (#[trigger] d[i] as u32) < 128 by {
        assert(is_host_name_char(d[i]));
    }
}

/// Two characters with the same ASCII lower-case form are equal or are both ASCII
/// letters; so they agree on every class of character the validator looks at.
proof fn lemma_same_lower(a: char, b: char)
    requires
        to_ascii_lower(a) == to_ascii_lower(b),
    ensures
        a == b || (is_ascii_alphabetic(a) && is_ascii_alphabetic(b)),
        is_ascii_digit(a) == is_ascii_digit(b),
        is_ascii_alphanumeric(a) == is_ascii_alphanumeric(b),
        is_host_name_char(a) == is_host_name_char(b),
        is_forbidden_url_char(a) == is_forbidden_url_char(b),
        is_host_terminator(a) == is_host_terminator(b),
        (a == '.') == (b == '.'),
        (a == ':') == (b == ':'),
        (a == ' ') == (b == ' '),
        ((a as u32) <= 0x7f) == ((b as u32) <= 0x7f),
{
}

proof fn lemma_host_end_case(a: Seq<char>, b: Seq<char>, i: int)
    requires
        eq_ignore_ascii_case(a, b),
    ensures
        host_end_from(a, i) == host_end_from(b, i),
    decreases a.len() - i,
{
    if 0 <= i < a.len() {
        lemma_same_lower(a[i], b[i]);
        lemma_host_end_case(a, b, i + 1);
    }
}

proof fn lemma_last_colon_case(a: Seq<char>, b: Seq<char>, n: int)
    requires
        eq_ignore_ascii_case(a, b),
        n <= a.len(),
    ensures
        last_index_of(a, ':', n) == last_index_of(b, ':', n),
    decreases n,
{
    if n > 0 {
        lemma_same_lower(a[n - 1], b[n - 1]);
        lemma_last_colon_case(a, b, n - 1);
    }
}

proof fn lemma_label_run_case(a: Seq<char>, b: Seq<char>, n: int)
    requires
        eq_ignore_ascii_case(a, b),
        n <= a.len(),
    ensures
        label_run_before(a, n) == label_run_before(b, n),
    decreases n,
{
    if n > 0 {
        lemma_same_lower(a[n - 1], b[n - 1]);
        lemma_label_run_case(a, b, n - 1);
    }
}

proof fn lemma_utf8_len_case(a: Seq<char>, b: Seq<char>)
    requires
        eq_ignore_ascii_case(a, b),
    ensures
        encode_utf8(a).len() == encode_utf8(b).len(),
    decreases a.len(),
{
    if a.len() > 0 {
        lemma_same_lower(a[0], b[0]);
        assert(eq_ignore_ascii_case(a.drop_first(), b.drop_first())) by {
            assert forall|i: int| 0 <= i < a.drop_first().len() implies to_ascii_lower(
                #[trigger] a.drop_first()[i],
            ) == to_ascii_lower(b.drop_first()[i]) by {
                assert(a.drop_first()[i] == a[i + 1]);
                assert(b.drop_first()[i] == b[i + 1]);
            }
        }
        lemma_utf8_len_case(a.drop_first(), b.drop_first());
    }
}

/// Case-blind equality carries over to the same piece of both sequences.
proof fn lemma_case_subrange(a: Seq<char>, b: Seq<char>, i: int, j: int)
    requires
        eq_ignore_ascii_case(a, b),
        0 <= i <= j <= a.len(),
    ensures
        eq_ignore_ascii_case(a.subrange(i, j), b.subrange(i, j)),
{
    assert forall|k: int| 0 <= k < j - i implies to_ascii_lower(#[trigger] a.subrange(i, j)[k])
        == to_ascii_lower(b.subrange(i, j)[k]) by {
        assert(a.subrange(i, j)[k] == a[i + k]);
        assert(b.subrange(i, j)[k] == b[i + k]);
    }
}

proof fn lemma_valid_port_case(a: Seq<char>, b: Seq<char>)
    requires
        eq_ignore_ascii_case(a, b),
        valid_port(a),
    ensures
        valid_port(b),
{
    assert forall|i: int| 0 <= i < a.len() implies a[i] == b[i] by {
        lemma_same_lower(a[i], b[i]);
        assert(is_ascii_digit(a[i]));
    }
    assert(a =~= b);
}

proof fn lemma_valid_domain_name_case(a: Seq<char>, b: Seq<char>)
    requires
        eq_ignore_ascii_case(a, b),
        valid_domain_name(a),
    ensures
        valid_domain_name(b),
{
    let n = a.len() as int;
    assert forall|i: int| 0 <= i < n implies #[trigger] a[i] == b[i] || (is_ascii_alphabetic(a[i])
        && is_ascii_alphabetic(b[i])) by {
        lemma_same_lower(a[i], b[i]);
    }
    // Not a loopback name.
    if is_localhost(b) {
        let w = localhost_word();
        if eq_ignore_ascii_case(b, w) {
            assert(eq_ignore_ascii_case(a, w));
        } else if b.len() > 9 && eq_ignore_ascii_case(b.take(9), w) && b[9] == '.' {
            lemma_case_subrange(a, b, 0, 9);
            assert(a.take(9) =~= a.subrange(0, 9));
            assert(b.take(9) =~= b.subrange(0, 9));
            lemma_same_lower(a[9], b[9]);
            assert(eq_ignore_ascii_case(a.take(9), w));
        } else {
            lemma_case_subrange(a, b, n - 9, n);
            assert(a.skip(n - 9) =~= a.subrange(n - 9, n));
            assert(b.skip(n - 9) =~= b.subrange(n - 9, n));
            lemma_same_lower(a[n - 10], b[n - 10]);
            assert(eq_ignore_ascii_case(a.skip(n - 9), w));
        }
        assert(is_localhost(a));
    }
    // Has a label separator.
    let dot = choose|i: int| 0 <= i < n && a[i] == '.';
    lemma_same_lower(a[dot], b[dot]);
    assert(b[dot] == '.');
    // Character classes, label ends and label lengths.
    assert forall|i: int| 0 <= i < n implies is_host_name_char(#[trigger] b[i]) by {
        lemma_same_lower(a[i], b[i]);
        assert(is_host_name_char(a[i]));
    }
    assert forall|i: int| 0 <= i < n && starts_label(b, i) implies is_ascii_alphanumeric(
        #[trigger] b[i],
    ) by {
        lemma_same_lower(a[i], b[i]);
        if i > 0 {
            lemma_same_lower(a[i - 1], b[i - 1]);
        }
        assert(starts_label(a, i));
        assert(is_ascii_alphanumeric(a[i]));
    }
    assert forall|i: int| 0 <= i < n && ends_label(b, i) implies is_ascii_alphanumeric(
        #[trigger] b[i],
    ) by {
        lemma_same_lower(a[i], b[i]);
        if i < n - 1 {
            lemma_same_lower(a[i + 1], b[i + 1]);
        }
        assert(ends_label(a, i));
        assert(is_ascii_alphanumeric(a[i]));
    }
    assert forall|m: int| 1 <= m <= n implies #[trigger] label_run_before(b, m) <= 63 by {
        lemma_label_run_case(a, b, m);
        assert(label_run_before(a, m) <= 63);
    }
    // No Punycode label.
    assert forall|i: int| 0 <= i && i + 4 <= n && starts_label(b, i) implies !eq_ignore_ascii_case(
        #[trigger] b.subrange(i, i + 4),
        punycode_prefix(),
    ) by {
        if i > 0 {
            lemma_same_lower(a[i - 1], b[i - 1]);
        }
        assert(starts_label(a, i));
        lemma_case_subrange(a, b, i, i + 4);
        if eq_ignore_ascii_case(b.subrange(i, i + 4), punycode_prefix()) {
            assert(eq_ignore_ascii_case(a.subrange(i, i + 4), punycode_prefix()));
        }
    }
    // Not all numeric.
    let k = choose|i: int| 0 <= i < n && #[trigger] a[i] != '.' && !is_ascii_digit(a[i]);
    lemma_same_lower(a[k], b[k]);
    assert(b[k] != '.' && !is_ascii_digit(b[k]));
}

proof fn lemma_valid_host_case(a: Seq<char>, b: Seq<char>)
    requires
        eq_ignore_ascii_case(a, b),
        valid_host(a),
    ensures
        valid_host(b),
{
    let n = a.len() as int;
    if b.contains(' ') {
        let i = choose|i: int| 0 <= i < n && b[i] == ' ';
        lemma_same_lower(a[i], b[i]);
        assert(a.contains(' '));
    }
    lemma_last_colon_case(a, b, n);
    lemma_last_index_of_bounds(a, ':', n);
    match last_index_of(a, ':', n) {
        Some(c) => {
            lemma_case_subrange(a, b, c + 1, n);
            assert(a.skip(c + 1) =~= a.subrange(c + 1, n));
            assert(b.skip(c + 1) =~= b.subrange(c + 1, n));
            lemma_valid_port_case(a.skip(c + 1), b.skip(c + 1));
            lemma_case_subrange(a, b, 0, c);
            assert(a.take(c) =~= a.subrange(0, c));
            assert(b.take(c) =~= b.subrange(0, c));
            lemma_valid_domain_name_case(a.take(c), b.take(c));
        },
        None => {
            lemma_valid_domain_name_case(a, b);
        },
    }
}

proof fn lemma_valid_anchor_domain_case(s: Seq<char>, t: Seq<char>)
    requires
        eq_ignore_ascii_case(s, t),
        forall|i: int| 0 <= i < 8 && i < s.len() ==> s[i] == t[i],
        valid_anchor_domain(s),
    ensures
        valid_anchor_domain(t),
{
    let n = s.len() as int;
    lemma_utf8_len_case(s, t);
    assert(t.take(8) =~= s.take(8));
    lemma_case_subrange(s, t, 8, n);
    let rs = s.skip(8);
    let rt = t.skip(8);
    assert(rs =~= s.subrange(8, n));
    assert(rt =~= t.subrange(8, n));
    lemma_host_end_case(rs, rt, 0);
    let e = host_end_from(rs, 0);
    assert(0 <= e <= rs.len()) by {
        lemma_host_end_bounds(rs, 0);
    }
    lemma_case_subrange(rs, rt, 0, e);
    assert(host_of(rs) =~= rs.subrange(0, e));
    assert(host_of(rt) =~= rt.subrange(0, e));
    lemma_valid_host_case(host_of(rs), host_of(rt));
    // The characters of the URL.
    assert forall|i: int| 0 <= i < n implies !is_forbidden_url_char(#[trigger] t[i]) by {
        lemma_same_lower(s[i], t[i]);
        assert(!is_forbidden_url_char(s[i]));
    }
    if has_subrange(t, percent_encoded_null()) {
        let i = choose|i: int| 0 <= i && i + 3 <= t.len() && #[trigger] t.subrange(i, i + 3)
            == percent_encoded_null();
        assert forall|k: int| 0 <= k < 3 implies #[trigger] s.subrange(i, i + 3)[k] == t.subrange(
            i,
            i + 3,
        )[k] by {
            assert(t.subrange(i, i + 3)[k] == t[i + k]);
            assert(s.subrange(i, i + 3)[k] == s[i + k]);
            lemma_same_lower(s[i + k], t[i + k]);
        }
        assert(s.subrange(i, i + 3) =~= t.subrange(i, i + 3));
        assert(has_subrange(s, percent_encoded_null()));
    }
}

proof fn lemma_host_end_bounds(s: Seq<char>, i: int)
    requires
        0 <= i,
    ensures
        0 <= host_end_from(s, i) <= s.len(),
    decreases s.len() - i,
{
    if 0 <= i < s.len() && !is_host_terminator(s[i]) {
        lemma_host_end_bounds(s, i + 1);
    }
}

/// The case of ASCII letters after the scheme never matters: two URLs that agree on
/// their first eight characters (the scheme, which must be `https://` exactly) and are
/// otherwise equal up to ASCII case are both accepted or both refused. So a host may
/// be written in upper, lower or mixed case.
pub proof fn law_host_case_ignored(s: Seq<char>, t: Seq<char>)
    requires
        s.len() == t.len(),
        forall|i: int| 0 <= i < 8 && i < s.len() ==> s[i] == t[i],
        forall|i: int| 0 <= i < s.len() ==> to_ascii_lower(#[trigger] s[i]) == to_ascii_lower(t[i]),
    ensures
        valid_anchor_domain(s) <==> valid_anchor_domain(t),
{
    assert(eq_ignore_ascii_case(s, t));
    assert(eq_ignore_ascii_case(t, s));
    if valid_anchor_domain(s) {
        lemma_valid_anchor_domain_case(s, t);
    }
    if valid_anchor_domain(t) {
        lemma_valid_anchor_domain_case(t, s);
    }
}

// ── Implementation ───────────────────────────────────────────────────────────

/// Validates an anchor domain URL.
///
/// Returns `Ok(())` when the URL uses HTTPS and names a well-formed public host (with an
/// optional port in 1..=65535), and the error `invalid_endpoint_format` otherwise.
pub fn validate_anchor_domain(domain: &str) -> (r: Result<(), AnchorKitError>)
    ensures
        r is Ok <==> valid_anchor_domain(domain@),
        r matches Err(e) ==> e.spec_is_invalid_endpoint_format(),
{
    // The length limits count bytes. A string of whitespace alone is refused by them or
    // by the scheme check below.
    let byte_len = domain.as_bytes().len();
    if byte_len < 10 || byte_len > 2048 {
        return Err(AnchorKitError::invalid_endpoint_format());
    }
    let chars = chars_of(domain);
    let cs = chars.as_slice();
    if !starts_with_https(cs) {
        return Err(AnchorKitError::invalid_endpoint_format());
    }
    let rest = slice_subrange(cs, 8, cs.len());
    let end = host_end(rest);
    let host = slice_subrange(rest, 0, end);
    proof {
        assert(rest@ == domain@.skip(8));
        assert(host@ == host_of(domain@.skip(8)));
    }
    match validate_host(host) {
        Ok(()) => {},
        Err(e) => {
            return Err(e);
        },
    }
    validate_url_characters(cs)
}

fn starts_with_https(cs: &[char]) -> (r: bool)
    ensures
        r == (cs@.len() >= 8 && cs@.take(8) == https_scheme()),
{
    if cs.len() < 8 {
        return false;
    }
    let ok = cs[0] == 'h' && cs[1] == 't' && cs[2] == 't' && cs[3] == 'p' && cs[4] == 's' && cs[5]
        == ':' && cs[6] == '/' && cs[7] == '/';
    proof {
        if ok {
            assert(cs@.take(8) =~= https_scheme());
        } else if cs@.take(8) == https_scheme() {
            assert(cs@.take(8)[0] == 'h');
            assert(cs@.take(8)[1] == 't');
            assert(cs@.take(8)[2] == 't');
            assert(cs@.take(8)[3] == 'p');
            assert(cs@.take(8)[4] == 's');
            assert(cs@.take(8)[5] == ':');
            assert(cs@.take(8)[6] == '/');
            assert(cs@.take(8)[7] == '/');
        }
    }
    ok
}

/// The index of the first `/`, `?` or `#`, or the length.
fn host_end(s: &[char]) -> (e: usize)
    ensures
        e == host_end_from(s@, 0),
        e <= s@.len(),
{
    let n = s.len();
    let mut i: usize = 0;
    while i < n
        invariant
            n == s@.len(),
            i <= n,
            host_end_from(s@, 0) == host_end_from(s@, i as int),
        decreases n - i,
    {
        let c = s[i];
        if c == '/' || c == '?' || c == '#' {
            return i;
        }
        i = i + 1;
    }
    i
}

/// The index of the last `c`, if any.
fn last_index(s: &[char], c: char) -> (r: Option<usize>)
    ensures
        r matches Some(k) ==> last_index_of(s@, c, s@.len() as int) == Some(k as int) && k < s@.len(),
        r is None ==> last_index_of(s@, c, s@.len() as int) is None,
{
    let mut n = s.len();
    while n > 0
        invariant
            n <= s@.len(),
            last_index_of(s@, c, s@.len() as int) == last_index_of(s@, c, n as int),
        decreases n,
    {
        if s[n - 1] == c {
            return Some(n - 1);
        }
        n = n - 1;
    }
    None
}

proof fn lemma_decimal_value_push(s: Seq<char>, i: int)
    requires
        0 <= i < s.len(),
    ensures
        decimal_value(s.take(i + 1)) == decimal_value(s.take(i)) * 10 + ((s[i] as nat) - ('0' as nat)) as nat,
{
    assert(s.take(i + 1).drop_last() =~= s.take(i));
}

/// Whether a run of ASCII digits names a port in 1..=65535.
fn port_in_range(p: &[char]) -> (r: bool)
    requires
        forall|i: int| 0 <= i < p@.len() ==> is_ascii_digit(#[trigger] p@[i]),
    ensures
        r == (1 <= decimal_value(p@) <= 65535),
{
    let n = p.len();
    // The value read so far, saturated at 65536.
    let mut v: u32 = 0;
    let mut i: usize = 0;
    while i < n
        invariant
            n == p@.len(),
            i <= n,
            forall|k: int| 0 <= k < p@.len() ==> is_ascii_digit(#[trigger] p@[k]),
            v == (if decimal_value(p@.take(i as int)) < 65536 {
                decimal_value(p@.take(i as int))
            } else {
                65536
            }),
        decreases n - i,
    {
        proof {
            lemma_decimal_value_push(p@, i as int);
        }
        let d: u32 = p[i] as u32 - '0' as u32;
        if v < 65536 {
            v = v * 10 + d;
            if v > 65536 {
                v = 65536;
            }
        }
        i = i + 1;
    }
    proof {
        assert(p@.take(n as int) =~= p@);
    }
    1 <= v && v <= 65535
}

/// Validates the host portion of a URL (with its optional port).
fn validate_host(host: &[char]) -> (r: Result<(), AnchorKitError>)
    ensures
        r is Ok <==> valid_host(host@),
        r matches Err(e) ==> e.spec_is_invalid_endpoint_format(),
{
    if host.len() == 0 {
        return Err(AnchorKitError::invalid_endpoint_format());
    }
    if contains_char(host, ' ') {
        return Err(AnchorKitError::invalid_endpoint_format());
    }
    let name = match last_index(host, ':') {
        Some(colon) => {
            let port = slice_subrange(host, colon + 1, host.len());
            if port.len() == 0 {
                return Err(AnchorKitError::invalid_endpoint_format());
            }
            if !all_ascii_digits(port) {
                return Err(AnchorKitError::invalid_endpoint_format());
            }
            if !port_in_range(port) {
                return Err(AnchorKitError::invalid_endpoint_format());
            }
            slice_subrange(host, 0, colon)
        },
        None => host,
    };
    validate_domain_name(name)
}

fn all_ascii_digits(s: &[char]) -> (r: bool)
    ensures
        r == (forall|i: int| 0 <= i < s@.len() ==> is_ascii_digit(#[trigger] s@[i])),
{
    let n = s.len();
    let mut i: usize = 0;
    while i < n
        invariant
            n == s@.len(),
            i <= n,
            forall|k: int| 0 <= k < i ==> is_ascii_digit(#[trigger] s@[k]),
        decreases n - i,
    {
        if !char_is_ascii_digit(s[i]) {
            return false;
        }
        i = i + 1;
    }
    true
}

fn check_localhost(d: &[char]) -> (r: bool)
    ensures
        r == is_localhost(d@),
{
    let word: [char; 9] = ['l', 'o', 'c', 'a', 'l', 'h', 'o', 's', 't'];
    let w = word.as_slice();
    assert(w@ =~= localhost_word());
    let n = d.len();
    if chars_eq_ignore_ascii_case(d, w) {
        return true;
    }
    if n > 9 {
        let head = slice_subrange(d, 0, 9);
        if chars_eq_ignore_ascii_case(head, w) && d[9] == '.' {
            return true;
        }
        let tail = slice_subrange(d, n - 9, n);
        if chars_eq_ignore_ascii_case(tail, w) && d[n - 10] == '.' {
            return true;
        }
    }
    false
}

/// Validates a host name without its port.
#[verifier::spinoff_prover]
fn validate_domain_name(d: &[char]) -> (r: Result<(), AnchorKitError>)
    ensures
        r is Ok <==> valid_domain_name(d@),
        r matches Err(e) ==> e.spec_is_invalid_endpoint_format(),
{
    let n = d.len();
    if n == 0 {
        return Err(AnchorKitError::invalid_endpoint_format());
    }
    // Loopback names are refused outright, `localhost.localdomain` included.
    if check_localhost(d) {
        return Err(AnchorKitError::invalid_endpoint_format());
    }
    // A single-label name (no TLD) is an internal host name.
    if !contains_char(d, '.') {
        return Err(AnchorKitError::invalid_endpoint_format());
    }
    // Only ASCII letters, digits, hyphens and dots: Unicode labels must be given in
    // Punycode, and Punycode labels are refused below.
    let mut i: usize = 0;
    while i < n
        invariant
            n == d@.len(),
            i <= n,
            forall|k: int| 0 <= k < i ==> is_host_name_char(#[trigger] d@[k]),
        decreases n - i,
    {
        let c = d[i];
        if !(char_is_ascii_alphanumeric(c) || c == '-' || c == '.') {
            return Err(AnchorKitError::invalid_endpoint_format());
        }
        i = i + 1;
    }
    // Every label is non-empty and starts and ends with a letter or digit; this also
    // refuses leading, trailing and consecutive dots.
    let mut i: usize = 0;
    while i < n
        invariant
            n == d@.len(),
            i <= n,
            forall|k: int| 0 <= k < i && starts_label(d@, k) ==> is_ascii_alphanumeric(#[trigger] d@[k]),
            forall|k: int| 0 <= k < i && ends_label(d@, k) ==> is_ascii_alphanumeric(#[trigger] d@[k]),
        decreases n - i,
    {
        let starts = i == 0 || d[i - 1] == '.';
        let ends = i == n - 1 || d[i + 1] == '.';
        if (starts || ends) && !char_is_ascii_alphanumeric(d[i]) {
            return Err(AnchorKitError::invalid_endpoint_format());
        }
        i = i + 1;
    }
    // Every label is at most 63 characters long.
    let mut run: usize = 0;
    let mut i: usize = 0;
    while i < n
        invariant
            n == d@.len(),
            i <= n,
            run == label_run_before(d@, i as int),
            run <= 63,
            forall|m: int| 1 <= m <= i ==> #[trigger] label_run_before(d@, m) <= 63,
        decreases n - i,
    {
        if d[i] == '.' {
            run = 0;
        } else {
            run = run + 1;
            if run > 63 {
                assert(label_run_before(d@, i + 1) > 63);
                return Err(AnchorKitError::invalid_endpoint_format());
            }
        }
        i = i + 1;
    }
    // No Punycode labels: they can spell look-alikes of other names.
    let prefix: [char; 4] = ['x', 'n', '-', '-'];
    let pre = prefix.as_slice();
    assert(pre@ =~= punycode_prefix());
    let mut i: usize = 0;
    while n >= 4 && i <= n - 4
        invariant
            n == d@.len(),
            pre@ == punycode_prefix(),
            forall|k: int|
                0 <= k < i && k + 4 <= n && starts_label(d@, k) ==> !eq_ignore_ascii_case(
                    #[trigger] d@.subrange(k, k + 4),
                    punycode_prefix(),
                ),
        decreases n - i,
    {
        if i == 0 || d[i - 1] == '.' {
            let label_head = slice_subrange(d, i, i + 4);
            if chars_eq_ignore_ascii_case(label_head, pre) {
                return Err(AnchorKitError::invalid_endpoint_format());
            }
        }
        i = i + 1;
    }
    // A name made of numeric labels only is an IPv4 address.
    let mut i: usize = 0;
    let mut has_non_numeric = false;
    while i < n && !has_non_numeric
        invariant
            n == d@.len(),
            i <= n,
            has_non_numeric ==> exists|k: int| 0 <= k < n && #[trigger] d@[k] != '.' && !is_ascii_digit(d@[k]),
            !has_non_numeric ==> forall|k: int| 0 <= k < i ==> #[trigger] d@[k] == '.' || is_ascii_digit(d@[k]),
        decreases n - i,
    {
        let c = d[i];
        if c != '.' && !char_is_ascii_digit(c) {
            has_non_numeric = true;
        }
        i = i + 1;
    }
    if !has_non_numeric {
        return Err(AnchorKitError::invalid_endpoint_format());
    }
    Ok(())
}

/// Validates the characters of a whole URL.
fn validate_url_characters(url: &[char]) -> (r: Result<(), AnchorKitError>)
    ensures
        r is Ok <==> valid_url_characters(url@),
        r matches Err(e) ==> e.spec_is_invalid_endpoint_format(),
{
    // A percent-encoded null byte is refused although its characters are each allowed.
    let null: [char; 3] = ['%', '0', '0'];
    let pat = null.as_slice();
    assert(pat@ =~= percent_encoded_null());
    if contains_subslice_char(url, pat) {
        return Err(AnchorKitError::invalid_endpoint_format());
    }
    let n = url.len();
    let mut i: usize = 0;
    while i < n
        invariant
            n == url@.len(),
            i <= n,
            forall|k: int| 0 <= k < i ==> !is_forbidden_url_char(#[trigger] url@[k]),
        decreases n - i,
    {
        let c = url[i];
        let v = c as u32;
        let control = v < 0x20 || (v >= 0x7f && v <= 0x9f);
        if control || c == '<' || c == '>' || c == '{' || c == '}' || c == '|' || c == '\\' {
            return Err(AnchorKitError::invalid_endpoint_format());
        }
        i = i + 1;
    }
    Ok(())
}

} // verus!
