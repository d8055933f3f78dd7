//! Request-header parsing for the console's static-asset serving: whether a
//! client's `Accept-Encoding` header lists `gzip`.
//!
//! The header is a comma-separated list of codings, each optionally followed
//! by `;`-separated parameters and padded with whitespace. The model walks
//! the header's bytes; multi-byte characters cannot collide with the ASCII
//! delimiters.

use vstd::prelude::*;
use vstd::string::StringSliceAdditionalSpecFns;

verus! {

/// ASCII whitespace, as trimming removes it.
pub open spec fn is_space_byte(b: u8) -> bool {
    b == 32 || (9 <= b <= 13)
}

/// The first comma at or after `p`, or the end.
pub open spec fn next_comma(s: Seq<u8>, p: int) -> int
    recommends
        0 <= p <= s.len(),
    decreases s.len() - p,
{
    if p < 0 || p >= s.len() {
        s.len() as int
    } else if s[p] == 44 {
        p
    } else {
        next_comma(s, p + 1)
    }
}

/// The first semicolon in `[p, c)`, or `c`.
pub open spec fn next_semi(s: Seq<u8>, p: int, c: int) -> int
    recommends
        0 <= p <= c <= s.len(),
    decreases c - p,
{
    if p < 0 || p >= c {
        c
    } else if s[p] == 59 {
        p
    } else {
        next_semi(s, p + 1, c)
    }
}

/// The first non-whitespace position in `[a, e)`, or `e`.
pub open spec fn trim_front(s: Seq<u8>, a: int, e: int) -> int
    recommends
        0 <= a <= e <= s.len(),
    decreases e - a,
{
    if a < 0 || a >= e {
        e
    } else if is_space_byte(s[a]) {
        trim_front(s, a + 1, e)
    } else {
        a
    }
}

/// One past the last non-whitespace position in `[a, e)`, or `a`.
pub open spec fn trim_back(s: Seq<u8>, a: int, e: int) -> int
    recommends
        0 <= a <= e <= s.len(),
    decreases e - a,
{
    if e <= a {
        a
    } else if is_space_byte(s[e - 1]) {
        trim_back(s, a, e - 1)
    } else {
        e
    }
}

/// Whether the coding in `[p, c)` — its parameters cut at the first
/// semicolon, whitespace trimmed — reads `gzip`.
pub open spec fn segment_is_gzip(s: Seq<u8>, p: int, c: int) -> bool {
    let e = next_semi(s, p, c);
    let a = trim_front(s, p, e);
    let b = trim_back(s, a, e);
    &&& b - a == 4
    &&& s[a] == 103
    &&& s[a + 1] == 122
    &&& s[a + 2] == 105
    &&& s[a + 3] == 112
}

/// Whether any comma-separated segment from `p` on reads `gzip`.
pub open spec fn accept_gz_from(s: Seq<u8>, p: int) -> bool
    recommends
        0 <= p <= s.len(),
    decreases s.len() - p,
{
    let c = next_comma(s, p);
    if segment_is_gzip(s, p, c) {
        true
    } else if p <= c < s.len() {
        accept_gz_from(s, c + 1)
    } else {
        false
    }
}

/// Whether the header lists the `gzip` coding.
pub open spec fn spec_accept_gz(s: Seq<u8>) -> bool {
    accept_gz_from(s, 0)
}

/// Finds the first comma at or after `p`.
fn scan_comma(bytes: &[u8], p: usize) -> (c: usize)
    requires
        p <= bytes@.len(),
    ensures
        c == next_comma(bytes@, p as int),
        p <= c <= bytes@.len(),
{
    let mut q = p;
    while q < bytes.len() && bytes[q] != 44
        invariant
            p <= q <= bytes@.len(),
            next_comma(bytes@, p as int) == next_comma(bytes@, q as int),
        decreases bytes@.len() - q,
    {
        q += 1;
    }
    q
}

/// Finds the first semicolon in `[p, c)`.
fn scan_semi(bytes: &[u8], p: usize, c: usize) -> (e: usize)
    requires
        p <= c <= bytes@.len(),
    ensures
        e == next_semi(bytes@, p as int, c as int),
        p <= e <= c,
{
    let mut q = p;
    while q < c && bytes[q] != 59
        invariant
            p <= q <= c,
            c <= bytes@.len(),
            next_semi(bytes@, p as int, c as int) == next_semi(bytes@, q as int, c as int),
        decreases c - q,
    {
        q += 1;
    }
    q
}

/// Whether the coding in `[p, c)` reads `gzip` once parameters and padding
/// are cut away.
fn segment_matches_gzip(bytes: &[u8], p: usize, c: usize) -> (r: bool)
    requires
        p <= c <= bytes@.len(),
    ensures
        r == segment_is_gzip(bytes@, p as int, c as int),
{
    let e = scan_semi(bytes, p, c);
    let mut a = p;
    while a < e && (bytes[a] == 32 || (9 <= bytes[a] && bytes[a] <= 13))
        invariant
            p <= a <= e,
            e <= bytes@.len(),
            trim_front(bytes@, p as int, e as int) == trim_front(bytes@, a as int, e as int),
        decreases e - a,
    {
        a += 1;
    }
    let mut b = e;
    while b > a && (bytes[b - 1] == 32 || (9 <= bytes[b - 1] && bytes[b - 1] <= 13))
        invariant
            a <= b <= e,
            e <= bytes@.len(),
            trim_back(bytes@, a as int, e as int) == trim_back(bytes@, a as int, b as int),
        decreases b,
    {
        b -= 1;
    }
    b - a == 4 && bytes[a] == 103 && bytes[a + 1] == 122 && bytes[a + 2] == 105 && bytes[a + 3]
        == 112
}

/// Check if `gzip` is listed in the request's `Accept-Encoding` header.
pub fn accept_gz(header_value: &str) -> (r: bool)
    ensures
        r == spec_accept_gz(header_value.spec_bytes()),
{
    let bytes = header_value.as_bytes();
    let mut p: usize = 0;
    loop
        invariant
            p <= bytes@.len(),
            spec_accept_gz(header_value.spec_bytes()) == accept_gz_from(bytes@, p as int),
        ensures
            spec_accept_gz(header_value.spec_bytes()) == accept_gz_from(bytes@, p as int),
            segment_is_gzip(bytes@, p as int, next_comma(bytes@, p as int)),
        decreases bytes@.len() - p,
    {
        let c = scan_comma(bytes, p);
        if segment_matches_gzip(bytes, p, c) {
            break ;
        }
        if c >= bytes.len() {
            return false;
        }
        p = c + 1;
    }
    true
}

} // verus!
