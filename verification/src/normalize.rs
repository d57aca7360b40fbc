//! The record normalizer: the pure transformation from a raw registry
//! record to its storable form. Capacity in satoshis becomes a plain
//! decimal string in BTC units (satoshis divided by 100,000,000, with
//! trailing fractional zeros dropped); the Unix timestamp becomes a UTC
//! calendar rendering, or a validation error when it lies outside the
//! representable range.

use vstd::prelude::*;

use crate::client;
use crate::database;

verus! {

/// One satoshi is 10^-8 BTC.
pub const SATS_PER_BTC: u64 = 100_000_000;

/// The least Unix second that chrono can represent as a calendar
/// date-time (the first second of its earliest year).
pub const MIN_TIMESTAMP: i64 = -8_334_601_228_800;

/// The greatest Unix second that chrono can represent as a calendar
/// date-time (the last second of its final year).
pub const MAX_TIMESTAMP: i64 = 8_210_266_876_799;

/// Whether a raw timestamp is representable as a calendar date-time.
pub open spec fn ts_in_range(secs: int) -> bool {
    MIN_TIMESTAMP <= secs && secs <= MAX_TIMESTAMP
}

/// The decimal digit character for a value below ten.
pub open spec fn spec_digit(d: nat) -> char {
    if d == 0 {
        '0'
    } else if d == 1 {
        '1'
    } else if d == 2 {
        '2'
    } else if d == 3 {
        '3'
    } else if d == 4 {
        '4'
    } else if d == 5 {
        '5'
    } else if d == 6 {
        '6'
    } else if d == 7 {
        '7'
    } else if d == 8 {
        '8'
    } else {
        '9'
    }
}

/// The decimal rendering of a natural number, most significant digit
/// first, with no leading zeros (zero itself renders as "0").
pub open spec fn spec_dec_digits(n: nat) -> Seq<char>
    decreases n,
{
    if n < 10 {
        seq![spec_digit(n)]
    } else {
        spec_dec_digits(n / 10).push(spec_digit(n % 10))
    }
}

/// The eight fractional digits of `f / 10^8`, most significant first,
/// zero-padded on the left.
pub open spec fn spec_pad8(f: nat) -> Seq<char> {
    seq![
        spec_digit((f / 10_000_000) % 10),
        spec_digit((f / 1_000_000) % 10),
        spec_digit((f / 100_000) % 10),
        spec_digit((f / 10_000) % 10),
        spec_digit((f / 1_000) % 10),
        spec_digit((f / 100) % 10),
        spec_digit((f / 10) % 10),
        spec_digit(f % 10),
    ]
}

/// The sequence with its trailing zero characters removed.
pub open spec fn spec_trim_zeros(s: Seq<char>) -> Seq<char>
    decreases s.len(),
{
    if s.len() > 0 && s.last() == '0' {
        spec_trim_zeros(s.drop_last())
    } else {
        s
    }
}

/// The decimal rendering of a satoshi amount in BTC units: the integer
/// part of `sats / 10^8`, then, when the fraction is not zero, a point
/// and the fractional digits with trailing zeros dropped.
pub open spec fn spec_capacity(sats: nat) -> Seq<char> {
    if sats % (SATS_PER_BTC as nat) == 0 {
        spec_dec_digits(sats / (SATS_PER_BTC as nat))
    } else {
        spec_dec_digits(sats / (SATS_PER_BTC as nat)) + seq!['.'] + spec_trim_zeros(
            spec_pad8(sats % (SATS_PER_BTC as nat)),
        )
    }
}

/// The UTC calendar rendering `YYYY-MM-DD HH:MM:SS` of a Unix second, as
/// chrono produces it; a function of the second alone.
pub uninterp spec fn utc_rendering(secs: int) -> Seq<char>;

/// A per-record validation failure, carrying the offending raw value.
#[derive(Clone, Copy, Debug, PartialEq, Eq, Structural)]
pub enum NormalizeError {
    InvalidTimestamp(i64),
}

/// The normalized image of a raw record: alias and public key verbatim,
/// capacity and first_seen as derived renderings.
pub open spec fn spec_normalized(r: client::RawView) -> database::NodeView {
    database::NodeView {
        public_key: r.public_key,
        alias: r.alias,
        capacity: spec_capacity(r.capacity as nat),
        first_seen: utc_rendering(r.first_seen as int),
    }
}

/// Relies on `String::push`: appends the given character to the end of
/// the string.
#[verifier::external_body]
fn push_char(s: &mut String, c: char)
    ensures
        final(s)@ == old(s)@.push(c),
{
    s.push(c);
}

/// Relies on chrono's `DateTime::<Utc>::from_timestamp` and on
/// `DateTime::format` with `"%Y-%m-%d %H:%M:%S"`: `from_timestamp(secs, 0)`
/// is `Some` exactly when `secs` falls within chrono's representable year
/// range, and the formatted text is a function of `secs` alone.
#[verifier::external_body]
fn format_timestamp(secs: i64) -> (r: Option<String>)
    ensures
        r is Some <==> ts_in_range(secs as int),
        r matches Some(s) ==> s@ == utc_rendering(secs as int),
{
    match chrono::DateTime::<chrono::Utc>::from_timestamp(secs, 0) {
        Some(dt) => Some(dt.format("%Y-%m-%d %H:%M:%S").to_string()),
        None => None,
    }
}

/// The decimal digit character for a value below ten.
fn digit_char(d: u64) -> (c: char)
    requires
        d < 10,
    ensures
        c == spec_digit(d as nat),
{
    if d == 0 {
        '0'
    } else if d == 1 {
        '1'
    } else if d == 2 {
        '2'
    } else if d == 3 {
        '3'
    } else if d == 4 {
        '4'
    } else if d == 5 {
        '5'
    } else if d == 6 {
        '6'
    } else if d == 7 {
        '7'
    } else if d == 8 {
        '8'
    } else {
        '9'
    }
}

/// Appends the decimal rendering of `n` to `s`.
fn push_dec_digits(s: &mut String, n: u64)
    ensures
        final(s)@ == old(s)@ + spec_dec_digits(n as nat),
{
    let mut rev: Vec<char> = Vec::new();
    let mut m = n;
    while m >= 10
        invariant
            spec_dec_digits(n as nat) == spec_dec_digits(m as nat) + rev@.reverse(),
        decreases m,
    {
        let d = m % 10;
        proof {
            assert(rev@.push(spec_digit((m % 10) as nat)).reverse() =~= seq![
                spec_digit((m % 10) as nat),
            ] + rev@.reverse());
        }
        rev.push(digit_char(d));
        m = m / 10;
    }
    proof {
        assert(rev@.push(spec_digit(m as nat)).reverse() =~= seq![spec_digit(m as nat)]
            + rev@.reverse());
        assert(spec_dec_digits(m as nat) == seq![spec_digit(m as nat)]);
    }
    rev.push(digit_char(m));
    let ghost full = rev@;
    proof {
        assert(spec_dec_digits(n as nat) =~= full.reverse());
    }
    let mut k = rev.len();
    while k > 0
        invariant
            k <= rev@.len(),
            rev@ == full,
            s@ == old(s)@ + full.reverse().take(full.len() - k),
        decreases k,
    {
        k = k - 1;
        proof {
            assert(full.reverse()[full.len() - 1 - k] == full[k as int]);
            assert(full.reverse().take(full.len() - k) =~= full.reverse().take(
                full.len() - (k + 1),
            ).push(full[k as int]));
        }
        push_char(s, rev[k]);
    }
    proof {
        assert(full.reverse().take(full.len() - 0) =~= full.reverse());
    }
}

/// Appends the trimmed eight-digit fractional rendering of `f / 10^8`.
fn push_frac_digits(s: &mut String, f: u64)
    requires
        0 < f < 100_000_000,
    ensures
        final(s)@ == old(s)@ + spec_trim_zeros(spec_pad8(f as nat)),
{
    let mut p: Vec<char> = Vec::new();
    p.push(digit_char((f / 10_000_000) % 10));
    p.push(digit_char((f / 1_000_000) % 10));
    p.push(digit_char((f / 100_000) % 10));
    p.push(digit_char((f / 10_000) % 10));
    p.push(digit_char((f / 1_000) % 10));
    p.push(digit_char((f / 100) % 10));
    p.push(digit_char((f / 10) % 10));
    p.push(digit_char(f % 10));
    proof {
        assert(p@ =~= spec_pad8(f as nat));
    }
    while p.len() > 0 && p[p.len() - 1] == '0'
        invariant
            spec_trim_zeros(p@) == spec_trim_zeros(spec_pad8(f as nat)),
        decreases p.len(),
    {
        proof {
            assert(p@.drop_last() =~= p@.take(p@.len() - 1));
        }
        p.pop();
    }
    proof {
        assert(spec_trim_zeros(p@) == p@);
    }
    let ghost trimmed = p@;
    let n = p.len();
    let mut i: usize = 0;
    while i < n
        invariant
            i <= n,
            n == p@.len(),
            p@ == trimmed,
            s@ == old(s)@ + trimmed.take(i as int),
        decreases n - i,
    {
        proof {
            assert(trimmed.take(i + 1) =~= trimmed.take(i as int).push(trimmed[i as int]));
        }
        push_char(s, p[i]);
        i = i + 1;
    }
    proof {
        assert(trimmed.take(n as int) =~= trimmed);
    }
}

/// Renders a satoshi amount as a decimal BTC string.
pub fn capacity_string(sats: u64) -> (s: String)
    ensures
        s@ == spec_capacity(sats as nat),
{
    let mut s = String::new();
    let whole = sats / SATS_PER_BTC;
    let frac = sats % SATS_PER_BTC;
    push_dec_digits(&mut s, whole);
    if frac != 0 {
        push_char(&mut s, '.');
        push_frac_digits(&mut s, frac);
        proof {
            assert(s@ =~= spec_dec_digits((sats / SATS_PER_BTC) as nat) + seq!['.']
                + spec_trim_zeros(spec_pad8((sats % SATS_PER_BTC) as nat)));
        }
    }
    s
}

/// Normalizes one raw record. Succeeds exactly when the timestamp is
/// representable; alias and public key are copied verbatim, capacity and
/// first_seen are derived renderings, never the raw integers.
pub fn normalize(raw: &client::Node) -> (r: Result<database::Node, NormalizeError>)
    ensures
        ts_in_range(raw.first_seen as int) ==> (r matches Ok(n) && n@ == spec_normalized(raw@)),
        !ts_in_range(raw.first_seen as int) ==> (r matches Err(e) && e == NormalizeError::InvalidTimestamp(
            raw.first_seen,
        )),
{
    match format_timestamp(raw.first_seen) {
        Some(first_seen) => Ok(
            database::Node {
                public_key: raw.public_key.clone(),
                alias: raw.alias.clone(),
                capacity: capacity_string(raw.capacity),
                first_seen,
            },
        ),
        None => Err(NormalizeError::InvalidTimestamp(raw.first_seen)),
    }
}

} // verus!
