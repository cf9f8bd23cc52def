//! `Iso8601`: an instant with a fixed UTC offset, read from RFC 3339 text or from a looser
//! ISO 8601 form, written in RFC 3339 form, and ordered by the moment it denotes.
use vstd::prelude::*;

use chrono::DateTime;
use std::cmp::Ordering;
use vstd::std_specs::cmp::{PartialEqSpec, PartialOrdSpec};

use crate::error::{debug_quoted, error_with, push_quoted, HolochainError};
use crate::text::{
    chars_of, is_digit, push_range, push_str, push_string, skip_class,
    span_end, string_of, Class,
};

verus! {

/// A point in time with the fixed offset it was written in. Equality and order go by the moment
/// alone: the same moment written in two offsets gives two equal values.
#[derive(Clone, Debug)]
pub struct Iso8601 {
    secs: i64,
    nanos: u32,
    offset: i32,
    text: String,
}

impl View for Iso8601 {
    /// Seconds since 1970-01-01T00:00:00Z, nanoseconds past them (at or above one second only
    /// within a leap second), and the offset from UTC in seconds.
    type V = (int, int, int);

    closed spec fn view(&self) -> (int, int, int) {
        (self.secs as int, self.nanos as int, self.offset as int)
    }
}

/// Whether two instants denote the same moment, whatever their offsets.
pub open spec fn same_moment(a: (int, int, int), b: (int, int, int)) -> bool {
    a.0 == b.0 && a.1 == b.1
}

/// Whether the moment of `a` comes before that of `b` (seconds first, then nanoseconds, so that
/// a leap second stays within its minute).
pub open spec fn before(a: (int, int, int), b: (int, int, int)) -> bool {
    a.0 < b.0 || (a.0 == b.0 && a.1 < b.1)
}

/// What RFC 3339 text denotes: seconds since the epoch, nanoseconds and offset in seconds, or
/// `None` where the text is not a valid RFC 3339 timestamp.
pub uninterp spec fn rfc3339_of(s: Seq<char>) -> Option<(int, int, int)>;

/// The RFC 3339 spelling of a moment in an offset.
pub uninterp spec fn rfc3339_text_of(secs: int, nanos: int, offset: int) -> Seq<char>;

/// Relies on `DateTime::parse_from_rfc3339`, read out through `timestamp`,
/// `timestamp_subsec_nanos` and `offset().local_minus_utc()`, and on `DateTime::to_rfc3339`,
/// whose text depends on the moment and the offset alone. A parsed value has a four-digit year
/// and an offset in whole minutes, which `to_rfc3339` writes back in full, with a fraction of 0,
/// 3, 6 or 9 digits that holds the nanoseconds exactly: its text parses back to the same value.
#[verifier::external_body]
fn parse_rfc3339(s: &str) -> (r: Option<Iso8601>)
    ensures
        r is Some == rfc3339_of(s@) is Some,
        r matches Some(v) ==> rfc3339_of(s@) == Some(v@) && v.text@ == rfc3339_text_of(
            v@.0,
            v@.1,
            v@.2,
        ),
        r matches Some(v) ==> rfc3339_of(rfc3339_text_of(v@.0, v@.1, v@.2)) == Some(v@),
{
    match DateTime::parse_from_rfc3339(s) {
        Ok(dt) => Some(Iso8601 {
            secs: dt.timestamp(),
            nanos: dt.timestamp_subsec_nanos(),
            offset: dt.offset().local_minus_utc(),
            text: dt.to_rfc3339(),
        }),
        Err(_) => None,
    }
}

/// The earliest second since the epoch that chrono's `DateTime` holds: -262143-01-01T00:00:00Z.
/// Construction from an epoch count is infallible within chrono's range, and only there.
pub const MIN_TIMESTAMP: i64 = -8_334_601_228_800;

/// The latest second since the epoch that chrono's `DateTime` holds: 262142-12-31T23:59:59Z.
pub const MAX_TIMESTAMP: i64 = 8_210_266_876_799;

/// Relies on `DateTime::from_timestamp` (in range: `Some`), `DateTime::fixed_offset` (offset
/// zero) and `DateTime::to_rfc3339`.
#[verifier::external_body]
fn utc_at(secs: i64) -> (r: Iso8601)
    requires
        MIN_TIMESTAMP <= secs <= MAX_TIMESTAMP,
    ensures
        r@ == (secs as int, 0int, 0int),
        r.text@ == rfc3339_text_of(secs as int, 0, 0),
{
    let dt = DateTime::from_timestamp(secs, 0).unwrap().fixed_offset();
    Iso8601 { secs, nanos: 0, offset: 0, text: dt.to_rfc3339() }
}

// ---------------------------------------------------------------------------------------------
// The looser ISO 8601 form.

/// The character at `i`, or NUL past either end.
pub open spec fn ch(s: Seq<char>, i: int) -> char {
    if 0 <= i < s.len() {
        s[i]
    } else {
        '\0'
    }
}

pub open spec fn dig(s: Seq<char>, i: int) -> bool {
    is_digit(ch(s, i))
}

pub open spec fn in_range(c: char, lo: char, hi: char) -> bool {
    lo <= c && c <= hi
}

/// A month `01`-`12` at `i`.
pub open spec fn month_at(s: Seq<char>, i: int) -> bool {
    (ch(s, i) == '0' && in_range(ch(s, i + 1), '1', '9')) || (ch(s, i) == '1' && in_range(
        ch(s, i + 1),
        '0',
        '2',
    ))
}

/// A day `01`-`31` at `i`.
pub open spec fn day_at(s: Seq<char>, i: int) -> bool {
    (ch(s, i) == '0' && in_range(ch(s, i + 1), '1', '9')) || (in_range(ch(s, i), '1', '2')
        && dig(s, i + 1)) || (ch(s, i) == '3' && in_range(ch(s, i + 1), '0', '1'))
}

/// An hour `00`-`23` at `i`.
pub open spec fn hour_at(s: Seq<char>, i: int) -> bool {
    (in_range(ch(s, i), '0', '1') && dig(s, i + 1)) || (ch(s, i) == '2' && in_range(
        ch(s, i + 1),
        '0',
        '3',
    ))
}

/// A minute `00`-`59` at `i`.
pub open spec fn minute_at(s: Seq<char>, i: int) -> bool {
    in_range(ch(s, i), '0', '5') && dig(s, i + 1)
}

/// A second `00`-`60` at `i` (`60` for a leap second).
pub open spec fn second_at(s: Seq<char>, i: int) -> bool {
    minute_at(s, i) || (ch(s, i) == '6' && ch(s, i + 1) == '0')
}

/// Past an optional `c` at `i`.
pub open spec fn opt_end(s: Seq<char>, i: int, c: char) -> int {
    if ch(s, i) == c {
        i + 1
    } else {
        i
    }
}

pub open spec fn two(s: Seq<char>, i: int) -> Seq<char> {
    s.subrange(i, i + 2)
}

/// The offset part of the RFC 3339 text for the zone that starts at `z` (`Z` where none is
/// given), and the position after it; `None` when something else stands there.
pub open spec fn zone_part(s: Seq<char>, z: int) -> (Seq<char>, int) {
    let c = ch(s, z);
    let has_off = (c == '+' || c == '-' || c as u32 == 0x2212) && dig(s, z + 1) && dig(s, z + 2);
    let m0 = opt_end(s, z + 3, ':');
    let has_min = has_off && dig(s, m0) && dig(s, m0 + 1);
    if c == 'Z' || c == 'z' {
        ("Z"@, z + 1)
    } else if has_off {
        (
            (if c == '+' {
                "+"@
            } else {
                "-"@
            }) + two(s, z + 1) + ":"@ + if has_min {
                two(s, m0)
            } else {
                "00"@
            },
            if has_min {
                m0 + 2
            } else {
                z + 3
            },
        )
    } else {
        ("Z"@, z)
    }
}

/// The date part of the RFC 3339 text for the date that starts at `start` (a four-digit year, then
/// an optional month and an optional day, each after an optional `-`; a month or day left out is
/// `01`), and the position after it.
pub open spec fn date_part(s: Seq<char>, start: int) -> (Seq<char>, int) {
    let a = opt_end(s, start + 4, '-');
    let has_mon = month_at(s, a);
    let b = if has_mon {
        a + 2
    } else {
        a
    };
    let c = opt_end(s, b, '-');
    let has_day = day_at(s, c);
    (
        s.subrange(start, start + 4) + "-"@ + (if has_mon {
            two(s, a)
        } else {
            "01"@
        }) + "-"@ + (if has_day {
            two(s, c)
        } else {
            "01"@
        }),
        if has_day {
            c + 2
        } else {
            c
        },
    )
}

/// The time part of the RFC 3339 text for what follows the date at `d`, and the position after
/// it. The time is optional and stands after `T`, `t` or whitespace: an hour, then an optional
/// minute and, after it, an optional second (each after an optional `:`), and after the second
/// an optional fraction after `.` or `,`. A part left out is `00`.
pub open spec fn time_part(s: Seq<char>, d: int) -> (Seq<char>, int) {
    let t0 = if ch(s, d) == 'T' || ch(s, d) == 't' {
        d + 1
    } else {
        span_end(s, d, Class::Space)
    };
    let has_time = t0 > d && hour_at(s, t0);
    let e = if has_time {
        t0 + 2
    } else {
        d
    };
    let m0 = opt_end(s, e, ':');
    let has_min = has_time && minute_at(s, m0);
    let f = if has_min {
        m0 + 2
    } else {
        e
    };
    let s0 = opt_end(s, f, ':');
    let has_sec = has_min && second_at(s, s0);
    let g = if has_sec {
        s0 + 2
    } else {
        f
    };
    let has_frac = has_sec && (ch(s, g) == '.' || ch(s, g) == ',') && dig(s, g + 1);
    let h = if has_frac {
        span_end(s, g + 1, Class::Digit)
    } else {
        g
    };
    (
        "T"@ + (if has_time {
            two(s, t0)
        } else {
            "00"@
        }) + ":"@ + (if has_min {
            two(s, m0)
        } else {
            "00"@
        }) + ":"@ + (if has_sec {
            two(s, s0)
        } else {
            "00"@
        }) + (if has_frac {
            "."@ + s.subrange(g + 1, h)
        } else {
            Seq::empty()
        }),
        h,
    )
}

/// The RFC 3339 text that a looser ISO 8601 timestamp stands for, or `None` when `s` is not one:
/// optional whitespace, a date, a time, optional whitespace, a zone, optional whitespace.
pub open spec fn iso_normal(s: Seq<char>) -> Option<Seq<char>> {
    let start = span_end(s, 0, Class::Space);
    let (date, d) = date_part(s, start);
    let (time, h) = time_part(s, d);
    let (zone, z1) = zone_part(s, span_end(s, h, Class::Space));
    if !(dig(s, start) && dig(s, start + 1) && dig(s, start + 2) && dig(s, start + 3)) || span_end(
        s,
        z1,
        Class::Space,
    ) != s.len() {
        None
    } else {
        Some(date + time + zone)
    }
}

fn ch_at(s: &Vec<char>, i: usize) -> (r: char)
    ensures
        r == ch(s@, i as int),
{
    if i < s.len() {
        s[i]
    } else {
        '\0'
    }
}

fn dig_at(s: &Vec<char>, i: usize) -> (r: bool)
    ensures
        r == dig(s@, i as int),
{
    let c = ch_at(s, i);
    '0' <= c && c <= '9'
}

/// Whether a two-character field at `i` is in `lo0 lo1 ..= hi0 hi1` per character, as the
/// spec predicates state them.
fn pair_at(s: &Vec<char>, i: usize, lo0: char, hi0: char, lo1: char, hi1: char) -> (r: bool)
    requires
        i < s.len(),
    ensures
        r == (in_range(ch(s@, i as int), lo0, hi0) && in_range(ch(s@, i + 1), lo1, hi1)),
{
    let c0 = ch_at(s, i);
    let c1 = ch_at(s, i + 1);
    lo0 <= c0 && c0 <= hi0 && lo1 <= c1 && c1 <= hi1
}

fn month_at_exec(s: &Vec<char>, i: usize) -> (r: bool)
    ensures
        r == month_at(s@, i as int),
{
    i < s.len() && (pair_at(s, i, '0', '0', '1', '9') || pair_at(s, i, '1', '1', '0', '2'))
}

fn day_at_exec(s: &Vec<char>, i: usize) -> (r: bool)
    ensures
        r == day_at(s@, i as int),
{
    i < s.len() && (pair_at(s, i, '0', '0', '1', '9') || pair_at(s, i, '1', '2', '0', '9')
        || pair_at(s, i, '3', '3', '0', '1'))
}

fn hour_at_exec(s: &Vec<char>, i: usize) -> (r: bool)
    ensures
        r == hour_at(s@, i as int),
{
    i < s.len() && (pair_at(s, i, '0', '1', '0', '9') || pair_at(s, i, '2', '2', '0', '3'))
}

fn minute_at_exec(s: &Vec<char>, i: usize) -> (r: bool)
    ensures
        r == minute_at(s@, i as int),
{
    i < s.len() && pair_at(s, i, '0', '5', '0', '9')
}

fn second_at_exec(s: &Vec<char>, i: usize) -> (r: bool)
    ensures
        r == second_at(s@, i as int),
{
    i < s.len() && (pair_at(s, i, '0', '5', '0', '9') || pair_at(s, i, '6', '6', '0', '0'))
}

fn opt_end_exec(s: &Vec<char>, i: usize, c: char) -> (r: usize)
    requires
        i <= s.len(),
        c != '\0',
    ensures
        r == opt_end(s@, i as int, c),
        r <= s.len(),
{
    if i < s.len() && s[i] == c {
        i + 1
    } else {
        i
    }
}

/// Appends the zone part; gives the position after it.
fn push_zone(out: &mut Vec<char>, s: &Vec<char>, z: usize) -> (r: usize)
    requires
        z <= s.len(),
    ensures
        final(out)@ == old(out)@ + zone_part(s@, z as int).0,
        r == zone_part(s@, z as int).1,
        r <= s.len(),
{
    let c = ch_at(s, z);
    let has_off = (c == '+' || c == '-' || c as u32 == 0x2212) && dig_at(s, z + 1) && dig_at(
        s,
        z + 2,
    );
    if c == 'Z' || c == 'z' {
        push_str(out, "Z");
        z + 1
    } else if has_off {
        let m0 = opt_end_exec(s, z + 3, ':');
        let has_min = dig_at(s, m0) && dig_at(s, m0 + 1);
        if c == '+' {
            push_str(out, "+");
        } else {
            push_str(out, "-");
        }
        push_range(out, s, z + 1, z + 3);
        push_str(out, ":");
        if has_min {
            push_range(out, s, m0, m0 + 2);
        } else {
            push_str(out, "00");
        }
        proof {
            let zp = zone_part(s@, z as int);
            assert(final(out)@ =~= old(out)@ + zp.0);
        }
        if has_min {
            m0 + 2
        } else {
            z + 3
        }
    } else {
        push_str(out, "Z");
        z
    }
}

/// Appends the date part for the date at `start`; gives the position after it.
fn push_date(out: &mut Vec<char>, s: &Vec<char>, start: usize) -> (r: usize)
    requires
        start + 4 <= s.len(),
    ensures
        final(out)@ == old(out)@ + date_part(s@, start as int).0,
        r == date_part(s@, start as int).1,
        r <= s.len(),
{
    let a = opt_end_exec(s, start + 4, '-');
    let has_mon = month_at_exec(s, a);
    let b = if has_mon {
        a + 2
    } else {
        a
    };
    let c = opt_end_exec(s, b, '-');
    let has_day = day_at_exec(s, c);
    push_range(out, s, start, start + 4);
    push_str(out, "-");
    if has_mon {
        push_range(out, s, a, a + 2);
    } else {
        push_str(out, "01");
    }
    push_str(out, "-");
    if has_day {
        push_range(out, s, c, c + 2);
    } else {
        push_str(out, "01");
    }
    assert(final(out)@ =~= old(out)@ + date_part(s@, start as int).0);
    if has_day {
        c + 2
    } else {
        c
    }
}

/// Appends the time part for what follows the date at `d`; gives the position after it.
#[verifier::rlimit(60)]
fn push_time(out: &mut Vec<char>, s: &Vec<char>, d: usize) -> (r: usize)
    requires
        d <= s.len(),
    ensures
        final(out)@ == old(out)@ + time_part(s@, d as int).0,
        r == time_part(s@, d as int).1,
        r <= s.len(),
{
    let cd = ch_at(s, d);
    let t0 = if cd == 'T' || cd == 't' {
        d + 1
    } else {
        skip_class(s, d, Class::Space)
    };
    let has_time = t0 > d && hour_at_exec(s, t0);
    let e = if has_time {
        t0 + 2
    } else {
        d
    };
    let m0 = opt_end_exec(s, e, ':');
    let has_min = has_time && minute_at_exec(s, m0);
    let f = if has_min {
        m0 + 2
    } else {
        e
    };
    let s0 = opt_end_exec(s, f, ':');
    let has_sec = has_min && second_at_exec(s, s0);
    let g = if has_sec {
        s0 + 2
    } else {
        f
    };
    let cg = ch_at(s, g);
    let has_frac = has_sec && (cg == '.' || cg == ',') && dig_at(s, g + 1);
    let h = if has_frac {
        skip_class(s, g + 1, Class::Digit)
    } else {
        g
    };
    let ghost hour_text = if has_time { two(s@, t0 as int) } else { "00"@ };
    let ghost min_text = if has_min { two(s@, m0 as int) } else { "00"@ };
    let ghost sec_text = if has_sec { two(s@, s0 as int) } else { "00"@ };
    let ghost frac_text = if has_frac { "."@ + s@.subrange(g + 1, h as int) } else { Seq::empty() };
    assert(time_part(s@, d as int) == ("T"@ + hour_text + ":"@ + min_text + ":"@ + sec_text
        + frac_text, h as int));
    push_str(out, "T");
    if has_time {
        push_range(out, s, t0, t0 + 2);
    } else {
        push_str(out, "00");
    }
    push_str(out, ":");
    if has_min {
        push_range(out, s, m0, m0 + 2);
    } else {
        push_str(out, "00");
    }
    push_str(out, ":");
    if has_sec {
        push_range(out, s, s0, s0 + 2);
    } else {
        push_str(out, "00");
    }
    let ghost mid = out@;
    assert(mid =~= old(out)@ + "T"@ + hour_text + ":"@ + min_text + ":"@ + sec_text);
    if has_frac {
        push_str(out, ".");
        push_range(out, s, g + 1, h);
    }
    assert(final(out)@ =~= mid + frac_text);
    assert(final(out)@ =~= old(out)@ + time_part(s@, d as int).0);
    h
}

/// The RFC 3339 text that the looser ISO 8601 timestamp `text` stands for, or `None` when
/// `text` is not one (see `iso_normal`).
pub fn iso_normalize(text: &str) -> (r: Option<String>)
    ensures
        match iso_normal(text@) {
            None => r is None,
            Some(t) => r matches Some(x) && x@ == t,
        },
{
    let s = chars_of(text);
    let start = skip_class(&s, 0, Class::Space);
    if !(s.len() - start > 3 && dig_at(&s, start) && dig_at(&s, start + 1) && dig_at(&s, start + 2) && dig_at(
        &s,
        start + 3,
    )) {
        return None;
    }
    let mut out: Vec<char> = Vec::new();
    let d = push_date(&mut out, &s, start);
    let h = push_time(&mut out, &s, d);
    let z = skip_class(&s, h, Class::Space);
    let z1 = push_zone(&mut out, &s, z);
    let end = skip_class(&s, z1, Class::Space);
    if end != s.len() {
        return None;
    }
    proof {
        let t = iso_normal(text@)->Some_0;
        assert(out@ =~= t);
    }
    Some(string_of(&out))
}

/// The message of a text that is no timestamp.
pub open spec fn no_timestamp_message(s: Seq<char>) -> Seq<char> {
    "Failed to find ISO 3339 or RFC 8601 timestamp in "@ + debug_quoted(s)
}

/// The message of a looser timestamp whose RFC 3339 form is no valid timestamp.
pub open spec fn invalid_timestamp_message(t: Seq<char>, s: Seq<char>) -> Seq<char> {
    "Attempting to convert RFC 3339 timestamp "@ + debug_quoted(t) + " from ISO 8601 "@
        + debug_quoted(s) + " to a DateTime"@
}

/// What reading `s` gives: its RFC 3339 meaning; failing that, the RFC 3339 meaning of its
/// looser form; failing that, an error.
pub open spec fn iso_parse_spec(s: Seq<char>, r: Result<Iso8601, HolochainError>) -> bool {
    &&& r matches Ok(x) ==> x.wf()
    &&& r matches Ok(x) ==> rfc3339_of(rfc3339_text_of(x@.0, x@.1, x@.2)) == Some(x@)
    &&& match rfc3339_of(s) {
        Some(v) => r matches Ok(x) && x@ == v,
        None => match iso_normal(s) {
            None => r matches Err(HolochainError::ErrorGeneric(m)) && m@ == no_timestamp_message(
                s,
            ),
            Some(t) => match rfc3339_of(t) {
                Some(v) => r matches Ok(x) && x@ == v,
                None => r matches Err(HolochainError::ErrorGeneric(m)) && m@
                    == invalid_timestamp_message(t, s),
            },
        },
    }
}

/// The order of two moments.
pub open spec fn moment_cmp(a: (int, int, int), b: (int, int, int)) -> Ordering {
    if before(a, b) {
        Ordering::Less
    } else if before(b, a) {
        Ordering::Greater
    } else {
        Ordering::Equal
    }
}

impl Iso8601 {
    /// The text held is the RFC 3339 spelling of the moment in the offset.
    pub closed spec fn wf(&self) -> bool {
        self.text@ == rfc3339_text_of(self@.0, self@.1, self@.2)
    }

    /// The instant `secs` seconds after 1970-01-01T00:00:00Z, in UTC. Infallible over the whole
    /// range that chrono's `DateTime` holds, which is narrower than `i64`.
    pub fn from_timestamp(secs: i64) -> (r: Iso8601)
        requires
            MIN_TIMESTAMP <= secs <= MAX_TIMESTAMP,
        ensures
            r@ == (secs as int, 0int, 0int),
            r.wf(),
    {
        utc_at(secs)
    }

    /// The instant that `text` spells in RFC 3339 or in the looser ISO 8601 form.
    pub fn from_str(text: &str) -> (r: Result<Iso8601, HolochainError>)
        ensures
            iso_parse_spec(text@, r),
    {
        proof {
            reveal_strlit("Failed to find ISO 3339 or RFC 8601 timestamp in ");
            reveal_strlit("Attempting to convert RFC 3339 timestamp ");
            reveal_strlit(" from ISO 8601 ");
            reveal_strlit(" to a DateTime");
        }
        match parse_rfc3339(text) {
            Some(v) => Ok(v),
            None => match iso_normalize(text) {
                None => Err(error_with("Failed to find ISO 3339 or RFC 8601 timestamp in ", text)),
                Some(t) => match parse_rfc3339(t.as_str()) {
                    Some(v) => Ok(v),
                    None => {
                        let mut m: Vec<char> = Vec::new();
                        push_str(&mut m, "Attempting to convert RFC 3339 timestamp ");
                        push_quoted(&mut m, t.as_str());
                        push_str(&mut m, " from ISO 8601 ");
                        push_quoted(&mut m, text);
                        push_str(&mut m, " to a DateTime");
                        Err(HolochainError::ErrorGeneric(string_of(&m)))
                    },
                },
            },
        }
    }

    /// The same as `from_str`.
    pub fn try_from(text: &str) -> (r: Result<Iso8601, HolochainError>)
        ensures
            iso_parse_spec(text@, r),
    {
        Iso8601::from_str(text)
    }

    /// The RFC 3339 spelling, in the instant's own offset.
    pub fn to_string(&self) -> (r: String)
        requires
            self.wf(),
        ensures
            r@ == rfc3339_text_of(self@.0, self@.1, self@.2),
    {
        self.text.clone()
    }

    /// `Iso8601(...)` around the RFC 3339 spelling.
    pub fn debug_string(&self) -> (r: String)
        requires
            self.wf(),
        ensures
            r@ == "Iso8601("@ + rfc3339_text_of(self@.0, self@.1, self@.2) + ")"@,
    {
        let mut out: Vec<char> = Vec::new();
        push_str(&mut out, "Iso8601(");
        let t = self.to_string();
        push_string(&mut out, &t);
        push_str(&mut out, ")");
        string_of(&out)
    }

    /// Orders two instants by their moments.
    pub fn cmp(&self, other: &Iso8601) -> (r: Ordering)
        ensures
            r == moment_cmp(self@, other@),
    {
        if self.secs < other.secs || (self.secs == other.secs && self.nanos < other.nanos) {
            Ordering::Less
        } else if self.secs > other.secs || (self.secs == other.secs && self.nanos > other.nanos) {
            Ordering::Greater
        } else {
            Ordering::Equal
        }
    }
}

/// A fixed instant, 2018-10-11T03:23:38+00:00, for examples and tests.
pub fn test_iso_8601() -> (r: Iso8601)
    ensures
        r@ == (1539228218int, 0int, 0int),
        r.wf(),
{
    Iso8601::from_timestamp(1539228218)
}

/// Instants compare by moment alone: they are equal exactly when they denote the same moment,
/// whatever their offsets, and otherwise one comes strictly before the other; the order is
/// transitive, so sorting orders them by moment.
pub proof fn law_order_by_moment(a: Iso8601, b: Iso8601, c: Iso8601)
    ensures
        a.eq_spec(&b) <==> same_moment(a@, b@),
        a.partial_cmp_spec(&b) == Some(Ordering::Equal) <==> same_moment(a@, b@),
        a.partial_cmp_spec(&b) == Some(Ordering::Less) <==> before(a@, b@),
        a.partial_cmp_spec(&b) == Some(Ordering::Greater) <==> before(b@, a@),
        same_moment(a@, b@) || before(a@, b@) || before(b@, a@),
        !(before(a@, b@) && before(b@, a@)),
        before(a@, b@) && before(b@, c@) ==> before(a@, c@),
{
}

/// Canonicalization is a fixed point: an instant read from any text, written in RFC 3339 form and
/// read again, gives the same moment in the same offset, and so the same text.
pub proof fn law_instant_round_trip(t: Seq<char>, v: Iso8601, w: Iso8601)
    requires
        iso_parse_spec(t, Ok(v)),
        iso_parse_spec(rfc3339_text_of(v@.0, v@.1, v@.2), Ok(w)),
    ensures
        w@ == v@,
        rfc3339_text_of(w@.0, w@.1, w@.2) == rfc3339_text_of(v@.0, v@.1, v@.2),
{
}

impl From<i32> for Iso8601 {
    /// The instant `secs` seconds after the epoch, in UTC: every `i32` is in range.
    fn from(secs: i32) -> (r: Iso8601)
        ensures
            r@ == (secs as int, 0int, 0int),
            r.wf(),
    {
        Iso8601::from_timestamp(secs as i64)
    }
}

impl vstd::std_specs::convert::FromSpecImpl<i32> for Iso8601 {
    open spec fn obeys_from_spec() -> bool {
        false
    }

    closed spec fn from_spec(secs: i32) -> Iso8601 {
        arbitrary()
    }
}

impl From<u32> for Iso8601 {
    /// The instant `secs` seconds after the epoch, in UTC: every `u32` is in range.
    fn from(secs: u32) -> (r: Iso8601)
        ensures
            r@ == (secs as int, 0int, 0int),
            r.wf(),
    {
        Iso8601::from_timestamp(secs as i64)
    }
}

impl vstd::std_specs::convert::FromSpecImpl<u32> for Iso8601 {
    open spec fn obeys_from_spec() -> bool {
        false
    }

    closed spec fn from_spec(secs: u32) -> Iso8601 {
        arbitrary()
    }
}

impl PartialEq for Iso8601 {
    fn eq(&self, other: &Iso8601) -> (r: bool) {
        self.secs == other.secs && self.nanos == other.nanos
    }
}

impl vstd::std_specs::cmp::PartialEqSpecImpl for Iso8601 {
    open spec fn obeys_eq_spec() -> bool {
        true
    }

    open spec fn eq_spec(&self, other: &Iso8601) -> bool {
        same_moment(self@, other@)
    }
}

impl Eq for Iso8601 {

}

impl PartialOrd for Iso8601 {
    fn partial_cmp(&self, other: &Iso8601) -> (r: Option<Ordering>) {
        Some(self.cmp(other))
    }
}

impl vstd::std_specs::cmp::PartialOrdSpecImpl for Iso8601 {
    open spec fn obeys_partial_cmp_spec() -> bool {
        true
    }

    open spec fn partial_cmp_spec(&self, other: &Iso8601) -> Option<Ordering> {
        Some(moment_cmp(self@, other@))
    }
}

} // verus!
