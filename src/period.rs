//! `Period`: an elapsed duration in seconds and nanoseconds, with its text grammar and its
//! canonical spelling.
use vstd::prelude::*;

use crate::error::{debug_quoted, error_with, push_quoted, HolochainError};
use crate::text::{
    char_of_digit, chars_of, decimal, digit_char, digits_value, is_digit, lemma_span_end_bounds, push_decimal,
    push_range, push_str, push_string, range_is, read_digits, skip_class, span_end, string_of, Class,
};

verus! {

/// Seconds in a year of 365.25 days.
pub const YR: u64 = 31_557_600;

/// Seconds in a week.
pub const WK: u64 = 604_800;

/// Seconds in a day.
pub const DY: u64 = 86_400;

/// Seconds in an hour.
pub const HR: u64 = 3_600;

/// Seconds in a minute.
pub const MN: u64 = 60;

/// Nanoseconds in a second.
pub const NANOS_PER_SEC: u64 = 1_000_000_000;

/// An elapsed duration: whole seconds and a nanosecond remainder below one second.
#[derive(Clone, Copy, Debug, PartialEq, Eq, Structural, Hash)]
pub struct Period {
    secs: u64,
    nanos: u32,
}

impl View for Period {
    /// Whole seconds and the nanosecond remainder.
    type V = (nat, nat);

    closed spec fn view(&self) -> (nat, nat) {
        (self.secs as nat, self.nanos as nat)
    }
}

// ---------------------------------------------------------------------------------------------
// The canonical spelling.

/// `n` followed by its unit letter, or nothing when `n` is zero.
#[verifier::opaque]
pub open spec fn unit_text(n: nat, unit: char) -> Seq<char> {
    if n > 0 {
        decimal(n).push(unit)
    } else {
        Seq::empty()
    }
}

/// The last `width` decimal digits of `n`, with leading zeros.
pub open spec fn fixed_digits(n: nat, width: nat) -> Seq<char>
    decreases width,
{
    if width == 0 {
        Seq::empty()
    } else {
        fixed_digits(n / 10, (width - 1) as nat).push(digit_char(n % 10))
    }
}

/// `s` without its trailing zeros.
pub open spec fn trim_zeros(s: Seq<char>) -> Seq<char>
    decreases s.len(),
{
    if s.len() > 0 && s.last() == '0' {
        trim_zeros(s.drop_last())
    } else {
        s
    }
}

/// The part after the minutes: whole seconds `s` (of `secs` in all) and nanoseconds `ns`.
#[verifier::opaque]
pub open spec fn seconds_text(secs: nat, s: nat, ns: nat) -> Seq<char> {
    let is_ns = ns % 1000 > 0;
    let is_us = (ns / 1000) % 1000 > 0;
    let is_ms = ns / 1_000_000 > 0;
    if (s > 0 && is_ms) || (is_ms && is_ns) {
        decimal(s) + seq!['.'] + trim_zeros(fixed_digits(ns, 9)) + seq!['s']
    } else if ns > 0 || s > 0 {
        unit_text(s, 's') + if is_ns {
            decimal(ns) + seq!['n', 's']
        } else if is_us {
            decimal(ns / 1000) + seq!['u', 's']
        } else if is_ms {
            decimal(ns / 1_000_000) + seq!['m', 's']
        } else {
            Seq::empty()
        }
    } else if secs == 0 {
        seq!['0', 's']
    } else {
        Seq::empty()
    }
}

/// The canonical spelling of `secs` seconds and `ns` nanoseconds: years, weeks, days, hours and
/// minutes by successive division, zero units left out, then the seconds.
#[verifier::opaque]
pub open spec fn period_text(secs: nat, ns: nat) -> Seq<char> {
    let y = secs / YR as nat;
    let r_y = secs % YR as nat;
    let w = r_y / WK as nat;
    let r_w = r_y % WK as nat;
    let d = r_w / DY as nat;
    let r_d = r_w % DY as nat;
    let h = r_d / HR as nat;
    let r_h = r_d % HR as nat;
    let m = r_h / MN as nat;
    let s = r_h % MN as nat;
    unit_text(y, 'y') + unit_text(w, 'w') + unit_text(d, 'd') + unit_text(h, 'h') + unit_text(
        m,
        'm',
    ) + seconds_text(secs, s, ns)
}

fn push_unit(out: &mut Vec<char>, n: u64, unit: char)
    ensures
        final(out)@ == old(out)@ + unit_text(n as nat, unit),
{
    reveal(unit_text);
    if n > 0 {
        push_decimal(out, n);
        out.push(unit);
    }
    assert(final(out)@ =~= old(out)@ + unit_text(n as nat, unit));
}

fn push_fixed(out: &mut Vec<char>, n: u64, width: u64)
    ensures
        final(out)@ == old(out)@ + fixed_digits(n as nat, width as nat),
    decreases width,
{
    if width > 0 {
        push_fixed(out, n / 10, width - 1);
        let c = char_of_digit((n % 10) as u32);
        out.push(c);
    }
    assert(final(out)@ =~= old(out)@ + fixed_digits(n as nat, width as nat));
}

fn trim_trailing_zeros(v: &mut Vec<char>)
    ensures
        final(v)@ == trim_zeros(old(v)@),
{
    while v.len() > 0 && v[v.len() - 1] == '0'
        invariant
            trim_zeros(v@) == trim_zeros(old(v)@),
        decreases v.len(),
    {
        v.pop();
    }
}

// ---------------------------------------------------------------------------------------------
// The grammar.

/// Case folding of the characters that may spell a unit.
pub open spec fn fold(c: char) -> char {
    let u = c as u32;
    if 0x41 <= u && u <= 0x5a {
        ((u + 32) as u32) as char
    } else if u == 0x39c || u == 0xb5 {
        '\u{3bc}'
    } else if u == 0x212a {
        'k'
    } else if u == 0x17f {
        's'
    } else {
        c
    }
}

pub open spec fn folded(w: Seq<char>) -> Seq<char> {
    w.map_values(|c: char| fold(c))
}

pub open spec fn tail(w: Seq<char>, k: int) -> Seq<char> {
    w.subrange(k, w.len() as int)
}

/// `s`, `sec`, `second`, singular or plural.
pub open spec fn is_sec_word(w: Seq<char>) -> bool {
    w == "s"@ || w == "sec"@ || w == "secs"@ || w == "second"@ || w == "seconds"@
}

/// A seconds word after one of the prefixes `short` or `long` (a sub-second unit).
pub open spec fn is_prefixed_sec(w: Seq<char>, short: Seq<char>, long: Seq<char>) -> bool {
    (w.len() >= short.len() && w.subrange(0, short.len() as int) == short && is_sec_word(
        tail(w, short.len() as int),
    )) || (w.len() >= long.len() && w.subrange(0, long.len() as int) == long && is_sec_word(
        tail(w, long.len() as int),
    ))
}

/// The rank of a (case-folded) unit word, largest unit first: years 0, weeks 1, days 2,
/// hours 3, minutes 4, seconds 5, milliseconds 6, microseconds 7, nanoseconds 8; -1 for a
/// word that names no unit.
#[verifier::opaque]
pub open spec fn unit_rank(w: Seq<char>) -> int {
    if w == "y"@ || w == "yr"@ || w == "yrs"@ || w == "year"@ || w == "years"@ {
        0
    } else if w == "w"@ || w == "wk"@ || w == "wks"@ || w == "week"@ || w == "weeks"@ {
        1
    } else if w == "d"@ || w == "dy"@ || w == "dys"@ || w == "day"@ || w == "days"@ {
        2
    } else if w == "h"@ || w == "hr"@ || w == "hrs"@ || w == "hour"@ || w == "hours"@ {
        3
    } else if w == "m"@ || w == "min"@ || w == "mins"@ || w == "minute"@ || w == "minutes"@ {
        4
    } else if is_sec_word(w) {
        5
    } else if is_prefixed_sec(w, "m"@, "milli"@) {
        6
    } else if is_prefixed_sec(w, "u"@, "micro"@) || is_prefixed_sec(w, "\u{3bc}"@, "micro"@) {
        7
    } else if is_prefixed_sec(w, "n"@, "nano"@) {
        8
    } else {
        -1
    }
}

/// Seconds per unit of each rank (zero for the sub-second units).
pub open spec fn sec_weight(rank: int) -> nat {
    if rank == 0 {
        YR as nat
    } else if rank == 1 {
        WK as nat
    } else if rank == 2 {
        DY as nat
    } else if rank == 3 {
        HR as nat
    } else if rank == 4 {
        MN as nat
    } else if rank == 5 {
        1
    } else {
        0
    }
}

/// Nanoseconds per unit of each rank (zero for the units of a second or more).
pub open spec fn nano_weight(rank: int) -> nat {
    if rank == 6 {
        1_000_000
    } else if rank == 7 {
        1_000
    } else if rank == 8 {
        1
    } else {
        0
    }
}

/// Fractional digits cut or right-padded with zeros to nine places.
pub open spec fn nine_digits(f: Seq<char>) -> Seq<char> {
    if f.len() >= 9 {
        f.subrange(0, 9)
    } else {
        f + Seq::new((9 - f.len()) as nat, |_k: int| '0')
    }
}

/// Whether `s[i]` is a decimal point (`.` or `,`).
pub open spec fn point_at(s: Seq<char>, i: int) -> bool {
    0 <= i < s.len() && (s[i] == '.' || s[i] == ',')
}

/// The term that starts at `i`: a number, optional whitespace and a unit word. Gives the unit's
/// rank, the whole number, the fraction in nanoseconds when the number has a decimal point, and
/// the position after the whitespace that follows the word.
pub open spec fn term_at(s: Seq<char>, i: int) -> Option<(int, nat, Option<nat>, int)> {
    let a = span_end(s, i, Class::Digit);
    let has_point = point_at(s, a);
    let b = if has_point {
        span_end(s, a + 1, Class::Digit)
    } else {
        a
    };
    let c = span_end(s, b, Class::Space);
    let e = span_end(s, c, Class::Word);
    let rank = unit_rank(folded(s.subrange(c, e)));
    if rank < 0 || (has_point && (b == a + 1 || rank != 5)) || (!has_point && a == i) {
        None
    } else {
        Some(
            (
                rank,
                digits_value(s.subrange(i, a)),
                if has_point {
                    Some(digits_value(nine_digits(s.subrange(a + 1, b))))
                } else {
                    None
                },
                span_end(s, e, Class::Space),
            ),
        )
    }
}

/// Reads the terms from position `i` on, after a term of rank `last`, with `secs` seconds and
/// `nanos` nanoseconds summed so far. Units must come in strictly descending size, and a
/// fractional seconds term ends the sequence. Gives the totals, or `None` where the text is
/// not a period.
pub open spec fn scan(s: Seq<char>, i: int, last: int, secs: nat, nanos: nat, any: bool) -> Option<
    (nat, nat),
>
    decreases s.len() - i,
{
    let j = span_end(s, i, Class::Space);
    if i < 0 || j >= s.len() {
        if any && i >= 0 {
            Some((secs, nanos))
        } else {
            None
        }
    } else {
        match term_at(s, j) {
            None => None,
            Some((rank, whole, frac, next)) => {
                if rank <= last || next <= i || next > s.len() {
                    None
                } else {
                    scan(
                        s,
                        next,
                        if frac is Some {
                            8
                        } else {
                            rank
                        },
                        secs + sec_weight(rank) * whole,
                        nanos + nano_weight(rank) * whole + match frac {
                            Some(f) => f,
                            None => 0,
                        },
                        true,
                    )
                }
            },
        }
    }
}

/// The total seconds and nanoseconds that `s` spells, or `None` where `s` is not a period.
pub open spec fn period_totals(s: Seq<char>) -> Option<(nat, nat)> {
    scan(s, 0, -1, 0, 0, false)
}

/// Whether the totals fit: each sum in 64 bits, and the seconds after carrying whole seconds
/// out of the nanoseconds.
pub open spec fn totals_fit(secs: nat, nanos: nat) -> bool {
    secs <= u64::MAX && nanos <= u64::MAX && secs + nanos / (NANOS_PER_SEC as nat) <= u64::MAX
}

/// The message of a text that is not a period.
pub open spec fn no_period_message(s: Seq<char>) -> Seq<char> {
    "Failed to find Period specification in "@ + debug_quoted(s)
}

/// The rank of the first term after which the seconds or the nanoseconds summed so far exceed
/// 64 bits, reading as `scan` does; -1 where none does.
pub open spec fn first_overflow(s: Seq<char>, i: int, last: int, secs: nat, nanos: nat) -> int
    decreases s.len() - i,
{
    let j = span_end(s, i, Class::Space);
    if i < 0 || j >= s.len() {
        -1
    } else {
        match term_at(s, j) {
            None => -1,
            Some((rank, whole, frac, next)) => {
                if rank <= last || next <= i || next > s.len() {
                    -1
                } else {
                    let secs2 = secs + sec_weight(rank) * whole;
                    let nanos2 = nanos + nano_weight(rank) * whole + match frac {
                        Some(f) => f,
                        None => 0,
                    };
                    if secs2 > u64::MAX || nanos2 > u64::MAX {
                        rank
                    } else {
                        first_overflow(
                            s,
                            next,
                            if frac is Some {
                                8
                            } else {
                                rank
                            },
                            secs2,
                            nanos2,
                        )
                    }
                }
            },
        }
    }
}

/// The unit whose term overflowed, or the seconds where only carrying whole seconds out of the
/// nanoseconds does.
pub open spec fn overflow_field(s: Seq<char>) -> int {
    let r = first_overflow(s, 0, -1, 0, 0);
    if r >= 0 {
        r
    } else {
        5
    }
}

/// The name of the unit of each rank.
pub open spec fn unit_name(rank: int) -> Seq<char> {
    if rank == 0 {
        "years"@
    } else if rank == 1 {
        "weeks"@
    } else if rank == 2 {
        "days"@
    } else if rank == 3 {
        "hours"@
    } else if rank == 4 {
        "minutes"@
    } else if rank == 5 {
        "seconds"@
    } else if rank == 6 {
        "milliseconds"@
    } else if rank == 7 {
        "microseconds"@
    } else {
        "nanoseconds"@
    }
}

/// The message of a period too long to hold: it names the unit that overflowed and the text.
pub open spec fn overflow_message(s: Seq<char>) -> Seq<char> {
    "Overflow of "@ + unit_name(overflow_field(s)) + " in period "@ + debug_quoted(s)
}

/// What parsing `s` gives: the period with nanoseconds carried into seconds, or an error.
pub open spec fn parse_spec(s: Seq<char>, r: Result<Period, HolochainError>) -> bool {
    match period_totals(s) {
        None => r matches Err(HolochainError::ErrorGeneric(m)) && m@ == no_period_message(s),
        Some((secs, nanos)) => if totals_fit(secs, nanos) {
            r matches Ok(p) && p@ == (
                (secs + nanos / (NANOS_PER_SEC as nat)) as nat,
                nanos % (NANOS_PER_SEC as nat),
            )
        } else {
            r matches Err(HolochainError::ErrorGeneric(m)) && m@ == overflow_message(s)
        },
    }
}

/// Formatting depends on the value alone: two periods with the same value, or one period
/// formatted twice, give the same text.
pub proof fn law_format_is_function(p: Period, q: Period)
    requires
        p@ == q@,
    ensures
        period_text(p@.0, p@.1) == period_text(q@.0, q@.1),
{
}

fn unit_name_of(rank: u64) -> (r: &'static str)
    ensures
        r@ == unit_name(rank as int),
{
    if rank == 0 {
        "years"
    } else if rank == 1 {
        "weeks"
    } else if rank == 2 {
        "days"
    } else if rank == 3 {
        "hours"
    } else if rank == 4 {
        "minutes"
    } else if rank == 5 {
        "seconds"
    } else if rank == 6 {
        "milliseconds"
    } else if rank == 7 {
        "microseconds"
    } else {
        "nanoseconds"
    }
}

/// The error for a period too long to hold, naming the unit of rank `rank`.
fn overflow_error(rank: u64, text: &str) -> (r: HolochainError)
    ensures
        r matches HolochainError::ErrorGeneric(m) && m@ == "Overflow of "@ + unit_name(rank as int)
            + " in period "@ + debug_quoted(text@),
{
    let mut v: Vec<char> = Vec::new();
    push_str(&mut v, "Overflow of ");
    push_str(&mut v, unit_name_of(rank));
    push_str(&mut v, " in period ");
    push_quoted(&mut v, text);
    HolochainError::ErrorGeneric(string_of(&v))
}

/// One term as read: its rank, its whole number and fraction (`None` where the number exceeds
/// 64 bits) and where the next term may start.
struct ReadTerm {
    rank: u64,
    whole: Option<u64>,
    has_frac: bool,
    frac: Option<u64>,
    next: usize,
}

fn fold_char(c: char) -> (r: char)
    ensures
        r == fold(c),
{
    let u = c as u32;
    if 0x41 <= u && u <= 0x5a {
        let l = (c as u8) + 32;
        assert((l as char) as u32 == u + 32);
        l as char
    } else if u == 0x39c || u == 0xb5 {
        '\u{3bc}'
    } else if u == 0x212a {
        'k'
    } else if u == 0x17f {
        's'
    } else {
        c
    }
}

fn is_sec_tail(w: &Vec<char>, k: usize) -> (r: bool)
    requires
        k <= w.len(),
    ensures
        r == is_sec_word(tail(w@, k as int)),
{
    let n = w.len();
    range_is(w, k, n, "s") || range_is(w, k, n, "sec") || range_is(w, k, n, "secs") || range_is(
        w,
        k,
        n,
        "second",
    ) || range_is(w, k, n, "seconds")
}

fn is_prefixed(w: &Vec<char>, short: &str, long: &str) -> (r: bool)
    ensures
        r == is_prefixed_sec(w@, short@, long@),
{
    let ns = short.unicode_len();
    let nl = long.unicode_len();
    (w.len() >= ns && range_is(w, 0, ns, short) && is_sec_tail(w, ns)) || (w.len() >= nl
        && range_is(w, 0, nl, long) && is_sec_tail(w, nl))
}

fn is_one_of(w: &Vec<char>, a: &str, b: &str, c: &str, d: &str, e: &str) -> (r: bool)
    ensures
        r == (w@ == a@ || w@ == b@ || w@ == c@ || w@ == d@ || w@ == e@),
{
    let n = w.len();
    proof {
        assert(w@.subrange(0, n as int) =~= w@);
    }
    range_is(w, 0, n, a) || range_is(w, 0, n, b) || range_is(w, 0, n, c) || range_is(w, 0, n, d)
        || range_is(w, 0, n, e)
}

fn rank_of(w: &Vec<char>) -> (r: i64)
    ensures
        r == unit_rank(w@),
        -1 <= r <= 8,
{
    reveal(unit_rank);
    assert(tail(w@, 0) =~= w@);
    if is_one_of(w, "y", "yr", "yrs", "year", "years") {
        0
    } else if is_one_of(w, "w", "wk", "wks", "week", "weeks") {
        1
    } else if is_one_of(w, "d", "dy", "dys", "day", "days") {
        2
    } else if is_one_of(w, "h", "hr", "hrs", "hour", "hours") {
        3
    } else if is_one_of(w, "m", "min", "mins", "minute", "minutes") {
        4
    } else if is_sec_tail(w, 0) {
        5
    } else if is_prefixed(w, "m", "milli") {
        6
    } else if is_prefixed(w, "u", "micro") || is_prefixed(w, "\u{3bc}", "micro") {
        7
    } else if is_prefixed(w, "n", "nano") {
        8
    } else {
        -1
    }
}

/// The case-folded word `s[c..e]`.
fn folded_word(s: &Vec<char>, c: usize, e: usize) -> (r: Vec<char>)
    requires
        c <= e <= s.len(),
    ensures
        r@ == folded(s@.subrange(c as int, e as int)),
{
    let mut w: Vec<char> = Vec::new();
    let mut k: usize = c;
    while k < e
        invariant
            c <= k <= e <= s.len(),
            w@ == folded(s@.subrange(c as int, k as int)),
        decreases e - k,
    {
        w.push(fold_char(s[k]));
        k = k + 1;
        assert(w@ =~= folded(s@.subrange(c as int, k as int)));
    }
    w
}

/// The fraction `s[a..b]` cut or padded to nine digits.
fn nine_of(s: &Vec<char>, a: usize, b: usize) -> (r: Vec<char>)
    requires
        a <= b <= s.len(),
    ensures
        r@ == nine_digits(s@.subrange(a as int, b as int)),
{
    let ghost f = s@.subrange(a as int, b as int);
    let mut v: Vec<char> = Vec::new();
    let mut k: usize = 0;
    while k < 9
        invariant
            a <= b <= s.len(),
            f == s@.subrange(a as int, b as int),
            k <= 9,
            v@ == nine_digits(f).subrange(0, k as int),
        decreases 9 - k,
    {
        if k < b - a {
            v.push(s[a + k]);
        } else {
            v.push('0');
        }
        k = k + 1;
        assert(v@ =~= nine_digits(f).subrange(0, k as int));
    }
    assert(v@ =~= nine_digits(f));
    v
}

fn read_term(s: &Vec<char>, i: usize) -> (r: Option<ReadTerm>)
    requires
        i <= s.len(),
    ensures
        match r {
            None => term_at(s@, i as int) is None,
            Some(t) => match term_at(s@, i as int) {
                Some((rank, whole, frac, next)) => {
                    &&& t.rank == rank
                    &&& t.next == next
                    &&& t.next <= s.len()
                    &&& (t.whole matches Some(v) ==> v == whole)
                    &&& (t.whole is None ==> whole > u64::MAX)
                    &&& t.has_frac == frac is Some
                    &&& (t.has_frac ==> t.rank == 5)
                    &&& 0 <= rank <= 8
                    &&& (frac matches Some(f) ==> (t.frac matches Some(v) ==> v == f) && (
                    t.frac is None ==> f > u64::MAX))
                },
                None => false,
            },
        },
{
    let a = skip_class(s, i, Class::Digit);
    proof {
        lemma_span_end_bounds(s@, i as int, Class::Digit);
    }
    let has_point = a < s.len() && (s[a] == '.' || s[a] == ',');
    let b = if has_point {
        skip_class(s, a + 1, Class::Digit)
    } else {
        a
    };
    proof {
        if has_point {
            lemma_span_end_bounds(s@, a + 1, Class::Digit);
        }
    }
    let c = skip_class(s, b, Class::Space);
    let e = skip_class(s, c, Class::Word);
    let w = folded_word(s, c, e);
    let rank = rank_of(&w);
    if rank < 0 || (has_point && (b == a + 1 || rank != 5)) || (!has_point && a == i) {
        return None;
    }
    let whole = read_digits(s, i, a);
    let frac = if has_point {
        let nine = nine_of(s, a + 1, b);
        proof {
            assert forall|j: int| 0 <= j < 9 implies is_digit(#[trigger] nine@[j]) by {
                let f = s@.subrange(a + 1, b as int);
                if j < f.len() {
                    assert(nine@[j] == s@[a + 1 + j]);
                }
            }
            assert(nine@.subrange(0, 9) =~= nine@);
        }
        read_digits(&nine, 0, 9)
    } else {
        None
    };
    let next = skip_class(s, e, Class::Space);
    Some(ReadTerm { rank: rank as u64, whole, has_frac: has_point, frac, next })
}

proof fn lemma_scan_grows(s: Seq<char>, i: int, last: int, secs: nat, nanos: nat, any: bool)
    ensures
        scan(s, i, last, secs, nanos, any) matches Some((ts, tn)) ==> ts >= secs && tn >= nanos,
    decreases s.len() - i,
{
    let j = span_end(s, i, Class::Space);
    if i >= 0 && j < s.len() {
        if let Some((rank, whole, frac, next)) = term_at(s, j) {
            if rank > last && next > i && next <= s.len() {
                lemma_scan_grows(
                    s,
                    next,
                    if frac is Some {
                        8
                    } else {
                        rank
                    },
                    secs + sec_weight(rank) * whole,
                    nanos + nano_weight(rank) * whole + match frac {
                        Some(f) => f,
                        None => 0,
                    },
                    true,
                );
            }
        }
    }
}

/// `acc + weight * x`, or `None` where it exceeds 64 bits.
fn add_weighted(acc: u64, weight: u64, x: Option<u64>, Ghost(xv): Ghost<nat>) -> (r: Option<u64>)
    requires
        weight >= 1,
        x matches Some(v) ==> v == xv,
        x is None ==> xv > u64::MAX,
    ensures
        r matches Some(v) ==> v == acc + weight * xv,
        r is None ==> acc + weight * xv > u64::MAX,
{
    proof {
        assert(weight * xv >= xv) by (nonlinear_arith)
            requires
                weight >= 1,
        ;
    }
    match x {
        None => None,
        Some(v) => match weight.checked_mul(v) {
            None => None,
            Some(p) => acc.checked_add(p),
        },
    }
}

fn weights(rank: u64) -> (r: (u64, u64))
    requires
        rank <= 8,
    ensures
        r.0 == sec_weight(rank as int),
        r.1 == nano_weight(rank as int),
{
    if rank == 0 {
        (YR, 0)
    } else if rank == 1 {
        (WK, 0)
    } else if rank == 2 {
        (DY, 0)
    } else if rank == 3 {
        (HR, 0)
    } else if rank == 4 {
        (MN, 0)
    } else if rank == 5 {
        (1, 0)
    } else if rank == 6 {
        (0, 1_000_000)
    } else if rank == 7 {
        (0, 1_000)
    } else {
        (0, 1)
    }
}

impl Period {
    /// The seconds and nanoseconds given, with whole seconds carried out of `nanos`.
    pub fn new(secs: u64, nanos: u32) -> (r: Period)
        requires
            secs + nanos as nat / (NANOS_PER_SEC as nat) <= u64::MAX,
        ensures
            r@ == (
                (secs + nanos as nat / (NANOS_PER_SEC as nat)) as nat,
                nanos as nat % (NANOS_PER_SEC as nat),
            ),
            r.wf(),
    {
        Period { secs: secs + (nanos as u64 / NANOS_PER_SEC), nanos: (nanos as u64 % NANOS_PER_SEC) as u32 }
    }

    /// The seconds fit in 64 bits and the nanoseconds in 32.
    pub proof fn lemma_bounds(&self)
        ensures
            self@.0 <= u64::MAX,
            self@.1 <= u32::MAX,
    {
    }

    /// Whole seconds.
    pub fn as_secs(&self) -> (r: u64)
        ensures
            r == self@.0,
    {
        self.secs
    }

    /// The nanoseconds past the whole seconds.
    pub fn subsec_nanos(&self) -> (r: u32)
        ensures
            r == self@.1,
            self.wf(),
    {
        proof {
            use_type_invariant(self);
        }
        self.nanos
    }

    #[verifier::type_invariant]
    spec fn inv(&self) -> bool {
        self.nanos < NANOS_PER_SEC
    }

    /// The remainder is below one second.
    pub open spec fn wf(&self) -> bool {
        self@.1 < NANOS_PER_SEC
    }

    /// The canonical spelling, such as `1w2d3h4.567s`, `120us` or `0s`.
    pub fn to_string(&self) -> (r: String)
        ensures
            r@ == period_text(self@.0, self@.1),
    {
        proof {
            use_type_invariant(self);
        }
        let secs = self.secs;
        let mut out: Vec<char> = Vec::new();
        let y = secs / YR;
        let r_y = secs % YR;
        let w = r_y / WK;
        let r_w = r_y % WK;
        let d = r_w / DY;
        let r_d = r_w % DY;
        let h = r_d / HR;
        let r_h = r_d % HR;
        let m = r_h / MN;
        let s = r_h % MN;
        push_unit(&mut out, y, 'y');
        push_unit(&mut out, w, 'w');
        push_unit(&mut out, d, 'd');
        push_unit(&mut out, h, 'h');
        push_unit(&mut out, m, 'm');
        let ns = self.nanos as u64;
        let is_ns = ns % 1000 > 0;
        let is_us = (ns / 1000) % 1000 > 0;
        let is_ms = ns / 1_000_000 > 0;
        if (s > 0 && is_ms) || (is_ms && is_ns) {
            push_decimal(&mut out, s);
            out.push('.');
            let mut frac: Vec<char> = Vec::new();
            push_fixed(&mut frac, ns, 9);
            trim_trailing_zeros(&mut frac);
            push_range(&mut out, &frac, 0, frac.len());
            assert(frac@.subrange(0, frac.len() as int) =~= frac@);
            out.push('s');
        } else if ns > 0 || s > 0 {
            push_unit(&mut out, s, 's');
            if is_ns {
                push_decimal(&mut out, ns);
                push_str(&mut out, "ns");
            } else if is_us {
                push_decimal(&mut out, ns / 1000);
                push_str(&mut out, "us");
            } else if is_ms {
                push_decimal(&mut out, ns / 1_000_000);
                push_str(&mut out, "ms");
            }
        } else if secs == 0 {
            push_str(&mut out, "0s");
        }
        proof {
            reveal(period_text);
            reveal(seconds_text);
            reveal_strlit("ns");
            reveal_strlit("us");
            reveal_strlit("ms");
            reveal_strlit("0s");
            assert(out@ =~= period_text(self@.0, self@.1));
        }
        string_of(&out)
    }

    /// The period that `text` spells: terms such as `3 days` or `1.5s`, largest unit first.
    #[verifier::rlimit(60)]
    pub fn from_str(text: &str) -> (r: Result<Period, HolochainError>)
        ensures
            parse_spec(text@, r),
            r matches Ok(p) ==> p.wf(),
    {
        proof {
            reveal_strlit("Failed to find Period specification in ");
        }
        let s = chars_of(text);
        let mut i: usize = 0;
        let mut last: i64 = -1;
        let mut secs: u64 = 0;
        let mut nanos: u64 = 0;
        let mut over = false;
        let mut over_rank: u64 = 0;
        let mut any = false;
        let ghost mut gs: nat = 0;
        let ghost mut gn: nat = 0;
        loop
            invariant
                s@ == text@,
                i <= s.len(),
                -1 <= last <= 8,
                period_totals(s@) == scan(s@, i as int, last as int, gs, gn, any),
                !over ==> secs == gs && nanos == gn,
                over ==> gs > u64::MAX || gn > u64::MAX,
                over ==> over_rank <= 8,
                first_overflow(s@, 0, -1, 0, 0) == if over {
                    over_rank as int
                } else {
                    first_overflow(s@, i as int, last as int, gs, gn)
                },
            decreases s.len() - i,
        {
            let j = skip_class(&s, i, Class::Space);
            if j >= s.len() {
                if !any {
                    return Err(error_with("Failed to find Period specification in ", text));
                }
                if over {
                    return Err(overflow_error(over_rank, text));
                }
                if secs > u64::MAX - nanos / NANOS_PER_SEC {
                    return Err(overflow_error(5, text));
                }
                return Ok(
                    Period { secs: secs + nanos / NANOS_PER_SEC, nanos: (nanos % NANOS_PER_SEC) as u32 },
                );
            }
            let t = match read_term(&s, j) {
                None => {
                    return Err(error_with("Failed to find Period specification in ", text));
                },
                Some(t) => t,
            };
            let ghost term = term_at(s@, j as int)->Some_0;
            if t.rank as i64 <= last || t.next <= i || t.next > s.len() {
                return Err(error_with("Failed to find Period specification in ", text));
            }
            let (sw, nw) = weights(t.rank);
            proof {
                let fr: nat = match term.2 {
                    Some(f) => f,
                    None => 0,
                };
                if sw > 0 {
                    assert(nano_weight(term.0) * term.1 == 0) by (nonlinear_arith)
                        requires
                            nano_weight(term.0) == 0,
                    ;
                    assert(sec_weight(term.0) * term.1 == sw * term.1);
                } else {
                    assert(sec_weight(term.0) * term.1 == 0) by (nonlinear_arith)
                        requires
                            sec_weight(term.0) == 0,
                    ;
                    assert(nano_weight(term.0) * term.1 == nw * term.1);
                    assert(fr == 0);
                }
                gs = gs + sec_weight(term.0) * term.1;
                gn = gn + nano_weight(term.0) * term.1 + fr;
            }
            let was_over = over;
            if !over {
                if sw > 0 {
                    match add_weighted(secs, sw, t.whole, Ghost(term.1)) {
                        Some(v) => secs = v,
                        None => over = true,
                    }
                } else {
                    match add_weighted(nanos, nw, t.whole, Ghost(term.1)) {
                        Some(v) => nanos = v,
                        None => over = true,
                    }
                }
            }
            if !over && t.has_frac {
                match t.frac {
                    None => over = true,
                    Some(f) => match nanos.checked_add(f) {
                        Some(v) => nanos = v,
                        None => over = true,
                    },
                }
            }
            if over && !was_over {
                over_rank = t.rank;
            }
            last = if t.has_frac {
                8
            } else {
                t.rank as i64
            };
            any = true;
            i = t.next;
        }
    }

    /// The same as `from_str`.
    pub fn try_from(text: &str) -> (r: Result<Period, HolochainError>)
        ensures
            parse_spec(text@, r),
            r matches Ok(p) ==> p.wf(),
    {
        Period::from_str(text)
    }

    /// `Period(...)` around the canonical spelling.
    pub fn debug_string(&self) -> (r: String)
        ensures
            r@ == "Period("@ + period_text(self@.0, self@.1) + ")"@,
    {
        let mut out: Vec<char> = Vec::new();
        push_str(&mut out, "Period(");
        let t = self.to_string();
        push_string(&mut out, &t);
        push_str(&mut out, ")");
        string_of(&out)
    }
}

} // verus!
