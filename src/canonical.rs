//! The canonical spelling of a period reads back as the same period.
use vstd::prelude::*;

use vstd::arithmetic::div_mod::{lemma_breakdown, lemma_div_denominator, lemma_fundamental_div_mod};

use crate::period::{
    fixed_digits, fold, folded, nano_weight, nine_digits, parse_spec, period_text, period_totals,
    point_at, scan, sec_weight, seconds_text, term_at, totals_fit, trim_zeros, unit_rank,
    unit_text, Period, DY, HR, MN, WK, YR,
};
use crate::text::{decimal, digit_char, digits_value, in_class, is_digit, is_word_char, span_end, Class};

verus! {

pub open spec fn pow10(n: nat) -> nat
    decreases n,
{
    if n == 0 {
        1
    } else {
        10 * pow10((n - 1) as nat)
    }
}

/// `scan`, kept folded where a proof chains many steps.
#[verifier::opaque]
pub open spec fn scan_at(s: Seq<char>, i: int, last: int, secs: nat, nanos: nat, any: bool) -> Option<
    (nat, nat),
> {
    scan(s, i, last, secs, nanos, any)
}

/// Empty, or starting with a digit: what may follow a term.
pub open spec fn digit_or_empty(x: Seq<char>) -> bool {
    x.len() == 0 || is_digit(x[0])
}

proof fn lemma_digit_char(d: nat)
    requires
        d < 10,
    ensures
        is_digit(digit_char(d)),
        digit_char(d) as nat - '0' as nat == d,
{
}

proof fn lemma_decimal(n: nat)
    ensures
        decimal(n).len() >= 1,
        forall|j: int| 0 <= j < decimal(n).len() ==> is_digit(#[trigger] decimal(n)[j]),
        digits_value(decimal(n)) == n,
    decreases n,
{
    if n < 10 {
        lemma_digit_char(n);
        assert(decimal(n).drop_last() =~= Seq::<char>::empty());
        assert(decimal(n).last() == digit_char(n));
        assert(digits_value(decimal(n)) == digits_value(decimal(n).drop_last()) * 10 + (
        digit_char(n) as nat - '0' as nat) as nat);
    } else {
        lemma_decimal(n / 10);
        lemma_digit_char(n % 10);
        assert(decimal(n).drop_last() =~= decimal(n / 10));
        assert(decimal(n).last() == digit_char(n % 10));
        lemma_fundamental_div_mod(n as int, 10);
        assert(digits_value(decimal(n)) == digits_value(decimal(n / 10)) * 10 + (digit_char(n % 10)
            as nat - '0' as nat) as nat);
        assert forall|j: int| 0 <= j < decimal(n).len() implies is_digit(#[trigger] decimal(n)[j]) by {
            if j < decimal(n).len() - 1 {
                assert(decimal(n)[j] == decimal(n / 10)[j]);
            }
        }
    }
}

proof fn lemma_pow10_pos(n: nat)
    ensures
        pow10(n) > 0,
    decreases n,
{
    if n > 0 {
        lemma_pow10_pos((n - 1) as nat);
    }
}

proof fn lemma_fixed_digits(n: nat, w: nat)
    ensures
        fixed_digits(n, w).len() == w,
        forall|j: int| 0 <= j < w ==> is_digit(#[trigger] fixed_digits(n, w)[j]),
        digits_value(fixed_digits(n, w)) == n % pow10(w),
    decreases w,
{
    if w == 0 {
    } else {
        lemma_fixed_digits(n / 10, (w - 1) as nat);
        lemma_digit_char(n % 10);
        assert(fixed_digits(n, w).drop_last() =~= fixed_digits(n / 10, (w - 1) as nat));
        assert(fixed_digits(n, w).last() == digit_char(n % 10));
        lemma_pow10_pos((w - 1) as nat);
        lemma_breakdown(n as int, 10, pow10((w - 1) as nat) as int);
        assert forall|j: int| 0 <= j < w implies is_digit(#[trigger] fixed_digits(n, w)[j]) by {
            if j < w - 1 {
                assert(fixed_digits(n, w)[j] == fixed_digits(n / 10, (w - 1) as nat)[j]);
            }
        }
    }
}

proof fn lemma_all_zeros(x: Seq<char>)
    requires
        forall|j: int| 0 <= j < x.len() ==> #[trigger] x[j] == '0',
    ensures
        digits_value(x) == 0,
    decreases x.len(),
{
    if x.len() > 0 {
        lemma_all_zeros(x.drop_last());
    }
}

proof fn lemma_trim(x: Seq<char>)
    ensures
        trim_zeros(x).len() <= x.len(),
        trim_zeros(x) == x.subrange(0, trim_zeros(x).len() as int),
        forall|j: int| trim_zeros(x).len() <= j < x.len() ==> #[trigger] x[j] == '0',
    decreases x.len(),
{
    if x.len() > 0 && x.last() == '0' {
        lemma_trim(x.drop_last());
        let t = trim_zeros(x.drop_last());
        assert(x.drop_last().subrange(0, t.len() as int) =~= x.subrange(0, t.len() as int));
        assert forall|j: int| t.len() <= j < x.len() implies #[trigger] x[j] == '0' by {
            if j < x.len() - 1 {
                assert(x.drop_last()[j] == x[j]);
            }
        }
    } else {
        assert(x.subrange(0, x.len() as int) =~= x);
    }
}

/// The run of class `k` that starts at `i` ends at `e`.
proof fn lemma_span_run(s: Seq<char>, i: int, e: int, k: Class)
    requires
        0 <= i <= e <= s.len(),
        forall|j: int| i <= j < e ==> in_class(#[trigger] s[j], k),
        e == s.len() || !in_class(s[e], k),
    ensures
        span_end(s, i, k) == e,
    decreases e - i,
{
    if i < e {
        lemma_span_run(s, i + 1, e, k);
    }
}

/// The unit words of the canonical spelling.
proof fn lemma_unit_words()
    ensures
        unit_rank(seq!['y']) == 0,
        unit_rank(seq!['w']) == 1,
        unit_rank(seq!['d']) == 2,
        unit_rank(seq!['h']) == 3,
        unit_rank(seq!['m']) == 4,
        unit_rank(seq!['s']) == 5,
        unit_rank(seq!['m', 's']) == 6,
        unit_rank(seq!['u', 's']) == 7,
        unit_rank(seq!['n', 's']) == 8,
{
    reveal(unit_rank);
    reveal_strlit("y");
    reveal_strlit("yr");
    reveal_strlit("yrs");
    reveal_strlit("year");
    reveal_strlit("years");
    reveal_strlit("w");
    reveal_strlit("wk");
    reveal_strlit("wks");
    reveal_strlit("week");
    reveal_strlit("weeks");
    reveal_strlit("d");
    reveal_strlit("dy");
    reveal_strlit("dys");
    reveal_strlit("day");
    reveal_strlit("days");
    reveal_strlit("h");
    reveal_strlit("hr");
    reveal_strlit("hrs");
    reveal_strlit("hour");
    reveal_strlit("hours");
    reveal_strlit("m");
    reveal_strlit("min");
    reveal_strlit("mins");
    reveal_strlit("minute");
    reveal_strlit("minutes");
    reveal_strlit("s");
    reveal_strlit("sec");
    reveal_strlit("secs");
    reveal_strlit("second");
    reveal_strlit("seconds");
    reveal_strlit("milli");
    reveal_strlit("u");
    reveal_strlit("\u{3bc}");
    reveal_strlit("micro");
    reveal_strlit("n");
    reveal_strlit("nano");
    assert(seq!['y'][0] == 'y');
    assert(seq!['w'][0] == 'w');
    assert(seq!['d'][0] == 'd');
    assert(seq!['h'][0] == 'h');
    assert(seq!['m'][0] == 'm');
    assert(seq!['s'][0] == 's');
    assert(seq!['u'][0] == 'u');
    assert(seq!['n'][0] == 'n');
    assert(seq!['m', 's'][0] == 'm');
    assert(seq!['u', 's'][0] == 'u');
    assert(seq!['n', 's'][0] == 'n');
    assert(seq!['y'] =~= "y"@);
    assert(seq!['w'] =~= "w"@);
    assert(seq!['d'] =~= "d"@);
    assert(seq!['h'] =~= "h"@);
    assert(seq!['m'] =~= "m"@);
    assert(seq!['s'] =~= "s"@);
    assert(seq!['u'] =~= "u"@);
    assert(seq!['n'] =~= "n"@);
    assert(seq!['m', 's'].subrange(1, 2) =~= seq!['s']);
    assert(seq!['m', 's'].subrange(0, 1) =~= seq!['m']);
    assert(seq!['u', 's'].subrange(1, 2) =~= seq!['s']);
    assert(seq!['u', 's'].subrange(0, 1) =~= seq!['u']);
    assert(seq!['n', 's'].subrange(1, 2) =~= seq!['s']);
    assert(seq!['n', 's'].subrange(0, 1) =~= seq!['n']);
}

/// A word of lower-case ASCII letters.
pub open spec fn plain_word(w: Seq<char>) -> bool {
    w.len() >= 1 && forall|j: int| 0 <= j < w.len() ==> 'a' <= #[trigger] w[j] && w[j] <= 'z'
}

proof fn lemma_plain_word(w: Seq<char>)
    requires
        plain_word(w),
    ensures
        folded(w) == w,
        forall|j: int| 0 <= j < w.len() ==> is_word_char(#[trigger] w[j]),
{
    assert(folded(w) =~= w) by {
        assert forall|j: int| 0 <= j < w.len() implies fold(w[j]) == w[j] by {
            assert('a' <= w[j] && w[j] <= 'z');
        }
    }
}

/// Reading a term `n w` at `i`, followed by a digit or the end, moves the scan past it.
proof fn lemma_scan_term(
    s: Seq<char>,
    i: int,
    n: nat,
    w: Seq<char>,
    rest: Seq<char>,
    last: int,
    secs: nat,
    nanos: nat,
    any: bool,
)
    requires
        0 <= i <= s.len(),
        s.subrange(i, s.len() as int) == decimal(n) + w + rest,
        digit_or_empty(rest),
        plain_word(w),
        0 <= unit_rank(w) <= 8,
        unit_rank(w) > last,
    ensures
        ({
            let j = i + decimal(n).len() + w.len();
            &&& j <= s.len()
            &&& s.subrange(j, s.len() as int) == rest
            &&& scan(s, i, last, secs, nanos, any) == scan(
                s,
                j,
                unit_rank(w),
                secs + sec_weight(unit_rank(w)) * n,
                nanos + nano_weight(unit_rank(w)) * n,
                true,
            )
        }),
{
    let dl = decimal(n).len() as int;
    let a = i + dl;
    let j = a + w.len();
    lemma_decimal(n);
    lemma_plain_word(w);
    let x = decimal(n) + w + rest;
    assert(x.len() == dl + w.len() + rest.len());
    assert(s.subrange(i, s.len() as int).len() == s.len() - i);
    assert(j + rest.len() == s.len());
    assert forall|t: int| i <= t < a implies is_digit(#[trigger] s[t]) by {
        assert(s[t] == s.subrange(i, s.len() as int)[t - i]);
        assert((decimal(n) + w + rest)[t - i] == decimal(n)[t - i]);
    }
    assert forall|t: int| a <= t < j implies s[t] == w[t - a] by {
        assert(s[t] == s.subrange(i, s.len() as int)[t - i]);
        assert((decimal(n) + w + rest)[t - i] == w[t - a]);
    }
    assert(s.subrange(j, s.len() as int) =~= rest) by {
        assert forall|t: int| 0 <= t < rest.len() implies s.subrange(j, s.len() as int)[t]
            == rest[t] by {
            assert(s[j + t] == s.subrange(i, s.len() as int)[j + t - i]);
            assert((decimal(n) + w + rest)[j + t - i] == rest[t]);
        }
    }
    assert(j == s.len() || is_digit(s[j])) by {
        if j < s.len() {
            assert(s[j] == s.subrange(j, s.len() as int)[0]);
        }
    }
    assert(s[i] == decimal(n)[0]) by {
        assert(s[i] == s.subrange(i, s.len() as int)[0]);
    }
    lemma_span_run(s, i, i, Class::Space);
    assert(!is_digit(s[a]) && !point_at(s, a)) by {
        assert(s[a] == w[0]);
    }
    lemma_span_run(s, i, a, Class::Digit);
    lemma_span_run(s, a, a, Class::Space);
    lemma_span_run(s, a, j, Class::Word);
    lemma_span_run(s, j, j, Class::Space);
    assert(s.subrange(i, a) =~= decimal(n));
    assert(s.subrange(a, j) =~= w);
    assert(term_at(s, i) == Some((unit_rank(w), n, None::<nat>, j)));
}

proof fn lemma_scan_unit(
    s: Seq<char>,
    i: int,
    n: nat,
    c: char,
    rank: int,
    rest: Seq<char>,
    last: int,
    secs: nat,
    nanos: nat,
    any: bool,
)
    requires
        0 <= i <= s.len(),
        s.subrange(i, s.len() as int) == unit_text(n, c) + rest,
        digit_or_empty(rest),
        'a' <= c && c <= 'z',
        unit_rank(seq![c]) == rank,
        0 <= rank <= 8,
        rank > last,
    ensures
        ({
            let j = i + unit_text(n, c).len();
            &&& j <= s.len()
            &&& s.subrange(j, s.len() as int) == rest
            &&& scan_at(s, i, last, secs, nanos, any) == scan_at(
                s,
                j,
                if n > 0 {
                    rank
                } else {
                    last
                },
                secs + sec_weight(rank) * n,
                nanos + nano_weight(rank) * n,
                any || n > 0,
            )
        }),
{
    reveal(scan_at);
    reveal(unit_text);
    if n > 0 {
        assert(decimal(n).push(c) =~= decimal(n) + seq![c]);
        lemma_scan_term(s, i, n, seq![c], rest, last, secs, nanos, any);
    } else {
        assert(unit_text(n, c) + rest =~= rest);
    }
}

/// A nonempty unit piece starts with a digit.
proof fn lemma_unit_starts(n: nat, c: char, rest: Seq<char>)
    requires
        digit_or_empty(rest),
    ensures
        digit_or_empty(unit_text(n, c) + rest),
{
    reveal(unit_text);
    if n > 0 {
        lemma_decimal(n);
        assert((unit_text(n, c) + rest)[0] == decimal(n)[0]);
    } else {
        assert(unit_text(n, c) + rest =~= rest);
    }
}

/// The scan reads the end of the text as the end of the period.
proof fn lemma_scan_end(s: Seq<char>, last: int, secs: nat, nanos: nat)
    ensures
        scan(s, s.len() as int, last, secs, nanos, true) == Some((secs, nanos)),
{
    lemma_span_run(s, s.len() as int, s.len() as int, Class::Space);
}

/// The fraction of the canonical spelling reads back as the nanoseconds.
proof fn lemma_fraction(ns: nat)
    requires
        0 < ns < 1_000_000_000,
    ensures
        trim_zeros(fixed_digits(ns, 9)).len() >= 1,
        forall|j: int| 0 <= j < trim_zeros(fixed_digits(ns, 9)).len() ==> is_digit(
            #[trigger] trim_zeros(fixed_digits(ns, 9))[j],
        ),
        digits_value(nine_digits(trim_zeros(fixed_digits(ns, 9)))) == ns,
{
    let x = fixed_digits(ns, 9);
    let t = trim_zeros(x);
    lemma_fixed_digits(ns, 9);
    lemma_trim(x);
    assert(pow10(9) == 1_000_000_000) by {
        reveal_with_fuel(pow10, 10);
    }
    assert(nine_digits(t) =~= x) by {
        if t.len() < 9 {
            assert forall|j: int| 0 <= j < 9 implies nine_digits(t)[j] == x[j] by {
                if j < t.len() {
                    assert(t[j] == x.subrange(0, t.len() as int)[j]);
                }
            }
        }
    }
    if t.len() == 0 {
        lemma_all_zeros(x);
    }
    assert forall|j: int| 0 <= j < t.len() implies is_digit(#[trigger] t[j]) by {
        assert(t[j] == x.subrange(0, t.len() as int)[j]);
    }
}

/// The fractional form `s.fffs` at `i`, at the end of the text, ends the scan.
#[verifier::rlimit(100)]
proof fn lemma_scan_fraction(t: Seq<char>, i: int, sv: nat, ns: nat, last: int, secs0: nat, any: bool)
    requires
        0 <= i <= t.len(),
        0 < ns < 1_000_000_000,
        last <= 4,
        t.subrange(i, t.len() as int) == decimal(sv) + seq!['.'] + trim_zeros(fixed_digits(ns, 9))
            + seq!['s'],
    ensures
        scan(t, i, last, secs0, 0, any) == Some((secs0 + sv, ns)),
{
    lemma_unit_words();
    let n = t.len() as int;
    let fr = trim_zeros(fixed_digits(ns, 9));
    lemma_fraction(ns);
    lemma_decimal(sv);
    let dl = decimal(sv).len() as int;
    let a = i + dl;
    let b = a + 1 + fr.len();
    let x = decimal(sv) + seq!['.'] + fr + seq!['s'];
    assert(x.len() == dl + 1 + fr.len() + 1);
    assert(t.subrange(i, n).len() == n - i);
    assert(b + 1 == n);
    assert forall|k: int| i <= k < n implies t[k] == x[k - i] by {
        assert(t[k] == t.subrange(i, n)[k - i]);
    }
    assert forall|k: int| i <= k < a implies is_digit(#[trigger] t[k]) by {
        assert(t[k] == x[k - i]);
        assert(x[k - i] == decimal(sv)[k - i]);
    }
    assert(t[a] == '.') by {
        assert(x[a - i] == '.');
    }
    assert forall|k: int| a + 1 <= k < b implies is_digit(#[trigger] t[k]) by {
        assert(t[k] == x[k - i]);
        assert(x[k - i] == fr[k - a - 1]);
    }
    assert(t[b] == 's') by {
        assert(x[b - i] == 's');
    }
    assert(t[i] == decimal(sv)[0]) by {
        assert(x[0] == decimal(sv)[0]);
    }
    lemma_span_run(t, i, i, Class::Space);
    lemma_span_run(t, i, a, Class::Digit);
    lemma_span_run(t, a + 1, b, Class::Digit);
    lemma_span_run(t, b, b, Class::Space);
    lemma_span_run(t, b, n, Class::Word);
    lemma_span_run(t, n, n, Class::Space);
    assert(t.subrange(i, a) =~= decimal(sv)) by {
        assert forall|k: int| 0 <= k < dl implies t.subrange(i, a)[k] == decimal(sv)[k] by {
            assert(t[i + k] == x[k]);
        }
    }
    assert(t.subrange(a + 1, b) =~= fr) by {
        assert forall|k: int| 0 <= k < fr.len() implies t.subrange(a + 1, b)[k] == fr[k] by {
            assert(t[a + 1 + k] == x[dl + 1 + k]);
        }
    }
    assert(t.subrange(b, n) =~= seq!['s']);
    assert(folded(seq!['s']) =~= seq!['s']);
    assert(unit_rank(seq!['s']) == 5);
    assert(folded(t.subrange(b, n)) == seq!['s']);
    assert(unit_rank(folded(t.subrange(b, n))) == 5);
    assert(span_end(t, i, Class::Digit) == a);
    assert(point_at(t, a));
    assert(span_end(t, a + 1, Class::Digit) == b);
    assert(span_end(t, b, Class::Space) == b);
    assert(span_end(t, b, Class::Word) == n);
    assert(term_at(t, i) == Some((5int, sv, Some(ns), n)));
    assert(sec_weight(5) == 1 && nano_weight(5) == 0);
    assert(sec_weight(5) * sv == sv && nano_weight(5) * sv == 0) by (nonlinear_arith)
        requires
            sec_weight(5) == 1,
            nano_weight(5) == 0,
    ;
    assert(scan(t, i, last, secs0, 0, any) == scan(t, n, 8, secs0 + sv, ns, true));
    lemma_scan_end(t, 8, secs0 + sv, ns);
}

/// The scaled form (`5s`, `123ms`, `5s120us`, ...) ends the scan.
proof fn lemma_scan_scaled(
    t: Seq<char>,
    i: int,
    sv: nat,
    v: nat,
    w: Seq<char>,
    last: int,
    secs0: nat,
    any: bool,
)
    requires
        0 <= i <= t.len(),
        last <= 4,
        w == seq!['n', 's'] || w == seq!['u', 's'] || w == seq!['m', 's'],
        t.subrange(i, t.len() as int) == unit_text(sv, 's') + (decimal(v) + w),
    ensures
        scan(t, i, last, secs0, 0, any) == Some((secs0 + sv, nano_weight(unit_rank(w)) * v)),
{
    reveal(scan_at);
    lemma_unit_words();
    lemma_decimal(v);
    let sub = decimal(v) + w;
    assert(sub[0] == decimal(v)[0]);
    assert(sec_weight(5) == 1 && nano_weight(5) == 0);
    assert(sec_weight(5) * sv == sv) by (nonlinear_arith)
        requires
            sec_weight(5) == 1,
    ;
    assert(sec_weight(unit_rank(w)) == 0);
    lemma_scan_unit(t, i, sv, 's', 5, sub, last, secs0, 0, any);
    let j = i + unit_text(sv, 's').len();
    let last2 = if sv > 0 {
        5
    } else {
        last
    };
    assert(decimal(v) + w + Seq::<char>::empty() =~= sub);
    lemma_scan_term(t, j, v, w, Seq::empty(), last2, secs0 + sv, 0, any || sv > 0);
    lemma_scan_end(t, unit_rank(w), secs0 + sv, nano_weight(unit_rank(w)) * v);
}

/// Reading the seconds part of the canonical spelling, after the minutes, ends the scan with the
/// whole seconds added to `secs0` and the nanoseconds as the nanosecond total.
proof fn lemma_scan_seconds(t: Seq<char>, i: int, total: nat, sv: nat, ns: nat, last: int, secs0: nat, any: bool)
    requires
        0 <= i <= t.len(),
        t.subrange(i, t.len() as int) == seconds_text(total, sv, ns),
        ns < 1_000_000_000,
        last <= 4,
        any || total == 0 || sv > 0 || ns > 0,
    ensures
        scan_at(t, i, last, secs0, 0, any) == Some((secs0 + sv, ns)),
{
    reveal(scan_at);
    reveal(seconds_text);
    let is_ns = ns % 1000 > 0;
    let is_us = (ns / 1000) % 1000 > 0;
    let is_ms = ns / 1_000_000 > 0;
    let n = t.len() as int;
    lemma_fundamental_div_mod(ns as int, 1000);
    lemma_fundamental_div_mod((ns / 1000) as int, 1000);
    lemma_fundamental_div_mod(ns as int, 1_000_000);
    lemma_div_denominator(ns as int, 1000, 1000);
    assert(ns / 1_000_000 == (ns / 1000) / 1000);
    if (sv > 0 && is_ms) || (is_ms && is_ns) {
        lemma_scan_fraction(t, i, sv, ns, last, secs0, any);
    } else if ns > 0 || sv > 0 {
        lemma_unit_words();
        if is_ns {
            assert(seconds_text(total, sv, ns) == unit_text(sv, 's') + (decimal(ns) + seq!['n', 's']));
            lemma_scan_scaled(t, i, sv, ns, seq!['n', 's'], last, secs0, any);
            assert(nano_weight(8) * ns == ns);
        } else if is_us {
            let v = (ns / 1000) as nat;
            assert(seconds_text(total, sv, ns) == unit_text(sv, 's') + (decimal(v) + seq!['u', 's']));
            lemma_scan_scaled(t, i, sv, v, seq!['u', 's'], last, secs0, any);
            assert(nano_weight(7) * v == ns);
        } else if is_ms {
            let v = (ns / 1_000_000) as nat;
            assert(seconds_text(total, sv, ns) == unit_text(sv, 's') + (decimal(v) + seq!['m', 's']));
            lemma_scan_scaled(t, i, sv, v, seq!['m', 's'], last, secs0, any);
            assert(1000 * (1000 * v) == 1_000_000 * v);
            assert(nano_weight(6) * v == ns);
        } else {
            assert(ns == 0);
            assert(seconds_text(total, sv, ns) == unit_text(sv, 's'));
            reveal(unit_text);
            assert(unit_text(sv, 's') + Seq::<char>::empty() =~= unit_text(sv, 's'));
            lemma_scan_unit(t, i, sv, 's', 5, Seq::empty(), last, secs0, 0, any);
            assert(sec_weight(5) == 1 && nano_weight(5) == 0);
            assert(sec_weight(5) * sv == sv && nano_weight(5) * sv == 0) by (nonlinear_arith)
                requires
                    sec_weight(5) == 1,
                    nano_weight(5) == 0,
            ;
            let j = i + unit_text(sv, 's').len();
            assert(t.subrange(j, n).len() == n - j);
            assert(j == n);
            lemma_scan_end(t, 5, secs0 + sv, 0);
        }
    } else {
        if total == 0 {
            lemma_unit_words();
            lemma_decimal(0);
            assert(seconds_text(total, sv, ns) =~= decimal(0) + seq!['s'] + Seq::<char>::empty());
            lemma_scan_term(t, i, 0, seq!['s'], Seq::empty(), last, secs0, 0, any);
            let j = i + decimal(0).len() + 1;
            assert(t.subrange(j, n).len() == n - j);
            assert(j == n);
            assert(sec_weight(5) * 0 == 0 && nano_weight(5) * 0 == 0);
            lemma_scan_end(t, 5, secs0, 0);
        } else {
            assert(seconds_text(total, sv, ns) =~= Seq::<char>::empty());
            assert(t.subrange(i, n).len() == n - i);
            assert(i == n);
            lemma_scan_end(t, last, secs0, 0);
        }
    }
}

/// The rank of the last unit written among years to minutes, or -1 for none.
pub open spec fn last_unit(y: nat, w: nat, d: nat, h: nat, m: nat) -> int {
    if m > 0 {
        4
    } else if h > 0 {
        3
    } else if d > 0 {
        2
    } else if w > 0 {
        1
    } else if y > 0 {
        0
    } else {
        -1
    }
}

/// Reading hours and minutes after `i` adds their seconds.
proof fn lemma_scan_hm(
    t: Seq<char>,
    i: int,
    h: nat,
    m: nat,
    st: Seq<char>,
    last: int,
    secs: nat,
    any: bool,
)
    requires
        0 <= i <= t.len(),
        t.subrange(i, t.len() as int) == unit_text(h, 'h') + (unit_text(m, 'm') + st),
        digit_or_empty(st),
        last <= 2,
        unit_rank(seq!['h']) == 3,
        unit_rank(seq!['m']) == 4,
    ensures
        st.len() <= t.len(),
        t.subrange(t.len() - st.len(), t.len() as int) == st,
        scan_at(t, i, last, secs, 0, any) == scan_at(
            t,
            t.len() - st.len(),
            if m > 0 {
                4
            } else if h > 0 {
                3
            } else {
                last
            },
            secs + h * HR as nat + m * MN as nat,
            0,
            any || h > 0 || m > 0,
        ),
{
    lemma_unit_starts(m, 'm', st);
    let r5 = unit_text(m, 'm') + st;
    assert(sec_weight(3) * h == h * HR as nat && sec_weight(4) * m == m * MN as nat) by (
    nonlinear_arith)
        requires
            sec_weight(3) == HR as nat,
            sec_weight(4) == MN as nat,
    ;
    assert(nano_weight(3) == 0 && nano_weight(4) == 0);
    lemma_scan_unit(t, i, h, 'h', 3, r5, last, secs, 0, any);
    let i4 = i + unit_text(h, 'h').len();
    let l4: int = if h > 0 {
        3
    } else {
        last
    };
    lemma_scan_unit(t, i4, m, 'm', 4, st, l4, secs + h * HR as nat, 0, any || h > 0);
    let i5 = i4 + unit_text(m, 'm').len();
    assert(t.subrange(i5, t.len() as int).len() == t.len() - i5);
}

/// Reading the years to minutes of a canonical spelling sums their seconds.
#[verifier::rlimit(60)]
proof fn lemma_scan_units(t: Seq<char>, y: nat, w: nat, d: nat, h: nat, m: nat, st: Seq<char>)
    requires
        t == unit_text(y, 'y') + (unit_text(w, 'w') + (unit_text(d, 'd') + (unit_text(h, 'h') + (
        unit_text(m, 'm') + st)))),
        digit_or_empty(st),
    ensures
        st.len() <= t.len(),
        t.subrange(t.len() - st.len(), t.len() as int) == st,
        scan_at(t, 0, -1, 0, 0, false) == scan_at(
            t,
            t.len() - st.len(),
            last_unit(y, w, d, h, m),
            y * YR as nat + w * WK as nat + d * DY as nat + h * HR as nat + m * MN as nat,
            0,
            y > 0 || w > 0 || d > 0 || h > 0 || m > 0,
        ),
{
    lemma_unit_words();
    let r5 = unit_text(m, 'm') + st;
    let r4 = unit_text(h, 'h') + r5;
    let r3 = unit_text(d, 'd') + r4;
    let r2 = unit_text(w, 'w') + r3;
    lemma_unit_starts(m, 'm', st);
    lemma_unit_starts(h, 'h', r5);
    lemma_unit_starts(d, 'd', r4);
    lemma_unit_starts(w, 'w', r3);
    assert(t.subrange(0, t.len() as int) =~= t);
    assert(sec_weight(0) * y == y * YR as nat && sec_weight(1) * w == w * WK as nat && sec_weight(2)
        * d == d * DY as nat) by (nonlinear_arith)
        requires
            sec_weight(0) == YR as nat,
            sec_weight(1) == WK as nat,
            sec_weight(2) == DY as nat,
    ;
    lemma_scan_unit(t, 0, y, 'y', 0, r2, -1, 0, 0, false);
    let i1 = unit_text(y, 'y').len() as int;
    let l1: int = if y > 0 {
        0
    } else {
        -1
    };
    lemma_scan_unit(t, i1, w, 'w', 1, r3, l1, y * YR as nat, 0, y > 0);
    let i2 = i1 + unit_text(w, 'w').len();
    let l2: int = if w > 0 {
        1
    } else {
        l1
    };
    lemma_scan_unit(t, i2, d, 'd', 2, r4, l2, y * YR as nat + w * WK as nat, 0, y > 0 || w > 0);
    let i3 = i2 + unit_text(d, 'd').len();
    let l3: int = if d > 0 {
        2
    } else {
        l2
    };
    lemma_scan_hm(
        t,
        i3,
        h,
        m,
        st,
        l3,
        y * YR as nat + w * WK as nat + d * DY as nat,
        y > 0 || w > 0 || d > 0,
    );
}

/// The canonical spelling, grouped from the right.
proof fn lemma_text_shape(secs: nat, ns: nat)
    ensures
        ({
            let y = secs / YR as nat;
            let r_y = secs % YR as nat;
            let w = r_y / WK as nat;
            let r_w = r_y % WK as nat;
            let d = r_w / DY as nat;
            let r_d = r_w % DY as nat;
            let h = r_d / HR as nat;
            let r_h = r_d % HR as nat;
            let m = r_h / MN as nat;
            let sv = r_h % MN as nat;
            period_text(secs, ns) == unit_text(y, 'y') + (unit_text(w, 'w') + (unit_text(d, 'd') + (
            unit_text(h, 'h') + (unit_text(m, 'm') + seconds_text(secs, sv, ns)))))
        }),
{
    let y = secs / YR as nat;
    let r_y = secs % YR as nat;
    let w = r_y / WK as nat;
    let r_w = r_y % WK as nat;
    let d = r_w / DY as nat;
    let r_d = r_w % DY as nat;
    let h = r_d / HR as nat;
    let r_h = r_d % HR as nat;
    let m = r_h / MN as nat;
    let sv = r_h % MN as nat;
    reveal(period_text);
    assert(period_text(secs, ns) =~= unit_text(y, 'y') + (unit_text(w, 'w') + (unit_text(d, 'd') + (
    unit_text(h, 'h') + (unit_text(m, 'm') + seconds_text(secs, sv, ns))))));
}

/// Whole seconds split into years, weeks, days, hours, minutes and seconds add up again.
proof fn lemma_split_seconds(secs: nat)
    ensures
        ({
            let y = secs / YR as nat;
            let r_y = secs % YR as nat;
            let w = r_y / WK as nat;
            let r_w = r_y % WK as nat;
            let d = r_w / DY as nat;
            let r_d = r_w % DY as nat;
            let h = r_d / HR as nat;
            let r_h = r_d % HR as nat;
            let m = r_h / MN as nat;
            let sv = r_h % MN as nat;
            secs == y * YR as nat + w * WK as nat + d * DY as nat + h * HR as nat + m * MN as nat
                + sv
        }),
{
    let r_y = secs % YR as nat;
    let r_w = r_y % WK as nat;
    let r_d = r_w % DY as nat;
    let r_h = r_d % HR as nat;
    lemma_fundamental_div_mod(secs as int, YR as int);
    lemma_fundamental_div_mod(r_y as int, WK as int);
    lemma_fundamental_div_mod(r_w as int, DY as int);
    lemma_fundamental_div_mod(r_d as int, HR as int);
    lemma_fundamental_div_mod(r_h as int, MN as int);
}

/// The seconds part of the canonical spelling is empty or starts with a digit.
proof fn lemma_seconds_start(secs: nat, sv: nat, ns: nat)
    ensures
        digit_or_empty(seconds_text(secs, sv, ns)),
{
    let st = seconds_text(secs, sv, ns);
    reveal(unit_text);
    reveal(seconds_text);
    let is_ns = ns % 1000 > 0;
    let is_us = (ns / 1000) % 1000 > 0;
    let is_ms = ns / 1_000_000 > 0;
    if (sv > 0 && is_ms) || (is_ms && is_ns) {
        lemma_decimal(sv);
        assert(st[0] == decimal(sv)[0]);
    } else if ns > 0 || sv > 0 {
        if sv > 0 {
            lemma_decimal(sv);
            assert(st[0] == decimal(sv)[0]);
        } else if is_ns {
            lemma_decimal(ns);
            assert(st[0] == decimal(ns)[0]);
        } else if is_us {
            lemma_decimal(ns / 1000);
            assert(st[0] == decimal(ns / 1000)[0]);
        } else if is_ms {
            lemma_decimal(ns / 1_000_000);
            assert(st[0] == decimal(ns / 1_000_000)[0]);
        }
    }
}

/// Parsing the canonical spelling of a period gives back that period: canonical text is a fixed
/// point of parsing and formatting.
#[verifier::rlimit(100)]
pub proof fn law_parse_of_format(p: Period)
    requires
        p.wf(),
    ensures
        parse_spec(period_text(p@.0, p@.1), Ok(p)),
{
    let secs = p@.0;
    let ns = p@.1;
    let t = period_text(secs, ns);
    let y = secs / YR as nat;
    let r_y = secs % YR as nat;
    let w = r_y / WK as nat;
    let r_w = r_y % WK as nat;
    let d = r_w / DY as nat;
    let r_d = r_w % DY as nat;
    let h = r_d / HR as nat;
    let r_h = r_d % HR as nat;
    let m = r_h / MN as nat;
    let sv = r_h % MN as nat;
    let st = seconds_text(secs, sv, ns);
    lemma_text_shape(secs, ns);
    lemma_split_seconds(secs);
    lemma_seconds_start(secs, sv, ns);
    lemma_scan_units(t, y, w, d, h, m, st);
    assert(t.subrange(0, t.len() as int) =~= t);
    let s5 = y * YR as nat + w * WK as nat + d * DY as nat + h * HR as nat + m * MN as nat;
    lemma_scan_seconds(
        t,
        t.len() - st.len(),
        secs,
        sv,
        ns,
        last_unit(y, w, d, h, m),
        s5,
        y > 0 || w > 0 || d > 0 || h > 0 || m > 0,
    );
    reveal(scan_at);
    assert(period_totals(t) == Some((secs, ns)));
    p.lemma_bounds();
}

/// Parsing is a fixed point of canonicalization: when text `t` parses to `p`, the canonical
/// spelling of `p` parses to a period equal to `p`, and that period's spelling is the same text.
pub proof fn law_round_trip(t: Seq<char>, p: Period, q: Period)
    requires
        parse_spec(t, Ok(p)),
        parse_spec(period_text(p@.0, p@.1), Ok(q)),
    ensures
        q@ == p@,
        period_text(q@.0, q@.1) == period_text(p@.0, p@.1),
{
    law_parse_of_format(p);
}

} // verus!
