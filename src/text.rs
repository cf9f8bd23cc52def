//! Character classes, digit runs and decimal rendering shared by the two grammars.
use vstd::prelude::*;

verus! {

/// The characters that the grammars treat as whitespace (Unicode `White_Space`).
pub open spec fn is_ws(c: char) -> bool {
    let u = c as u32;
    u == 0x20 || (0x09 <= u && u <= 0x0d) || u == 0x85 || u == 0xa0 || u == 0x1680 || (0x2000
        <= u && u <= 0x200a) || u == 0x2028 || u == 0x2029 || u == 0x202f || u == 0x205f || u
        == 0x3000
}

pub open spec fn is_digit(c: char) -> bool {
    '0' <= c && c <= '9'
}

/// A character that may stand in a unit word of a period.
pub open spec fn is_word_char(c: char) -> bool {
    !is_ws(c) && !is_digit(c) && c != '.' && c != ','
}

/// The classes of character runs that the scanners skip over.
#[derive(PartialEq, Eq, Structural, Clone, Copy)]
pub enum Class {
    Space,
    Digit,
    Word,
}

pub open spec fn in_class(c: char, k: Class) -> bool {
    match k {
        Class::Space => is_ws(c),
        Class::Digit => is_digit(c),
        Class::Word => is_word_char(c),
    }
}

/// The end of the longest run of class `k` that starts at `i`.
pub open spec fn span_end(s: Seq<char>, i: int, k: Class) -> int
    decreases s.len() - i,
{
    if 0 <= i < s.len() && in_class(s[i], k) {
        span_end(s, i + 1, k)
    } else {
        i
    }
}

pub proof fn lemma_span_end_bounds(s: Seq<char>, i: int, k: Class)
    requires
        0 <= i <= s.len(),
    ensures
        i <= span_end(s, i, k) <= s.len(),
        forall|j: int| i <= j < span_end(s, i, k) ==> in_class(#[trigger] s[j], k),
        span_end(s, i, k) < s.len() ==> !in_class(s[span_end(s, i, k)], k),
    decreases s.len() - i,
{
    if i < s.len() && in_class(s[i], k) {
        lemma_span_end_bounds(s, i + 1, k);
    }
}

/// The value of a string of decimal digits (the empty string counts as zero).
pub open spec fn digits_value(d: Seq<char>) -> nat
    decreases d.len(),
{
    if d.len() == 0 {
        0
    } else {
        digits_value(d.drop_last()) * 10 + (d.last() as nat - '0' as nat) as nat
    }
}

/// The decimal rendering of `n`, without leading zeros ("0" for zero).
pub open spec fn decimal(n: nat) -> Seq<char>
    decreases n,
{
    if n < 10 {
        seq![digit_char(n)]
    } else {
        decimal(n / 10).push(digit_char(n % 10))
    }
}

pub open spec fn digit_char(d: nat) -> char {
    ((d + '0' as nat) as u32) as char
}

pub fn is_ws_char(c: char) -> (r: bool)
    ensures
        r == is_ws(c),
{
    let u = c as u32;
    u == 0x20 || (0x09 <= u && u <= 0x0d) || u == 0x85 || u == 0xa0 || u == 0x1680 || (0x2000
        <= u && u <= 0x200a) || u == 0x2028 || u == 0x2029 || u == 0x202f || u == 0x205f || u
        == 0x3000
}

pub fn is_class(c: char, k: Class) -> (r: bool)
    ensures
        r == in_class(c, k),
{
    match k {
        Class::Space => is_ws_char(c),
        Class::Digit => '0' <= c && c <= '9',
        Class::Word => !is_ws_char(c) && !('0' <= c && c <= '9') && c != '.' && c != ',',
    }
}

/// Skips the run of class `k` that starts at `i`.
pub fn skip_class(s: &Vec<char>, i: usize, k: Class) -> (r: usize)
    requires
        i <= s.len(),
    ensures
        r == span_end(s@, i as int, k),
        i <= r <= s.len(),
{
    let mut j: usize = i;
    while j < s.len() && is_class(s[j], k)
        invariant
            i <= j <= s.len(),
            span_end(s@, i as int, k) == span_end(s@, j as int, k),
        decreases s.len() - j,
    {
        j = j + 1;
    }
    j
}

pub proof fn lemma_digits_value_step(d: Seq<char>, a: int, b: int)
    requires
        0 <= a < b <= d.len(),
    ensures
        digits_value(d.subrange(a, b)) == digits_value(d.subrange(a, b - 1)) * 10 + (d[b
            - 1] as nat - '0' as nat) as nat,
{
    assert(d.subrange(a, b).drop_last() =~= d.subrange(a, b - 1));
}

/// Reads the digits `s[a..b]` as a number; `None` when it exceeds `u64::MAX`.
pub fn read_digits(s: &Vec<char>, a: usize, b: usize) -> (r: Option<u64>)
    requires
        a <= b <= s.len(),
        forall|j: int| a <= j < b ==> is_digit(#[trigger] s@[j]),
    ensures
        match r {
            Some(v) => v as nat == digits_value(s@.subrange(a as int, b as int)),
            None => digits_value(s@.subrange(a as int, b as int)) > u64::MAX,
        },
{
    let mut v: u64 = 0;
    let mut j: usize = a;
    proof {
        assert(s@.subrange(a as int, a as int).len() == 0);
    }
    while j < b
        invariant
            a <= j <= b <= s.len(),
            forall|t: int| a <= t < b ==> is_digit(#[trigger] s@[t]),
            v as nat == digits_value(s@.subrange(a as int, j as int)),
        decreases b - j,
    {
        let c = s[j];
        assert(is_digit(s@[j as int]));
        let d: u64 = (c as u32 - '0' as u32) as u64;
        proof {
            lemma_digits_value_step(s@, a as int, j + 1);
        }
        if v > (u64::MAX - d) / 10 {
            proof {
                lemma_digits_rest_grow(s@, a as int, j as int + 1, b as int);
            }
            return None;
        }
        v = v * 10 + d;
        j = j + 1;
    }
    Some(v)
}

/// Appending digits never makes a digit string's value smaller.
pub proof fn lemma_digits_rest_grow(s: Seq<char>, a: int, m: int, b: int)
    requires
        0 <= a <= m <= b <= s.len(),
        forall|t: int| a <= t < b ==> is_digit(#[trigger] s[t]),
    ensures
        digits_value(s.subrange(a, m)) <= digits_value(s.subrange(a, b)),
    decreases b - m,
{
    if m < b {
        lemma_digits_rest_grow(s, a, m + 1, b);
        lemma_digits_value_step(s, a, m + 1);
    }
}

/// Appends the decimal rendering of `n`.
pub fn push_decimal(out: &mut Vec<char>, n: u64)
    ensures
        final(out)@ == old(out)@ + decimal(n as nat),
    decreases n,
{
    if n >= 10 {
        push_decimal(out, n / 10);
    }
    let c = char_of_digit((n % 10) as u32);
    out.push(c);
    proof {
        if n >= 10 {
            assert(decimal(n as nat) == decimal((n / 10) as nat).push(digit_char((n % 10) as nat)));
        }
    }
    assert(final(out)@ =~= old(out)@ + decimal(n as nat));
}

/// The digit character for `d`.
pub fn char_of_digit(d: u32) -> (c: char)
    requires
        d < 10,
    ensures
        c == digit_char(d as nat),
{
    if d == 0 { '0' }
    else if d == 1 { '1' }
    else if d == 2 { '2' }
    else if d == 3 { '3' }
    else if d == 4 { '4' }
    else if d == 5 { '5' }
    else if d == 6 { '6' }
    else if d == 7 { '7' }
    else if d == 8 { '8' }
    else { '9' }
}

/// The characters of `s`, one by one.
pub fn chars_of(s: &str) -> (r: Vec<char>)
    ensures
        r@ == s@,
{
    let n = s.unicode_len();
    let mut v: Vec<char> = Vec::new();
    let mut i: usize = 0;
    while i < n
        invariant
            n == s@.len(),
            i <= n,
            v@ == s@.subrange(0, i as int),
        decreases n - i,
    {
        v.push(s.get_char(i));
        i = i + 1;
        assert(v@ =~= s@.subrange(0, i as int));
    }
    assert(v@ =~= s@);
    v
}

/// Relies on `String: FromIterator<char>`: the string holds exactly the characters given.
#[verifier::external_body]
pub fn string_of(v: &Vec<char>) -> (r: String)
    ensures
        r@ == v@,
{
    v.iter().collect::<String>()
}

/// Appends the characters of `lit`.
pub fn push_str(out: &mut Vec<char>, lit: &str)
    ensures
        final(out)@ == old(out)@ + lit@,
{
    let n = lit.unicode_len();
    let mut i: usize = 0;
    while i < n
        invariant
            n == lit@.len(),
            i <= n,
            out@ == old(out)@ + lit@.subrange(0, i as int),
        decreases n - i,
    {
        out.push(lit.get_char(i));
        i = i + 1;
        assert(out@ =~= old(out)@ + lit@.subrange(0, i as int));
    }
    assert(lit@.subrange(0, n as int) =~= lit@);
}

/// Appends the characters of `t`.
pub fn push_string(out: &mut Vec<char>, t: &String)
    ensures
        final(out)@ == old(out)@ + t@,
{
    let tc = chars_of(t.as_str());
    push_range(out, &tc, 0, tc.len());
    assert(tc@.subrange(0, tc.len() as int) =~= tc@);
}

/// Appends `s[a..b]`.
pub fn push_range(out: &mut Vec<char>, s: &Vec<char>, a: usize, b: usize)
    requires
        a <= b <= s.len(),
    ensures
        final(out)@ == old(out)@ + s@.subrange(a as int, b as int),
{
    let mut k: usize = a;
    while k < b
        invariant
            a <= k <= b <= s.len(),
            out@ == old(out)@ + s@.subrange(a as int, k as int),
        decreases b - k,
    {
        out.push(s[k]);
        k = k + 1;
        assert(out@ =~= old(out)@ + s@.subrange(a as int, k as int));
    }
}

/// Whether `w[a..b]` spells exactly `lit`.
pub fn range_is(w: &Vec<char>, a: usize, b: usize, lit: &str) -> (r: bool)
    requires
        a <= b <= w.len(),
    ensures
        r == (w@.subrange(a as int, b as int) == lit@),
{
    let n = lit.unicode_len();
    if b - a != n {
        proof {
            assert(w@.subrange(a as int, b as int).len() != lit@.len());
        }
        return false;
    }
    let mut i: usize = 0;
    while i < n
        invariant
            n == lit@.len(),
            b - a == n,
            a <= b <= w.len(),
            i <= n,
            forall|t: int| 0 <= t < i ==> w@[a + t] == lit@[t],
        decreases n - i,
    {
        if w[a + i] != lit.get_char(i) {
            proof {
                assert(w@.subrange(a as int, b as int)[i as int] != lit@[i as int]);
            }
            return false;
        }
        i = i + 1;
    }
    assert(w@.subrange(a as int, b as int) =~= lit@);
    true
}

} // verus!
