//! Byte-level scanning primitives: leftmost pattern search, runs of bytes of
//! one class, and decimal number parsing.

use vstd::prelude::*;

verus! {

/// The pattern occurs in `s` at position `i`.
pub open spec fn occurs_at(s: Seq<u8>, pat: Seq<u8>, i: int) -> bool {
    &&& 0 <= i
    &&& i + pat.len() <= s.len()
    &&& s.subrange(i, i + pat.len()) == pat
}

/// The position of the leftmost occurrence of the pattern at or after `i`.
pub open spec fn first_occurrence(s: Seq<u8>, pat: Seq<u8>, i: int) -> Option<int>
    decreases s.len() - i,
{
    if i < 0 || i + pat.len() > s.len() {
        None
    } else if pat.len() == 0 {
        Some(i)
    } else if occurs_at(s, pat, i) {
        Some(i)
    } else {
        first_occurrence(s, pat, i + 1)
    }
}

/// The byte is an ASCII letter.
pub open spec fn is_letter(b: u8) -> bool {
    (65 <= b && b <= 90) || (97 <= b && b <= 122)
}

/// The byte is an ASCII decimal digit.
pub open spec fn is_digit(b: u8) -> bool {
    48 <= b && b <= 57
}

/// The byte may stand inside an unescaped string value: anything but a
/// double quote or a backslash.
pub open spec fn is_plain(b: u8) -> bool {
    b != 34 && b != 92
}

/// The length of the run of ASCII letters starting at `i`.
pub open spec fn letter_run(s: Seq<u8>, i: int) -> int
    decreases s.len() - i,
{
    if 0 <= i && i < s.len() && is_letter(s[i]) {
        1 + letter_run(s, i + 1)
    } else {
        0
    }
}

/// The length of the run of decimal digits starting at `i`.
pub open spec fn digit_run(s: Seq<u8>, i: int) -> int
    decreases s.len() - i,
{
    if 0 <= i && i < s.len() && is_digit(s[i]) {
        1 + digit_run(s, i + 1)
    } else {
        0
    }
}

/// The length of the run of plain string bytes starting at `i`.
pub open spec fn plain_run(s: Seq<u8>, i: int) -> int
    decreases s.len() - i,
{
    if 0 <= i && i < s.len() && is_plain(s[i]) {
        1 + plain_run(s, i + 1)
    } else {
        0
    }
}

/// The value of the `n` decimal digits starting at `i`, most significant
/// first.
pub open spec fn digits_value(s: Seq<u8>, i: int, n: int) -> int
    decreases n,
{
    if n <= 0 {
        0
    } else {
        digits_value(s, i, n - 1) * 10 + (s[i + n - 1] - 48)
    }
}

/// The number read by taking the whole digit run at `i`: none if the run is
/// empty or the value does not fit in a 64-bit counter.
pub open spec fn parse_u64_at(s: Seq<u8>, i: int) -> Option<u64> {
    let n = digit_run(s, i);
    if n < 1 {
        None
    } else if digits_value(s, i, n) > u64::MAX {
        None
    } else {
        Some(digits_value(s, i, n) as u64)
    }
}

/// The raw string value starting at `i`: the bytes up to the closing double
/// quote. None if the value is never closed or contains a backslash escape.
pub open spec fn raw_string_at(s: Seq<u8>, i: int) -> Option<Seq<u8>> {
    let n = plain_run(s, i);
    if 0 <= i && i + n < s.len() && s[i + n] == 34 {
        Some(s.subrange(i, i + n))
    } else {
        None
    }
}

/// A digit-run value only grows as the run is extended.
pub proof fn lemma_digits_value_grows(s: Seq<u8>, i: int, n: int, m: int)
    requires
        0 <= n <= m,
        forall|k: int| 0 <= k < m ==> is_digit(#[trigger] s[i + k]),
    ensures
        0 <= digits_value(s, i, n) <= digits_value(s, i, m),
    decreases m - n,
{
    if n == m {
        lemma_digits_value_nonneg(s, i, n);
    } else {
        lemma_digits_value_grows(s, i, n, m - 1);
        assert(is_digit(s[i + m - 1]));
        assert(digits_value(s, i, m - 1) * 10 >= digits_value(s, i, m - 1));
    }
}

/// The value of a digit run is never negative.
pub proof fn lemma_digits_value_nonneg(s: Seq<u8>, i: int, n: int)
    requires
        forall|k: int| 0 <= k < n ==> is_digit(#[trigger] s[i + k]),
    ensures
        digits_value(s, i, n) >= 0,
    decreases n,
{
    if n > 0 {
        lemma_digits_value_nonneg(s, i, n - 1);
        assert(is_digit(s[i + n - 1]));
    }
}

/// The pattern occurs at `i` of `s`, checked byte by byte.
pub fn match_at(s: &Vec<u8>, pat: &Vec<u8>, i: usize) -> (r: bool)
    requires
        i <= s@.len(),
        pat@.len() <= s@.len() - i,
    ensures
        r == occurs_at(s@, pat@, i as int),
{
    let n: usize = s.len();
    let mut j: usize = 0;
    while j < pat.len()
        invariant
            n == s@.len(),
            i + pat@.len() <= s@.len(),
            j <= pat@.len(),
            forall|k: int| 0 <= k < j ==> s@[i + k] == pat@[k],
        decreases pat@.len() - j,
    {
        if s[i + j] != pat[j] {
            assert(s@.subrange(i as int, i + pat@.len()) != pat@) by {
                assert(s@.subrange(i as int, i + pat@.len())[j as int] != pat@[j as int]);
            }
            return false;
        }
        j = j + 1;
    }
    assert(s@.subrange(i as int, i + pat@.len()) =~= pat@);
    true
}

/// The leftmost occurrence of the pattern at or after `from`, if any.
pub fn find_from(s: &Vec<u8>, pat: &Vec<u8>, from: usize) -> (r: Option<usize>)
    requires
        pat@.len() >= 1,
    ensures
        match r {
            Some(i) => {
                &&& from <= i
                &&& i + pat@.len() <= usize::MAX
                &&& occurs_at(s@, pat@, i as int)
                &&& first_occurrence(s@, pat@, from as int) == Some(i as int)
            },
            None => first_occurrence(s@, pat@, from as int) is None,
        },
{
    let n: usize = s.len();
    if pat.len() > n || from > n - pat.len() {
        return None;
    }
    let mut i: usize = from;
    while i <= n - pat.len()
        invariant
            n == s@.len(),
            1 <= pat@.len() <= s@.len(),
            from <= i,
            i <= s@.len() - pat@.len() + 1,
            first_occurrence(s@, pat@, from as int) == first_occurrence(s@, pat@, i as int),
        decreases s@.len() - i,
    {
        if match_at(s, pat, i) {
            return Some(i);
        }
        i = i + 1;
    }
    None
}

/// The first position at or after `start` that is not an ASCII letter.
pub fn letter_run_end(s: &Vec<u8>, start: usize) -> (e: usize)
    requires
        start <= s@.len(),
    ensures
        start <= e <= s@.len(),
        e == start + letter_run(s@, start as int),
{
    let mut j: usize = start;
    while j < s.len() && (65 <= s[j] && s[j] <= 90 || 97 <= s[j] && s[j] <= 122)
        invariant
            start <= j <= s@.len(),
            letter_run(s@, start as int) == (j - start) + letter_run(s@, j as int),
        decreases s@.len() - j,
    {
        j = j + 1;
    }
    j
}

/// The first position at or after `start` that is not a decimal digit.
pub fn digit_run_end(s: &Vec<u8>, start: usize) -> (e: usize)
    requires
        start <= s@.len(),
    ensures
        start <= e <= s@.len(),
        e == start + digit_run(s@, start as int),
{
    let mut j: usize = start;
    while j < s.len() && 48 <= s[j] && s[j] <= 57
        invariant
            start <= j <= s@.len(),
            digit_run(s@, start as int) == (j - start) + digit_run(s@, j as int),
        decreases s@.len() - j,
    {
        j = j + 1;
    }
    j
}

/// The first position at or after `start` holding a quote or a backslash.
pub fn plain_run_end(s: &Vec<u8>, start: usize) -> (e: usize)
    requires
        start <= s@.len(),
    ensures
        start <= e <= s@.len(),
        e == start + plain_run(s@, start as int),
{
    let mut j: usize = start;
    while j < s.len() && s[j] != 34 && s[j] != 92
        invariant
            start <= j <= s@.len(),
            plain_run(s@, start as int) == (j - start) + plain_run(s@, j as int),
        decreases s@.len() - j,
    {
        j = j + 1;
    }
    j
}

/// Read the whole digit run at `start` as a 64-bit number.
pub fn parse_u64(s: &Vec<u8>, start: usize) -> (r: Option<u64>)
    requires
        start <= s@.len(),
    ensures
        r == parse_u64_at(s@, start as int),
{
    let ghost run = digit_run(s@, start as int);
    let e: usize = digit_run_end(s, start);
    if e == start {
        return None;
    }
    proof {
        lemma_digit_run_digits(s@, start as int);
    }
    let mut acc: u64 = 0;
    let mut k: usize = start;
    while k < e
        invariant
            start <= k <= e <= s@.len(),
            start < e,
            run == e - start,
            run == digit_run(s@, start as int),
            forall|q: int| 0 <= q < run ==> is_digit(#[trigger] s@[start + q]),
            acc == digits_value(s@, start as int, k - start),
        decreases e - k,
    {
        proof {
            assert(is_digit(s@[start + (k - start)]));
            lemma_digits_value_grows(s@, start as int, (k - start) as int, run as int);
        }
        let d: u8 = s[k] - 48;
        if acc > u64::MAX / 10 {
            proof {
                lemma_digits_value_grows(s@, start as int, k + 1 - start as int, run as int);
                assert(digits_value(s@, start as int, k + 1 - start as int) == acc * 10 + d);
                assert(acc * 10 + d > u64::MAX);
            }
            return None;
        }
        let acc10: u64 = acc * 10;
        if d as u64 > u64::MAX - acc10 {
            proof {
                lemma_digits_value_grows(s@, start as int, k + 1 - start as int, run as int);
                assert(digits_value(s@, start as int, k + 1 - start as int) == acc * 10 + d);
            }
            return None;
        }
        acc = acc10 + d as u64;
        k = k + 1;
    }
    Some(acc)
}

/// Every byte of the digit run at `i` is a digit.
pub proof fn lemma_digit_run_digits(s: Seq<u8>, i: int)
    ensures
        forall|q: int| 0 <= q < digit_run(s, i) ==> is_digit(#[trigger] s[i + q]),
    decreases s.len() - i,
{
    if 0 <= i && i < s.len() && is_digit(s[i]) {
        lemma_digit_run_digits(s, i + 1);
        assert forall|q: int| 0 <= q < digit_run(s, i) implies is_digit(#[trigger] s[i + q]) by {
            if q > 0 {
                assert(is_digit(s[i + 1 + (q - 1)]));
            }
        }
    }
}

/// Copy the bytes of `s` in `[start, end)` into a fresh vector.
pub fn copy_range(s: &Vec<u8>, start: usize, end: usize) -> (r: Vec<u8>)
    requires
        start <= end <= s@.len(),
    ensures
        r@ == s@.subrange(start as int, end as int),
{
    let mut out: Vec<u8> = Vec::new();
    let mut k: usize = start;
    while k < end
        invariant
            start <= k <= end <= s@.len(),
            out@ == s@.subrange(start as int, k as int),
        decreases end - k,
    {
        out.push(s[k]);
        proof {
            assert(out@ =~= s@.subrange(start as int, k + 1 as int));
        }
        k = k + 1;
    }
    out
}

/// Read the raw string value at `start`: the bytes before the closing
/// quote, refused if an escape or an unterminated value is met.
pub fn scan_string(s: &Vec<u8>, start: usize) -> (r: Option<Vec<u8>>)
    requires
        start <= s@.len(),
    ensures
        match r {
            Some(v) => raw_string_at(s@, start as int) == Some(v@),
            None => raw_string_at(s@, start as int) is None,
        },
{
    let e: usize = plain_run_end(s, start);
    if e < s.len() && s[e] == 34 {
        Some(copy_range(s, start, e))
    } else {
        None
    }
}

} // verus!
