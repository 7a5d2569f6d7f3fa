//! Timestamps as plain calendar/clock components, parsed from the RFC 3339
//! text form `YYYY-MM-DDTHH:MM:SS[.fraction](Z|±HH:MM)`.

use vstd::prelude::*;
use crate::text::{check_digit, digit_value, is_digit, digit_val, str_to_chars};

verus! {

/// A point in time as its RFC 3339 components. The offset is the
/// timezone's displacement from UTC in minutes.
#[derive(Debug, Clone, Copy, PartialEq, Eq, Structural)]
pub struct Timestamp {
    pub year: u16,
    pub month: u8,
    pub day: u8,
    pub hour: u8,
    pub minute: u8,
    pub second: u8,
    pub nanosecond: u32,
    pub offset_minutes: i32,
}

/// Gregorian leap year rule.
pub open spec fn is_leap_year(y: int) -> bool {
    y % 4 == 0 && (y % 100 != 0 || y % 400 == 0)
}

/// Days in a month of the proleptic Gregorian calendar.
pub open spec fn days_in_month(y: int, m: int) -> int {
    if m == 2 {
        if is_leap_year(y) {
            29
        } else {
            28
        }
    } else if m == 4 || m == 6 || m == 9 || m == 11 {
        30
    } else {
        31
    }
}

/// The value of the two decimal digits at `i`.
pub open spec fn two_digit(s: Seq<char>, i: int) -> int {
    digit_val(s[i]) * 10 + digit_val(s[i + 1])
}

/// The value of the four decimal digits at `i`.
pub open spec fn four_digit(s: Seq<char>, i: int) -> int {
    digit_val(s[i]) * 1000 + digit_val(s[i + 1]) * 100 + digit_val(s[i + 2]) * 10 + digit_val(
        s[i + 3],
    )
}

/// The fixed date-time head `YYYY-MM-DDTHH:MM:SS`, with its components in
/// range. The date/time separator accepts either case, as RFC 3339 allows.
pub open spec fn head_ok(s: Seq<char>) -> bool {
    &&& s.len() >= 19
    &&& is_digit(s[0]) && is_digit(s[1]) && is_digit(s[2]) && is_digit(s[3])
    &&& s[4] == '-'
    &&& is_digit(s[5]) && is_digit(s[6])
    &&& s[7] == '-'
    &&& is_digit(s[8]) && is_digit(s[9])
    &&& s[10] == 'T' || s[10] == 't'
    &&& is_digit(s[11]) && is_digit(s[12])
    &&& s[13] == ':'
    &&& is_digit(s[14]) && is_digit(s[15])
    &&& s[16] == ':'
    &&& is_digit(s[17]) && is_digit(s[18])
    &&& 1 <= two_digit(s, 5) <= 12
    &&& 1 <= two_digit(s, 8) <= days_in_month(four_digit(s, 0), two_digit(s, 5))
    &&& two_digit(s, 11) <= 23
    &&& two_digit(s, 14) <= 59
    &&& two_digit(s, 17) <= 59
}

/// A numeric or `Z` timezone offset filling the rest of the text from `p`.
pub open spec fn offset_ok(s: Seq<char>, p: int) -> bool {
    ||| (p + 1 == s.len() && (s[p] == 'Z' || s[p] == 'z'))
    ||| {
        &&& p + 6 == s.len()
        &&& (s[p] == '+' || s[p] == '-')
        &&& is_digit(s[p + 1]) && is_digit(s[p + 2])
        &&& s[p + 3] == ':'
        &&& is_digit(s[p + 4]) && is_digit(s[p + 5])
        &&& two_digit(s, p + 1) <= 23
        &&& two_digit(s, p + 4) <= 59
    }
}

/// The offset, in minutes east of UTC, that the text from `p` denotes.
pub open spec fn offset_value(s: Seq<char>, p: int) -> int {
    if s[p] == '+' {
        two_digit(s, p + 1) * 60 + two_digit(s, p + 4)
    } else if s[p] == '-' {
        -(two_digit(s, p + 1) * 60 + two_digit(s, p + 4))
    } else {
        0
    }
}

/// The first position at or after `i` that does not hold a decimal digit.
pub open spec fn digit_run_end(s: Seq<char>, i: int) -> int
    decreases s.len() - i,
{
    if i < s.len() && is_digit(s[i]) {
        digit_run_end(s, i + 1)
    } else {
        i
    }
}

/// The number a sequence of decimal digits denotes, most significant
/// digit first.
pub open spec fn dec_fold(s: Seq<char>) -> int
    decreases s.len(),
{
    if s.len() == 0 {
        0
    } else {
        dec_fold(s.drop_last()) * 10 + digit_val(s.last())
    }
}

/// Ten to the `k`.
pub open spec fn pow10(k: nat) -> int
    decreases k,
{
    if k == 0 {
        1
    } else {
        10 * pow10((k - 1) as nat)
    }
}

/// Where the timezone offset starts: right after the head, or after the
/// fractional second if one is present.
pub open spec fn offset_start(s: Seq<char>) -> int {
    if s.len() > 19 && s[19] == '.' {
        digit_run_end(s, 20)
    } else {
        19
    }
}

/// A full RFC 3339 date-time: the fixed head, an optional fraction of one
/// to nine digits, and a timezone offset that ends the text.
pub open spec fn valid_rfc3339(s: Seq<char>) -> bool {
    &&& head_ok(s)
    &&& if s.len() > 19 && s[19] == '.' {
        let e = digit_run_end(s, 20);
        &&& 20 < e <= 29
        &&& offset_ok(s, e)
    } else {
        offset_ok(s, 19)
    }
}

/// The nanosecond count a fraction of `k` digits denotes: its digits read
/// as a number, scaled out to nine places.
pub open spec fn frac_nanos(s: Seq<char>) -> int {
    if s.len() > 19 && s[19] == '.' {
        let e = digit_run_end(s, 20);
        dec_fold(s.subrange(20, e)) * pow10((29 - e) as nat)
    } else {
        0
    }
}

/// What parsing a timestamp text yields: the components on a valid
/// RFC 3339 form, nothing otherwise.
pub open spec fn spec_parse_rfc3339(s: Seq<char>) -> Option<Timestamp> {
    if valid_rfc3339(s) {
        Some(rfc3339_timestamp(s))
    } else {
        None
    }
}

/// The components a valid RFC 3339 text denotes.
pub open spec fn rfc3339_timestamp(s: Seq<char>) -> Timestamp {
    Timestamp {
        year: four_digit(s, 0) as u16,
        month: two_digit(s, 5) as u8,
        day: two_digit(s, 8) as u8,
        hour: two_digit(s, 11) as u8,
        minute: two_digit(s, 14) as u8,
        second: two_digit(s, 17) as u8,
        nanosecond: frac_nanos(s) as u32,
        offset_minutes: offset_value(s, offset_start(s)) as i32,
    }
}

proof fn lemma_pow10_monotone(a: nat, b: nat)
    requires
        a <= b,
    ensures
        pow10(a) <= pow10(b),
        pow10(a) >= 1,
    decreases b,
{
    if b > 0 {
        if a == b {
            lemma_pow10_monotone((a - 1) as nat, (b - 1) as nat);
        } else {
            lemma_pow10_monotone(a, (b - 1) as nat);
        }
    }
}

proof fn lemma_pow10_bounds(k: nat)
    ensures
        pow10(k) >= 1,
        k <= 9 ==> pow10(k) <= 1000000000,
{
    lemma_pow10_monotone(0, k);
    if k <= 9 {
        lemma_pow10_monotone(k, 9);
        assert(pow10(9) == 1000000000) by {
            reveal_with_fuel(pow10, 10);
        }
    }
}

proof fn lemma_dec_fold_bound(s: Seq<char>)
    requires
        forall|i: int| 0 <= i < s.len() ==> is_digit(#[trigger] s[i]),
    ensures
        0 <= dec_fold(s) < pow10(s.len()),
    decreases s.len(),
{
    if s.len() > 0 {
        lemma_dec_fold_bound(s.drop_last());
    }
}

proof fn lemma_digit_run(s: Seq<char>, i: int, j: int)
    requires
        0 <= i <= j <= s.len(),
        forall|k: int| i <= k < j ==> is_digit(#[trigger] s[k]),
        j == s.len() || !is_digit(s[j]),
    ensures
        digit_run_end(s, i) == j,
    decreases j - i,
{
    if i < j {
        lemma_digit_run(s, i + 1, j);
    }
}

/// Leap year test.
pub fn leap_year(y: u32) -> (r: bool)
    ensures
        r == is_leap_year(y as int),
{
    y % 4 == 0 && (y % 100 != 0 || y % 400 == 0)
}

/// Days in a month.
pub fn month_length(y: u32, m: u32) -> (r: u32)
    requires
        1 <= m <= 12,
    ensures
        r == days_in_month(y as int, m as int),
{
    if m == 2 {
        if leap_year(y) {
            29
        } else {
            28
        }
    } else if m == 4 || m == 6 || m == 9 || m == 11 {
        30
    } else {
        31
    }
}

/// The value of the two digits of `v` at `i`.
fn read2(v: &Vec<char>, i: usize) -> (r: u32)
    requires
        i + 2 <= v@.len(),
        is_digit(v@[i as int]),
        is_digit(v@[i + 1]),
    ensures
        r == two_digit(v@, i as int),
        r <= 99,
{
    let n = v.len();
    digit_value(v[i]) * 10 + digit_value(v[i + 1])
}

/// Whether the character of `v` at `j` is a decimal digit.
fn digit_at(v: &Vec<char>, j: usize) -> (r: bool)
    requires
        j < v@.len(),
    ensures
        r == is_digit(v@[j as int]),
{
    check_digit(v[j])
}

impl Timestamp {
    /// Parse the RFC 3339 text form; any other shape is rejected.
    pub fn parse(s: &str) -> (r: Option<Timestamp>)
        ensures
            r == spec_parse_rfc3339(s@),
    {
        let v = str_to_chars(s);
        let n = v.len();
        if n < 20 {
            return None;
        }
        // The fixed head.
        let mut i: usize = 0;
        while i < 19
            invariant
                v@ == s@,
                n == v@.len(),
                n >= 20,
                i <= 19,
                forall|j: int|
                    0 <= j < i && j != 4 && j != 7 && j != 10 && j != 13 && j != 16 ==> is_digit(
                        #[trigger] v@[j],
                    ),
                i > 4 ==> v@[4] == '-',
                i > 7 ==> v@[7] == '-',
                i > 10 ==> v@[10] == 'T' || v@[10] == 't',
                i > 13 ==> v@[13] == ':',
                i > 16 ==> v@[16] == ':',
            decreases 19 - i,
        {
            if i == 4 || i == 7 {
                if v[i] != '-' {
                    return None;
                }
            } else if i == 10 {
                if v[i] != 'T' && v[i] != 't' {
                    return None;
                }
            } else if i == 13 || i == 16 {
                if v[i] != ':' {
                    return None;
                }
            } else {
                if !check_digit(v[i]) {
                    return None;
                }
            }
            i += 1;
        }
        let year: u32 = digit_value(v[0]) * 1000 + digit_value(v[1]) * 100 + digit_value(v[2]) * 10
            + digit_value(v[3]);
        let month: u32 = read2(&v, 5);
        let day: u32 = read2(&v, 8);
        let hour: u32 = read2(&v, 11);
        let minute: u32 = read2(&v, 14);
        let second: u32 = read2(&v, 17);
        if month < 1 || month > 12 {
            return None;
        }
        if day < 1 || day > month_length(year, month) {
            return None;
        }
        if hour > 23 || minute > 59 || second > 59 {
            return None;
        }
        // Optional fractional second.
        let mut nanos: u32 = 0;
        let mut p: usize = 19;
        if v[19] == '.' {
            let mut j: usize = 20;
            let mut acc: u32 = 0;
            while j < n && digit_at(&v, j)
                invariant
                    v@ == s@,
                    n == v@.len(),
                    20 <= j <= n,
                    j <= 29,
                    forall|k: int| 20 <= k < j ==> is_digit(#[trigger] v@[k]),
                    acc == dec_fold(v@.subrange(20, j as int)),
                    acc < 1000000000,
                decreases n - j,
            {
                if j == 29 {
                    // Ten or more fractional digits: rejected.
                    proof {
                        lemma_digit_run_lower(v@, 20, 30);
                    }
                    return None;
                }
                proof {
                    lemma_dec_fold_bound(v@.subrange(20, j as int));
                    lemma_pow10_monotone((j - 20) as nat, 8);
                    assert(pow10(8) == 100000000) by {
                        reveal_with_fuel(pow10, 9);
                    }
                    assert(v@.subrange(20, j + 1).drop_last() =~= v@.subrange(20, j as int));
                }
                acc = acc * 10 + digit_value(v[j]);
                j += 1;
                proof {
                    lemma_dec_fold_bound(v@.subrange(20, j as int));
                    lemma_pow10_bounds((j - 20) as nat);
                }
            }
            if j == 20 {
                // A bare dot with no digits: rejected.
                proof {
                    lemma_digit_run(v@, 20, 20);
                }
                return None;
            }
            proof {
                lemma_digit_run(v@, 20, j as int);
            }
            // Scale the digits out to nine places.
            let mut k: usize = j - 20;
            proof {
                lemma_dec_fold_bound(v@.subrange(20, j as int));
            }
            let ghost digits: Seq<char> = v@.subrange(20, j as int);
            let ghost scaled: int = dec_fold(digits) * pow10((29 - j) as nat);
            proof {
                lemma_pow10_bounds((9 - k) as nat);
                lemma_pow10_mul(k as nat, (9 - k) as nat);
                assert(dec_fold(digits) * pow10((9 - k) as nat) <= (pow10(k as nat) - 1) * pow10(
                    (9 - k) as nat,
                )) by (nonlinear_arith)
                    requires
                        dec_fold(digits) <= pow10(k as nat) - 1,
                        pow10((9 - k) as nat) >= 1,
                ;
                assert((pow10(k as nat) - 1) * pow10((9 - k) as nat) == pow10(9) - pow10(
                    (9 - k) as nat,
                )) by (nonlinear_arith)
                    requires
                        pow10(k as nat) * pow10((9 - k) as nat) == pow10(9),
                ;
                assert(pow10(9) == 1000000000) by {
                    reveal_with_fuel(pow10, 10);
                }
                assert(dec_fold(digits) * pow10((9 - k) as nat) >= dec_fold(digits)) by (
                nonlinear_arith)
                    requires
                        dec_fold(digits) >= 0,
                        pow10((9 - k) as nat) >= 1,
                ;
            }
            nanos = acc;
            while k < 9
                invariant
                    1 <= k <= 9,
                    nanos * pow10((9 - k) as nat) == scaled,
                    0 <= scaled < 1000000000,
                    nanos <= scaled,
                decreases 9 - k,
            {
                proof {
                    lemma_pow10_bounds((9 - k) as nat);
                    assert(nanos * pow10((9 - k) as nat) == (nanos * 10) * pow10((9 - k - 1) as nat))
                        by (nonlinear_arith)
                        requires
                            pow10((9 - k) as nat) == 10 * pow10((9 - k - 1) as nat),
                    ;
                    assert(nanos * 10 <= (nanos * 10) * pow10((9 - k - 1) as nat)) by (
                    nonlinear_arith)
                        requires
                            nanos >= 0,
                            pow10((9 - k - 1) as nat) >= 1,
                    ;
                }
                nanos = nanos * 10;
                k += 1;
            }
            proof {
                assert(pow10(0) == 1);
            }
            p = j;
        }
        // Timezone offset.
        if p >= n {
            return None;
        }
        let c = v[p];
        let offset: i32;
        if c == 'Z' || c == 'z' {
            if p + 1 != n {
                return None;
            }
            offset = 0;
        } else if c == '+' || c == '-' {
            if p + 6 != n {
                return None;
            }
            if !(check_digit(v[p + 1]) && check_digit(v[p + 2])) {
                return None;
            }
            if v[p + 3] != ':' {
                return None;
            }
            if !(check_digit(v[p + 4]) && check_digit(v[p + 5])) {
                return None;
            }
            let oh = read2(&v, p + 1);
            let om = read2(&v, p + 4);
            if oh > 23 || om > 59 {
                return None;
            }
            let total = (oh * 60 + om) as i32;
            offset = if c == '-' {
                -total
            } else {
                total
            };
        } else {
            return None;
        }
        Some(
            Timestamp {
                year: year as u16,
                month: month as u8,
                day: day as u8,
                hour: hour as u8,
                minute: minute as u8,
                second: second as u8,
                nanosecond: nanos,
                offset_minutes: offset,
            },
        )
    }
}

proof fn lemma_pow10_mul(a: nat, b: nat)
    ensures
        pow10(a) * pow10(b) == pow10(a + b),
    decreases a,
{
    if a == 0 {
    } else {
        lemma_pow10_mul((a - 1) as nat, b);
        assert(pow10(a) * pow10(b) == 10 * (pow10((a - 1) as nat) * pow10(b))) by (nonlinear_arith)
            requires
                pow10(a) == 10 * pow10((a - 1) as nat),
        ;
    }
}

proof fn lemma_digit_run_ge(s: Seq<char>, i: int)
    requires
        0 <= i <= s.len(),
    ensures
        digit_run_end(s, i) >= i,
    decreases s.len() - i,
{
    if i < s.len() && is_digit(s[i]) {
        lemma_digit_run_ge(s, i + 1);
    }
}

proof fn lemma_digit_run_lower(s: Seq<char>, i: int, j: int)
    requires
        0 <= i <= j <= s.len(),
        forall|k: int| i <= k < j ==> is_digit(#[trigger] s[k]),
    ensures
        digit_run_end(s, i) >= j,
    decreases j - i,
{
    if i < j {
        lemma_digit_run_lower(s, i + 1, j);
    } else {
        lemma_digit_run_ge(s, i);
    }
}

} // verus!
