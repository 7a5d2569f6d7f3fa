//! UUIDs as plain 128-bit values, parsed from the canonical hyphenated
//! text form (8-4-4-4-12 hexadecimal digits).

use vstd::prelude::*;
use crate::text::{
    check_hex_digit, chars_to_string, hex_char, hex_digit_char, hex_value, is_hex_digit, hex_val,
    lemma_hex_digit_char_val, str_to_chars,
};

verus! {

/// A universally unique identifier, held as its 128-bit value.
#[derive(Debug, Clone, Copy, PartialEq, Eq, Structural)]
pub struct UuidVal {
    pub value: u128,
}

/// The canonical hyphenated UUID layout: 36 characters, hyphens at
/// positions 8, 13, 18 and 23, hexadecimal digits everywhere else.
pub open spec fn valid_uuid(s: Seq<char>) -> bool {
    &&& s.len() == 36
    &&& s[8] == '-'
    &&& s[13] == '-'
    &&& s[18] == '-'
    &&& s[23] == '-'
    &&& forall|i: int|
        0 <= i < 36 && i != 8 && i != 13 && i != 18 && i != 23 ==> is_hex_digit(#[trigger] s[i])
}

/// `s` with every hyphen removed, keeping the order of the rest.
pub open spec fn strip_hyphens(s: Seq<char>) -> Seq<char>
    decreases s.len(),
{
    if s.len() == 0 {
        Seq::empty()
    } else if s.last() == '-' {
        strip_hyphens(s.drop_last())
    } else {
        strip_hyphens(s.drop_last()).push(s.last())
    }
}

/// The number a sequence of hexadecimal digits denotes, most significant
/// digit first.
pub open spec fn hex_fold(s: Seq<char>) -> int
    decreases s.len(),
{
    if s.len() == 0 {
        0
    } else {
        hex_fold(s.drop_last()) * 16 + hex_val(s.last())
    }
}

/// The 128-bit value a canonical UUID string denotes: its 32 hexadecimal
/// digits read as one number.
pub open spec fn uuid_value(s: Seq<char>) -> int {
    hex_fold(strip_hyphens(s))
}

/// What parsing a UUID text yields: the denoted value on the canonical
/// form, nothing otherwise.
pub open spec fn spec_parse_uuid(s: Seq<char>) -> Option<UuidVal> {
    if valid_uuid(s) {
        Some(UuidVal { value: uuid_value(s) as u128 })
    } else {
        None
    }
}

/// Sixteen to the `k`.
pub open spec fn pow16(k: nat) -> int
    decreases k,
{
    if k == 0 {
        1
    } else {
        16 * pow16((k - 1) as nat)
    }
}

proof fn lemma_pow16_monotone(a: nat, b: nat)
    requires
        a <= b,
    ensures
        pow16(a) <= pow16(b),
        pow16(a) >= 1,
    decreases b,
{
    if b > 0 {
        if a == b {
            lemma_pow16_monotone((a - 1) as nat, (b - 1) as nat);
        } else {
            lemma_pow16_monotone(a, (b - 1) as nat);
        }
    }
}

proof fn lemma_hex_fold_bound(s: Seq<char>)
    requires
        forall|i: int| 0 <= i < s.len() ==> is_hex_digit(#[trigger] s[i]),
    ensures
        0 <= hex_fold(s) < pow16(s.len()),
    decreases s.len(),
{
    if s.len() > 0 {
        lemma_hex_fold_bound(s.drop_last());
    }
}

/// The digits of `v` in base sixteen, most significant first, `n` of
/// them.
pub open spec fn hex_digits_of(v: int, n: nat) -> Seq<char> {
    Seq::new(n, |j: int| hex_digit_char(v / pow16((n - 1 - j) as nat) % 16))
}

proof fn lemma_hex_digits_fold(v: int, n: nat)
    requires
        0 <= v < pow16(n),
    ensures
        forall|j: int| 0 <= j < n ==> is_hex_digit(#[trigger] hex_digits_of(v, n)[j]),
        hex_fold(hex_digits_of(v, n)) == v,
    decreases n,
{
    lemma_pow16_monotone(0, n);
    assert forall|j: int| 0 <= j < n implies is_hex_digit(#[trigger] hex_digits_of(v, n)[j]) by {
        lemma_pow16_monotone(0, (n - 1 - j) as nat);
        vstd::arithmetic::div_mod::lemma_mod_bound(v / pow16((n - 1 - j) as nat), 16);
        vstd::arithmetic::div_mod::lemma_div_pos_is_pos(v, pow16((n - 1 - j) as nat));
        lemma_hex_digit_char_val(v / pow16((n - 1 - j) as nat) % 16);
    }
    if n == 0 {
    } else {
        let s = hex_digits_of(v, n);
        let v2 = v / 16;
        vstd::arithmetic::div_mod::lemma_mod_bound(v, 16);
        vstd::arithmetic::div_mod::lemma_fundamental_div_mod(v, 16);
        vstd::arithmetic::div_mod::lemma_div_pos_is_pos(v, 16);
        assert(16 * v2 <= v);
        assert(v2 < pow16((n - 1) as nat)) by (nonlinear_arith)
            requires
                16 * v2 <= v,
                v < pow16(n),
                pow16(n) == 16 * pow16((n - 1) as nat),
        ;
        lemma_hex_digits_fold(v2, (n - 1) as nat);
        assert(s.drop_last() =~= hex_digits_of(v2, (n - 1) as nat)) by {
            assert forall|j: int| 0 <= j < n - 1 implies s.drop_last()[j] == hex_digits_of(
                v2,
                (n - 1) as nat,
            )[j] by {
                lemma_pow16_monotone(0, (n - 2 - j) as nat);
                vstd::arithmetic::div_mod::lemma_div_denominator(
                    v,
                    16,
                    pow16((n - 2 - j) as nat),
                );
                assert(16 * pow16((n - 2 - j) as nat) == pow16((n - 1 - j) as nat));
                assert(v / pow16((n - 1 - j) as nat) == v2 / pow16((n - 2 - j) as nat));
            }
        }
        assert(s.last() == hex_digit_char(v / pow16(0) % 16));
        assert(pow16(0) == 1);
        lemma_hex_digit_char_val(v % 16);
        assert(hex_fold(s) == hex_fold(s.drop_last()) * 16 + hex_val(s.last()));
        assert(hex_fold(s) == v2 * 16 + v % 16);
    }
}

/// Sixteen to the `k`, executable form.
fn pow16_exec(k: usize) -> (r: u128)
    requires
        k <= 31,
    ensures
        r == pow16(k as nat),
{
    let mut r: u128 = 1;
    let mut i: usize = 0;
    while i < k
        invariant
            i <= k <= 31,
            r == pow16(i as nat),
        decreases k - i,
    {
        proof {
            lemma_pow16_monotone((i + 1) as nat, 31);
            assert(pow16(31) < 0x100000000000000000000000000000000) by {
                reveal_with_fuel(pow16, 33);
            }
        }
        r = r * 16;
        i += 1;
    }
    r
}

impl UuidVal {
    /// Write the canonical hyphenated text form, lower case; parsing it
    /// gives the value back (`lemma_uuid_round_trip`).
    pub fn to_hyphenated(&self) -> (r: String)
        ensures
            valid_uuid(r@),
            uuid_value(r@) == self.value,
    {
        let ghost digits = hex_digits_of(self.value as int, 32);
        proof {
            assert(pow16(32) == 0x100000000000000000000000000000000) by {
                reveal_with_fuel(pow16, 33);
            }
            lemma_hex_digits_fold(self.value as int, 32);
        }
        let mut out: Vec<char> = Vec::new();
        let mut i: usize = 0;
        while i < 36
            invariant
                i <= 36,
                out@.len() == i,
                digits == hex_digits_of(self.value as int, 32),
                strip_hyphens(out@) =~= digits.take(
                    (if i <= 8 {
                        i as int
                    } else if i <= 13 {
                        i - 1
                    } else if i <= 18 {
                        i - 2
                    } else if i <= 23 {
                        i - 3
                    } else {
                        i - 4
                    }),
                ),
                forall|j: int|
                    0 <= j < i && j != 8 && j != 13 && j != 18 && j != 23 ==> is_hex_digit(
                        #[trigger] out@[j],
                    ),
                i > 8 ==> out@[8] == '-',
                i > 13 ==> out@[13] == '-',
                i > 18 ==> out@[18] == '-',
                i > 23 ==> out@[23] == '-',
            decreases 36 - i,
        {
            let ghost out_old = out@;
            if i == 8 || i == 13 || i == 18 || i == 23 {
                out.push('-');
                proof {
                    assert(out@.drop_last() =~= out_old);
                }
            } else {
                let k: usize = if i <= 8 {
                    i
                } else if i <= 13 {
                    i - 1
                } else if i <= 18 {
                    i - 2
                } else if i <= 23 {
                    i - 3
                } else {
                    i - 4
                };
                let p = pow16_exec(31 - k);
                proof {
                    lemma_pow16_monotone(0, (31 - k) as nat);
                    assert(pow16(32) == 0x100000000000000000000000000000000) by {
                        reveal_with_fuel(pow16, 33);
                    }
                    lemma_hex_digits_fold(self.value as int, 32);
                }
                let d = ((self.value / p) % 16) as u32;
                proof {
                    vstd::arithmetic::div_mod::lemma_mod_bound(self.value as int / p as int, 16);
                    vstd::arithmetic::div_mod::lemma_div_pos_is_pos(self.value as int, p as int);
                }
                out.push(hex_char(d));
                proof {
                    assert(out@.drop_last() =~= out_old);
                    assert(out@.last() == digits[k as int]);
                    assert(strip_hyphens(out@) =~= strip_hyphens(out_old).push(digits[k as int]));
                    assert(digits.take(k as int).push(digits[k as int]) =~= digits.take(k + 1));
                }
            }
            i += 1;
        }
        proof {
            assert(digits.take(32) =~= digits);
            lemma_hex_digits_fold(self.value as int, 32);
        }
        chars_to_string(&out)
    }
}

/// Law: writing a value in the canonical text form and parsing the text
/// yields the value again; `to_hyphenated` and `parse` are inverse.
pub proof fn lemma_uuid_round_trip(u: UuidVal, s: Seq<char>)
    requires
        valid_uuid(s),
        uuid_value(s) == u.value,
    ensures
        spec_parse_uuid(s) == Some(u),
{
}

impl UuidVal {
    /// Parse the canonical hyphenated text form; any other shape is
    /// rejected.
    pub fn parse(s: &str) -> (r: Option<UuidVal>)
        ensures
            r == spec_parse_uuid(s@),
            r matches Some(u) ==> u.value == uuid_value(s@),
    {
        let v = str_to_chars(s);
        if v.len() != 36 {
            return None;
        }
        let mut acc: u128 = 0;
        let ghost mut digits: Seq<char> = Seq::empty();
        let mut i: usize = 0;
        while i < 36
            invariant
                v@ == s@,
                v@.len() == 36,
                i <= 36,
                digits == strip_hyphens(v@.subrange(0, i as int)),
                digits.len() == (if i <= 8 {
                    i as int
                } else if i <= 13 {
                    i - 1
                } else if i <= 18 {
                    i - 2
                } else if i <= 23 {
                    i - 3
                } else {
                    i - 4
                }),
                forall|j: int| 0 <= j < digits.len() ==> is_hex_digit(#[trigger] digits[j]),
                acc == hex_fold(digits),
                forall|j: int|
                    0 <= j < i && j != 8 && j != 13 && j != 18 && j != 23 ==> is_hex_digit(
                        #[trigger] v@[j],
                    ),
                i > 8 ==> v@[8] == '-',
                i > 13 ==> v@[13] == '-',
                i > 18 ==> v@[18] == '-',
                i > 23 ==> v@[23] == '-',
            decreases 36 - i,
        {
            let c = v[i];
            if i == 8 || i == 13 || i == 18 || i == 23 {
                if c != '-' {
                    return None;
                }
                proof {
                    assert(v@.subrange(0, i + 1).drop_last() =~= v@.subrange(0, i as int));
                }
            } else {
                if !check_hex_digit(c) {
                    return None;
                }
                proof {
                    lemma_hex_fold_bound(digits);
                    lemma_pow16_monotone(digits.len(), 31);
                    assert(pow16(32) == 0x100000000000000000000000000000000) by {
                        reveal_with_fuel(pow16, 33);
                    }
                    assert(acc * 16 <= (pow16(31) - 1) * 16) by (nonlinear_arith)
                        requires
                            acc <= pow16(31) - 1,
                    ;
                }
                acc = acc * 16 + hex_value(c) as u128;
                proof {
                    assert(v@.subrange(0, i + 1).drop_last() =~= v@.subrange(0, i as int));
                    let d2 = digits.push(c);
                    assert(d2.drop_last() =~= digits);
                    digits = d2;
                }
            }
            i += 1;
        }
        proof {
            assert(v@.subrange(0, 36) =~= v@);
            lemma_hex_fold_bound(digits);
            lemma_pow16_monotone(digits.len(), 32);
            assert(pow16(32) == 0x100000000000000000000000000000000) by {
                reveal_with_fuel(pow16, 33);
            }
        }
        Some(UuidVal { value: acc })
    }
}

} // verus!
