//! The JSON wire form of nested record fields: objects all of whose member
//! values are strings, as used for localized text and contact details.
//! One grammar defines both directions; decoding an encoded map gives the
//! map back (see `lemma_json_round_trip`).

use vstd::prelude::*;
use crate::text::{
    char_from_u32, chars_to_string, check_hex_digit, hex_char, hex_digit_char, hex_val, hex_value,
    is_hex_digit, lemma_hex_digit_char_val, str_to_chars,
};

verus! {

/// JSON insignificant whitespace.
pub open spec fn is_ws(c: char) -> bool {
    c == ' ' || c == '\t' || c == '\n' || c == '\r'
}

/// The first position at or after `i` that does not hold whitespace.
pub open spec fn ws_end(s: Seq<char>, i: int) -> int
    decreases s.len() - i,
{
    if i < s.len() && is_ws(s[i]) {
        ws_end(s, i + 1)
    } else {
        i
    }
}


/// How one character is written inside a JSON string: quotes and
/// backslashes get a two-character escape, control characters a
/// `\u00XX` escape, everything else stands as itself.
pub open spec fn escape_char(c: char) -> Seq<char> {
    if c == '"' {
        seq!['\\', '"']
    } else if c == '\\' {
        seq!['\\', '\\']
    } else if (c as u32) < 0x20 {
        seq![
            '\\',
            'u',
            '0',
            '0',
            hex_digit_char(c as u32 as int / 16),
            hex_digit_char(c as u32 as int % 16),
        ]
    } else {
        seq![c]
    }
}

/// A whole string body, escaped.
pub open spec fn json_escape(s: Seq<char>) -> Seq<char>
    decreases s.len(),
{
    if s.len() == 0 {
        Seq::empty()
    } else {
        escape_char(s[0]) + json_escape(s.drop_first())
    }
}

/// A string literal: the escaped body between quotes.
pub open spec fn quote_str(s: Seq<char>) -> Seq<char> {
    seq!['"'] + json_escape(s) + seq!['"']
}

/// One object member: quoted key, colon, quoted value.
pub open spec fn member_text(p: (Seq<char>, Seq<char>)) -> Seq<char> {
    quote_str(p.0) + seq![':'] + quote_str(p.1)
}

/// The members of an object, comma-separated, without braces.
pub open spec fn encode_pairs(ps: Seq<(Seq<char>, Seq<char>)>) -> Seq<char>
    decreases ps.len(),
{
    if ps.len() == 0 {
        Seq::empty()
    } else if ps.len() == 1 {
        member_text(ps[0])
    } else {
        encode_pairs(ps.drop_last()) + seq![','] + member_text(ps.last())
    }
}

/// The canonical text of an object of strings: no insignificant
/// whitespace, members in sequence order.
pub open spec fn encode_json(ps: Seq<(Seq<char>, Seq<char>)>) -> Seq<char> {
    seq!['{'] + encode_pairs(ps) + seq!['}']
}

/// The value of the four hexadecimal digits at `i`.
pub open spec fn hex4(s: Seq<char>, i: int) -> int {
    hex_val(s[i]) * 4096 + hex_val(s[i + 1]) * 256 + hex_val(s[i + 2]) * 16 + hex_val(s[i + 3])
}

/// A `\uXXXX` escape at `i` (where `s[i] == '\\'` and `s[i+1] == 'u'`):
/// either one scalar value outside the surrogate range, or a surrogate
/// pair combined into one character. Lone surrogates are rejected.
pub open spec fn parse_unicode_escape(s: Seq<char>, i: int) -> Option<(char, int)> {
    if i + 6 > s.len() {
        None
    } else if !(is_hex_digit(s[i + 2]) && is_hex_digit(s[i + 3]) && is_hex_digit(s[i + 4])
        && is_hex_digit(s[i + 5])) {
        None
    } else {
        let u = hex4(s, i + 2);
        if 0xD800 <= u < 0xDC00 {
            if i + 12 > s.len() {
                None
            } else if s[i + 6] == '\\' && s[i + 7] == 'u' && is_hex_digit(s[i + 8]) && is_hex_digit(
                s[i + 9],
            ) && is_hex_digit(s[i + 10]) && is_hex_digit(s[i + 11]) {
                let lo = hex4(s, i + 8);
                if 0xDC00 <= lo < 0xE000 {
                    Some(
                        (((0x10000 + (u - 0xD800) * 0x400 + (lo - 0xDC00)) as u32) as char, i + 12),
                    )
                } else {
                    None
                }
            } else {
                None
            }
        } else if 0xDC00 <= u < 0xE000 {
            None
        } else {
            Some(((u as u32) as char, i + 6))
        }
    }
}

/// An escape sequence at `i` (where `s[i] == '\\'`): the character it
/// denotes and the position after it.
pub open spec fn parse_escape(s: Seq<char>, i: int) -> Option<(char, int)> {
    if i + 2 > s.len() {
        None
    } else {
        let c = s[i + 1];
        if c == '"' {
            Some(('"', i + 2))
        } else if c == '\\' {
            Some(('\\', i + 2))
        } else if c == '/' {
            Some(('/', i + 2))
        } else if c == 'b' {
            Some(('\u{0008}', i + 2))
        } else if c == 'f' {
            Some(('\u{000C}', i + 2))
        } else if c == 'n' {
            Some(('\n', i + 2))
        } else if c == 'r' {
            Some(('\r', i + 2))
        } else if c == 't' {
            Some(('\t', i + 2))
        } else if c == 'u' {
            parse_unicode_escape(s, i)
        } else {
            None
        }
    }
}

/// The body of a string literal starting at `i` (just after the opening
/// quote): the characters it denotes and the position after the closing
/// quote. Unescaped control characters are rejected.
pub open spec fn parse_str_chars(s: Seq<char>, i: int) -> Option<(Seq<char>, int)>
    decreases s.len() - i,
{
    if i < 0 || i >= s.len() {
        None
    } else if s[i] == '"' {
        Some((Seq::empty(), i + 1))
    } else if s[i] == '\\' {
        match parse_escape(s, i) {
            None => None,
            Some((c, j)) => match parse_str_chars(s, j) {
                None => None,
                Some((rest, k)) => Some((seq![c] + rest, k)),
            },
        }
    } else if (s[i] as u32) < 0x20 {
        None
    } else {
        match parse_str_chars(s, i + 1) {
            None => None,
            Some((rest, k)) => Some((seq![s[i]] + rest, k)),
        }
    }
}

/// One or more members starting at `i` (at the opening quote of a key),
/// up to and including the closing brace: the pairs in textual order and
/// the position after the brace.
pub open spec fn parse_members(s: Seq<char>, i: int) -> Option<(Seq<(Seq<char>, Seq<char>)>, int)>
    decreases s.len() - i,
        via parse_members_dec
{
    if i < 0 || i >= s.len() || s[i] != '"' {
        None
    } else {
        match parse_str_chars(s, i + 1) {
            None => None,
            Some((key, a)) => {
                let b = ws_end(s, a);
                if b >= s.len() || s[b] != ':' {
                    None
                } else {
                    let c = ws_end(s, b + 1);
                    if c >= s.len() || s[c] != '"' {
                        None
                    } else {
                        match parse_str_chars(s, c + 1) {
                            None => None,
                            Some((val, d)) => {
                                let e = ws_end(s, d);
                                if e >= s.len() {
                                    None
                                } else if s[e] == '}' {
                                    Some((seq![(key, val)], e + 1))
                                } else if s[e] == ',' {
                                    match parse_members(s, ws_end(s, e + 1)) {
                                        None => None,
                                        Some((rest, g)) => Some((seq![(key, val)] + rest, g)),
                                    }
                                } else {
                                    None
                                }
                            },
                        }
                    }
                }
            },
        }
    }
}

#[via_fn]
proof fn parse_members_dec(s: Seq<char>, i: int) {
    if 0 <= i && i < s.len() && s[i] == '"' {
        lemma_parse_str_chars_bounds(s, i + 1);
        match parse_str_chars(s, i + 1) {
            None => {},
            Some((key, a)) => {
                lemma_ws_end_bounds(s, a);
                let b = ws_end(s, a);
                if b < s.len() && s[b] == ':' {
                    lemma_ws_end_bounds(s, b + 1);
                    let c = ws_end(s, b + 1);
                    if c < s.len() && s[c] == '"' {
                        lemma_parse_str_chars_bounds(s, c + 1);
                        match parse_str_chars(s, c + 1) {
                            None => {},
                            Some((val, d)) => {
                                lemma_ws_end_bounds(s, d);
                                let e = ws_end(s, d);
                                if e < s.len() && s[e] == ',' {
                                    lemma_ws_end_bounds(s, e + 1);
                                }
                            },
                        }
                    }
                }
            },
        }
    }
}

/// An entire document: one object of strings, with whitespace allowed
/// around tokens, and nothing after it.
pub open spec fn parse_object(s: Seq<char>) -> Option<Seq<(Seq<char>, Seq<char>)>> {
    let i = ws_end(s, 0);
    if i >= s.len() || s[i] != '{' {
        None
    } else {
        let j = ws_end(s, i + 1);
        if j < s.len() && s[j] == '}' {
            if ws_end(s, j + 1) == s.len() {
                Some(Seq::empty())
            } else {
                None
            }
        } else {
            match parse_members(s, j) {
                None => None,
                Some((ps, k)) => if ws_end(s, k) == s.len() {
                    Some(ps)
                } else {
                    None
                },
            }
        }
    }
}

/// Adding one pair to an association list: replace the value at the first
/// occurrence of the key, or append a new pair.
pub open spec fn spec_insert(
    qs: Seq<(Seq<char>, Seq<char>)>,
    k: Seq<char>,
    v: Seq<char>,
) -> Seq<(Seq<char>, Seq<char>)>
    decreases qs.len(),
{
    if qs.len() == 0 {
        seq![(k, v)]
    } else if qs[0].0 == k {
        seq![(k, v)] + qs.drop_first()
    } else {
        seq![qs[0]] + spec_insert(qs.drop_first(), k, v)
    }
}

/// The pairs of a parsed object folded left to right, a later member
/// overriding an earlier one with the same key.
pub open spec fn dedup_pairs(ps: Seq<(Seq<char>, Seq<char>)>) -> Seq<(Seq<char>, Seq<char>)>
    decreases ps.len(),
{
    if ps.len() == 0 {
        Seq::empty()
    } else {
        spec_insert(dedup_pairs(ps.drop_last()), ps.last().0, ps.last().1)
    }
}

/// The mapping an association list denotes, a later pair overriding an
/// earlier one.
pub open spec fn pairs_map(ps: Seq<(Seq<char>, Seq<char>)>) -> Map<Seq<char>, Seq<char>>
    decreases ps.len(),
{
    if ps.len() == 0 {
        Map::empty()
    } else {
        pairs_map(ps.drop_last()).insert(ps.last().0, ps.last().1)
    }
}

/// No two pairs share a key.
pub open spec fn wf_pairs(ps: Seq<(Seq<char>, Seq<char>)>) -> bool {
    forall|i: int, j: int| 0 <= i < j < ps.len() ==> (#[trigger] ps[i]).0 != (#[trigger] ps[j]).0
}

pub proof fn lemma_ws_end_bounds(s: Seq<char>, i: int)
    requires
        0 <= i <= s.len(),
    ensures
        i <= ws_end(s, i) <= s.len(),
    decreases s.len() - i,
{
    if i < s.len() && is_ws(s[i]) {
        lemma_ws_end_bounds(s, i + 1);
    }
}

pub proof fn lemma_parse_str_chars_bounds(s: Seq<char>, i: int)
    ensures
        parse_str_chars(s, i) matches Some((cs, j)) ==> i < j <= s.len(),
    decreases s.len() - i,
{
    if 0 <= i && i < s.len() {
        if s[i] == '\\' {
            match parse_escape(s, i) {
                None => {},
                Some((c, j)) => {
                    lemma_parse_str_chars_bounds(s, j);
                },
            }
        } else {
            lemma_parse_str_chars_bounds(s, i + 1);
        }
    }
}

// ---------------------------------------------------------------------
// The round trip: parsing the canonical encoding gives the pairs back
// ---------------------------------------------------------------------


proof fn lemma_dedup_unique(ps: Seq<(Seq<char>, Seq<char>)>)
    requires
        wf_pairs(ps),
    ensures
        dedup_pairs(ps) =~~= ps,
    decreases ps.len(),
{
    if ps.len() > 0 {
        let front = ps.drop_last();
        assert(wf_pairs(front));
        lemma_dedup_unique(front);
        assert(forall|j: int| 0 <= j < front.len() ==> (#[trigger] front[j]).0 != ps.last().0);
        lemma_spec_insert_absent(front, ps.last().0, ps.last().1);
        assert(dedup_pairs(ps) =~~= ps);
    }
}

/// One position of a subrange equality, spelled out.
proof fn lemma_eq_at(s: Seq<char>, i: int, e: int, t: Seq<char>, k: int)
    requires
        0 <= i <= e <= s.len(),
        s.subrange(i, e) == t,
        0 <= k < e - i,
    ensures
        s[i + k] == t[k],
{
    assert(s.subrange(i, e)[k] == t[k]);
}

proof fn lemma_parse_of_escaped(s: Seq<char>, i: int, x: Seq<char>, e: int)
    requires
        0 <= i,
        e == i + json_escape(x).len() + 1,
        e <= s.len(),
        s.subrange(i, e) == json_escape(x) + seq!['"'],
    ensures
        parse_str_chars(s, i) matches Some((got, j)) && got =~= x && j == e,
    decreases x.len(),
{
    let t = json_escape(x) + seq!['"'];
    if x.len() == 0 {
        lemma_eq_at(s, i, e, t, 0);
        assert(s[i] == '"');
        assert(parse_str_chars(s, i) == Some((Seq::<char>::empty(), i + 1)));
    } else {
        let c = x[0];
        let x2 = x.drop_first();
        let esc = escape_char(c);
        assert(json_escape(x) == esc + json_escape(x2));
        let i2 = i + esc.len();
        // The escape's characters stand at `i`.
        assert forall|k: int| 0 <= k < esc.len() implies #[trigger] s[i + k] == esc[k] by {
            lemma_eq_at(s, i, e, t, k);
        }
        // The text from `i2` encodes the rest of the body.
        assert(s.subrange(i2, e) =~= json_escape(x2) + seq!['"']) by {
            assert forall|k: int| 0 <= k < e - i2 implies s.subrange(i2, e)[k] == (json_escape(x2)
                + seq!['"'])[k] by {
                lemma_eq_at(s, i, e, t, k + esc.len());
                assert(s.subrange(i2, e)[k] == s[i2 + k]);
                assert(i2 + k == i + (k + esc.len()));
            }
        }
        lemma_parse_of_escaped(s, i2, x2, e);
        if c == '"' {
            assert(s[i + 0] == '\\' && s[i + 1] == '"');
            assert(parse_escape(s, i) == Some(('"', i + 2)));
        } else if c == '\\' {
            assert(s[i + 0] == '\\' && s[i + 1] == '\\');
            assert(parse_escape(s, i) == Some(('\\', i + 2)));
        } else if (c as u32) < 0x20 {
            let cv = c as u32 as int;
            let hi = cv / 16;
            let lo = cv % 16;
            vstd::arithmetic::div_mod::lemma_fundamental_div_mod(cv, 16);
            vstd::arithmetic::div_mod::lemma_mod_bound(cv, 16);
            assert(0 <= hi < 16 && 0 <= lo < 16 && hi * 16 + lo == cv);
            lemma_hex_digit_char_val(hi);
            lemma_hex_digit_char_val(lo);
            assert(s[i + 0] == '\\' && s[i + 1] == 'u' && s[i + 2] == '0' && s[i + 3] == '0');
            assert(s[i + 4] == hex_digit_char(hi) && s[i + 5] == hex_digit_char(lo));
            assert(hex4(s, i + 2) == cv);
            assert((cv as u32) == c as u32);
            vstd::utf8::char_u32_cast(c, c as u32);
            assert(parse_unicode_escape(s, i) == Some((c, i + 6)));
            assert(parse_escape(s, i) == Some((c, i + 6)));
        } else {
            assert(s[i + 0] == c);
            assert(s[i] == c);
        }
        assert(parse_str_chars(s, i) matches Some((got, j)) && got =~= x && j == e) by {
            match parse_str_chars(s, i2) {
                None => {
                    assert(false);
                },
                Some((rest, k)) => {
                    assert(seq![c] + rest =~= x);
                },
            }
        }
    }
}

proof fn lemma_encode_pairs_head(ps: Seq<(Seq<char>, Seq<char>)>)
    requires
        ps.len() >= 1,
    ensures
        ps.len() == 1 ==> encode_pairs(ps) == member_text(ps[0]),
        ps.len() > 1 ==> encode_pairs(ps) =~= member_text(ps[0]) + seq![','] + encode_pairs(
            ps.drop_first(),
        ),
    decreases ps.len(),
{
    if ps.len() > 1 {
        let front = ps.drop_last();
        lemma_encode_pairs_head(front);
        assert(ps.drop_first().drop_last() =~~= front.drop_first());
        assert(ps.drop_first().last() == ps.last());
        if ps.len() == 2 {
            assert(encode_pairs(ps.drop_first()) == member_text(ps.drop_first()[0]));
            assert(ps.drop_first()[0] == ps[1]);
            assert(encode_pairs(ps) =~= member_text(ps[0]) + seq![','] + encode_pairs(
                ps.drop_first(),
            ));
        } else {
            assert(front[0] == ps[0]);
            assert(encode_pairs(ps.drop_first()) =~= encode_pairs(ps.drop_first().drop_last())
                + seq![','] + member_text(ps.drop_first().last()));
            assert(encode_pairs(ps) =~= member_text(ps[0]) + seq![','] + encode_pairs(
                ps.drop_first(),
            ));
        }
    }
}

#[verifier::rlimit(100)]
proof fn lemma_parse_members_of_encoding(s: Seq<char>, i: int, ps: Seq<(Seq<char>, Seq<char>)>)
    requires
        ps.len() >= 1,
        0 <= i,
        i + encode_pairs(ps).len() + 1 <= s.len(),
        s.subrange(i, i + encode_pairs(ps).len() + 1) == encode_pairs(ps) + seq!['}'],
    ensures
        parse_members(s, i) matches Some((got, j)) && got =~~= ps && j == i + encode_pairs(
            ps,
        ).len() + 1,
    decreases ps.len(),
{
    let end = i + encode_pairs(ps).len() + 1;
    let t = encode_pairs(ps) + seq!['}'];
    lemma_encode_pairs_head(ps);
    let p0 = ps[0];
    let m0 = member_text(p0);
    // Every character of the first member stands at its place after `i`.
    assert forall|k: int| 0 <= k < m0.len() implies #[trigger] s[i + k] == m0[k] by {
        lemma_eq_at(s, i, end, t, k);
        if ps.len() == 1 {
            assert(t[k] == m0[k]);
        } else {
            assert(t[k] == (member_text(ps[0]) + seq![','] + encode_pairs(ps.drop_first()))[k]);
        }
    }
    // Key string.
    let q0 = quote_str(p0.0);
    assert(s[i + 0] == m0[0]);
    assert(m0[0] == '"');
    assert(s[i] == '"');
    let ke = i + 1 + json_escape(p0.0).len() + 1;
    assert(s.subrange(i + 1, ke) =~= json_escape(p0.0) + seq!['"']) by {
        assert forall|k: int| 0 <= k < ke - i - 1 implies s.subrange(i + 1, ke)[k] == (json_escape(
            p0.0,
        ) + seq!['"'])[k] by {
            assert(s.subrange(i + 1, ke)[k] == s[i + (k + 1)]);
            assert(s[i + (k + 1)] == m0[k + 1]);
            assert(m0[k + 1] == q0[k + 1]);
        }
    }
    lemma_parse_of_escaped(s, i + 1, p0.0, ke);
    // Colon, then the value string.
    assert(s[i + (ke - i)] == m0[ke - i]);
    assert(m0[ke - i] == ':');
    assert(s[ke] == ':');
    assert(ws_end(s, ke) == ke);
    let vs = ke + 1;
    let q1 = quote_str(p0.1);
    assert(s[i + (vs - i)] == m0[vs - i]);
    assert(m0[vs - i] == q1[0]);
    assert(s[vs] == '"');
    assert(ws_end(s, vs) == vs);
    let ve = vs + 1 + json_escape(p0.1).len() + 1;
    assert(ve == i + m0.len());
    assert(s.subrange(vs + 1, ve) =~= json_escape(p0.1) + seq!['"']) by {
        assert forall|k: int| 0 <= k < ve - vs - 1 implies s.subrange(vs + 1, ve)[k] == (
        json_escape(p0.1) + seq!['"'])[k] by {
            assert(s.subrange(vs + 1, ve)[k] == s[i + (k + (vs + 1 - i))]);
            assert(s[i + (k + (vs + 1 - i))] == m0[k + (vs + 1 - i)]);
            assert(m0[k + (vs + 1 - i)] == q1[k + 1]);
        }
    }
    lemma_parse_of_escaped(s, vs + 1, p0.1, ve);
    if ps.len() == 1 {
        lemma_eq_at(s, i, end, t, ve - i);
        assert(s[i + (ve - i)] == t[ve - i]);
        assert(t[ve - i] == '}');
        assert(s[ve] == '}');
        assert(ws_end(s, ve) == ve);
        assert(parse_members(s, i) matches Some((got, j)) && got =~~= ps && j == end) by {
            assert(seq![(p0.0, p0.1)] =~~= ps);
        }
    } else {
        lemma_eq_at(s, i, end, t, ve - i);
        assert(s[i + (ve - i)] == t[ve - i]);
        assert(t[ve - i] == (member_text(ps[0]) + seq![','] + encode_pairs(ps.drop_first()))[ve
            - i]);
        assert(s[ve] == ',');
        assert(ws_end(s, ve) == ve);
        let rest = ps.drop_first();
        lemma_encode_pairs_head(rest);
        lemma_eq_at(s, i, end, t, ve + 1 - i);
        assert(s[i + (ve + 1 - i)] == t[ve + 1 - i]);
        assert(t[ve + 1 - i] == encode_pairs(rest)[0]);
        assert(encode_pairs(rest)[0] == member_text(rest[0])[0]);
        assert(member_text(rest[0])[0] == '"');
        assert(s[ve + 1] == '"');
        assert(ws_end(s, ve + 1) == ve + 1);
        assert(s.subrange(ve + 1, end) =~= encode_pairs(rest) + seq!['}']) by {
            assert forall|k: int| 0 <= k < end - ve - 1 implies s.subrange(ve + 1, end)[k] == (
            encode_pairs(rest) + seq!['}'])[k] by {
                lemma_eq_at(s, i, end, t, k + (ve + 1 - i));
                assert(s.subrange(ve + 1, end)[k] == s[i + (k + (ve + 1 - i))]);
                if k + (ve + 1 - i) < encode_pairs(ps).len() {
                    assert(t[k + (ve + 1 - i)] == (member_text(ps[0]) + seq![','] + encode_pairs(
                        rest,
                    ))[k + (ve + 1 - i)]);
                }
            }
        }
        lemma_parse_members_of_encoding(s, ve + 1, rest);
        assert(parse_members(s, i) matches Some((got, j)) && got =~~= ps && j == end) by {
            match parse_members(s, ve + 1) {
                None => {
                    assert(false);
                },
                Some((tail, g)) => {
                    assert(seq![(p0.0, p0.1)] + tail =~~= ps);
                },
            }
        }
    }
}

/// Law: decoding the canonical JSON text of a non-empty map of strings
/// whose keys are unique yields exactly that map's pairs: parsing
/// `encode_json(ps)` succeeds, and folding the parsed members gives `ps`
/// back.
pub proof fn lemma_json_round_trip(ps: Seq<(Seq<char>, Seq<char>)>)
    requires
        wf_pairs(ps),
        ps.len() > 0,
    ensures
        parse_object(encode_json(ps)) matches Some(got) && dedup_pairs(got) == ps,
{
    let s = encode_json(ps);
    lemma_encode_pairs_head(ps);
    assert(s[0] == '{');
    assert(ws_end(s, 0) == 0);
    assert(s[1] == encode_pairs(ps)[0]);
    assert(encode_pairs(ps)[0] == member_text(ps[0])[0]);
    assert(member_text(ps[0])[0] == '"');
    assert(ws_end(s, 1) == 1);
    assert(s.subrange(1, s.len() as int) =~= encode_pairs(ps) + seq!['}']);
    lemma_parse_members_of_encoding(s, 1, ps);
    assert(ws_end(s, s.len() as int) == s.len());
    match parse_members(s, 1) {
        None => {
            assert(false);
        },
        Some((got, j)) => {
            assert(got =~~= ps);
            lemma_dedup_unique(ps);
            assert(dedup_pairs(got) == ps);
        },
    }
}

// ---------------------------------------------------------------------
// Executable form
// ---------------------------------------------------------------------

/// Whether the character of `v` at `j` is JSON whitespace.
fn ws_at(v: &Vec<char>, j: usize) -> (r: bool)
    requires
        j < v@.len(),
    ensures
        r == is_ws(v@[j as int]),
{
    let c = v[j];
    c == ' ' || c == '\t' || c == '\n' || c == '\r'
}

/// Skip whitespace from `start`.
fn ws_skip(v: &Vec<char>, start: usize) -> (r: usize)
    requires
        start <= v@.len(),
    ensures
        r == ws_end(v@, start as int),
        start <= r <= v@.len(),
{
    let mut i = start;
    while i < v.len() && ws_at(v, i)
        invariant
            start <= i <= v@.len(),
            ws_end(v@, start as int) == ws_end(v@, i as int),
        decreases v@.len() - i,
    {
        i += 1;
    }
    i
}

/// Append the escaped form of one character.
fn push_escaped(out: &mut Vec<char>, c: char)
    ensures
        final(out)@ == old(out)@ + escape_char(c),
{
    if c == '"' {
        out.push('\\');
        out.push('"');
        proof {
            assert(out@ =~= old(out)@ + escape_char(c));
        }
    } else if c == '\\' {
        out.push('\\');
        out.push('\\');
        proof {
            assert(out@ =~= old(out)@ + escape_char(c));
        }
    } else {
        let u = c as u32;
        if u < 0x20 {
            out.push('\\');
            out.push('u');
            out.push('0');
            out.push('0');
            out.push(hex_char(u / 16));
            out.push(hex_char(u % 16));
            proof {
                assert(out@ =~= old(out)@ + escape_char(c));
            }
        } else {
            out.push(c);
            proof {
                assert(out@ =~= old(out)@ + escape_char(c));
            }
        }
    }
}

proof fn lemma_json_escape_snoc(a: Seq<char>, c: char)
    ensures
        json_escape(a.push(c)) == json_escape(a) + escape_char(c),
    decreases a.len(),
{
    if a.len() == 0 {
        assert(a.push(c).drop_first() =~= Seq::<char>::empty());
        assert(json_escape(a.push(c)) =~= json_escape(a) + escape_char(c)) by {
            reveal_with_fuel(json_escape, 2);
        }
    } else {
        assert(a.push(c).drop_first() =~= a.drop_first().push(c));
        lemma_json_escape_snoc(a.drop_first(), c);
        assert(json_escape(a.push(c)) =~= json_escape(a) + escape_char(c));
    }
}

/// Append a quoted, escaped string literal.
fn push_quoted(out: &mut Vec<char>, s: &String)
    ensures
        final(out)@ == old(out)@ + quote_str(s@),
{
    out.push('"');
    let cs = str_to_chars(s.as_str());
    let mut i: usize = 0;
    while i < cs.len()
        invariant
            cs@ == s@,
            i <= cs@.len(),
            out@ == old(out)@ + seq!['"'] + json_escape(s@.take(i as int)),
        decreases cs@.len() - i,
    {
        push_escaped(out, cs[i]);
        proof {
            assert(s@.take(i as int).push(s@[i as int]) =~= s@.take(i + 1));
            lemma_json_escape_snoc(s@.take(i as int), s@[i as int]);
            assert(out@ =~= old(out)@ + seq!['"'] + json_escape(s@.take(i + 1)));
        }
        i += 1;
    }
    out.push('"');
    proof {
        assert(s@.take(s@.len() as int) =~= s@);
        assert(out@ =~= old(out)@ + quote_str(s@));
    }
}

/// A map from locale codes to display strings, kept as ordered pairs
/// with unique keys.
pub struct LocalizedText {
    pairs: Vec<(String, String)>,
}

impl View for LocalizedText {
    type V = Seq<(Seq<char>, Seq<char>)>;

    closed spec fn view(&self) -> Seq<(Seq<char>, Seq<char>)> {
        self.pairs@.map_values(|p: (String, String)| (p.0@, p.1@))
    }
}

proof fn lemma_pairs_map_last_match(ps: Seq<(Seq<char>, Seq<char>)>, k: Seq<char>, i: int)
    requires
        0 <= i < ps.len(),
        ps[i].0 == k,
        forall|j: int| i < j < ps.len() ==> (#[trigger] ps[j]).0 != k,
    ensures
        pairs_map(ps).contains_key(k),
        pairs_map(ps)[k] == ps[i].1,
    decreases ps.len(),
{
    if i == ps.len() - 1 {
    } else {
        lemma_pairs_map_last_match(ps.drop_last(), k, i);
    }
}

proof fn lemma_pairs_map_no_match(ps: Seq<(Seq<char>, Seq<char>)>, k: Seq<char>)
    requires
        forall|j: int| 0 <= j < ps.len() ==> (#[trigger] ps[j]).0 != k,
    ensures
        !pairs_map(ps).contains_key(k),
    decreases ps.len(),
{
    if ps.len() > 0 {
        lemma_pairs_map_no_match(ps.drop_last(), k);
    }
}

proof fn lemma_spec_insert_found(qs: Seq<(Seq<char>, Seq<char>)>, k: Seq<char>, v: Seq<char>, i: int)
    requires
        0 <= i < qs.len(),
        qs[i].0 == k,
        forall|j: int| 0 <= j < i ==> (#[trigger] qs[j]).0 != k,
    ensures
        spec_insert(qs, k, v) =~~= qs.update(i, (k, v)),
    decreases qs.len(),
{
    if i == 0 {
        assert(spec_insert(qs, k, v) =~~= qs.update(0, (k, v)));
    } else {
        assert(qs.drop_first()[i - 1].0 == k);
        assert(forall|j: int| 0 <= j < i - 1 ==> (#[trigger] qs.drop_first()[j]).0 != k);
        lemma_spec_insert_found(qs.drop_first(), k, v, i - 1);
        assert(spec_insert(qs, k, v) =~~= qs.update(i, (k, v)));
    }
}

proof fn lemma_spec_insert_absent(qs: Seq<(Seq<char>, Seq<char>)>, k: Seq<char>, v: Seq<char>)
    requires
        forall|j: int| 0 <= j < qs.len() ==> (#[trigger] qs[j]).0 != k,
    ensures
        spec_insert(qs, k, v) =~~= qs.push((k, v)),
    decreases qs.len(),
{
    if qs.len() > 0 {
        lemma_spec_insert_absent(qs.drop_first(), k, v);
        assert(spec_insert(qs, k, v) =~~= qs.push((k, v)));
    }
}

impl LocalizedText {
    /// No two pairs share a key.
    pub open spec fn wf(&self) -> bool {
        wf_pairs(self@)
    }

    /// The mapping this value denotes.
    pub open spec fn as_map(&self) -> Map<Seq<char>, Seq<char>> {
        pairs_map(self@)
    }

    /// The empty map.
    pub fn new() -> (r: LocalizedText)
        ensures
            r@ == Seq::<(Seq<char>, Seq<char>)>::empty(),
            r.wf(),
    {
        let r = LocalizedText { pairs: Vec::new() };
        proof {
            assert(r@ =~~= Seq::<(Seq<char>, Seq<char>)>::empty());
        }
        r
    }

    /// How many pairs are held.
    pub fn len(&self) -> (r: usize)
        ensures
            r == self@.len(),
    {
        self.pairs.len()
    }

    /// The pair at a position, by view order.
    pub fn pair(&self, i: usize) -> (r: (&String, &String))
        requires
            i < self@.len(),
        ensures
            r.0@ == self@[i as int].0,
            r.1@ == self@[i as int].1,
    {
        (&self.pairs[i].0, &self.pairs[i].1)
    }

    /// Set `key` to `value`: replaces the value at an existing key, else
    /// appends the pair.
    pub fn insert(&mut self, key: String, value: String)
        ensures
            final(self)@ == spec_insert(old(self)@, key@, value@),
            old(self).wf() ==> final(self).wf(),
    {
        let mut i: usize = 0;
        while i < self.pairs.len()
            invariant
                self@ == old(self)@,
                i <= old(self)@.len(),
                forall|j: int| 0 <= j < i ==> (#[trigger] old(self)@[j]).0 != key@,
            decreases old(self)@.len() - i,
        {
            if self.pairs[i].0 == key {
                let _ = self.pairs.remove(i);
                self.pairs.insert(i, (key, value));
                proof {
                    let qs = old(self)@;
                    assert(qs[i as int].0 == key@);
                    assert(self@ =~~= qs.update(i as int, (key@, value@)));
                    lemma_spec_insert_found(qs, key@, value@, i as int);
                    if wf_pairs(qs) {
                        assert(self@.len() == qs.len());
                        assert(forall|x: int|
                            0 <= x < qs.len() ==> (#[trigger] self@[x]).0 == qs[x].0);
                        assert(forall|a: int, b: int|
                            0 <= a < b < self@.len() ==> (#[trigger] self@[a]).0 != (
                            #[trigger] self@[b]).0);
                    }
                }
                return ;
            }
            i += 1;
        }
        self.pairs.push((key, value));
        proof {
            let qs = old(self)@;
            assert(self@ =~~= qs.push((key@, value@)));
            lemma_spec_insert_absent(qs, key@, value@);
            if wf_pairs(qs) {
                assert(self@.len() == qs.len() + 1);
                assert(forall|x: int| 0 <= x < qs.len() ==> (#[trigger] self@[x]).0 == qs[x].0);
                assert(self@[qs.len() as int].0 == key@);
                assert(forall|a: int, b: int|
                    0 <= a < b < self@.len() ==> (#[trigger] self@[a]).0 != (#[trigger] self@[b]).0);
            }
        }
    }

    /// Look a key up; the answer is the value of the last pair with that
    /// key, as the denoted mapping has it.
    pub fn get<'a>(&'a self, key: &str) -> (r: Option<&'a String>)
        ensures
            match r {
                Some(v) => self.as_map().contains_key(key@) && v@ == self.as_map()[key@],
                None => !self.as_map().contains_key(key@),
            },
    {
        let ks = key.to_owned();
        let mut i: usize = self.pairs.len();
        while i > 0
            invariant
                i <= self@.len(),
                ks@ == key@,
                forall|j: int| i <= j < self@.len() ==> (#[trigger] self@[j]).0 != key@,
            decreases i,
        {
            i -= 1;
            if self.pairs[i].0 == ks {
                proof {
                    lemma_pairs_map_last_match(self@, key@, i as int);
                }
                return Some(&self.pairs[i].1);
            }
        }
        proof {
            lemma_pairs_map_no_match(self@, key@);
        }
        None
    }

    /// The canonical JSON text of this map.
    pub fn to_json(&self) -> (r: String)
        ensures
            r@ == encode_json(self@),
    {
        let mut out: Vec<char> = Vec::new();
        out.push('{');
        let mut i: usize = 0;
        while i < self.pairs.len()
            invariant
                i <= self@.len(),
                self@.len() == self.pairs@.len(),
                out@ == seq!['{'] + encode_pairs(self@.take(i as int)),
            decreases self@.len() - i,
        {
            if i > 0 {
                out.push(',');
            }
            push_quoted(&mut out, &self.pairs[i].0);
            out.push(':');
            push_quoted(&mut out, &self.pairs[i].1);
            proof {
                let ps = self@;
                assert(ps.take(i + 1).drop_last() =~= ps.take(i as int));
                assert(ps.take(i + 1).last() == ps[i as int]);
                if i == 0 {
                    assert(out@ =~= seq!['{'] + encode_pairs(ps.take(1)));
                } else {
                    assert(out@ =~= seq!['{'] + encode_pairs(ps.take(i + 1)));
                }
            }
            i += 1;
        }
        out.push('}');
        proof {
            assert(self@.take(self@.len() as int) =~= self@);
            assert(out@ =~= encode_json(self@));
        }
        chars_to_string(&out)
    }

    /// Parse a JSON object of strings; a later member overrides an
    /// earlier one with the same key. Anything else is rejected.
    pub fn from_json(s: &str) -> (r: Option<LocalizedText>)
        ensures
            match r {
                Some(lt) => {
                    &&& parse_object(s@) matches Some(ps) && lt@ == dedup_pairs(ps)
                    &&& lt.wf()
                },
                None => parse_object(s@) is None,
            },
    {
        let v = str_to_chars(s);
        let n = v.len();
        let i = ws_skip(&v, 0);
        if i >= n || v[i] != '{' {
            return None;
        }
        let j = ws_skip(&v, i + 1);
        if j < n && v[j] == '}' {
            if ws_skip(&v, j + 1) == n {
                return Some(LocalizedText::new());
            } else {
                return None;
            }
        }
        let mut lt = LocalizedText::new();
        let ghost mut done: Seq<(Seq<char>, Seq<char>)> = Seq::empty();
        let mut cur = j;
        loop
            invariant
                v@ == s@,
                n == v@.len(),
                j <= cur <= n,
                lt@ == dedup_pairs(done),
                lt.wf(),
                (parse_members(v@, cur as int) is None) ==> (parse_members(v@, j as int) is None),
                parse_members(v@, cur as int) matches Some((rest, k)) ==> parse_members(
                    v@,
                    j as int,
                ) matches Some((all, k2)) && all =~~= done + rest && k2 == k,
                // The object is only accepted if the members from `j` parse
                // and are followed by whitespace to the end.
                ws_end(v@, 0) == i && i < n && v@[i as int] == '{' && ws_end(v@, i + 1) == j,
                !(j < n && v@[j as int] == '}'),
            decreases n - cur,
        {
            if cur >= n || v[cur] != '"' {
                return None;
            }
            let kv = match parse_string_x(&v, cur + 1) {
                None => {
                    return None;
                },
                Some(p) => p,
            };
            let key_chars = kv.0;
            let a = kv.1;
            let b = ws_skip(&v, a);
            if b >= n || v[b] != ':' {
                return None;
            }
            let c = ws_skip(&v, b + 1);
            if c >= n || v[c] != '"' {
                return None;
            }
            let vv = match parse_string_x(&v, c + 1) {
                None => {
                    return None;
                },
                Some(p) => p,
            };
            let val_chars = vv.0;
            let d = vv.1;
            let e = ws_skip(&v, d);
            if e >= n {
                return None;
            }
            let key = chars_to_string(&key_chars);
            let val = chars_to_string(&val_chars);
            if v[e] == '}' {
                // This was the last member.
                let ghost done_old = done;
                let ghost kvp = (key_chars@, val_chars@);
                lt.insert(key, val);
                proof {
                    assert(parse_members(v@, cur as int) matches Some((one, k)) && one
                        =~~= seq![kvp] && k == e + 1);
                    assert(done_old + seq![kvp] =~~= done_old.push(kvp));
                    done = done_old.push(kvp);
                    assert(done.drop_last() =~~= done_old);
                    assert(lt@ == dedup_pairs(done));
                }
                if ws_skip(&v, e + 1) == n {
                    return Some(lt);
                } else {
                    return None;
                }
            } else if v[e] == ',' {
                let f = ws_skip(&v, e + 1);
                let ghost done_old = done;
                let ghost kvp = (key_chars@, val_chars@);
                lt.insert(key, val);
                proof {
                    match parse_members(v@, f as int) {
                        None => {
                            assert(parse_members(v@, cur as int) is None);
                        },
                        Some((rest, g)) => {
                            assert(parse_members(v@, cur as int) matches Some((whole, k)) && whole
                                =~~= seq![kvp] + rest && k == g);
                            assert(done_old + (seq![kvp] + rest) =~~= done_old.push(kvp) + rest);
                        },
                    }
                    done = done_old.push(kvp);
                    assert(done.drop_last() =~~= done_old);
                    assert(lt@ == dedup_pairs(done));
                }
                cur = f;
            } else {
                return None;
            }
        }
    }
}

/// The body of a string literal of `v` starting at `start` (just after
/// the opening quote).
fn parse_string_x(v: &Vec<char>, start: usize) -> (r: Option<(Vec<char>, usize)>)
    requires
        start <= v@.len(),
    ensures
        match r {
            Some(p) => parse_str_chars(v@, start as int) == Some((p.0@, p.1 as int)) && start < p.1
                <= v@.len(),
            None => parse_str_chars(v@, start as int) is None,
        },
{
    let mut acc: Vec<char> = Vec::new();
    let mut i = start;
    loop
        invariant
            start <= i <= v@.len(),
            (parse_str_chars(v@, i as int) is None) ==> (parse_str_chars(v@, start as int) is None),
            parse_str_chars(v@, i as int) matches Some((rest, k)) ==> parse_str_chars(
                v@,
                start as int,
            ) matches Some((full, k2)) && full =~= acc@ + rest && k2 == k,
        decreases v@.len() - i,
    {
        if i >= v.len() {
            return None;
        }
        let c = v[i];
        if c == '"' {
            proof {
                assert(acc@ + Seq::<char>::empty() =~= acc@);
                lemma_parse_str_chars_bounds(v@, start as int);
            }
            return Some((acc, i + 1));
        } else if c == '\\' {
            match parse_escape_x(v, i) {
                None => {
                    return None;
                },
                Some((ch, jj)) => {
                    proof {
                        let acc_old = acc@;
                        match parse_str_chars(v@, jj as int) {
                            None => {},
                            Some((rest, k)) => {
                                assert(acc_old + (seq![ch] + rest) =~= acc_old.push(ch) + rest);
                            },
                        }
                    }
                    acc.push(ch);
                    i = jj;
                },
            }
        } else {
            let u = c as u32;
            if u < 0x20 {
                return None;
            }
            proof {
                let acc_old = acc@;
                match parse_str_chars(v@, i + 1) {
                    None => {},
                    Some((rest, k)) => {
                        assert(acc_old + (seq![c] + rest) =~= acc_old.push(c) + rest);
                    },
                }
            }
            acc.push(c);
            i = i + 1;
        }
    }
}

/// An escape sequence of `v` at `i` (where `v[i] == '\\'`).
#[verifier::rlimit(80)]
fn parse_escape_x(v: &Vec<char>, i: usize) -> (r: Option<(char, usize)>)
    requires
        i < v@.len(),
        v@[i as int] == '\\',
    ensures
        match r {
            Some(p) => parse_escape(v@, i as int) == Some((p.0, p.1 as int)) && i < p.1 <= v@.len(),
            None => parse_escape(v@, i as int) is None,
        },
{
    let n = v.len();
    if n - i < 2 {
        return None;
    }
    let c = v[i + 1];
    if c == '"' {
        Some(('"', i + 2))
    } else if c == '\\' {
        Some(('\\', i + 2))
    } else if c == '/' {
        Some(('/', i + 2))
    } else if c == 'b' {
        Some(('\u{0008}', i + 2))
    } else if c == 'f' {
        Some(('\u{000C}', i + 2))
    } else if c == 'n' {
        Some(('\n', i + 2))
    } else if c == 'r' {
        Some(('\r', i + 2))
    } else if c == 't' {
        Some(('\t', i + 2))
    } else if c == 'u' {
        if n - i < 6 {
            return None;
        }
        if !(check_hex_digit(v[i + 2]) && check_hex_digit(v[i + 3]) && check_hex_digit(v[i + 4])
            && check_hex_digit(v[i + 5])) {
            return None;
        }
        let u = hex_value(v[i + 2]) * 4096 + hex_value(v[i + 3]) * 256 + hex_value(v[i + 4]) * 16
            + hex_value(v[i + 5]);
        if 0xD800 <= u && u < 0xDC00 {
            if n - i < 12 {
                return None;
            }
            if !(v[i + 6] == '\\' && v[i + 7] == 'u') {
                return None;
            }
            if !(check_hex_digit(v[i + 8]) && check_hex_digit(v[i + 9]) && check_hex_digit(
                v[i + 10],
            ) && check_hex_digit(v[i + 11])) {
                return None;
            }
            let lo = hex_value(v[i + 8]) * 4096 + hex_value(v[i + 9]) * 256 + hex_value(v[i + 10])
                * 16 + hex_value(v[i + 11]);
            if !(0xDC00 <= lo && lo < 0xE000) {
                return None;
            }
            let combined = 0x10000 + (u - 0xD800) * 0x400 + (lo - 0xDC00);
            match char_from_u32(combined) {
                Some(ch) => {
                    proof {
                        vstd::utf8::char_u32_cast(ch, combined);
                    }
                    Some((ch, i + 12))
                },
                None => {
                    proof {
                        assert(false);
                    }
                    None
                },
            }
        } else if 0xDC00 <= u && u < 0xE000 {
            None
        } else {
            match char_from_u32(u) {
                Some(ch) => {
                    proof {
                        vstd::utf8::char_u32_cast(ch, u);
                    }
                    Some((ch, i + 6))
                },
                None => {
                    proof {
                        assert(false);
                    }
                    None
                },
            }
        }
    } else {
        None
    }
}

} // verus!
