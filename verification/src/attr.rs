//! The raw record and its field accessors: a string-keyed mapping of
//! tagged values, as a wide-column point query returns it, and the
//! operations that pull one typed field out of it.
//!
//! Every accessor is total over the record and distinguishes "key absent"
//! from "key present with the wrong shape", because the two map to
//! different error classes.

use vstd::prelude::*;
use crate::errors::{ModelError, ModelErrorView};
use crate::json::{dedup_pairs, parse_object, LocalizedText};
use crate::rfc3339::{dec_fold, spec_parse_rfc3339, Timestamp};
use crate::text::{check_digit, is_digit, str_to_chars};
use crate::uid::{spec_parse_uuid, UuidVal};
use vstd::string::StrSliceExecFns;

verus! {

/// One stored value: a string, a number kept in its string form, a
/// boolean, or a set of strings.
pub enum AttrValue {
    S(String),
    N(String),
    Bool(bool),
    Ss(Vec<String>),
}

/// The mathematical shape of an `AttrValue`.
pub enum AttrView {
    S(Seq<char>),
    N(Seq<char>),
    Bool(bool),
    Ss(Seq<Seq<char>>),
}

impl View for AttrValue {
    type V = AttrView;

    open spec fn view(&self) -> AttrView {
        match self {
            AttrValue::S(s) => AttrView::S(s@),
            AttrValue::N(s) => AttrView::N(s@),
            AttrValue::Bool(b) => AttrView::Bool(*b),
            AttrValue::Ss(v) => AttrView::Ss(v.deep_view()),
        }
    }
}

/// Which wire shape a scalar field is expected in: number-encoded or
/// string-encoded.
#[derive(Debug, Clone, Copy, PartialEq, Eq, Structural)]
pub enum ScalarKind {
    N,
    S,
}

/// The name of a scalar kind as it appears in error messages.
pub open spec fn kind_name(k: ScalarKind) -> Seq<char> {
    match k {
        ScalarKind::N => "N"@,
        ScalarKind::S => "S"@,
    }
}

/// A raw record: field names mapped to tagged values. A later insert
/// with the same name overrides an earlier one.
pub struct RawRecord {
    entries: Vec<(String, AttrValue)>,
}

/// The mapping an entry sequence denotes, a later entry overriding an
/// earlier one with the same name.
pub open spec fn record_map(s: Seq<(String, AttrValue)>) -> Map<Seq<char>, AttrView>
    decreases s.len(),
{
    if s.len() == 0 {
        Map::empty()
    } else {
        record_map(s.drop_last()).insert(s.last().0@, s.last().1@)
    }
}

impl View for RawRecord {
    type V = Map<Seq<char>, AttrView>;

    closed spec fn view(&self) -> Map<Seq<char>, AttrView> {
        record_map(self.entries@)
    }
}

proof fn lemma_record_map_last_match(s: Seq<(String, AttrValue)>, k: Seq<char>, i: int)
    requires
        0 <= i < s.len(),
        s[i].0@ == k,
        forall|j: int| i < j < s.len() ==> (#[trigger] s[j]).0@ != k,
    ensures
        record_map(s).contains_key(k),
        record_map(s)[k] == s[i].1@,
    decreases s.len(),
{
    if i < s.len() - 1 {
        lemma_record_map_last_match(s.drop_last(), k, i);
    }
}

proof fn lemma_record_map_no_match(s: Seq<(String, AttrValue)>, k: Seq<char>)
    requires
        forall|j: int| 0 <= j < s.len() ==> (#[trigger] s[j]).0@ != k,
    ensures
        !record_map(s).contains_key(k),
    decreases s.len(),
{
    if s.len() > 0 {
        lemma_record_map_no_match(s.drop_last(), k);
    }
}

impl RawRecord {
    /// The empty record.
    pub fn new() -> (r: RawRecord)
        ensures
            r@ == Map::<Seq<char>, AttrView>::empty(),
    {
        let r = RawRecord { entries: Vec::new() };
        proof {
            assert(r@ =~= Map::<Seq<char>, AttrView>::empty());
        }
        r
    }

    /// Store a value under a field name.
    pub fn insert(&mut self, field: String, value: AttrValue)
        ensures
            final(self)@ == old(self)@.insert(field@, value@),
    {
        self.entries.push((field, value));
        proof {
            assert(self.entries@.drop_last() =~= old(self).entries@);
        }
    }

    /// Read the value stored under a field name.
    pub fn get<'a>(&'a self, field: &str) -> (r: Option<&'a AttrValue>)
        ensures
            match r {
                Some(v) => self@.contains_key(field@) && v@ == self@[field@],
                None => !self@.contains_key(field@),
            },
    {
        let fs = field.to_owned();
        let mut i: usize = self.entries.len();
        while i > 0
            invariant
                i <= self.entries@.len(),
                fs@ == field@,
                forall|j: int|
                    i <= j < self.entries@.len() ==> (#[trigger] self.entries@[j]).0@ != field@,
            decreases i,
        {
            i -= 1;
            if self.entries[i].0 == fs {
                proof {
                    lemma_record_map_last_match(self.entries@, field@, i as int);
                }
                return Some(&self.entries[i].1);
            }
        }
        proof {
            lemma_record_map_no_match(self.entries@, field@);
        }
        None
    }
}

// ---------------------------------------------------------------------
// Field accessors
// ---------------------------------------------------------------------

/// Reading a field as a string: absent and wrongly-shaped fields are
/// the two error classes.
pub open spec fn spec_get_string(m: Map<Seq<char>, AttrView>, f: Seq<char>) -> Result<
    Seq<char>,
    ModelErrorView,
> {
    if !m.contains_key(f) {
        Err(ModelErrorView::MissingField(f))
    } else if !(m[f] is S) {
        Err(ModelErrorView::InvalidData(f + " field is not a string"@))
    } else {
        Ok(m[f]->S_0)
    }
}

fn get_string<'a>(record: &'a RawRecord, field: &str) -> (r: Result<&'a String, ModelError>)
    ensures
        match r {
            Ok(s) => spec_get_string(record@, field@) == Ok::<Seq<char>, ModelErrorView>(s@),
            Err(e) => spec_get_string(record@, field@) == Err::<Seq<char>, ModelErrorView>(e@),
        },
{
    match record.get(field) {
        None => Err(ModelError::MissingField(field.to_owned())),
        Some(AttrValue::S(s)) => Ok(s),
        Some(_) => Err(
            ModelError::InvalidData(field.to_owned().concat(" field is not a string")),
        ),
    }
}

/// Reading a field as a boolean.
pub open spec fn spec_get_boolean(m: Map<Seq<char>, AttrView>, f: Seq<char>) -> Result<
    bool,
    ModelErrorView,
> {
    if !m.contains_key(f) {
        Err(ModelErrorView::MissingField(f))
    } else if !(m[f] is Bool) {
        Err(ModelErrorView::InvalidData(f + " is not a bool"@))
    } else {
        Ok(m[f]->Bool_0)
    }
}

/// Read a required boolean field.
pub fn get_boolean(record: &RawRecord, field: &str) -> (r: Result<bool, ModelError>)
    ensures
        match r {
            Ok(b) => spec_get_boolean(record@, field@) == Ok::<bool, ModelErrorView>(b),
            Err(e) => spec_get_boolean(record@, field@) == Err::<bool, ModelErrorView>(e@),
        },
{
    match record.get(field) {
        None => Err(ModelError::MissingField(field.to_owned())),
        Some(AttrValue::Bool(b)) => Ok(*b),
        Some(_) => Err(ModelError::InvalidData(field.to_owned().concat(" is not a bool"))),
    }
}

/// Read a required string field, owned. (The generic scalar accessor of
/// the wire layer, at the one instantiation the record schema uses.)
pub fn get_field(record: &RawRecord, field: &str) -> (r: Result<String, ModelError>)
    ensures
        match r {
            Ok(s) => spec_get_string(record@, field@) == Ok::<Seq<char>, ModelErrorView>(s@),
            Err(e) => spec_get_string(record@, field@) == Err::<Seq<char>, ModelErrorView>(e@),
        },
{
    match get_string(record, field) {
        Ok(s) => Ok(s.clone()),
        Err(e) => Err(e),
    }
}

/// Parsing every member of a string set as a UUID; the first member
/// that does not parse names the error.
pub open spec fn spec_parse_uuid_seq(items: Seq<Seq<char>>, f: Seq<char>) -> Result<
    Seq<UuidVal>,
    ModelErrorView,
>
    decreases items.len(),
{
    if items.len() == 0 {
        Ok(Seq::empty())
    } else {
        match spec_parse_uuid(items[0]) {
            None => Err(ModelErrorView::InvalidGenericType(f, items[0])),
            Some(u) => match spec_parse_uuid_seq(items.drop_first(), f) {
                Ok(rest) => Ok(seq![u] + rest),
                Err(e) => Err(e),
            },
        }
    }
}

/// Reading a field as a list of UUIDs: an absent key is the empty list,
/// not an error.
pub open spec fn spec_get_list(m: Map<Seq<char>, AttrView>, f: Seq<char>) -> Result<
    Seq<UuidVal>,
    ModelErrorView,
> {
    if !m.contains_key(f) {
        Ok(Seq::empty())
    } else if !(m[f] is Ss) {
        Err(ModelErrorView::InvalidData(f + " is not a string list"@))
    } else {
        spec_parse_uuid_seq(m[f]->Ss_0, f)
    }
}

/// Read a string-set field as UUIDs; absence yields the empty list.
pub fn get_list(record: &RawRecord, field: &str) -> (r: Result<Vec<UuidVal>, ModelError>)
    ensures
        match r {
            Ok(v) => spec_get_list(record@, field@) == Ok::<Seq<UuidVal>, ModelErrorView>(v@),
            Err(e) => spec_get_list(record@, field@) == Err::<Seq<UuidVal>, ModelErrorView>(e@),
        },
{
    let items = match record.get(field) {
        None => {
            let empty: Vec<UuidVal> = Vec::new();
            proof {
                assert(empty@ =~= Seq::<UuidVal>::empty());
            }
            return Ok(empty);
        },
        Some(AttrValue::Ss(items)) => items,
        Some(_) => {
            return Err(ModelError::InvalidData(field.to_owned().concat(" is not a string list")));
        },
    };
    let ghost all = items.deep_view();
    proof {
        assert(all.skip(0) =~~= all);
    }
    let mut out: Vec<UuidVal> = Vec::new();
    let mut i: usize = 0;
    while i < items.len()
        invariant
            i <= items@.len(),
            all == items.deep_view(),
            all.len() == items@.len(),
            record@.contains_key(field@),
            record@[field@] == AttrView::Ss(all),
            forall|j: int| 0 <= j < all.len() ==> all[j] == (#[trigger] items@[j])@,
            match spec_parse_uuid_seq(all.skip(i as int), field@) {
                Ok(rest) => spec_parse_uuid_seq(all, field@) matches Ok(full) && full =~= out@
                    + rest,
                Err(e) => spec_parse_uuid_seq(all, field@) == Err::<Seq<UuidVal>, ModelErrorView>(
                    e,
                ),
            },
            out@.len() == i,
        decreases items@.len() - i,
    {
        proof {
            assert(all.skip(i as int)[0] == all[i as int]);
            assert(all.skip(i as int).drop_first() =~= all.skip(i + 1));
        }
        match UuidVal::parse(items[i].as_str()) {
            None => {
                proof {
                    assert(all[i as int] == items@[i as int]@);
                    assert(spec_parse_uuid(all.skip(i as int)[0]) is None);
                    assert(spec_parse_uuid_seq(all.skip(i as int), field@) == Err::<
                        Seq<UuidVal>,
                        ModelErrorView,
                    >(ModelErrorView::InvalidGenericType(field@, all[i as int])));
                }
                return Err(
                    ModelError::InvalidGenericType(field.to_owned(), items[i].clone()),
                );
            },
            Some(u) => {
                proof {
                    match spec_parse_uuid_seq(all.skip(i + 1), field@) {
                        Ok(rest) => {
                            assert(out@ + (seq![u] + rest) =~= out@.push(u) + rest);
                        },
                        Err(_) => {},
                    }
                }
                out.push(u);
            },
        }
        i += 1;
    }
    proof {
        assert(all.skip(items@.len() as int) =~= Seq::<Seq<char>>::empty());
        match spec_parse_uuid_seq(all, field@) {
            Ok(full) => {
                assert(out@ + Seq::<UuidVal>::empty() =~= out@);
            },
            Err(e) => {
                assert(false);
            },
        }
    }
    Ok(out)
}

/// Reading an optional scalar field: absence is not an error, but a
/// present value must be stored in the expected wire shape.
pub open spec fn spec_get_optional_field(
    m: Map<Seq<char>, AttrView>,
    f: Seq<char>,
    kind: ScalarKind,
) -> Result<Option<Seq<char>>, ModelErrorView> {
    if !m.contains_key(f) {
        Ok(None)
    } else {
        match kind {
            ScalarKind::N => if m[f] is N {
                Ok(Some(m[f]->N_0))
            } else {
                Err(ModelErrorView::InvalidData(f + " field is not a "@ + kind_name(kind)))
            },
            ScalarKind::S => if m[f] is S {
                Ok(Some(m[f]->S_0))
            } else {
                Err(ModelErrorView::InvalidData(f + " field is not a "@ + kind_name(kind)))
            },
        }
    }
}

/// Read an optional scalar field in its string form, requiring the
/// expected wire shape when the key is present.
pub fn get_optional_field(record: &RawRecord, field: &str, kind: ScalarKind) -> (r: Result<
    Option<String>,
    ModelError,
>)
    ensures
        match r {
            Ok(v) => spec_get_optional_field(record@, field@, kind) == Ok::<
                Option<Seq<char>>,
                ModelErrorView,
            >(
                match v {
                    Some(s) => Some(s@),
                    None => None,
                },
            ),
            Err(e) => spec_get_optional_field(record@, field@, kind) == Err::<
                Option<Seq<char>>,
                ModelErrorView,
            >(e@),
        },
{
    let v = match record.get(field) {
        None => {
            return Ok(None);
        },
        Some(v) => v,
    };
    let kn = match kind {
        ScalarKind::N => "N",
        ScalarKind::S => "S",
    };
    match (kind, v) {
        (ScalarKind::N, AttrValue::N(s)) => Ok(Some(s.clone())),
        (ScalarKind::S, AttrValue::S(s)) => Ok(Some(s.clone())),
        _ => Err(ModelError::InvalidData(field.to_owned().concat(" field is not a ").concat(kn))),
    }
}

/// Parsing a number in decimal as the wire writes it: an optional `+`
/// sign, then digits, within the sixteen-bit range.
pub open spec fn u16_digits(s: Seq<char>) -> Seq<char> {
    if s.len() > 0 && s[0] == '+' {
        s.drop_first()
    } else {
        s
    }
}

/// The text forms `u16` parsing accepts.
pub open spec fn valid_u16_text(s: Seq<char>) -> bool {
    &&& u16_digits(s).len() >= 1
    &&& forall|i: int| 0 <= i < u16_digits(s).len() ==> is_digit(#[trigger] u16_digits(s)[i])
    &&& dec_fold(u16_digits(s)) <= 65535
}

/// What parsing a `u16` text yields.
pub open spec fn spec_parse_u16(s: Seq<char>) -> Option<u16> {
    if valid_u16_text(s) {
        Some(dec_fold(u16_digits(s)) as u16)
    } else {
        None
    }
}

proof fn lemma_dec_fold_grows(s: Seq<char>)
    requires
        s.len() > 0,
        forall|i: int| 0 <= i < s.len() ==> is_digit(#[trigger] s[i]),
    ensures
        dec_fold(s) >= dec_fold(s.drop_last()),
        dec_fold(s) >= 0,
    decreases s.len(),
{
    if s.len() == 1 {
    } else {
        lemma_dec_fold_grows(s.drop_last());
    }
}

/// Parse a decimal `u16`, accepting an optional leading `+`.
pub fn parse_u16(s: &str) -> (r: Option<u16>)
    ensures
        r == spec_parse_u16(s@),
{
    let v = str_to_chars(s);
    let n = v.len();
    let mut start: usize = 0;
    if n > 0 && v[0] == '+' {
        start = 1;
    }
    if start >= n {
        return None;
    }
    let ghost digits = u16_digits(s@);
    proof {
        if start == 1 {
            assert(digits =~= v@.drop_first());
        } else {
            assert(digits =~= v@);
        }
    }
    let mut acc: u32 = 0;
    let mut too_big = false;
    let mut i = start;
    while i < n
        invariant
            v@ == s@,
            start <= i <= n,
            n == v@.len(),
            digits == u16_digits(v@),
            digits.len() == n - start,
            forall|j: int| start <= j < i ==> is_digit(#[trigger] v@[j]),
            forall|j: int| 0 <= j < digits.len() ==> digits[j] == v@[j + start],
            !too_big ==> acc == dec_fold(digits.take(i - start)) && acc <= 65535,
            too_big ==> dec_fold(digits.take(i - start)) > 65535,
            forall|j: int|
                0 <= j < i - start ==> is_digit(#[trigger] digits.take(i - start)[j]),
        decreases n - i,
    {
        let c = v[i];
        if !check_digit(c) {
            proof {
                assert(u16_digits(s@)[i - start] == v@[i as int]);
                assert(!is_digit(u16_digits(s@)[i - start]));
            }
            return None;
        }
        proof {
            let t = digits.take(i - start);
            let t2 = digits.take(i + 1 - start);
            assert(t2.drop_last() =~= t);
            assert(t2.last() == v@[i as int]);
            assert(forall|j: int| 0 <= j < t2.len() ==> is_digit(#[trigger] t2[j]));
            if too_big {
                lemma_dec_fold_grows(t2);
            }
        }
        if !too_big {
            let d = crate::text::digit_value(c);
            let next = acc * 10 + d;
            if next > 65535 {
                too_big = true;
            } else {
                acc = next;
            }
            proof {
                let t2 = digits.take(i + 1 - start);
                assert(dec_fold(t2) == dec_fold(digits.take(i - start)) * 10 + crate::text::digit_val(
                    v@[i as int],
                ));
            }
        }
        i += 1;
    }
    proof {
        assert(digits.take(n - start) =~= digits);
    }
    if too_big {
        return None;
    }
    Some(acc as u16)
}

/// Reading an optional participant-limit-style field: the key may be
/// absent; a present value must be number-encoded and parse as `u16`.
pub open spec fn spec_get_optional_u16(m: Map<Seq<char>, AttrView>, f: Seq<char>) -> Result<
    Option<u16>,
    ModelErrorView,
> {
    match spec_get_optional_field(m, f, ScalarKind::N) {
        Err(e) => Err(e),
        Ok(None) => Ok(None),
        Ok(Some(s)) => match spec_parse_u16(s) {
            Some(x) => Ok(Some(x)),
            None => Err(ModelErrorView::InvalidGenericType(f, s)),
        },
    }
}

/// Read an optional number-encoded field as a `u16`.
pub fn get_optional_u16(record: &RawRecord, field: &str) -> (r: Result<Option<u16>, ModelError>)
    ensures
        match r {
            Ok(v) => spec_get_optional_u16(record@, field@) == Ok::<Option<u16>, ModelErrorView>(v),
            Err(e) => spec_get_optional_u16(record@, field@) == Err::<Option<u16>, ModelErrorView>(
                e@,
            ),
        },
{
    let s = match get_optional_field(record, field, ScalarKind::N) {
        Err(e) => {
            return Err(e);
        },
        Ok(None) => {
            return Ok(None);
        },
        Ok(Some(s)) => s,
    };
    match parse_u16(s.as_str()) {
        Some(x) => Ok(Some(x)),
        None => Err(ModelError::InvalidGenericType(field.to_owned(), s)),
    }
}

/// Reading a nested-object field: the stored string must parse as a
/// JSON object of strings; its members, later overriding earlier, are
/// the value.
pub open spec fn spec_get_nested(m: Map<Seq<char>, AttrView>, f: Seq<char>) -> Result<
    Seq<(Seq<char>, Seq<char>)>,
    ModelErrorView,
> {
    match spec_get_string(m, f) {
        Err(e) => Err(e),
        Ok(s) => match parse_object(s) {
            None => Err(ModelErrorView::InvalidGenericType(f, s)),
            Some(ps) => Ok(dedup_pairs(ps)),
        },
    }
}

/// Read a required nested-object field as a localized-text map.
pub fn get_nested_object(record: &RawRecord, field: &str) -> (r: Result<LocalizedText, ModelError>)
    ensures
        match r {
            Ok(lt) => spec_get_nested(record@, field@) == Ok::<
                Seq<(Seq<char>, Seq<char>)>,
                ModelErrorView,
            >(lt@) && lt.wf(),
            Err(e) => spec_get_nested(record@, field@) == Err::<
                Seq<(Seq<char>, Seq<char>)>,
                ModelErrorView,
            >(e@),
        },
{
    let s = match get_string(record, field) {
        Err(e) => {
            return Err(e);
        },
        Ok(s) => s,
    };
    match LocalizedText::from_json(s.as_str()) {
        Some(lt) => Ok(lt),
        None => Err(ModelError::InvalidGenericType(field.to_owned(), s.clone())),
    }
}

/// The position of the last `#` in `s`, or minus one if there is none.
pub open spec fn last_hash(s: Seq<char>) -> int
    decreases s.len(),
{
    if s.len() == 0 {
        -1
    } else if s.last() == '#' {
        s.len() - 1
    } else {
        last_hash(s.drop_last())
    }
}

pub proof fn lemma_last_hash_at(s: Seq<char>, i: int)
    requires
        0 <= i < s.len(),
        s[i] == '#',
        forall|j: int| i < j < s.len() ==> s[j] != '#',
    ensures
        last_hash(s) == i,
    decreases s.len(),
{
    if i < s.len() - 1 {
        lemma_last_hash_at(s.drop_last(), i);
    }
}

pub proof fn lemma_last_hash_none(s: Seq<char>)
    requires
        forall|j: int| 0 <= j < s.len() ==> s[j] != '#',
    ensures
        last_hash(s) == -1,
    decreases s.len(),
{
    if s.len() > 0 {
        lemma_last_hash_none(s.drop_last());
    }
}

/// Find the position after the last `#`, if any.
fn split_after_last_hash<'a>(s: &'a str) -> (r: Option<&'a str>)
    ensures
        match r {
            Some(suffix) => last_hash(s@) >= 0 && suffix@ == s@.subrange(
                last_hash(s@) + 1,
                s@.len() as int,
            ),
            None => last_hash(s@) == -1,
        },
{
    let v = str_to_chars(s);
    let n = v.len();
    let mut i = n;
    while i > 0
        invariant
            v@ == s@,
            n == v@.len(),
            i <= n,
            forall|j: int| i <= j < n ==> v@[j] != '#',
        decreases i,
    {
        i -= 1;
        if v[i] == '#' {
            proof {
                lemma_last_hash_at(s@, i as int);
            }
            return Some(s.substring_char(i + 1, n));
        }
    }
    proof {
        lemma_last_hash_none(s@);
    }
    None
}

/// The suffix of a delimited value: what stands after the last `#`.
pub open spec fn delimited_suffix(s: Seq<char>) -> Seq<char> {
    s.subrange(last_hash(s) + 1, s.len() as int)
}

/// Reading a delimited identifier: the stored string is split on its
/// last `#` and the suffix must be a UUID.
pub open spec fn spec_get_delimited(m: Map<Seq<char>, AttrView>, f: Seq<char>) -> Result<
    UuidVal,
    ModelErrorView,
> {
    match spec_get_string(m, f) {
        Err(e) => Err(e),
        Ok(s) => if last_hash(s) == -1 {
            Err(ModelErrorView::MissingDelimiter(f))
        } else {
            match spec_parse_uuid(delimited_suffix(s)) {
                Some(u) => Ok(u),
                None => Err(ModelErrorView::InvalidGenericType(f, delimited_suffix(s))),
            }
        },
    }
}

/// Read a required delimited identifier field.
pub fn get_delimited(record: &RawRecord, field: &str) -> (r: Result<UuidVal, ModelError>)
    ensures
        match r {
            Ok(u) => spec_get_delimited(record@, field@) == Ok::<UuidVal, ModelErrorView>(u),
            Err(e) => spec_get_delimited(record@, field@) == Err::<UuidVal, ModelErrorView>(e@),
        },
{
    let s = match get_string(record, field) {
        Err(e) => {
            return Err(e);
        },
        Ok(s) => s,
    };
    match split_after_last_hash(s.as_str()) {
        None => Err(ModelError::MissingDelimiter(field.to_owned())),
        Some(suffix) => match UuidVal::parse(suffix) {
            Some(u) => Ok(u),
            None => Err(ModelError::InvalidGenericType(field.to_owned(), suffix.to_owned())),
        },
    }
}

/// Reading a timestamp field: the stored string must be RFC 3339.
pub open spec fn spec_get_datetime(m: Map<Seq<char>, AttrView>, f: Seq<char>) -> Result<
    Timestamp,
    ModelErrorView,
> {
    match spec_get_string(m, f) {
        Err(e) => Err(e),
        Ok(s) => match spec_parse_rfc3339(s) {
            Some(t) => Ok(t),
            None => Err(ModelErrorView::InvalidType(f, "Rfc3339"@, s)),
        },
    }
}

/// Read a required RFC 3339 timestamp field.
pub fn get_datetime(record: &RawRecord, field: &str) -> (r: Result<Timestamp, ModelError>)
    ensures
        match r {
            Ok(t) => spec_get_datetime(record@, field@) == Ok::<Timestamp, ModelErrorView>(t),
            Err(e) => spec_get_datetime(record@, field@) == Err::<Timestamp, ModelErrorView>(e@),
        },
{
    let s = match get_string(record, field) {
        Err(e) => {
            return Err(e);
        },
        Ok(s) => s,
    };
    match Timestamp::parse(s.as_str()) {
        Some(t) => Ok(t),
        None => Err(
            ModelError::InvalidType(field.to_owned(), String::from_str("Rfc3339"), s.clone()),
        ),
    }
}

/// Reading an optional timestamp field: absence is not an error.
pub open spec fn spec_get_optional_datetime(m: Map<Seq<char>, AttrView>, f: Seq<char>) -> Result<
    Option<Timestamp>,
    ModelErrorView,
> {
    if !m.contains_key(f) {
        Ok(None)
    } else {
        match spec_get_datetime(m, f) {
            Ok(t) => Ok(Some(t)),
            Err(e) => Err(e),
        }
    }
}

/// Read an optional RFC 3339 timestamp field.
pub fn get_optional_datetime(record: &RawRecord, field: &str) -> (r: Result<
    Option<Timestamp>,
    ModelError,
>)
    ensures
        match r {
            Ok(v) => spec_get_optional_datetime(record@, field@) == Ok::<
                Option<Timestamp>,
                ModelErrorView,
            >(v),
            Err(e) => spec_get_optional_datetime(record@, field@) == Err::<
                Option<Timestamp>,
                ModelErrorView,
            >(e@),
        },
{
    if record.get(field).is_none() {
        return Ok(None);
    }
    match get_datetime(record, field) {
        Ok(t) => Ok(Some(t)),
        Err(e) => Err(e),
    }
}

/// Reading a delimited timestamp: split on the last `#`, then the suffix
/// must be RFC 3339.
pub open spec fn spec_get_delimited_datetime(m: Map<Seq<char>, AttrView>, f: Seq<char>) -> Result<
    Timestamp,
    ModelErrorView,
> {
    match spec_get_string(m, f) {
        Err(e) => Err(e),
        Ok(s) => if last_hash(s) == -1 {
            Err(ModelErrorView::MissingDelimiter(f))
        } else {
            match spec_parse_rfc3339(delimited_suffix(s)) {
                Some(t) => Ok(t),
                None => Err(ModelErrorView::InvalidType(f, "Rfc3339"@, delimited_suffix(s))),
            }
        },
    }
}

/// Read a required delimited RFC 3339 timestamp field.
pub fn get_delimited_datetime(record: &RawRecord, field: &str) -> (r: Result<Timestamp, ModelError>)
    ensures
        match r {
            Ok(t) => spec_get_delimited_datetime(record@, field@) == Ok::<Timestamp, ModelErrorView>(
                t,
            ),
            Err(e) => spec_get_delimited_datetime(record@, field@) == Err::<
                Timestamp,
                ModelErrorView,
            >(e@),
        },
{
    let s = match get_string(record, field) {
        Err(e) => {
            return Err(e);
        },
        Ok(s) => s,
    };
    match split_after_last_hash(s.as_str()) {
        None => Err(ModelError::MissingDelimiter(field.to_owned())),
        Some(suffix) => match Timestamp::parse(suffix) {
            Some(t) => Ok(t),
            None => Err(
                ModelError::InvalidType(
                    field.to_owned(),
                    String::from_str("Rfc3339"),
                    suffix.to_owned(),
                ),
            ),
        },
    }
}

} // verus!
