//! The domain entity and its mapper: a fixed schema of field names, each
//! read by one accessor, in one documented order. The first failing field
//! decides the error; no partially-decoded entity ever escapes.
//!
//! The schema, in decode order:
//! `PK` delimited identifier (required), `SignupEndDate` RFC 3339
//! timestamp (required), `SK` delimited RFC 3339 timestamp (optional),
//! `EventCreator` string (required), `Description` localized-text JSON
//! (required), `Title` localized-text JSON (required), `ParticipantLimit`
//! number-encoded `u16` (optional), `Contact` contact JSON (required),
//! `PhotoId` string set of identifiers (absent means empty). A field-name
//! constant is the wire contract with the store's column layout.
//!
//! This is deliberately the lean column set: the canonical stored record
//! carries neither a location nor an email-visibility flag, so neither is
//! required here. Deployments whose rows do carry the visibility flag
//! shape their responses with `public_contact`, which holds the
//! email-withholding rule.

use vstd::prelude::*;
use crate::attr::{
    delimited_suffix, get_datetime, get_delimited, get_delimited_datetime, get_field, get_list,
    get_nested_object, get_optional_u16, last_hash, lemma_last_hash_at, lemma_last_hash_none,
    spec_get_datetime, spec_get_delimited, spec_get_delimited_datetime, spec_get_list,
    spec_get_nested, spec_get_optional_u16, spec_get_string, AttrView, RawRecord,
};
use crate::errors::{ModelError, ModelErrorView};
use crate::json::{
    dedup_pairs, pairs_map, parse_members, parse_object, parse_str_chars, spec_insert, ws_end,
    LocalizedText,
};
use crate::rfc3339::{rfc3339_timestamp, valid_rfc3339, Timestamp};
use crate::text::is_hex_digit;
use crate::uid::{spec_parse_uuid, uuid_value, valid_uuid, UuidVal};

verus! {

/// Contact details attached to an entity, as stored in one JSON column.
pub struct Contact {
    pub email: String,
    pub phone: String,
}

/// What a contact JSON text denotes: the `email` and `phone` members of
/// an object of strings, both required; other members are ignored.
pub open spec fn spec_parse_contact(s: Seq<char>) -> Option<(Seq<char>, Seq<char>)> {
    match parse_object(s) {
        None => None,
        Some(ps) => {
            let m = pairs_map(dedup_pairs(ps));
            if m.contains_key("email"@) && m.contains_key("phone"@) {
                Some((m["email"@], m["phone"@]))
            } else {
                None
            }
        },
    }
}

impl Contact {
    /// Parse contact details out of their JSON text form.
    pub fn from_json(s: &str) -> (r: Option<Contact>)
        ensures
            match r {
                Some(c) => spec_parse_contact(s@) == Some((c.email@, c.phone@)),
                None => spec_parse_contact(s@) is None,
            },
    {
        let lt = match LocalizedText::from_json(s) {
            None => {
                return None;
            },
            Some(lt) => lt,
        };
        let email = match lt.get("email") {
            None => {
                return None;
            },
            Some(e) => e.clone(),
        };
        match lt.get("phone") {
            None => None,
            Some(p) => Some(Contact { email, phone: p.clone() }),
        }
    }
}

/// Reading a contact field: the stored string must parse as a contact
/// JSON object.
pub open spec fn spec_get_contact(m: Map<Seq<char>, AttrView>, f: Seq<char>) -> Result<
    (Seq<char>, Seq<char>),
    ModelErrorView,
> {
    match spec_get_string(m, f) {
        Err(e) => Err(e),
        Ok(s) => match spec_parse_contact(s) {
            None => Err(ModelErrorView::InvalidGenericType(f, s)),
            Some(c) => Ok(c),
        },
    }
}

/// Read a required contact field.
pub fn get_nested_contact(record: &RawRecord, field: &str) -> (r: Result<Contact, ModelError>)
    ensures
        match r {
            Ok(c) => spec_get_contact(record@, field@) == Ok::<(Seq<char>, Seq<char>), ModelErrorView>(
                (c.email@, c.phone@),
            ),
            Err(e) => spec_get_contact(record@, field@) == Err::<
                (Seq<char>, Seq<char>),
                ModelErrorView,
            >(e@),
        },
{
    let s = match get_field(record, field) {
        Err(e) => {
            return Err(e);
        },
        Ok(s) => s,
    };
    match Contact::from_json(s.as_str()) {
        Some(c) => Ok(c),
        None => Err(ModelError::InvalidGenericType(field.to_owned(), s)),
    }
}

/// Reading the optional event-date column: the key may be absent; a
/// present value is a delimited RFC 3339 timestamp.
pub open spec fn spec_get_optional_delimited_datetime(
    m: Map<Seq<char>, AttrView>,
    f: Seq<char>,
) -> Result<Option<Timestamp>, ModelErrorView> {
    if !m.contains_key(f) {
        Ok(None)
    } else {
        match spec_get_delimited_datetime(m, f) {
            Ok(t) => Ok(Some(t)),
            Err(e) => Err(e),
        }
    }
}

/// The domain entity: immutable once built, and only built whole.
pub struct Event {
    pub id: UuidVal,
    pub title: LocalizedText,
    pub signup_end_date: Timestamp,
    pub event_date: Option<Timestamp>,
    pub admin_id: String,
    pub contact: Contact,
    pub description: LocalizedText,
    pub limit: Option<u16>,
    pub photo_id: Vec<UuidVal>,
}

/// The first decode failure a record produces, in schema order, if any.
pub open spec fn spec_decode_event_error(m: Map<Seq<char>, AttrView>) -> Option<ModelErrorView> {
    if spec_get_delimited(m, "PK"@) is Err {
        Some(spec_get_delimited(m, "PK"@)->Err_0)
    } else if spec_get_datetime(m, "SignupEndDate"@) is Err {
        Some(spec_get_datetime(m, "SignupEndDate"@)->Err_0)
    } else if spec_get_optional_delimited_datetime(m, "SK"@) is Err {
        Some(spec_get_optional_delimited_datetime(m, "SK"@)->Err_0)
    } else if spec_get_string(m, "EventCreator"@) is Err {
        Some(spec_get_string(m, "EventCreator"@)->Err_0)
    } else if spec_get_nested(m, "Description"@) is Err {
        Some(spec_get_nested(m, "Description"@)->Err_0)
    } else if spec_get_nested(m, "Title"@) is Err {
        Some(spec_get_nested(m, "Title"@)->Err_0)
    } else if spec_get_optional_u16(m, "ParticipantLimit"@) is Err {
        Some(spec_get_optional_u16(m, "ParticipantLimit"@)->Err_0)
    } else if spec_get_contact(m, "Contact"@) is Err {
        Some(spec_get_contact(m, "Contact"@)->Err_0)
    } else if spec_get_list(m, "PhotoId"@) is Err {
        Some(spec_get_list(m, "PhotoId"@)->Err_0)
    } else {
        None
    }
}

/// The entity `ev` holds exactly what decoding the record map `m`
/// produces: every accessor succeeds and its value stands in the
/// matching field, with the localized maps well formed.
pub open spec fn decoded_event_matches(m: Map<Seq<char>, AttrView>, ev: Event) -> bool {
    &&& spec_decode_event_error(m) is None
    &&& spec_get_delimited(m, "PK"@) == Ok::<UuidVal, ModelErrorView>(ev.id)
    &&& spec_get_datetime(m, "SignupEndDate"@) == Ok::<Timestamp, ModelErrorView>(
        ev.signup_end_date,
    )
    &&& spec_get_optional_delimited_datetime(m, "SK"@) == Ok::<Option<Timestamp>, ModelErrorView>(
        ev.event_date,
    )
    &&& spec_get_string(m, "EventCreator"@) == Ok::<Seq<char>, ModelErrorView>(ev.admin_id@)
    &&& spec_get_nested(m, "Description"@) == Ok::<Seq<(Seq<char>, Seq<char>)>, ModelErrorView>(
        ev.description@,
    )
    &&& ev.description.wf()
    &&& spec_get_nested(m, "Title"@) == Ok::<Seq<(Seq<char>, Seq<char>)>, ModelErrorView>(
        ev.title@,
    )
    &&& ev.title.wf()
    &&& spec_get_optional_u16(m, "ParticipantLimit"@) == Ok::<Option<u16>, ModelErrorView>(ev.limit)
    &&& spec_get_contact(m, "Contact"@) == Ok::<(Seq<char>, Seq<char>), ModelErrorView>(
        (ev.contact.email@, ev.contact.phone@),
    )
    &&& spec_get_list(m, "PhotoId"@) == Ok::<Seq<UuidVal>, ModelErrorView>(ev.photo_id@)
}

impl Event {
    /// Decode one raw record into an entity. The fields are read in the
    /// schema order; the first failure is the result, and on success
    /// every field holds exactly what its accessor read.
    pub fn decode(record: &RawRecord) -> (r: Result<Event, ModelError>)
        ensures
            match r {
                Ok(ev) => decoded_event_matches(record@, ev),
                Err(e) => spec_decode_event_error(record@) == Some(e@),
            },
    {
        let id = match get_delimited(record, "PK") {
            Ok(v) => v,
            Err(e) => {
                return Err(e);
            },
        };
        let signup_end_date = match get_datetime(record, "SignupEndDate") {
            Ok(v) => v,
            Err(e) => {
                return Err(e);
            },
        };
        let event_date = if record.get("SK").is_none() {
            None
        } else {
            match get_delimited_datetime(record, "SK") {
                Ok(v) => Some(v),
                Err(e) => {
                    return Err(e);
                },
            }
        };
        let admin_id = match get_field(record, "EventCreator") {
            Ok(v) => v,
            Err(e) => {
                return Err(e);
            },
        };
        let description = match get_nested_object(record, "Description") {
            Ok(v) => v,
            Err(e) => {
                return Err(e);
            },
        };
        let title = match get_nested_object(record, "Title") {
            Ok(v) => v,
            Err(e) => {
                return Err(e);
            },
        };
        let limit = match get_optional_u16(record, "ParticipantLimit") {
            Ok(v) => v,
            Err(e) => {
                return Err(e);
            },
        };
        let contact = match get_nested_contact(record, "Contact") {
            Ok(v) => v,
            Err(e) => {
                return Err(e);
            },
        };
        let photo_id = match get_list(record, "PhotoId") {
            Ok(v) => v,
            Err(e) => {
                return Err(e);
            },
        };
        Ok(
            Event {
                id,
                title,
                signup_end_date,
                event_date,
                admin_id,
                contact,
                description,
                limit,
                photo_id,
            },
        )
    }

    /// Whether a caller owns this entity.
    pub fn is_owned_by(&self, username: &str) -> (r: bool)
        ensures
            r == (self.admin_id@ == username@),
    {
        self.admin_id == String::from_str(username)
    }
}

/// Where an event takes place, as the response shows it.
pub struct Location {
    pub name: String,
    pub link: String,
}

/// Contact details as a response may show them: the email address
/// appears only when the entity allows it.
pub struct PublicContact {
    pub organizer: Option<String>,
    pub email: Option<String>,
    pub email_visible: bool,
    pub phone: Option<String>,
}

/// Shape contact details for a response: every field passes through,
/// except that the email address is withheld unless the visibility flag
/// allows showing it.
pub fn public_contact(
    organizer: Option<String>,
    email: String,
    email_visible: bool,
    phone: Option<String>,
) -> (r: PublicContact)
    ensures
        r.email_visible == email_visible,
        email_visible ==> (r.email matches Some(e) && e@ == email@),
        !email_visible ==> r.email is None,
        r.organizer == organizer,
        r.phone == phone,
{
    PublicContact {
        organizer,
        email: if email_visible {
            Some(email)
        } else {
            None
        },
        email_visible,
        phone,
    }
}

/// The fields the schema cannot do without.
pub open spec fn required_event_field(f: Seq<char>) -> bool {
    ||| f == "PK"@
    ||| f == "SignupEndDate"@
    ||| f == "EventCreator"@
    ||| f == "Description"@
    ||| f == "Title"@
    ||| f == "Contact"@
}

/// Every accessor that runs before `f` in schema order succeeds on `m`.
pub open spec fn decode_reaches(m: Map<Seq<char>, AttrView>, f: Seq<char>) -> bool {
    if f == "PK"@ {
        true
    } else if f == "SignupEndDate"@ {
        spec_get_delimited(m, "PK"@) is Ok
    } else if f == "EventCreator"@ {
        &&& spec_get_delimited(m, "PK"@) is Ok
        &&& spec_get_datetime(m, "SignupEndDate"@) is Ok
        &&& spec_get_optional_delimited_datetime(m, "SK"@) is Ok
    } else if f == "Description"@ {
        &&& spec_get_delimited(m, "PK"@) is Ok
        &&& spec_get_datetime(m, "SignupEndDate"@) is Ok
        &&& spec_get_optional_delimited_datetime(m, "SK"@) is Ok
        &&& spec_get_string(m, "EventCreator"@) is Ok
    } else if f == "Title"@ {
        &&& spec_get_delimited(m, "PK"@) is Ok
        &&& spec_get_datetime(m, "SignupEndDate"@) is Ok
        &&& spec_get_optional_delimited_datetime(m, "SK"@) is Ok
        &&& spec_get_string(m, "EventCreator"@) is Ok
        &&& spec_get_nested(m, "Description"@) is Ok
    } else {
        &&& spec_get_delimited(m, "PK"@) is Ok
        &&& spec_get_datetime(m, "SignupEndDate"@) is Ok
        &&& spec_get_optional_delimited_datetime(m, "SK"@) is Ok
        &&& spec_get_string(m, "EventCreator"@) is Ok
        &&& spec_get_nested(m, "Description"@) is Ok
        &&& spec_get_nested(m, "Title"@) is Ok
        &&& spec_get_optional_u16(m, "ParticipantLimit"@) is Ok
    }
}

/// Law: a record that lacks a required field fails to decode with
/// `MissingField` naming exactly that field, whenever the fields read
/// before it are well formed.
pub proof fn lemma_decode_missing_required_field(m: Map<Seq<char>, AttrView>, f: Seq<char>)
    requires
        required_event_field(f),
        !m.contains_key(f),
        decode_reaches(m, f),
    ensures
        spec_decode_event_error(m) == Some(ModelErrorView::MissingField(f)),
{
}

/// The canonical stored row: the six required columns as one concrete
/// record, the identifier key carrying the given UUID text, and no
/// optional column present.
pub open spec fn canonical_record(u: Seq<char>) -> Map<Seq<char>, AttrView> {
    Map::empty().insert("PK"@, AttrView::S("Event#"@ + u)).insert(
        "SignupEndDate"@,
        AttrView::S("2024-01-01T00:00:00Z"@),
    ).insert("EventCreator"@, AttrView::S("alice"@)).insert(
        "Description"@,
        AttrView::S("{\"en\":\"d\"}"@),
    ).insert("Title"@, AttrView::S("{\"en\":\"t\"}"@)).insert(
        "Contact"@,
        AttrView::S("{\"email\":\"a@b.com\",\"phone\":\"1\"}"@),
    )
}

proof fn lemma_delimited_uuid_key(u: Seq<char>)
    requires
        valid_uuid(u),
    ensures
        last_hash("Event#"@ + u) == 5,
        delimited_suffix("Event#"@ + u) =~= u,
{
    reveal_strlit("Event#");
    let s = "Event#"@ + u;
    assert(s.len() == 42);
    assert(s[5] == '#');
    assert forall|j: int| 5 < j < s.len() implies s[j] != '#' by {
        let i = j - 6;
        assert(s[j] == u[i]);
        if i == 8 || i == 13 || i == 18 || i == 23 {
            assert(u[i] == '-');
        } else {
            assert(is_hex_digit(u[i]));
        }
    }
    lemma_last_hash_at(s, 5);
    assert(delimited_suffix(s) =~= u);
}

proof fn lemma_parse_canonical_timestamp()
    ensures
        valid_rfc3339("2024-01-01T00:00:00Z"@),
        rfc3339_timestamp("2024-01-01T00:00:00Z"@) == (Timestamp {
            year: 2024,
            month: 1,
            day: 1,
            hour: 0,
            minute: 0,
            second: 0,
            nanosecond: 0,
            offset_minutes: 0,
        }),
{
    reveal_strlit("2024-01-01T00:00:00Z");
    let s = "2024-01-01T00:00:00Z"@;
    assert(s.len() == 20);
    assert(valid_rfc3339(s));
}

proof fn lemma_parse_en_object(s: Seq<char>, c: char)
    requires
        s =~= seq!['{', '"', 'e', 'n', '"', ':', '"', c, '"', '}'],
        c != '"',
        c != '\\',
        c as u32 >= 0x20,
    ensures
        parse_object(s) matches Some(ps) && dedup_pairs(ps) =~~= seq![("en"@, seq![c])],
{
    reveal_strlit("en");
    assert(s.len() == 10);
    assert(ws_end(s, 0) == 0);
    assert(ws_end(s, 1) == 1);
    assert(parse_str_chars(s, 4) == Some((Seq::<char>::empty(), 5int)));
    assert(parse_str_chars(s, 3) matches Some(p) && p.0 =~= seq!['n'] && p.1 == 5);
    assert(parse_str_chars(s, 2) matches Some(p) && p.0 =~= "en"@ && p.1 == 5);
    assert(ws_end(s, 5) == 5);
    assert(ws_end(s, 6) == 6);
    assert(parse_str_chars(s, 8) == Some((Seq::<char>::empty(), 9int)));
    assert(parse_str_chars(s, 7) matches Some(p) && p.0 =~= seq![c] && p.1 == 9);
    assert(ws_end(s, 9) == 9);
    assert(parse_members(s, 1) matches Some(r) && r.0 =~~= seq![("en"@, seq![c])] && r.1 == 10);
    assert(ws_end(s, 10) == 10);
    assert(parse_object(s) matches Some(ps) && ps =~~= seq![("en"@, seq![c])]);
    let e = Seq::<(Seq<char>, Seq<char>)>::empty();
    let one = seq![("en"@, seq![c])];
    assert(dedup_pairs(e) =~~= e);
    assert(spec_insert(e, "en"@, seq![c]) =~~= one);
    assert(one.drop_last() =~~= e);
    assert(one.last() == ("en"@, seq![c]));
    assert(dedup_pairs(one) =~~= one);
}

proof fn lemma_parse_contact_text()
    ensures
        spec_parse_contact("{\"email\":\"a@b.com\",\"phone\":\"1\"}"@) == Some(
            ("a@b.com"@, "1"@),
        ),
{
    reveal_strlit("{\"email\":\"a@b.com\",\"phone\":\"1\"}");
    reveal_strlit("email");
    reveal_strlit("phone");
    reveal_strlit("a@b.com");
    reveal_strlit("1");
    let s = "{\"email\":\"a@b.com\",\"phone\":\"1\"}"@;
    assert(s.len() == 31);
    // The key `email`.
    assert(parse_str_chars(s, 7) == Some((Seq::<char>::empty(), 8int)));
    assert(parse_str_chars(s, 6) matches Some(p) && p.0 =~= seq!['l'] && p.1 == 8);
    assert(parse_str_chars(s, 5) matches Some(p) && p.0 =~= seq!['i', 'l'] && p.1 == 8);
    assert(parse_str_chars(s, 4) matches Some(p) && p.0 =~= seq!['a', 'i', 'l'] && p.1 == 8);
    assert(parse_str_chars(s, 3) matches Some(p) && p.0 =~= seq!['m', 'a', 'i', 'l'] && p.1 == 8);
    assert(parse_str_chars(s, 2) matches Some(p) && p.0 =~= "email"@ && p.1 == 8);
    // The value `a@b.com`.
    assert(parse_str_chars(s, 17) == Some((Seq::<char>::empty(), 18int)));
    assert(parse_str_chars(s, 16) matches Some(p) && p.0 =~= seq!['m'] && p.1 == 18);
    assert(parse_str_chars(s, 15) matches Some(p) && p.0 =~= seq!['o', 'm'] && p.1 == 18);
    assert(parse_str_chars(s, 14) matches Some(p) && p.0 =~= seq!['c', 'o', 'm'] && p.1 == 18);
    assert(parse_str_chars(s, 13) matches Some(p) && p.0 =~= seq!['.', 'c', 'o', 'm'] && p.1
        == 18);
    assert(parse_str_chars(s, 12) matches Some(p) && p.0 =~= seq!['b', '.', 'c', 'o', 'm'] && p.1
        == 18);
    assert(parse_str_chars(s, 11) matches Some(p) && p.0 =~= seq!['@', 'b', '.', 'c', 'o', 'm']
        && p.1 == 18);
    assert(parse_str_chars(s, 10) matches Some(p) && p.0 =~= "a@b.com"@ && p.1 == 18);
    // The key `phone`.
    assert(parse_str_chars(s, 25) == Some((Seq::<char>::empty(), 26int)));
    assert(parse_str_chars(s, 24) matches Some(p) && p.0 =~= seq!['e'] && p.1 == 26);
    assert(parse_str_chars(s, 23) matches Some(p) && p.0 =~= seq!['n', 'e'] && p.1 == 26);
    assert(parse_str_chars(s, 22) matches Some(p) && p.0 =~= seq!['o', 'n', 'e'] && p.1 == 26);
    assert(parse_str_chars(s, 21) matches Some(p) && p.0 =~= seq!['h', 'o', 'n', 'e'] && p.1
        == 26);
    assert(parse_str_chars(s, 20) matches Some(p) && p.0 =~= "phone"@ && p.1 == 26);
    // The value `1`.
    assert(parse_str_chars(s, 29) == Some((Seq::<char>::empty(), 30int)));
    assert(parse_str_chars(s, 28) matches Some(p) && p.0 =~= "1"@ && p.1 == 30);
    // The members, inner first.
    assert(ws_end(s, 8) == 8 && ws_end(s, 9) == 9 && ws_end(s, 18) == 18 && ws_end(s, 19) == 19);
    assert(ws_end(s, 26) == 26 && ws_end(s, 27) == 27 && ws_end(s, 30) == 30);
    assert(parse_members(s, 19) matches Some(r) && r.0 =~~= seq![("phone"@, "1"@)] && r.1 == 31);
    let ps = seq![("email"@, "a@b.com"@), ("phone"@, "1"@)];
    assert(parse_members(s, 1) matches Some(r) && r.0 =~~= ps && r.1 == 31);
    assert(ws_end(s, 0) == 0 && ws_end(s, 1) == 1 && ws_end(s, 31) == 31);
    assert(parse_object(s) matches Some(got) && got =~~= ps);
    // Folding keeps both pairs: the keys differ.
    assert("email"@ != "phone"@) by {
        assert("email"@[0] != "phone"@[0]);
    }
    let e = Seq::<(Seq<char>, Seq<char>)>::empty();
    let front = seq![("email"@, "a@b.com"@)];
    assert(ps.drop_last() =~~= front);
    assert(front.drop_last() =~~= e);
    assert(dedup_pairs(e) =~~= e);
    assert(spec_insert(e, "email"@, "a@b.com"@) =~~= front);
    assert(dedup_pairs(front) =~~= front);
    assert(front.drop_first() =~~= e);
    assert(spec_insert(e, "phone"@, "1"@) =~~= seq![("phone"@, "1"@)]);
    assert(spec_insert(front, "phone"@, "1"@) =~~= ps);
    assert(dedup_pairs(ps) =~~= ps);
    // The denoted mapping holds both members.
    assert(pairs_map(e) =~= Map::<Seq<char>, Seq<char>>::empty());
    assert(pairs_map(front) =~= Map::<Seq<char>, Seq<char>>::empty().insert("email"@, "a@b.com"@));
    assert(pairs_map(ps) =~= pairs_map(front).insert("phone"@, "1"@));
    assert(pairs_map(ps).contains_key("email"@) && pairs_map(ps)["email"@] == "a@b.com"@);
    assert(pairs_map(ps).contains_key("phone"@) && pairs_map(ps)["phone"@] == "1"@);
}

/// Law: the canonical stored record — the six required columns written
/// as `canonical_record` has them, every optional column absent —
/// decodes whole: no accessor fails, the identifier is the UUID written
/// in the key, each required field holds the written value, and the
/// participant limit, event date and photo list come out empty.
pub proof fn lemma_canonical_record_decodes(u: Seq<char>)
    requires
        valid_uuid(u),
    ensures
        spec_decode_event_error(canonical_record(u)) is None,
        spec_get_delimited(canonical_record(u), "PK"@) == Ok::<UuidVal, ModelErrorView>(
            UuidVal { value: uuid_value(u) as u128 },
        ),
        spec_get_datetime(canonical_record(u), "SignupEndDate"@) == Ok::<Timestamp, ModelErrorView>(
            Timestamp {
                year: 2024,
                month: 1,
                day: 1,
                hour: 0,
                minute: 0,
                second: 0,
                nanosecond: 0,
                offset_minutes: 0,
            },
        ),
        spec_get_optional_delimited_datetime(canonical_record(u), "SK"@) == Ok::<
            Option<Timestamp>,
            ModelErrorView,
        >(None),
        spec_get_string(canonical_record(u), "EventCreator"@) == Ok::<Seq<char>, ModelErrorView>(
            "alice"@,
        ),
        spec_get_nested(canonical_record(u), "Description"@) == Ok::<
            Seq<(Seq<char>, Seq<char>)>,
            ModelErrorView,
        >(seq![("en"@, "d"@)]),
        spec_get_nested(canonical_record(u), "Title"@) == Ok::<
            Seq<(Seq<char>, Seq<char>)>,
            ModelErrorView,
        >(seq![("en"@, "t"@)]),
        spec_get_optional_u16(canonical_record(u), "ParticipantLimit"@) == Ok::<
            Option<u16>,
            ModelErrorView,
        >(None),
        spec_get_contact(canonical_record(u), "Contact"@) == Ok::<
            (Seq<char>, Seq<char>),
            ModelErrorView,
        >(("a@b.com"@, "1"@)),
        spec_get_list(canonical_record(u), "PhotoId"@) == Ok::<Seq<UuidVal>, ModelErrorView>(
            Seq::empty(),
        ),
{
    let m = canonical_record(u);
    reveal_strlit("PK");
    reveal_strlit("SK");
    reveal_strlit("SignupEndDate");
    reveal_strlit("EventCreator");
    reveal_strlit("Description");
    reveal_strlit("Title");
    reveal_strlit("ParticipantLimit");
    reveal_strlit("Contact");
    reveal_strlit("PhotoId");
    reveal_strlit("d");
    reveal_strlit("t");
    reveal_strlit("{\"en\":\"d\"}");
    reveal_strlit("{\"en\":\"t\"}");
    // The nine column names are pairwise distinct: most differ in
    // length, the two same-length pairs differ in their first character.
    assert("PK"@ != "SK"@) by {
        assert("PK"@[0] != "SK"@[0]);
    }
    assert("Contact"@ != "PhotoId"@) by {
        assert("Contact"@[0] != "PhotoId"@[0]);
    }
    assert("PK"@.len() == 2 && "SK"@.len() == 2 && "SignupEndDate"@.len() == 13
        && "EventCreator"@.len() == 12 && "Description"@.len() == 11 && "Title"@.len() == 5
        && "Contact"@.len() == 7 && "ParticipantLimit"@.len() == 16 && "PhotoId"@.len() == 7);
    assert("PK"@ != "SignupEndDate"@ && "PK"@ != "EventCreator"@ && "PK"@ != "Description"@
        && "PK"@ != "Title"@ && "PK"@ != "Contact"@);
    assert("SignupEndDate"@ != "EventCreator"@ && "SignupEndDate"@ != "Description"@
        && "SignupEndDate"@ != "Title"@ && "SignupEndDate"@ != "Contact"@);
    assert("EventCreator"@ != "Description"@ && "EventCreator"@ != "Title"@ && "EventCreator"@
        != "Contact"@);
    assert("Description"@ != "Title"@ && "Description"@ != "Contact"@);
    assert("Title"@ != "Contact"@);
    assert("SK"@ != "SignupEndDate"@ && "SK"@ != "EventCreator"@ && "SK"@ != "Description"@
        && "SK"@ != "Title"@ && "SK"@ != "Contact"@);
    assert("ParticipantLimit"@ != "PK"@ && "ParticipantLimit"@ != "SignupEndDate"@
        && "ParticipantLimit"@ != "EventCreator"@ && "ParticipantLimit"@ != "Description"@
        && "ParticipantLimit"@ != "Title"@ && "ParticipantLimit"@ != "Contact"@);
    assert("PhotoId"@ != "PK"@ && "PhotoId"@ != "SignupEndDate"@ && "PhotoId"@
        != "EventCreator"@ && "PhotoId"@ != "Description"@ && "PhotoId"@ != "Title"@);
    // What each lookup finds.
    assert(m.contains_key("PK"@) && m["PK"@] == AttrView::S("Event#"@ + u));
    assert(m.contains_key("SignupEndDate"@) && m["SignupEndDate"@] == AttrView::S(
        "2024-01-01T00:00:00Z"@,
    ));
    assert(m.contains_key("EventCreator"@) && m["EventCreator"@] == AttrView::S("alice"@));
    assert(m.contains_key("Description"@) && m["Description"@] == AttrView::S("{\"en\":\"d\"}"@));
    assert(m.contains_key("Title"@) && m["Title"@] == AttrView::S("{\"en\":\"t\"}"@));
    assert(m.contains_key("Contact"@) && m["Contact"@] == AttrView::S(
        "{\"email\":\"a@b.com\",\"phone\":\"1\"}"@,
    ));
    assert(!m.contains_key("SK"@));
    assert(!m.contains_key("ParticipantLimit"@));
    assert(!m.contains_key("PhotoId"@));
    // The identifier key.
    lemma_delimited_uuid_key(u);
    assert(spec_parse_uuid(delimited_suffix("Event#"@ + u)) == Some(
        UuidVal { value: uuid_value(u) as u128 },
    ));
    // The timestamp column.
    lemma_parse_canonical_timestamp();
    // The two localized-text columns.
    assert("{\"en\":\"d\"}"@ =~= seq!['{', '"', 'e', 'n', '"', ':', '"', 'd', '"', '}']);
    lemma_parse_en_object("{\"en\":\"d\"}"@, 'd');
    assert(seq!['d'] =~= "d"@);
    assert(spec_get_nested(m, "Description"@) == Ok::<Seq<(Seq<char>, Seq<char>)>, ModelErrorView>(
        seq![("en"@, "d"@)],
    )) by {
        match parse_object("{\"en\":\"d\"}"@) {
            Some(ps) => {
                assert(dedup_pairs(ps) =~~= seq![("en"@, "d"@)]);
            },
            None => {
                assert(false);
            },
        }
    }
    assert("{\"en\":\"t\"}"@ =~= seq!['{', '"', 'e', 'n', '"', ':', '"', 't', '"', '}']);
    lemma_parse_en_object("{\"en\":\"t\"}"@, 't');
    assert(seq!['t'] =~= "t"@);
    assert(spec_get_nested(m, "Title"@) == Ok::<Seq<(Seq<char>, Seq<char>)>, ModelErrorView>(
        seq![("en"@, "t"@)],
    )) by {
        match parse_object("{\"en\":\"t\"}"@) {
            Some(ps) => {
                assert(dedup_pairs(ps) =~~= seq![("en"@, "t"@)]);
            },
            None => {
                assert(false);
            },
        }
    }
    // The contact column.
    lemma_parse_contact_text();
}

/// Law: a record whose delimited field holds no `#` fails to decode with
/// `MissingDelimiter` naming that field, whenever the fields read before
/// it are well formed.
pub proof fn lemma_decode_missing_delimiter(m: Map<Seq<char>, AttrView>, f: Seq<char>)
    requires
        f == "PK"@ || f == "SK"@,
        f == "SK"@ && f != "PK"@ ==> spec_get_delimited(m, "PK"@) is Ok && spec_get_datetime(
            m,
            "SignupEndDate"@,
        ) is Ok,
        m.contains_key(f),
        m[f] is S,
        forall|i: int| 0 <= i < m[f]->S_0.len() ==> m[f]->S_0[i] != '#',
    ensures
        spec_decode_event_error(m) == Some(ModelErrorView::MissingDelimiter(f)),
{
    lemma_last_hash_none(m[f]->S_0);
}

} // verus!
