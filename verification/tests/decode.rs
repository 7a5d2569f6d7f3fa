use events_api::attr::{
    get_boolean, get_optional_field, AttrValue, RawRecord, ScalarKind,
};
use events_api::errors::ModelError;
use events_api::event::Event;
use events_api::rfc3339::Timestamp;

fn s(v: &str) -> AttrValue {
    AttrValue::S(v.to_string())
}

fn full_record() -> RawRecord {
    let mut r = RawRecord::new();
    r.insert("PK".to_string(), s("Event#67e55044-10b1-426f-9247-bb680e5fe0c8"));
    r.insert("SignupEndDate".to_string(), s("2024-01-01T00:00:00Z"));
    r.insert("EventCreator".to_string(), s("alice"));
    r.insert("Description".to_string(), s("{\"en\":\"d\"}"));
    r.insert("Title".to_string(), s("{\"en\":\"t\"}"));
    r.insert("Contact".to_string(), s("{\"email\":\"a@b.com\",\"phone\":\"1\"}"));
    r
}

#[test]
fn decode_without_participant_limit_populates_every_field() {
    let r = full_record();
    let ev = Event::decode(&r).expect("record should decode");
    assert_eq!(ev.id.value, 0x67e5504410b1426f9247bb680e5fe0c8u128);
    assert_eq!(
        ev.signup_end_date,
        Timestamp {
            year: 2024,
            month: 1,
            day: 1,
            hour: 0,
            minute: 0,
            second: 0,
            nanosecond: 0,
            offset_minutes: 0,
        }
    );
    assert!(ev.event_date.is_none());
    assert_eq!(ev.admin_id, "alice");
    assert_eq!(ev.description.len(), 1);
    assert_eq!(ev.description.get("en").unwrap(), "d");
    assert_eq!(ev.title.len(), 1);
    assert_eq!(ev.title.get("en").unwrap(), "t");
    assert!(ev.limit.is_none());
    assert_eq!(ev.contact.email, "a@b.com");
    assert_eq!(ev.contact.phone, "1");
    assert!(ev.photo_id.is_empty());
}

#[test]
fn missing_required_field_names_that_field() {
    let mut r = RawRecord::new();
    r.insert("PK".to_string(), s("Event#67e55044-10b1-426f-9247-bb680e5fe0c8"));
    r.insert("SignupEndDate".to_string(), s("2024-01-01T00:00:00Z"));
    r.insert("EventCreator".to_string(), s("alice"));
    r.insert("Description".to_string(), s("{\"en\":\"d\"}"));
    // No Title.
    r.insert("Contact".to_string(), s("{\"email\":\"a@b.com\",\"phone\":\"1\"}"));
    match Event::decode(&r) {
        Err(ModelError::MissingField(f)) => assert_eq!(f, "Title"),
        other => panic!("expected MissingField, got {:?}", other.err()),
    }
}

#[test]
fn missing_delimiter_in_identifier() {
    let mut r = full_record();
    r.insert("PK".to_string(), s("no-delimiter-here"));
    match Event::decode(&r) {
        Err(ModelError::MissingDelimiter(f)) => assert_eq!(f, "PK"),
        other => panic!("expected MissingDelimiter, got {:?}", other.err()),
    }
}

#[test]
fn bad_identifier_suffix() {
    let mut r = full_record();
    r.insert("PK".to_string(), s("Event#not-a-uuid"));
    match Event::decode(&r) {
        Err(ModelError::InvalidGenericType(f, raw)) => {
            assert_eq!(f, "PK");
            assert_eq!(raw, "not-a-uuid");
        },
        other => panic!("expected InvalidGenericType, got {:?}", other.err()),
    }
}

#[test]
fn wrongly_shaped_field_is_invalid_data() {
    let mut r = full_record();
    r.insert("SignupEndDate".to_string(), AttrValue::Bool(true));
    match Event::decode(&r) {
        Err(ModelError::InvalidData(msg)) => {
            assert_eq!(msg, "SignupEndDate field is not a string");
        },
        other => panic!("expected InvalidData, got {:?}", other.err()),
    }
}

#[test]
fn bad_timestamp_is_invalid_type() {
    let mut r = full_record();
    r.insert("SignupEndDate".to_string(), s("2024-13-01T00:00:00Z"));
    match Event::decode(&r) {
        Err(ModelError::InvalidType(f, kind, raw)) => {
            assert_eq!(f, "SignupEndDate");
            assert_eq!(kind, "Rfc3339");
            assert_eq!(raw, "2024-13-01T00:00:00Z");
        },
        other => panic!("expected InvalidType, got {:?}", other.err()),
    }
}

#[test]
fn participant_limit_variants() {
    let mut r = full_record();
    r.insert("ParticipantLimit".to_string(), AttrValue::N("25".to_string()));
    assert_eq!(Event::decode(&r).unwrap().limit, Some(25));

    r.insert("ParticipantLimit".to_string(), AttrValue::N("+7".to_string()));
    assert_eq!(Event::decode(&r).unwrap().limit, Some(7));

    // Stored as a string where a number is expected.
    r.insert("ParticipantLimit".to_string(), s("25"));
    match Event::decode(&r) {
        Err(ModelError::InvalidData(msg)) => {
            assert_eq!(msg, "ParticipantLimit field is not a N");
        },
        other => panic!("expected InvalidData, got {:?}", other.err()),
    }

    // Out of the sixteen-bit range.
    r.insert("ParticipantLimit".to_string(), AttrValue::N("70000".to_string()));
    match Event::decode(&r) {
        Err(ModelError::InvalidGenericType(f, raw)) => {
            assert_eq!(f, "ParticipantLimit");
            assert_eq!(raw, "70000");
        },
        other => panic!("expected InvalidGenericType, got {:?}", other.err()),
    }

    // Not a number at all.
    r.insert("ParticipantLimit".to_string(), AttrValue::N("abc".to_string()));
    assert!(matches!(
        Event::decode(&r),
        Err(ModelError::InvalidGenericType(_, _))
    ));
}

#[test]
fn optional_event_date_is_read_when_present() {
    let mut r = full_record();
    r.insert("SK".to_string(), s("EventDate#2024-06-15T18:30:00+02:00"));
    let ev = Event::decode(&r).unwrap();
    let ts = ev.event_date.expect("event date should be present");
    assert_eq!(ts.year, 2024);
    assert_eq!(ts.month, 6);
    assert_eq!(ts.day, 15);
    assert_eq!(ts.hour, 18);
    assert_eq!(ts.minute, 30);
    assert_eq!(ts.offset_minutes, 120);
}

#[test]
fn event_date_without_delimiter_fails() {
    let mut r = full_record();
    r.insert("SK".to_string(), s("2024-06-15T18:30:00Z"));
    match Event::decode(&r) {
        Err(ModelError::MissingDelimiter(f)) => assert_eq!(f, "SK"),
        other => panic!("expected MissingDelimiter, got {:?}", other.err()),
    }
}

#[test]
fn photo_list_parses_every_member() {
    let mut r = full_record();
    r.insert(
        "PhotoId".to_string(),
        AttrValue::Ss(vec![
            "67e55044-10b1-426f-9247-bb680e5fe0c8".to_string(),
            "00000000-0000-0000-0000-000000000001".to_string(),
        ]),
    );
    let ev = Event::decode(&r).unwrap();
    assert_eq!(ev.photo_id.len(), 2);
    assert_eq!(ev.photo_id[0].value, 0x67e5504410b1426f9247bb680e5fe0c8u128);
    assert_eq!(ev.photo_id[1].value, 1u128);
}

#[test]
fn photo_list_bad_member_names_it() {
    let mut r = full_record();
    r.insert(
        "PhotoId".to_string(),
        AttrValue::Ss(vec![
            "67e55044-10b1-426f-9247-bb680e5fe0c8".to_string(),
            "broken".to_string(),
        ]),
    );
    match Event::decode(&r) {
        Err(ModelError::InvalidGenericType(f, raw)) => {
            assert_eq!(f, "PhotoId");
            assert_eq!(raw, "broken");
        },
        other => panic!("expected InvalidGenericType, got {:?}", other.err()),
    }
}

#[test]
fn malformed_nested_object_names_field_and_value() {
    let mut r = full_record();
    r.insert("Title".to_string(), s("not json"));
    match Event::decode(&r) {
        Err(ModelError::InvalidGenericType(f, raw)) => {
            assert_eq!(f, "Title");
            assert_eq!(raw, "not json");
        },
        other => panic!("expected InvalidGenericType, got {:?}", other.err()),
    }
}

#[test]
fn contact_without_phone_fails() {
    let mut r = full_record();
    r.insert("Contact".to_string(), s("{\"email\":\"a@b.com\"}"));
    assert!(matches!(
        Event::decode(&r),
        Err(ModelError::InvalidGenericType(_, _))
    ));
}

#[test]
fn boolean_accessor() {
    let mut r = RawRecord::new();
    r.insert("Visible".to_string(), AttrValue::Bool(true));
    assert_eq!(get_boolean(&r, "Visible").unwrap(), true);
    assert!(matches!(
        get_boolean(&r, "Absent"),
        Err(ModelError::MissingField(_))
    ));
    r.insert("Visible".to_string(), s("yes"));
    match get_boolean(&r, "Visible") {
        Err(ModelError::InvalidData(msg)) => assert_eq!(msg, "Visible is not a bool"),
        other => panic!("expected InvalidData, got {:?}", other.err()),
    }
}

#[test]
fn optional_string_accessor() {
    let mut r = RawRecord::new();
    assert_eq!(get_optional_field(&r, "Phone", ScalarKind::S).unwrap(), None);
    r.insert("Phone".to_string(), s("12345"));
    assert_eq!(
        get_optional_field(&r, "Phone", ScalarKind::S).unwrap(),
        Some("12345".to_string())
    );
    r.insert("Phone".to_string(), AttrValue::N("12345".to_string()));
    match get_optional_field(&r, "Phone", ScalarKind::S) {
        Err(ModelError::InvalidData(msg)) => assert_eq!(msg, "Phone field is not a S"),
        other => panic!("expected InvalidData, got {:?}", other.err()),
    }
}

#[test]
fn later_insert_overrides_earlier() {
    let mut r = full_record();
    r.insert("EventCreator".to_string(), s("bob"));
    assert_eq!(Event::decode(&r).unwrap().admin_id, "bob");
}
