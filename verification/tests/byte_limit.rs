use events_api::attr::{AttrValue, RawRecord};
use events_api::errors::ImageUploadError;
use events_api::queries::{interpret_query_result, GetEventError};
use events_api::uid::UuidVal;
use events_api::upload::{BoundedBuffer, MAX_IMAGE_SIZE};

#[test]
fn streaming_past_the_limit_fails_at_the_crossing_chunk() {
    let mut buf = BoundedBuffer::new();
    let chunk = vec![0u8; 1024 * 1024];
    for _ in 0..10 {
        buf.push_chunk("big.png", &chunk).expect("chunks within the limit are kept");
    }
    assert_eq!(buf.len(), MAX_IMAGE_SIZE);
    // One byte more crosses the limit: refused at once, nothing buffered.
    match buf.push_chunk("big.png", &[0u8]) {
        Err(ImageUploadError::ImageTooLarge { image_name }) => {
            assert_eq!(image_name, "big.png")
        },
        other => panic!("expected ImageTooLarge, got {:?}", other),
    }
    assert_eq!(buf.len(), MAX_IMAGE_SIZE);
}

#[test]
fn a_single_chunk_past_the_limit_is_refused_without_buffering() {
    let mut buf = BoundedBuffer::new();
    buf.push_chunk("a.png", &[1, 2, 3]).unwrap();
    let oversized = vec![0u8; MAX_IMAGE_SIZE];
    assert!(matches!(
        buf.push_chunk("a.png", &oversized),
        Err(ImageUploadError::ImageTooLarge { .. })
    ));
    // The buffer kept only what had arrived before the oversized chunk.
    assert_eq!(buf.len(), 3);
    assert_eq!(buf.into_bytes(), vec![1, 2, 3]);
}

#[test]
fn chunks_within_the_limit_accumulate_in_order() {
    let mut buf = BoundedBuffer::new();
    buf.push_chunk("a.png", &[1, 2]).unwrap();
    buf.push_chunk("a.png", &[3]).unwrap();
    buf.push_chunk("a.png", &[]).unwrap();
    buf.push_chunk("a.png", &[4, 5]).unwrap();
    assert_eq!(buf.into_bytes(), vec![1, 2, 3, 4, 5]);
}

fn s(v: &str) -> AttrValue {
    AttrValue::S(v.to_string())
}

fn good_record() -> RawRecord {
    let mut r = RawRecord::new();
    r.insert("PK".to_string(), s("Event#67e55044-10b1-426f-9247-bb680e5fe0c8"));
    r.insert("SignupEndDate".to_string(), s("2024-01-01T00:00:00Z"));
    r.insert("EventCreator".to_string(), s("alice"));
    r.insert("Description".to_string(), s("{\"en\":\"d\"}"));
    r.insert("Title".to_string(), s("{\"en\":\"t\"}"));
    r.insert("Contact".to_string(), s("{\"email\":\"a@b.com\",\"phone\":\"1\"}"));
    r
}

#[test]
fn query_interpretation_distinguishes_the_failure_classes() {
    let id = UuidVal { value: 42 };

    // The SDK answered without an item list at all.
    assert!(matches!(
        interpret_query_result(id, None),
        Err(GetEventError::UnexpectedSdkError(_))
    ));

    // No record for the key: recoverable not-found.
    assert!(matches!(
        interpret_query_result(id, Some(Vec::new())),
        Err(GetEventError::NotFound)
    ));

    // A record exists but does not decode: corrupt stored entity, named
    // by the queried identifier and distinct from not-found.
    let broken = RawRecord::new();
    match interpret_query_result(id, Some(vec![broken])) {
        Err(GetEventError::InvalidStoredEvent(got)) => assert_eq!(got.value, 42),
        _ => panic!("expected InvalidStoredEvent"),
    }

    // A record that decodes is the entity.
    let ev = interpret_query_result(id, Some(vec![good_record()])).unwrap();
    assert_eq!(ev.admin_id, "alice");
    assert_eq!(ev.id.value, 0x67e5504410b1426f9247bb680e5fe0c8u128);
}
