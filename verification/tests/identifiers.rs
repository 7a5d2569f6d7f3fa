use events_api::uid::UuidVal;

#[test]
fn parses_canonical_form() {
    let u = UuidVal::parse("67e55044-10b1-426f-9247-bb680e5fe0c8").unwrap();
    assert_eq!(u.value, 0x67e5504410b1426f9247bb680e5fe0c8u128);
}

#[test]
fn accepts_either_hex_case() {
    let lower = UuidVal::parse("00000000-0000-0000-0000-0000000000ab").unwrap();
    let upper = UuidVal::parse("00000000-0000-0000-0000-0000000000AB").unwrap();
    assert_eq!(lower, upper);
    assert_eq!(lower.value, 0xABu128);
}

#[test]
fn extremes() {
    assert_eq!(UuidVal::parse("00000000-0000-0000-0000-000000000000").unwrap().value, 0);
    assert_eq!(
        UuidVal::parse("ffffffff-ffff-ffff-ffff-ffffffffffff").unwrap().value,
        u128::MAX
    );
}

#[test]
fn formatting_round_trips_through_parse() {
    let u = UuidVal { value: 0x67e5504410b1426f9247bb680e5fe0c8u128 };
    let text = u.to_hyphenated();
    assert_eq!(text, "67e55044-10b1-426f-9247-bb680e5fe0c8");
    assert_eq!(UuidVal::parse(&text), Some(u));

    let zero = UuidVal { value: 0 };
    assert_eq!(zero.to_hyphenated(), "00000000-0000-0000-0000-000000000000");
    let max = UuidVal { value: u128::MAX };
    assert_eq!(max.to_hyphenated(), "ffffffff-ffff-ffff-ffff-ffffffffffff");
    assert_eq!(UuidVal::parse(&max.to_hyphenated()), Some(max));
}

#[test]
fn rejects_other_shapes() {
    // Only the canonical hyphenated form is stored, so only it parses.
    assert!(UuidVal::parse("").is_none());
    assert!(UuidVal::parse("67e5504410b1426f9247bb680e5fe0c8").is_none());
    assert!(UuidVal::parse("{67e55044-10b1-426f-9247-bb680e5fe0c8}").is_none());
    assert!(UuidVal::parse("67e55044-10b1-426f-9247-bb680e5fe0c").is_none());
    assert!(UuidVal::parse("67e55044-10b1-426f-9247-bb680e5fe0c88").is_none());
    assert!(UuidVal::parse("67e55044x10b1-426f-9247-bb680e5fe0c8").is_none());
    assert!(UuidVal::parse("67e55044-10b1-426f-9247-bb680e5feg c8").is_none());
}
