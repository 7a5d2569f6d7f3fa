use events_api::event::Contact;
use events_api::json::LocalizedText;

#[test]
fn round_trip_plain_map() {
    let mut lt = LocalizedText::new();
    lt.insert("en".to_string(), "Summer party".to_string());
    lt.insert("fi".to_string(), "Kesäjuhla".to_string());
    let text = lt.to_json();
    assert_eq!(text, "{\"en\":\"Summer party\",\"fi\":\"Kesäjuhla\"}");
    let back = LocalizedText::from_json(&text).expect("encoded text should parse");
    assert_eq!(back.len(), 2);
    assert_eq!(back.get("en").unwrap(), "Summer party");
    assert_eq!(back.get("fi").unwrap(), "Kesäjuhla");
}

#[test]
fn round_trip_with_escapes() {
    let mut lt = LocalizedText::new();
    lt.insert("en".to_string(), "say \"hi\"\\now\n".to_string());
    lt.insert("zh".to_string(), "标题 🎉".to_string());
    let text = lt.to_json();
    let back = LocalizedText::from_json(&text).expect("encoded text should parse");
    assert_eq!(back.len(), 2);
    assert_eq!(back.get("en").unwrap(), "say \"hi\"\\now\n");
    assert_eq!(back.get("zh").unwrap(), "标题 🎉");
}

#[test]
fn encoder_escapes_exactly() {
    let mut lt = LocalizedText::new();
    lt.insert("k".to_string(), "a\"b\\c\nd".to_string());
    assert_eq!(lt.to_json(), "{\"k\":\"a\\\"b\\\\c\\u000ad\"}");
}

#[test]
fn parse_accepts_whitespace() {
    let lt = LocalizedText::from_json(" { \"en\" : \"d\" , \"sv\" : \"x\" }  ").unwrap();
    assert_eq!(lt.len(), 2);
    assert_eq!(lt.get("en").unwrap(), "d");
    assert_eq!(lt.get("sv").unwrap(), "x");
}

#[test]
fn parse_empty_object() {
    let lt = LocalizedText::from_json("{}").unwrap();
    assert_eq!(lt.len(), 0);
    assert!(lt.get("en").is_none());
}

#[test]
fn parse_rejects_malformed_documents() {
    assert!(LocalizedText::from_json("").is_none());
    assert!(LocalizedText::from_json("{").is_none());
    assert!(LocalizedText::from_json("{\"en\":}").is_none());
    assert!(LocalizedText::from_json("{\"en\":\"d\"} trailing").is_none());
    assert!(LocalizedText::from_json("{\"en\":\"d\",}").is_none());
    assert!(LocalizedText::from_json("{\"en\":1}").is_none());
    assert!(LocalizedText::from_json("[\"en\"]").is_none());
    // An unescaped control character inside a string.
    assert!(LocalizedText::from_json("{\"en\":\"a\u{0001}b\"}").is_none());
}

#[test]
fn parse_unicode_escapes() {
    let lt = LocalizedText::from_json("{\"en\":\"A\\u00e9\\u0041\"}").unwrap();
    assert_eq!(lt.get("en").unwrap(), "AéA");
    // A surrogate pair combines into one character.
    let lt = LocalizedText::from_json("{\"en\":\"\\uD83C\\uDF89\"}").unwrap();
    assert_eq!(lt.get("en").unwrap(), "🎉");
    // A lone surrogate is rejected.
    assert!(LocalizedText::from_json("{\"en\":\"\\uD83C\"}").is_none());
}

#[test]
fn parse_short_escapes() {
    let lt = LocalizedText::from_json("{\"en\":\"\\\"\\\\\\/\\b\\f\\n\\r\\t\"}").unwrap();
    assert_eq!(lt.get("en").unwrap(), "\"\\/\u{0008}\u{000C}\n\r\t");
}

#[test]
fn duplicate_keys_last_wins() {
    let lt = LocalizedText::from_json("{\"en\":\"old\",\"en\":\"new\"}").unwrap();
    assert_eq!(lt.len(), 1);
    assert_eq!(lt.get("en").unwrap(), "new");
}

#[test]
fn insert_replaces_in_place() {
    let mut lt = LocalizedText::new();
    lt.insert("en".to_string(), "one".to_string());
    lt.insert("sv".to_string(), "två".to_string());
    lt.insert("en".to_string(), "three".to_string());
    assert_eq!(lt.len(), 2);
    assert_eq!(lt.get("en").unwrap(), "three");
    let (first_key, first_val) = lt.pair(0);
    assert_eq!(first_key, "en");
    assert_eq!(first_val, "three");
}

#[test]
fn contact_parsing() {
    let c = Contact::from_json("{\"email\":\"a@b.com\",\"phone\":\"1\"}").unwrap();
    assert_eq!(c.email, "a@b.com");
    assert_eq!(c.phone, "1");
    // Extra members are ignored.
    let c = Contact::from_json("{\"phone\":\"2\",\"email\":\"x@y.z\",\"other\":\"v\"}").unwrap();
    assert_eq!(c.email, "x@y.z");
    assert_eq!(c.phone, "2");
    // Both members are required.
    assert!(Contact::from_json("{\"email\":\"a@b.com\"}").is_none());
    assert!(Contact::from_json("{\"phone\":\"1\"}").is_none());
    assert!(Contact::from_json("not json").is_none());
}
