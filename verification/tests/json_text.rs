use stakit::json::{Json, Members};
use stakit::text::{
    comes_before, contains_text, decimal_text, eq_ignore_case, join, strip_prefix, trim,
};

#[test]
fn json_reads_and_writes() {
    let v = Json::parse("{\"b\": [1, -2.5, \"x\"], \"a\": null}").unwrap();
    assert_eq!(v.render(), "{\"a\":null,\"b\":[1,-2.5,\"x\"]}");
    assert_eq!(v.array_at("b").unwrap().len(), 3);
    assert_eq!(v.array_at("b").unwrap()[0].as_u64(), Some(1));
    assert_eq!(v.array_at("b").unwrap()[1].as_u64(), None);
    assert_eq!(v.array_at("b").unwrap()[2].as_str(), Some("x"));
    assert!(v.get("a").unwrap().is_null());
    assert!(v.get("c").is_none());
    assert!(Json::parse("{").is_err());
    assert!(Json::parse_bytes(b"[true]").unwrap().at(0).is_some());
    assert!(Json::parse_bytes(b"\xff").is_err());
}

#[test]
fn a_later_key_counts() {
    let v = Json::parse("{\"a\": 1, \"a\": 2}").unwrap();
    assert_eq!(v.u64_at("a"), Some(2));
    let w = Json::object1("a", Json::unsigned(1)).with_member("a", Json::unsigned(3));
    assert_eq!(w.u64_at("a"), Some(3));
}

#[test]
fn json_round_trips_through_the_json_library() {
    let value: serde_json::Value = serde_json::from_str("{\"k\":[{\"n\":1.25},false]}").unwrap();
    assert_eq!(Json::from_value(value.clone()).to_value(), value);
}

#[test]
fn members_keep_one_value_per_key() {
    let mut m = Members::new();
    m.put("x", Json::unsigned(1));
    m.put("x", Json::text("two"));
    m.put("a", Json::Null);
    assert_eq!(m.into_json().render(), "{\"a\":null,\"x\":\"two\"}");
}

#[test]
fn text_helpers() {
    assert_eq!(trim(" \t a b\u{3000}\n"), "a b");
    assert_eq!(strip_prefix("data: x", "data: "), Some("x".to_owned()));
    assert_eq!(strip_prefix("dat", "data: "), None);
    assert!(contains_text("hello", "ell"));
    assert!(contains_text("hello", ""));
    assert!(!contains_text("hello", "elx"));
    assert_eq!(join(&vec!["a".to_owned(), "b".to_owned(), "c".to_owned()], ", "), "a, b, c");
    assert_eq!(join(&vec![], ", "), "");
    assert_eq!(decimal_text(0), "0");
    assert_eq!(decimal_text(u64::MAX), u64::MAX.to_string());
    assert!(eq_ignore_case("Content-Type", "content-tYPE"));
    assert!(!eq_ignore_case("É", "é"));
    assert!(comes_before("a", "ab"));
    assert!(comes_before("Z", "a"));
    assert!(!comes_before("b", "a"));
    assert!(!comes_before("a", "a"));
}
