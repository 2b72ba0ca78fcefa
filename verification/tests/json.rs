use tfrm::json::{path_get, path_str, Json};

fn num(s: &str) -> Json {
    Json::Number(s.to_string())
}

#[test]
fn integer_readings_follow_the_number_text() {
    assert_eq!(num("42").as_u64(), Some(42));
    assert_eq!(num("18446744073709551615").as_u64(), Some(u64::MAX));
    assert_eq!(num("18446744073709551616").as_u64(), None);
    assert_eq!(num("-1").as_u64(), None);
    assert_eq!(num("1.0").as_u64(), None);
    assert_eq!(num("-9223372036854775808").as_i64(), Some(i64::MIN));
    assert_eq!(num("9223372036854775807").as_i64(), Some(i64::MAX));
    assert_eq!(num("9223372036854775808").as_i64(), None);
    assert_eq!(num("-17").as_i64(), Some(-17));
    assert_eq!(num("1e3").as_i64(), None);
    assert_eq!(Json::Str("5".into()).as_i64(), None);
}

#[test]
fn compact_text_matches_serde_json() {
    let v = Json::Object(vec![
        ("a".into(), Json::Array(vec![num("1"), Json::Bool(false), Json::Null])),
        ("b".into(), Json::Str("q\"\\\n\u{1}é".into())),
    ]);
    assert_eq!(tfrm::diff::compact(&v), "{\"a\":[1,false,null],\"b\":\"q\\\"\\\\\\n\\u0001é\"}");
}

#[test]
fn paths_walk_nested_objects() {
    let v = Json::Object(vec![(
        "data".into(),
        Json::Object(vec![("attributes".into(), Json::Object(vec![("name".into(), Json::Str("x".into()))]))]),
    )]);
    assert_eq!(path_str(&v, &["data", "attributes", "name"]).as_deref(), Some("x"));
    assert!(path_get(&v, &["data", "missing"]).is_none());
    assert!(path_get(&v, &[]).is_some());
    let dup = Json::Object(vec![("k".into(), num("1")), ("k".into(), num("2"))]);
    assert!(matches!(dup.get("k"), Some(Json::Number(n)) if n == "2"));
}
