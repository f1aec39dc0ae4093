use vosk_commands::json::Json;

fn object() -> Json {
    Json::Object(vec![
        ("a".to_string(), Json::Unsigned(3)),
        ("b".to_string(), Json::Text("x".to_string())),
        ("c".to_string(), Json::Array(vec![Json::Null])),
        ("d".to_string(), Json::Bool(true)),
    ])
}

#[test]
fn members_are_found_by_name() {
    let o = object();
    assert_eq!(o.get("a").unwrap().as_u64(), Some(3));
    assert_eq!(o.get("b").unwrap().as_str(), Some("x"));
    assert_eq!(o.get("c").unwrap().as_array().unwrap().len(), 1);
    assert_eq!(o.get("d").unwrap().as_bool(), Some(true));
    assert!(o.get("e").is_none());
    assert!(Json::Null.get("a").is_none());
    assert!(Json::Array(vec![]).get("a").is_none());
}

#[test]
fn readers_refuse_other_kinds() {
    let o = object();
    assert_eq!(o.as_u64(), None);
    assert_eq!(o.as_str(), None);
    assert_eq!(o.as_bool(), None);
    assert!(o.as_array().is_none());
    assert_eq!(Json::OtherNumber.as_u64(), None);
    assert_eq!(Json::Text("1".to_string()).as_u64(), None);
}
