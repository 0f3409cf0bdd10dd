use vaultify::json::Json;

#[test]
fn documents_are_read_by_shape() {
    assert!(Json::parse("null") == Ok(Json::Null));
    assert!(Json::parse(" true ") == Ok(Json::Bool(true)));
    assert!(Json::parse("1.5") == Ok(Json::Number("1.5".to_string())));
    assert!(Json::parse("-12") == Ok(Json::Number("-12".to_string())));
    assert!(Json::parse(r#""aé\n""#) == Ok(Json::Text("a\u{e9}\n".to_string())));
    assert!(Json::parse(r#"[1, "x", [], {}]"#) == Ok(Json::Array(vec![
            Json::Number("1".to_string()),
            Json::Text("x".to_string()),
            Json::Array(vec![]),
            Json::Object(vec![]),
        ])));
    assert!(Json::parse(r#"{"data": {"key": "value"}}"#) == Ok(Json::Object(vec![(
            "data".to_string(),
            Json::Object(vec![("key".to_string(), Json::Text("value".to_string()))])
        )])));
}

#[test]
fn a_repeated_key_keeps_its_last_value() {
    let document = Json::parse(r#"{"a": "first", "a": "last"}"#).unwrap();
    assert!(document == Json::Object(vec![("a".to_string(), Json::Text("last".to_string()))]));
    assert_eq!(document.get("a").and_then(|v| v.as_str()), Some("last"));
}

#[test]
fn text_that_is_no_document_is_refused_with_a_message() {
    assert!(Json::parse("") == Err("EOF while parsing a value at line 1 column 0".to_string()));
    assert!(Json::parse("{") == Err("EOF while parsing an object at line 1 column 1".to_string()));
    assert!(Json::parse("nope") == Err("expected ident at line 1 column 2".to_string()));
    assert!(Json::parse(r#"{"a": 1} x"#).is_err());
}

#[test]
fn members_are_found_by_key() {
    let document = Json::Object(vec![
        ("a".to_string(), Json::Text("1".to_string())),
        ("b".to_string(), Json::Null),
        ("a".to_string(), Json::Text("2".to_string())),
    ]);
    assert!(document.get("a") == Some(&Json::Text("1".to_string())));
    assert!(document.get("b") == Some(&Json::Null));
    assert!(document.get("c") == None);
    assert!(document.get("") == None);
    assert!(Json::Array(vec![Json::Null]).get("0") == None);
    assert!(Json::Text("a".to_string()).get("a") == None);
    assert!(Json::Null.get("a") == None);
}

#[test]
fn only_strings_have_text() {
    assert_eq!(Json::Text("x".to_string()).as_str(), Some("x"));
    assert_eq!(Json::Text(String::new()).as_str(), Some(""));
    assert_eq!(Json::Null.as_str(), None);
    assert_eq!(Json::Bool(true).as_str(), None);
    assert_eq!(Json::Number("1".to_string()).as_str(), None);
    assert_eq!(Json::Array(vec![]).as_str(), None);
    assert_eq!(Json::Object(vec![]).as_str(), None);
}
