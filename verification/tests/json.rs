use localcoder::json::{json_string, json_string_pretty, parse_json, Json};

#[test]
fn documents_are_read_and_written() {
    let raw = r#"{"b":[1,-2,2.5,true,null],"a":"é\n","c":{}}"#;
    let document = parse_json(raw).unwrap();
    assert_eq!(
        json_string(&document),
        r#"{"a":"é\n","b":[1,-2,2.5,true,null],"c":{}}"#
    );
    assert_eq!(document.get_text("a").unwrap(), "é\n");
    assert!(document.get("missing").is_none());
    assert!(document.get_text("b").is_none());
}

#[test]
fn indented_text_is_what_serde_json_writes() {
    let document = Json::object()
        .with("name", Json::text("x"))
        .with("list", Json::List(vec![Json::integer(1), Json::Null]));
    assert_eq!(
        json_string_pretty(&document),
        "{\n  \"list\": [\n    1,\n    null\n  ],\n  \"name\": \"x\"\n}"
    );
}

#[test]
fn written_documents_read_back() {
    let mut document = Json::object()
        .with("flag", Json::Bool(true))
        .with("count", Json::integer(4096))
        .with("text", Json::text("\u{0}\"\\"));
    for _ in 0..100 {
        document = Json::object().with("in", document);
    }
    let text = json_string(&document);
    assert_eq!(json_string(&parse_json(&text).unwrap()), text);
    let text = json_string_pretty(&document);
    assert_eq!(json_string_pretty(&parse_json(&text).unwrap()), text);
}

#[test]
fn the_deepest_document_that_reads_back_is_read_back() {
    let mut document = Json::integer(0);
    for _ in 0..127 {
        document = Json::List(vec![document]);
    }
    assert!(parse_json(&json_string(&document)).is_some());
    assert!(parse_json(&json_string(&Json::List(vec![document]))).is_none());
}

#[test]
fn what_is_no_json_is_not_read() {
    for raw in ["", "{", "nope", "[1,]", "{\"a\":1} x"] {
        assert!(parse_json(raw).is_none(), "{}", raw);
    }
}

#[test]
fn a_later_member_hides_an_earlier_one() {
    let document = parse_json(r#"{"a":1,"a":2}"#).unwrap();
    assert_eq!(document.get_u64("a"), Some(2));
    let document = document.with("a", Json::integer(3));
    assert_eq!(json_string(&document), r#"{"a":3}"#);
    let document = Json::Object(vec![
        ("a".to_string(), Json::integer(1)),
        ("a".to_string(), Json::integer(2)),
    ]);
    assert_eq!(document.get_u64("a"), Some(2));
    assert_eq!(json_string(&document), r#"{"a":2}"#);
    let document = Json::Object(vec![
        ("a".to_string(), Json::integer(1)),
        ("b".to_string(), Json::integer(2)),
        ("a".to_string(), Json::integer(3)),
        ("c".to_string(), Json::integer(4)),
        ("b".to_string(), Json::Null),
    ]);
    assert_eq!(json_string(&document), r#"{"a":3,"b":null,"c":4}"#);
}

#[test]
fn members_are_read_by_their_kind() {
    let document = parse_json(
        r#"{"n":7,"neg":-1,"f":1.5,"big":18446744073709551615,"t":true,"s":"7"}"#,
    )
    .unwrap();
    assert_eq!(document.get_u64("n"), Some(7));
    assert_eq!(document.get_u64("neg"), None);
    assert_eq!(document.get_u64("f"), None);
    assert_eq!(document.get_u64("big"), Some(u64::MAX));
    assert_eq!(document.get_u64("s"), None);
    assert_eq!(document.get_u64("missing"), None);
    assert_eq!(document.get_bool("t"), Some(true));
    assert_eq!(document.get_bool("n"), None);
    assert_eq!(Json::text("x").get_u64("n"), None);
}

#[test]
fn what_is_no_object_gets_no_member() {
    let document = Json::text("x").with("a", Json::Null);
    assert_eq!(json_string(&document), "\"x\"");
}

#[test]
fn copies_say_the_same() {
    let raw = r#"{"a":[{"b":null},2.5],"c":"d"}"#;
    let document = parse_json(raw).unwrap();
    assert_eq!(json_string(&document.clone()), json_string(&document));
}

#[test]
fn negative_integers_are_written() {
    assert_eq!(json_string(&Json::integer(-5)), "-5");
    assert_eq!(json_string(&Json::integer(i64::MAX)), "9223372036854775807");
    assert_eq!(json_string(&Json::integer(i64::MIN)), "-9223372036854775808");
}

#[test]
fn integers_read_back() {
    for i in [i64::MIN, i64::MIN + 1, -5, -1, 0, 1, i64::MAX] {
        let document = Json::List(vec![Json::integer(i)]);
        for text in [json_string(&document), json_string_pretty(&document)] {
            match parse_json(&text) {
                Some(Json::List(items)) => match &items[0] {
                    Json::Number(n) => assert_eq!(*n, serde_json::Number::from(i)),
                    _ => panic!("a number"),
                },
                _ => panic!("a list"),
            }
        }
        let object = Json::object().with("i", Json::integer(i));
        assert_eq!(object.get_u64("i"), u64::try_from(i).ok());
    }
}
