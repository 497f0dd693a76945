use dstp_relay::json::Json;

fn parse(text: &str) -> Json {
    Json::parse(text).unwrap()
}

#[test]
fn text_is_read_and_written_back() {
    let text = "{\"a\":[1,-2,1.5,true,null,\"x\\\"y\"],\"b\":{\"c\":{}}}";
    assert_eq!(parse(text).to_text(), text);
    assert_eq!(parse(" { \"b\" : 1 , \"a\" : 2 } ").to_text(), "{\"a\":2,\"b\":1}");
    assert_eq!(parse("{\"a\":1,\"a\":2}").to_text(), "{\"a\":2}");
}

#[test]
fn text_that_is_no_json_is_refused() {
    assert_eq!(
        Json::parse("{").unwrap_err(),
        "EOF while parsing an object at line 1 column 1"
    );
    assert!(Json::parse("").is_err());
    assert!(Json::parse("{} x").is_err());
}

#[test]
fn pretty_text_is_indented() {
    assert_eq!(parse("{\"a\":[1]}").to_pretty(), "{\n  \"a\": [\n    1\n  ]\n}");
}

#[test]
fn values_are_told_apart() {
    let json = parse("{\"s\":\"x\",\"n\":7,\"m\":-7,\"f\":7.0,\"l\":[1,2],\"z\":null}");
    assert_eq!(json.get_str("s"), Some("x"));
    assert_eq!(json.get_str("n"), None);
    assert_eq!(json.get_str("missing"), None);
    assert_eq!(json.get_u64("n"), Some(7));
    assert_eq!(json.get_u64("m"), None);
    assert_eq!(json.get_u64("f"), None);
    assert_eq!(json.get_u64("s"), None);
    assert!(matches!(json.get("z"), Some(Json::Null)));
    assert!(json.get("missing").is_none());
    assert!(parse("[1]").get("0").is_none());
    assert_eq!(json.into_field("l").unwrap().into_items().unwrap().len(), 2);
    assert!(parse("1").into_items().is_none());
    assert!(parse("1").into_field("x").is_none());
}

#[test]
fn the_last_field_of_a_name_counts() {
    let json = Json::Object(vec![
        ("a".to_string(), Json::text("first")),
        ("b".to_string(), Json::Bool(true)),
        ("a".to_string(), Json::text("last")),
    ]);
    assert_eq!(json.get_str("a"), Some("last"));
    assert_eq!(json.to_text(), "{\"a\":\"last\",\"b\":true}");
    assert_eq!(json.to_pretty(), "{\n  \"a\": \"last\",\n  \"b\": true\n}");
    assert_eq!(json.into_field("a").unwrap().to_text(), "\"last\"");
    let nested = Json::Array(vec![Json::Object(vec![
        ("x".to_string(), Json::Null),
        ("x".to_string(), Json::Null),
        ("y".to_string(), Json::unsigned(1)),
        ("x".to_string(), Json::unsigned(2)),
        ("y".to_string(), Json::unsigned(3)),
    ])]);
    assert_eq!(nested.to_text(), "[{\"x\":2,\"y\":3}]");
}

#[test]
fn fields_are_set_and_replaced() {
    let mut json = Json::object();
    json.set("n", Json::unsigned(u64::MAX));
    json.set("i", Json::signed(-3));
    json.set("j", Json::signed(3));
    assert_eq!(json.to_text(), "{\"i\":-3,\"j\":3,\"n\":18446744073709551615}");
    assert_eq!(json.get_u64("j"), Some(3));
    assert!(json.replace("new", Json::Null).is_none());
    assert_eq!(json.replace("i", Json::text("x")).unwrap().to_text(), "-3");
    assert_eq!(json.get_str("i"), Some("x"));
    let mut list = parse("[1]");
    list.set("a", Json::Null);
    assert_eq!(list.to_text(), "[1]");
}
