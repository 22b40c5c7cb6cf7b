use backend_rove::json::Json;

fn canon(text: &str) -> String {
    Json::parse(text).unwrap().text()
}

#[test]
fn values_survive_a_round_trip() {
    for text in [
        "null",
        "true",
        "false",
        "0",
        "18446744073709551615",
        "-9223372036854775808",
        "1.5",
        "-0.001",
        "1e300",
        "\"\"",
        "\"a\\n\\\"é🙂\"",
        "[]",
        "[1,[2,{}],null]",
        "{}",
        "{\"a\":[{\"b\":\"c\"}],\"d\":-1}",
    ] {
        assert_eq!(canon(&canon(text)), canon(text));
    }
    assert_eq!(canon(" { \"a\" : [ 1 , 2.5 , \"x\" ] } "), "{\"a\":[1,2.5,\"x\"]}");
}

#[test]
fn malformed_text_is_an_error() {
    assert!(Json::parse("{").is_err());
    assert!(Json::parse("").is_err());
    assert!(Json::parse("[1] 2").is_err());
    assert!(Json::parse_bytes(b"{\"a\":1").is_none());
    assert!(Json::parse_bytes(&[0x22, 0xff, 0x22]).is_none());
    assert_eq!(Json::parse_bytes(b"{\"a\":1}").unwrap().text(), "{\"a\":1}");
}

#[test]
fn the_error_is_the_parsers_own_message() {
    let error = Json::parse("{").err().unwrap();
    let own = serde_json::from_str::<serde_json::Value>("{").unwrap_err();
    assert_eq!(error, own.to_string());
}

#[test]
fn members_are_found_by_key_and_kind() {
    let value = Json::parse("{\"s\":\"x\",\"n\":3,\"m\":-3,\"f\":3.0,\"a\":[1,2],\"z\":null}").unwrap();
    assert_eq!(value.get_str("s"), Some("x"));
    assert_eq!(value.get_str("n"), None);
    assert_eq!(value.get_str("q"), None);
    assert_eq!(value.get("n").unwrap().as_u64(), Some(3));
    assert_eq!(value.get("n").unwrap().as_i64(), Some(3));
    assert_eq!(value.get("m").unwrap().as_i64(), Some(-3));
    assert_eq!(value.get("m").unwrap().as_u64(), None);
    assert_eq!(value.get("f").unwrap().as_u64(), None);
    assert_eq!(value.get("f").unwrap().as_i64(), None);
    assert_eq!(value.get("a").unwrap().as_array().unwrap().len(), 2);
    assert!(value.get("z").unwrap().as_array().is_none());
    assert!(value.get("z").unwrap().as_str().is_none());
    assert!(Json::string("s").get("s").is_none());
    assert!(Json::parse("[1]").unwrap().get("0").is_none());
}

#[test]
fn large_integers_keep_their_kind() {
    let big = Json::parse("18446744073709551615").unwrap();
    assert_eq!(big.as_u64(), Some(u64::MAX));
    assert_eq!(big.as_i64(), None);
    assert_eq!(big.text(), "18446744073709551615");
    let small = Json::parse("-9223372036854775808").unwrap();
    assert_eq!(small.as_i64(), Some(i64::MIN));
    assert_eq!(small.as_u64(), None);
}

#[test]
fn the_last_of_two_equal_keys_counts() {
    let value = Json::parse("{\"a\":1,\"a\":2}").unwrap();
    assert_eq!(value.text(), "{\"a\":2}");
    let built = Json::object().with("a", Json::string("x")).with("a", Json::string("y"));
    assert_eq!(built.get_str("a"), Some("y"));
    assert_eq!(built.text(), "{\"a\":\"y\"}");
}

#[test]
fn overridden_members_are_left_out() {
    let built = Json::Object(vec![
        ("a".to_string(), Json::Unsigned(1)),
        ("b".to_string(), Json::Unsigned(2)),
        ("a".to_string(), Json::Unsigned(3)),
        ("a".to_string(), Json::Unsigned(4)),
    ]);
    assert_eq!(built.text(), "{\"a\":4,\"b\":2}");
}

#[test]
fn built_values_are_written() {
    let value = Json::object()
        .with("text", Json::string("a\nb"))
        .with("list", Json::Array(vec![Json::Unsigned(1), Json::Signed(-1), Json::Bool(true), Json::Null]));
    assert_eq!(value.text(), canon("{\"text\":\"a\\nb\",\"list\":[1,-1,true,null]}"));
    assert_eq!(value.clone().text(), value.text());
}
