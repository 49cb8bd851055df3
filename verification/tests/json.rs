use workmux::json::{find_key, parse, put_entry, render, Json};

fn value(text: &str) -> Json {
    parse(text).unwrap()
}

fn entries(json: Json) -> Vec<(String, Json)> {
    match json {
        Json::Object(entries) => entries,
        other => panic!("no object: {:?}", other),
    }
}

#[test]
fn parse_sees_every_kind() {
    assert_eq!(value("null"), Json::Null);
    assert_eq!(value("true"), Json::Bool(true));
    assert_eq!(value("\"a\\nb\""), Json::Text("a\nb".to_string()));
    assert_eq!(value("[null, false]"), Json::Array(vec![Json::Null, Json::Bool(false)]));
    assert!(matches!(value("12"), Json::Number(_)));
}

#[test]
fn parse_sorts_keys_and_keeps_the_last() {
    assert_eq!(
        value(r#"{"b": 1, "a": null, "b": true}"#),
        Json::Object(vec![("a".to_string(), Json::Null), ("b".to_string(), Json::Bool(true))])
    );
}

#[test]
fn parse_refuses_what_is_not_json() {
    assert!(parse("").is_err());
    assert!(parse("{'a': 1}").is_err());
    assert!(parse("1 2").is_err());
    assert!(parse("1e400").is_err());
}

#[test]
fn parse_bounds_the_depth() {
    let deepest = format!("{}{}", "[".repeat(127), "]".repeat(127));
    assert!(parse(&deepest).is_ok());
    let deeper = format!("[{}]", deepest);
    assert!(parse(&deeper).is_err());
}

#[test]
fn render_indents() {
    assert_eq!(
        render(value(r#"{"b": [1, -2.5], "a": {}}"#)),
        "{\n  \"a\": {},\n  \"b\": [\n    1,\n    -2.5\n  ]\n}"
    );
}

#[test]
fn render_is_read_back() {
    let text = r#"{"a": [1, 18446744073709551615, -9223372036854775808, 1e300], "b": "\u0001é"}"#;
    assert_eq!(value(&render(value(text))), value(text));
    assert_eq!(value(&format!("{}\n", render(value(text)))), value(text));
}

#[test]
fn render_prints_large_fractions_with_an_exponent() {
    assert_eq!(render(value("1e308")), "1e+308");
    assert_eq!(render(value("1.0")), "1.0");
}

#[test]
fn render_of_the_largest_numbers_is_read_back() {
    let digits = "17976931348623157";
    for n in 1..=digits.len() {
        let text = format!("{}e{}", &digits[..n], 309 - n);
        assert!(parse(&render(value(&text))).is_ok(), "{}", text);
        assert!(parse(&render(value(&format!("-{}", text)))).is_ok(), "{}", text);
    }
}

#[test]
fn render_lays_out_plain_values() {
    assert_eq!(render(value("[]")), "[]");
    assert_eq!(render(value("{}")), "{}");
    assert_eq!(render(value("true")), "true");
    assert_eq!(
        render(value("{\"d\": [], \"a\": [null, {\"b\": \"\u{7f}é\", \"c\": false}]}")),
        "{\n  \"a\": [\n    null,\n    {\n      \"b\": \"\u{7f}é\",\n      \"c\": false\n    }\n  ],\n  \"d\": []\n}"
    );
}

#[test]
fn parse_says_what_is_wrong() {
    assert_eq!(parse("[1,]").unwrap_err().to_string(), "trailing comma at line 1 column 4");
    assert_eq!(parse("").unwrap_err().to_string(), "EOF while parsing a value at line 1 column 0");
}

#[test]
fn equals_compares_by_value() {
    assert!(value(r#"{"a": [1, "x"], "b": null}"#).equals(&value(r#"{"b": null, "a": [1, "x"]}"#)));
    assert!(!value(r#"{"a": 1}"#).equals(&value(r#"{"b": 1}"#)));
    assert!(!value(r#"{"a": 1}"#).equals(&value(r#"{"a": 1, "b": 1}"#)));
    assert!(!value("[1, 2]").equals(&value("[2, 1]")));
    assert!(!value("[1]").equals(&value("[1, 1]")));
    assert!(!value("null").equals(&value("false")));
    assert!(!value("true").equals(&value("false")));
    assert!(!value("\"a\"").equals(&value("\"A\"")));
}

#[test]
fn equals_tells_integers_from_fractions() {
    assert!(value("1").equals(&value("1")));
    assert!(!value("1").equals(&value("1.0")));
    assert!(!value("1").equals(&value("-1")));
    assert!(value("1.50").equals(&value("1.5")));
    assert!(value("0.0").equals(&value("-0.0")));
}

#[test]
fn get_looks_into_objects() {
    let object = value(r#"{"a": 1, "b": {"a": 2}}"#);
    assert_eq!(object.get("a"), Some(&value("1")));
    assert_eq!(object.get("b").unwrap().get("a"), Some(&value("2")));
    assert_eq!(object.get("c"), None);
    assert_eq!(value("[1]").get("a"), None);
    assert_eq!(value("\"a\"").get("a"), None);
}

#[test]
fn find_key_gives_the_place() {
    let list = entries(value(r#"{"a": 1, "c": 2}"#));
    assert_eq!(find_key(&list, "a"), Some(0));
    assert_eq!(find_key(&list, "c"), Some(1));
    assert_eq!(find_key(&list, "b"), None);
}

#[test]
fn put_entry_keeps_the_order() {
    let mut list = entries(value(r#"{"a": 1, "c": 2}"#));
    put_entry(&mut list, "b".to_string(), Json::Null);
    put_entry(&mut list, "c".to_string(), Json::Bool(true));
    put_entry(&mut list, "d".to_string(), Json::Bool(false));
    assert_eq!(Json::Object(list), value(r#"{"a": 1, "b": null, "c": true, "d": false}"#));
}
