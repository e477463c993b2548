use pinata_client::json::JsonValue;
use pinata_client::parse::parse_json_text;
use pinata_client::ser::to_json_string;

fn obj(fields: Vec<(&str, JsonValue)>) -> JsonValue {
    JsonValue::Obj(fields.into_iter().map(|(k, v)| (k.to_string(), v)).collect())
}

fn num(lexeme: &str) -> JsonValue {
    JsonValue::Num(lexeme.to_string())
}

fn s(t: &str) -> JsonValue {
    JsonValue::Str(t.to_string())
}

#[test]
fn serializes_scalars() {
    assert_eq!(to_json_string(&JsonValue::Null), "null");
    assert_eq!(to_json_string(&JsonValue::Bool(true)), "true");
    assert_eq!(to_json_string(&JsonValue::Bool(false)), "false");
    assert_eq!(to_json_string(&num("0")), "0");
    assert_eq!(to_json_string(&num("18446744073709551615")), "18446744073709551615");
    assert_eq!(to_json_string(&num("-42")), "-42");
    assert_eq!(to_json_string(&num("1.5e-3")), "1.5e-3");
    assert_eq!(to_json_string(&s("hi")), "\"hi\"");
}

#[test]
fn serializes_escapes() {
    assert_eq!(to_json_string(&s("a\"b")), "\"a\\\"b\"");
    assert_eq!(to_json_string(&s("a\\b")), "\"a\\\\b\"");
    assert_eq!(to_json_string(&s("a\nb")), "\"a\\u000ab\"");
    assert_eq!(to_json_string(&s("\u{1F600}")), "\"\u{1F600}\"");
}

#[test]
fn serializes_compound_values() {
    let v = JsonValue::Arr(vec![num("1"), JsonValue::Null, s("x")]);
    assert_eq!(to_json_string(&v), "[1,null,\"x\"]");
    let o = obj(vec![("a", num("1")), ("b", JsonValue::Arr(vec![]))]);
    assert_eq!(to_json_string(&o), "{\"a\":1,\"b\":[]}");
    assert_eq!(to_json_string(&obj(vec![])), "{}");
}

#[test]
fn parses_scalars_and_whitespace() {
    assert_eq!(parse_json_text("null"), Some(JsonValue::Null));
    assert_eq!(parse_json_text("  true\n"), Some(JsonValue::Bool(true)));
    assert_eq!(parse_json_text("\tfalse"), Some(JsonValue::Bool(false)));
    assert_eq!(parse_json_text("42"), Some(num("42")));
    assert_eq!(parse_json_text("-7"), Some(num("-7")));
    assert_eq!(parse_json_text("-0"), Some(num("-0")));
    assert_eq!(parse_json_text("1.25"), Some(num("1.25")));
    assert_eq!(parse_json_text("-3.5e+10"), Some(num("-3.5e+10")));
    assert_eq!(parse_json_text("2E8"), Some(num("2E8")));
    assert_eq!(parse_json_text("18446744073709551616"), Some(num("18446744073709551616")));
    assert_eq!(parse_json_text(" \"ok\" "), Some(s("ok")));
}

#[test]
fn parses_nested_structures() {
    let t = " { \"a\" : [ 1 , 2 ] , \"b\" : { \"c\" : null } } ";
    let expect = obj(vec![
        ("a", JsonValue::Arr(vec![num("1"), num("2")])),
        ("b", obj(vec![("c", JsonValue::Null)])),
    ]);
    assert_eq!(parse_json_text(t), Some(expect));
    assert_eq!(parse_json_text("[]"), Some(JsonValue::Arr(vec![])));
    assert_eq!(parse_json_text("{}"), Some(obj(vec![])));
}

#[test]
fn parses_string_escapes() {
    assert_eq!(parse_json_text("\"a\\nb\""), Some(s("a\nb")));
    assert_eq!(parse_json_text("\"a\\u0041b\""), Some(s("aAb")));
    assert_eq!(parse_json_text("\"\\uD83D\\uDE00\""), Some(s("\u{1F600}")));
    assert_eq!(parse_json_text("\"\\\\\\\"\\/\""), Some(s("\\\"/")));
}

#[test]
fn rejects_malformed_texts() {
    assert_eq!(parse_json_text(""), None);
    assert_eq!(parse_json_text("nul"), None);
    assert_eq!(parse_json_text("1 2"), None);
    assert_eq!(parse_json_text("[1,]"), None);
    assert_eq!(parse_json_text("{\"a\":}"), None);
    assert_eq!(parse_json_text("\"unterminated"), None);
    assert_eq!(parse_json_text("\"\\uD83D\""), None);
    assert_eq!(parse_json_text("1."), None);
    assert_eq!(parse_json_text("1e"), None);
    assert_eq!(parse_json_text("1e+"), None);
    assert_eq!(parse_json_text("-"), None);
}

#[test]
fn round_trips_documents() {
    let v = obj(vec![
        ("name", s("test")),
        ("value", num("42")),
        ("price", num("19.99")),
        ("list", JsonValue::Arr(vec![num("-1"), JsonValue::Bool(false), s("x\ny")])),
        ("inner", obj(vec![("deep", JsonValue::Null)])),
    ]);
    let text = to_json_string(&v);
    assert_eq!(parse_json_text(&text), Some(v));
}

#[test]
fn agrees_with_reference_json_library() {
    let text = "{\"name\":\"test\",\"value\":42,\"price\":1.5,\"flag\":true,\"items\":[1,2,3]}";
    let mine = parse_json_text(text).unwrap();
    let back = to_json_string(&mine);
    let reparsed: serde_json::Value = serde_json::from_str(&back).unwrap();
    let reference: serde_json::Value = serde_json::from_str(text).unwrap();
    assert_eq!(reparsed, reference);
}
