use multisig_processor::error::DecodeError;
use multisig_processor::json::{
    field_of, flag_of_json, items_of_json, parse_event_data, text_of_json, Json,
};

fn text(s: &str) -> Json {
    Json::Text(s.to_string())
}

#[test]
fn values_are_read_variant_by_variant() {
    assert_eq!(parse_event_data("null"), Ok(Json::Null));
    assert_eq!(parse_event_data("true"), Ok(Json::Bool(true)));
    assert_eq!(parse_event_data("7"), Ok(Json::Unsigned(7)));
    assert_eq!(parse_event_data("18446744073709551615"), Ok(Json::Unsigned(u64::MAX)));
    assert_eq!(parse_event_data("-7"), Ok(Json::Signed(-7)));
    assert_eq!(parse_event_data("1.5"), Ok(Json::Decimal("1.5".to_string())));
    assert_eq!(parse_event_data("\"a\\nb\""), Ok(text("a\nb")));
    assert_eq!(
        parse_event_data("[1, \"x\", [false]]"),
        Ok(Json::Array(vec![Json::Unsigned(1), text("x"), Json::Array(vec![Json::Bool(false)])]))
    );
    assert_eq!(
        parse_event_data("{\"a\": {\"b\": null}}"),
        Ok(Json::Object(vec![(
            "a".to_string(),
            Json::Object(vec![("b".to_string(), Json::Null)])
        )]))
    );
}

#[test]
fn text_that_is_not_json_is_refused() {
    assert_eq!(parse_event_data(""), Err(DecodeError::MalformedJson));
    assert_eq!(parse_event_data("{"), Err(DecodeError::MalformedJson));
    assert_eq!(parse_event_data("0x12"), Err(DecodeError::MalformedJson));
    assert_eq!(parse_event_data("1 2"), Err(DecodeError::MalformedJson));
}

#[test]
fn member_access_never_fails() {
    let body = parse_event_data("{\"a\": {\"b\": \"c\"}, \"f\": true, \"l\": [1]}").unwrap();
    let a = field_of(Some(&body), "a");
    assert_eq!(text_of_json(field_of(a, "b")), Some(&"c".to_string()));
    assert_eq!(field_of(a, "missing"), None);
    assert_eq!(field_of(field_of(a, "b"), "deeper"), None);
    assert_eq!(field_of(None, "a"), None);
    assert_eq!(flag_of_json(field_of(Some(&body), "f")), Some(true));
    assert_eq!(flag_of_json(field_of(Some(&body), "a")), None);
    assert_eq!(items_of_json(field_of(Some(&body), "l")), Some(&vec![Json::Unsigned(1)]));
    assert_eq!(items_of_json(field_of(Some(&body), "f")), None);
    assert_eq!(text_of_json(None), None);
}

#[test]
fn copies_are_equal_to_what_they_copy() {
    let body = parse_event_data("{\"a\": [1, -2, 3.5, \"x\", null, {\"k\": false}]}").unwrap();
    assert_eq!(body.deep_copy(), body);
    assert_eq!(Json::copy_of(Some(&body)), body);
    assert_eq!(Json::copy_of(None), Json::Null);
}

#[test]
fn setting_a_member_replaces_or_adds() {
    let body = parse_event_data("{\"a\": 1, \"b\": 2}").unwrap();
    assert_eq!(
        body.with_field("a", Json::Null),
        Json::Object(vec![("a".to_string(), Json::Null), ("b".to_string(), Json::Unsigned(2))])
    );
    let body = parse_event_data("{\"a\": 1}").unwrap();
    assert_eq!(
        body.with_field("c", Json::Bool(true)),
        Json::Object(vec![
            ("a".to_string(), Json::Unsigned(1)),
            ("c".to_string(), Json::Bool(true))
        ])
    );
    assert_eq!(
        Json::Null.with_field("k", Json::Unsigned(1)),
        Json::Object(vec![("k".to_string(), Json::Unsigned(1))])
    );
    assert_eq!(
        Json::Unsigned(5).with_field("k", Json::Unsigned(1)),
        Json::Object(vec![("k".to_string(), Json::Unsigned(1))])
    );
}
