use mcp_registry::json::{is_well_formed, parse_json, render_json, render_json_pretty, Json};

#[test]
fn parsing_keeps_kinds_and_order() {
    let json = parse_json(r#"{"b": [1, "two", null, true, {"x": -2.5}], "a": false}"#).unwrap();
    match &json {
        Json::Object(members) => {
            assert_eq!(members.len(), 2);
            assert_eq!(members[0].0, "b");
            assert_eq!(members[1], ("a".to_string(), Json::Bool(false)));
            match &members[0].1 {
                Json::Array(items) => {
                    assert_eq!(items.len(), 5);
                    assert!(matches!(items[0], Json::Number(_)));
                    assert_eq!(items[1], Json::Str("two".to_string()));
                    assert_eq!(items[2], Json::Null);
                    assert_eq!(items[3], Json::Bool(true));
                    assert!(matches!(items[4], Json::Object(_)));
                }
                _ => panic!("not an array"),
            }
        }
        _ => panic!("not an object"),
    }
}

#[test]
fn rendering_keeps_kinds_and_order() {
    let text = r#"{"b":[1,"two",null,true,{"x":-2.5}],"a":false}"#;
    let json = parse_json(text).unwrap();
    assert_eq!(render_json(&json), Ok(text.to_string()));
    assert_eq!(render_json(&json.clone()), Ok(text.to_string()));
}

#[test]
fn pretty_rendering_indents_by_two() {
    let json = Json::Object(vec![
        ("k".to_string(), Json::Array(vec![Json::Str("v".to_string()), Json::Null])),
        ("e".to_string(), Json::Array(vec![])),
    ]);
    assert_eq!(
        render_json_pretty(&json),
        Ok("{\n  \"k\": [\n    \"v\",\n    null\n  ],\n  \"e\": []\n}".to_string())
    );
    assert_eq!(render_json(&json), Ok("{\"k\":[\"v\",null],\"e\":[]}".to_string()));
}

#[test]
fn a_text_that_is_no_json_gives_the_parser_message() {
    assert_eq!(parse_json("[1,"), Err("EOF while parsing a value at line 1 column 3".to_string()));
    assert!(parse_json("").is_err());
}

#[test]
fn members_are_found_by_name() {
    let json = parse_json(r#"{"a": 1, "b": "x"}"#).unwrap();
    assert_eq!(json.get("b"), Some(&Json::Str("x".to_string())));
    assert_eq!(json.get("c"), None);
    assert_eq!(Json::Str("a".to_string()).get("a"), None);
    assert_eq!(Json::text("t"), Json::Str("t".to_string()));
    assert_eq!(Json::empty_array(), Json::Array(vec![]));
    assert_eq!(Json::empty_object(), Json::Object(vec![]));
    assert_eq!(Json::array(vec![Json::Null]), Json::Array(vec![Json::Null]));
    assert_eq!(Json::object(vec![]), Json::Object(vec![]));
}

#[test]
fn a_copy_holds_the_same() {
    let json = parse_json(r#"{"n": 12345678901234567890, "f": 1.5e3, "s": ["a", {"t": null}]}"#).unwrap();
    let copy = json.clone();
    assert_eq!(copy, json);
    assert_eq!(render_json(&copy), render_json(&json));
    assert_eq!(render_json(&copy), Ok(r#"{"n":12345678901234567890,"f":1500.0,"s":["a",{"t":null}]}"#.to_string()));
}

#[test]
fn a_document_with_a_repeated_member_has_no_text() {
    let twice = Json::Array(vec![Json::Object(vec![
        ("a".to_string(), Json::Null),
        ("b".to_string(), Json::Null),
        ("a".to_string(), Json::Bool(true)),
    ])]);
    let refused = Err("an object has two members of one name".to_string());
    assert!(!is_well_formed(&twice));
    assert_eq!(render_json(&twice), refused);
    assert_eq!(render_json_pretty(&twice), refused);
    let nested = Json::Object(vec![("x".to_string(), twice)]);
    assert!(!is_well_formed(&nested));
    let fine = Json::Object(vec![
        ("a".to_string(), Json::Object(vec![("a".to_string(), Json::Null)])),
        ("b".to_string(), Json::Array(vec![Json::Str("a".to_string()), Json::Str("a".to_string())])),
    ]);
    assert!(is_well_formed(&fine));
    assert!(is_well_formed(&Json::Null));
    assert_eq!(render_json(&fine), Ok(r#"{"a":{"a":null},"b":["a","a"]}"#.to_string()));
}
