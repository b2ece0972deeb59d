use dexbot_model::diff::{compact, diff_documents};
use dexbot_model::json::Json;

fn to_json(value: serde_json::Value) -> Json {
    match value {
        serde_json::Value::Null => Json::Null,
        serde_json::Value::Bool(b) => Json::Bool(b),
        serde_json::Value::Number(n) => Json::Number(n.to_string()),
        serde_json::Value::String(s) => Json::String(s),
        serde_json::Value::Array(items) => Json::Array(items.into_iter().map(to_json).collect()),
        serde_json::Value::Object(map) => {
            Json::Object(map.into_iter().map(|(k, v)| (k, to_json(v))).collect())
        }
    }
}

fn j(text: &str) -> Json {
    to_json(serde_json::from_str(text).unwrap())
}

#[test]
fn identical_documents_have_no_differences() {
    let doc = j(r#"{"robot": {"model": "vega_1"}, "components": {"torso": {"enabled": true}}}"#);
    assert!(diff_documents(&doc, &doc).is_empty());
}

#[test]
fn diff_reports_field_level_changes_in_key_order() {
    let left = j(r#"{"robot": {"model": "vega_1"}, "components": {"torso": {"enabled": true}, "arm": 1},
        "content_hash": "a", "provenance": {"x": "y"}}"#);
    let right = j(r#"{"robot": {"model": "vega_1u"}, "components": {"arm": 1, "left_hand": {"driver": "d"}},
        "content_hash": "b"}"#);
    assert_eq!(
        diff_documents(&left, &right),
        vec![
            "components.left_hand: <absent> -> {\"driver\":\"d\"}",
            "components.torso: {\"enabled\":true} -> <absent>",
            "robot.model: \"vega_1\" -> \"vega_1u\"",
        ]
    );
}

#[test]
fn excluded_fields_are_only_excluded_at_the_root() {
    let left = j(r#"{"a": {"content_hash": 1}}"#);
    let right = j(r#"{"a": {"content_hash": 2}}"#);
    assert_eq!(diff_documents(&left, &right), vec!["a.content_hash: 1 -> 2"]);
    assert_eq!(diff_documents(&j("[1]"), &j("[2]")), vec![": [1] -> [2]"]);
}

#[test]
fn long_values_are_cut_with_an_ellipsis() {
    let long = "x".repeat(200);
    let shown = compact(&Json::String(long));
    assert_eq!(shown.chars().count(), 120);
    assert!(shown.ends_with('…'));
    assert!(shown.starts_with("\"xxx"));
    assert_eq!(compact(&j(r#"{"b": 1, "a": [true, null]}"#)), "{\"a\":[true,null],\"b\":1}");
}

#[test]
fn the_two_zeros_are_the_same_number() {
    let left = j(r#"{"a": {"x": -0.0, "y": [0.0]}}"#);
    let right = j(r#"{"a": {"x": 0.0, "y": [-0.0]}}"#);
    assert!(diff_documents(&left, &right).is_empty());
    assert_eq!(diff_documents(&j(r#"{"a": 0}"#), &j(r#"{"a": 0.0}"#)), vec!["a: 0 -> 0.0"]);
}
