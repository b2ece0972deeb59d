use dexbot_model::hash::{content_hash, document_hash, document_hash_matches, hex, semantic_payload};
use dexbot_model::json::{json_eq, Json};

fn to_json(value: serde_json::Value) -> Json {
    match value {
        serde_json::Value::Null => Json::Null,
        serde_json::Value::Bool(b) => Json::Bool(b),
        serde_json::Value::Number(n) => Json::Number(n.to_string()),
        serde_json::Value::String(s) => Json::String(s),
        serde_json::Value::Array(items) => Json::Array(items.into_iter().map(to_json).collect()),
        serde_json::Value::Object(map) => {
            Json::Object(map.into_iter().map(|(k, v)| (k, to_json(v))).collect())
        }
    }
}

fn j(text: &str) -> Json {
    to_json(serde_json::from_str(text).unwrap())
}

#[test]
fn hex_is_lowercase_and_two_digits_per_byte() {
    assert_eq!(hex(&[0x00, 0x0f, 0xa5, 0xff]), "000fa5ff");
    assert_eq!(hex(&[]), "");
}

#[test]
fn content_hash_is_sha256_in_hex() {
    assert_eq!(
        content_hash(b""),
        "e3b0c44298fc1c149afbf4c8996fb92427ae41e4649b934ca495991b7852b855"
    );
    assert_eq!(
        content_hash(b"abc"),
        "ba7816bf8f01cfea414140de5dae2223b00361a396177a9cb410ff61f20015ad"
    );
}

#[test]
fn the_payload_leaves_out_the_hash_provenance_and_profile_name() {
    let doc = j(r#"{"content_hash": "x", "profile_name": "site_a", "provenance": {"robot.model": "profile:a"},
        "robot": {"model": "vega_1", "provenance": "kept below the root"}, "schema_version": 1}"#);
    assert!(json_eq(
        &semantic_payload(&doc),
        &j(r#"{"robot": {"model": "vega_1", "provenance": "kept below the root"}, "schema_version": 1}"#)
    ));
    assert!(json_eq(&semantic_payload(&j("[1, 2]")), &j("[1, 2]")));
}

#[test]
fn the_document_hash_covers_the_compact_payload() {
    // SHA-256 of the compact text `{"a":1}`.
    let expected = content_hash(br#"{"a":1}"#);
    assert_eq!(document_hash(&j(r#"{"a": 1}"#)), expected);
    assert_eq!(
        document_hash(&j(r#"{"a": 1, "content_hash": "old", "profile_name": "renamed", "provenance": {"a": "x"}}"#)),
        expected
    );
    assert!(document_hash_matches(&expected, &j(r#"{"profile_name": "copy", "a": 1}"#)));
    // A semantic change, however small, changes the hash.
    assert_ne!(document_hash(&j(r#"{"a": 2}"#)), expected);
    assert!(!document_hash_matches(&expected, &j(r#"{"a": 1, "b": null}"#)));
}

/// A resolved configuration document carrying its own content hash.
fn resolved(namespace: &str, provenance: &str) -> Json {
    let body = format!(
        r#""profile_name": "vega_1", "provenance": {provenance},
            "resolution_stage": "static", "schema_version": 1,
            "robot": {{"model": "vega_1", "namespace": "{namespace}"}},
            "runtime": {{"readiness": "required_components", "state_idle_timeout_ms": 5000}}"#
    );
    let hash = document_hash(&j(&format!("{{{body}}}")));
    j(&format!(r#"{{"content_hash": "{hash}", {body}}}"#))
}

fn stored_hash(doc: &Json) -> String {
    match doc {
        Json::Object(entries) => entries
            .iter()
            .find(|(k, _)| k == "content_hash")
            .and_then(|(_, v)| match v {
                Json::String(s) => Some(s.clone()),
                _ => None,
            })
            .unwrap(),
        _ => panic!("not an object"),
    }
}

#[test]
fn the_stored_hash_matches_the_recomputed_one() {
    let config = resolved("dm/vg1-0001", r#"{"robot.model": "profile:vega_1"}"#);
    assert!(document_hash_matches(&stored_hash(&config), &config));
    assert_eq!(stored_hash(&config), document_hash(&config));
}

#[test]
fn the_hash_covers_semantics_and_ignores_provenance() {
    let config = resolved("dm/vg1-0001", r#"{"robot.model": "profile:vega_1"}"#);
    let stored = stored_hash(&config);
    // Provenance records where values came from on this machine; two
    // machines resolving identical content must hash identically.
    let cleared = resolved("dm/vg1-0001", "{}");
    assert!(document_hash_matches(&stored, &cleared));
    // A semantic change, however small, must break the stored hash.
    let changed = resolved("dm/other", r#"{"robot.model": "profile:vega_1"}"#);
    assert!(!document_hash_matches(&stored, &changed));
    assert_ne!(document_hash(&changed), stored);
}
