use dexbot_model::json::Json;
use dexbot_model::types::CapabilitySpec;

fn to_json(value: serde_json::Value) -> Json {
    match value {
        serde_json::Value::Null => Json::Null,
        serde_json::Value::Bool(b) => Json::Bool(b),
        serde_json::Value::Number(n) => Json::Number(n.to_string()),
        serde_json::Value::String(s) => Json::String(s),
        serde_json::Value::Array(items) => Json::Array(items.into_iter().map(to_json).collect()),
        serde_json::Value::Object(map) => {
            Json::Object(map.into_iter().map(|(k, v)| (k, to_json(v))).collect())
        }
    }
}

fn capability(yaml: &str) -> Result<CapabilitySpec, String> {
    let value: serde_json::Value = serde_yaml::from_str(yaml).unwrap();
    CapabilitySpec::from_json(&to_json(value))
}

#[test]
fn capabilities_parse_in_both_documented_spellings() {
    let short = capability("joint_state").unwrap();
    assert_eq!((short.id.as_str(), short.required), ("joint_state", true));
    let full = capability("{id: imu, required: false}").unwrap();
    assert_eq!((full.id.as_str(), full.required), ("imu", false));
    let defaulted = capability("{id: imu}").unwrap();
    assert!(defaulted.required, "required defaults to true in both forms");
}

#[test]
fn malformed_capabilities_are_rejected_with_the_reason() {
    for (source, needle) in [
        ("\"\"", "cannot be empty"),
        ("{id: \"\"}", "non-empty string"),
        ("{id: 7}", "non-empty string"),
        ("{required: true}", "needs an id"),
        ("{id: imu, required: maybe}", "must be a boolean"),
        ("{id: imu, requierd: true}", "unknown field"),
    ] {
        let error = capability(source).unwrap_err();
        assert!(error.contains(needle), "{source}: {error}");
    }
}

#[test]
fn the_least_unknown_field_is_named() {
    assert_eq!(
        capability("{zeta: 1, id: imu, alpha: 2, beta: 3}").unwrap_err(),
        "expanded capability entry has unknown field \"alpha\""
    );
    assert_eq!(
        capability("[1, 2]").unwrap_err(),
        "data did not match any variant of untagged enum Input"
    );
    assert_eq!(capability("7").unwrap_err(), "data did not match any variant of untagged enum Input");
}

#[test]
fn expanded_capability_entries_reject_unknown_fields() {
    for entry in [
        "{id: vendor.product.diag, required: false, typo: 1}",
        "{required: false}",
        "{id: 7}",
    ] {
        assert!(capability(entry).is_err(), "{entry}");
    }
}
