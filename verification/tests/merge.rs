use dexbot_model::json::{json_eq, Json};
use dexbot_model::merge::merge_layer;
use dexbot_model::provenance::{user_layer, Provenance};
use dexbot_model::ModelError;

fn to_json(value: serde_json::Value) -> Json {
    match value {
        serde_json::Value::Null => Json::Null,
        serde_json::Value::Bool(b) => Json::Bool(b),
        serde_json::Value::Number(n) => Json::Number(n.to_string()),
        serde_json::Value::String(s) => Json::String(s),
        serde_json::Value::Array(items) => Json::Array(items.into_iter().map(to_json).collect()),
        serde_json::Value::Object(map) => {
            Json::Object(map.into_iter().map(|(k, v)| (k, to_json(v))).collect())
        }
    }
}

fn j(text: &str) -> Json {
    to_json(serde_json::from_str(text).unwrap())
}

fn merge(base: Json, overlay: Json) -> Result<(Json, Provenance), ModelError> {
    let mut merged = base;
    let mut provenance = Provenance::new();
    merge_layer(&mut merged, overlay, "test", &mut provenance)?;
    Ok((merged, provenance))
}

fn recorded(provenance: &Provenance, path: &str) -> Option<String> {
    provenance.get(path).cloned()
}

fn provenance_of(pairs: &[(&str, &str)]) -> Provenance {
    let mut provenance = Provenance::new();
    for (path, layer) in pairs {
        provenance.insert(path.to_string(), layer.to_string());
    }
    provenance
}

fn assert_no_delete_keys(value: &Json) {
    match value {
        Json::Object(entries) => {
            assert!(entries.iter().all(|(k, _)| k != "$delete"), "leaked $delete in {value:?}");
            entries.iter().for_each(|(_, v)| assert_no_delete_keys(v));
        }
        Json::Array(items) => items.iter().for_each(assert_no_delete_keys),
        _ => {}
    }
}

#[test]
fn nested_delete_in_fresh_subtree_is_consumed() {
    let (merged, provenance) = merge(
        j(r#"{}"#),
        j(r#"{"metadata": {"brand_new": {"inner": {"$delete": true}}}}"#),
    )
    .expect("merge");
    assert!(json_eq(&merged, &j(r#"{"metadata": {"brand_new": {}}}"#)));
    assert_no_delete_keys(&merged);
    assert_eq!(
        recorded(&provenance, "metadata.brand_new.inner").as_deref(),
        Some("test (deleted)")
    );
}

#[test]
fn delete_in_type_conflict_replacement_is_consumed() {
    let (merged, _) = merge(
        j(r#"{"keep": 1}"#),
        j(r#"{"keep": {"x": {"$delete": true}, "y": 2}}"#),
    )
    .expect("merge");
    assert!(json_eq(&merged, &j(r#"{"keep": {"y": 2}}"#)));
    assert_no_delete_keys(&merged);
}

#[test]
fn directive_with_sibling_keys_is_rejected() {
    let error = merge(j(r#"{}"#), j(r#"{"nested": {"$delete": true, "b": 2}}"#))
        .err()
        .expect("must reject");
    assert!(matches!(error, ModelError::MalformedDeletion(path) if path == "nested"));
}

#[test]
fn delete_false_is_rejected() {
    let error = merge(j(r#"{"a": 1}"#), j(r#"{"a": {"$delete": false}}"#))
        .err()
        .expect("must reject");
    assert!(matches!(error, ModelError::MalformedDeletion(path) if path == "a"));
}

#[test]
fn directive_inside_array_is_rejected() {
    let error = merge(j(r#"{}"#), j(r#"{"list": [{"$delete": true}]}"#))
        .err()
        .expect("reject");
    assert!(matches!(error, ModelError::MalformedDeletion(path) if path == "list[0]"));
    let error = merge(j(r#"{}"#), j(r#"{"list": [{"inner": {"$delete": false}}]}"#))
        .err()
        .expect("reject nested");
    assert!(matches!(error, ModelError::MalformedDeletion(path) if path == "list[0].inner"));
}

#[test]
fn delete_of_missing_key_is_a_no_op() {
    let (merged, provenance) =
        merge(j(r#"{"a": 1}"#), j(r#"{"ghost": {"$delete": true}}"#)).expect("merge");
    assert!(json_eq(&merged, &j(r#"{"a": 1}"#)));
    assert_eq!(recorded(&provenance, "ghost").as_deref(), Some("test (deleted)"));
}

#[test]
fn root_deletion_is_rejected() {
    let error = merge(j(r#"{"a": 1}"#), j(r#"{"$delete": true}"#))
        .err()
        .expect("reject");
    assert!(matches!(error, ModelError::InvalidDeletion(_)));
}

#[test]
fn discovery_layers_never_silently_override_user_set_values() {
    let user_provenance = || provenance_of(&[("sensors.cam.enabled", "overlay:user")]);
    let expect_conflict = |overlay: Json| {
        let mut base = j(r#"{"sensors": {"cam": {"enabled": false}}}"#);
        let mut provenance = user_provenance();
        let error = merge_layer(&mut base, overlay, "discovery:probe", &mut provenance)
            .err()
            .expect("must conflict");
        assert!(matches!(
            &error,
            ModelError::DiscoveryConflict { path, existing, incoming }
                if path == "sensors.cam.enabled"
                    && existing == "overlay:user"
                    && incoming == "discovery:probe"
        ));
    };
    expect_conflict(j(r#"{"sensors": {"cam": {"enabled": true}}}"#));
    expect_conflict(j(r#"{"sensors": {"cam": 5}}"#));
    expect_conflict(j(r#"{"sensors": {"cam": {"$delete": true}}}"#));
    let mut base = j(r#"{"sensors": {"cam": {"enabled": false}}}"#);
    let mut provenance = user_provenance();
    merge_layer(
        &mut base,
        j(r#"{"sensors": {"cam": {"enabled": false}}}"#),
        "discovery:probe",
        &mut provenance,
    )
    .expect("idempotent fact");
    assert!(json_eq(&base, &j(r#"{"sensors": {"cam": {"enabled": false}}}"#)));
    assert_eq!(
        recorded(&provenance, "sensors.cam.enabled").as_deref(),
        Some("overlay:user")
    );
    let mut base = j(r#"{"sensors": {}}"#);
    let mut provenance = provenance_of(&[("sensors.cam", "overlay:user (deleted)")]);
    let error = merge_layer(
        &mut base,
        j(r#"{"sensors": {"cam": {"enabled": true}}}"#),
        "discovery:probe",
        &mut provenance,
    )
    .err()
    .expect("must conflict");
    assert!(matches!(error, ModelError::DiscoveryConflict { .. }));
    let mut base = j(r#"{"sensors": {}}"#);
    let mut provenance = provenance_of(&[("sensors.cam", "overlay:user (deleted)")]);
    merge_layer(
        &mut base,
        j(r#"{"sensors": {"cam": {"$delete": true}}}"#),
        "discovery:probe",
        &mut provenance,
    )
    .expect("agreeing deletion");
    assert_eq!(
        recorded(&provenance, "sensors.cam").as_deref(),
        Some("overlay:user (deleted)")
    );
}

#[test]
fn deep_merge_and_scalar_replace_record_provenance() {
    let (merged, provenance) = merge(
        j(r#"{"robot": {"model": "vega_1", "namespace": null}}"#),
        j(r#"{"robot": {"namespace": "dm"}, "extra": {"a": [1, 2]}}"#),
    )
    .expect("merge");
    assert!(json_eq(
        &merged,
        &j(r#"{"robot": {"model": "vega_1", "namespace": "dm"}, "extra": {"a": [1, 2]}}"#)
    ));
    assert_eq!(recorded(&provenance, "robot.namespace").as_deref(), Some("test"));
    assert_eq!(recorded(&provenance, "extra.a").as_deref(), Some("test"));
    assert!(recorded(&provenance, "robot.model").is_none());
}

#[test]
fn a_scalar_overlay_replaces_and_null_is_data() {
    let (merged, provenance) =
        merge(j(r#"{"a": {"b": 1}, "c": 2}"#), j(r#"{"a": null, "c": [3]}"#)).expect("merge");
    assert!(json_eq(&merged, &j(r#"{"a": null, "c": [3]}"#)));
    assert_eq!(recorded(&provenance, "a").as_deref(), Some("test"));
    assert_eq!(recorded(&provenance, "c").as_deref(), Some("test"));
}

#[test]
fn user_layers_are_named_by_prefix() {
    assert!(user_layer("overlay:user"));
    assert!(user_layer("api:with_sensor_enabled"));
    assert!(!user_layer("discovery:probe"));
    assert!(!user_layer("profile:vega_1"));
}

/// Merges a discovery layer from `source` onto a copy of `base`.
fn discover(base: Json, provenance: Provenance, source: &str, facts: Json) -> Result<(Json, Provenance), ModelError> {
    let mut merged = base;
    let mut provenance = provenance;
    merge_layer(&mut merged, facts, &format!("discovery:{source}"), &mut provenance)?;
    Ok((merged, provenance))
}

#[test]
fn discovery_conflicts_with_user_layers_fail_with_both_provenances() {
    let document = || j(r#"{"robot": {"model": "test"}, "runtime": {"state_idle_timeout_ms": 1234}}"#);
    let user = || {
        provenance_of(&[("robot.model", "profile:test"), ("runtime.state_idle_timeout_ms", "overlay:user")])
    };
    // A contradictory discovered fact fails, naming both layers.
    let error = discover(document(), user(), "probe", j(r#"{"runtime": {"state_idle_timeout_ms": 9999}}"#))
        .unwrap_err();
    assert!(matches!(
        &error,
        ModelError::DiscoveryConflict { path, existing, incoming }
            if path == "runtime.state_idle_timeout_ms"
                && existing == "overlay:user"
                && incoming == "discovery:probe"
    ));
    let message = error.message();
    assert!(message.contains("overlay:user") && message.contains("discovery:probe"));
    // An equal discovered fact is a no-op that keeps the user provenance.
    let (operational, provenance) =
        discover(document(), user(), "probe", j(r#"{"runtime": {"state_idle_timeout_ms": 1234}}"#)).unwrap();
    assert!(json_eq(&operational, &document()));
    assert_eq!(recorded(&provenance, "runtime.state_idle_timeout_ms").as_deref(), Some("overlay:user"));
    // Values from base profiles and `extends` fragments stay discoverable.
    let profile_default = provenance_of(&[
        ("robot.model", "profile:test"),
        ("runtime.state_idle_timeout_ms", "profile:test"),
    ]);
    let (operational, provenance) = discover(
        document(),
        profile_default,
        "probe",
        j(r#"{"runtime": {"state_idle_timeout_ms": 9999}}"#),
    )
    .unwrap();
    assert!(json_eq(
        &operational,
        &j(r#"{"robot": {"model": "test"}, "runtime": {"state_idle_timeout_ms": 9999}}"#)
    ));
    assert_eq!(recorded(&provenance, "runtime.state_idle_timeout_ms").as_deref(), Some("discovery:probe"));
}

#[test]
fn discovery_conflicts_cover_api_layers() {
    let document = || j(r#"{"sensors": {"head_camera": {"enabled": true}}}"#);
    let api = || provenance_of(&[("sensors.head_camera.enabled", "api:enable_sensor:head_camera")]);
    let error = discover(document(), api(), "probe", j(r#"{"sensors": {"head_camera": {"enabled": false}}}"#))
        .unwrap_err();
    assert!(matches!(
        &error,
        ModelError::DiscoveryConflict { path, existing, incoming }
            if path == "sensors.head_camera.enabled"
                && existing == "api:enable_sensor:head_camera"
                && incoming == "discovery:probe"
    ));
    let (operational, _) =
        discover(document(), api(), "probe", j(r#"{"sensors": {"head_camera": {"enabled": true}}}"#)).unwrap();
    assert!(json_eq(&operational, &document()));
}

#[test]
fn discovery_preserves_static_provenance() {
    let document = j(r#"{"robot": {"model": "test", "namespace": "user-set"},
        "runtime": {"state_idle_timeout_ms": 5000}}"#);
    let static_provenance = provenance_of(&[
        ("robot.model", "profile:test"),
        ("robot.namespace", "overlay:user"),
        ("runtime.state_idle_timeout_ms", "profile:test"),
    ]);
    let (_, provenance) = discover(
        document,
        static_provenance,
        "probe",
        j(r#"{"runtime": {"state_idle_timeout_ms": 9000}}"#),
    )
    .unwrap();
    // Untouched values keep the layer that set them.
    assert_eq!(recorded(&provenance, "robot.namespace").as_deref(), Some("overlay:user"));
    assert_eq!(recorded(&provenance, "robot.model").as_deref(), Some("profile:test"));
    // Discovery-set values are attributed to the discovery layer.
    assert_eq!(recorded(&provenance, "runtime.state_idle_timeout_ms").as_deref(), Some("discovery:probe"));
    // No synthetic "static-resolved" layer appears anywhere.
    assert!(provenance.entries().iter().all(|(_, layer)| !layer.contains("static-resolved")));
}

#[test]
fn a_layer_changes_only_the_members_it_names() {
    let (merged, _) = merge(
        j(r#"{"robot": {"model": "vega_1"}, "sensors": {"cam": {"enabled": false}}, "safety": {}}"#),
        j(r#"{"robot": {"namespace": "site"}, "runtime": {"state_idle_timeout_ms": 900}}"#),
    )
    .unwrap();
    assert!(json_eq(
        &merged,
        &j(r#"{"robot": {"model": "vega_1", "namespace": "site"}, "sensors": {"cam": {"enabled": false}},
               "safety": {}, "runtime": {"state_idle_timeout_ms": 900}}"#)
    ));
}

#[test]
fn null_is_data_and_delete_is_explicit() {
    let base = || j(r#"{"robot": {"model": "vega_1", "namespace": "dm/vg1"}, "sensors": {"ultrasonic": {"enabled": false}}}"#);
    let (merged, _) = merge(base(), j(r#"{"robot": {"namespace": null}}"#)).unwrap();
    assert!(json_eq(
        &merged,
        &j(r#"{"robot": {"model": "vega_1", "namespace": null}, "sensors": {"ultrasonic": {"enabled": false}}}"#)
    ));
    let (merged, _) = merge(base(), j(r#"{"sensors": {"ultrasonic": {"$delete": true}}}"#)).unwrap();
    assert!(json_eq(
        &merged,
        &j(r#"{"robot": {"model": "vega_1", "namespace": "dm/vg1"}, "sensors": {}}"#)
    ));
}

#[test]
fn a_later_layer_value_wins_and_is_recorded() {
    let mut document = j(r#"{"runtime": {"state_idle_timeout_ms": 1234}, "note": "site"}"#);
    let mut provenance = provenance_of(&[("note", "overlay:site")]);
    merge_layer(&mut document, j(r#"{"note": "operator"}"#), "overlay:operator", &mut provenance).unwrap();
    assert!(json_eq(&document, &j(r#"{"runtime": {"state_idle_timeout_ms": 1234}, "note": "operator"}"#)));
    assert_eq!(recorded(&provenance, "note").as_deref(), Some("overlay:operator"));
}

#[test]
fn discovery_restating_a_zero_with_the_other_sign_is_no_conflict() {
    let base = j(r#"{"safety": {"offset": -0.0}}"#);
    let provenance = provenance_of(&[("safety.offset", "overlay:user")]);
    let (merged, provenance) =
        discover(base, provenance, "probe", j(r#"{"safety": {"offset": 0.0}}"#)).unwrap();
    assert!(json_eq(&merged, &j(r#"{"safety": {"offset": -0.0}}"#)));
    assert_eq!(recorded(&provenance, "safety.offset").as_deref(), Some("overlay:user"));
    let base = j(r#"{"safety": {"offset": 0}}"#);
    let provenance = provenance_of(&[("safety.offset", "overlay:user")]);
    assert!(matches!(
        discover(base, provenance, "probe", j(r#"{"safety": {"offset": 0.0}}"#)),
        Err(ModelError::DiscoveryConflict { .. })
    ));
}
