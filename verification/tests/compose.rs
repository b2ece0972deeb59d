use dexbot_model::compose::{
    check_discovery, check_overlay, check_schema_version, check_user_overlay, compose_layers,
    sensor_overlay, take_extends, take_fragment_extends,
};
use dexbot_model::json::{json_eq, Json};
use dexbot_model::provenance::Provenance;
use dexbot_model::types::ResolutionStage;
use dexbot_model::ModelError;

fn to_json(value: serde_json::Value) -> Json {
    match value {
        serde_json::Value::Null => Json::Null,
        serde_json::Value::Bool(b) => Json::Bool(b),
        serde_json::Value::Number(n) => Json::Number(n.to_string()),
        serde_json::Value::String(s) => Json::String(s),
        serde_json::Value::Array(items) => Json::Array(items.into_iter().map(to_json).collect()),
        serde_json::Value::Object(map) => {
            Json::Object(map.into_iter().map(|(k, v)| (k, to_json(v))).collect())
        }
    }
}

fn j(text: &str) -> Json {
    to_json(serde_json::from_str(text).unwrap())
}

#[test]
fn extends_is_taken_out_of_the_base_profile() {
    let mut doc = j(r#"{"extends": ["common/a.yaml", "common/b.yaml"], "robot": {}}"#);
    assert_eq!(take_extends(&mut doc, "p").unwrap(), vec!["common/a.yaml", "common/b.yaml"]);
    assert!(json_eq(&doc, &j(r#"{"robot": {}}"#)));
    let mut doc = j(r#"{"robot": {}}"#);
    assert!(take_extends(&mut doc, "p").unwrap().is_empty());
    let mut doc = j(r#"["x"]"#);
    assert_eq!(
        take_extends(&mut doc, "p").unwrap_err(),
        ModelError::Parse { source_name: "p".into(), message: "document root must be an object".into() }
    );
    let mut doc = j(r#"{"extends": "common/a.yaml"}"#);
    let error = take_extends(&mut doc, "p").unwrap_err();
    assert!(
        matches!(&error, ModelError::Parse { source_name, message } if source_name == "p" && message.starts_with("invalid extends: ")),
        "{error:?}"
    );
    assert!(json_eq(&doc, &j(r#"{}"#)));
}

#[test]
fn overlays_are_objects_without_extends() {
    assert!(check_overlay("o", &j(r#"{"robot": {}}"#)).is_ok());
    assert_eq!(
        check_overlay("o", &j(r#"{"extends": []}"#)),
        Err(ModelError::Validation("overlays cannot contain extends".into()))
    );
    assert_eq!(
        check_overlay("o", &j(r#"3"#)),
        Err(ModelError::Parse { source_name: "o".into(), message: "document root must be an object".into() })
    );
}

#[test]
fn stage_rules_are_enforced() {
    assert!(check_discovery(ResolutionStage::Static, &j(r#"{}"#)).is_ok());
    assert_eq!(
        check_discovery(ResolutionStage::Operational, &j(r#"{}"#)),
        Err(ModelError::Validation("discovery overlay requires a static resolved configuration".into()))
    );
    assert_eq!(
        check_discovery(ResolutionStage::Static, &j(r#"{"extends": []}"#)),
        Err(ModelError::Validation(
            "discovery cannot contain extends; only the base profile composes fragments".into()
        ))
    );
    assert!(check_user_overlay(ResolutionStage::Static).is_ok());
    assert!(check_user_overlay(ResolutionStage::Operational).is_err());
}

#[test]
fn layers_compose_in_order_with_provenance() {
    let mut merged = j(r#"{}"#);
    let mut provenance = Provenance::new();
    let layers = vec![
        ("profile:test".to_string(), j(r#"{"schema_version": 1, "sensors": {"cam": {"enabled": false}}}"#)),
        ("api:enable_sensor:cam".to_string(), sensor_overlay("cam")),
    ];
    compose_layers("test", &mut merged, layers, &mut provenance).unwrap();
    assert!(json_eq(
        &merged,
        &j(r#"{"schema_version": 1, "sensors": {"cam": {"enabled": true}}}"#)
    ));
    assert_eq!(
        provenance.get("sensors.cam.enabled").map(String::as_str),
        Some("api:enable_sensor:cam")
    );
    assert!(check_schema_version(&merged).is_ok());
}

#[test]
fn enabling_an_unknown_sensor_names_the_declared_ones() {
    let mut merged = j(r#"{"robot": {"model": "vega_1"}, "sensors": {"zed": {}, "imu": {}}}"#);
    let mut provenance = Provenance::new();
    let error = compose_layers(
        "vega_1",
        &mut merged,
        vec![("api:enable_sensor:lidar".to_string(), sensor_overlay("lidar"))],
        &mut provenance,
    )
    .unwrap_err();
    assert_eq!(
        error,
        ModelError::UnknownSensor {
            sensor: "lidar".into(),
            model: "vega_1".into(),
            profile: "vega_1".into(),
            available: "imu, zed".into()
        }
    );
    let mut merged = j(r#"{}"#);
    let error = compose_layers(
        "p",
        &mut merged,
        vec![("api:enable_sensor:lidar".to_string(), sensor_overlay("lidar"))],
        &mut Provenance::new(),
    )
    .unwrap_err();
    assert_eq!(
        error,
        ModelError::UnknownSensor {
            sensor: "lidar".into(),
            model: "unspecified".into(),
            profile: "p".into(),
            available: "none".into()
        }
    );
}

#[test]
fn extends_is_rejected_in_every_layer_after_the_base_profile() {
    let error = compose_layers(
        "p",
        &mut j(r#"{}"#),
        vec![("overlay:x".to_string(), j(r#"{"extends": ["a"]}"#))],
        &mut Provenance::new(),
    )
    .unwrap_err();
    assert_eq!(
        error,
        ModelError::Validation(
            "layer \"overlay:x\" cannot contain extends; only the base profile composes fragments".into()
        )
    );
}

#[test]
fn the_schema_version_must_be_present_and_current() {
    assert_eq!(
        check_schema_version(&j(r#"{}"#)),
        Err(ModelError::Validation("schema_version is required".into()))
    );
    assert_eq!(
        check_schema_version(&j(r#"{"schema_version": 2}"#)),
        Err(ModelError::UnsupportedSchemaVersion { found: "2".into(), expected: 1 })
    );
    assert_eq!(
        check_schema_version(&j(r#"{"schema_version": "1"}"#)),
        Err(ModelError::UnsupportedSchemaVersion { found: "\"1\"".into(), expected: 1 })
    );
}

#[test]
fn unsupported_schema_version_is_reported_before_strict_field_checks() {
    // A future schema may carry fields unknown to this build; the version
    // verdict is reached from the merged document before its fields are read.
    let future = j(r#"{"schema_version": 2, "robot": {"model": "test"}, "new_v2_section": {"x": 1}}"#);
    let error = check_schema_version(&future).unwrap_err();
    assert!(
        matches!(&error, ModelError::UnsupportedSchemaVersion { found, expected: 1 } if found == "2")
    );
    let typed = j(r#"{"schema_version": "two", "robot": {"model": "test"}}"#);
    assert!(matches!(
        check_schema_version(&typed).unwrap_err(),
        ModelError::UnsupportedSchemaVersion { .. }
    ));
    let missing = j(r#"{"robot": {"model": "test"}}"#);
    assert!(matches!(check_schema_version(&missing).unwrap_err(), ModelError::Validation(_)));
}

#[test]
fn enabling_an_unknown_sensor_is_a_dedicated_resolve_error() {
    let vega = || {
        j(r#"{"robot": {"model": "vega_1"},
              "components": {"left_arm": {"driver": "standard.arm"}},
              "sensors": {"head_camera": {"enabled": false}, "chassis_imu": {"enabled": false}}}"#)
    };
    let enable = |sensor: &str| {
        let mut merged = vega();
        compose_layers(
            "vega_1",
            &mut merged,
            vec![(format!("api:enable_sensor:{sensor}"), sensor_overlay(sensor))],
            &mut Provenance::new(),
        )
    };
    let error = enable("head_camera_typo").unwrap_err();
    assert!(
        matches!(&error, ModelError::UnknownSensor { sensor, model, profile, available } if sensor == "head_camera_typo" && model == "vega_1" && profile == "vega_1" && available.contains("head_camera"))
    );
    // Components are not sensors; the API only enables declared sensors.
    assert!(matches!(enable("left_arm").unwrap_err(), ModelError::UnknownSensor { .. }));
    // A declared sensor still resolves.
    assert!(enable("head_camera").is_ok());
}

#[test]
fn fragments_compose_no_further() {
    let mut fragment = j(r#"{"extends": [], "components": {}}"#);
    assert_eq!(take_fragment_extends(&mut fragment, "site", "common/arm.yaml"), Ok(()));
    assert!(json_eq(&fragment, &j(r#"{"components": {}}"#)));
    let mut fragment = j(r#"{"components": {}}"#);
    assert_eq!(take_fragment_extends(&mut fragment, "site", "common/arm.yaml"), Ok(()));
    let mut fragment = j(r#"{"extends": ["common/base.yaml"], "components": {}}"#);
    assert_eq!(
        take_fragment_extends(&mut fragment, "site", "common/arm.yaml"),
        Err(ModelError::NestedExtends { profile: "site".into(), fragment: "common/arm.yaml".into() })
    );
    let mut fragment = j(r#"[1]"#);
    assert_eq!(
        take_fragment_extends(&mut fragment, "site", "common/arm.yaml"),
        Err(ModelError::Parse {
            source_name: "common/arm.yaml".into(),
            message: "document root must be an object".into()
        })
    );
}
