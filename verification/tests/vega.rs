use dexbot_model::json::Json;
use dexbot_model::json::json_eq;
use dexbot_model::vega::{
    discovery_selection, select_effective_model, select_model, selection_layer, EndEffector,
    HardwareReport, ModelSelection, UrdfProbe,
};
use dexbot_model::ModelError;

fn sides<T: Copy>(left: T, right: T) -> Vec<(String, T)> {
    vec![("left".to_string(), left), ("right".to_string(), right)]
}

fn selected(uri: &str) -> ModelSelection {
    ModelSelection::Selected { uri: uri.into() }
}

fn unchanged(reason: &str) -> ModelSelection {
    ModelSelection::Unchanged { reason: reason.into() }
}

#[test]
fn every_supported_combination_selects_its_bundled_model() {
    for body in ["vega_1", "vega_1p", "vega_1u"] {
        for (hand, suffix) in [
            (EndEffector::Bare, ""),
            (EndEffector::Gripper, "_gripper"),
            (EndEffector::F5d6, "_f5d6"),
        ] {
            assert_eq!(
                select_model(body, &sides(hand, hand), &sides(Some(true), Some(true))),
                selected(&format!(
                    "package://dexmate_urdf/robots/humanoid/{body}/{body}{suffix}.urdf"
                ))
            );
            let no_ft = select_model(body, &sides(hand, hand), &sides(Some(false), Some(false)));
            if body == "vega_1" {
                assert_eq!(
                    no_ft,
                    unchanged("No bundled model supports this body and wrist combination.")
                );
            } else {
                assert_eq!(
                    no_ft,
                    selected(&format!(
                        "package://dexmate_urdf/robots/humanoid/{body}/{body}_no_ft{suffix}.urdf"
                    ))
                );
            }
        }
    }
}

#[test]
fn incomplete_or_disagreeing_reports_keep_the_configured_model() {
    let bare = EndEffector::Bare;
    assert_eq!(
        select_model("vega_1", &vec![("left".to_string(), bare)], &sides(Some(true), Some(true))),
        unchanged("Both arms must report hand and wrist hardware; configured URDF retained.")
    );
    assert_eq!(
        select_model("vega_1", &sides(bare, EndEffector::Gripper), &sides(Some(true), Some(true))),
        unchanged("Arms have different end effectors; no matching model exists.")
    );
    assert_eq!(
        select_model("vega_1", &sides(bare, bare), &sides(Some(true), None)),
        unchanged("Wrist FT status is unknown; configured URDF retained.")
    );
    assert_eq!(
        select_model("vega_1p", &sides(bare, bare), &sides(Some(true), Some(false))),
        unchanged("Arms have different wrist hardware; no matching model exists.")
    );
    assert_eq!(
        select_model("vega_2", &sides(bare, bare), &sides(Some(true), Some(true))),
        unchanged("No bundled model supports this body and wrist combination.")
    );
}

fn to_json(value: serde_json::Value) -> Json {
    match value {
        serde_json::Value::Null => Json::Null,
        serde_json::Value::Bool(b) => Json::Bool(b),
        serde_json::Value::Number(n) => Json::Number(n.to_string()),
        serde_json::Value::String(s) => Json::String(s),
        serde_json::Value::Array(items) => Json::Array(items.into_iter().map(to_json).collect()),
        serde_json::Value::Object(map) => {
            Json::Object(map.into_iter().map(|(k, v)| (k, to_json(v))).collect())
        }
    }
}

fn report() -> HardwareReport {
    HardwareReport {
        reported_hands: vec!["left".into(), "right".into()],
        wrist_ft: sides(Some(true), Some(true)),
    }
}

#[test]
fn the_effective_hands_select_the_model() {
    let effective = to_json(
        serde_json::from_str(
            r#"{"robot": {"model": "vega_1u"}, "components": {
                "left_hand": {"driver": "standard.dex_gripper"},
                "right_hand": {"driver": "standard.dex_gripper", "enabled": true}}}"#,
        )
        .unwrap(),
    );
    assert_eq!(
        select_effective_model(&effective, &report()),
        selected("package://dexmate_urdf/robots/humanoid/vega_1u/vega_1u_gripper.urdf")
    );
    let disabled = to_json(
        serde_json::from_str(
            r#"{"robot": {"model": "vega_1u"}, "components": {
                "left_hand": {"driver": "standard.f5d6_hand", "enabled": false}}}"#,
        )
        .unwrap(),
    );
    assert_eq!(
        select_effective_model(&disabled, &report()),
        selected("package://dexmate_urdf/robots/humanoid/vega_1u/vega_1u.urdf")
    );
    let unknown = to_json(
        serde_json::from_str(
            r#"{"robot": {"model": "vega_1u"}, "components": {
                "left_hand": {"driver": "vendor.hand"}}}"#,
        )
        .unwrap(),
    );
    assert_eq!(
        select_effective_model(&unknown, &report()),
        unchanged("Hand driver has no supported Vega model; configured URDF retained.")
    );
    let one_side = HardwareReport {
        reported_hands: vec!["left".into()],
        wrist_ft: sides(Some(true), Some(true)),
    };
    assert_eq!(
        select_effective_model(&effective, &one_side),
        unchanged("Both arms must report hand and wrist hardware; configured URDF retained.")
    );
}

fn fitted_report(fitted: bool) -> HardwareReport {
    HardwareReport {
        reported_hands: vec!["left".into(), "right".into()],
        wrist_ft: sides(Some(fitted), Some(fitted)),
    }
}

#[test]
fn ambiguous_reports_do_not_guess_a_model() {
    // The effective configuration of a Vega-1p with grippers on both arms.
    let config = to_json(
        serde_json::from_str(
            r#"{"robot": {"model": "vega_1p"}, "components": {
                "left_hand": {"driver": "standard.dex_gripper"},
                "right_hand": {"driver": "standard.dex_gripper"}}}"#,
        )
        .unwrap(),
    );
    let mut cases = vec![HardwareReport { reported_hands: Vec::new(), wrist_ft: Vec::new() }];
    let mut unknown = fitted_report(true);
    unknown.wrist_ft[1].1 = None;
    cases.push(unknown);
    let mut missing = fitted_report(true);
    missing.reported_hands.retain(|side| side != "right");
    cases.push(missing);
    let mut extra = fitted_report(true);
    extra.reported_hands.push("other".into());
    cases.push(extra);
    let mut different = fitted_report(true);
    different.wrist_ft[1].1 = Some(false);
    cases.push(different);
    for report in cases {
        assert!(matches!(
            select_effective_model(&config, &report),
            ModelSelection::Unchanged { .. }
        ));
    }
    let hands = sides(EndEffector::Gripper, EndEffector::F5d6);
    assert!(matches!(
        select_model("vega_1p", &hands, &sides(Some(true), Some(true))),
        ModelSelection::Unchanged { .. }
    ));
    assert!(matches!(
        select_model("vega_9", &sides(EndEffector::Bare, EndEffector::Bare), &sides(Some(true), Some(true))),
        ModelSelection::Unchanged { .. }
    ));
    // The complete, agreeing report does select a model.
    assert_eq!(
        select_effective_model(&config, &fitted_report(true)),
        selected("package://dexmate_urdf/robots/humanoid/vega_1p/vega_1p_gripper.urdf")
    );
}

#[test]
fn facts_that_name_a_urdf_skip_selection() {
    let effective = to_json(
        serde_json::from_str(r#"{"robot": {"model": "vega_1u"}, "components": {}}"#).unwrap(),
    );
    let explicit = to_json(serde_json::from_str(r#"{"robot": {"urdf": "custom.urdf"}}"#).unwrap());
    assert_eq!(
        discovery_selection(&explicit, &effective, &report()),
        unchanged("Discovery supplied an explicit URDF; automatic selection skipped.")
    );
    let null_urdf = to_json(serde_json::from_str(r#"{"robot": {"urdf": null}}"#).unwrap());
    assert!(matches!(
        discovery_selection(&null_urdf, &effective, &report()),
        ModelSelection::Unchanged { .. }
    ));
    let other = to_json(serde_json::from_str(r#"{"robot": {"namespace": "x"}}"#).unwrap());
    assert_eq!(
        discovery_selection(&other, &effective, &report()),
        selected("package://dexmate_urdf/robots/humanoid/vega_1u/vega_1u.urdf")
    );
}

#[test]
fn the_probe_of_a_selected_urdf_decides_the_layer() {
    let uri = "package://dexmate_urdf/robots/humanoid/vega_1u/vega_1u.urdf";
    let (layer, selection) = selection_layer(selected(uri), UrdfProbe::Loaded).unwrap();
    let expected = to_json(serde_json::from_str(&format!(r#"{{"robot": {{"urdf": "{uri}"}}}}"#)).unwrap());
    assert!(json_eq(&layer, &expected));
    assert_eq!(selection, selected(uri));
    let (layer, selection) = selection_layer(selected(uri), UrdfProbe::Missing).unwrap();
    assert!(json_eq(&layer, &Json::Object(Vec::new())));
    assert_eq!(
        selection,
        unchanged("Selected URDF is missing from the configured asset root; configured URDF retained.")
    );
    let error = ModelError::Urdf("broken".into());
    assert_eq!(selection_layer(selected(uri), UrdfProbe::Failed(error.clone())).unwrap_err(), error);
    let kept = unchanged("Wrist FT status is unknown; configured URDF retained.");
    let (layer, selection) =
        selection_layer(kept.clone(), UrdfProbe::Failed(ModelError::Urdf("ignored".into()))).unwrap();
    assert!(json_eq(&layer, &Json::Object(Vec::new())));
    assert_eq!(selection, kept);
}
