use dexbot_model::checks::{MetadataNumber, NumericCheck};
use dexbot_model::document::{ComponentConfig, ProfileDocument};
use dexbot_model::json::{json_eq, Json};
use dexbot_model::plan::{resolved_validation_plan, validation_plan, Pending};
use dexbot_model::types::{
    CapabilitySpec, EndpointConfig, JointConfig, RobotIdentity, RuntimeSettings,
};
use dexbot_model::ModelError;

fn to_json(value: serde_json::Value) -> Json {
    match value {
        serde_json::Value::Null => Json::Null,
        serde_json::Value::Bool(b) => Json::Bool(b),
        serde_json::Value::Number(n) => Json::Number(n.to_string()),
        serde_json::Value::String(s) => Json::String(s),
        serde_json::Value::Array(items) => Json::Array(items.into_iter().map(to_json).collect()),
        serde_json::Value::Object(map) => {
            Json::Object(map.into_iter().map(|(k, v)| (k, to_json(v))).collect())
        }
    }
}

fn j(text: &str) -> Json {
    to_json(serde_json::from_str(text).unwrap())
}

fn component(driver: &str, topic: &str) -> ComponentConfig {
    ComponentConfig {
        driver: driver.into(),
        enabled: true,
        required: true,
        local: false,
        roles: Vec::new(),
        capabilities: Vec::new(),
        dependencies: Vec::new(),
        joints: None,
        endpoints: vec![(
            "state".into(),
            EndpointConfig { kind: "topic".into(), value: topic.into() },
        )],
        safety: Vec::new(),
        metadata: Vec::new(),
    }
}

fn document(components: Vec<(&str, ComponentConfig)>, sensors: Vec<(&str, ComponentConfig)>) -> ProfileDocument {
    ProfileDocument {
        schema_version: 1,
        extends: Vec::new(),
        robot: RobotIdentity {
            model: "test".into(),
            namespace: None,
            urdf: None,
            profile_version: "1.0.0".into(),
            asset_version: "test".into(),
        },
        runtime: RuntimeSettings::default(),
        components: components.into_iter().map(|(n, c)| (n.to_string(), c)).collect(),
        sensors: sensors.into_iter().map(|(n, c)| (n.to_string(), c)).collect(),
        joint_groups: Vec::new(),
        safety: Vec::new(),
        querables: Vec::new(),
        intent_profiles: Vec::new(),
    }
}

fn failure_message(failure: Option<ModelError>) -> String {
    match failure {
        Some(ModelError::Validation(m)) => m,
        other => panic!("expected a validation failure, got {other:?}"),
    }
}

#[test]
fn a_header_problem_stops_the_plan_before_any_object() {
    let mut doc = document(vec![("part", component("vendor.test", "state/test"))], Vec::new());
    doc.schema_version = 2;
    let (checks, failure) = validation_plan(&doc);
    assert!(checks.is_empty());
    assert_eq!(failure_message(failure), "unsupported schema_version 2; expected 1");
}

#[test]
fn battery_flags_hand_out_their_range_checks_in_order() {
    let mut battery = component("standard.battery", "state/battery");
    battery.safety = vec![
        ("battery_hysteresis_percentage".into(), j("5")),
        ("low_battery_percentage".into(), j("20")),
    ];
    let doc = document(vec![("battery", battery)], Vec::new());
    let (checks, failure) = validation_plan(&doc);
    assert!(failure.is_none());
    assert_eq!(checks.len(), 3);
    assert!(matches!(&checks[0], Pending::SafetyFlag { object, flag, check: NumericCheck::BatteryHysteresis, .. }
        if object == "battery" && flag == "battery_hysteresis_percentage"));
    assert!(matches!(&checks[1], Pending::SafetyFlag { flag, check: NumericCheck::LowBattery, value, .. }
        if flag == "low_battery_percentage" && json_eq(value, &j("20"))));
    assert!(matches!(&checks[2], Pending::BatteryBudget { object, low: Some(_), hysteresis: Some(_) }
        if object == "battery"));
}

#[test]
fn range_checks_come_before_a_later_structural_failure() {
    let mut base = component("vendor.base", "state/base");
    base.metadata = vec![
        ("grasp_torque".into(), j("0.2")),
        ("max_linear_vel".into(), j("0.8")),
        ("timeout_seconds".into(), j("2")),
    ];
    base.capabilities = vec![CapabilitySpec { id: "Not An Id".into(), required: true }];
    let doc = document(vec![("base", base)], Vec::new());
    let (checks, failure) = validation_plan(&doc);
    assert_eq!(checks.len(), 2);
    assert!(matches!(&checks[0], Pending::Metadata { key, kind: MetadataNumber::InRange, .. } if key == "max_linear_vel"));
    assert!(matches!(&checks[1], Pending::GraspTorque { object, .. } if object == "base"));
    assert_eq!(failure_message(failure), "runtime object \"base\" has invalid capability id \"Not An Id\"");
}

#[test]
fn timeout_copies_are_compared_where_both_are_set() {
    let mut heartbeat = component("standard.heartbeat", "state/heartbeat");
    heartbeat.safety = vec![("timeout_seconds".into(), j("2"))];
    heartbeat.metadata = vec![("timeout_seconds".into(), j("2.0"))];
    let doc = document(vec![("heartbeat", heartbeat)], Vec::new());
    let (checks, failure) = validation_plan(&doc);
    assert!(failure.is_none());
    assert_eq!(checks.len(), 2);
    assert!(matches!(&checks[0], Pending::SafetyFlag { check: NumericCheck::HeartbeatTimeout, .. }));
    assert!(matches!(&checks[1], Pending::TimeoutCopies { safety, metadata, .. }
        if json_eq(safety, &j("2")) && json_eq(metadata, &j("2.0"))));
}

#[test]
fn objects_are_planned_components_first_and_names_must_be_new() {
    let doc = document(
        vec![("arm", component("vendor.arm", "state/arm"))],
        vec![("arm", component("vendor.camera", "state/camera"))],
    );
    let (checks, failure) = validation_plan(&doc);
    assert!(checks.is_empty());
    assert_eq!(failure_message(failure), "duplicate runtime object \"arm\"");
    let mut bad = component("vendor.camera", "state/camera");
    bad.endpoints.clear();
    let doc = document(vec![("arm", component("vendor.arm", "state/arm"))], vec![("camera", bad)]);
    let (_, failure) = validation_plan(&doc);
    assert_eq!(
        failure_message(failure),
        "enabled runtime object \"camera\" has no endpoints and is not local"
    );
}

fn arm(joints: &[&str], pose_pool: &str) -> ComponentConfig {
    let mut c = component("standard.arm", "state/arm");
    c.joints = Some(JointConfig {
        names: joints.iter().map(|n| n.to_string()).collect(),
        source: None,
        group: None,
    });
    c.metadata = vec![("pose_pool".into(), j(pose_pool))];
    c
}

#[test]
fn resolved_poses_hand_out_their_targets_and_joints_are_claimed_once() {
    let doc = document(
        vec![
            ("left_arm", arm(&["a", "b"], r#"{"folded": [0.5, 1], "zero": {"joint_pos": [0, 0], "frame": "torso_upright"}}"#)),
            ("right_arm", arm(&["b", "c"], r#"{}"#)),
        ],
        Vec::new(),
    );
    let (checks, failure) = resolved_validation_plan(&doc);
    assert_eq!(checks.len(), 2);
    assert!(matches!(&checks[0], Pending::PoseTargets { object, pose, targets, torso: false }
        if object == "left_arm" && pose == "folded" && json_eq(targets, &j("[0.5, 1]"))));
    assert!(matches!(&checks[1], Pending::PoseTargets { pose, targets, torso: true, .. }
        if pose == "zero" && json_eq(targets, &j("[0, 0]"))));
    assert_eq!(
        failure_message(failure),
        "joint \"b\" is claimed by both \"left_arm\" and \"right_arm\"; a joint belongs to exactly one enabled commanding runtime object"
    );
}

#[test]
fn resolved_poses_need_one_target_per_final_joint() {
    let doc = document(vec![("left_arm", arm(&[], r#"{"folded": [0.5]}"#))], Vec::new());
    let (checks, failure) = resolved_validation_plan(&doc);
    assert!(checks.is_empty());
    assert_eq!(
        failure_message(failure),
        "runtime object \"left_arm\" pose \"folded\" cannot be checked: the component resolved to no joints"
    );
}
