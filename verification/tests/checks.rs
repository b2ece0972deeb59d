use dexbot_model::checks::{
    check_dependencies, check_dependency_depth, check_header, check_joint_groups,
    check_metadata_entry, check_object_back, check_object_front, check_pose,
    check_publisher_topics, check_safety_flag, check_top_level_safety, check_unique_object,
    pose_pool, JointClaims, MetadataNumber, NumericCheck,
};
use dexbot_model::document::{ComponentConfig, ProfileDocument};
use dexbot_model::json::Json;
use dexbot_model::types::{
    CapabilitySpec, EndpointConfig, JointConfig, RobotIdentity, RuntimeSettings,
};
use dexbot_model::ModelError;

fn to_json(value: serde_json::Value) -> Json {
    match value {
        serde_json::Value::Null => Json::Null,
        serde_json::Value::Bool(b) => Json::Bool(b),
        serde_json::Value::Number(n) => Json::Number(n.to_string()),
        serde_json::Value::String(s) => Json::String(s),
        serde_json::Value::Array(items) => Json::Array(items.into_iter().map(to_json).collect()),
        serde_json::Value::Object(map) => {
            Json::Object(map.into_iter().map(|(k, v)| (k, to_json(v))).collect())
        }
    }
}

fn j(text: &str) -> Json {
    to_json(serde_json::from_str(text).unwrap())
}

fn component(driver: &str) -> ComponentConfig {
    ComponentConfig {
        driver: driver.into(),
        enabled: true,
        required: true,
        local: false,
        roles: Vec::new(),
        capabilities: Vec::new(),
        dependencies: Vec::new(),
        joints: None,
        endpoints: vec![(
            "state".into(),
            EndpointConfig { kind: "topic".into(), value: "robot/state".into() },
        )],
        safety: Vec::new(),
        metadata: Vec::new(),
    }
}

fn capability(id: &str) -> CapabilitySpec {
    CapabilitySpec { id: id.into(), required: true }
}

fn message(result: Result<(), ModelError>) -> String {
    match result {
        Err(ModelError::Validation(m)) => m,
        other => panic!("expected a validation error, got {other:?}"),
    }
}

fn document() -> ProfileDocument {
    ProfileDocument {
        schema_version: 1,
        extends: Vec::new(),
        robot: RobotIdentity {
            model: "test".into(),
            namespace: None,
            urdf: None,
            profile_version: "1.0.0".into(),
            asset_version: "test".into(),
        },
        runtime: RuntimeSettings::default(),
        components: Vec::new(),
        sensors: Vec::new(),
        joint_groups: Vec::new(),
        safety: Vec::new(),
        querables: Vec::new(),
        intent_profiles: Vec::new(),
    }
}

#[test]
fn the_header_is_checked_in_order() {
    assert!(check_header(&document()).is_ok());
    let mut doc = document();
    doc.schema_version = 2;
    assert_eq!(message(check_header(&doc)), "unsupported schema_version 2; expected 1");
    let mut doc = document();
    doc.robot.model = "  ".into();
    assert_eq!(message(check_header(&doc)), "robot.model cannot be empty");
    let mut doc = document();
    doc.runtime.readiness = "all".into();
    assert_eq!(
        message(check_header(&doc)),
        "runtime.readiness must be one of [\"required_components\"], got \"all\""
    );
    let mut doc = document();
    doc.runtime.state_idle_timeout_ms = 0;
    assert_eq!(
        message(check_header(&doc)),
        "runtime.state_idle_timeout_ms must be at least 100, got 0"
    );
    let mut doc = document();
    doc.robot.namespace = Some("robot/*".into());
    assert_eq!(
        message(check_header(&doc)),
        "robot.namespace \"robot/*\" contains a wildcard or reserved character (one of * $ ? #)"
    );
}

#[test]
fn joint_groups_name_distinct_joints() {
    assert!(check_joint_groups(&vec![("arm".into(), vec!["a".into(), "b".into()])]).is_ok());
    assert_eq!(
        message(check_joint_groups(&vec![(" ".into(), vec!["a".into()])])),
        "joint_groups contains an empty group name"
    );
    assert_eq!(
        message(check_joint_groups(&vec![("arm".into(), Vec::new())])),
        "joint group \"arm\" lists no joints"
    );
    assert_eq!(
        message(check_joint_groups(&vec![("arm".into(), vec!["a".into(), "a".into()])])),
        "joint group \"arm\" has an empty or duplicate joint name"
    );
}

#[test]
fn top_level_safety_flags_name_known_actions() {
    assert!(check_top_level_safety(&vec![("estop_failure_action".into(), j("\"stop_motion\""))])
        .is_ok());
    assert_eq!(
        message(check_top_level_safety(&vec![("heartbeat_failure_action".into(), j("\"explode\""))])),
        "safety flag \"heartbeat_failure_action\" must be one of [\"stop_motion\", \"shutdown_robot\", \"activate_software_estop\", \"request_process_termination\", \"none\"], got \"explode\""
    );
    assert_eq!(
        message(check_top_level_safety(&vec![("estop_failure_action".into(), j("3"))])),
        "safety flag \"estop_failure_action\" must be one of [\"stop_motion\", \"shutdown_robot\", \"activate_software_estop\", \"request_process_termination\", \"none\"], got 3"
    );
    assert_eq!(
        message(check_top_level_safety(&vec![("brake".into(), j("true"))])),
        "unknown top-level safety flag \"brake\""
    );
}

#[test]
fn objects_are_reachable_and_their_endpoints_plain_keys() {
    assert!(check_object_front("arm", &component("standard.arm")).is_ok());
    assert_eq!(
        message(check_object_front("arm", &component(""))),
        "runtime object \"arm\" has an empty name or driver"
    );
    let mut c = component("standard.arm");
    c.enabled = false;
    assert_eq!(
        message(check_object_front("arm", &c)),
        "required runtime object \"arm\" cannot be disabled"
    );
    let mut c = component("standard.arm");
    c.endpoints.clear();
    assert_eq!(
        message(check_object_front("arm", &c)),
        "enabled runtime object \"arm\" has no endpoints and is not local"
    );
    c.local = true;
    assert_eq!(
        message(check_object_front("arm", &c)),
        "local runtime object \"arm\" has no endpoints and must declare dependencies from which its driver derives state or commands"
    );
    c.dependencies.push("base".into());
    assert!(check_object_front("arm", &c).is_ok());
    let mut c = component("standard.arm");
    c.endpoints[0].1.kind = "topics".into();
    let m = message(check_object_front("arm", &c));
    assert!(m.contains("unknown kind \"topics\"") && m.contains("subscriber_topic"), "{m}");
    let mut c = component("standard.arm");
    c.endpoints[0].1.value = "robot//state".into();
    assert_eq!(
        message(check_object_front("arm", &c)),
        "runtime object \"arm\" endpoint \"state\" value \"robot//state\" contains an empty '//' segment"
    );
}

#[test]
fn capabilities_and_joints_are_checked_after_the_maps() {
    let mut c = component("standard.arm");
    c.capabilities = vec![capability("joint_state"), capability("vendor.arm.extra")];
    c.joints = Some(JointConfig { names: vec!["j1".into()], source: None, group: None });
    assert!(check_object_back("arm", &c).is_ok());
    c.capabilities.push(capability("joint_state"));
    assert_eq!(
        message(check_object_back("arm", &c)),
        "runtime object \"arm\" repeats capability \"joint_state\""
    );
    c.capabilities = vec![capability("warp_drive")];
    assert_eq!(
        message(check_object_back("arm", &c)),
        "runtime object \"arm\" has invalid capability id \"warp_drive\""
    );
    c.capabilities.clear();
    c.joints = Some(JointConfig { names: vec![], source: None, group: Some("arm".into()) });
    assert_eq!(
        message(check_object_back("arm", &c)),
        "runtime object \"arm\" sets a joint group without `source: urdf`"
    );
    c.joints = Some(JointConfig { names: vec![], source: None, group: None });
    assert_eq!(
        message(check_object_back("arm", &c)),
        "runtime object \"arm\" joint config needs names or a URDF group"
    );
    c.joints = Some(JointConfig { names: vec![], source: Some("urdf".into()), group: None });
    assert_eq!(
        message(check_object_back("arm", &c)),
        "runtime object \"arm\" declares `source: urdf` without a joint group"
    );
    c.joints = Some(JointConfig { names: vec![], source: Some("sdf".into()), group: None });
    assert_eq!(
        message(check_object_back("arm", &c)),
        "runtime object \"arm\" has unsupported joint source \"sdf\"; the only supported source is \"urdf\""
    );
    c.joints = Some(JointConfig { names: vec!["j".into(), "j".into()], source: None, group: None });
    assert_eq!(
        message(check_object_back("arm", &c)),
        "runtime object \"arm\" has an empty or duplicate joint name"
    );
}

#[test]
fn object_names_are_unique_across_sections() {
    let names: Vec<String> = vec!["arm".into(), "camera".into(), "arm".into()];
    assert!(check_unique_object(&names, 1).is_ok());
    assert_eq!(message(check_unique_object(&names, 2)), "duplicate runtime object \"arm\"");
}

fn publisher(value: &str) -> (String, EndpointConfig) {
    ("command".into(), EndpointConfig { kind: "publisher_topic".into(), value: value.into() })
}

#[test]
fn enabled_components_cannot_share_a_publisher_topic() {
    let mut a = component("standard.arm");
    a.endpoints.push(publisher("arm/cmd"));
    let mut b = component("standard.arm");
    b.endpoints.push(publisher("arm/cmd"));
    let objects = vec![("left".to_string(), a), ("right".to_string(), b)];
    assert_eq!(
        message(check_publisher_topics(&objects)),
        "publisher topic \"arm/cmd\" is used by both \"left\" (\"command\") and \"right\" (\"command\")"
    );
    let mut objects = objects;
    objects[1].1.enabled = false;
    assert!(check_publisher_topics(&objects).is_ok());
}

#[test]
fn dependencies_name_objects_and_chains_are_bounded() {
    let mut a = component("standard.arm");
    a.dependencies.push("base".into());
    let objects = vec![("arm".to_string(), a)];
    assert_eq!(message(check_dependencies(&objects)), "\"arm\" depends on unknown object \"base\"");
    let mut a = component("standard.arm");
    a.dependencies.push("b".into());
    let mut b = component("standard.arm");
    b.dependencies.push("a".into());
    let objects = vec![("a".to_string(), a), ("b".to_string(), b)];
    assert!(check_dependencies(&objects).is_ok());
    assert_eq!(
        message(check_dependency_depth(&objects)),
        "component dependency cycle includes \"a\""
    );
    let chain = |length: usize| -> Vec<(String, ComponentConfig)> {
        let mut objects: Vec<(String, ComponentConfig)> = (0..length)
            .map(|i| {
                let mut c = component("standard.arm");
                if i + 1 < length {
                    c.dependencies.push(format!("n{:03}", i + 1));
                }
                (format!("n{i:03}"), c)
            })
            .collect();
        objects.sort_by(|x, y| x.0.cmp(&y.0));
        objects
    };
    assert!(check_dependency_depth(&chain(64)).is_ok());
    assert_eq!(
        message(check_dependency_depth(&chain(65))),
        "component dependency chain exceeds the supported depth of 64 at \"n064\""
    );
}

#[test]
fn safety_flags_are_scoped_to_the_role_that_consumes_them() {
    let mut estop = component("standard.estop");
    estop.endpoints.push((
        "estop_query_name".into(),
        EndpointConfig { kind: "service".into(), value: "system/estop".into() },
    ));
    assert_eq!(check_safety_flag("estop", &estop, "monitoring", &j("true")).unwrap(), vec![]);
    assert_eq!(
        check_safety_flag("estop", &estop, "timeout_seconds", &j("0.5")).unwrap(),
        vec![NumericCheck::EstopPoll]
    );
    assert_eq!(
        check_safety_flag("estop", &estop, "estop_query_name", &j("\"system/estop\"")).unwrap(),
        vec![]
    );
    assert_eq!(
        check_safety_flag("estop", &estop, "estop_query_name", &j("\"other\"")).unwrap_err(),
        ModelError::Validation(
            "runtime object \"estop\" safety flag \"estop_query_name\" (\"other\") contradicts endpoint \"estop_query_name\" (\"system/estop\")".into()
        )
    );
    let err = check_safety_flag("estop", &estop, "low_battery_percentage", &j("20")).unwrap_err();
    assert_eq!(
        err,
        ModelError::Validation(
            "runtime object \"estop\" (driver \"standard.estop\") sets safety flag \"low_battery_percentage\", which only [\"standard.battery\"] components consume; it would be ignored here".into()
        )
    );
    assert_eq!(
        check_safety_flag("estop", &estop, "monitoring_enabled", &j("true")).unwrap_err(),
        ModelError::Validation(
            "runtime object \"estop\" uses legacy safety flag \"monitoring_enabled\"; the canonical spelling is \"monitoring\"".into()
        )
    );
    assert_eq!(
        check_safety_flag("estop", &estop, "brakes", &j("true")).unwrap_err(),
        ModelError::Validation("runtime object \"estop\" has unknown safety flag \"brakes\"".into())
    );
    let mut both = component("vendor.watchdog");
    both.capabilities = vec![capability("heartbeat"), capability("emergency_stop")];
    assert_eq!(
        check_safety_flag("dog", &both, "timeout_seconds", &j("0.5")).unwrap(),
        vec![NumericCheck::HeartbeatTimeout, NumericCheck::EstopPoll]
    );
    let battery = component("standard.battery");
    assert_eq!(
        check_safety_flag("battery", &battery, "low_battery_percentage", &j("25")).unwrap(),
        vec![NumericCheck::LowBattery]
    );
    assert_eq!(
        check_safety_flag("battery", &battery, "monitoring", &j("\"yes\"")).unwrap_err(),
        ModelError::Validation(
            "runtime object \"battery\" safety flag \"monitoring\" must be a boolean".into()
        )
    );
}

#[test]
fn metadata_keys_are_checked_or_free() {
    assert_eq!(check_metadata_entry("arm", "vendor_key", &j("1")).unwrap(), None);
    assert_eq!(
        check_metadata_entry("arm", "max_linear_vl", &j("1")).unwrap_err(),
        ModelError::Validation(
            "runtime object \"arm\" metadata key \"max_linear_vl\" is not recognised; did you mean \"max_linear_vel\"?".into()
        )
    );
    assert_eq!(
        check_metadata_entry("arm", "state_max_age_ms", &j("false")).unwrap(),
        None
    );
    assert_eq!(
        check_metadata_entry("arm", "state_max_age_ms", &j("250")).unwrap(),
        Some(MetadataNumber::PositiveMilliseconds)
    );
    assert_eq!(
        check_metadata_entry("arm", "state_max_age_ms", &j("null")).unwrap_err(),
        ModelError::Validation(
            "runtime object \"arm\" metadata \"state_max_age_ms\" must be a positive number of milliseconds, or false to disable the freshness check; got null".into()
        )
    );
    assert_eq!(check_metadata_entry("arm", "state_idle_timeout_ms", &j("500")).unwrap(), None);
    assert_eq!(
        check_metadata_entry("arm", "state_idle_timeout_ms", &j("50")).unwrap_err(),
        ModelError::Validation(
            "runtime object \"arm\" metadata \"state_idle_timeout_ms\" must be a whole number of milliseconds, at least 100; got 50".into()
        )
    );
    assert!(check_metadata_entry("arm", "state_idle_timeout_ms", &j("150.0")).is_err());
    assert_eq!(
        check_metadata_entry("arm", "max_linear_vel", &j("1.5")).unwrap(),
        Some(MetadataNumber::InRange)
    );
    assert_eq!(check_metadata_entry("arm", "pose_pool", &j("{}")).unwrap(), None);
}

#[test]
fn poses_are_structured_and_sized() {
    let mut c = component("standard.arm");
    c.joints = Some(JointConfig { names: vec!["a".into(), "b".into()], source: None, group: None });
    c.metadata = vec![("pose_pool".into(), j(r#"{"home": [0, 0]}"#))];
    let poses = pose_pool("arm", &c).unwrap().unwrap();
    assert_eq!(poses.len(), 1);
    assert_eq!(check_pose("arm", 2, false, "home", &poses[0].1), Ok(false));
    assert_eq!(
        check_pose("arm", 2, false, "up", &j(r#"{"joint_pos": [0, 1], "frame": "torso_upright"}"#)),
        Ok(true)
    );
    assert_eq!(
        check_pose("arm", 2, false, "up", &j(r#"{"joint_pos": [0, 1]}"#)).unwrap_err(),
        ModelError::Validation(
            "runtime object \"arm\" pose \"up\" requires frame: joint, torso_horizontal or torso_upright".into()
        )
    );
    assert_eq!(
        check_pose("arm", 2, false, "up", &j(r#"{"frame": "joint"}"#)).unwrap_err(),
        ModelError::Validation("runtime object \"arm\" pose \"up\" requires joint_pos".into())
    );
    assert_eq!(
        check_pose("arm", 2, false, "up", &j(r#"{"frame": "joint", "speed": 1}"#)).unwrap_err(),
        ModelError::Validation(
            "runtime object \"arm\" pose \"up\" accepts only joint_pos and frame".into()
        )
    );
    assert_eq!(
        check_pose("arm", 2, false, "home", &j(r#"[0]"#)).unwrap_err(),
        ModelError::Validation("runtime object \"arm\" pose \"home\" has 1 targets for 2 joints".into())
    );
    assert_eq!(
        check_pose("arm", 2, false, "home", &j(r#"[0, "x"]"#)).unwrap_err(),
        ModelError::Validation(
            "runtime object \"arm\" pose \"home\"[1] must be a finite number, got \"x\"".into()
        )
    );
    assert_eq!(
        check_pose("arm", 2, false, "home", &j(r#"{"joint_pos": 5, "frame": "joint"}"#)).unwrap_err(),
        ModelError::Validation(
            "runtime object \"arm\" pose \"home\" must be an array of joint targets, got 5".into()
        )
    );
    assert_eq!(
        check_pose("arm", 0, true, "home", &j(r#"[0]"#)).unwrap_err(),
        ModelError::Validation(
            "runtime object \"arm\" pose \"home\" cannot be checked: the component resolved to no joints".into()
        )
    );
    let mut c = component("standard.arm");
    c.metadata = vec![("pose_pool".into(), j(r#"{"home": [0]}"#))];
    assert_eq!(
        pose_pool("arm", &c).unwrap_err(),
        ModelError::Validation("runtime object \"arm\" declares a pose_pool but has no joints".into())
    );
    c.metadata = vec![("pose_pool".into(), j(r#"[1]"#))];
    assert_eq!(
        pose_pool("arm", &c).unwrap_err(),
        ModelError::Validation(
            "runtime object \"arm\" metadata pose_pool must be an object of named poses".into()
        )
    );
    c.metadata = vec![("pose_frames".into(), j(r#"{}"#))];
    assert!(matches!(pose_pool("arm", &c), Err(ModelError::Validation(m)) if m.contains("pose_frames is no longer supported")));
}

#[test]
fn a_joint_belongs_to_one_enabled_commanding_object() {
    let mut claims = JointClaims::new();
    let mut left = component("standard.arm");
    left.joints = Some(JointConfig { names: vec!["j1".into()], source: None, group: None });
    let mut right = component("standard.arm");
    right.joints = Some(JointConfig { names: vec!["j1".into()], source: None, group: None });
    let mut observer = component("standard.monitor");
    observer.capabilities = vec![capability("joint_state")];
    observer.joints = Some(JointConfig { names: vec!["j1".into()], source: None, group: None });
    assert!(claims.claim("left", &left).is_ok());
    assert!(claims.claim("watch", &observer).is_ok());
    assert_eq!(
        claims.claim("right", &right).unwrap_err(),
        ModelError::Validation(
            "joint \"j1\" is claimed by both \"left\" and \"right\"; a joint belongs to exactly one enabled commanding runtime object".into()
        )
    );
}

#[test]
fn dependency_depth_verdict_does_not_depend_on_listing_order() {
    let chain = |length: usize, reversed: bool| -> Vec<(String, ComponentConfig)> {
        let mut objects: Vec<(String, ComponentConfig)> = (0..length)
            .map(|i| {
                let mut c = component("standard.arm");
                if i + 1 < length {
                    c.dependencies.push(format!("n{:03}", i + 1));
                }
                (format!("n{i:03}"), c)
            })
            .collect();
        if reversed {
            objects.reverse();
        }
        objects
    };
    for length in [1, 2, 63, 64] {
        assert!(check_dependency_depth(&chain(length, false)).is_ok(), "{length}");
        assert!(check_dependency_depth(&chain(length, true)).is_ok(), "{length}");
    }
    for length in [65, 70] {
        assert!(check_dependency_depth(&chain(length, false)).is_err(), "{length}");
        assert!(check_dependency_depth(&chain(length, true)).is_err(), "{length}");
    }
    // Visited from its end first, a chain of 65 is still too long: the
    // finished depth of n001 (64) is found one level under n000.
    assert_eq!(
        message(check_dependency_depth(&chain(65, true))),
        "component dependency chain exceeds the supported depth of 64 at \"n001\""
    );
    // A cycle fails in either order.
    let depending_on = |other: &str| {
        let mut c = component("standard.arm");
        c.dependencies.push(other.into());
        c
    };
    let forward = vec![("a".to_string(), depending_on("b")), ("b".to_string(), depending_on("a"))];
    let backward = vec![("b".to_string(), depending_on("a")), ("a".to_string(), depending_on("b"))];
    assert!(check_dependency_depth(&forward).is_err());
    assert!(check_dependency_depth(&backward).is_err());
}

/// The runtime objects as validation sees them: in name order.
fn sorted(mut objects: Vec<(String, ComponentConfig)>) -> Vec<(String, ComponentConfig)> {
    objects.sort_by(|x, y| x.0.cmp(&y.0));
    objects
}

fn test_component(value: &str, dependencies: &[String]) -> ComponentConfig {
    let mut c = component("vendor.test");
    c.endpoints = vec![(
        "state".into(),
        EndpointConfig { kind: "topic".into(), value: value.into() },
    )];
    c.dependencies = dependencies.to_vec();
    c
}

#[test]
fn dependency_chains_beyond_the_supported_depth_are_rejected() {
    let mut objects = vec![("part".to_string(), test_component("state/test", &["chain_0".to_string()]))];
    for index in 0..70 {
        let deps = if index < 69 { vec![format!("chain_{}", index + 1)] } else { Vec::new() };
        objects.push((format!("chain_{index}"), test_component(&format!("state/chain{index}"), &deps)));
    }
    let objects = sorted(objects);
    assert!(check_dependencies(&objects).is_ok());
    let error = check_dependency_depth(&objects).unwrap_err();
    assert!(error.message().contains("supported depth"));
}

#[test]
fn local_component_without_dependencies_is_rejected() {
    let mut virtual_part = component("vendor.local");
    virtual_part.endpoints = Vec::new();
    virtual_part.local = true;
    let error = check_object_front("virtual", &virtual_part).unwrap_err();
    assert!(error.message().contains("must declare"));
}

#[test]
fn dependency_depth_boundary_is_independent_of_name_order() {
    for backwards in [false, true] {
        for size in [64usize, 65] {
            let mut objects = Vec::new();
            for index in 0..size {
                let name = if backwards { size - 1 - index } else { index };
                let deps = if index + 1 < size {
                    let next = if backwards { name - 1 } else { name + 1 };
                    vec![format!("node_{next:03}")]
                } else {
                    Vec::new()
                };
                objects.push((format!("node_{name:03}"), test_component(&format!("state/{name}"), &deps)));
            }
            let result = check_dependency_depth(&sorted(objects));
            if size == 64 {
                result.unwrap();
            } else {
                assert!(result.unwrap_err().message().contains("supported depth"));
            }
        }
    }
}

#[test]
fn endpoint_kinds_are_validated_against_the_vocabulary() {
    for kind in ["topic", "subscriber_topic", "publisher_topic", "service", "channel"] {
        let mut part = test_component("state/test", &[]);
        part.endpoints[0].1.kind = kind.into();
        assert!(check_object_front("part", &part).is_ok(), "kind {kind} must be accepted");
    }
    let mut part = test_component("state/test", &[]);
    part.endpoints[0].1.kind = "topics".into();
    let message = check_object_front("part", &part).unwrap_err().message();
    assert!(message.contains("unknown kind \"topics\"") && message.contains("subscriber_topic"));
}

#[test]
fn runtime_readiness_policy_must_be_known() {
    let mut doc = document();
    doc.runtime.readiness = "required_components".into();
    assert!(check_header(&doc).is_ok());
    doc.runtime.readiness = "all_of_it".into();
    assert!(check_header(&doc).unwrap_err().message().contains("runtime.readiness"));
}

#[test]
fn endpoints_and_namespace_must_be_plain_keys() {
    for value in [
        "/state/test",
        "state/test/",
        "state//test",
        "state/ test",
        " state/test",
        "state/*",
        "state/**",
        "state/$*",
        "state/test?x=1",
        "state/test#frag",
    ] {
        let message = check_object_front("part", &test_component(value, &[])).unwrap_err().message();
        assert!(message.contains("endpoint \"state\""), "{value}: {message}");
    }
    for namespace in ["/robot", "robot/", "a//b", "my robot", "robot/*", "robot$", "r?", "r#1"] {
        let mut doc = document();
        doc.robot.namespace = Some(namespace.into());
        let message = check_header(&doc).unwrap_err().message();
        assert!(message.contains("robot.namespace"), "{namespace}: {message}");
    }
    let mut doc = document();
    doc.robot.namespace = Some("dm/vg1p-0001".into());
    check_header(&doc).unwrap();
}

/// A seven-joint arm whose pose pool holds the shipped `zero` pose and
/// `extra` poses; each pose is checked the way validation checks it.
fn arm_with_poses(extra: &str) -> Result<(), ModelError> {
    let mut arm = component("standard.arm");
    arm.joints = Some(JointConfig {
        names: (1..=7).map(|i| format!("L_arm_j{i}")).collect(),
        source: None,
        group: None,
    });
    arm.metadata = vec![(
        "pose_pool".into(),
        j(&format!(r#"{{"zero": {{"joint_pos": [0, 0, 0, 0, 0, 0, 0], "frame": "torso_upright"}}, {extra}}}"#)),
    )];
    let joints = arm.joints.as_ref().unwrap().names.len();
    if let Some(poses) = pose_pool("left_arm", &arm)? {
        for (pose, entry) in poses {
            check_pose("left_arm", joints, false, pose, entry)?;
        }
    }
    Ok(())
}

#[test]
fn a_pose_with_the_wrong_length_is_refused() {
    let error = arm_with_poses(r#""short": [0.0, 0.0, 0.0]"#).unwrap_err().message();
    assert!(error.contains("left_arm"), "{error}");
    assert!(error.contains("\"short\" has 3 targets for 7 joints"), "{error}");
}

#[test]
fn a_non_numeric_entry_is_refused() {
    let error =
        arm_with_poses(r#""typo": [0.0, 0.0, 0.0, "0.1", 0.0, 0.0, 0.0]"#).unwrap_err().message();
    assert!(error.contains("\"typo\"[3] must be a finite number"), "{error}");
}

#[test]
fn a_pose_that_is_not_an_array_is_refused() {
    let error = arm_with_poses(r#""scalar": 0.5"#).unwrap_err().message();
    assert!(error.contains("\"scalar\" must be an array"), "{error}");
}

#[test]
fn a_pose_pool_that_is_not_an_object_is_refused() {
    let mut arm = component("standard.arm");
    arm.joints = Some(JointConfig { names: vec!["a".into()], source: None, group: None });
    arm.metadata = vec![("pose_pool".into(), j("[1, 2, 3]"))];
    let error = pose_pool("left_arm", &arm).unwrap_err().message();
    assert!(error.contains("must be an object of named poses"), "{error}");
}

#[test]
fn a_well_formed_extra_pose_is_accepted() {
    arm_with_poses(r#""extra": [0.1, 0.0, 0.0, 0.0, 0.0, 0.0, 0.0]"#).unwrap();
}

#[test]
fn structured_pose_fields_are_required_and_checked() {
    for entry in [
        r#"{"joint_pos": [0, 0, 0, 0, 0, 0, 0]}"#,
        r#"{"frame": "joint"}"#,
        r#"{"joint_pos": [0, 0, 0, 0, 0, 0, 0], "frame": "world"}"#,
        r#"{"joint_pos": [0, 0, 0, 0, 0, 0, 0], "frame": "joint", "typo": true}"#,
        r#"{"joint_pos": [0, 0], "frame": "joint"}"#,
        r#"{"joint_pos": [0, 0, 0, "bad", 0, 0, 0], "frame": "joint"}"#,
    ] {
        assert!(arm_with_poses(&format!(r#""custom": {entry}"#)).is_err(), "{entry}");
    }
    for frame in ["joint", "torso_horizontal", "torso_upright"] {
        assert!(arm_with_poses(&format!(
            r#""custom": {{"joint_pos": [0, 0, 0, 0, 0, 0, 0], "frame": "{frame}"}}"#
        ))
        .is_ok());
    }
}

#[test]
fn validation_rejects_schema_identity_component_and_endpoint_errors() {
    let mut doc = document();
    doc.robot.model = "".into();
    assert!(matches!(check_header(&doc), Err(ModelError::Validation(_))));
    let mut empty_driver = test_component("state/test", &[]);
    empty_driver.driver = "".into();
    let mut disabled = test_component("state/test", &[]);
    disabled.required = true;
    disabled.enabled = false;
    let mut no_endpoints = test_component("state/test", &[]);
    no_endpoints.endpoints = Vec::new();
    let mut empty_kind = test_component("state/test", &[]);
    empty_kind.endpoints[0].1.kind = "".into();
    for part in [empty_driver, disabled, no_endpoints, empty_kind] {
        assert!(matches!(check_object_front("part", &part), Err(ModelError::Validation(_))));
    }
}

#[test]
fn validation_rejects_bad_capabilities_joints_and_dependencies() {
    let joints = |names: &[&str], source: Option<&str>, group: Option<&str>| {
        let mut c = test_component("state/test", &[]);
        c.joints = Some(JointConfig {
            names: names.iter().map(|n| n.to_string()).collect(),
            source: source.map(Into::into),
            group: group.map(Into::into),
        });
        c
    };
    let mut bad = test_component("state/test", &[]);
    bad.capabilities = vec![capability("bad")];
    let mut twice = test_component("state/test", &[]);
    twice.capabilities = vec![capability("joint_state"), capability("joint_state")];
    for part in [
        bad,
        twice,
        joints(&["a", "a"], None, None),
        joints(&[], None, None),
        joints(&["a"], Some("dynamixel"), None),
        joints(&["a"], None, Some("arm")),
        joints(&[], Some("urdf"), None),
    ] {
        assert!(matches!(check_object_back("part", &part), Err(ModelError::Validation(_))));
    }
    let missing = vec![("part".to_string(), test_component("state/test", &["missing".to_string()]))];
    assert!(matches!(check_dependencies(&missing), Err(ModelError::Validation(_))));
    let cycle = sorted(vec![
        ("part".to_string(), test_component("state/test", &["other".to_string()])),
        ("other".to_string(), test_component("state/other", &["part".to_string()])),
    ]);
    assert!(check_dependencies(&cycle).is_ok());
    assert!(matches!(check_dependency_depth(&cycle), Err(ModelError::Validation(_))));
}

#[test]
fn optional_extension_capability_and_local_component_are_valid() {
    let mut part = test_component("state/test", &[]);
    part.capabilities = vec![CapabilitySpec { id: "vendor.product.diag".into(), required: false }];
    let mut local = component("vendor.local");
    local.endpoints = Vec::new();
    local.local = true;
    local.dependencies = vec!["part".into()];
    for (name, c) in [("part", &part), ("local", &local)] {
        check_object_front(name, c).unwrap();
        check_object_back(name, c).unwrap();
    }
    let objects = vec![("local".to_string(), local), ("part".to_string(), part)];
    check_dependencies(&objects).unwrap();
    check_dependency_depth(&objects).unwrap();
    assert!(!objects[1].1.capabilities[0].required);
    assert!(objects[0].1.local);
}

#[test]
fn extended_safety_actions_validate_in_profiles() {
    let safety = vec![
        ("estop_failure_action".to_string(), j("\"activate_software_estop\"")),
        ("heartbeat_failure_action".to_string(), j("\"request_process_termination\"")),
    ];
    assert!(check_top_level_safety(&safety).is_ok());
    assert!(matches!(
        check_top_level_safety(&vec![("heartbeat_failure_action".into(), j("\"reboot_moon\""))]),
        Err(ModelError::Validation(_))
    ));
}

#[test]
fn startup_verification_window_has_a_floor() {
    for (millis, valid) in [(0u64, false), (99, false), (100, true), (5000, true)] {
        let mut doc = document();
        doc.runtime.state_idle_timeout_ms = millis;
        let result = check_header(&doc);
        assert_eq!(result.is_ok(), valid, "{millis}: {result:?}");
    }
}
