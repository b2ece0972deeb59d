use dexbot_model::types::JointConfig;
use dexbot_model::urdf::{check_urdf_joint, materialize_joints, movable_joint_names, JointFacts};
use dexbot_model::ModelError;

fn joint(name: &str, joint_type: &str, mimic: Option<&str>, limits: bool) -> JointFacts {
    JointFacts {
        name: name.into(),
        joint_type: joint_type.into(),
        mimic_of: mimic.map(Into::into),
        has_lower: limits,
        has_upper: limits,
    }
}

fn model() -> Vec<JointFacts> {
    vec![
        joint("axis", "revolute", None, true),
        joint("base", "fixed", None, false),
        joint("float", "floating", None, false),
        joint("follower", "revolute", Some("axis"), true),
        joint("wheel", "continuous", None, false),
        joint("slide", "prismatic", None, false),
    ]
}

#[test]
fn movable_joints_exclude_fixed_and_mimic_ones() {
    assert_eq!(movable_joint_names(&model()), vec!["axis", "wheel", "slide"]);
}

#[test]
fn urdf_joint_resolution_failures_are_validation_errors() {
    let joints = model();
    assert!(check_urdf_joint("arm", "axis", "sample", &joints).is_ok());
    assert!(check_urdf_joint("arm", "wheel", "sample", &joints).is_ok());
    let error = |name: &str| match check_urdf_joint("arm", name, "sample", &joints) {
        Err(ModelError::Validation(m)) => m,
        other => panic!("{other:?}"),
    };
    assert_eq!(
        error("missing"),
        "runtime object \"arm\" references joint \"missing\", which does not exist in URDF \"sample\""
    );
    assert_eq!(error("base"), "runtime object \"arm\" references fixed joint \"base\"");
    assert_eq!(
        error("float"),
        "runtime object \"arm\" references unsupported non-scalar joint \"float\" of type \"floating\""
    );
    assert_eq!(
        error("follower"),
        "runtime object \"arm\" references joint \"follower\", which mimics \"axis\" and cannot be commanded"
    );
    assert_eq!(
        error("slide"),
        "prismatic joint \"slide\" needs a <limit> with both lower and upper position limits"
    );
}

#[test]
fn urdf_joint_groups_fill_in_ordered_names() {
    let groups = vec![("arm".to_string(), vec!["j1".to_string(), "j2".to_string()])];
    let mut joints = JointConfig { names: vec![], source: Some("urdf".into()), group: Some("arm".into()) };
    materialize_joints("left", &mut joints, &groups, true).unwrap();
    assert_eq!(joints.names, vec!["j1", "j2"]);
    let mut joints = JointConfig { names: vec!["j2".into(), "j1".into()], source: Some("urdf".into()), group: Some("arm".into()) };
    assert_eq!(
        materialize_joints("left", &mut joints, &groups, true).unwrap_err(),
        ModelError::Validation("runtime object \"left\" lists joint names that disagree with joint group \"arm\"".into())
    );
    let mut joints = JointConfig { names: vec![], source: Some("urdf".into()), group: Some("leg".into()) };
    assert_eq!(
        materialize_joints("left", &mut joints, &groups, true).unwrap_err(),
        ModelError::Validation("runtime object \"left\" references URDF joint group \"leg\", which does not exist in joint_groups".into())
    );
    let mut joints = JointConfig { names: vec![], source: Some("urdf".into()), group: Some("arm".into()) };
    assert_eq!(
        materialize_joints("left", &mut joints, &groups, false).unwrap_err(),
        ModelError::Validation("runtime object \"left\" declares URDF-sourced joints but the profile has no robot.urdf".into())
    );
    let mut joints = JointConfig { names: vec!["x".into()], source: None, group: None };
    materialize_joints("left", &mut joints, &groups, false).unwrap();
    assert_eq!(joints.names, vec!["x"]);
}
