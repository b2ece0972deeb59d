use dexbot_model::urdf::{movable_joint_names, JointFacts};
use dexbot_model::urdf_read::{parse_urdf, JointText, NumberText};
use dexbot_model::ModelError;

/// A document whose numbers are converted as a program using the library
/// converts them: every number met, in order, before the outcome.
struct Limit {
    lower: Option<f64>,
    upper: Option<f64>,
    effort: Option<f64>,
    velocity: Option<f64>,
}

struct Mimic {
    joint: String,
    multiplier: f64,
    offset: f64,
}

struct Joint {
    name: String,
    joint_type: String,
    parent: Option<String>,
    child: Option<String>,
    limit: Option<Limit>,
    axis: Option<[f64; 3]>,
    mimic: Option<Mimic>,
}

struct Model {
    robot_name: String,
    links: Vec<String>,
    joints: Vec<Joint>,
}

impl Model {
    fn joint(&self, name: &str) -> Option<&Joint> {
        self.joints.iter().find(|joint| joint.name == name)
    }

    fn movable_joint_names(&self) -> Vec<String> {
        let facts: Vec<JointFacts> = self
            .joints
            .iter()
            .map(|joint| JointFacts {
                name: joint.name.clone(),
                joint_type: joint.joint_type.clone(),
                mimic_of: joint.mimic.as_ref().map(|mimic| mimic.joint.clone()),
                has_lower: joint.limit.as_ref().is_some_and(|limit| limit.lower.is_some()),
                has_upper: joint.limit.as_ref().is_some_and(|limit| limit.upper.is_some()),
            })
            .collect();
        movable_joint_names(&facts)
    }
}

fn urdf_error(message: String) -> ModelError {
    ModelError::Urdf(message)
}

fn number_value(key: &str, value: &str) -> Result<f64, ModelError> {
    match value.trim().parse::<f64>() {
        Ok(number) if number.is_finite() => Ok(number),
        Ok(_) => Err(urdf_error(format!("numeric attribute {key:?} must be finite, got {value:?}"))),
        Err(error) => Err(urdf_error(format!("invalid numeric attribute {value:?}: {error}"))),
    }
}

fn axis_values(value: &str) -> Result<[f64; 3], ModelError> {
    let mut values = Vec::new();
    for item in value.split_whitespace() {
        let number = item
            .parse::<f64>()
            .map_err(|error| urdf_error(format!("invalid joint axis {value:?}: {error}")))?;
        values.push(number);
    }
    if values.len() != 3 || values.iter().any(|value| !value.is_finite()) {
        return Err(urdf_error(format!(
            "joint axis must contain exactly three finite values, got {value:?}"
        )));
    }
    Ok([values[0], values[1], values[2]])
}

fn number(key: &str, text: &Option<String>) -> Option<f64> {
    text.as_ref().map(|text| number_value(key, text).unwrap())
}

fn joint_of(joint: &JointText) -> Joint {
    Joint {
        name: joint.name.clone(),
        joint_type: joint.joint_type.clone(),
        parent: joint.parent.clone(),
        child: joint.child.clone(),
        limit: joint.limit.as_ref().map(|limit| Limit {
            lower: number("lower", &limit.lower),
            upper: number("upper", &limit.upper),
            effort: number("effort", &limit.effort),
            velocity: number("velocity", &limit.velocity),
        }),
        axis: joint.axis.as_ref().map(|axis| match axis {
            Some(text) => axis_values(text).unwrap(),
            None => [1.0, 0.0, 0.0],
        }),
        mimic: joint.mimic.as_ref().map(|mimic| Mimic {
            joint: mimic.joint.clone(),
            multiplier: number("multiplier", &mimic.multiplier).unwrap_or(1.0),
            offset: number("offset", &mimic.offset).unwrap_or(0.0),
        }),
    }
}

fn parse(source: &str) -> Result<Model, ModelError> {
    let reading = parse_urdf(source);
    for number in &reading.numbers {
        match number {
            NumberText::Attribute { key, text } => {
                number_value(key, text)?;
            }
            NumberText::Axis(text) => {
                axis_values(text)?;
            }
        }
    }
    let document = reading.outcome?;
    Ok(Model {
        robot_name: document.robot_name,
        links: document.links,
        joints: document.joints.iter().map(joint_of).collect(),
    })
}

const ARM: &str = r#"<?xml version="1.0"?>
<robot name="test&amp;bot">
  <link name="base"/>
  <link name="upper"/>
  <link name="tool"/>
  <joint name="shoulder" type="revolute">
    <parent link="base"/>
    <child link="upper"/>
    <limit lower="-1.5" upper="1.5" effort="10.0" velocity="2.0"/>
    <axis xyz="0 0 1"/>
  </joint>
  <joint name="slide" type="prismatic">
    <parent link="upper"/>
    <child link="tool"/>
    <limit lower="0.0" upper="0.2"/>
    <axis/>
  </joint>
  <joint name="mount" type="fixed"/>
  <joint name="spin" type="continuous">
    <parent link="tool"/>
    <child link="base"/>
  </joint>
</robot>
"#;

#[test]
fn a_realistic_document_parses_completely() {
    let model = parse(ARM).unwrap();
    assert_eq!(model.robot_name, "test&bot", "attributes are unescaped");
    assert_eq!(model.links, ["base", "tool", "upper"], "sorted");
    assert_eq!(model.joints.len(), 4);

    let shoulder = model.joint("shoulder").unwrap();
    assert_eq!(shoulder.parent.as_deref(), Some("base"));
    assert_eq!(shoulder.child.as_deref(), Some("upper"));
    assert_eq!(shoulder.axis, Some([0.0, 0.0, 1.0]));
    let limit = shoulder.limit.as_ref().unwrap();
    assert_eq!(
        (limit.lower, limit.upper, limit.effort, limit.velocity),
        (Some(-1.5), Some(1.5), Some(10.0), Some(2.0))
    );

    let slide = model.joint("slide").unwrap();
    assert_eq!(slide.axis, Some([1.0, 0.0, 0.0]));
    assert_eq!(slide.limit.as_ref().unwrap().effort, None);

    let mount = model.joint("mount").unwrap();
    assert_eq!(mount.joint_type, "fixed");
    assert_eq!((mount.parent.as_deref(), mount.axis), (None, None));

    assert_eq!(model.joint("spin").unwrap().axis, None);
    assert!(model.joint("elbow").is_none());
}

#[test]
fn movable_joints_exclude_fixed_ones() {
    let model = parse(ARM).unwrap();
    assert_eq!(model.movable_joint_names(), ["shoulder", "slide", "spin"]);
}

#[test]
fn every_malformation_is_a_typed_error() {
    let cases: &[(&str, &str)] = &[
        ("<robot><joint name=\"j\" type=\"fixed\"/></robot>", "robot name is missing"),
        ("<robot name=\"r\"><joint type=\"fixed\"/></robot>", "joint name is missing"),
        ("<robot name=\"r\"><joint name=\"j\"/></robot>", "joint type is missing"),
        (
            "<robot name=\"r\"><joint name=\"j\" type=\"revolute\"><axis xyz=\"1 2\"/></joint></robot>",
            "exactly three",
        ),
        (
            "<robot name=\"r\"><joint name=\"j\" type=\"revolute\"><axis xyz=\"1 2 nan\"/></joint></robot>",
            "exactly three finite",
        ),
        (
            "<robot name=\"r\"><joint name=\"j\" type=\"revolute\"><axis xyz=\"a b c\"/></joint></robot>",
            "invalid joint axis",
        ),
        (
            "<robot name=\"r\"><joint name=\"j\" type=\"revolute\"><limit lower=\"wide\"/></joint></robot>",
            "invalid numeric attribute",
        ),
        ("<robot name=\"r\"><link name=\"a\">", "unexpected end of file"),
        ("<robot name=\"r\"><joint </robot>", ""),
    ];
    for (source, needle) in cases {
        match parse(source) {
            Err(ModelError::Urdf(message)) => {
                assert!(message.contains(needle), "{source}: {message}")
            }
            Err(other) => panic!("{source}: expected a Urdf error, got {other:?}"),
            Ok(_) => panic!("{source}: expected a Urdf error, got a model"),
        }
    }
}

#[test]
fn stray_child_elements_outside_a_joint_are_ignored() {
    let model = parse(
        "<robot name=\"r\"><parent link=\"x\"/><limit lower=\"1\"/><axis xyz=\"0 0 1\"/>\
         <joint name=\"j\" type=\"fixed\"/></robot>",
    )
    .unwrap();
    let joint = model.joint("j").unwrap();
    assert_eq!((joint.parent.as_deref(), joint.limit.is_none()), (None, true));
}

#[test]
fn a_self_closing_robot_element_still_names_the_robot() {
    let model = parse("<robot name=\"bare\"/>").unwrap();
    assert_eq!(model.robot_name, "bare");
    assert!(model.links.is_empty() && model.joints.is_empty());
}

#[test]
fn joint_and_link_elements_outside_the_robot_root_are_references() {
    let model = parse(
        r#"<robot name="t">
  <link name="base"/><link name="tip"/>
  <joint name="axis" type="revolute">
    <parent link="base"/><child link="tip"/>
    <limit lower="-1" upper="1"/>
  </joint>
  <transmission name="axis_trans">
    <type>transmission_interface/SimpleTransmission</type>
    <joint name="axis">
      <hardwareInterface>hardware_interface/PositionJointInterface</hardwareInterface>
      <limit lower="-9" upper="9"/>
    </joint>
    <joint name="axis"/>
    <actuator name="axis_motor"><mechanicalReduction>1</mechanicalReduction></actuator>
  </transmission>
  <gazebo><link name="base"/><joint name="ghost" type="revolute"/></gazebo>
</robot>"#,
    )
    .unwrap();
    assert_eq!(model.joints.len(), 1);
    assert_eq!(model.links, ["base", "tip"]);
    let limit = model.joint("axis").unwrap().limit.as_ref().unwrap();
    assert_eq!((limit.lower, limit.upper), (Some(-1.0), Some(1.0)));
}

#[test]
fn duplicate_joint_and_link_names_are_rejected() {
    for (source, expected) in [
        (
            r#"<robot name="d"><link name="a"/><link name="a"/></robot>"#,
            "duplicate link name \"a\"",
        ),
        (
            r#"<robot name="d"><joint name="j" type="fixed"/><joint name="j" type="revolute"></joint></robot>"#,
            "duplicate joint name \"j\"",
        ),
        (
            r#"<robot name="d"><joint name="j" type="revolute"><limit lower="0" upper="1"/></joint><joint name="j" type="fixed"/></robot>"#,
            "duplicate joint name \"j\"",
        ),
    ] {
        match parse(source) {
            Err(ModelError::Urdf(message)) => assert!(message.contains(expected), "{message}"),
            Err(other) => panic!("{other:?}"),
            Ok(_) => panic!("{source}: expected an error"),
        }
    }
}

#[test]
fn mimic_joints_are_parsed_and_not_listed_as_movable() {
    let model = parse(
        r#"<robot name="m">
  <joint name="leader" type="revolute"><limit lower="0" upper="1"/></joint>
  <joint name="follower" type="revolute">
    <limit lower="0" upper="1"/>
    <mimic joint="leader" multiplier="1.5" offset="-0.25"/>
  </joint>
  <joint name="shadow" type="revolute"><mimic joint="leader"/></joint>
</robot>"#,
    )
    .unwrap();
    let follower = model.joint("follower").unwrap().mimic.as_ref().unwrap();
    assert_eq!((follower.joint.as_str(), follower.multiplier, follower.offset), ("leader", 1.5, -0.25));
    let shadow = model.joint("shadow").unwrap().mimic.as_ref().unwrap();
    assert_eq!((shadow.multiplier, shadow.offset), (1.0, 0.0));
    assert!(model.joint("leader").unwrap().mimic.is_none());
    assert_eq!(model.movable_joint_names(), ["leader"]);
    assert!(matches!(
        parse(r#"<robot name="m"><joint name="j" type="revolute"><mimic/></joint></robot>"#),
        Err(ModelError::Urdf(message)) if message.contains("mimic joint is missing")
    ));
}

#[test]
fn invalid_roots_and_empty_names_are_rejected() {
    for source in [
        "<not_robot name='r'/>",
        "<robot name='a'/><robot name='b'/>",
        "<robot name=''/>",
        "<robot name='r'><link/></robot>",
        "<robot name='r'><link name=' '/></robot>",
        "<robot name='r'><joint name='' type='fixed'/></robot>",
        "<robot name='r'><joint name='j' type=''/></robot>",
        "text<robot name='r'/>",
        "<robot name='r'/>text",
    ] {
        assert!(matches!(parse(source), Err(ModelError::Urdf(_))), "{source}");
    }
}

#[test]
fn duplicate_attributes_cannot_silently_override_metadata() {
    for source in [
        r#"<robot name="first" name="second"/>"#,
        r#"<robot name="r"><link name="a" name="b"/></robot>"#,
        r#"<robot name="r"><joint name="a" type="fixed" type="revolute"/></robot>"#,
        r#"<robot name="r"><joint name="a" type="revolute"><limit lower="0" upper="1" upper="2"/></joint></robot>"#,
        r#"<robot name="r"><joint name="a" type="revolute"><mimic joint=""/></joint></robot>"#,
    ] {
        assert!(matches!(parse(source), Err(ModelError::Urdf(_))), "{source}");
    }
}

#[test]
fn numbers_are_listed_in_the_order_they_are_read() {
    let reading = parse_urdf(
        r#"<robot name="r"><joint name="j" type="revolute"><limit lower="a" upper="1"/><axis xyz="0 1 0"/><mimic joint="k" offset="2"/></joint></robot>"#,
    );
    let listed: Vec<String> = reading
        .numbers
        .iter()
        .map(|number| match number {
            NumberText::Attribute { key, text } => format!("{key}={text}"),
            NumberText::Axis(text) => format!("xyz={text}"),
        })
        .collect();
    assert_eq!(listed, ["lower=a", "upper=1", "xyz=0 1 0", "offset=2"]);
    assert!(reading.outcome.is_ok());
    // A bad number read before a structural error is the one reported.
    let reading = parse_urdf(
        r#"<robot name="r"><joint name="j" type="revolute"><limit lower="x"/></joint><link name="l"/><link name="l"/></robot>"#,
    );
    assert_eq!(reading.numbers.len(), 1);
    assert_eq!(
        reading.outcome.unwrap_err(),
        ModelError::Urdf("duplicate link name \"l\"".into())
    );
    assert!(matches!(parse(
        r#"<robot name="r"><joint name="j" type="revolute"><limit lower="x"/></joint><link name="l"/><link name="l"/></robot>"#,
    ), Err(ModelError::Urdf(message)) if message.starts_with("invalid numeric attribute")));
}

#[test]
fn an_xml_error_stops_the_reading_after_the_events_before_it() {
    let reading = parse_urdf(r#"<robot name="r"><link name="a"/></wrong>"#);
    match reading.outcome {
        Err(ModelError::Urdf(message)) => assert!(!message.is_empty()),
        other => panic!("{other:?}"),
    }
    let reading = parse_urdf(r#"<robot name="r"><link name="a"/><link name="a"/></wrong>"#);
    assert_eq!(
        reading.outcome.unwrap_err(),
        ModelError::Urdf("duplicate link name \"a\"".into())
    );
}
