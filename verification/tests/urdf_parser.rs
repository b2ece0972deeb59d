use dexbot_model::urdf::{ElementRole, UrdfParser};
use dexbot_model::ModelError;

/// One reader event, with the `name` attribute the element carries.
enum Ev {
    Start(&'static str, &'static str),
    Empty(&'static str, &'static str),
    End,
    Text(&'static str),
    CData,
    Eof,
}

/// What a document reads as: the robot's name, its links, and the joint
/// names in document order.
type Outline = (String, Vec<String>, Vec<String>);

fn element(parser: &mut UrdfParser, role: ElementRole, name: &str) -> Result<(), ModelError> {
    match role {
        ElementRole::Robot => parser.set_robot_name(name.to_string()),
        ElementRole::Link => parser.add_link(name.to_string())?,
        ElementRole::Joint => parser.begin_joint(name.to_string())?,
        ElementRole::JointChild | ElementRole::Ignored => {}
    }
    Ok(())
}

fn read(events: &[Ev]) -> Result<Outline, ModelError> {
    let mut parser = UrdfParser::new();
    let mut joint: Option<String> = None;
    let mut joints = Vec::new();
    for event in events {
        match event {
            Ev::Start(tag, name) => {
                let role = parser.start(tag.as_bytes())?;
                if role == ElementRole::Joint {
                    joint = Some(name.to_string());
                }
                element(&mut parser, role, name)?;
            }
            Ev::Empty(tag, name) => {
                let role = parser.empty(tag.as_bytes())?;
                if role == ElementRole::Joint {
                    joint = Some(name.to_string());
                }
                element(&mut parser, role, name)?;
                if parser.close_empty() {
                    joints.push(joint.take().unwrap());
                }
            }
            Ev::End => {
                if parser.end() {
                    joints.push(joint.take().unwrap());
                }
            }
            Ev::Text(text) => parser.text(!text.is_empty())?,
            Ev::CData => parser.cdata()?,
            Ev::Eof => {
                parser.eof()?;
                break;
            }
        }
    }
    let (robot, links) = parser.finish()?;
    Ok((robot, links, joints))
}

fn urdf_message(result: Result<Outline, ModelError>) -> String {
    match result {
        Err(ModelError::Urdf(message)) => message,
        other => panic!("expected a Urdf error, got {other:?}"),
    }
}

#[test]
fn the_parser_names_a_self_closing_robot() {
    let (robot, links, joints) = read(&[Ev::Empty("robot", "bare"), Ev::Eof]).unwrap();
    assert_eq!(robot, "bare");
    assert!(links.is_empty() && joints.is_empty());
}

#[test]
fn the_parser_rejects_duplicate_names() {
    let cases: Vec<(Vec<Ev>, &str)> = vec![
        (
            vec![Ev::Start("robot", "d"), Ev::Empty("link", "a"), Ev::Empty("link", "a"), Ev::End, Ev::Eof],
            "duplicate link name \"a\"",
        ),
        (
            vec![Ev::Start("robot", "d"), Ev::Empty("joint", "j"), Ev::Start("joint", "j"), Ev::End, Ev::End, Ev::Eof],
            "duplicate joint name \"j\"",
        ),
        (
            vec![
                Ev::Start("robot", "d"),
                Ev::Start("joint", "j"),
                Ev::Empty("limit", ""),
                Ev::End,
                Ev::Empty("joint", "j"),
                Ev::End,
                Ev::Eof,
            ],
            "duplicate joint name \"j\"",
        ),
    ];
    for (events, expected) in cases {
        let message = urdf_message(read(&events));
        assert!(message.contains(expected), "{message}");
    }
}

#[test]
fn the_parser_treats_nested_joints_as_references() {
    let events = [
        Ev::Start("robot", "t"),
        Ev::Empty("link", "base"),
        Ev::Empty("link", "tip"),
        Ev::Start("joint", "axis"),
        Ev::Empty("parent", ""),
        Ev::Empty("child", ""),
        Ev::Empty("limit", ""),
        Ev::End,
        Ev::Start("transmission", "axis_trans"),
        Ev::Start("type", ""),
        Ev::Text("transmission_interface/SimpleTransmission"),
        Ev::End,
        Ev::Start("joint", "axis"),
        Ev::Start("hardwareInterface", ""),
        Ev::Text("hardware_interface/PositionJointInterface"),
        Ev::End,
        Ev::Empty("limit", ""),
        Ev::End,
        Ev::Empty("joint", "axis"),
        Ev::Start("actuator", "axis_motor"),
        Ev::Start("mechanicalReduction", ""),
        Ev::Text("1"),
        Ev::End,
        Ev::End,
        Ev::End,
        Ev::Start("gazebo", ""),
        Ev::Empty("link", "base"),
        Ev::Empty("joint", "ghost"),
        Ev::End,
        Ev::End,
        Ev::Eof,
    ];
    let (robot, links, joints) = read(&events).unwrap();
    assert_eq!(robot, "t");
    assert_eq!(joints, ["axis"]);
    assert_eq!(links, ["base", "tip"]);
}

#[test]
fn the_parser_ignores_stray_children() {
    let mut parser = UrdfParser::new();
    assert_eq!(parser.start(b"robot").unwrap(), ElementRole::Robot);
    parser.set_robot_name("r".to_string());
    // <parent>, <limit> and <axis> directly under the root belong to no joint.
    assert_eq!(parser.empty(b"parent").unwrap(), ElementRole::Ignored);
    assert_eq!(parser.empty(b"limit").unwrap(), ElementRole::Ignored);
    assert_eq!(parser.empty(b"axis").unwrap(), ElementRole::Ignored);
    assert!(!parser.close_empty());
    let outline = read(&[
        Ev::Start("robot", "r"),
        Ev::Empty("parent", ""),
        Ev::Empty("limit", ""),
        Ev::Empty("axis", ""),
        Ev::Empty("joint", "j"),
        Ev::End,
        Ev::Eof,
    ])
    .unwrap();
    assert_eq!(outline.2, ["j"]);
}

#[test]
fn children_of_a_joint_are_read_as_its_own() {
    let mut parser = UrdfParser::new();
    parser.start(b"robot").unwrap();
    parser.set_robot_name("r".to_string());
    assert_eq!(parser.start(b"joint").unwrap(), ElementRole::Joint);
    parser.begin_joint("j".to_string()).unwrap();
    assert_eq!(parser.empty(b"limit").unwrap(), ElementRole::JointChild);
    assert_eq!(parser.empty(b"anything").unwrap(), ElementRole::JointChild);
    assert!(!parser.close_empty());
    assert_eq!(parser.depth(), 2);
    assert!(parser.end(), "closing the joint element finishes the joint");
    assert_eq!(parser.depth(), 1);
    assert_eq!(parser.empty(b"limit").unwrap(), ElementRole::Ignored);
}

#[test]
fn invalid_roots_and_stray_text_are_rejected() {
    let root = "expected exactly one robot root element";
    assert_eq!(urdf_message(read(&[Ev::Empty("not_robot", "r"), Ev::Eof])), root);
    assert_eq!(urdf_message(read(&[Ev::Empty("robot", "a"), Ev::Empty("robot", "b"), Ev::Eof])), root);
    assert_eq!(
        urdf_message(read(&[Ev::Text("text"), Ev::Empty("robot", "r"), Ev::Eof])),
        "text outside robot root element"
    );
    assert_eq!(
        urdf_message(read(&[Ev::Empty("robot", "r"), Ev::Text("text"), Ev::Eof])),
        "text outside robot root element"
    );
    assert_eq!(urdf_message(read(&[Ev::CData, Ev::Empty("robot", "r"), Ev::Eof])), "CDATA outside robot root element");
    // Ev::Empty text between elements is not an error.
    assert_eq!(read(&[Ev::Text(""), Ev::Empty("robot", "r"), Ev::Text(""), Ev::Eof]).unwrap().0, "r");
}

#[test]
fn truncated_documents_and_missing_names_are_errors() {
    assert_eq!(
        urdf_message(read(&[Ev::Start("robot", "r"), Ev::Start("link", "a"), Ev::Eof])),
        "unexpected end of file: 2 unclosed element(s)"
    );
    let mut parser = UrdfParser::new();
    parser.start(b"robot").unwrap();
    parser.empty(b"joint").unwrap();
    parser.end();
    assert_eq!(urdf_message(parser.finish().map(|(r, l)| (r, l, Vec::new()))), "robot name is missing");
}

#[test]
fn links_come_out_sorted() {
    let (_, links, _) = read(&[
        Ev::Start("robot", "arm"),
        Ev::Empty("link", "upper"),
        Ev::Empty("link", "base"),
        Ev::Empty("link", "tool"),
        Ev::End,
        Ev::Eof,
    ])
    .unwrap();
    assert_eq!(links, ["base", "tool", "upper"]);
}
