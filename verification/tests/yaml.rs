use dexbot_model::compose::take_extends;
use dexbot_model::json::Json;
use dexbot_model::yaml::{parse_yaml_value, RobotOverlay};
use dexbot_model::ModelError;

fn member<'a>(value: &'a Json, key: &str) -> Option<&'a Json> {
    match value {
        Json::Object(entries) => entries.iter().find(|(k, _)| k == key).map(|(_, v)| v),
        _ => None,
    }
}

#[test]
fn merge_keys_are_applied_before_conversion() {
    let value = parse_yaml_value("p", "base: &b {x: 1, y: 2}\nitem:\n  <<: *b\n  y: 3\n").unwrap();
    let item = member(&value, "item").unwrap();
    assert!(member(item, "<<").is_none());
    assert!(matches!(member(item, "x"), Some(Json::Number(n)) if n == "1"));
    assert!(matches!(member(item, "y"), Some(Json::Number(n)) if n == "3"));
}

#[test]
fn yaml_failures_name_their_source() {
    match parse_yaml_value("overlay", "a: [1, 2\n") {
        Err(ModelError::Parse { source_name, message }) => {
            assert_eq!(source_name, "overlay");
            assert!(!message.is_empty());
        }
        other => panic!("{other:?}"),
    }
    assert!(matches!(
        parse_yaml_value("frag", "a:\n  <<: 3\n"),
        Err(ModelError::Parse { source_name, .. }) if source_name == "frag"
    ));
    assert!(matches!(parse_yaml_value("p", "{[1, 2]: x}\n"), Err(ModelError::Serialization(_))));
}

#[test]
fn a_number_in_extends_is_not_a_fragment_name() {
    let mut doc = Json::Object(vec![(
        "extends".into(),
        Json::Array(vec![Json::Number("\"a\"".into())]),
    )]);
    assert!(take_extends(&mut doc, "p").is_err());
    let mut doc = Json::Object(vec![("extends".into(), Json::Array(vec![Json::Number("1".into())]))]);
    assert!(take_extends(&mut doc, "p").is_err());
}

#[test]
fn an_overlay_reads_from_yaml_under_its_own_name() {
    let overlay = RobotOverlay::from_yaml("robot:\n  namespace: lab\n").unwrap();
    let robot = member(&overlay.0, "robot").unwrap();
    assert!(matches!(member(robot, "namespace"), Some(Json::String(s)) if s == "lab"));
    assert!(matches!(
        RobotOverlay::from_yaml("robot: [\n"),
        Err(ModelError::Parse { source_name, .. }) if source_name == "overlay"
    ));
}
