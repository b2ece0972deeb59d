use dexbot_model::validate::{edit_distance, invalid, key_expression_problem, near_miss, valid_extension_id};
use dexbot_model::ModelError;

#[test]
fn key_expressions_name_their_first_problem() {
    assert_eq!(key_expression_problem("robot/arm/state"), None);
    assert_eq!(key_expression_problem("a b"), Some("contains whitespace"));
    assert_eq!(key_expression_problem("/a"), Some("starts or ends with '/'"));
    assert_eq!(key_expression_problem("a/"), Some("starts or ends with '/'"));
    assert_eq!(key_expression_problem("a//b"), Some("contains an empty '//' segment"));
    assert_eq!(
        key_expression_problem("a/*"),
        Some("contains a wildcard or reserved character (one of * $ ? #)")
    );
    assert_eq!(key_expression_problem("/a b"), Some("contains whitespace"));
}

#[test]
fn extension_ids_have_three_plain_segments() {
    assert!(valid_extension_id("vendor.robot.feature"));
    assert!(valid_extension_id("a-b.c_d.e.f"));
    assert!(!valid_extension_id("vendor.feature"));
    assert!(!valid_extension_id("vendor..feature"));
    assert!(!valid_extension_id("vendor.robot.feat ure"));
    assert!(!valid_extension_id(""));
}

#[test]
fn edit_distance_counts_single_byte_edits() {
    assert_eq!(edit_distance("kitten", "sitting"), 3);
    assert_eq!(edit_distance("", "abc"), 3);
    assert_eq!(edit_distance("abc", "abc"), 0);
    assert_eq!(edit_distance("max_linear_vel", "max_lineer_vel"), 1);
}

#[test]
fn near_misses_are_close_or_extend_the_key() {
    assert!(near_miss("max_linear_vl", "max_linear_vel"));
    assert!(near_miss("state_max_age", "state_max_age_ms"));
    assert!(near_miss("max_linear_velocity", "max_linear_vel"));
    assert!(!near_miss("pose_pool", "max_linear_vel"));
    assert!(!near_miss("abc", "abcdefgh"));
}

#[test]
fn invalid_wraps_the_message() {
    assert_eq!(invalid("bad".to_string()), ModelError::Validation("bad".into()));
}
