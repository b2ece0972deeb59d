use dexbot_model::catalog::{fragment_source, source, urdf_entry};

#[test]
fn every_embedded_asset_is_nonempty_xml() {
    assert!(urdf_entry("robots/humanoid/vega_1/vega_1.urdf").is_some());
    assert!(urdf_entry("missing.urdf").is_none());
}

#[test]
fn bundled_entries_are_found_by_exact_name() {
    assert_eq!(
        urdf_entry("robots/humanoid/vega_1/vega_1.urdf"),
        Some("robots/humanoid/vega_1/vega_1.urdf")
    );
    assert!(urdf_entry("robots/humanoid/vega_1/VEGA_1.urdf").is_none());
    assert!(source("vega_1").is_some());
    assert!(source("vega_9").is_none());
    assert!(fragment_source("no_such_fragment").is_none());
}

#[test]
fn profiles_and_fragments_name_their_files() {
    assert_eq!(source("vega_1p_gripper"), Some("vega_1p_gripper.yaml"));
    assert_eq!(
        fragment_source("common/vega_hands_f5d6.yaml"),
        Some("common/vega_hands_f5d6.yaml")
    );
}
