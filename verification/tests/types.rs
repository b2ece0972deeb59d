use dexbot_model::types::{
    default_asset_version, default_idle_timeout, default_profile_version, default_readiness,
    default_subscription_policy, default_true, RuntimeSettings, CAPABILITY_VOCABULARY_VERSION,
    JOINT_SOURCE_URDF, RESOLVED_CONFIG_VERSION, SOURCE_SCHEMA_VERSION,
};

#[test]
fn defaults_are_the_documented_values() {
    assert!(default_true());
    assert_eq!(default_profile_version(), "0.1.0");
    assert_eq!(default_asset_version(), "legacy-dexmate-urdf");
    assert_eq!(default_readiness(), "required_components");
    assert_eq!(default_subscription_policy(), "auto");
    assert_eq!(default_idle_timeout(), 5_000);
    let runtime = RuntimeSettings::default();
    assert_eq!(runtime.readiness, "required_components");
    assert_eq!(runtime.default_subscription_policy, "auto");
    assert_eq!(runtime.state_idle_timeout_ms, 5_000);
}

#[test]
fn versions_are_pinned() {
    assert_eq!(SOURCE_SCHEMA_VERSION, 1);
    assert_eq!(RESOLVED_CONFIG_VERSION, 0);
    assert_eq!(CAPABILITY_VOCABULARY_VERSION, 1);
    assert_eq!(JOINT_SOURCE_URDF, "urdf");
}
