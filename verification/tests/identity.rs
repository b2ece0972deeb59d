use dexbot_model::{
    available_profiles, profile_for_robot_name, try_profile_for_robot_name, ModelError,
};

#[test]
fn identity_v2_and_legacy_names_select_the_same_variants() {
    for (token, suffix, profile) in [
        ("vg1", "1", "vega_1"),
        ("vg1u", "1u", "vega_1u"),
        ("vg1p", "1p", "vega_1p"),
    ] {
        for identity in [
            format!("dm/{token}-0123456789"),
            format!("dm-{token}-0123456789"),
            format!("dm/vg0123456789-{suffix}"),
        ] {
            assert_eq!(profile_for_robot_name(&identity), profile);
            assert_eq!(
                profile_for_robot_name(&identity.to_ascii_uppercase()),
                profile
            );
        }
    }
    for profile in available_profiles() {
        assert_eq!(profile_for_robot_name(profile), *profile);
    }
    assert_eq!(profile_for_robot_name("unknown"), "vega_1");
}

#[test]
fn fallible_resolution_accepts_every_documented_spelling() {
    for (token, suffix, profile) in [
        ("vg1", "1", "vega_1"),
        ("vg1u", "1u", "vega_1u"),
        ("vg1p", "1p", "vega_1p"),
    ] {
        for identity in [
            format!("dm/{token}-0123456789"),
            format!("dm-{token}-0123456789"),
            format!("dm/vg0123456789-{suffix}"),
            format!("dm/vgabcd123456-{suffix}"),
            format!("dm/{token}-0123456789-{suffix}"),
            format!("  DM/{}-0123456789\n", token.to_ascii_uppercase()),
            format!("dm/{token}-7k3mp9wd2r6x8t4q-c"),
            format!("DM-{}-7K3MP9WD2R6X8T4Q-C", token.to_ascii_uppercase()),
            format!("dm/{token}-7k3mp9wd2r6x8t4q-1"),
            format!("dm/{token}-unit-test"),
        ] {
            assert_eq!(
                try_profile_for_robot_name(&identity).unwrap(),
                profile,
                "{identity:?}"
            );
            assert_eq!(profile_for_robot_name(&identity), profile);
        }
    }
    for profile in available_profiles() {
        assert_eq!(try_profile_for_robot_name(profile).unwrap(), *profile);
        assert_eq!(
            try_profile_for_robot_name(&format!(" {} ", profile.to_ascii_uppercase())).unwrap(),
            *profile
        );
    }
}

#[test]
fn fallible_resolution_fails_closed_on_unrecognised_names() {
    for name in [
        "",
        "   ",
        "unknown",
        "vega_1p_grippr",
        "dm/vg2-000123",
        "dm/vg1pro-0001",
        "dm/vg2-000123-1",
        "dm/ab0123456789-1",
        "dm_vg1p-0001",
        "dm/vg1-abc-1p",
        "dm/vg1p-0123456789-1u",
        "dm/vg0123456789-2",
        "dm/vg0123456789-rc1",
        "dm/xyz-1u",
        "dm/vg0123456789",
        "dm/vg1p-",
        "dm/vg1p-00 01",
    ] {
        let error = try_profile_for_robot_name(name).unwrap_err();
        assert!(
            matches!(&error, ModelError::UnknownRobotName { name: reported, .. } if reported == name),
            "{name:?}: {}",
            error.message()
        );
    }
    assert_eq!(try_profile_for_robot_name("VEGA_1P").unwrap(), "vega_1p");
    assert_eq!(profile_for_robot_name("VEGA_1P"), "vega_1p");
    assert_eq!(profile_for_robot_name("vega_1u "), "vega_1u");
    assert_eq!(profile_for_robot_name("dm/vg2-000123"), "vega_1");
    assert_eq!(profile_for_robot_name("dm/xyz-1u"), "vega_1u");
    assert_eq!(profile_for_robot_name("dm/vg1-abc-1p"), "vega_1");
}

#[test]
fn profile_for_robot_name_implements_the_legacy_rule_set() {
    for profile in available_profiles() {
        assert_eq!(profile_for_robot_name(profile), *profile);
    }
    assert_eq!(profile_for_robot_name("dm/vg0123456789-1u"), "vega_1u");
    assert_eq!(profile_for_robot_name("dm/vg0123456789-1p"), "vega_1p");
    assert_eq!(profile_for_robot_name("DM/VGABCD123456-1U"), "vega_1u");
    assert_eq!(profile_for_robot_name("dm/xyz-1u"), "vega_1u");
    assert_eq!(profile_for_robot_name("dm/vgabcd123456-1"), "vega_1");
    assert_eq!(profile_for_robot_name("dm/vgabcd123456-2"), "vega_1");
    assert_eq!(profile_for_robot_name("robot"), "vega_1");
    assert_eq!(profile_for_robot_name(""), "vega_1");
}

#[test]
fn unknown_robot_name_reports_the_reason() {
    let error = try_profile_for_robot_name("").unwrap_err();
    assert!(error.message().starts_with("robot name \"\" does not select a built-in profile: "));
    assert!(error
        .message()
        .ends_with("; pass a profile name explicitly if this robot is supported"));
}

#[test]
fn a_name_selects_what_its_trimmed_lowercase_form_selects() {
    for name in ["  Vega_1 ", "\tDEXMATE-VEGA-1P-X\n", "nope", "  ", "Vega_Rc2"] {
        let normalized = name.trim().to_ascii_lowercase();
        assert_eq!(
            try_profile_for_robot_name(name).ok(),
            try_profile_for_robot_name(&normalized).ok(),
            "{name:?}"
        );
    }
}
