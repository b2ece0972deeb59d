use dexbot_model::paths::{
    check_relative_path, contained_path, urdf_location, PackageResolver, ResourceResolver,
    ResourceTarget, UrdfLocation,
};
use dexbot_model::ModelError;

#[test]
fn relative_paths_must_be_plain_names() {
    for ok in ["a", "a/b.urdf", "a/./b", "a//b", "dir/", "..a/b", "a/..b", "a/b.."] {
        assert!(check_relative_path(ok).is_ok(), "{ok:?}");
    }
    for bad in ["", "/etc/passwd", ".", "./a", "..", "../a", "a/..", "a/../b", "a/b/.."] {
        assert_eq!(
            check_relative_path(bad),
            Err(ModelError::Validation(format!(
                "resource path must be relative without traversal: {bad:?}"
            ))),
            "{bad:?}"
        );
    }
}

#[test]
fn the_package_resolver_maps_registered_packages_only() {
    let resolver = PackageResolver::new()
        .with_package("robots".to_string(), "/srv/first".to_string())
        .with_package("robots".to_string(), "/srv/robots".to_string());
    assert_eq!(
        resolver.resolve("package://robots/arm/arm.urdf"),
        Ok(ResourceTarget::Within {
            root: "/srv/robots".into(),
            relative: "arm/arm.urdf".into()
        })
    );
    assert_eq!(
        resolver.resolve("file:///tmp/x.urdf"),
        Ok(ResourceTarget::Direct("/tmp/x.urdf".into()))
    );
    assert_eq!(
        resolver.resolve("plain/path.urdf"),
        Ok(ResourceTarget::Direct("plain/path.urdf".into()))
    );
    assert_eq!(
        resolver.resolve("package://other/x.urdf"),
        Err(ModelError::UnresolvedResource("package://other/x.urdf".into()))
    );
    assert_eq!(
        resolver.resolve("package://robots"),
        Err(ModelError::UnresolvedResource("package://robots".into()))
    );
    assert_eq!(
        resolver.resolve("http://example.com/x.urdf"),
        Err(ModelError::UnresolvedResource("http://example.com/x.urdf".into()))
    );
    assert!(matches!(
        resolver.resolve("package://robots/../secret"),
        Err(ModelError::Validation(message)) if message.contains("without traversal")
    ));
}

#[test]
fn contained_paths_stay_within_their_root() {
    assert_eq!(contained_path("/srv/assets", "/srv/assets/a.urdf"), Ok("/srv/assets/a.urdf".into()));
    assert_eq!(contained_path("/srv/assets", "/srv/assets"), Ok("/srv/assets".into()));
    assert_eq!(contained_path("/", "/etc/x"), Ok("/etc/x".into()));
    let escape =
        Err(ModelError::Validation("resource path escapes its configured root".into()));
    assert_eq!(contained_path("/srv/assets", "/srv/assets-other/a.urdf"), escape);
    assert_eq!(contained_path("/srv/assets", "/srv/a.urdf"), escape);
}

#[test]
fn profile_urdf_uris_are_classified() {
    assert_eq!(
        urdf_location("package://dexmate_urdf/robots/humanoid/vega_1/vega_1.urdf"),
        Ok(UrdfLocation::Package("robots/humanoid/vega_1/vega_1.urdf".into()))
    );
    assert_eq!(urdf_location("file://robot.urdf"), Ok(UrdfLocation::Local("robot.urdf".into())));
    assert_eq!(urdf_location("robot.urdf"), Ok(UrdfLocation::Local("robot.urdf".into())));
    assert_eq!(
        urdf_location("package://other/robot.urdf"),
        Err(ModelError::UnresolvedResource("package://other/robot.urdf".into()))
    );
    assert_eq!(
        urdf_location("s3://bucket/robot.urdf"),
        Err(ModelError::UnresolvedResource("s3://bucket/robot.urdf".into()))
    );
}

#[test]
fn adding_a_package_leaves_other_uris_alone() {
    let before = PackageResolver::new().with_package("a".into(), "/ra".into());
    let after = before.clone().with_package("b".into(), "/rb".into());
    for uri in ["package://a/x.urdf", "package://c/y.urdf", "file:///z.urdf", "plain.urdf", "http://h/u"] {
        assert_eq!(after.resolve(uri), before.resolve(uri), "{uri}");
    }
    assert_eq!(
        after.resolve("package://b/m.urdf"),
        Ok(ResourceTarget::Within { root: "/rb".into(), relative: "m.urdf".into() })
    );
    assert!(before.resolve("package://b/m.urdf").is_err());
}
