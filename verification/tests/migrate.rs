use dexbot_model::migrate::{
    migrate_profile, run_migrations, schema_version_from, MigrationStep, NoTransform,
    SchemaTransform, SchemaVersionEntry, Yaml,
};
use dexbot_model::ModelError;
use serde_yaml::Value;

struct Bump;

impl SchemaTransform for Bump {
    fn apply(&self, document: &mut Yaml) -> Result<(), ModelError> {
        match document {
            Yaml::Mapping(entries) => {
                entries.retain(|(k, _)| !matches!(k, Yaml::String(s) if s == "migrated"));
                entries.push((Yaml::String("migrated".into()), Yaml::Bool(true)));
                Ok(())
            }
            _ => panic!("mapping in test"),
        }
    }
}

struct Explode;

impl SchemaTransform for Explode {
    fn apply(&self, _: &mut Yaml) -> Result<(), ModelError> {
        Err(ModelError::Validation("step failed".into()))
    }
}

#[test]
fn same_version_migration_is_byte_identity() {
    let source = "schema_version: 1\nrobot:\n  model: test\n# comment survives\n";
    assert_eq!(migrate_profile(source, 1).unwrap(), source);
}

#[test]
fn unreachable_target_version_is_an_error() {
    let error = migrate_profile("schema_version: 1\n", 2).unwrap_err();
    assert!(matches!(error, ModelError::Validation(_)));
    assert!(error.message().contains("no migration path"));
    assert_eq!(
        error,
        ModelError::Validation("no migration path from schema_version 1 to 2".into())
    );
}

#[test]
fn steps_chain_until_the_target_and_rewrite_the_version() {
    let steps = [
        MigrationStep { from: 1, to: 2, transform: Bump },
        MigrationStep { from: 2, to: 3, transform: Bump },
    ];
    let output = run_migrations("schema_version: 1\nrobot: {}\n", 3, &steps).unwrap();
    let value: Value = serde_yaml::from_str(&output).unwrap();
    assert_eq!(value["schema_version"], Value::from(3));
    assert_eq!(value["migrated"], Value::from(true));
}

#[test]
fn a_step_beyond_the_target_is_not_taken() {
    let steps = [
        MigrationStep { from: 1, to: 2, transform: Bump },
        MigrationStep { from: 2, to: 3, transform: Bump },
    ];
    let output = run_migrations("schema_version: 1\n", 2, &steps).unwrap();
    let value: Value = serde_yaml::from_str(&output).unwrap();
    assert_eq!(value["schema_version"], Value::from(2));
}

#[test]
fn a_failing_step_propagates_its_error() {
    let steps = [MigrationStep { from: 1, to: 2, transform: Explode }];
    let error = run_migrations("schema_version: 1\n", 2, &steps).unwrap_err();
    assert!(error.message().contains("step failed"));
}

#[test]
fn a_non_advancing_step_is_rejected_instead_of_looping_forever() {
    let steps = [MigrationStep { from: 1, to: 1, transform: Bump }];
    let error = run_migrations("schema_version: 1\n", 2, &steps).unwrap_err();
    assert!(error.message().contains("must increase"), "{}", error.message());
    assert_eq!(
        error,
        ModelError::Validation(
            "invalid migration step 1 -> 1: steps must increase the version".into()
        )
    );
}

#[test]
fn missing_or_malformed_schema_version_is_rejected() {
    assert!(matches!(
        migrate_profile("robot: {model: x}\n", 1),
        Err(ModelError::Validation(_))
    ));
    assert!(matches!(
        migrate_profile("schema_version: nope\n", 1),
        Err(ModelError::UnsupportedSchemaVersion { .. })
    ));
    assert!(matches!(
        migrate_profile("- not-an-object\n", 1),
        Err(ModelError::Parse { .. })
    ));
}

#[test]
fn unsupported_schema_version_reports_the_trimmed_text() {
    assert_eq!(
        migrate_profile("schema_version: nope\n", 1).unwrap_err(),
        ModelError::UnsupportedSchemaVersion { found: "nope".into(), expected: 1 }
    );
    assert_eq!(
        schema_version_from(&SchemaVersionEntry::Present {
            unsigned: Some(4_294_967_296),
            text: " 4294967296\n".into()
        }),
        Err(ModelError::UnsupportedSchemaVersion { found: "4294967296".into(), expected: 1 })
    );
    assert_eq!(
        schema_version_from(&SchemaVersionEntry::Present { unsigned: Some(7), text: "7\n".into() }),
        Ok(7)
    );
    assert_eq!(
        schema_version_from(&SchemaVersionEntry::Absent),
        Err(ModelError::Validation("schema_version is required".into()))
    );
    assert_eq!(
        schema_version_from(&SchemaVersionEntry::NotAMapping),
        Err(ModelError::Parse {
            source_name: "migration input".into(),
            message: "document root must be an object".into()
        })
    );
}

#[test]
fn a_document_above_the_target_has_no_path_down() {
    let error = migrate_profile("schema_version: 3\n", 1).unwrap_err();
    assert_eq!(
        error,
        ModelError::Validation("no migration path from schema_version 3 to 1".into())
    );
}

#[test]
fn a_tagged_document_is_read_through_its_tag() {
    let source = "!profile\nschema_version: 1\nrobot: {model: test}\n";
    assert_eq!(migrate_profile(source, 1).unwrap(), source);
    let steps = [MigrationStep { from: 1, to: 2, transform: NoTransform }];
    let output = run_migrations("!profile {schema_version: 1, robot: {}}\n", 2, &steps).unwrap();
    let value: Value = serde_yaml::from_str(&output).unwrap();
    let inner = match value {
        Value::Tagged(tagged) => tagged.value,
        other => panic!("tag lost: {other:?}"),
    };
    assert_eq!(inner["schema_version"], Value::from(2));
}

#[test]
fn only_plain_unsigned_versions_are_read() {
    assert_eq!(
        migrate_profile("schema_version: -1\n", 1).unwrap_err(),
        ModelError::UnsupportedSchemaVersion { found: "-1".into(), expected: 1 }
    );
    assert_eq!(
        migrate_profile("schema_version: 1.0\n", 1).unwrap_err(),
        ModelError::UnsupportedSchemaVersion { found: "1.0".into(), expected: 1 }
    );
    assert_eq!(migrate_profile("schema_version: !v 1\n", 1).unwrap(), "schema_version: !v 1\n");
    assert!(matches!(migrate_profile("schema_version: [1\n", 1), Err(ModelError::Parse { .. })));
}

#[test]
fn the_version_is_rewritten_in_place() {
    let steps = [MigrationStep { from: 1, to: 2, transform: NoTransform }];
    let output = run_migrations("a: 1\nschema_version: 1\nb: 2\n", 2, &steps).unwrap();
    assert_eq!(output, "a: 1\nschema_version: 2\nb: 2\n");
}

struct EmptyTag;

impl SchemaTransform for EmptyTag {
    fn apply(&self, document: &mut Yaml) -> Result<(), ModelError> {
        let inner = std::mem::replace(document, Yaml::Null);
        *document = Yaml::Tagged(String::new(), Box::new(inner));
        Ok(())
    }
}

#[test]
fn an_empty_tag_left_by_a_step_is_an_output_error() {
    let steps = [MigrationStep { from: 1, to: 2, transform: EmptyTag }];
    assert_eq!(
        run_migrations("schema_version: 1\n", 2, &steps).unwrap_err(),
        ModelError::Parse {
            source_name: "migration output".into(),
            message: "empty YAML tag is not allowed".into()
        }
    );
}

#[test]
fn a_step_past_the_target_is_never_run_and_the_version_is_rewritten() {
    let steps = [
        MigrationStep { from: 2, to: 3, transform: Explode },
        MigrationStep { from: 1, to: 2, transform: Explode },
    ];
    assert_eq!(
        run_migrations("schema_version: 1\n", 2, &steps).unwrap_err(),
        ModelError::Validation("step failed".into())
    );
    let steps = [
        MigrationStep { from: 1, to: 3, transform: NoTransform },
        MigrationStep { from: 1, to: 2, transform: NoTransform },
        MigrationStep { from: 2, to: 4, transform: NoTransform },
    ];
    let output = run_migrations("schema_version: 1\nname: x\n", 3, &steps).unwrap();
    assert_eq!(output, "schema_version: 3\nname: x\n");
    assert_eq!(
        run_migrations("schema_version: 2\n", 3, &steps).unwrap_err(),
        ModelError::Validation("no migration path from schema_version 2 to 3".into())
    );
}
