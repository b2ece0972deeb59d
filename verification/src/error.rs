//! The error type of the library, and the text each error reports.
use crate::text::{append_str, push_decimal, spec_decimal};
use vstd::prelude::*;

verus! {

/// Every failure the library reports.
///
/// `Io` carries the path and the operating-system message as text, and
/// `Serialization` the serializer's message.
#[derive(Debug, Clone, PartialEq, Eq)]
pub enum ModelError {
    UnknownProfile(String),
    UnknownRobotName { name: String, reason: String },
    UnknownFragment { profile: String, fragment: String },
    NestedExtends { profile: String, fragment: String },
    UnsupportedSchemaVersion { found: String, expected: u32 },
    Parse { source_name: String, message: String },
    Validation(String),
    DiscoveryConflict { path: String, existing: String, incoming: String },
    UnknownSensor { sensor: String, model: String, profile: String, available: String },
    InvalidDeletion(String),
    MalformedDeletion(String),
    Io { path: String, message: String },
    Serialization(String),
    Urdf(String),
    UnresolvedResource(String),
}

pub type Result<T> = core::result::Result<T, ModelError>;

/// What `{:?}` prints for a string: the text quoted, with escapes.
pub uninterp spec fn debug_repr(s: Seq<char>) -> Seq<char>;

/// The `Debug` rendering of a string slice (`format!("{s:?}")`).
#[verifier::external_body]
pub(crate) fn debug_text(s: &str) -> (r: String)
    ensures
        r@ == debug_repr(s@),
{
    format!("{s:?}")
}

/// Appends the `Debug` rendering of `t` to `s`.
pub fn append_debug(s: &mut String, t: &str)
    ensures
        final(s)@ == old(s)@ + debug_repr(t@),
{
    let d = debug_text(t);
    append_str(s, d.as_str());
}

impl ModelError {
    /// The human-readable report of this error.
    pub open spec fn spec_message(&self) -> Seq<char> {
        match self {
            ModelError::UnknownProfile(p) => "unknown robot profile: "@ + p@,
            ModelError::UnknownRobotName { name, reason } => "robot name "@ + debug_repr(name@)
                + " does not select a built-in profile: "@ + reason@
                + "; pass a profile name explicitly if this robot is supported"@,
            ModelError::UnknownFragment { profile, fragment } => "unknown profile fragment "@
                + debug_repr(fragment@) + " extended by "@ + debug_repr(profile@),
            ModelError::NestedExtends { profile, fragment } => "profile "@ + debug_repr(profile@)
                + " cannot extend nested fragment "@ + debug_repr(fragment@),
            ModelError::UnsupportedSchemaVersion { found, expected } =>
                "unsupported schema_version "@ + found@
                + "; this build supports schema_version "@ + spec_decimal(*expected as nat),
            ModelError::Parse { source_name, message } => "profile parse failed in "@
                + source_name@ + ": "@ + message@,
            ModelError::Validation(m) => "profile validation failed: "@ + m@,
            ModelError::DiscoveryConflict { path, existing, incoming } => "discovery layer "@
                + debug_repr(incoming@) + " contradicts "@ + debug_repr(existing@) + " at "@
                + debug_repr(path@)
                + "; discovery adds facts and never silently overrides explicit user configuration"@,
            ModelError::UnknownSensor { sensor, model, profile, available } => "Sensor "@
                + debug_repr(sensor@) + " is not configured for robot model "@ + debug_repr(
                model@,
            ) + " (profile "@ + debug_repr(profile@) + "). Configured sensors: "@ + available@
                + ". Select a configured sensor, or use a robot configuration that declares the requested sensor."@,
            ModelError::InvalidDeletion(p) =>
                "overlay deletion directive cannot replace the document root (path "@
                + debug_repr(p@) + ")"@,
            ModelError::MalformedDeletion(p) => "malformed overlay deletion at "@ + p@
                + ": the only deletion directive is {\"$delete\": true}"@,
            ModelError::Io { path, message } => "I/O failed for "@ + path@ + ": "@ + message@,
            ModelError::Serialization(m) => "configuration serialization failed: "@ + m@,
            ModelError::Urdf(m) => "URDF parse failed: "@ + m@,
            ModelError::UnresolvedResource(m) => "resource URI is unsupported or unresolved: "@
                + m@,
        }
    }

    /// The human-readable report of this error (its `Display` text).
    pub fn message(&self) -> (r: String)
        ensures
            r@ == self.spec_message(),
    {
        let mut s = String::new();
        match self {
            ModelError::UnknownProfile(p) => {
                append_str(&mut s, "unknown robot profile: ");
                append_str(&mut s, p.as_str());
            },
            ModelError::UnknownRobotName { name, reason } => {
                append_str(&mut s, "robot name ");
                append_debug(&mut s, name.as_str());
                append_str(&mut s, " does not select a built-in profile: ");
                append_str(&mut s, reason.as_str());
                append_str(
                    &mut s,
                    "; pass a profile name explicitly if this robot is supported",
                );
            },
            ModelError::UnknownFragment { profile, fragment } => {
                append_str(&mut s, "unknown profile fragment ");
                append_debug(&mut s, fragment.as_str());
                append_str(&mut s, " extended by ");
                append_debug(&mut s, profile.as_str());
            },
            ModelError::NestedExtends { profile, fragment } => {
                append_str(&mut s, "profile ");
                append_debug(&mut s, profile.as_str());
                append_str(&mut s, " cannot extend nested fragment ");
                append_debug(&mut s, fragment.as_str());
            },
            ModelError::UnsupportedSchemaVersion { found, expected } => {
                append_str(&mut s, "unsupported schema_version ");
                append_str(&mut s, found.as_str());
                append_str(&mut s, "; this build supports schema_version ");
                push_decimal(&mut s, *expected as u64);
            },
            ModelError::Parse { source_name, message } => {
                append_str(&mut s, "profile parse failed in ");
                append_str(&mut s, source_name.as_str());
                append_str(&mut s, ": ");
                append_str(&mut s, message.as_str());
            },
            ModelError::Validation(m) => {
                append_str(&mut s, "profile validation failed: ");
                append_str(&mut s, m.as_str());
            },
            ModelError::DiscoveryConflict { path, existing, incoming } => {
                append_str(&mut s, "discovery layer ");
                append_debug(&mut s, incoming.as_str());
                append_str(&mut s, " contradicts ");
                append_debug(&mut s, existing.as_str());
                append_str(&mut s, " at ");
                append_debug(&mut s, path.as_str());
                append_str(
                    &mut s,
                    "; discovery adds facts and never silently overrides explicit user configuration",
                );
            },
            ModelError::UnknownSensor { sensor, model, profile, available } => {
                append_str(&mut s, "Sensor ");
                append_debug(&mut s, sensor.as_str());
                append_str(&mut s, " is not configured for robot model ");
                append_debug(&mut s, model.as_str());
                append_str(&mut s, " (profile ");
                append_debug(&mut s, profile.as_str());
                append_str(&mut s, "). Configured sensors: ");
                append_str(&mut s, available.as_str());
                append_str(
                    &mut s,
                    ". Select a configured sensor, or use a robot configuration that declares the requested sensor.",
                );
            },
            ModelError::InvalidDeletion(p) => {
                append_str(
                    &mut s,
                    "overlay deletion directive cannot replace the document root (path ",
                );
                append_debug(&mut s, p.as_str());
                append_str(&mut s, ")");
            },
            ModelError::MalformedDeletion(p) => {
                append_str(&mut s, "malformed overlay deletion at ");
                append_str(&mut s, p.as_str());
                append_str(&mut s, ": the only deletion directive is {\"$delete\": true}");
            },
            ModelError::Io { path, message } => {
                append_str(&mut s, "I/O failed for ");
                append_str(&mut s, path.as_str());
                append_str(&mut s, ": ");
                append_str(&mut s, message.as_str());
            },
            ModelError::Serialization(m) => {
                append_str(&mut s, "configuration serialization failed: ");
                append_str(&mut s, m.as_str());
            },
            ModelError::Urdf(m) => {
                append_str(&mut s, "URDF parse failed: ");
                append_str(&mut s, m.as_str());
            },
            ModelError::UnresolvedResource(m) => {
                append_str(&mut s, "resource URI is unsupported or unresolved: ");
                append_str(&mut s, m.as_str());
            },
        }
        s
    }
}

} // verus!
