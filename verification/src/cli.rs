//! The commands of the `dexbot` tool.
use vstd::prelude::*;

verus! {

/// A command of the `dexbot` tool. Paths are given as text.
#[derive(Debug, Clone, PartialEq, Eq)]
pub enum Command {
    /// List the built-in robot profiles.
    List,
    /// Print the normalized resolved configuration of a built-in profile.
    Show { profile: String },
    /// Validate a profile file and print a verdict summary, or the full
    /// normalized resolved configuration with `json`.
    Validate { path: String, json: bool },
    /// Field-level diff between two resolved configurations, each side a
    /// built-in profile name or a profile file path; with `exit_code`, a
    /// difference is a failure.
    Diff { left: String, right: String, exit_code: bool },
    /// Migrate a profile file between schema versions (by default to the
    /// current one).
    Migrate { path: String, to: Option<u32> },
    /// Summarize a URDF file: robot name, link and joint counts, movable
    /// joints.
    Urdf { path: String },
    /// Print the built-in profile serving a `ROBOT_NAME`-style identifier.
    ProfileFor { name: String },
}

} // verus!
