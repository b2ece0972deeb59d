//! Robot profile identities, configuration merging and model selection for
//! Dexmate robots.
pub mod catalog;
pub mod checks;
pub mod cli;
pub mod compose;
pub mod diff;
pub mod document;
pub mod error;
pub mod hash;
pub mod identity;
pub mod json;
pub mod merge;
pub mod migrate;
pub mod paths;
pub mod plan;
pub mod provenance;
pub mod text;
pub mod types;
pub mod urdf;
pub mod urdf_read;
pub mod validate;
pub mod vega;
pub mod xml;
pub mod yaml;

pub use error::{ModelError, Result};
pub use identity::{available_profiles, profile_for_robot_name, try_profile_for_robot_name};
pub use migrate::migrate_profile;
pub use types::{
    CapabilitySpec, EndpointConfig, JointConfig, ResolutionStage, RobotIdentity, RuntimeSettings,
    CAPABILITY_VOCABULARY_VERSION, RESOLVED_CONFIG_VERSION, SOURCE_SCHEMA_VERSION,
};
