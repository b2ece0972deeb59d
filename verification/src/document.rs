//! A profile document: the typed form of a merged profile. Every keyed
//! section is a list of `(key, value)` entries in key order, as a sorted map
//! would hold it.
use crate::json::Json;
use crate::provenance::lex_lt;
use crate::types::{CapabilitySpec, EndpointConfig, JointConfig, RobotIdentity, RuntimeSettings};
use vstd::prelude::*;

verus! {

/// One runtime object: a component or a sensor.
#[derive(Debug)]
pub struct ComponentConfig {
    pub driver: String,
    pub enabled: bool,
    pub required: bool,
    pub local: bool,
    pub roles: Vec<String>,
    pub capabilities: Vec<CapabilitySpec>,
    pub dependencies: Vec<String>,
    pub joints: Option<JointConfig>,
    pub endpoints: Vec<(String, EndpointConfig)>,
    pub safety: Vec<(String, Json)>,
    pub metadata: Vec<(String, Json)>,
}

/// A profile document after merging and typing.
#[derive(Debug)]
pub struct ProfileDocument {
    pub schema_version: u32,
    pub extends: Vec<String>,
    pub robot: RobotIdentity,
    pub runtime: RuntimeSettings,
    pub components: Vec<(String, ComponentConfig)>,
    pub sensors: Vec<(String, ComponentConfig)>,
    pub joint_groups: Vec<(String, Vec<String>)>,
    pub safety: Vec<(String, Json)>,
    pub querables: Vec<(String, String)>,
    pub intent_profiles: Vec<(String, (String, String))>,
}

/// Keys in strictly increasing code-point order: the iteration order of a
/// sorted map.
pub open spec fn sorted_keys<T>(s: Seq<(String, T)>) -> bool {
    forall|i: int, j: int| 0 <= i < j < s.len() ==> lex_lt(#[trigger] s[i].0@, #[trigger] s[j].0@)
}

impl ComponentConfig {
    /// Every keyed section is in key order.
    pub open spec fn wf(&self) -> bool {
        &&& sorted_keys(self.endpoints@)
        &&& sorted_keys(self.safety@)
        &&& sorted_keys(self.metadata@)
        &&& forall|i: int| 0 <= i < self.safety@.len() ==> (#[trigger] self.safety@[i]).1.wf()
        &&& forall|i: int| 0 <= i < self.metadata@.len() ==> (#[trigger] self.metadata@[i]).1.wf()
    }
}

} // verus!
