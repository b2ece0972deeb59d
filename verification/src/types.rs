//! The records of a profile document and their defaults.
use crate::error::debug_repr;
use crate::error::append_debug;
use crate::json::{copy_string, entries_view, Json, JsonV};
use crate::provenance::{lemma_lex_irreflexive, lemma_lex_total, lemma_lex_transitive, lex_less, lex_lt};
use crate::text::{append_str, chars_of, str_eq};
use vstd::prelude::*;

verus! {

/// The profile schema version this build reads.
pub const SOURCE_SCHEMA_VERSION: u32 = 1;

/// The version of the resolved-configuration format this build writes.
pub const RESOLVED_CONFIG_VERSION: u32 = 0;

/// The version of the capability vocabulary this build checks against.
pub const CAPABILITY_VOCABULARY_VERSION: u32 = 1;

/// The only supported value of `joints.source`.
pub const JOINT_SOURCE_URDF: &'static str = "urdf";

/// `enabled` and `required` of a component default to true.
pub fn default_true() -> (r: bool)
    ensures
        r,
{
    true
}

pub open spec fn spec_default_profile_version() -> Seq<char> {
    "0.1.0"@
}

pub open spec fn spec_default_asset_version() -> Seq<char> {
    "legacy-dexmate-urdf"@
}

pub open spec fn spec_default_readiness() -> Seq<char> {
    "required_components"@
}

pub open spec fn spec_default_subscription_policy() -> Seq<char> {
    "auto"@
}

/// The profile version of a robot identity that names none.
pub fn default_profile_version() -> (r: String)
    ensures
        r@ == spec_default_profile_version(),
{
    "0.1.0".to_owned()
}

/// The asset version of a robot identity that names none.
pub fn default_asset_version() -> (r: String)
    ensures
        r@ == spec_default_asset_version(),
{
    "legacy-dexmate-urdf".to_owned()
}

/// The readiness policy of a runtime section that names none.
pub fn default_readiness() -> (r: String)
    ensures
        r@ == spec_default_readiness(),
{
    "required_components".to_owned()
}

/// The subscription policy of a runtime section that names none.
pub fn default_subscription_policy() -> (r: String)
    ensures
        r@ == spec_default_subscription_policy(),
{
    "auto".to_owned()
}

/// The state idle timeout, in milliseconds, of a runtime section that
/// names none.
pub fn default_idle_timeout() -> (r: u64)
    ensures
        r == 5000,
{
    5_000
}

/// Which robot a profile describes.
#[derive(Debug, Clone, PartialEq, Eq)]
pub struct RobotIdentity {
    pub model: String,
    pub namespace: Option<String>,
    pub urdf: Option<String>,
    pub profile_version: String,
    pub asset_version: String,
}

/// How the runtime brings the robot up.
#[derive(Debug, Clone, PartialEq, Eq)]
pub struct RuntimeSettings {
    pub readiness: String,
    pub default_subscription_policy: String,
    pub state_idle_timeout_ms: u64,
}

impl Default for RuntimeSettings {
    fn default() -> (r: Self)
        ensures
            r.readiness@ == spec_default_readiness(),
            r.default_subscription_policy@ == spec_default_subscription_policy(),
            r.state_idle_timeout_ms == 5000,
    {
        RuntimeSettings {
            readiness: default_readiness(),
            default_subscription_policy: default_subscription_policy(),
            state_idle_timeout_ms: default_idle_timeout(),
        }
    }
}

/// One capability of a runtime object.
#[derive(Debug, Clone, PartialEq, Eq)]
pub struct CapabilitySpec {
    pub id: String,
    pub required: bool,
}

/// The entries of an expanded capability other than `id` and `required`.
pub open spec fn extra_keys(m: Map<Seq<char>, JsonV>) -> Set<Seq<char>> {
    m.dom().remove("id"@).remove("required"@)
}

/// The least key of `keys` in code-point order.
pub open spec fn least_key(keys: Set<Seq<char>>) -> Seq<char> {
    choose|k: Seq<char>| keys.contains(k) && forall|j: Seq<char>| #[trigger] keys.contains(j) && j != k ==> lex_lt(k, j)
}

/// A capability entry as written in a profile: a bare id, which is
/// required, or an object with an `id` and an optional `required` flag.
/// The error text of each malformed form is given.
pub open spec fn spec_capability(v: JsonV) -> Result<(Seq<char>, bool), Seq<char>> {
    match v {
        JsonV::Text(id) => if id.len() == 0 {
            Err("capability id cannot be empty"@)
        } else {
            Ok((id, true))
        },
        JsonV::Object(m) => {
            if !m.dom().contains("id"@) {
                Err("expanded capability entry needs an id"@)
            } else if !(m["id"@] matches JsonV::Text(id) && id.len() > 0) {
                Err("capability id must be a non-empty string"@)
            } else if m.dom().contains("required"@) && !(m["required"@] is Bool) {
                Err("capability required must be a boolean"@)
            } else if !extra_keys(m).is_empty() {
                Err("expanded capability entry has unknown field "@ + debug_repr(least_key(extra_keys(m))))
            } else {
                Ok((
                    m["id"@]->Text_0,
                    if m.dom().contains("required"@) {
                        m["required"@]->Bool_0
                    } else {
                        true
                    },
                ))
            }
        },
        _ => Err("data did not match any variant of untagged enum Input"@),
    }
}

impl CapabilitySpec {
    /// Reads a capability entry; see [`spec_capability`].
    pub fn from_json(v: &Json) -> (r: Result<CapabilitySpec, String>)
        requires
            v.wf(),
        ensures
            match (r, spec_capability(v.view_json())) {
                (Ok(c), Ok((id, required))) => c.id@ == id && c.required == required,
                (Err(m), Err(sm)) => m@ == sm,
                _ => false,
            },
    {
        proof {
            reveal_strlit("id");
            reveal_strlit("required");
        }
        match v {
            Json::String(id) => {
                if id.as_str().is_empty() {
                    proof {
                        assert(id@.len() == 0);
                    }
                    Err("capability id cannot be empty".to_owned())
                } else {
                    Ok(CapabilitySpec { id: copy_string(id), required: true })
                }
            },
            Json::Object(entries) => Self::from_entries(entries),
            _ => Err("data did not match any variant of untagged enum Input".to_owned()),
        }
    }

    fn from_entries(entries: &Vec<(String, Json)>) -> (r: Result<CapabilitySpec, String>)
        requires
            crate::json::unique_keys(entries@),
        ensures
            match (r, spec_capability(JsonV::Object(entries_view(entries@)))) {
                (Ok(c), Ok((id, required))) => c.id@ == id && c.required == required,
                (Err(m), Err(sm)) => m@ == sm,
                _ => false,
            },
    {
        let ghost m = entries_view(entries@);
        proof {
            reveal_strlit("id");
            reveal_strlit("required");
            crate::json::lemma_entries_view_keys(entries@);
        }
        let mut id: Option<String> = None;
        let mut id_ok = false;
        let mut required: Option<bool> = None;
        let mut required_ok = true;
        let mut extra: Option<usize> = None;
        let ghost mut id_at: int = 0;
        let ghost mut req_at: int = 0;
        let mut i: usize = 0;
        while i < entries.len()
            invariant
                0 <= i <= entries@.len(),
                m == entries_view(entries@),
                crate::json::unique_keys(entries@),
                id is Some ==> 0 <= id_at < i && entries@[id_at].0@ == "id"@ && id_ok == (
                entries@[id_at].1.view_json() matches JsonV::Text(t) && t.len() > 0) && (id_ok
                    ==> entries@[id_at].1.view_json() == JsonV::Text(id->0@)),
                id is None ==> forall|k: int| 0 <= k < i ==> #[trigger] entries@[k].0@ != "id"@,
                required is Some ==> 0 <= req_at < i && entries@[req_at].0@ == "required"@
                    && required_ok == (entries@[req_at].1.view_json() is Bool) && (required_ok
                    ==> entries@[req_at].1.view_json() == JsonV::Bool(required->0)),
                required is None ==> required_ok && forall|k: int|
                    0 <= k < i ==> #[trigger] entries@[k].0@ != "required"@,
                match extra {
                    Some(e) => e < i && entries@[e as int].0@ != "id"@ && entries@[e as int].0@
                        != "required"@ && forall|k: int|
                        0 <= k < i && k != e && #[trigger] entries@[k].0@ != "id"@ && entries@[k].0@
                            != "required"@ ==> lex_lt(entries@[e as int].0@, entries@[k].0@),
                    None => forall|k: int|
                        0 <= k < i ==> #[trigger] entries@[k].0@ == "id"@ || entries@[k].0@
                            == "required"@,
                },
            decreases entries@.len() - i,
        {
            proof {
                reveal_strlit("id");
                reveal_strlit("required");
            }
            let key = entries[i].0.as_str();
            if str_eq(key, "id") {
                proof {
                    id_at = i as int;
                    assert("id"@.len() != "required"@.len());
                }
                match &entries[i].1 {
                    Json::String(s) => {
                        id_ok = !s.as_str().is_empty();
                        id = Some(copy_string(s));
                    },
                    _ => {
                        id_ok = false;
                        id = Some(String::new());
                    },
                }
            } else if str_eq(key, "required") {
                proof {
                    req_at = i as int;
                }
                match &entries[i].1 {
                    Json::Bool(b) => {
                        required = Some(*b);
                        required_ok = true;
                    },
                    _ => {
                        required = Some(false);
                        required_ok = false;
                    },
                }
            } else {
                let better = match extra {
                    None => true,
                    Some(e) => {
                        let kc = chars_of(key);
                        let ec = chars_of(entries[e].0.as_str());
                        lex_less(kc.as_slice(), ec.as_slice())
                    },
                };
                if better {
                    proof {
                        if let Some(e) = extra {
                            assert forall|k: int|
                                0 <= k < i + 1 && k != i && #[trigger] entries@[k].0@ != "id"@
                                    && entries@[k].0@ != "required"@ implies lex_lt(
                                entries@[i as int].0@,
                                entries@[k].0@,
                            ) by {
                                if k != e {
                                    lemma_lex_transitive(
                                        entries@[i as int].0@,
                                        entries@[e as int].0@,
                                        entries@[k].0@,
                                    );
                                }
                            }
                        }
                    }
                    extra = Some(i);
                } else {
                    proof {
                        let e = extra->0;
                        assert(entries@[e as int].0@ != entries@[i as int].0@);
                        lemma_lex_total(entries@[e as int].0@, entries@[i as int].0@);
                    }
                }
            }
            i = i + 1;
        }
        proof {
            assert forall|k: int| 0 <= k < entries@.len() implies #[trigger] m.dom().contains(
                entries@[k].0@,
            ) && m[entries@[k].0@] == entries@[k].1.view_json() by {
                crate::json::lemma_entries_view_value(entries@, k);
            }
        }
        match id {
            None => {
                proof {
                    assert(!m.dom().contains("id"@));
                }
                return Err("expanded capability entry needs an id".to_owned());
            },
            Some(s) => {
                if !id_ok {
                    return Err("capability id must be a non-empty string".to_owned());
                }
                if !required_ok {
                    return Err("capability required must be a boolean".to_owned());
                }
                match extra {
                    Some(e) => {
                        let mut msg = String::new();
                        append_str(&mut msg, "expanded capability entry has unknown field ");
                        append_debug(&mut msg, entries[e].0.as_str());
                        proof {
                            let x = extra_keys(m);
                            let ke = entries@[e as int].0@;
                            assert(x.contains(ke));
                            assert forall|j: Seq<char>| #[trigger]
                                x.contains(j) && j != ke implies lex_lt(ke, j) by {
                                let k = choose|k: int| 0 <= k < entries@.len() && entries@[k].0@ == j;
                                assert(entries@[k].0@ == j);
                            }
                            let lk = least_key(x);
                            assert(x.contains(lk) && forall|j: Seq<char>| #[trigger]
                                x.contains(j) && j != lk ==> lex_lt(lk, j));
                            if lk != ke {
                                assert(lex_lt(ke, lk));
                                assert(lex_lt(lk, ke));
                                lemma_lex_total(ke, lk);
                            }
                        }
                        Err(msg)
                    },
                    None => {
                        proof {
                            assert(extra_keys(m) =~= Set::empty()) by {
                                assert forall|j: Seq<char>| !extra_keys(m).contains(j) by {
                                    if m.dom().contains(j) {
                                        let k = choose|k: int|
                                            0 <= k < entries@.len() && entries@[k].0@ == j;
                                        assert(entries@[k].0@ == j);
                                    }
                                }
                            }
                        }
                        let req = match required {
                            Some(b) => b,
                            None => true,
                        };
                        Ok(CapabilitySpec { id: s, required: req })
                    },
                }
            },
        }
    }
}

/// Where a runtime object talks: the kind of endpoint and its key.
#[derive(Debug, Clone, PartialEq, Eq)]
pub struct EndpointConfig {
    pub kind: String,
    pub value: String,
}

/// Which joints a runtime object commands or reads: listed by name, or taken
/// from a named joint group (`source: urdf`).
#[derive(Debug, Clone, PartialEq, Eq)]
pub struct JointConfig {
    pub names: Vec<String>,
    pub source: Option<String>,
    pub group: Option<String>,
}

/// How far a configuration has been resolved: from the profile alone, or
/// with discovery facts from the running robot applied.
#[derive(Debug, Clone, Copy, PartialEq, Eq, Structural)]
pub enum ResolutionStage {
    Static,
    Operational,
}

} // verus!
