//! The structural rules of a profile document. Each check reports the first
//! violation, in document order, as a validation error.
use crate::document::{ComponentConfig, ProfileDocument};
use crate::error::{append_debug, debug_repr, ModelError};
use crate::json::{json_display, json_text, Json, JsonV};
use crate::text::{append_str, chars_of, is_whitespace, push_decimal, spec_decimal, spec_is_whitespace, str_eq};
use crate::types::{CapabilitySpec, SOURCE_SCHEMA_VERSION};
use crate::validate::{key_expression_problem, spec_key_expression_problem, spec_valid_extension_id, valid_extension_id};
use vstd::prelude::*;

verus! {

/// The first problem that `f` finds in `s`, front to back.
pub open spec fn first_some<T>(s: Seq<T>, f: spec_fn(T) -> Option<Seq<char>>) -> Option<Seq<char>>
    decreases s.len(),
{
    if s.len() == 0 {
        None
    } else {
        match f(s[0]) {
            Some(m) => Some(m),
            None => first_some(s.drop_first(), f),
        }
    }
}

pub proof fn lemma_first_some_skip<T>(s: Seq<T>, f: spec_fn(T) -> Option<Seq<char>>, i: int)
    requires
        0 <= i < s.len(),
    ensures
        first_some(s.skip(i), f) == match f(s[i]) {
            Some(m) => Some(m),
            None => first_some(s.skip(i + 1), f),
        },
{
    assert(s.skip(i).drop_first() =~= s.skip(i + 1));
    assert(s.skip(i)[0] == s[i]);
}

pub proof fn lemma_first_some_all<T>(s: Seq<T>, f: spec_fn(T) -> Option<Seq<char>>)
    ensures
        first_some(s.skip(0), f) == first_some(s, f),
        first_some(s.skip(s.len() as int), f) is None,
{
    assert(s.skip(0) =~= s);
    assert(s.skip(s.len() as int) =~= Seq::<T>::empty());
}

/// `r` reports `problem`: success when there is none, else a validation
/// error with its text.
pub open spec fn reports(r: Result<(), ModelError>, problem: Option<Seq<char>>) -> bool {
    match problem {
        None => r is Ok,
        Some(m) => r matches Err(ModelError::Validation(e)) && e@ == m,
    }
}

/// `str::trim` leaves nothing: every character is white space.
pub open spec fn blank(s: Seq<char>) -> bool {
    forall|i: int| 0 <= i < s.len() ==> spec_is_whitespace(#[trigger] s[i])
}

/// Whether every character of `s` is white space.
pub fn is_blank(s: &str) -> (r: bool)
    ensures
        r == blank(s@),
{
    let c = chars_of(s);
    let mut i: usize = 0;
    while i < c.len()
        invariant
            c@ == s@,
            i <= c@.len(),
            forall|j: int| 0 <= j < i ==> spec_is_whitespace(#[trigger] c@[j]),
        decreases c@.len() - i,
    {
        if !is_whitespace(c[i]) {
            return false;
        }
        i = i + 1;
    }
    true
}

/// `names[j]` repeats an earlier name.
pub open spec fn repeats_earlier(names: Seq<String>, j: int) -> bool {
    exists|k: int| 0 <= k < j && #[trigger] names[k]@ == names[j]@
}

/// Some name is blank or repeats an earlier one.
pub open spec fn blank_or_repeated(names: Seq<String>) -> bool {
    exists|j: int| 0 <= j < names.len() && (blank(#[trigger] names[j]@) || repeats_earlier(names, j))
}

/// Whether some name is blank or repeats an earlier one.
pub fn has_blank_or_repeated(names: &Vec<String>) -> (r: bool)
    ensures
        r == blank_or_repeated(names@),
{
    let mut j: usize = 0;
    while j < names.len()
        invariant
            j <= names@.len(),
            forall|a: int| 0 <= a < j ==> !blank(#[trigger] names@[a]@) && !repeats_earlier(names@, a),
        decreases names@.len() - j,
    {
        if is_blank(names[j].as_str()) {
            return true;
        }
        let mut k: usize = 0;
        while k < j
            invariant
                j < names@.len(),
                k <= j,
                forall|b: int| 0 <= b < k ==> #[trigger] names@[b]@ != names@[j as int]@,
            decreases j - k,
        {
            if str_eq(names[k].as_str(), names[j].as_str()) {
                assert(repeats_earlier(names@, j as int));
                return true;
            }
            k = k + 1;
        }
        j = j + 1;
    }
    false
}

// ------------------------------------------------------------ joint groups

/// The problem of one joint group.
pub open spec fn group_problem(group: (String, Vec<String>)) -> Option<Seq<char>> {
    if blank(group.0@) {
        Some("joint_groups contains an empty group name"@)
    } else if group.1@.len() == 0 {
        Some("joint group "@ + debug_repr(group.0@) + " lists no joints"@)
    } else if blank_or_repeated(group.1@) {
        Some("joint group "@ + debug_repr(group.0@) + " has an empty or duplicate joint name"@)
    } else {
        None
    }
}

pub open spec fn group_rule() -> spec_fn((String, Vec<String>)) -> Option<Seq<char>> {
    |g: (String, Vec<String>)| group_problem(g)
}

/// Every joint group has a name and lists distinct, non-blank joints.
pub fn check_joint_groups(groups: &Vec<(String, Vec<String>)>) -> (r: Result<(), ModelError>)
    ensures
        reports(r, first_some(groups@, group_rule())),
{
    let ghost f = group_rule();
    proof {
        lemma_first_some_all(groups@, f);
    }
    let mut i: usize = 0;
    while i < groups.len()
        invariant
            f == group_rule(),
            i <= groups@.len(),
            first_some(groups@, f) == first_some(groups@.skip(i as int), f),
        decreases groups@.len() - i,
    {
        proof {
            lemma_first_some_skip(groups@, f, i as int);
        }
        let (group, names) = (&groups[i].0, &groups[i].1);
        if is_blank(group.as_str()) {
            return Err(ModelError::Validation("joint_groups contains an empty group name".to_owned()));
        }
        if names.len() == 0 {
            let mut m = String::new();
            append_str(&mut m, "joint group ");
            append_debug(&mut m, group.as_str());
            append_str(&mut m, " lists no joints");
            return Err(ModelError::Validation(m));
        }
        if has_blank_or_repeated(names) {
            let mut m = String::new();
            append_str(&mut m, "joint group ");
            append_debug(&mut m, group.as_str());
            append_str(&mut m, " has an empty or duplicate joint name");
            return Err(ModelError::Validation(m));
        }
        i = i + 1;
    }
    proof {
        lemma_first_some_all(groups@, f);
    }
    Ok(())
}

// ------------------------------------------------------ top-level safety

/// The top-level safety flags, each naming an action.
pub open spec fn is_action_flag(flag: Seq<char>) -> bool {
    flag == "estop_failure_action"@ || flag == "heartbeat_failure_action"@ || flag
        == "estop_unreadable_action"@
}

/// The actions a top-level safety flag may name.
pub open spec fn safety_actions() -> Seq<Seq<char>> {
    seq!["stop_motion"@, "shutdown_robot"@, "activate_software_estop"@, "request_process_termination"@, "none"@]
}

pub open spec fn safety_actions_list() -> Seq<char> {
    "[\"stop_motion\", \"shutdown_robot\", \"activate_software_estop\", \"request_process_termination\", \"none\"]"@
}

/// The problem of one top-level safety flag.
pub open spec fn top_safety_problem(entry: (String, Json)) -> Option<Seq<char>> {
    if is_action_flag(entry.0@) {
        match entry.1.view_json() {
            JsonV::Text(a) if safety_actions().contains(a) => None,
            v => Some(
                "safety flag "@ + debug_repr(entry.0@) + " must be one of "@
                    + safety_actions_list() + ", got "@ + json_text(v),
            ),
        }
    } else {
        Some("unknown top-level safety flag "@ + debug_repr(entry.0@))
    }
}

fn is_safety_action(a: &str) -> (r: bool)
    ensures
        r == safety_actions().contains(a@),
{
    let r = str_eq(a, "stop_motion") || str_eq(a, "shutdown_robot") || str_eq(
        a,
        "activate_software_estop",
    ) || str_eq(a, "request_process_termination") || str_eq(a, "none");
    proof {
        let s = safety_actions();
        if r {
            assert(s[0] == "stop_motion"@);
            assert(s[1] == "shutdown_robot"@);
            assert(s[2] == "activate_software_estop"@);
            assert(s[3] == "request_process_termination"@);
            assert(s[4] == "none"@);
        } else {
            assert(forall|i: int| 0 <= i < s.len() ==> s[i] != a@);
        }
    }
    r
}

pub open spec fn top_safety_rule() -> spec_fn((String, Json)) -> Option<Seq<char>> {
    |e: (String, Json)| top_safety_problem(e)
}

/// Every top-level safety flag is an action flag naming a known action.
pub fn check_top_level_safety(safety: &Vec<(String, Json)>) -> (r: Result<(), ModelError>)
    ensures
        reports(r, first_some(safety@, top_safety_rule())),
{
    let ghost f = top_safety_rule();
    proof {
        lemma_first_some_all(safety@, f);
    }
    let mut i: usize = 0;
    while i < safety.len()
        invariant
            f == top_safety_rule(),
            i <= safety@.len(),
            first_some(safety@, f) == first_some(safety@.skip(i as int), f),
        decreases safety@.len() - i,
    {
        proof {
            lemma_first_some_skip(safety@, f, i as int);
        }
        let flag = safety[i].0.as_str();
        let value = &safety[i].1;
        if str_eq(flag, "estop_failure_action") || str_eq(flag, "heartbeat_failure_action")
            || str_eq(flag, "estop_unreadable_action") {
            let known = match value {
                Json::String(a) => is_safety_action(a.as_str()),
                _ => false,
            };
            if !known {
                let mut m = String::new();
                append_str(&mut m, "safety flag ");
                append_debug(&mut m, flag);
                append_str(&mut m, " must be one of ");
                append_str(
                    &mut m,
                    "[\"stop_motion\", \"shutdown_robot\", \"activate_software_estop\", \"request_process_termination\", \"none\"]",
                );
                append_str(&mut m, ", got ");
                let shown = json_display(value);
                append_str(&mut m, shown.as_str());
                return Err(ModelError::Validation(m));
            }
        } else {
            let mut m = String::new();
            append_str(&mut m, "unknown top-level safety flag ");
            append_debug(&mut m, flag);
            return Err(ModelError::Validation(m));
        }
        i = i + 1;
    }
    proof {
        lemma_first_some_all(safety@, f);
    }
    Ok(())
}

/// The actions a top-level safety flag may name: `stop_motion`,
/// `shutdown_robot`, `activate_software_estop`,
/// `request_process_termination` and `none`.
pub open spec fn named_safety_action(v: JsonV) -> bool {
    v == JsonV::Text("stop_motion"@) || v == JsonV::Text("shutdown_robot"@) || v == JsonV::Text(
        "activate_software_estop"@,
    ) || v == JsonV::Text("request_process_termination"@) || v == JsonV::Text("none"@)
}

/// A top-level safety entry is accepted exactly when its flag is
/// `estop_failure_action`, `heartbeat_failure_action` or
/// `estop_unreadable_action` and its value is the name of one of the five
/// actions.
pub proof fn law_safety_entry_accepted_iff_flag_names_an_action(flag: String, value: Json)
    ensures
        top_safety_problem((flag, value)) is None <==> ((flag@ == "estop_failure_action"@ || flag@
            == "heartbeat_failure_action"@ || flag@ == "estop_unreadable_action"@)
            && named_safety_action(value.view_json())),
{
    let s = safety_actions();
    assert(s[0] == "stop_motion"@);
    assert(s[1] == "shutdown_robot"@);
    assert(s[2] == "activate_software_estop"@);
    assert(s[3] == "request_process_termination"@);
    assert(s[4] == "none"@);
    if let JsonV::Text(a) = value.view_json() {
        if s.contains(a) {
            let i = choose|i: int| 0 <= i < s.len() && s[i] == a;
            assert(named_safety_action(value.view_json()));
        }
        if named_safety_action(value.view_json()) {
            if a == "stop_motion"@ {
                assert(s[0] == a);
            } else if a == "shutdown_robot"@ {
                assert(s[1] == a);
            } else if a == "activate_software_estop"@ {
                assert(s[2] == a);
            } else if a == "request_process_termination"@ {
                assert(s[3] == a);
            } else {
                assert(s[4] == a);
            }
        }
    }
}

proof fn lemma_first_some_none_iff<T>(s: Seq<T>, f: spec_fn(T) -> Option<Seq<char>>)
    ensures
        first_some(s, f) is None <==> forall|i: int| 0 <= i < s.len() ==> (#[trigger] f(s[i])) is None,
    decreases s.len(),
{
    if s.len() > 0 {
        lemma_first_some_none_iff(s.drop_first(), f);
        assert forall|i: int| 1 <= i < s.len() implies #[trigger] f(s[i]) == f(s.drop_first()[i - 1]) by {}
        if forall|i: int| 0 <= i < s.len() ==> (#[trigger] f(s[i])) is None {
            assert forall|i: int| 0 <= i < s.drop_first().len() implies (#[trigger] f(s.drop_first()[i])) is None by {
                assert(s.drop_first()[i] == s[i + 1]);
            }
        }
    }
}

/// The top-level safety block passes exactly when every entry is an action
/// flag naming one of the five actions; see
/// [`law_safety_entry_accepted_iff_flag_names_an_action`].
pub proof fn law_safety_block_accepted_iff_every_flag_names_an_action(safety: Seq<(String, Json)>)
    ensures
        first_some(safety, top_safety_rule()) is None <==> forall|i: int|
            0 <= i < safety.len() ==> ((#[trigger] safety[i]).0@ == "estop_failure_action"@
                || safety[i].0@ == "heartbeat_failure_action"@ || safety[i].0@
                == "estop_unreadable_action"@) && named_safety_action(safety[i].1.view_json()),
{
    lemma_first_some_none_iff(safety, top_safety_rule());
    assert forall|i: int| 0 <= i < safety.len() implies (top_safety_rule()(#[trigger] safety[i]) is None
        <==> ((safety[i].0@ == "estop_failure_action"@ || safety[i].0@ == "heartbeat_failure_action"@
        || safety[i].0@ == "estop_unreadable_action"@) && named_safety_action(safety[i].1.view_json()))) by {
        law_safety_entry_accepted_iff_flag_names_an_action(safety[i].0, safety[i].1);
    }
}

// ------------------------------------------------------------ header

/// The problem of the document header: schema version, robot identity,
/// runtime settings, joint groups and top-level safety, in that order.
pub open spec fn header_problem(doc: ProfileDocument) -> Option<Seq<char>> {
    if doc.schema_version != SOURCE_SCHEMA_VERSION {
        Some(
            "unsupported schema_version "@ + spec_decimal(doc.schema_version as nat)
                + "; expected 1"@,
        )
    } else if blank(doc.robot.model@) {
        Some("robot.model cannot be empty"@)
    } else if doc.runtime.readiness@ != "required_components"@ {
        Some(
            "runtime.readiness must be one of [\"required_components\"], got "@ + debug_repr(
                doc.runtime.readiness@,
            ),
        )
    } else if doc.runtime.state_idle_timeout_ms < 100 {
        Some(
            "runtime.state_idle_timeout_ms must be at least 100, got "@ + spec_decimal(
                doc.runtime.state_idle_timeout_ms as nat,
            ),
        )
    } else if doc.robot.namespace is Some && spec_key_expression_problem(
        doc.robot.namespace->0@,
    ) is Some {
        Some(
            "robot.namespace "@ + debug_repr(doc.robot.namespace->0@) + " "@
                + spec_key_expression_problem(doc.robot.namespace->0@)->0,
        )
    } else if first_some(doc.joint_groups@, group_rule()) is Some {
        first_some(doc.joint_groups@, group_rule())
    } else {
        first_some(doc.safety@, top_safety_rule())
    }
}

/// Checks the document header; see [`header_problem`].
pub fn check_header(doc: &ProfileDocument) -> (r: Result<(), ModelError>)
    ensures
        reports(r, header_problem(*doc)),
{
    proof {
        reveal_strlit("required_components");
    }
    if doc.schema_version != SOURCE_SCHEMA_VERSION {
        let mut m = String::new();
        append_str(&mut m, "unsupported schema_version ");
        push_decimal(&mut m, doc.schema_version as u64);
        append_str(&mut m, "; expected 1");
        return Err(ModelError::Validation(m));
    }
    if is_blank(doc.robot.model.as_str()) {
        return Err(ModelError::Validation("robot.model cannot be empty".to_owned()));
    }
    if !str_eq(doc.runtime.readiness.as_str(), "required_components") {
        let mut m = String::new();
        append_str(&mut m, "runtime.readiness must be one of [\"required_components\"], got ");
        append_debug(&mut m, doc.runtime.readiness.as_str());
        return Err(ModelError::Validation(m));
    }
    if doc.runtime.state_idle_timeout_ms < 100 {
        let mut m = String::new();
        append_str(&mut m, "runtime.state_idle_timeout_ms must be at least 100, got ");
        push_decimal(&mut m, doc.runtime.state_idle_timeout_ms);
        return Err(ModelError::Validation(m));
    }
    if let Some(namespace) = &doc.robot.namespace {
        if let Some(problem) = key_expression_problem(namespace.as_str()) {
            let mut m = String::new();
            append_str(&mut m, "robot.namespace ");
            append_debug(&mut m, namespace.as_str());
            append_str(&mut m, " ");
            append_str(&mut m, problem);
            return Err(ModelError::Validation(m));
        }
    }
    check_joint_groups(&doc.joint_groups)?;
    check_top_level_safety(&doc.safety)
}

// ------------------------------------------------- runtime objects, front

pub open spec fn endpoint_kinds() -> Seq<Seq<char>> {
    seq!["topic"@, "subscriber_topic"@, "publisher_topic"@, "service"@, "channel"@]
}

pub open spec fn endpoint_kinds_list() -> Seq<char> {
    "[\"topic\", \"subscriber_topic\", \"publisher_topic\", \"service\", \"channel\"]"@
}

/// The problem of one endpoint of runtime object `name`.
pub open spec fn endpoint_problem(name: Seq<char>, e: (String, crate::types::EndpointConfig)) -> Option<Seq<char>> {
    let (role, ep) = e;
    if blank(role@) || blank(ep.kind@) || blank(ep.value@) {
        Some("runtime object "@ + debug_repr(name) + " has an invalid endpoint role "@ + debug_repr(role@))
    } else if spec_key_expression_problem(ep.value@) is Some {
        Some(
            "runtime object "@ + debug_repr(name) + " endpoint "@ + debug_repr(role@) + " value "@
                + debug_repr(ep.value@) + " "@ + spec_key_expression_problem(ep.value@)->0,
        )
    } else if !endpoint_kinds().contains(ep.kind@) {
        Some(
            "runtime object "@ + debug_repr(name) + " endpoint "@ + debug_repr(role@)
                + " has unknown kind "@ + debug_repr(ep.kind@) + "; the supported kinds are "@
                + endpoint_kinds_list(),
        )
    } else {
        None
    }
}

pub open spec fn endpoint_rule(name: Seq<char>) -> spec_fn((String, crate::types::EndpointConfig)) -> Option<Seq<char>> {
    |e: (String, crate::types::EndpointConfig)| endpoint_problem(name, e)
}

/// The problems of a runtime object that come before its safety map: its
/// name and driver, whether it may be disabled, whether it is reachable,
/// and its endpoints.
pub open spec fn front_problem(name: Seq<char>, c: ComponentConfig) -> Option<Seq<char>> {
    if blank(name) || blank(c.driver@) {
        Some("runtime object "@ + debug_repr(name) + " has an empty name or driver"@)
    } else if c.required && !c.enabled {
        Some("required runtime object "@ + debug_repr(name) + " cannot be disabled"@)
    } else if c.enabled && c.endpoints@.len() == 0 && !c.local {
        Some("enabled runtime object "@ + debug_repr(name) + " has no endpoints and is not local"@)
    } else if c.enabled && c.endpoints@.len() == 0 && c.dependencies@.len() == 0 {
        Some(
            "local runtime object "@ + debug_repr(name)
                + " has no endpoints and must declare dependencies from which its driver derives state or commands"@,
        )
    } else {
        first_some(c.endpoints@, endpoint_rule(name))
    }
}

fn is_endpoint_kind(k: &str) -> (r: bool)
    ensures
        r == endpoint_kinds().contains(k@),
{
    let r = str_eq(k, "topic") || str_eq(k, "subscriber_topic") || str_eq(k, "publisher_topic")
        || str_eq(k, "service") || str_eq(k, "channel");
    proof {
        let s = endpoint_kinds();
        if r {
            assert(s[0] == "topic"@);
            assert(s[1] == "subscriber_topic"@);
            assert(s[2] == "publisher_topic"@);
            assert(s[3] == "service"@);
            assert(s[4] == "channel"@);
        } else {
            assert(forall|i: int| 0 <= i < s.len() ==> s[i] != k@);
        }
    }
    r
}

/// Checks a runtime object up to its safety map; see [`front_problem`].
pub fn check_object_front(name: &str, c: &ComponentConfig) -> (r: Result<(), ModelError>)
    ensures
        reports(r, front_problem(name@, *c)),
{
    if is_blank(name) || is_blank(c.driver.as_str()) {
        let mut m = String::new();
        append_str(&mut m, "runtime object ");
        append_debug(&mut m, name);
        append_str(&mut m, " has an empty name or driver");
        return Err(ModelError::Validation(m));
    }
    if c.required && !c.enabled {
        let mut m = String::new();
        append_str(&mut m, "required runtime object ");
        append_debug(&mut m, name);
        append_str(&mut m, " cannot be disabled");
        return Err(ModelError::Validation(m));
    }
    if c.enabled && c.endpoints.len() == 0 {
        if !c.local {
            let mut m = String::new();
            append_str(&mut m, "enabled runtime object ");
            append_debug(&mut m, name);
            append_str(&mut m, " has no endpoints and is not local");
            return Err(ModelError::Validation(m));
        }
        if c.dependencies.len() == 0 {
            let mut m = String::new();
            append_str(&mut m, "local runtime object ");
            append_debug(&mut m, name);
            append_str(
                &mut m,
                " has no endpoints and must declare dependencies from which its driver derives state or commands",
            );
            return Err(ModelError::Validation(m));
        }
    }
    let ghost f = endpoint_rule(name@);
    let eps = &c.endpoints;
    proof {
        lemma_first_some_all(eps@, f);
    }
    let mut i: usize = 0;
    while i < eps.len()
        invariant
            f == endpoint_rule(name@),
            front_problem(name@, *c) == first_some(eps@, f),
            i <= eps@.len(),
            first_some(eps@, f) == first_some(eps@.skip(i as int), f),
        decreases eps@.len() - i,
    {
        proof {
            lemma_first_some_skip(eps@, f, i as int);
        }
        let role = eps[i].0.as_str();
        let kind = eps[i].1.kind.as_str();
        let value = eps[i].1.value.as_str();
        if is_blank(role) || is_blank(kind) || is_blank(value) {
            let mut m = String::new();
            append_str(&mut m, "runtime object ");
            append_debug(&mut m, name);
            append_str(&mut m, " has an invalid endpoint role ");
            append_debug(&mut m, role);
            return Err(ModelError::Validation(m));
        }
        if let Some(problem) = key_expression_problem(value) {
            let mut m = String::new();
            append_str(&mut m, "runtime object ");
            append_debug(&mut m, name);
            append_str(&mut m, " endpoint ");
            append_debug(&mut m, role);
            append_str(&mut m, " value ");
            append_debug(&mut m, value);
            append_str(&mut m, " ");
            append_str(&mut m, problem);
            return Err(ModelError::Validation(m));
        }
        if !is_endpoint_kind(kind) {
            let mut m = String::new();
            append_str(&mut m, "runtime object ");
            append_debug(&mut m, name);
            append_str(&mut m, " endpoint ");
            append_debug(&mut m, role);
            append_str(&mut m, " has unknown kind ");
            append_debug(&mut m, kind);
            append_str(&mut m, "; the supported kinds are ");
            append_str(
                &mut m,
                "[\"topic\", \"subscriber_topic\", \"publisher_topic\", \"service\", \"channel\"]",
            );
            return Err(ModelError::Validation(m));
        }
        i = i + 1;
    }
    proof {
        lemma_first_some_all(eps@, f);
    }
    Ok(())
}

// -------------------------------------------------- runtime objects, back

/// The capability vocabulary built into this version.
pub open spec fn built_in_capabilities() -> Seq<Seq<char>> {
    seq![
        "joint_state"@,
        "joint_position_command"@,
        "joint_velocity_command"@,
        "managed_joint_motion"@,
        "trajectory_execution"@,
        "cartesian_velocity_2d"@,
        "gripper"@,
        "mode_control"@,
        "temperature"@,
        "force_torque"@,
        "camera_stream"@,
        "imu"@,
        "lidar_2d"@,
        "lidar_3d"@,
        "ultrasonic"@,
        "emergency_stop"@,
        "heartbeat"@,
        "battery"@,
    ]
}

fn built_in_table() -> (r: &'static [&'static str])
    ensures
        r@.len() == built_in_capabilities().len(),
        forall|i: int| 0 <= i < r@.len() ==> (#[trigger] r@[i])@ == built_in_capabilities()[i],
{
    &[
        "joint_state",
        "joint_position_command",
        "joint_velocity_command",
        "managed_joint_motion",
        "trajectory_execution",
        "cartesian_velocity_2d",
        "gripper",
        "mode_control",
        "temperature",
        "force_torque",
        "camera_stream",
        "imu",
        "lidar_2d",
        "lidar_3d",
        "ultrasonic",
        "emergency_stop",
        "heartbeat",
        "battery",
    ]
}

/// Whether `id` is a built-in capability.
pub fn is_built_in(id: &str) -> (r: bool)
    ensures
        r == built_in_capabilities().contains(id@),
{
    let t = built_in_table();
    let mut i: usize = 0;
    while i < t.len()
        invariant
            t@.len() == built_in_capabilities().len(),
            forall|j: int| 0 <= j < t@.len() ==> (#[trigger] t@[j])@ == built_in_capabilities()[j],
            i <= t@.len(),
            forall|j: int| 0 <= j < i ==> #[trigger] built_in_capabilities()[j] != id@,
        decreases t@.len() - i,
    {
        if str_eq(t[i], id) {
            assert(built_in_capabilities()[i as int] == id@);
            return true;
        }
        i = i + 1;
    }
    false
}

/// Capability `j` repeats an earlier id.
pub open spec fn repeats_capability(caps: Seq<CapabilitySpec>, j: int) -> bool {
    exists|k: int| 0 <= k < j && #[trigger] caps[k].id@ == caps[j].id@
}

/// The first capability problem from position `j` on: a repeated id, or an
/// id that is neither built in nor a valid extension id.
pub open spec fn capability_problem(name: Seq<char>, caps: Seq<CapabilitySpec>, j: int) -> Option<Seq<char>>
    decreases caps.len() - j,
{
    if j < 0 || j >= caps.len() {
        None
    } else if repeats_capability(caps, j) {
        Some("runtime object "@ + debug_repr(name) + " repeats capability "@ + debug_repr(caps[j].id@))
    } else if !built_in_capabilities().contains(caps[j].id@) && !spec_valid_extension_id(caps[j].id@) {
        Some("runtime object "@ + debug_repr(name) + " has invalid capability id "@ + debug_repr(caps[j].id@))
    } else {
        capability_problem(name, caps, j + 1)
    }
}

pub open spec fn joint_source_urdf() -> Seq<char> {
    "urdf"@
}

/// The problem of a joint configuration: blank or repeated names, a group
/// without `source: urdf`, no joints at all, `source: urdf` without a
/// group, or another source.
pub open spec fn joints_problem(name: Seq<char>, joints: Option<crate::types::JointConfig>) -> Option<Seq<char>> {
    match joints {
        None => None,
        Some(j) => if blank_or_repeated(j.names@) {
            Some("runtime object "@ + debug_repr(name) + " has an empty or duplicate joint name"@)
        } else {
            match j.source {
                None => if j.group is Some {
                    Some(
                        "runtime object "@ + debug_repr(name)
                            + " sets a joint group without `source: urdf`"@,
                    )
                } else if j.names@.len() == 0 {
                    Some(
                        "runtime object "@ + debug_repr(name)
                            + " joint config needs names or a URDF group"@,
                    )
                } else {
                    None
                },
                Some(source) => if source@ == joint_source_urdf() {
                    if j.group is None || j.group->0@.len() == 0 {
                        Some(
                            "runtime object "@ + debug_repr(name)
                                + " declares `source: urdf` without a joint group"@,
                        )
                    } else {
                        None
                    }
                } else {
                    Some(
                        "runtime object "@ + debug_repr(name) + " has unsupported joint source "@
                            + debug_repr(source@) + "; the only supported source is \"urdf\""@,
                    )
                },
            }
        },
    }
}

/// The problems of a runtime object that come after its metadata and
/// poses: its capabilities, then its joint configuration.
pub open spec fn back_problem(name: Seq<char>, c: ComponentConfig) -> Option<Seq<char>> {
    match capability_problem(name, c.capabilities@, 0) {
        Some(m) => Some(m),
        None => joints_problem(name, c.joints),
    }
}

fn check_joints(name: &str, joints: &Option<crate::types::JointConfig>) -> (r: Result<(), ModelError>)
    ensures
        reports(r, joints_problem(name@, *joints)),
{
    proof {
        reveal_strlit("urdf");
    }
    let j = match joints {
        None => {
            return Ok(());
        },
        Some(j) => j,
    };
    if has_blank_or_repeated(&j.names) {
        let mut m = String::new();
        append_str(&mut m, "runtime object ");
        append_debug(&mut m, name);
        append_str(&mut m, " has an empty or duplicate joint name");
        return Err(ModelError::Validation(m));
    }
    match &j.source {
        None => {
            if j.group.is_some() {
                let mut m = String::new();
                append_str(&mut m, "runtime object ");
                append_debug(&mut m, name);
                append_str(&mut m, " sets a joint group without `source: urdf`");
                return Err(ModelError::Validation(m));
            }
            if j.names.len() == 0 {
                let mut m = String::new();
                append_str(&mut m, "runtime object ");
                append_debug(&mut m, name);
                append_str(&mut m, " joint config needs names or a URDF group");
                return Err(ModelError::Validation(m));
            }
            Ok(())
        },
        Some(source) => {
            if str_eq(source.as_str(), "urdf") {
                let missing = match &j.group {
                    None => true,
                    Some(g) => g.as_str().is_empty(),
                };
                if missing {
                    let mut m = String::new();
                    append_str(&mut m, "runtime object ");
                    append_debug(&mut m, name);
                    append_str(&mut m, " declares `source: urdf` without a joint group");
                    return Err(ModelError::Validation(m));
                }
                Ok(())
            } else {
                let mut m = String::new();
                append_str(&mut m, "runtime object ");
                append_debug(&mut m, name);
                append_str(&mut m, " has unsupported joint source ");
                append_debug(&mut m, source.as_str());
                append_str(&mut m, "; the only supported source is \"urdf\"");
                Err(ModelError::Validation(m))
            }
        },
    }
}

/// Checks a runtime object's capabilities and joints; see
/// [`back_problem`].
pub fn check_object_back(name: &str, c: &ComponentConfig) -> (r: Result<(), ModelError>)
    ensures
        reports(r, back_problem(name@, *c)),
{
    let caps = &c.capabilities;
    let mut i: usize = 0;
    while i < caps.len()
        invariant
            caps@ == c.capabilities@,
            i <= caps@.len(),
            capability_problem(name@, caps@, 0) == capability_problem(name@, caps@, i as int),
        decreases caps@.len() - i,
    {
        let id = caps[i].id.as_str();
        let mut k: usize = 0;
        while k < i
            invariant
                caps@ == c.capabilities@,
                capability_problem(name@, caps@, 0) == capability_problem(name@, caps@, i as int),
                i < caps@.len(),
                id@ == caps@[i as int].id@,
                k <= i,
                forall|b: int| 0 <= b < k ==> #[trigger] caps@[b].id@ != caps@[i as int].id@,
            decreases i - k,
        {
            if str_eq(caps[k].id.as_str(), id) {
                assert(repeats_capability(caps@, i as int));
                let mut m = String::new();
                append_str(&mut m, "runtime object ");
                append_debug(&mut m, name);
                append_str(&mut m, " repeats capability ");
                append_debug(&mut m, id);
                return Err(ModelError::Validation(m));
            }
            k = k + 1;
        }
        if !is_built_in(id) && !valid_extension_id(id) {
            let mut m = String::new();
            append_str(&mut m, "runtime object ");
            append_debug(&mut m, name);
            append_str(&mut m, " has invalid capability id ");
            append_debug(&mut m, id);
            return Err(ModelError::Validation(m));
        }
        i = i + 1;
    }
    check_joints(name, &c.joints)
}

// ------------------------------------------------------ whole document

/// Object `i` of `names` repeats an earlier name.
pub open spec fn duplicate_at(names: Seq<String>, i: int) -> bool {
    exists|k: int| 0 <= k < i && #[trigger] names[k]@ == names[i]@
}

/// Runtime object names are unique across components and sensors: the
/// object at position `i` must not repeat an earlier one.
pub fn check_unique_object(names: &Vec<String>, i: usize) -> (r: Result<(), ModelError>)
    requires
        i < names@.len(),
    ensures
        reports(
            r,
            if duplicate_at(names@, i as int) {
                Some("duplicate runtime object "@ + debug_repr(names@[i as int]@))
            } else {
                None
            },
        ),
{
    let mut k: usize = 0;
    while k < i
        invariant
            i < names@.len(),
            k <= i,
            forall|b: int| 0 <= b < k ==> #[trigger] names@[b]@ != names@[i as int]@,
        decreases i - k,
    {
        if str_eq(names[k].as_str(), names[i].as_str()) {
            assert(duplicate_at(names@, i as int));
            let mut m = String::new();
            append_str(&mut m, "duplicate runtime object ");
            append_debug(&mut m, names[i].as_str());
            return Err(ModelError::Validation(m));
        }
        k = k + 1;
    }
    Ok(())
}

// ----------------------------------------------------- publisher topics

/// The publisher of each topic seen so far: `(object, role)`, the latest
/// registration winning.
pub open spec fn owners_view(s: Seq<(String, String, String)>) -> Map<Seq<char>, (Seq<char>, Seq<char>)>
    decreases s.len(),
{
    if s.len() == 0 {
        Map::empty()
    } else {
        owners_view(s.drop_last()).insert(s.last().0@, (s.last().1@, s.last().2@))
    }
}

pub open spec fn clash_message(topic: Seq<char>, owner: (Seq<char>, Seq<char>), name: Seq<char>, role: Seq<char>) -> Seq<char> {
    "publisher topic "@ + debug_repr(topic) + " is used by both "@ + debug_repr(owner.0) + " ("@
        + debug_repr(owner.1) + ") and "@ + debug_repr(name) + " ("@ + debug_repr(role) + ")"@
}

/// Registers the publisher endpoints of object `name` in order; a topic
/// that another object already publishes on is a clash.
pub open spec fn publish_endpoints(
    owners: Map<Seq<char>, (Seq<char>, Seq<char>)>,
    name: Seq<char>,
    endpoints: Seq<(String, crate::types::EndpointConfig)>,
) -> Result<Map<Seq<char>, (Seq<char>, Seq<char>)>, Seq<char>>
    decreases endpoints.len(),
{
    if endpoints.len() == 0 {
        Ok(owners)
    } else {
        let role = endpoints[0].0@;
        let ep = endpoints[0].1;
        if ep.kind@ != "publisher_topic"@ {
            publish_endpoints(owners, name, endpoints.drop_first())
        } else if owners.contains_key(ep.value@) && owners[ep.value@].0 != name {
            Err(clash_message(ep.value@, owners[ep.value@], name, role))
        } else {
            publish_endpoints(owners.insert(ep.value@, (name, role)), name, endpoints.drop_first())
        }
    }
}

/// The first publisher clash among the enabled objects, in order.
pub open spec fn publisher_clash(
    owners: Map<Seq<char>, (Seq<char>, Seq<char>)>,
    objects: Seq<(String, ComponentConfig)>,
) -> Option<Seq<char>>
    decreases objects.len(),
{
    if objects.len() == 0 {
        None
    } else if !objects[0].1.enabled {
        publisher_clash(owners, objects.drop_first())
    } else {
        match publish_endpoints(owners, objects[0].0@, objects[0].1.endpoints@) {
            Err(m) => Some(m),
            Ok(next) => publisher_clash(next, objects.drop_first()),
        }
    }
}

fn owner_of(owners: &Vec<(String, String, String)>, topic: &str) -> (r: Option<(String, String)>)
    ensures
        match r {
            Some((n, role)) => owners_view(owners@).contains_key(topic@) && owners_view(owners@)[topic@]
                == (n@, role@),
            None => !owners_view(owners@).contains_key(topic@),
        },
{
    let mut i: usize = owners.len();
    assert(owners@.take(i as int) =~= owners@);
    while i > 0
        invariant
            i <= owners@.len(),
            owners_view(owners@).contains_key(topic@) == owners_view(owners@.take(i as int)).contains_key(topic@),
            owners_view(owners@).contains_key(topic@) ==> owners_view(owners@)[topic@] == owners_view(owners@.take(i as int))[topic@],
        decreases i,
    {
        assert(owners@.take(i as int).drop_last() =~= owners@.take(i - 1));
        assert(owners@.take(i as int).last() == owners@[i - 1]);
        if str_eq(owners[i - 1].0.as_str(), topic) {
            return Some((owners[i - 1].1.clone(), owners[i - 1].2.clone()));
        }
        i = i - 1;
    }
    None
}

/// No two enabled runtime objects publish on one topic. `objects` are the
/// components and sensors together, in name order.
pub fn check_publisher_topics(objects: &Vec<(String, ComponentConfig)>) -> (r: Result<(), ModelError>)
    ensures
        reports(r, publisher_clash(Map::empty(), objects@)),
{
    proof {
        reveal_strlit("publisher_topic");
    }
    let mut owners: Vec<(String, String, String)> = Vec::new();
    let mut i: usize = 0;
    assert(objects@.skip(0) =~= objects@);
    while i < objects.len()
        invariant
            i <= objects@.len(),
            publisher_clash(Map::empty(), objects@) == publisher_clash(owners_view(owners@), objects@.skip(i as int)),
        decreases objects@.len() - i,
    {
        assert(objects@.skip(i as int).drop_first() =~= objects@.skip(i + 1));
        assert(objects@.skip(i as int)[0] == objects@[i as int]);
        let name = objects[i].0.as_str();
        let c = &objects[i].1;
        if c.enabled {
            let eps = &c.endpoints;
            let ghost start = owners_view(owners@);
            let mut j: usize = 0;
            assert(eps@.skip(0) =~= eps@);
            while j < eps.len()
                invariant
                    i < objects@.len(),
                    objects@[i as int].1.enabled,
                    eps@ == objects@[i as int].1.endpoints@,
                    objects@.skip(i as int)[0] == objects@[i as int],
                    publisher_clash(Map::empty(), objects@) == publisher_clash(start, objects@.skip(i as int)),
                    j <= eps@.len(),
                    name@ == objects@[i as int].0@,
                    publish_endpoints(start, name@, eps@) == publish_endpoints(owners_view(owners@), name@, eps@.skip(j as int)),
                decreases eps@.len() - j,
            {
                proof {
                    reveal_strlit("publisher_topic");
                }
                assert(eps@.skip(j as int).drop_first() =~= eps@.skip(j + 1));
                assert(eps@.skip(j as int)[0] == eps@[j as int]);
                if str_eq(eps[j].1.kind.as_str(), "publisher_topic") {
                    let topic = eps[j].1.value.as_str();
                    let role = eps[j].0.as_str();
                    match owner_of(&owners, topic) {
                        Some((owner, owner_role)) => {
                            if !str_eq(owner.as_str(), name) {
                                let mut m = String::new();
                                append_str(&mut m, "publisher topic ");
                                append_debug(&mut m, topic);
                                append_str(&mut m, " is used by both ");
                                append_debug(&mut m, owner.as_str());
                                append_str(&mut m, " (");
                                append_debug(&mut m, owner_role.as_str());
                                append_str(&mut m, ") and ");
                                append_debug(&mut m, name);
                                append_str(&mut m, " (");
                                append_debug(&mut m, role);
                                append_str(&mut m, ")");
                                return Err(ModelError::Validation(m));
                            }
                        },
                        None => {},
                    }
                    let ghost before = owners@;
                    owners.push((topic.to_owned(), name.to_owned(), role.to_owned()));
                    assert(owners@.drop_last() =~= before);
                }
                j = j + 1;
            }
            assert(eps@.skip(eps@.len() as int) =~= Seq::<(String, crate::types::EndpointConfig)>::empty());
        }
        i = i + 1;
    }
    assert(objects@.skip(objects@.len() as int) =~= Seq::<(String, ComponentConfig)>::empty());
    Ok(())
}

// ------------------------------------------------------- dependencies

/// Some object is named `d`.
pub open spec fn names_object(objects: Seq<(String, ComponentConfig)>, d: Seq<char>) -> bool {
    exists|k: int| 0 <= k < objects.len() && #[trigger] objects[k].0@ == d
}

pub open spec fn dependency_rule(objects: Seq<(String, ComponentConfig)>, name: Seq<char>) -> spec_fn(String) -> Option<Seq<char>> {
    |d: String| if names_object(objects, d@) {
        None
    } else {
        Some(debug_repr(name) + " depends on unknown object "@ + debug_repr(d@))
    }
}

pub open spec fn object_dependency_rule(objects: Seq<(String, ComponentConfig)>) -> spec_fn((String, ComponentConfig)) -> Option<Seq<char>> {
    |o: (String, ComponentConfig)| first_some(o.1.dependencies@, dependency_rule(objects, o.0@))
}

fn find_object(objects: &Vec<(String, ComponentConfig)>, d: &str) -> (r: bool)
    ensures
        r == names_object(objects@, d@),
{
    let mut k: usize = 0;
    while k < objects.len()
        invariant
            k <= objects@.len(),
            forall|b: int| 0 <= b < k ==> #[trigger] objects@[b].0@ != d@,
        decreases objects@.len() - k,
    {
        if str_eq(objects[k].0.as_str(), d) {
            return true;
        }
        k = k + 1;
    }
    false
}

/// Every dependency names a runtime object. `objects` are the components
/// and sensors together, in name order.
pub fn check_dependencies(objects: &Vec<(String, ComponentConfig)>) -> (r: Result<(), ModelError>)
    ensures
        reports(r, first_some(objects@, object_dependency_rule(objects@))),
{
    let ghost f = object_dependency_rule(objects@);
    proof {
        lemma_first_some_all(objects@, f);
    }
    let mut i: usize = 0;
    while i < objects.len()
        invariant
            f == object_dependency_rule(objects@),
            i <= objects@.len(),
            first_some(objects@, f) == first_some(objects@.skip(i as int), f),
        decreases objects@.len() - i,
    {
        proof {
            lemma_first_some_skip(objects@, f, i as int);
        }
        let name = objects[i].0.as_str();
        let deps = &objects[i].1.dependencies;
        let ghost g = dependency_rule(objects@, name@);
        proof {
            lemma_first_some_all(deps@, g);
        }
        let mut j: usize = 0;
        while j < deps.len()
            invariant
                g == dependency_rule(objects@, name@),
                f == object_dependency_rule(objects@),
                name@ == objects@[i as int].0@,
                deps@ == objects@[i as int].1.dependencies@,
                first_some(objects@, f) == first_some(objects@.skip(i as int), f),
                i < objects@.len(),
                j <= deps@.len(),
                first_some(deps@, g) == first_some(deps@.skip(j as int), g),
            decreases deps@.len() - j,
        {
            proof {
                lemma_first_some_skip(deps@, g, j as int);
                lemma_first_some_skip(objects@, f, i as int);
            }
            if !find_object(objects, deps[j].as_str()) {
                let mut m = String::new();
                append_debug(&mut m, name);
                append_str(&mut m, " depends on unknown object ");
                append_debug(&mut m, deps[j].as_str());
                return Err(ModelError::Validation(m));
            }
            j = j + 1;
        }
        proof {
            lemma_first_some_all(deps@, g);
        }
        i = i + 1;
    }
    proof {
        lemma_first_some_all(objects@, f);
    }
    Ok(())
}

// ------------------------------------------------------- joint ownership

/// Which enabled commanding object claimed each joint so far.
pub struct JointClaims {
    claims: Vec<(String, String)>,
}

/// The latest claim of each joint.
pub open spec fn claims_view(s: Seq<(String, String)>) -> Map<Seq<char>, Seq<char>>
    decreases s.len(),
{
    if s.len() == 0 {
        Map::empty()
    } else {
        claims_view(s.drop_last()).insert(s.last().0@, s.last().1@)
    }
}

/// The capabilities that only read joint state.
pub open spec fn observer_capabilities() -> Seq<Seq<char>> {
    seq!["joint_state"@, "temperature"@, "force_torque"@]
}

/// An object whose capabilities only read joint state commands nothing.
pub open spec fn is_observer(c: ComponentConfig) -> bool {
    c.capabilities@.len() > 0 && forall|i: int|
        0 <= i < c.capabilities@.len() ==> observer_capabilities().contains(
            #[trigger] c.capabilities@[i].id@,
        )
}

pub open spec fn claim_message(joint: Seq<char>, owner: Seq<char>, name: Seq<char>) -> Seq<char> {
    "joint "@ + debug_repr(joint) + " is claimed by both "@ + debug_repr(owner) + " and "@
        + debug_repr(name)
        + "; a joint belongs to exactly one enabled commanding runtime object"@
}

/// Claims `names` for object `name`, in order; a joint claimed before is a
/// conflict.
pub open spec fn claim_names(claims: Map<Seq<char>, Seq<char>>, name: Seq<char>, names: Seq<String>) -> Result<
    Map<Seq<char>, Seq<char>>,
    Seq<char>,
>
    decreases names.len(),
{
    if names.len() == 0 {
        Ok(claims)
    } else if claims.contains_key(names[0]@) {
        Err(claim_message(names[0]@, claims[names[0]@], name))
    } else {
        claim_names(claims.insert(names[0]@, name), name, names.drop_first())
    }
}

/// An enabled object that commands its joints claims every one of them.
pub open spec fn claim_object(claims: Map<Seq<char>, Seq<char>>, name: Seq<char>, c: ComponentConfig) -> Result<
    Map<Seq<char>, Seq<char>>,
    Seq<char>,
> {
    if !c.enabled || is_observer(c) || c.joints is None {
        Ok(claims)
    } else {
        claim_names(claims, name, c.joints->0.names@)
    }
}

impl JointClaims {
    pub closed spec fn view(&self) -> Map<Seq<char>, Seq<char>> {
        claims_view(self.claims@)
    }

    /// No joint claimed yet.
    pub fn new() -> (r: JointClaims)
        ensures
            r@ == Map::<Seq<char>, Seq<char>>::empty(),
    {
        JointClaims { claims: Vec::new() }
    }

    fn owner(&self, joint: &str) -> (r: Option<String>)
        ensures
            match r {
                Some(o) => self@.contains_key(joint@) && self@[joint@] == o@,
                None => !self@.contains_key(joint@),
            },
    {
        let mut i: usize = self.claims.len();
        assert(self.claims@.take(i as int) =~= self.claims@);
        while i > 0
            invariant
                i <= self.claims@.len(),
                self@.contains_key(joint@) == claims_view(self.claims@.take(i as int)).contains_key(joint@),
                self@.contains_key(joint@) ==> self@[joint@] == claims_view(self.claims@.take(i as int))[joint@],
            decreases i,
        {
            assert(self.claims@.take(i as int).drop_last() =~= self.claims@.take(i - 1));
            assert(self.claims@.take(i as int).last() == self.claims@[i - 1]);
            if str_eq(self.claims[i - 1].0.as_str(), joint) {
                return Some(self.claims[i - 1].1.clone());
            }
            i = i - 1;
        }
        None
    }

    /// Records the joints of runtime object `name`; see [`claim_object`].
    pub fn claim(&mut self, name: &str, c: &ComponentConfig) -> (r: Result<(), ModelError>)
        ensures
            match claim_object(old(self)@, name@, *c) {
                Ok(m) => r is Ok && final(self)@ == m,
                Err(msg) => r matches Err(ModelError::Validation(e)) && e@ == msg,
            },
    {
        if !c.enabled || is_observer_object(c) {
            return Ok(());
        }
        let joints = match &c.joints {
            None => {
                return Ok(());
            },
            Some(j) => j,
        };
        let names = &joints.names;
        let mut i: usize = 0;
        assert(names@.skip(0) =~= names@);
        while i < names.len()
            invariant
                claim_object(old(self)@, name@, *c) == claim_names(old(self)@, name@, names@),
                i <= names@.len(),
                claim_names(old(self)@, name@, names@) == claim_names(self@, name@, names@.skip(i as int)),
            decreases names@.len() - i,
        {
            assert(names@.skip(i as int).drop_first() =~= names@.skip(i + 1));
            assert(names@.skip(i as int)[0] == names@[i as int]);
            let joint = names[i].as_str();
            if let Some(owner) = self.owner(joint) {
                let mut m = String::new();
                append_str(&mut m, "joint ");
                append_debug(&mut m, joint);
                append_str(&mut m, " is claimed by both ");
                append_debug(&mut m, owner.as_str());
                append_str(&mut m, " and ");
                append_debug(&mut m, name);
                append_str(
                    &mut m,
                    "; a joint belongs to exactly one enabled commanding runtime object",
                );
                return Err(ModelError::Validation(m));
            }
            let ghost before = self.claims@;
            self.claims.push((joint.to_owned(), name.to_owned()));
            assert(self.claims@.drop_last() =~= before);
            i = i + 1;
        }
        assert(names@.skip(names@.len() as int) =~= Seq::<String>::empty());
        Ok(())
    }
}

fn is_observer_capability(id: &str) -> (r: bool)
    ensures
        r == observer_capabilities().contains(id@),
{
    let r = str_eq(id, "joint_state") || str_eq(id, "temperature") || str_eq(id, "force_torque");
    proof {
        let s = observer_capabilities();
        if r {
            assert(s[0] == "joint_state"@);
            assert(s[1] == "temperature"@);
            assert(s[2] == "force_torque"@);
        } else {
            assert(forall|i: int| 0 <= i < s.len() ==> s[i] != id@);
        }
    }
    r
}

fn is_observer_object(c: &ComponentConfig) -> (r: bool)
    ensures
        r == is_observer(*c),
{
    let caps = &c.capabilities;
    if caps.len() == 0 {
        return false;
    }
    let mut i: usize = 0;
    while i < caps.len()
        invariant
            caps@ == c.capabilities@,
            i <= caps@.len(),
            forall|j: int| 0 <= j < i ==> observer_capabilities().contains(#[trigger] caps@[j].id@),
        decreases caps@.len() - i,
    {
        if !is_observer_capability(caps[i].id.as_str()) {
            return false;
        }
        i = i + 1;
    }
    true
}

// ---------------------------------------------------- per-object safety

/// A range check on a numeric safety flag, made where numbers are read as
/// floating point.
#[derive(Debug, Clone, Copy, PartialEq, Eq, Structural)]
pub enum NumericCheck {
    /// `low_battery_percentage` in (0, 95].
    LowBattery,
    /// `battery_hysteresis_percentage` in [1, 50].
    BatteryHysteresis,
    /// `timeout_seconds` as a heartbeat dead-man timeout, in [0.05, 10].
    HeartbeatTimeout,
    /// `timeout_seconds` as an E-stop poll interval, in [0.001, 1].
    EstopPoll,
    /// `state_max_age_seconds` in [0.1, 60].
    StateMaxAge,
}

/// Some capability of `c` is `id`.
pub open spec fn has_capability(c: ComponentConfig, id: Seq<char>) -> bool {
    exists|i: int| 0 <= i < c.capabilities@.len() && #[trigger] c.capabilities@[i].id@ == id
}

/// The safety roles a runtime object holds, through its standard driver or
/// the capability its monitor is keyed on.
pub open spec fn holds_estop(c: ComponentConfig) -> bool {
    c.driver@ == "standard.estop"@ || has_capability(c, "emergency_stop"@)
}

pub open spec fn holds_heartbeat(c: ComponentConfig) -> bool {
    c.driver@ == "standard.heartbeat"@ || has_capability(c, "heartbeat"@)
}

pub open spec fn holds_battery(c: ComponentConfig) -> bool {
    c.driver@ == "standard.battery"@ || has_capability(c, "battery"@)
}

/// The flags each safety role consumes.
pub open spec fn estop_flag(f: Seq<char>) -> bool {
    f == "monitoring"@ || f == "estop_query_name"@ || f == "timeout_seconds"@ || f
        == "state_max_age_seconds"@ || f == "estop_state_periodic"@
}

pub open spec fn heartbeat_flag(f: Seq<char>) -> bool {
    f == "monitoring"@ || f == "heartbeat_topic"@ || f == "timeout_seconds"@
}

pub open spec fn battery_flag(f: Seq<char>) -> bool {
    f == "monitoring"@ || f == "low_battery_percentage"@ || f == "battery_hysteresis_percentage"@
}

/// The drivers of the roles that consume `f`, as a debug-printed list.
pub open spec fn consumers_list(f: Seq<char>) -> Seq<char> {
    if f == "monitoring"@ {
        "[\"standard.estop\", \"standard.heartbeat\", \"standard.battery\"]"@
    } else if f == "timeout_seconds"@ {
        "[\"standard.estop\", \"standard.heartbeat\"]"@
    } else if heartbeat_flag(f) {
        "[\"standard.heartbeat\"]"@
    } else if battery_flag(f) {
        "[\"standard.battery\"]"@
    } else {
        "[\"standard.estop\"]"@
    }
}

/// What a per-object safety flag asks for: an error, or the numeric range
/// checks still to make on its value (in order).
pub open spec fn spec_safety_flag(name: Seq<char>, c: ComponentConfig, flag: Seq<char>, value: JsonV) -> Result<
    Seq<NumericCheck>,
    Seq<char>,
> {
    let obj = "runtime object "@ + debug_repr(name);
    if flag == "monitoring_enabled"@ {
        Err(obj + " uses legacy safety flag \"monitoring_enabled\"; the canonical spelling is \"monitoring\""@)
    } else if !(estop_flag(flag) || heartbeat_flag(flag) || battery_flag(flag)) {
        Err(obj + " has unknown safety flag "@ + debug_repr(flag))
    } else if !((estop_flag(flag) && holds_estop(c)) || (heartbeat_flag(flag) && holds_heartbeat(c))
        || (battery_flag(flag) && holds_battery(c))) {
        Err(
            obj + " (driver "@ + debug_repr(c.driver@) + ") sets safety flag "@ + debug_repr(flag)
                + ", which only "@ + consumers_list(flag)
                + " components consume; it would be ignored here"@,
        )
    } else if flag == "monitoring"@ {
        if value is Bool {
            Ok(Seq::empty())
        } else {
            Err(obj + " safety flag \"monitoring\" must be a boolean"@)
        }
    } else if flag == "low_battery_percentage"@ {
        Ok(seq![NumericCheck::LowBattery])
    } else if flag == "battery_hysteresis_percentage"@ {
        Ok(seq![NumericCheck::BatteryHysteresis])
    } else if flag == "estop_query_name"@ || flag == "heartbeat_topic"@ {
        match value {
            JsonV::Text(t) if !blank(t) => match crate::vega::side_lookup(c.endpoints@, flag) {
                Some(ep) if ep.value@ != t => Err(
                    obj + " safety flag "@ + debug_repr(flag) + " ("@ + debug_repr(t)
                        + ") contradicts endpoint "@ + debug_repr(flag) + " ("@ + debug_repr(
                        ep.value@,
                    ) + ")"@,
                ),
                _ => Ok(Seq::empty()),
            },
            _ => Err(obj + " safety flag "@ + debug_repr(flag) + " must be a non-empty string"@),
        }
    } else if flag == "timeout_seconds"@ {
        Ok(
            (if holds_heartbeat(c) {
                seq![NumericCheck::HeartbeatTimeout]
            } else {
                Seq::empty()
            }) + (if holds_estop(c) {
                seq![NumericCheck::EstopPoll]
            } else {
                Seq::empty()
            }),
        )
    } else if flag == "state_max_age_seconds"@ {
        Ok(seq![NumericCheck::StateMaxAge])
    } else if value is Bool {
        Ok(Seq::empty())
    } else {
        Err(obj + " safety flag \"estop_state_periodic\" must be a boolean"@)
    }
}

fn has_capability_id(c: &ComponentConfig, id: &str) -> (r: bool)
    ensures
        r == has_capability(*c, id@),
{
    let caps = &c.capabilities;
    let mut i: usize = 0;
    while i < caps.len()
        invariant
            caps@ == c.capabilities@,
            i <= caps@.len(),
            forall|j: int| 0 <= j < i ==> #[trigger] caps@[j].id@ != id@,
        decreases caps@.len() - i,
    {
        if str_eq(caps[i].id.as_str(), id) {
            return true;
        }
        i = i + 1;
    }
    false
}

fn endpoint_value<'a>(endpoints: &'a Vec<(String, crate::types::EndpointConfig)>, role: &str) -> (r: Option<&'a String>)
    ensures
        match (r, crate::vega::side_lookup(endpoints@, role@)) {
            (Some(v), Some(ep)) => v@ == ep.value@,
            (None, None) => true,
            _ => false,
        },
{
    let mut i: usize = 0;
    assert(endpoints@.skip(0) =~= endpoints@);
    while i < endpoints.len()
        invariant
            i <= endpoints@.len(),
            crate::vega::side_lookup(endpoints@, role@) == crate::vega::side_lookup(endpoints@.skip(i as int), role@),
        decreases endpoints@.len() - i,
    {
        assert(endpoints@.skip(i as int).drop_first() =~= endpoints@.skip(i + 1));
        if str_eq(endpoints[i].0.as_str(), role) {
            return Some(&endpoints[i].1.value);
        }
        i = i + 1;
    }
    None
}

/// Checks one safety flag of runtime object `name`; see
/// [`spec_safety_flag`]. Returns the numeric range checks still to make.
pub fn check_safety_flag(name: &str, c: &ComponentConfig, flag: &str, value: &Json) -> (r: Result<
    Vec<NumericCheck>,
    ModelError,
>)
    ensures
        match (r, spec_safety_flag(name@, *c, flag@, value.view_json())) {
            (Ok(v), Ok(w)) => v@ == w,
            (Err(e), Err(m)) => e matches ModelError::Validation(t) && t@ == m,
            _ => false,
        },
{
    let is_estop_flag = str_eq(flag, "monitoring") || str_eq(flag, "estop_query_name") || str_eq(
        flag,
        "timeout_seconds",
    ) || str_eq(flag, "state_max_age_seconds") || str_eq(flag, "estop_state_periodic");
    let is_heartbeat_flag = str_eq(flag, "monitoring") || str_eq(flag, "heartbeat_topic") || str_eq(
        flag,
        "timeout_seconds",
    );
    let is_battery_flag = str_eq(flag, "monitoring") || str_eq(flag, "low_battery_percentage")
        || str_eq(flag, "battery_hysteresis_percentage");
    let estop = str_eq(c.driver.as_str(), "standard.estop") || has_capability_id(c, "emergency_stop");
    let heartbeat = str_eq(c.driver.as_str(), "standard.heartbeat") || has_capability_id(
        c,
        "heartbeat",
    );
    let battery = str_eq(c.driver.as_str(), "standard.battery") || has_capability_id(c, "battery");
    let mut m = String::new();
    append_str(&mut m, "runtime object ");
    append_debug(&mut m, name);
    if str_eq(flag, "monitoring_enabled") {
        append_str(
            &mut m,
            " uses legacy safety flag \"monitoring_enabled\"; the canonical spelling is \"monitoring\"",
        );
        return Err(ModelError::Validation(m));
    }
    if !(is_estop_flag || is_heartbeat_flag || is_battery_flag) {
        append_str(&mut m, " has unknown safety flag ");
        append_debug(&mut m, flag);
        return Err(ModelError::Validation(m));
    }
    if !((is_estop_flag && estop) || (is_heartbeat_flag && heartbeat) || (is_battery_flag
        && battery)) {
        append_str(&mut m, " (driver ");
        append_debug(&mut m, c.driver.as_str());
        append_str(&mut m, ") sets safety flag ");
        append_debug(&mut m, flag);
        append_str(&mut m, ", which only ");
        let consumers = if str_eq(flag, "monitoring") {
            "[\"standard.estop\", \"standard.heartbeat\", \"standard.battery\"]"
        } else if str_eq(flag, "timeout_seconds") {
            "[\"standard.estop\", \"standard.heartbeat\"]"
        } else if is_heartbeat_flag {
            "[\"standard.heartbeat\"]"
        } else if is_battery_flag {
            "[\"standard.battery\"]"
        } else {
            "[\"standard.estop\"]"
        };
        append_str(&mut m, consumers);
        append_str(&mut m, " components consume; it would be ignored here");
        return Err(ModelError::Validation(m));
    }
    let is_bool = match value {
        Json::Bool(_) => true,
        _ => false,
    };
    if str_eq(flag, "monitoring") {
        if is_bool {
            return Ok(Vec::new());
        }
        append_str(&mut m, " safety flag \"monitoring\" must be a boolean");
        return Err(ModelError::Validation(m));
    }
    if str_eq(flag, "low_battery_percentage") {
        return Ok(vec![NumericCheck::LowBattery]);
    }
    if str_eq(flag, "battery_hysteresis_percentage") {
        return Ok(vec![NumericCheck::BatteryHysteresis]);
    }
    if str_eq(flag, "estop_query_name") || str_eq(flag, "heartbeat_topic") {
        let text = match value {
            Json::String(t) => if is_blank(t.as_str()) {
                None
            } else {
                Some(t)
            },
            _ => None,
        };
        match text {
            None => {
                append_str(&mut m, " safety flag ");
                append_debug(&mut m, flag);
                append_str(&mut m, " must be a non-empty string");
                return Err(ModelError::Validation(m));
            },
            Some(t) => {
                if let Some(ev) = endpoint_value(&c.endpoints, flag) {
                    if !str_eq(ev.as_str(), t.as_str()) {
                        append_str(&mut m, " safety flag ");
                        append_debug(&mut m, flag);
                        append_str(&mut m, " (");
                        append_debug(&mut m, t.as_str());
                        append_str(&mut m, ") contradicts endpoint ");
                        append_debug(&mut m, flag);
                        append_str(&mut m, " (");
                        append_debug(&mut m, ev.as_str());
                        append_str(&mut m, ")");
                        return Err(ModelError::Validation(m));
                    }
                }
                return Ok(Vec::new());
            },
        }
    }
    if str_eq(flag, "timeout_seconds") {
        let mut checks: Vec<NumericCheck> = Vec::new();
        if heartbeat {
            checks.push(NumericCheck::HeartbeatTimeout);
        }
        if estop {
            checks.push(NumericCheck::EstopPoll);
        }
        proof {
            assert(checks@ =~= (if heartbeat {
                seq![NumericCheck::HeartbeatTimeout]
            } else {
                Seq::empty()
            }) + (if estop {
                seq![NumericCheck::EstopPoll]
            } else {
                Seq::empty()
            }));
        }
        return Ok(checks);
    }
    if str_eq(flag, "state_max_age_seconds") {
        return Ok(vec![NumericCheck::StateMaxAge]);
    }
    if is_bool {
        return Ok(Vec::new());
    }
    append_str(&mut m, " safety flag \"estop_state_periodic\" must be a boolean");
    Err(ModelError::Validation(m))
}

// --------------------------------------------------------- metadata

/// The metadata keys whose values are checked.
pub open spec fn checked_metadata() -> Seq<Seq<char>> {
    seq![
        "state_max_age_ms"@,
        "state_idle_timeout_ms"@,
        "default_control_hz"@,
        "max_linear_vel"@,
        "max_angular_vel"@,
        "wheels_dist"@,
        "center_to_wheel_axis_dist"@,
        "max_steering_angle"@,
    ]
}

/// Every other metadata key the built-in profiles or the runtime use.
pub open spec fn known_metadata() -> Seq<Seq<char>> {
    seq![
        "drive_joints"@,
        "enable_depth"@,
        "enable_ee_pass_through"@,
        "enable_rgb"@,
        "grasp_torque"@,
        "name"@,
        "pose_pool"@,
        "pv_mode"@,
        "side"@,
        "steer_joints"@,
        "timeout_seconds"@,
    ]
}

fn checked_table() -> (r: &'static [&'static str])
    ensures
        r@.len() == checked_metadata().len(),
        forall|i: int| 0 <= i < r@.len() ==> (#[trigger] r@[i])@ == checked_metadata()[i],
{
    &[
        "state_max_age_ms",
        "state_idle_timeout_ms",
        "default_control_hz",
        "max_linear_vel",
        "max_angular_vel",
        "wheels_dist",
        "center_to_wheel_axis_dist",
        "max_steering_angle",
    ]
}

fn known_table() -> (r: &'static [&'static str])
    ensures
        r@.len() == known_metadata().len(),
        forall|i: int| 0 <= i < r@.len() ==> (#[trigger] r@[i])@ == known_metadata()[i],
{
    &[
        "drive_joints",
        "enable_depth",
        "enable_ee_pass_through",
        "enable_rgb",
        "grasp_torque",
        "name",
        "pose_pool",
        "pv_mode",
        "side",
        "steer_joints",
        "timeout_seconds",
    ]
}

/// The position of `key` in `table`.
fn position_in(table: &'static [&'static str], key: &str) -> (r: Option<usize>)
    ensures
        match r {
            Some(i) => i < table@.len() && table@[i as int]@ == key@,
            None => forall|i: int| 0 <= i < table@.len() ==> (#[trigger] table@[i])@ != key@,
        },
{
    let mut i: usize = 0;
    while i < table.len()
        invariant
            i <= table@.len(),
            forall|j: int| 0 <= j < i ==> (#[trigger] table@[j])@ != key@,
        decreases table@.len() - i,
    {
        if str_eq(table[i], key) {
            return Some(i);
        }
        i = i + 1;
    }
    None
}

/// A floating-point check still to make on a metadata value.
#[derive(Debug, Clone, Copy, PartialEq, Eq, Structural)]
pub enum MetadataNumber {
    /// `state_max_age_ms` must be a positive number of milliseconds.
    PositiveMilliseconds,
    /// The value must be a number in the accepted range of its key.
    InRange,
}

/// The value of a text of decimal digits.
pub open spec fn digits_value(t: Seq<char>) -> nat
    decreases t.len(),
{
    if t.len() == 0 {
        0
    } else {
        digits_value(t.drop_last()) * 10 + ((t.last() as nat) - ('0' as nat)) as nat
    }
}

/// What `as_u64` reads from a value: a number written as plain decimal
/// digits that fits in 64 bits.
pub open spec fn spec_as_u64(v: JsonV) -> Option<nat> {
    match v {
        JsonV::Number(t) => if t.len() > 0 && (forall|i: int|
            0 <= i < t.len() ==> '0' <= #[trigger] t[i] <= '9') && digits_value(t) <= u64::MAX {
            Some(digits_value(t))
        } else {
            None
        },
        _ => None,
    }
}

pub fn as_u64(v: &Json) -> (r: Option<u64>)
    ensures
        match (r, spec_as_u64(v.view_json())) {
            (Some(n), Some(m)) => n == m,
            (None, None) => true,
            _ => false,
        },
{
    let t = match v {
        Json::Number(t) => t,
        _ => {
            return None;
        },
    };
    let c = chars_of(t.as_str());
    if c.len() == 0 {
        return None;
    }
    let mut n: u64 = 0;
    let mut i: usize = 0;
    while i < c.len()
        invariant
            c@ == t@,
            v.view_json() == JsonV::Number(t@),
            c@.len() > 0,
            i <= c@.len(),
            forall|j: int| 0 <= j < i ==> '0' <= #[trigger] c@[j] <= '9',
            n == digits_value(c@.take(i as int)),
        decreases c@.len() - i,
    {
        let d = c[i];
        if !('0' <= d && d <= '9') {
            assert(!('0' <= c@[i as int] <= '9'));
            return None;
        }
        proof {
            assert(c@.take(i + 1).drop_last() =~= c@.take(i as int));
        }
        let digit = (d as u32 - '0' as u32) as u64;
        let next = match n.checked_mul(10) {
            Some(m) => m.checked_add(digit),
            None => None,
        };
        match next {
            Some(m) => {
                n = m;
            },
            None => {
                proof {
                    assert(digits_value(c@.take(i + 1)) > u64::MAX);
                    if forall|j: int| 0 <= j < c@.len() ==> '0' <= #[trigger] c@[j] <= '9' {
                        lemma_digits_monotone(c@, i + 1);
                    }
                }
                return None;
            },
        }
        i = i + 1;
    }
    proof {
        assert(c@.take(c@.len() as int) =~= c@);
    }
    Some(n)
}

proof fn lemma_digits_monotone(t: Seq<char>, k: int)
    requires
        0 <= k <= t.len(),
        forall|j: int| 0 <= j < t.len() ==> '0' <= #[trigger] t[j] <= '9',
    ensures
        digits_value(t.take(k)) <= digits_value(t),
    decreases t.len() - k,
{
    if k < t.len() {
        lemma_digits_monotone(t, k + 1);
        assert(t.take(k + 1).drop_last() =~= t.take(k));
    } else {
        assert(t.take(k) =~= t);
    }
}

/// The first checked key that `key` nearly spells, if any.
pub open spec fn near_checked(key: Seq<char>, i: int) -> bool {
    crate::validate::spec_near_miss(
        vstd::utf8::encode_utf8(key),
        vstd::utf8::encode_utf8(checked_metadata()[i]),
    )
}

pub open spec fn first_near(key: Seq<char>) -> Option<int> {
    if exists|i: int| 0 <= i < checked_metadata().len() && #[trigger] near_checked(key, i) {
        Some(
            choose|i: int|
                0 <= i < checked_metadata().len() && #[trigger] near_checked(key, i) && forall|j: int|
                    0 <= j < i ==> !near_checked(key, j),
        )
    } else {
        None
    }
}

pub open spec fn max_age_message(name: Seq<char>, shown: Seq<char>) -> Seq<char> {
    "runtime object "@ + debug_repr(name)
        + " metadata \"state_max_age_ms\" must be a positive number of milliseconds, or false to disable the freshness check; got "@
        + shown
}

/// What one metadata entry of runtime object `name` asks for: an error, or
/// a floating-point check still to make on its value. An unknown key is
/// free data unless it nearly spells a checked key.
pub open spec fn spec_metadata_entry(name: Seq<char>, key: Seq<char>, value: JsonV) -> Result<
    Option<MetadataNumber>,
    Seq<char>,
> {
    if !checked_metadata().contains(key) && !known_metadata().contains(key) {
        match first_near(key) {
            Some(i) => Err(
                "runtime object "@ + debug_repr(name) + " metadata key "@ + debug_repr(key)
                    + " is not recognised; did you mean "@ + debug_repr(checked_metadata()[i])
                    + "?"@,
            ),
            None => Ok(None),
        }
    } else if key == "state_max_age_ms"@ {
        match value {
            JsonV::Bool(false) => Ok(None),
            JsonV::Number(_) => Ok(Some(MetadataNumber::PositiveMilliseconds)),
            _ => Err(max_age_message(name, json_text(value))),
        }
    } else if key == "state_idle_timeout_ms"@ {
        match spec_as_u64(value) {
            Some(n) if n >= 100 => Ok(None),
            _ => Err(
                "runtime object "@ + debug_repr(name)
                    + " metadata \"state_idle_timeout_ms\" must be a whole number of milliseconds, at least 100; got "@
                    + json_text(value),
            ),
        }
    } else if checked_metadata().contains(key) {
        Ok(Some(MetadataNumber::InRange))
    } else {
        Ok(None)
    }
}

/// Checks one metadata entry of runtime object `name`; see
/// [`spec_metadata_entry`].
pub fn check_metadata_entry(name: &str, key: &str, value: &Json) -> (r: Result<
    Option<MetadataNumber>,
    ModelError,
>)
    ensures
        match (r, spec_metadata_entry(name@, key@, value.view_json())) {
            (Ok(v), Ok(w)) => v == w,
            (Err(e), Err(m)) => e matches ModelError::Validation(t) && t@ == m,
            _ => false,
        },
{
    let checked = checked_table();
    let known = known_table();
    let ci = position_in(checked, key);
    let ki = position_in(known, key);
    proof {
        if let Some(i) = ci {
            assert(checked_metadata()[i as int] == key@);
        } else {
            assert(!checked_metadata().contains(key@)) by {
                if checked_metadata().contains(key@) {
                    let i = choose|i: int| 0 <= i < checked_metadata().len() && checked_metadata()[i] == key@;
                    assert(checked@[i]@ == key@);
                }
            }
        }
        if let Some(i) = ki {
            assert(known_metadata()[i as int] == key@);
        } else {
            assert(!known_metadata().contains(key@)) by {
                if known_metadata().contains(key@) {
                    let i = choose|i: int| 0 <= i < known_metadata().len() && known_metadata()[i] == key@;
                    assert(known@[i]@ == key@);
                }
            }
        }
    }
    if ci.is_none() && ki.is_none() {
        let mut i: usize = 0;
        while i < checked.len()
            invariant
                checked@.len() == checked_metadata().len(),
                forall|j: int| 0 <= j < checked@.len() ==> (#[trigger] checked@[j])@ == checked_metadata()[j],
                i <= checked@.len(),
                forall|j: int| 0 <= j < i ==> !near_checked(key@, j),
                !checked_metadata().contains(key@) && !known_metadata().contains(key@),
            decreases checked@.len() - i,
        {
            if crate::validate::near_miss(key, checked[i]) {
                proof {
                    assert(near_checked(key@, i as int));
                    let c = first_near(key@)->0;
                    assert(near_checked(key@, c) && forall|j: int| 0 <= j < c ==> !near_checked(key@, j));
                    if c < i {
                    } else if c > i {
                        assert(!near_checked(key@, i as int));
                    }
                }
                let mut m = String::new();
                append_str(&mut m, "runtime object ");
                append_debug(&mut m, name);
                append_str(&mut m, " metadata key ");
                append_debug(&mut m, key);
                append_str(&mut m, " is not recognised; did you mean ");
                append_debug(&mut m, checked[i]);
                append_str(&mut m, "?");
                return Err(ModelError::Validation(m));
            }
            i = i + 1;
        }
        proof {
            if exists|c: int| 0 <= c < checked_metadata().len() && #[trigger] near_checked(key@, c) {
                let c = choose|c: int| 0 <= c < checked_metadata().len() && #[trigger] near_checked(key@, c);
                assert(!near_checked(key@, c));
            }
        }
        return Ok(None);
    }
    proof {
        reveal_strlit("state_max_age_ms");
        reveal_strlit("state_idle_timeout_ms");
    }
    if str_eq(key, "state_max_age_ms") {
        return match value {
            Json::Bool(false) => Ok(None),
            Json::Number(_) => Ok(Some(MetadataNumber::PositiveMilliseconds)),
            _ => {
                let mut m = String::new();
                append_str(&mut m, "runtime object ");
                append_debug(&mut m, name);
                append_str(
                    &mut m,
                    " metadata \"state_max_age_ms\" must be a positive number of milliseconds, or false to disable the freshness check; got ",
                );
                let shown = json_display(value);
                append_str(&mut m, shown.as_str());
                Err(ModelError::Validation(m))
            },
        };
    }
    if str_eq(key, "state_idle_timeout_ms") {
        let ok = match as_u64(value) {
            Some(n) => n >= 100,
            None => false,
        };
        if ok {
            return Ok(None);
        }
        let mut m = String::new();
        append_str(&mut m, "runtime object ");
        append_debug(&mut m, name);
        append_str(
            &mut m,
            " metadata \"state_idle_timeout_ms\" must be a whole number of milliseconds, at least 100; got ",
        );
        let shown = json_display(value);
        append_str(&mut m, shown.as_str());
        return Err(ModelError::Validation(m));
    }
    match ci {
        Some(i) => Ok(Some(MetadataNumber::InRange)),
        None => Ok(None),
    }
}

// --------------------------------------------------------- pose pool

/// With distinct keys, the entry found at `i` is the one keyed `k`.
pub proof fn lemma_side_lookup_unique<T>(s: Seq<(String, T)>, i: int)
    requires
        0 <= i < s.len(),
        forall|a: int, b: int| 0 <= a < b < s.len() ==> #[trigger] s[a].0@ != #[trigger] s[b].0@,
    ensures
        crate::vega::side_lookup(s, s[i].0@) == Some(s[i].1),
    decreases i,
{
    if i > 0 {
        let t = s.drop_first();
        assert(t[i - 1] == s[i]);
        assert(s[0].0@ != s[i].0@);
        assert forall|a: int, b: int| 0 <= a < b < t.len() implies #[trigger] t[a].0@ != #[trigger] t[b].0@ by {
            assert(t[a] == s[a + 1]);
            assert(t[b] == s[b + 1]);
        }
        lemma_side_lookup_unique(t, i - 1);
    }
}

pub proof fn lemma_side_lookup_absent<T>(s: Seq<(String, T)>, k: Seq<char>)
    requires
        !crate::json::has_key(s, k),
    ensures
        crate::vega::side_lookup(s, k) is None,
    decreases s.len(),
{
    if s.len() > 0 {
        assert(s[0].0@ != k);
        assert(!crate::json::has_key(s.drop_first(), k)) by {
            if crate::json::has_key(s.drop_first(), k) {
                let j = choose|j: int| 0 <= j < s.drop_first().len() && #[trigger] s.drop_first()[j].0@ == k;
                assert(s[j + 1].0@ == k);
            }
        }
        lemma_side_lookup_absent(s.drop_first(), k);
    }
}

/// The first element from `i` on that is not a number.
pub open spec fn first_non_number(items: Seq<JsonV>, i: int) -> Option<int>
    decreases items.len() - i,
{
    if i < 0 || i >= items.len() {
        None
    } else if !(items[i] is Number) {
        Some(i)
    } else {
        first_non_number(items, i + 1)
    }
}

pub open spec fn pose_frames() -> Seq<Seq<char>> {
    seq!["joint"@, "torso_horizontal"@, "torso_upright"@]
}

/// The pose pool of a runtime object, once the pool as a whole is
/// acceptable: none, or its named poses.
pub open spec fn spec_pose_pool(name: Seq<char>, c: ComponentConfig) -> Result<Option<Map<Seq<char>, JsonV>>, Seq<char>> {
    if crate::vega::side_lookup(c.metadata@, "pose_frames"@) is Some {
        Err(
            "runtime object "@ + debug_repr(name)
                + ": pose_frames is no longer supported; put frame next to joint_pos inside each pose_pool entry"@,
        )
    } else {
        match crate::vega::side_lookup(c.metadata@, "pose_pool"@) {
            None => Ok(None),
            Some(pool) => match pool.view_json() {
                JsonV::Object(poses) => if c.joints is None {
                    Err("runtime object "@ + debug_repr(name) + " declares a pose_pool but has no joints"@)
                } else {
                    Ok(Some(poses))
                },
                _ => Err(
                    "runtime object "@ + debug_repr(name)
                        + " metadata pose_pool must be an object of named poses"@,
                ),
            },
        }
    }
}

/// The named poses of the pose pool of `c`, in order (none where the pool
/// is absent or not an object).
pub open spec fn pool_entries(c: ComponentConfig) -> Seq<(String, Json)> {
    match crate::vega::side_lookup(c.metadata@, "pose_pool"@) {
        Some(Json::Object(es)) => es@,
        _ => Seq::empty(),
    }
}

/// Checks the pose pool of runtime object `name` as a whole and returns
/// its entries (in key order); see [`spec_pose_pool`].
pub fn pose_pool<'a>(name: &str, c: &'a ComponentConfig) -> (r: Result<Option<&'a Vec<(String, Json)>>, ModelError>)
    requires
        c.wf(),
    ensures
        match (r, spec_pose_pool(name@, *c)) {
            (Ok(None), Ok(None)) => true,
            (Ok(Some(es)), Ok(Some(m))) => crate::json::entries_view(es@) == m
                && crate::json::unique_keys(es@) && es@ == pool_entries(*c) && forall|i: int|
                0 <= i < es@.len() ==> (#[trigger] es@[i]).1.wf(),
            (Err(e), Err(m)) => e matches ModelError::Validation(t) && t@ == m,
            _ => false,
        },
{
    proof {
        assert forall|a: int, b: int| 0 <= a < b < c.metadata@.len() implies #[trigger] c.metadata@[a].0@
            != #[trigger] c.metadata@[b].0@ by {
            crate::provenance::lemma_lex_irreflexive(c.metadata@[a].0@);
        }
    }
    match crate::json::find_key(&c.metadata, "pose_frames") {
        Some(i) => {
            proof {
                lemma_side_lookup_unique(c.metadata@, i as int);
            }
            let mut m = String::new();
            append_str(&mut m, "runtime object ");
            append_debug(&mut m, name);
            append_str(
                &mut m,
                ": pose_frames is no longer supported; put frame next to joint_pos inside each pose_pool entry",
            );
            return Err(ModelError::Validation(m));
        },
        None => {
            proof {
                lemma_side_lookup_absent(c.metadata@, "pose_frames"@);
            }
        },
    }
    let i = match crate::json::find_key(&c.metadata, "pose_pool") {
        Some(i) => i,
        None => {
            proof {
                lemma_side_lookup_absent(c.metadata@, "pose_pool"@);
            }
            return Ok(None);
        },
    };
    proof {
        lemma_side_lookup_unique(c.metadata@, i as int);
    }
    let pool = &c.metadata[i].1;
    match pool {
        Json::Object(poses) => {
            if c.joints.is_none() {
                let mut m = String::new();
                append_str(&mut m, "runtime object ");
                append_debug(&mut m, name);
                append_str(&mut m, " declares a pose_pool but has no joints");
                return Err(ModelError::Validation(m));
            }
            assert(pool.wf());
            Ok(Some(poses))
        },
        _ => {
            let mut m = String::new();
            append_str(&mut m, "runtime object ");
            append_debug(&mut m, name);
            append_str(&mut m, " metadata pose_pool must be an object of named poses");
            Err(ModelError::Validation(m))
        },
    }
}

/// The targets of a pose entry and whether it is torso-referenced, or which
/// rule the entry breaks: 0, a field other than `joint_pos` and `frame`;
/// 1, no known `frame`; 2, no `joint_pos`.
pub open spec fn spec_split_pose(entry: JsonV) -> Result<(JsonV, bool), u8> {
    match entry {
        JsonV::Object(fields) => if exists|k: Seq<char>|
            #[trigger] fields.contains_key(k) && k != "joint_pos"@ && k != "frame"@ {
            Err(0u8)
        } else if !(fields.contains_key("frame"@) && (fields["frame"@] matches JsonV::Text(f)
            && pose_frames().contains(f))) {
            Err(1u8)
        } else if !fields.contains_key("joint_pos"@) {
            Err(2u8)
        } else {
            Ok((fields["joint_pos"@], fields["frame"@]->Text_0 != "joint"@))
        },
        _ => Ok((entry, false)),
    }
}

pub open spec fn pose_prefix(name: Seq<char>, pose: Seq<char>) -> Seq<char> {
    "runtime object "@ + debug_repr(name) + " pose "@ + debug_repr(pose)
}

/// One named pose of runtime object `name`: a raw array of joint targets
/// (joint frame), or an object with `joint_pos` and a known `frame`. Every
/// target is a number; with `count` joints (0 for none) the pose has one
/// target per joint, and a pose of an object without joints fails when
/// `require_length` is set. Gives whether the pose is torso-referenced, whose
/// first target is then shifted at run time.
pub open spec fn spec_pose(name: Seq<char>, count: nat, require_length: bool, pose: Seq<char>, entry: JsonV) -> Result<
    bool,
    Seq<char>,
> {
    let obj = pose_prefix(name, pose);
    match spec_split_pose(entry) {
        Err(0u8) => Err(obj + " accepts only joint_pos and frame"@),
        Err(1u8) => Err(obj + " requires frame: joint, torso_horizontal or torso_upright"@),
        Err(_) => Err(obj + " requires joint_pos"@),
        Ok((targets, torso)) => match targets {
            JsonV::Array(items) => match first_non_number(items, 0) {
                Some(i) => Err(
                    obj + "["@ + spec_decimal(i as nat) + "] must be a finite number, got "@
                        + json_text(items[i]),
                ),
                None => if count > 0 && items.len() != count {
                    Err(
                        obj + " has "@ + spec_decimal(items.len()) + " targets for "@
                            + spec_decimal(count) + " joints"@,
                    )
                } else if count == 0 && require_length {
                    Err(obj + " cannot be checked: the component resolved to no joints"@)
                } else {
                    Ok(torso)
                },
            },
            _ => Err(obj + " must be an array of joint targets, got "@ + json_text(targets)),
        },
    }
}

fn is_pose_frame(f: &str) -> (r: bool)
    ensures
        r == pose_frames().contains(f@),
{
    let r = str_eq(f, "joint") || str_eq(f, "torso_horizontal") || str_eq(f, "torso_upright");
    proof {
        let s = pose_frames();
        if r {
            assert(s[0] == "joint"@);
            assert(s[1] == "torso_horizontal"@);
            assert(s[2] == "torso_upright"@);
        } else {
            assert(forall|i: int| 0 <= i < s.len() ==> s[i] != f@);
        }
    }
    r
}

fn only_pose_fields(fields: &Vec<(String, Json)>) -> (r: bool)
    ensures
        r == !exists|k: Seq<char>|
            #[trigger] crate::json::entries_view(fields@).contains_key(k) && k != "joint_pos"@ && k
                != "frame"@,
{
    proof {
        crate::json::lemma_entries_view_keys(fields@);
    }
    let mut k: usize = 0;
    while k < fields.len()
        invariant
            k <= fields@.len(),
            forall|j: int| 0 <= j < k ==> (#[trigger] fields@[j]).0@ == "joint_pos"@ || fields@[j].0@ == "frame"@,
            forall|key: Seq<char>| #[trigger] crate::json::entries_view(fields@).contains_key(key) <==> crate::json::has_key(fields@, key),
        decreases fields@.len() - k,
    {
        let key = fields[k].0.as_str();
        if !str_eq(key, "joint_pos") && !str_eq(key, "frame") {
            assert(crate::json::has_key(fields@, fields@[k as int].0@));
            assert(crate::json::entries_view(fields@).contains_key(fields@[k as int].0@));
            return false;
        }
        k = k + 1;
    }
    assert forall|key: Seq<char>| #[trigger] crate::json::entries_view(fields@).contains_key(key) implies key == "joint_pos"@ || key == "frame"@ by {
        let j = choose|j: int| 0 <= j < fields@.len() && #[trigger] fields@[j].0@ == key;
        assert(fields@[j].0@ == key);
    }
    true
}

fn split_pose<'a>(entry: &'a Json) -> (r: Result<(&'a Json, bool), u8>)
    requires
        entry.wf(),
    ensures
        match (r, spec_split_pose(entry.view_json())) {
            (Ok((t, torso)), Ok((st, storso))) => t.view_json() == st && torso == storso && t.wf(),
            (Err(c), Err(sc)) => c == sc,
            _ => false,
        },
{
    proof {
        reveal_strlit("joint");
    }
    match entry {
        Json::Object(fields) => {
            if !only_pose_fields(fields) {
                return Err(0);
            }
            let ghost fm = crate::json::entries_view(fields@);
            assert(entry.view_json() == JsonV::Object(fm));
            let mut torso = false;
            let frame_ok = match get_field(entry, "frame") {
                Some(Json::String(f)) => {
                    if is_pose_frame(f.as_str()) {
                        torso = !str_eq(f.as_str(), "joint");
                        true
                    } else {
                        false
                    }
                },
                _ => false,
            };
            if !frame_ok {
                assert(!(fm.contains_key("frame"@) && (fm["frame"@] matches JsonV::Text(f)
                    && pose_frames().contains(f))));
                return Err(1);
            }
            match get_field(entry, "joint_pos") {
                Some(t) => Ok((t, torso)),
                None => Err(2),
            }
        },
        _ => Ok((entry, false)),
    }
}

fn first_non_number_at(items: &Vec<Json>) -> (r: Option<usize>)
    ensures
        match (r, first_non_number(crate::json::items_view(items@), 0)) {
            (Some(i), Some(j)) => i as int == j && i < items@.len(),
            (None, None) => true,
            _ => false,
        },
{
    let ghost iv = crate::json::items_view(items@);
    proof {
        crate::json::lemma_items_view(items@);
    }
    let mut i: usize = 0;
    while i < items.len()
        invariant
            iv == crate::json::items_view(items@),
            iv.len() == items@.len(),
            forall|j: int| 0 <= j < items@.len() ==> #[trigger] iv[j] == items@[j].view_json(),
            i <= items@.len(),
            first_non_number(iv, 0) == first_non_number(iv, i as int),
        decreases items@.len() - i,
    {
        let is_number = match &items[i] {
            Json::Number(_) => true,
            _ => false,
        };
        if !is_number {
            return Some(i);
        }
        i = i + 1;
    }
    None
}

/// Checks one named pose; see [`spec_pose`].
pub fn check_pose(name: &str, count: usize, require_length: bool, pose: &str, entry: &Json) -> (r: Result<
    bool,
    ModelError,
>)
    requires
        entry.wf(),
    ensures
        match (r, spec_pose(name@, count as nat, require_length, pose@, entry.view_json())) {
            (Ok(a), Ok(b)) => a == b,
            (Err(e), Err(m)) => e matches ModelError::Validation(t) && t@ == m,
            _ => false,
        },
{
    let mut m = String::new();
    append_str(&mut m, "runtime object ");
    append_debug(&mut m, name);
    append_str(&mut m, " pose ");
    append_debug(&mut m, pose);
    let (targets, torso) = match split_pose(entry) {
        Ok(split) => split,
        Err(code) => {
            if code == 0 {
                append_str(&mut m, " accepts only joint_pos and frame");
            } else if code == 1 {
                append_str(&mut m, " requires frame: joint, torso_horizontal or torso_upright");
            } else {
                append_str(&mut m, " requires joint_pos");
            }
            return Err(ModelError::Validation(m));
        },
    };
    let items = match targets {
        Json::Array(items) => items,
        _ => {
            append_str(&mut m, " must be an array of joint targets, got ");
            let shown = json_display(targets);
            append_str(&mut m, shown.as_str());
            return Err(ModelError::Validation(m));
        },
    };
    proof {
        crate::json::lemma_items_view(items@);
    }
    if let Some(i) = first_non_number_at(items) {
        append_str(&mut m, "[");
        push_decimal(&mut m, i as u64);
        append_str(&mut m, "] must be a finite number, got ");
        let shown = json_display(&items[i]);
        append_str(&mut m, shown.as_str());
        return Err(ModelError::Validation(m));
    }
    if count > 0 && items.len() != count {
        append_str(&mut m, " has ");
        push_decimal(&mut m, items.len() as u64);
        append_str(&mut m, " targets for ");
        push_decimal(&mut m, count as u64);
        append_str(&mut m, " joints");
        return Err(ModelError::Validation(m));
    }
    if count == 0 && require_length {
        append_str(&mut m, " cannot be checked: the component resolved to no joints");
        return Err(ModelError::Validation(m));
    }
    Ok(torso)
}

/// The member `key` of an object value.
fn get_field<'a>(v: &'a Json, key: &str) -> (r: Option<&'a Json>)
    requires
        v.wf(),
    ensures
        match r {
            Some(x) => x.view_json() == crate::vega::member(v.view_json(), key@) && x.wf()
                && v.view_json() is Object && v.view_json()->Object_0.contains_key(key@),
            None => !(v.view_json() is Object && v.view_json()->Object_0.contains_key(key@)),
        },
{
    match v {
        Json::Object(entries) => {
            proof {
                crate::json::lemma_entries_view_keys(entries@);
            }
            match crate::json::find_key(entries, key) {
                Some(i) => {
                    proof {
                        crate::json::lemma_entries_view_value(entries@, i as int);
                    }
                    Some(&entries[i].1)
                },
                None => None,
            }
        },
        _ => None,
    }
}

// ------------------------------------------------------ dependency depth

/// Longest supported dependency chain.
pub const MAX_DEPENDENCY_DEPTH: usize = 64;

/// The dependencies of the object named `name` (none if there is no such
/// object).
pub open spec fn dependencies_of(objects: Seq<(String, ComponentConfig)>, name: Seq<char>) -> Seq<String> {
    match crate::vega::side_lookup(objects, name) {
        Some(c) => c.dependencies@,
        None => Seq::empty(),
    }
}

pub open spec fn depth_message(name: Seq<char>) -> Seq<char> {
    "component dependency chain exceeds the supported depth of 64 at "@ + debug_repr(name)
}

pub open spec fn cycle_message(name: Seq<char>) -> Seq<char> {
    "component dependency cycle includes "@ + debug_repr(name)
}

/// Depth-first visit of `name` with `path` the objects being visited and
/// `done` the depth of every finished object: the depth of `name` (the
/// objects on its longest dependency chain) and the finished depths, or
/// the first problem found.
pub open spec fn spec_visit(
    objects: Seq<(String, ComponentConfig)>,
    name: Seq<char>,
    path: Seq<Seq<char>>,
    done: Map<Seq<char>, nat>,
) -> (Result<nat, Seq<char>>, Map<Seq<char>, nat>)
    decreases 64 - path.len(), 0int,
{
    let known = if done.contains_key(name) {
        done[name]
    } else {
        1
    };
    if path.len() + known > 64 {
        (Err(depth_message(name)), done)
    } else if done.contains_key(name) {
        (Ok(done[name]), done)
    } else if path.contains(name) {
        (Err(cycle_message(name)), done)
    } else {
        let (r, after) = spec_visit_all(objects, dependencies_of(objects, name), 0, path.push(name), done, 1);
        match r {
            Err(m) => (Err(m), after),
            Ok(depth) => (Ok(depth), after.insert(name, depth)),
        }
    }
}

/// Visits `deps` from position `i` on, each under `path`, keeping the
/// greatest `1 + depth` seen.
pub open spec fn spec_visit_all(
    objects: Seq<(String, ComponentConfig)>,
    deps: Seq<String>,
    i: int,
    path: Seq<Seq<char>>,
    done: Map<Seq<char>, nat>,
    depth: nat,
) -> (Result<nat, Seq<char>>, Map<Seq<char>, nat>)
    decreases 64 - path.len(), 1 + deps.len() - i,
{
    if i < 0 || i >= deps.len() {
        (Ok(depth), done)
    } else {
        let (r, after) = spec_visit(objects, deps[i]@, path, done);
        match r {
            Err(m) => (Err(m), after),
            Ok(d) => spec_visit_all(
                objects,
                deps,
                i + 1,
                path,
                after,
                if 1 + d > depth {
                    (1 + d) as nat
                } else {
                    depth
                },
            ),
        }
    }
}

/// Visits every object from position `i` on, in order.
pub open spec fn spec_detect(objects: Seq<(String, ComponentConfig)>, i: int, done: Map<Seq<char>, nat>) -> Option<
    Seq<char>,
>
    decreases objects.len() - i,
{
    if i < 0 || i >= objects.len() {
        None
    } else {
        let (r, after) = spec_visit(objects, objects[i].0@, Seq::empty(), done);
        match r {
            Err(m) => Some(m),
            Ok(_) => spec_detect(objects, i + 1, after),
        }
    }
}

/// The finished depths so far, the latest winning.
pub open spec fn depths_view(s: Seq<(String, usize)>) -> Map<Seq<char>, nat>
    decreases s.len(),
{
    if s.len() == 0 {
        Map::empty()
    } else {
        depths_view(s.drop_last()).insert(s.last().0@, s.last().1 as nat)
    }
}

fn finished_depth(done: &Vec<(String, usize)>, name: &str) -> (r: Option<usize>)
    ensures
        match r {
            Some(d) => depths_view(done@).contains_key(name@) && depths_view(done@)[name@] == d,
            None => !depths_view(done@).contains_key(name@),
        },
{
    let mut i: usize = done.len();
    assert(done@.take(i as int) =~= done@);
    while i > 0
        invariant
            i <= done@.len(),
            depths_view(done@).contains_key(name@) == depths_view(done@.take(i as int)).contains_key(name@),
            depths_view(done@).contains_key(name@) ==> depths_view(done@)[name@] == depths_view(done@.take(i as int))[name@],
        decreases i,
    {
        assert(done@.take(i as int).drop_last() =~= done@.take(i - 1));
        assert(done@.take(i as int).last() == done@[i - 1]);
        if str_eq(done[i - 1].0.as_str(), name) {
            return Some(done[i - 1].1);
        }
        i = i - 1;
    }
    None
}

fn on_path(path: &Vec<String>, name: &str) -> (r: bool)
    ensures
        r == texts_of(path@).contains(name@),
{
    let mut i: usize = 0;
    while i < path.len()
        invariant
            i <= path@.len(),
            forall|j: int| 0 <= j < i ==> #[trigger] path@[j]@ != name@,
        decreases path@.len() - i,
    {
        if str_eq(path[i].as_str(), name) {
            assert(texts_of(path@)[i as int] == name@);
            return true;
        }
        i = i + 1;
    }
    assert forall|j: int| 0 <= j < texts_of(path@).len() implies texts_of(path@)[j] != name@ by {
        assert(texts_of(path@)[j] == path@[j]@);
    }
    false
}

/// The texts of a list of names.
pub open spec fn texts_of(s: Seq<String>) -> Seq<Seq<char>> {
    s.map_values(|x: String| x@)
}

fn dependencies_at<'a>(objects: &'a Vec<(String, ComponentConfig)>, name: &str) -> (r: Option<&'a Vec<String>>)
    ensures
        match r {
            Some(v) => v@ == dependencies_of(objects@, name@),
            None => dependencies_of(objects@, name@) == Seq::<String>::empty(),
        },
{
    let mut i: usize = 0;
    assert(objects@.skip(0) =~= objects@);
    while i < objects.len()
        invariant
            i <= objects@.len(),
            crate::vega::side_lookup(objects@, name@) == crate::vega::side_lookup(objects@.skip(i as int), name@),
        decreases objects@.len() - i,
    {
        assert(objects@.skip(i as int).drop_first() =~= objects@.skip(i + 1));
        if str_eq(objects[i].0.as_str(), name) {
            return Some(&objects[i].1.dependencies);
        }
        i = i + 1;
    }
    assert(objects@.skip(objects@.len() as int) =~= Seq::<(String, ComponentConfig)>::empty());
    None
}

/// `r` and the finished depths `after` are what the visit `expected` gives.
pub open spec fn visit_matches(
    r: Result<usize, ModelError>,
    after: Map<Seq<char>, nat>,
    expected: (Result<nat, Seq<char>>, Map<Seq<char>, nat>),
) -> bool {
    match (r, expected.0) {
        (Ok(d), Ok(e)) => d == e && after == expected.1,
        (Err(ModelError::Validation(m)), Err(e)) => m@ == e,
        _ => false,
    }
}

/// Every finished depth is between 1 and 64.
pub open spec fn bounded_depths(s: Seq<(String, usize)>) -> bool {
    forall|i: int| 0 <= i < s.len() ==> 1 <= (#[trigger] s[i]).1 <= 64
}

/// What a visit gives once its dependencies have been visited.
pub open spec fn finish_visit(name: Seq<char>, inner: (Result<nat, Seq<char>>, Map<Seq<char>, nat>)) -> (
    Result<nat, Seq<char>>,
    Map<Seq<char>, nat>,
) {
    match inner.0 {
        Err(m) => (Err(m), inner.1),
        Ok(depth) => (Ok(depth), inner.1.insert(name, depth)),
    }
}

fn visit(
    objects: &Vec<(String, ComponentConfig)>,
    name: &str,
    path: &mut Vec<String>,
    done: &mut Vec<(String, usize)>,
) -> (r: Result<usize, ModelError>)
    requires
        old(path)@.len() <= 64,
        bounded_depths(old(done)@),
    ensures
        visit_matches(
            r,
            depths_view(final(done)@),
            spec_visit(objects@, name@, texts_of(old(path)@), depths_view(old(done)@)),
        ),
        r is Ok ==> final(path)@ == old(path)@,
        r matches Ok(d) ==> 1 <= d && d + old(path)@.len() <= 64,
        bounded_depths(final(done)@),
    decreases 64 - old(path)@.len(),
{
    let known: usize = match finished_depth(done, name) {
        Some(d) => {
            proof {
                lemma_depths_bounded(done@, name@);
            }
            d
        },
        None => 1,
    };
    if known > 64 - path.len() {
        let mut m = String::new();
        append_str(&mut m, "component dependency chain exceeds the supported depth of 64 at ");
        append_debug(&mut m, name);
        return Err(ModelError::Validation(m));
    }
    if let Some(d) = finished_depth(done, name) {
        return Ok(d);
    }
    if on_path(path, name) {
        let mut m = String::new();
        append_str(&mut m, "component dependency cycle includes ");
        append_debug(&mut m, name);
        return Err(ModelError::Validation(m));
    }
    let ghost start_path = texts_of(path@).push(name@);
    let ghost start_done = depths_view(done@);
    let ghost outer = path@;
    path.push(name.to_owned());
    proof {
        assert(texts_of(path@) =~= start_path);
        assert(path@.drop_last() =~= outer);
    }
    let mut depth: usize = 1;
    let deps = dependencies_at(objects, name);
    let ghost dseq = dependencies_of(objects@, name@);
    let n = match deps {
        Some(v) => v.len(),
        None => 0,
    };
    proof {
        assert(spec_visit(objects@, name@, texts_of(old(path)@), depths_view(old(done)@)) == finish_visit(
            name@,
            spec_visit_all(objects@, dseq, 0, start_path, start_done, 1),
        ));
    }
    let mut j: usize = 0;
    while j < n
        invariant
            spec_visit(objects@, name@, texts_of(old(path)@), depths_view(old(done)@)) == finish_visit(
                name@,
                spec_visit_all(objects@, dseq, 0, start_path, start_done, 1),
            ),
            outer == old(path)@,
            j <= n,
            n == dseq.len(),
            match deps {
                Some(v) => v@ == dseq,
                None => dseq.len() == 0,
            },
            path@.len() == outer.len() + 1,
            path@.drop_last() == outer,
            texts_of(path@) == start_path,
            path@.len() <= 64,
            1 <= depth,
            depth + path@.len() <= 65,
            bounded_depths(done@),
            spec_visit_all(objects@, dseq, 0, start_path, start_done, 1) == spec_visit_all(
                objects@,
                dseq,
                j as int,
                start_path,
                depths_view(done@),
                depth as nat,
            ),
        decreases n - j,
    {
        let dep = match deps {
            Some(v) => v[j].as_str(),
            None => "",
        };
        let ghost before_done = depths_view(done@);
        match visit(objects, dep, path, done) {
            Err(e) => {
                return Err(e);
            },
            Ok(d) => {
                if 1 + d > depth {
                    depth = 1 + d;
                }
            },
        }
        j = j + 1;
    }
    path.pop();
    proof {
        assert(path@ =~= outer);
    }
    let ghost before = done@;
    done.push((name.to_owned(), depth));
    proof {
        assert(done@.drop_last() =~= before);
        assert forall|i: int| 0 <= i < done@.len() implies 1 <= (#[trigger] done@[i]).1 <= 64 by {
            if i < before.len() {
                assert(done@[i] == before[i]);
            }
        }
    }
    Ok(depth)
}

proof fn lemma_depths_bounded(s: Seq<(String, usize)>, k: Seq<char>)
    requires
        bounded_depths(s),
        depths_view(s).contains_key(k),
    ensures
        1 <= depths_view(s)[k] <= 64,
    decreases s.len(),
{
    if s.len() > 0 {
        if s.last().0@ != k {
            assert(bounded_depths(s.drop_last())) by {
                assert forall|i: int| 0 <= i < s.drop_last().len() implies 1 <= (#[trigger] s.drop_last()[i]).1 <= 64 by {
                    assert(s.drop_last()[i] == s[i]);
                }
            }
            lemma_depths_bounded(s.drop_last(), k);
        } else {
            assert(1 <= s[s.len() - 1].1 <= 64);
        }
    }
}

/// No runtime object depends on itself through its dependencies, and no
/// dependency chain holds more than 64 objects: the check passes exactly
/// when every chain that starts at an object is that short. `objects` are the
/// components and sensors together, in name order; each is visited in
/// order, depth first.
pub fn check_dependency_depth(objects: &Vec<(String, ComponentConfig)>) -> (r: Result<(), ModelError>)
    ensures
        reports(r, spec_detect(objects@, 0, Map::empty())),
        r is Ok <==> chains_bounded(objects@),
{
    proof {
        law_dependency_check_decides_chain_length(objects@);
    }
    let mut path: Vec<String> = Vec::new();
    let mut done: Vec<(String, usize)> = Vec::new();
    assert(depths_view(done@) =~= Map::<Seq<char>, nat>::empty());
    let mut i: usize = 0;
    while i < objects.len()
        invariant
            i <= objects@.len(),
            path@.len() == 0,
            bounded_depths(done@),
            spec_detect(objects@, 0, Map::empty()) == spec_detect(objects@, i as int, depths_view(done@)),
            spec_detect(objects@, 0, Map::empty()) is None <==> chains_bounded(objects@),
        decreases objects@.len() - i,
    {
        proof {
            assert(texts_of(path@) =~= Seq::<Seq<char>>::empty());
        }
        match visit(objects, objects[i].0.as_str(), &mut path, &mut done) {
            Err(e) => {
                return Err(e);
            },
            Ok(_) => {},
        }
        i = i + 1;
    }
    Ok(())
}


// ------------------------------------------- dependency chains, as a graph

/// Object `c[k + 1]` is a dependency of object `c[k]`.
pub open spec fn chain_step(objects: Seq<(String, ComponentConfig)>, c: Seq<Seq<char>>, k: int) -> bool {
    texts_of(dependencies_of(objects, c[k])).contains(c[k + 1])
}

/// `c` is a dependency chain: each object after the first is a dependency
/// of the one before it.
pub open spec fn is_chain(objects: Seq<(String, ComponentConfig)>, c: Seq<Seq<char>>) -> bool {
    c.len() >= 1 && forall|k: int| 0 <= k < c.len() - 1 ==> #[trigger] chain_step(objects, c, k)
}

/// Every dependency chain that starts at `x` holds at most `h` objects.
pub open spec fn chains_within(objects: Seq<(String, ComponentConfig)>, x: Seq<char>, h: int) -> bool {
    forall|c: Seq<Seq<char>>| #[trigger] is_chain(objects, c) && c[0] == x ==> c.len() <= h
}

/// Some dependency chain that starts at `x` holds `h` objects.
pub open spec fn chain_of(objects: Seq<(String, ComponentConfig)>, x: Seq<char>, h: int) -> bool {
    exists|c: Seq<Seq<char>>| #[trigger] is_chain(objects, c) && c[0] == x && c.len() == h
}

/// The longest dependency chain that starts at `x` holds `h` objects.
pub open spec fn height_is(objects: Seq<(String, ComponentConfig)>, x: Seq<char>, h: nat) -> bool {
    chains_within(objects, x, h as int) && chain_of(objects, x, h as int)
}

/// Every finished depth is the height of its object.
pub open spec fn heights_recorded(objects: Seq<(String, ComponentConfig)>, done: Map<Seq<char>, nat>) -> bool {
    forall|x: Seq<char>| #[trigger] done.contains_key(x) ==> height_is(objects, x, done[x])
}

/// No dependency chain that starts at one of `objects` holds more than 64
/// objects. A cycle gives chains of every length, so this also says that
/// no object depends on itself.
pub open spec fn chains_bounded(objects: Seq<(String, ComponentConfig)>) -> bool {
    forall|k: int| 0 <= k < objects.len() ==> chains_within(objects, #[trigger] objects[k].0@, 64)
}

proof fn lemma_chain_prepend(objects: Seq<(String, ComponentConfig)>, x: Seq<char>, c: Seq<Seq<char>>)
    requires
        is_chain(objects, c),
        texts_of(dependencies_of(objects, x)).contains(c[0]),
    ensures
        is_chain(objects, seq![x] + c),
        (seq![x] + c)[0] == x,
        (seq![x] + c).len() == c.len() + 1,
{
    let d = seq![x] + c;
    assert forall|k: int| 0 <= k < d.len() - 1 implies #[trigger] chain_step(objects, d, k) by {
        if k > 0 {
            assert(chain_step(objects, c, k - 1));
            assert(d[k] == c[k - 1] && d[k + 1] == c[k]);
        } else {
            assert(d[1] == c[0]);
        }
    }
}

proof fn lemma_chain_tail(objects: Seq<(String, ComponentConfig)>, c: Seq<Seq<char>>)
    requires
        is_chain(objects, c),
        c.len() >= 2,
    ensures
        is_chain(objects, c.skip(1)),
        c.skip(1)[0] == c[1],
        texts_of(dependencies_of(objects, c[0])).contains(c[1]),
{
    let d = c.skip(1);
    assert(chain_step(objects, c, 0));
    assert forall|k: int| 0 <= k < d.len() - 1 implies #[trigger] chain_step(objects, d, k) by {
        assert(chain_step(objects, c, k + 1));
        assert(d[k] == c[k + 1] && d[k + 1] == c[k + 2]);
    }
}

/// Following `path` round from a repeated object gives a chain as long as
/// wanted.
proof fn lemma_cycle_chain(objects: Seq<(String, ComponentConfig)>, path: Seq<Seq<char>>, name: Seq<char>, j: int)
    requires
        is_chain(objects, path.push(name)),
        0 <= j < path.len(),
        path[j] == name,
    ensures
        chain_of(objects, name, 65),
{
    let p = path.push(name);
    let m = path.len() - j;
    let c = Seq::new(65, |t: int| path[j + t % m]);
    assert forall|t: int| 0 <= t < c.len() - 1 implies #[trigger] chain_step(objects, c, t) by {
        vstd::arithmetic::div_mod::lemma_fundamental_div_mod(t, m);
        vstd::arithmetic::div_mod::lemma_mod_pos_bound(t, m);
        let q = t / m;
        let r = t % m;
        assert(t == q * m + r) by (nonlinear_arith)
            requires
                t == m * (t / m) + (t % m),
                q == t / m,
                r == t % m,
        ;
        if r + 1 < m {
            vstd::arithmetic::div_mod::lemma_fundamental_div_mod_converse(t + 1, m, q, r + 1);
            assert(chain_step(objects, p, j + r));
            assert(p[j + r] == path[j + r] && p[j + r + 1] == path[j + r + 1]);
        } else {
            assert(t + 1 == (q + 1) * m + 0) by (nonlinear_arith)
                requires
                    t == q * m + r,
                    r + 1 == m,
            ;
            vstd::arithmetic::div_mod::lemma_fundamental_div_mod_converse(t + 1, m, q + 1, 0);
            assert(chain_step(objects, p, path.len() - 1));
            assert(p[path.len() - 1] == path[path.len() - 1] && p[path.len() as int] == name);
        }
    }
    assert(c[0] == name) by {
        vstd::arithmetic::div_mod::lemma_small_mod(0, m as nat);
    }
    assert(is_chain(objects, c));
}

proof fn lemma_visit_graph(
    objects: Seq<(String, ComponentConfig)>,
    name: Seq<char>,
    path: Seq<Seq<char>>,
    done: Map<Seq<char>, nat>,
)
    requires
        heights_recorded(objects, done),
        is_chain(objects, path.push(name)),
    ensures
        match spec_visit(objects, name, path, done).0 {
            Ok(d) => height_is(objects, name, d) && path.len() + d <= 64 && heights_recorded(
                objects,
                spec_visit(objects, name, path, done).1,
            ),
            Err(_) => !chains_within(objects, name, 64 - path.len()),
        },
    decreases 64 - path.len(), 0int,
{
    let known: nat = if done.contains_key(name) {
        done[name]
    } else {
        1
    };
    if path.len() + known > 64 {
        if done.contains_key(name) {
            assert(height_is(objects, name, done[name]));
        } else {
            let c = seq![name];
            assert(is_chain(objects, c));
        }
    } else if done.contains_key(name) {
        assert(height_is(objects, name, done[name]));
    } else if path.contains(name) {
        let j = choose|j: int| 0 <= j < path.len() && path[j] == name;
        lemma_cycle_chain(objects, path, name, j);
    } else {
        let p = path.push(name);
        assert(p.last() == name);
        let c = seq![name];
        assert(is_chain(objects, c));
        lemma_visit_all_graph(objects, dependencies_of(objects, name), 0, p, done, 1);
        let (r, after) = spec_visit_all(objects, dependencies_of(objects, name), 0, p, done, 1);
        match r {
            Ok(d) => {
                let a = after.insert(name, d);
                assert forall|x: Seq<char>| #[trigger] a.contains_key(x) implies height_is(objects, x, a[x]) by {
                    if x != name {
                        assert(after.contains_key(x));
                    }
                }
            },
            Err(_) => {},
        }
    }
}

proof fn lemma_visit_all_graph(
    objects: Seq<(String, ComponentConfig)>,
    deps: Seq<String>,
    i: int,
    path: Seq<Seq<char>>,
    done: Map<Seq<char>, nat>,
    depth: nat,
)
    requires
        heights_recorded(objects, done),
        is_chain(objects, path),
        deps == dependencies_of(objects, path.last()),
        0 <= i <= deps.len(),
        1 <= depth,
        path.len() + depth <= 65,
        chain_of(objects, path.last(), depth as int),
        forall|k: int| 0 <= k < i ==> chains_within(objects, #[trigger] deps[k]@, depth - 1),
    ensures
        match spec_visit_all(objects, deps, i, path, done, depth).0 {
            Ok(d) => height_is(objects, path.last(), d) && path.len() + d <= 65 && heights_recorded(
                objects,
                spec_visit_all(objects, deps, i, path, done, depth).1,
            ),
            Err(_) => !chains_within(objects, path.last(), 65 - path.len()),
        },
    decreases 64 - path.len(), 1 + deps.len() - i,
{
    let top = path.last();
    if i >= deps.len() {
        assert forall|c: Seq<Seq<char>>| #[trigger] is_chain(objects, c) && c[0] == top implies c.len() <= depth by {
            if c.len() >= 2 {
                lemma_chain_tail(objects, c);
                let k = choose|k: int| 0 <= k < texts_of(deps).len() && texts_of(deps)[k] == c[1];
                assert(deps[k]@ == c[1]);
                assert(chains_within(objects, deps[k]@, depth - 1));
                assert(is_chain(objects, c.skip(1)) && c.skip(1)[0] == deps[k]@);
            }
        }
    } else {
        let x = deps[i]@;
        let p = path.push(x);
        assert(texts_of(deps)[i] == x);
        assert forall|k: int| 0 <= k < p.len() - 1 implies #[trigger] chain_step(objects, p, k) by {
            if k < path.len() - 1 {
                assert(chain_step(objects, path, k));
                assert(p[k] == path[k] && p[k + 1] == path[k + 1]);
            } else {
                assert(p[k] == top && p[k + 1] == x);
            }
        }
        assert(is_chain(objects, p));
        lemma_visit_graph(objects, x, path, done);
        let (r, after) = spec_visit(objects, x, path, done);
        match r {
            Err(_) => {
                let c = choose|c: Seq<Seq<char>>| #[trigger] is_chain(objects, c) && c[0] == x && c.len() > 64
                    - path.len();
                lemma_chain_prepend(objects, top, c);
                assert(is_chain(objects, seq![top] + c) && (seq![top] + c)[0] == top);
            },
            Ok(d) => {
                let next: nat = if 1 + d > depth {
                    (1 + d) as nat
                } else {
                    depth
                };
                if 1 + d > depth {
                    let c = choose|c: Seq<Seq<char>>| #[trigger] is_chain(objects, c) && c[0] == x && c.len() == d;
                    lemma_chain_prepend(objects, top, c);
                    assert(is_chain(objects, seq![top] + c) && (seq![top] + c)[0] == top);
                }
                assert forall|k: int| 0 <= k < i + 1 implies chains_within(objects, #[trigger] deps[k]@, next - 1) by {
                    if k < i {
                        assert(chains_within(objects, deps[k]@, depth - 1));
                    }
                }
                lemma_visit_all_graph(objects, deps, i + 1, path, after, next);
            },
        }
    }
}

proof fn lemma_detect_graph(objects: Seq<(String, ComponentConfig)>, i: int, done: Map<Seq<char>, nat>)
    requires
        heights_recorded(objects, done),
        0 <= i <= objects.len(),
    ensures
        spec_detect(objects, i, done) is None <==> forall|k: int|
            i <= k < objects.len() ==> chains_within(objects, #[trigger] objects[k].0@, 64),
    decreases objects.len() - i,
{
    if i < objects.len() {
        let name = objects[i].0@;
        let c = seq![name];
        assert(is_chain(objects, Seq::<Seq<char>>::empty().push(name))) by {
            assert(Seq::<Seq<char>>::empty().push(name) =~= c);
        }
        lemma_visit_graph(objects, name, Seq::empty(), done);
        let (r, after) = spec_visit(objects, name, Seq::empty(), done);
        if r is Ok {
            lemma_detect_graph(objects, i + 1, after);
            if spec_detect(objects, i, done) is None {
                assert forall|k: int| i <= k < objects.len() implies chains_within(
                    objects,
                    #[trigger] objects[k].0@,
                    64,
                ) by {
                    if k == i {
                        assert(chains_within(objects, name, 64));
                    }
                }
            }
        }
    }
}

/// The dependency check passes exactly when no dependency chain that
/// starts at one of the objects holds more than 64 objects: what it
/// decides is a property of the dependency graph, not of the order in
/// which the objects are visited.
pub proof fn law_dependency_check_decides_chain_length(objects: Seq<(String, ComponentConfig)>)
    ensures
        spec_detect(objects, 0, Map::empty()) is None <==> chains_bounded(objects),
{
    lemma_detect_graph(objects, 0, Map::empty());
}

/// Two listings of the same objects, with the same dependencies, pass or
/// fail the dependency check together, whatever order each lists them in.
pub proof fn law_dependency_check_ignores_order(a: Seq<(String, ComponentConfig)>, b: Seq<(String, ComponentConfig)>)
    requires
        forall|n: Seq<char>| #[trigger] dependencies_of(a, n) == dependencies_of(b, n),
        forall|k: int| 0 <= k < a.len() ==> exists|l: int| 0 <= l < b.len() && b[l].0@ == (#[trigger] a[k]).0@,
        forall|l: int| 0 <= l < b.len() ==> exists|k: int| 0 <= k < a.len() && a[k].0@ == (#[trigger] b[l]).0@,
    ensures
        spec_detect(a, 0, Map::empty()) is None <==> spec_detect(b, 0, Map::empty()) is None,
{
    lemma_detect_graph(a, 0, Map::empty());
    lemma_detect_graph(b, 0, Map::empty());
    assert forall|c: Seq<Seq<char>>| is_chain(a, c) <==> is_chain(b, c) by {
        assert forall|k: int| chain_step(a, c, k) <==> chain_step(b, c, k) by {
            assert(dependencies_of(a, c[k]) == dependencies_of(b, c[k]));
        }
        if is_chain(a, c) {
            assert forall|k: int| 0 <= k < c.len() - 1 implies #[trigger] chain_step(b, c, k) by {
                assert(chain_step(a, c, k));
            }
        }
        if is_chain(b, c) {
            assert forall|k: int| 0 <= k < c.len() - 1 implies #[trigger] chain_step(a, c, k) by {
                assert(chain_step(b, c, k));
            }
        }
    }
    assert forall|x: Seq<char>, h: int| chains_within(a, x, h) <==> chains_within(b, x, h) by {
        if chains_within(a, x, h) {
            assert forall|c: Seq<Seq<char>>| #[trigger] is_chain(b, c) && c[0] == x implies c.len() <= h by {
                assert(is_chain(a, c));
            }
        }
        if chains_within(b, x, h) {
            assert forall|c: Seq<Seq<char>>| #[trigger] is_chain(a, c) && c[0] == x implies c.len() <= h by {
                assert(is_chain(b, c));
            }
        }
    }
    if chains_bounded(a) {
        assert forall|l: int| 0 <= l < b.len() implies chains_within(b, #[trigger] b[l].0@, 64) by {
            let k = choose|k: int| 0 <= k < a.len() && a[k].0@ == b[l].0@;
            assert(chains_within(a, a[k].0@, 64));
        }
    }
    if chains_bounded(b) {
        assert forall|k: int| 0 <= k < a.len() implies chains_within(a, #[trigger] a[k].0@, 64) by {
            let l = choose|l: int| 0 <= l < b.len() && b[l].0@ == a[k].0@;
            assert(chains_within(b, b[l].0@, 64));
        }
    }
}

} // verus!
