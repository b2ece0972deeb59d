//! The order in which the rules of a profile document run. The rules that
//! read numbers as floating point are not decided here: the plan hands them
//! out as pending checks, in the order they run, followed by the first rule
//! that fails, if any. A caller makes the pending checks in order and,
//! when they all pass, reports that failure.
use crate::checks::{
    back_problem, check_metadata_entry, check_object_back, check_object_front, check_pose,
    check_header, check_safety_flag, check_unique_object, claim_object, duplicate_at,
    front_problem, header_problem, pool_entries, pose_pool, spec_metadata_entry, spec_pose,
    spec_pose_pool, spec_safety_flag, spec_split_pose, JointClaims, MetadataNumber, NumericCheck,
};
use crate::document::{ComponentConfig, ProfileDocument};
use crate::error::debug_repr;
use crate::error::ModelError;
use crate::json::{copy_json, copy_string, find_key, Json, JsonV};
use crate::vega::side_lookup;
use vstd::prelude::*;

verus! {

/// A floating-point range check of the rules, made by the caller.
#[derive(Debug)]
pub enum Pending {
    /// Safety flag `flag` of `object` must pass `check`.
    SafetyFlag { object: String, flag: String, check: NumericCheck, value: Json },
    /// The low-battery threshold of `object` plus its hysteresis (each
    /// defaulted where absent) must stay below 100.
    BatteryBudget { object: String, low: Option<Json>, hysteresis: Option<Json> },
    /// `safety.timeout_seconds` and `metadata.timeout_seconds` of `object`
    /// must be the same number.
    TimeoutCopies { object: String, safety: Json, metadata: Json },
    /// Metadata entry `key` of `object` must be a number of kind `kind`.
    Metadata { object: String, key: String, kind: MetadataNumber, value: Json },
    /// `metadata.grasp_torque` of `object` must be a number in [0, 1].
    GraspTorque { object: String, value: Json },
    /// The targets of pose `pose` of `object` must lie within the limits of
    /// the object's joints, position by position; a torso-referenced pose
    /// leaves its first target unjudged.
    PoseTargets { object: String, pose: String, targets: Json, torso: bool },
}

/// A pending check as plain values.
pub enum PendingView {
    SafetyFlag(Seq<char>, Seq<char>, NumericCheck, JsonV),
    BatteryBudget(Seq<char>, Option<JsonV>, Option<JsonV>),
    TimeoutCopies(Seq<char>, JsonV, JsonV),
    Metadata(Seq<char>, Seq<char>, MetadataNumber, JsonV),
    GraspTorque(Seq<char>, JsonV),
    PoseTargets(Seq<char>, Seq<char>, JsonV, bool),
}

pub open spec fn opt_json(o: Option<Json>) -> Option<JsonV> {
    match o {
        Some(j) => Some(j.view_json()),
        None => None,
    }
}

impl Pending {
    pub open spec fn view(&self) -> PendingView {
        match self {
            Pending::SafetyFlag { object, flag, check, value } => PendingView::SafetyFlag(
                object@,
                flag@,
                *check,
                value.view_json(),
            ),
            Pending::BatteryBudget { object, low, hysteresis } => PendingView::BatteryBudget(
                object@,
                opt_json(*low),
                opt_json(*hysteresis),
            ),
            Pending::TimeoutCopies { object, safety, metadata } => PendingView::TimeoutCopies(
                object@,
                safety.view_json(),
                metadata.view_json(),
            ),
            Pending::Metadata { object, key, kind, value } => PendingView::Metadata(
                object@,
                key@,
                *kind,
                value.view_json(),
            ),
            Pending::GraspTorque { object, value } => PendingView::GraspTorque(object@, value.view_json()),
            Pending::PoseTargets { object, pose, targets, torso } => PendingView::PoseTargets(
                object@,
                pose@,
                targets.view_json(),
                *torso,
            ),
        }
    }
}

/// The pending checks of a list, as plain values.
pub open spec fn pending_views(s: Seq<Pending>) -> Seq<PendingView> {
    s.map_values(|p: Pending| p.view())
}

/// A plan as plain values: the pending checks in order, then the failure.
pub type PlanView = (Seq<PendingView>, Option<Seq<char>>);

/// Runs `a`, then `b` unless `a` failed.
pub open spec fn then(a: PlanView, b: PlanView) -> PlanView {
    if a.1 is Some {
        a
    } else {
        (a.0 + b.0, b.1)
    }
}

/// A plan that only fails, or only passes.
pub open spec fn outcome(problem: Option<Seq<char>>) -> PlanView {
    (Seq::empty(), problem)
}

/// What failure `e` reports as the plain failure `m`.
pub open spec fn failure_is(e: Option<ModelError>, m: Option<Seq<char>>) -> bool {
    match (e, m) {
        (None, None) => true,
        (Some(ModelError::Validation(t)), Some(u)) => t@ == u,
        _ => false,
    }
}

/// The plan of the safety flags `entries[i..]` of object `name`.
pub open spec fn safety_plan(name: Seq<char>, c: ComponentConfig, entries: Seq<(String, Json)>, i: int) -> PlanView
    decreases entries.len() - i,
{
    if i < 0 || i >= entries.len() {
        outcome(None)
    } else {
        match spec_safety_flag(name, c, entries[i].0@, entries[i].1.view_json()) {
            Err(m) => outcome(Some(m)),
            Ok(checks) => then(
                (
                    checks.map_values(
                        |k: NumericCheck| PendingView::SafetyFlag(name, entries[i].0@, k, entries[i].1.view_json()),
                    ),
                    None,
                ),
                safety_plan(name, c, entries, i + 1),
            ),
        }
    }
}

proof fn lemma_then_assoc(a: PlanView, b: PlanView, c: PlanView)
    ensures
        then(then(a, b), c) == then(a, then(b, c)),
{
    assert(a.0 + b.0 + c.0 =~= a.0 + (b.0 + c.0));
}

proof fn lemma_pending_push(s: Seq<Pending>, p: Pending)
    ensures
        pending_views(s.push(p)) == pending_views(s).push(p.view()),
{
    assert(pending_views(s.push(p)) =~= pending_views(s).push(p.view()));
}

/// Appends the plan of the safety flags of object `name` to `checks`; see
/// [`safety_plan`].
fn plan_safety(name: &str, c: &ComponentConfig, checks: &mut Vec<Pending>) -> (r: Option<ModelError>)
    requires
        c.wf(),
    ensures
        pending_views(final(checks)@) == pending_views(old(checks)@) + safety_plan(name@, *c, c.safety@, 0).0,
        failure_is(r, safety_plan(name@, *c, c.safety@, 0).1),
{
    let entries = &c.safety;
    let mut i: usize = 0;
    let ghost start = old(checks)@;
    proof {
        assert(pending_views(checks@) =~= pending_views(start) + Seq::<PendingView>::empty());
    }
    while i < entries.len()
        invariant
            entries@ == c.safety@,
            start == old(checks)@,
            c.wf(),
            i <= entries@.len(),
            safety_plan(name@, *c, entries@, 0) == then(
                (pending_views(checks@).subrange(start.len() as int, pending_views(checks@).len() as int), None),
                safety_plan(name@, *c, entries@, i as int),
            ),
            pending_views(checks@).len() >= start.len(),
            pending_views(checks@).subrange(0, start.len() as int) == pending_views(start),
        decreases entries@.len() - i,
    {
        let ghost before = checks@;
        let flag = entries[i].0.as_str();
        let value = &entries[i].1;
        match check_safety_flag(name, c, flag, value) {
            Err(e) => {
                proof {
                    let done = pending_views(checks@).subrange(start.len() as int, pending_views(checks@).len() as int);
                    assert(safety_plan(name@, *c, entries@, i as int).0 =~= Seq::<PendingView>::empty());
                    assert(safety_plan(name@, *c, entries@, 0).0 =~= done);
                    assert(pending_views(checks@) =~= pending_views(start) + done);
                }
                return Some(e);
            },
            Ok(found) => {
                let ghost ks = found@;
                let mut k: usize = 0;
                while k < found.len()
                    invariant
                        k <= found@.len(),
                        found@ == ks,
                        value.wf(),
                        pending_views(checks@) == pending_views(before) + ks.take(k as int).map_values(
                            |n: NumericCheck| PendingView::SafetyFlag(name@, flag@, n, value.view_json()),
                        ),
                    decreases found@.len() - k,
                {
                    let ghost prev = checks@;
                    checks.push(
                        Pending::SafetyFlag {
                            object: name.to_owned(),
                            flag: flag.to_owned(),
                            check: found[k],
                            value: copy_json(value),
                        },
                    );
                    proof {
                        lemma_pending_push(prev, checks@.last());
                        assert(ks.take(k + 1) =~= ks.take(k as int).push(ks[k as int]));
                        assert(pending_views(checks@) =~= pending_views(before) + ks.take(k + 1).map_values(
                            |n: NumericCheck| PendingView::SafetyFlag(name@, flag@, n, value.view_json()),
                        ));
                    }
                    k = k + 1;
                }
                proof {
                    assert(ks.take(ks.len() as int) =~= ks);
                    let here = ks.map_values(
                        |n: NumericCheck| PendingView::SafetyFlag(name@, flag@, n, value.view_json()),
                    );
                    assert(safety_plan(name@, *c, entries@, i as int) == then(
                        (here, None),
                        safety_plan(name@, *c, entries@, i + 1),
                    ));
                    let done = pending_views(before).subrange(start.len() as int, pending_views(before).len() as int);
                    lemma_then_assoc((done, None), (here, None), safety_plan(name@, *c, entries@, i + 1));
                    assert(pending_views(checks@).subrange(start.len() as int, pending_views(checks@).len() as int)
                        =~= done + here);
                    assert(pending_views(checks@).subrange(0, start.len() as int) =~= pending_views(start));
                }
            },
        }
        i = i + 1;
    }
    proof {
        assert(pending_views(checks@) =~= pending_views(start) + safety_plan(name@, *c, entries@, 0).0);
    }
    None
}

/// The plan of the metadata entries `entries[i..]` of object `name`.
pub open spec fn metadata_plan(name: Seq<char>, entries: Seq<(String, Json)>, i: int) -> PlanView
    decreases entries.len() - i,
{
    if i < 0 || i >= entries.len() {
        outcome(None)
    } else {
        match spec_metadata_entry(name, entries[i].0@, entries[i].1.view_json()) {
            Err(m) => outcome(Some(m)),
            Ok(None) => metadata_plan(name, entries, i + 1),
            Ok(Some(kind)) => then(
                (seq![PendingView::Metadata(name, entries[i].0@, kind, entries[i].1.view_json())], None),
                metadata_plan(name, entries, i + 1),
            ),
        }
    }
}

/// Appends the plan of the metadata entries of object `name` to `checks`;
/// see [`metadata_plan`].
fn plan_metadata(name: &str, c: &ComponentConfig, checks: &mut Vec<Pending>) -> (r: Option<ModelError>)
    requires
        c.wf(),
    ensures
        pending_views(final(checks)@) == pending_views(old(checks)@) + metadata_plan(name@, c.metadata@, 0).0,
        failure_is(r, metadata_plan(name@, c.metadata@, 0).1),
{
    let entries = &c.metadata;
    let mut i: usize = 0;
    let ghost start = old(checks)@;
    proof {
        assert(pending_views(checks@).subrange(start.len() as int, pending_views(checks@).len() as int)
            =~= Seq::<PendingView>::empty());
        assert(pending_views(checks@).subrange(0, start.len() as int) =~= pending_views(start));
    }
    while i < entries.len()
        invariant
            entries@ == c.metadata@,
            start == old(checks)@,
            c.wf(),
            i <= entries@.len(),
            metadata_plan(name@, entries@, 0) == then(
                (pending_views(checks@).subrange(start.len() as int, pending_views(checks@).len() as int), None),
                metadata_plan(name@, entries@, i as int),
            ),
            pending_views(checks@).len() >= start.len(),
            pending_views(checks@).subrange(0, start.len() as int) == pending_views(start),
        decreases entries@.len() - i,
    {
        let ghost before = checks@;
        let ghost done = pending_views(before).subrange(start.len() as int, pending_views(before).len() as int);
        let key = entries[i].0.as_str();
        let value = &entries[i].1;
        match check_metadata_entry(name, key, value) {
            Err(e) => {
                proof {
                    assert(metadata_plan(name@, entries@, i as int).0 =~= Seq::<PendingView>::empty());
                    assert(metadata_plan(name@, entries@, 0).0 =~= done);
                    assert(pending_views(checks@) =~= pending_views(start) + done);
                }
                return Some(e);
            },
            Ok(None) => {},
            Ok(Some(kind)) => {
                checks.push(Pending::Metadata { object: name.to_owned(), key: key.to_owned(), kind, value: copy_json(value) });
                proof {
                    lemma_pending_push(before, checks@.last());
                    let here = seq![PendingView::Metadata(name@, key@, kind, value.view_json())];
                    lemma_then_assoc((done, None), (here, None), metadata_plan(name@, entries@, i + 1));
                    assert(pending_views(checks@).subrange(start.len() as int, pending_views(checks@).len() as int)
                        =~= done + here);
                    assert(pending_views(checks@).subrange(0, start.len() as int) =~= pending_views(start));
                }
            },
        }
        i = i + 1;
    }
    proof {
        assert(pending_views(checks@) =~= pending_views(start) + metadata_plan(name@, entries@, 0).0);
    }
    None
}

/// The value of the entry keyed `key`, copied.
fn lookup(entries: &Vec<(String, Json)>, key: &str) -> (r: Option<Json>)
    requires
        forall|a: int, b: int| 0 <= a < b < entries@.len() ==> #[trigger] entries@[a].0@ != #[trigger] entries@[b].0@,
        forall|k: int| 0 <= k < entries@.len() ==> (#[trigger] entries@[k]).1.wf(),
    ensures
        opt_json(r) == opt_json(side_lookup(entries@, key@)),
        r matches Some(j) ==> j.wf(),
{
    match find_key(entries, key) {
        Some(i) => {
            proof {
                crate::checks::lemma_side_lookup_unique(entries@, i as int);
            }
            Some(copy_json(&entries[i].1))
        },
        None => {
            proof {
                crate::checks::lemma_side_lookup_absent(entries@, key@);
            }
            None
        },
    }
}

/// The battery budget check, where either battery threshold is set.
pub open spec fn budget_plan(name: Seq<char>, c: ComponentConfig) -> PlanView {
    let low = side_lookup(c.safety@, "low_battery_percentage"@);
    let hysteresis = side_lookup(c.safety@, "battery_hysteresis_percentage"@);
    if low is Some || hysteresis is Some {
        (seq![PendingView::BatteryBudget(name, opt_json(low), opt_json(hysteresis))], None)
    } else {
        outcome(None)
    }
}

/// The timeout agreement check, where both copies are set.
pub open spec fn timeout_plan(name: Seq<char>, c: ComponentConfig) -> PlanView {
    match (side_lookup(c.safety@, "timeout_seconds"@), side_lookup(c.metadata@, "timeout_seconds"@)) {
        (Some(s), Some(m)) => (seq![PendingView::TimeoutCopies(name, s.view_json(), m.view_json())], None),
        _ => outcome(None),
    }
}

/// The grip-force range check, where `grasp_torque` is set.
pub open spec fn grasp_plan(name: Seq<char>, c: ComponentConfig) -> PlanView {
    match side_lookup(c.metadata@, "grasp_torque"@) {
        Some(v) => (seq![PendingView::GraspTorque(name, v.view_json())], None),
        None => outcome(None),
    }
}

proof fn lemma_distinct_keys(s: Seq<(String, Json)>)
    requires
        crate::document::sorted_keys(s),
    ensures
        forall|a: int, b: int| 0 <= a < b < s.len() ==> #[trigger] s[a].0@ != #[trigger] s[b].0@,
{
    assert forall|a: int, b: int| 0 <= a < b < s.len() implies #[trigger] s[a].0@ != #[trigger] s[b].0@ by {
        crate::provenance::lemma_lex_irreflexive(s[a].0@);
    }
}

fn plan_budget(name: &str, c: &ComponentConfig, checks: &mut Vec<Pending>)
    requires
        c.wf(),
    ensures
        pending_views(final(checks)@) == pending_views(old(checks)@) + budget_plan(name@, *c).0,
{
    proof {
        lemma_distinct_keys(c.safety@);
    }
    let low = lookup(&c.safety, "low_battery_percentage");
    let hysteresis = lookup(&c.safety, "battery_hysteresis_percentage");
    if low.is_some() || hysteresis.is_some() {
        let ghost before = checks@;
        checks.push(Pending::BatteryBudget { object: name.to_owned(), low, hysteresis });
        proof {
            lemma_pending_push(before, checks@.last());
        }
    } else {
        assert(pending_views(checks@) =~= pending_views(old(checks)@) + budget_plan(name@, *c).0);
    }
}

fn plan_timeout(name: &str, c: &ComponentConfig, checks: &mut Vec<Pending>)
    requires
        c.wf(),
    ensures
        pending_views(final(checks)@) == pending_views(old(checks)@) + timeout_plan(name@, *c).0,
{
    proof {
        lemma_distinct_keys(c.safety@);
        lemma_distinct_keys(c.metadata@);
    }
    let safety = lookup(&c.safety, "timeout_seconds");
    let metadata = lookup(&c.metadata, "timeout_seconds");
    match (safety, metadata) {
        (Some(s), Some(m)) => {
            let ghost before = checks@;
            checks.push(Pending::TimeoutCopies { object: name.to_owned(), safety: s, metadata: m });
            proof {
                lemma_pending_push(before, checks@.last());
            }
        },
        _ => {
            assert(pending_views(checks@) =~= pending_views(old(checks)@) + timeout_plan(name@, *c).0);
        },
    }
}

fn plan_grasp(name: &str, c: &ComponentConfig, checks: &mut Vec<Pending>)
    requires
        c.wf(),
    ensures
        pending_views(final(checks)@) == pending_views(old(checks)@) + grasp_plan(name@, *c).0,
{
    proof {
        lemma_distinct_keys(c.metadata@);
    }
    match lookup(&c.metadata, "grasp_torque") {
        Some(v) => {
            let ghost before = checks@;
            checks.push(Pending::GraspTorque { object: name.to_owned(), value: v });
            proof {
                lemma_pending_push(before, checks@.last());
            }
        },
        None => {
            assert(pending_views(checks@) =~= pending_views(old(checks)@) + grasp_plan(name@, *c).0);
        },
    }
}

/// The number of joint names of `c` (0 for none).
pub open spec fn joint_count(c: ComponentConfig) -> nat {
    match c.joints {
        Some(j) => j.names@.len(),
        None => 0,
    }
}

/// The first problem of the named poses `es[i..]` of object `name`.
pub open spec fn poses_problem(name: Seq<char>, count: nat, es: Seq<(String, Json)>, i: int) -> Option<Seq<char>>
    decreases es.len() - i,
{
    if i < 0 || i >= es.len() {
        None
    } else {
        match spec_pose(name, count, false, es[i].0@, es[i].1.view_json()) {
            Err(m) => Some(m),
            Ok(_) => poses_problem(name, count, es, i + 1),
        }
    }
}

/// The structure of the pose pool of object `name`: the pool as a whole,
/// then each named pose in order.
pub open spec fn pose_structure_problem(name: Seq<char>, c: ComponentConfig) -> Option<Seq<char>> {
    match spec_pose_pool(name, c) {
        Err(m) => Some(m),
        Ok(None) => None,
        Ok(Some(_)) => poses_problem(name, joint_count(c), pool_entries(c), 0),
    }
}

/// Checks the structure of the pose pool of object `name`; see
/// [`pose_structure_problem`].
fn check_pose_structure(name: &str, c: &ComponentConfig) -> (r: Option<ModelError>)
    requires
        c.wf(),
    ensures
        failure_is(r, pose_structure_problem(name@, *c)),
{
    let poses = match pose_pool(name, c) {
        Err(e) => {
            return Some(e);
        },
        Ok(None) => {
            return None;
        },
        Ok(Some(poses)) => poses,
    };
    let count: usize = match &c.joints {
        Some(j) => j.names.len(),
        None => 0,
    };
    let mut i: usize = 0;
    while i < poses.len()
        invariant
            i <= poses@.len(),
            poses@ == pool_entries(*c),
            spec_pose_pool(name@, *c) matches Ok(Some(_)),
            count == joint_count(*c),
            forall|k: int| 0 <= k < poses@.len() ==> (#[trigger] poses@[k]).1.wf(),
            poses_problem(name@, count as nat, poses@, 0) == poses_problem(name@, count as nat, poses@, i as int),
        decreases poses@.len() - i,
    {
        match check_pose(name, count, false, poses[i].0.as_str(), &poses[i].1) {
            Err(e) => {
                return Some(e);
            },
            Ok(_) => {},
        }
        i = i + 1;
    }
    None
}

/// The plan of runtime object `name`, in the order its rules run: its
/// name, driver and endpoints; its safety flags, then the battery budget
/// and the timeout copies; its metadata entries; the structure of its
/// pose pool; its grip force; its capabilities and joints.
pub open spec fn component_plan(name: Seq<char>, c: ComponentConfig) -> PlanView {
    then(
        outcome(front_problem(name, c)),
        then(
            safety_plan(name, c, c.safety@, 0),
            then(
                budget_plan(name, c),
                then(
                    timeout_plan(name, c),
                    then(
                        metadata_plan(name, c.metadata@, 0),
                        then(
                            outcome(pose_structure_problem(name, c)),
                            then(grasp_plan(name, c), outcome(back_problem(name, c))),
                        ),
                    ),
                ),
            ),
        ),
    )
}

/// Appends the plan of runtime object `name` to `checks` and returns its
/// failure; see [`component_plan`].
pub fn plan_component(name: &str, c: &ComponentConfig, checks: &mut Vec<Pending>) -> (r: Option<ModelError>)
    requires
        c.wf(),
    ensures
        pending_views(final(checks)@) == pending_views(old(checks)@) + component_plan(name@, *c).0,
        failure_is(r, component_plan(name@, *c).1),
{
    let ghost v0 = pending_views(checks@);
    let ghost e = Seq::<PendingView>::empty();
    if let Err(error) = check_object_front(name, c) {
        assert(pending_views(checks@) =~= v0 + component_plan(name@, *c).0);
        return Some(error);
    }
    let ghost sp = safety_plan(name@, *c, c.safety@, 0);
    if let Some(error) = plan_safety(name, c, checks) {
        assert(pending_views(checks@) =~= v0 + component_plan(name@, *c).0);
        return Some(error);
    }
    plan_budget(name, c, checks);
    plan_timeout(name, c, checks);
    let ghost v1 = pending_views(checks@);
    proof {
        assert(v1 =~= v0 + (sp.0 + budget_plan(name@, *c).0 + timeout_plan(name@, *c).0));
    }
    let ghost mp = metadata_plan(name@, c.metadata@, 0);
    if let Some(error) = plan_metadata(name, c, checks) {
        assert(pending_views(checks@) =~= v0 + component_plan(name@, *c).0);
        return Some(error);
    }
    if let Some(error) = check_pose_structure(name, c) {
        assert(pending_views(checks@) =~= v0 + component_plan(name@, *c).0);
        return Some(error);
    }
    plan_grasp(name, c, checks);
    let ghost v2 = pending_views(checks@);
    proof {
        assert(v2 =~= v1 + (mp.0 + grasp_plan(name@, *c).0));
    }
    if let Err(error) = check_object_back(name, c) {
        assert(pending_views(checks@) =~= v0 + component_plan(name@, *c).0);
        return Some(error);
    }
    assert(pending_views(checks@) =~= v0 + component_plan(name@, *c).0);
    None
}

/// Object `i` repeats the name of an earlier object.
pub open spec fn duplicate_name(objects: Seq<(String, ComponentConfig)>, i: int) -> bool {
    exists|k: int| 0 <= k < i && #[trigger] objects[k].0@ == objects[i].0@
}

pub open spec fn duplicate_problem(objects: Seq<(String, ComponentConfig)>, i: int) -> Option<Seq<char>> {
    if duplicate_name(objects, i) {
        Some("duplicate runtime object "@ + debug_repr(objects[i].0@))
    } else {
        None
    }
}

/// The plan of the runtime objects `objects[i..]`: each object's name must
/// be new, then its own plan runs.
pub open spec fn objects_plan(objects: Seq<(String, ComponentConfig)>, i: int) -> PlanView
    decreases objects.len() - i,
{
    if i < 0 || i >= objects.len() {
        outcome(None)
    } else {
        then(
            outcome(duplicate_problem(objects, i)),
            then(component_plan(objects[i].0@, objects[i].1), objects_plan(objects, i + 1)),
        )
    }
}

/// The components and then the sensors of a document.
pub open spec fn runtime_objects(doc: ProfileDocument) -> Seq<(String, ComponentConfig)> {
    doc.components@ + doc.sensors@
}

/// Every runtime object of the document has its keyed sections in order.
pub open spec fn objects_wf(doc: ProfileDocument) -> bool {
    forall|k: int| 0 <= k < runtime_objects(doc).len() ==> (#[trigger] runtime_objects(doc)[k]).1.wf()
}

/// The plan of a document: its header, then each runtime object, the
/// components first and then the sensors.
pub open spec fn document_plan(doc: ProfileDocument) -> PlanView {
    then(outcome(header_problem(doc)), objects_plan(runtime_objects(doc), 0))
}

/// The plan of the document `doc`; see [`document_plan`]. The rules over
/// all runtime objects together (publisher topics, dependencies and their
/// depth) run after a plan that passes.
pub fn validation_plan(doc: &ProfileDocument) -> (r: (Vec<Pending>, Option<ModelError>))
    requires
        objects_wf(*doc),
        doc.components@.len() + doc.sensors@.len() <= usize::MAX,
    ensures
        pending_views(r.0@) == document_plan(*doc).0,
        failure_is(r.1, document_plan(*doc).1),
{
    let mut checks: Vec<Pending> = Vec::new();
    proof {
        assert(pending_views(checks@) =~= Seq::<PendingView>::empty());
    }
    if let Err(error) = check_header(doc) {
        return (checks, Some(error));
    }
    let ghost all = runtime_objects(*doc);
    let nc = doc.components.len();
    let total = nc + doc.sensors.len();
    let mut names: Vec<String> = Vec::new();
    let mut k: usize = 0;
    while k < total
        invariant
            all == runtime_objects(*doc),
            nc == doc.components@.len(),
            total == all.len(),
            objects_wf(*doc),
            header_problem(*doc) is None,
            k <= total,
            names@.len() == k,
            forall|j: int| 0 <= j < k ==> (#[trigger] names@[j])@ == all[j].0@,
            document_plan(*doc) == then((pending_views(checks@), None), objects_plan(all, k as int)),
        decreases total - k,
    {
        let entry = if k < nc {
            &doc.components[k]
        } else {
            &doc.sensors[k - nc]
        };
        assert(*entry == all[k as int]);
        let ghost before = checks@;
        let ghost prev_names = names@;
        names.push(copy_string(&entry.0));
        proof {
            assert forall|j: int| 0 <= j <= k implies (#[trigger] names@[j])@ == all[j].0@ by {
                if j < k {
                    assert(names@[j] == prev_names[j]);
                }
            }
            if duplicate_at(names@, k as int) {
                let j = choose|j: int| 0 <= j < k && #[trigger] names@[j]@ == names@[k as int]@;
                assert(all[j].0@ == all[k as int].0@);
            }
            if duplicate_name(all, k as int) {
                let j = choose|j: int| 0 <= j < k && #[trigger] all[j].0@ == all[k as int].0@;
                assert(names@[j]@ == names@[k as int]@);
            }
        }
        if let Err(error) = check_unique_object(&names, k) {
            proof {
                assert(pending_views(checks@) =~= pending_views(checks@) + Seq::<PendingView>::empty());
            }
            return (checks, Some(error));
        }
        assert(entry.1.wf());
        let failure = plan_component(entry.0.as_str(), &entry.1, &mut checks);
        proof {
            let cp = component_plan(all[k as int].0@, all[k as int].1);
            lemma_then_assoc((pending_views(before), None), cp, objects_plan(all, k + 1));
        }
        if failure.is_some() {
            return (checks, failure);
        }
        k = k + 1;
    }
    proof {
        assert(pending_views(checks@) + Seq::<PendingView>::empty() =~= pending_views(checks@));
    }
    (checks, None)
}

/// The targets of a pose entry that passed its structural checks.
pub open spec fn pose_targets(entry: JsonV) -> JsonV {
    spec_split_pose(entry)->Ok_0.0
}

/// The checks of the named poses `es[i..]` of object `name` once its
/// joints are final: each pose's structure, then its targets against the
/// joint limits.
pub open spec fn resolved_poses_plan(name: Seq<char>, count: nat, es: Seq<(String, Json)>, i: int) -> PlanView
    decreases es.len() - i,
{
    if i < 0 || i >= es.len() {
        outcome(None)
    } else {
        match spec_pose(name, count, true, es[i].0@, es[i].1.view_json()) {
            Err(m) => outcome(Some(m)),
            Ok(torso) => then(
                (seq![PendingView::PoseTargets(name, es[i].0@, pose_targets(es[i].1.view_json()), torso)], None),
                resolved_poses_plan(name, count, es, i + 1),
            ),
        }
    }
}

/// The pose checks of object `name` once its joints are final.
pub open spec fn resolved_pose_plan(name: Seq<char>, c: ComponentConfig) -> PlanView {
    match spec_pose_pool(name, c) {
        Err(m) => outcome(Some(m)),
        Ok(None) => outcome(None),
        Ok(Some(_)) => resolved_poses_plan(name, joint_count(c), pool_entries(c), 0),
    }
}

/// The checks of the runtime objects `objects[i..]` once their joints are
/// final: each object's poses, then its claim on its joints (`claims`
/// holds the joints claimed before).
pub open spec fn resolved_objects_plan(
    objects: Seq<(String, ComponentConfig)>,
    i: int,
    claims: Map<Seq<char>, Seq<char>>,
) -> PlanView
    decreases objects.len() - i,
{
    if i < 0 || i >= objects.len() {
        outcome(None)
    } else {
        then(
            resolved_pose_plan(objects[i].0@, objects[i].1),
            match claim_object(claims, objects[i].0@, objects[i].1) {
                Err(m) => outcome(Some(m)),
                Ok(next) => resolved_objects_plan(objects, i + 1, next),
            },
        )
    }
}

/// The checks of a document once its joints are final: every runtime
/// object's poses and joint claims, components first.
pub open spec fn resolved_plan(doc: ProfileDocument) -> PlanView {
    resolved_objects_plan(runtime_objects(doc), 0, Map::empty())
}

/// Appends the pose checks of object `name` once its joints are final;
/// see [`resolved_pose_plan`].
fn plan_resolved_poses(name: &str, c: &ComponentConfig, checks: &mut Vec<Pending>) -> (r: Option<ModelError>)
    requires
        c.wf(),
    ensures
        pending_views(final(checks)@) == pending_views(old(checks)@) + resolved_pose_plan(name@, *c).0,
        failure_is(r, resolved_pose_plan(name@, *c).1),
{
    let poses = match pose_pool(name, c) {
        Err(e) => {
            assert(pending_views(checks@) =~= pending_views(old(checks)@) + resolved_pose_plan(name@, *c).0);
            return Some(e);
        },
        Ok(None) => {
            assert(pending_views(checks@) =~= pending_views(old(checks)@) + resolved_pose_plan(name@, *c).0);
            return None;
        },
        Ok(Some(poses)) => poses,
    };
    let count: usize = match &c.joints {
        Some(j) => j.names.len(),
        None => 0,
    };
    let ghost start = old(checks)@;
    let ghost plan = resolved_poses_plan(name@, count as nat, poses@, 0);
    proof {
        assert(pending_views(checks@).subrange(start.len() as int, pending_views(checks@).len() as int)
            =~= Seq::<PendingView>::empty());
        assert(pending_views(checks@).subrange(0, start.len() as int) =~= pending_views(start));
    }
    let mut i: usize = 0;
    while i < poses.len()
        invariant
            i <= poses@.len(),
            start == old(checks)@,
            poses@ == pool_entries(*c),
            spec_pose_pool(name@, *c) matches Ok(Some(_)),
            count == joint_count(*c),
            plan == resolved_poses_plan(name@, count as nat, poses@, 0),
            forall|k: int| 0 <= k < poses@.len() ==> (#[trigger] poses@[k]).1.wf(),
            plan == then(
                (pending_views(checks@).subrange(start.len() as int, pending_views(checks@).len() as int), None),
                resolved_poses_plan(name@, count as nat, poses@, i as int),
            ),
            pending_views(checks@).len() >= start.len(),
            pending_views(checks@).subrange(0, start.len() as int) == pending_views(start),
        decreases poses@.len() - i,
    {
        let ghost before = checks@;
        let ghost done = pending_views(before).subrange(start.len() as int, pending_views(before).len() as int);
        let pose = poses[i].0.as_str();
        let entry = &poses[i].1;
        match check_pose(name, count, true, pose, entry) {
            Err(e) => {
                proof {
                    assert(resolved_poses_plan(name@, count as nat, poses@, i as int).0 =~= Seq::<PendingView>::empty());
                    assert(plan.0 =~= done);
                    assert(pending_views(checks@) =~= pending_views(start) + done);
                }
                return Some(e);
            },
            Ok(torso) => {
                let targets = match entry {
                    Json::Object(_) => match crate::vega::get_member(entry, "joint_pos") {
                        Some(t) => copy_json(t),
                        None => Json::Null,
                    },
                    _ => copy_json(entry),
                };
                assert(targets.view_json() == pose_targets(entry.view_json()));
                checks.push(Pending::PoseTargets { object: name.to_owned(), pose: pose.to_owned(), targets, torso });
                proof {
                    lemma_pending_push(before, checks@.last());
                    let here = seq![PendingView::PoseTargets(name@, pose@, pose_targets(entry.view_json()), torso)];
                    lemma_then_assoc((done, None), (here, None), resolved_poses_plan(name@, count as nat, poses@, i + 1));
                    assert(pending_views(checks@).subrange(start.len() as int, pending_views(checks@).len() as int)
                        =~= done + here);
                    assert(pending_views(checks@).subrange(0, start.len() as int) =~= pending_views(start));
                }
            },
        }
        i = i + 1;
    }
    proof {
        assert(pending_views(checks@) =~= pending_views(start) + plan.0);
    }
    None
}

/// The checks of the document `doc` once its joints are final; see
/// [`resolved_plan`].
pub fn resolved_validation_plan(doc: &ProfileDocument) -> (r: (Vec<Pending>, Option<ModelError>))
    requires
        objects_wf(*doc),
        doc.components@.len() + doc.sensors@.len() <= usize::MAX,
    ensures
        pending_views(r.0@) == resolved_plan(*doc).0,
        failure_is(r.1, resolved_plan(*doc).1),
{
    let mut checks: Vec<Pending> = Vec::new();
    let mut claims = JointClaims::new();
    let ghost all = runtime_objects(*doc);
    let nc = doc.components.len();
    let total = nc + doc.sensors.len();
    proof {
        assert(pending_views(checks@) =~= Seq::<PendingView>::empty());
        assert(then((pending_views(checks@), None), resolved_objects_plan(all, 0, claims@)).0
            =~= resolved_plan(*doc).0);
    }
    let mut k: usize = 0;
    while k < total
        invariant
            all == runtime_objects(*doc),
            nc == doc.components@.len(),
            total == all.len(),
            objects_wf(*doc),
            k <= total,
            resolved_plan(*doc) == then((pending_views(checks@), None), resolved_objects_plan(all, k as int, claims@)),
        decreases total - k,
    {
        let entry = if k < nc {
            &doc.components[k]
        } else {
            &doc.sensors[k - nc]
        };
        assert(*entry == all[k as int]);
        assert(entry.1.wf());
        let ghost before = checks@;
        let ghost held = claims@;
        let failure = plan_resolved_poses(entry.0.as_str(), &entry.1, &mut checks);
        let ghost pp = resolved_pose_plan(all[k as int].0@, all[k as int].1);
        if failure.is_some() {
            proof {
                assert(pending_views(checks@) =~= pending_views(checks@) + Seq::<PendingView>::empty());
            }
            return (checks, failure);
        }
        proof {
            let rest = match claim_object(held, all[k as int].0@, all[k as int].1) {
                Err(m) => outcome(Some(m)),
                Ok(next) => resolved_objects_plan(all, k + 1, next),
            };
            lemma_then_assoc((pending_views(before), None), pp, rest);
        }
        if let Err(error) = claims.claim(entry.0.as_str(), &entry.1) {
            proof {
                assert(pending_views(checks@) =~= pending_views(checks@) + Seq::<PendingView>::empty());
            }
            return (checks, Some(error));
        }
        k = k + 1;
    }
    proof {
        assert(pending_views(checks@) + Seq::<PendingView>::empty() =~= pending_views(checks@));
    }
    (checks, None)
}

} // verus!
