//! What the rules need to know of a URDF joint, and the rules themselves.
//! Limits are floating point and are read and checked where the URDF is
//! parsed; here a joint records only which limits it has.
use crate::checks::{blank_or_repeated, has_blank_or_repeated, reports};
use crate::error::{append_debug, debug_repr, ModelError};
use crate::text::{append_str, push_decimal, spec_decimal, str_eq};
use crate::types::JointConfig;
use vstd::prelude::*;

verus! {

/// One joint of a URDF model, as the joint rules see it.
#[derive(Debug, Clone)]
pub struct JointFacts {
    pub name: String,
    pub joint_type: String,
    /// The joint this one mimics, if it mimics one.
    pub mimic_of: Option<String>,
    /// Whether its `<limit>` gives a lower position limit.
    pub has_lower: bool,
    /// Whether its `<limit>` gives an upper position limit.
    pub has_upper: bool,
}

/// The scalar joint types.
pub open spec fn is_scalar_type(t: Seq<char>) -> bool {
    t == "revolute"@ || t == "continuous"@ || t == "prismatic"@
}

fn scalar_type(t: &str) -> (r: bool)
    ensures
        r == is_scalar_type(t@),
{
    str_eq(t, "revolute") || str_eq(t, "continuous") || str_eq(t, "prismatic")
}

/// An independently movable joint: scalar and not mimicking another.
pub open spec fn is_movable(j: JointFacts) -> bool {
    j.mimic_of is None && is_scalar_type(j.joint_type@)
}

/// The names of the movable joints, in document order.
pub open spec fn spec_movable_names(joints: Seq<JointFacts>) -> Seq<Seq<char>>
    decreases joints.len(),
{
    if joints.len() == 0 {
        Seq::empty()
    } else {
        let rest = spec_movable_names(joints.drop_last());
        if is_movable(joints.last()) {
            rest.push(joints.last().name@)
        } else {
            rest
        }
    }
}

/// Independently movable scalar joints, in document order. Mimic joints
/// follow another joint and cannot be commanded.
pub fn movable_joint_names(joints: &Vec<JointFacts>) -> (r: Vec<String>)
    ensures
        r@.map_values(|s: String| s@) == spec_movable_names(joints@),
{
    let mut out: Vec<String> = Vec::new();
    let mut i: usize = 0;
    while i < joints.len()
        invariant
            i <= joints@.len(),
            out@.map_values(|s: String| s@) == spec_movable_names(joints@.take(i as int)),
        decreases joints@.len() - i,
    {
        proof {
            assert(joints@.take(i + 1).drop_last() =~= joints@.take(i as int));
            assert(joints@.take(i + 1).last() == joints@[i as int]);
        }
        let j = &joints[i];
        if j.mimic_of.is_none() && scalar_type(j.joint_type.as_str()) {
            let ghost before = out@;
            out.push(j.name.clone());
            proof {
                assert(out@.map_values(|s: String| s@) =~= before.map_values(|s: String| s@).push(
                    j.name@,
                ));
            }
        }
        i = i + 1;
    }
    proof {
        assert(joints@.take(joints@.len() as int) =~= joints@);
    }
    out
}

/// The first joint named `name`.
pub open spec fn joint_named(joints: Seq<JointFacts>, name: Seq<char>) -> Option<JointFacts>
    decreases joints.len(),
{
    if joints.len() == 0 {
        None
    } else if joints[0].name@ == name {
        Some(joints[0])
    } else {
        joint_named(joints.drop_first(), name)
    }
}

/// The first joint named `name`, by position.
pub fn find_joint(joints: &Vec<JointFacts>, name: &str) -> (r: Option<usize>)
    ensures
        match r {
            Some(i) => i < joints@.len() && joint_named(joints@, name@) == Some(joints@[i as int]),
            None => joint_named(joints@, name@) is None,
        },
{
    let mut i: usize = 0;
    assert(joints@.skip(0) =~= joints@);
    while i < joints.len()
        invariant
            i <= joints@.len(),
            joint_named(joints@, name@) == joint_named(joints@.skip(i as int), name@),
        decreases joints@.len() - i,
    {
        assert(joints@.skip(i as int).drop_first() =~= joints@.skip(i + 1));
        assert(joints@.skip(i as int)[0] == joints@[i as int]);
        if str_eq(joints[i].name.as_str(), name) {
            return Some(i);
        }
        i = i + 1;
    }
    None
}

/// Why joint `joint_name` of the URDF `robot` cannot be a joint of runtime
/// object `object`: it does not exist, is fixed, is not scalar, mimics
/// another joint, or (unless continuous) lacks a lower or upper limit.
pub open spec fn urdf_joint_problem(object: Seq<char>, joint_name: Seq<char>, robot: Seq<char>, joint: Option<JointFacts>) -> Option<
    Seq<char>,
> {
    let obj = "runtime object "@ + debug_repr(object);
    match joint {
        None => Some(
            obj + " references joint "@ + debug_repr(joint_name) + ", which does not exist in URDF "@
                + debug_repr(robot),
        ),
        Some(j) => if j.joint_type@ == "fixed"@ {
            Some(obj + " references fixed joint "@ + debug_repr(joint_name))
        } else if !is_scalar_type(j.joint_type@) {
            Some(
                obj + " references unsupported non-scalar joint "@ + debug_repr(joint_name)
                    + " of type "@ + debug_repr(j.joint_type@),
            )
        } else if j.mimic_of is Some {
            Some(
                obj + " references joint "@ + debug_repr(joint_name) + ", which mimics "@
                    + debug_repr(j.mimic_of->0@) + " and cannot be commanded"@,
            )
        } else if j.joint_type@ != "continuous"@ && (!j.has_lower || !j.has_upper) {
            Some(
                j.joint_type@ + " joint "@ + debug_repr(joint_name)
                    + " needs a <limit> with both lower and upper position limits"@,
            )
        } else {
            None
        },
    }
}

/// A URDF joint can be a joint of a runtime object exactly when it is a
/// revolute, prismatic or continuous joint that mimics no other joint and,
/// unless it is continuous, has both a lower and an upper position limit.
/// A joint missing from the URDF never can.
pub proof fn law_commandable_joints_are_limited_scalar_joints(
    object: Seq<char>,
    joint_name: Seq<char>,
    robot: Seq<char>,
    j: JointFacts,
)
    ensures
        urdf_joint_problem(object, joint_name, robot, Some(j)) is None <==> ((j.joint_type@ == "revolute"@
            || j.joint_type@ == "prismatic"@ || j.joint_type@ == "continuous"@) && j.mimic_of is None && (
        j.joint_type@ == "continuous"@ || (j.has_lower && j.has_upper))),
        urdf_joint_problem(object, joint_name, robot, None) is Some,
{
    reveal_strlit("fixed");
    reveal_strlit("revolute");
    reveal_strlit("prismatic");
    reveal_strlit("continuous");
    let t = j.joint_type@;
    assert("fixed"@ != "revolute"@ && "fixed"@ != "prismatic"@ && "fixed"@ != "continuous"@) by {
        assert("fixed"@.len() != "revolute"@.len());
        assert("fixed"@[0] != "prismatic"@[0]);
        assert("fixed"@.len() != "continuous"@.len());
    }
    if t == "fixed"@ {
        assert(urdf_joint_problem(object, joint_name, robot, Some(j)) is Some);
    }
}

/// Checks that joint `joint_name` of `joints` (the URDF `robot`) can be a
/// joint of runtime object `object`; see [`urdf_joint_problem`]. The limit
/// values themselves are checked where they are read.
pub fn check_urdf_joint(object: &str, joint_name: &str, robot: &str, joints: &Vec<JointFacts>) -> (r:
    Result<(), ModelError>)
    ensures
        reports(r, urdf_joint_problem(object@, joint_name@, robot@, joint_named(joints@, joint_name@))),
{
    let mut m = String::new();
    append_str(&mut m, "runtime object ");
    append_debug(&mut m, object);
    let i = match find_joint(joints, joint_name) {
        None => {
            append_str(&mut m, " references joint ");
            append_debug(&mut m, joint_name);
            append_str(&mut m, ", which does not exist in URDF ");
            append_debug(&mut m, robot);
            return Err(ModelError::Validation(m));
        },
        Some(i) => i,
    };
    let j = &joints[i];
    let t = j.joint_type.as_str();
    if str_eq(t, "fixed") {
        append_str(&mut m, " references fixed joint ");
        append_debug(&mut m, joint_name);
        return Err(ModelError::Validation(m));
    }
    if !scalar_type(t) {
        append_str(&mut m, " references unsupported non-scalar joint ");
        append_debug(&mut m, joint_name);
        append_str(&mut m, " of type ");
        append_debug(&mut m, t);
        return Err(ModelError::Validation(m));
    }
    if let Some(other) = &j.mimic_of {
        append_str(&mut m, " references joint ");
        append_debug(&mut m, joint_name);
        append_str(&mut m, ", which mimics ");
        append_debug(&mut m, other.as_str());
        append_str(&mut m, " and cannot be commanded");
        return Err(ModelError::Validation(m));
    }
    if !str_eq(t, "continuous") && (!j.has_lower || !j.has_upper) {
        let mut m2 = String::new();
        append_str(&mut m2, t);
        append_str(&mut m2, " joint ");
        append_debug(&mut m2, joint_name);
        append_str(&mut m2, " needs a <limit> with both lower and upper position limits");
        return Err(ModelError::Validation(m2));
    }
    Ok(())
}

/// The names of joint group `group`.
pub open spec fn group_named(groups: Seq<(String, Vec<String>)>, group: Seq<char>) -> Option<Seq<String>> {
    match crate::vega::side_lookup(groups, group) {
        Some(names) => Some(names@),
        None => None,
    }
}

/// Fills in the joints of a `source: urdf` object from its joint group:
/// the group must exist, names listed alongside it must agree with it, and
/// the profile must name a URDF. Other joint configurations are kept.
pub open spec fn spec_materialize(
    object: Seq<char>,
    joints: JointConfig,
    groups: Seq<(String, Vec<String>)>,
    has_urdf: bool,
) -> Result<Seq<Seq<char>>, Seq<char>> {
    let obj = "runtime object "@ + debug_repr(object);
    let names = joints.names@.map_values(|s: String| s@);
    if joints.source is Some && joints.source->0@ == "urdf"@ {
        let group = if joints.group is Some {
            joints.group->0@
        } else {
            Seq::empty()
        };
        match group_named(groups, group) {
            None => Err(
                obj + " references URDF joint group "@ + debug_repr(group)
                    + ", which does not exist in joint_groups"@,
            ),
            Some(gn) => if names.len() != 0 && names != gn.map_values(|s: String| s@) {
                Err(obj + " lists joint names that disagree with joint group "@ + debug_repr(group))
            } else if !has_urdf {
                Err(obj + " declares URDF-sourced joints but the profile has no robot.urdf"@)
            } else {
                Ok(gn.map_values(|s: String| s@))
            },
        }
    } else {
        Ok(names)
    }
}

fn find_group(groups: &Vec<(String, Vec<String>)>, group: &str) -> (r: Option<usize>)
    ensures
        match r {
            Some(k) => k < groups@.len() && crate::vega::side_lookup(groups@, group@) == Some(groups@[k as int].1),
            None => crate::vega::side_lookup(groups@, group@) is None,
        },
{
    let mut i: usize = 0;
    assert(groups@.skip(0) =~= groups@);
    while i < groups.len()
        invariant
            i <= groups@.len(),
            crate::vega::side_lookup(groups@, group@) == crate::vega::side_lookup(groups@.skip(i as int), group@),
        decreases groups@.len() - i,
    {
        assert(groups@.skip(i as int).drop_first() =~= groups@.skip(i + 1));
        assert(groups@.skip(i as int)[0] == groups@[i as int]);
        if str_eq(groups[i].0.as_str(), group) {
            return Some(i);
        }
        i = i + 1;
    }
    assert(groups@.skip(groups@.len() as int) =~= Seq::<(String, Vec<String>)>::empty());
    None
}

fn names_equal(a: &Vec<String>, b: &Vec<String>) -> (r: bool)
    ensures
        r == (a@.map_values(|s: String| s@) == b@.map_values(|s: String| s@)),
{
    if a.len() != b.len() {
        assert(a@.map_values(|s: String| s@).len() != b@.map_values(|s: String| s@).len());
        return false;
    }
    let mut i: usize = 0;
    while i < a.len()
        invariant
            a@.len() == b@.len(),
            i <= a@.len(),
            forall|j: int| 0 <= j < i ==> #[trigger] a@[j]@ == b@[j]@,
        decreases a@.len() - i,
    {
        if !str_eq(a[i].as_str(), b[i].as_str()) {
            assert(a@.map_values(|s: String| s@)[i as int] != b@.map_values(|s: String| s@)[i as int]);
            return false;
        }
        i = i + 1;
    }
    assert(a@.map_values(|s: String| s@) =~= b@.map_values(|s: String| s@));
    true
}

fn copy_names(v: &Vec<String>) -> (r: Vec<String>)
    ensures
        r@.map_values(|s: String| s@) == v@.map_values(|s: String| s@),
{
    let mut out: Vec<String> = Vec::new();
    let mut i: usize = 0;
    while i < v.len()
        invariant
            i <= v@.len(),
            out@.len() == i,
            forall|j: int| 0 <= j < i ==> #[trigger] out@[j]@ == v@[j]@,
        decreases v@.len() - i,
    {
        out.push(v[i].clone());
        i = i + 1;
    }
    assert(out@.map_values(|s: String| s@) =~= v@.map_values(|s: String| s@));
    out
}

/// Materializes the joint names of runtime object `object` in place; see
/// [`spec_materialize`].
pub fn materialize_joints(
    object: &str,
    joints: &mut JointConfig,
    groups: &Vec<(String, Vec<String>)>,
    has_urdf: bool,
) -> (r: Result<(), ModelError>)
    ensures
        match spec_materialize(object@, *old(joints), groups@, has_urdf) {
            Ok(names) => r is Ok && final(joints).names@.map_values(|s: String| s@) == names
                && final(joints).source == old(joints).source && final(joints).group == old(
                joints,
            ).group,
            Err(m) => r matches Err(ModelError::Validation(e)) && e@ == m,
        },
{
    proof {
        reveal_strlit("urdf");
    }
    let is_urdf = match &joints.source {
        Some(s) => str_eq(s.as_str(), "urdf"),
        None => false,
    };
    if !is_urdf {
        return Ok(());
    }
    let group: &str = match &joints.group {
        Some(g) => g.as_str(),
        None => "",
    };
    proof {
        reveal_strlit("");
    }
    let mut m = String::new();
    append_str(&mut m, "runtime object ");
    append_debug(&mut m, object);
    let ghost sgroup = if old(joints).group is Some {
        old(joints).group->0@
    } else {
        Seq::<char>::empty()
    };
    assert(group@ == sgroup);
    assert(old(joints).source is Some && old(joints).source->0@ == "urdf"@);
    let gi = match find_group(groups, group) {
        None => {
            assert(group_named(groups@, sgroup) is None);
            append_str(&mut m, " references URDF joint group ");
            append_debug(&mut m, group);
            append_str(&mut m, ", which does not exist in joint_groups");
            return Err(ModelError::Validation(m));
        },
        Some(gi) => gi,
    };
    let group_names = &groups[gi].1;
    if joints.names.len() != 0 && !names_equal(&joints.names, group_names) {
        append_str(&mut m, " lists joint names that disagree with joint group ");
        append_debug(&mut m, group);
        return Err(ModelError::Validation(m));
    }
    if !has_urdf {
        append_str(&mut m, " declares URDF-sourced joints but the profile has no robot.urdf");
        return Err(ModelError::Validation(m));
    }
    joints.names = copy_names(group_names);
    Ok(())
}

// ------------------------------------------------------------- parsing

/// The depth of `<robot>`'s direct children: `<joint>` and `<link>`
/// elsewhere (transmissions, simulator blocks) only refer to the robot's
/// joints and links.
pub const ROBOT_CHILD_DEPTH: usize = 2;

/// What the reader does with an element's attributes.
#[derive(Debug, Clone, Copy, PartialEq, Eq, Structural)]
pub enum ElementRole {
    /// The root `<robot>`: read its `name`.
    Robot,
    /// A `<link>` of the robot: read its `name`.
    Link,
    /// A `<joint>` of the robot: read its `name` and `type`.
    Joint,
    /// A child element of the joint being read (`<parent>`, `<child>`,
    /// `<limit>`, `<axis>`, `<mimic>`, or another, which is ignored).
    JointChild,
    /// Anything else: its attributes are not read.
    Ignored,
}

/// The structure of a URDF document as it is read, event by event: the
/// robot's name, its links, the joints read so far, the joint being read
/// and the element depth.
pub struct UrdfParser {
    robot_name: Option<String>,
    links: Vec<String>,
    joints: Vec<String>,
    current: Option<String>,
    depth: usize,
}

/// [`UrdfParser`] as plain values.
pub struct ParserView {
    pub robot_name: Option<Seq<char>>,
    pub links: Set<Seq<char>>,
    pub joints: Seq<Seq<char>>,
    pub current: Option<Seq<char>>,
    pub depth: nat,
}

pub open spec fn opt_text(o: Option<String>) -> Option<Seq<char>> {
    match o {
        Some(s) => Some(s@),
        None => None,
    }
}

/// The role of element `name` opened at `depth`.
pub open spec fn spec_role(v: ParserView, name: Seq<u8>, depth: nat) -> Result<ElementRole, Seq<char>> {
    if depth == 1 {
        if name == seq![114u8, 111, 98, 111, 116] && v.robot_name is None {
            Ok(ElementRole::Robot)
        } else {
            Err("expected exactly one robot root element"@)
        }
    } else if depth == 2 && name == seq![108u8, 105, 110, 107] {
        Ok(ElementRole::Link)
    } else if depth == 2 && name == seq![106u8, 111, 105, 110, 116] {
        Ok(ElementRole::Joint)
    } else if depth == 3 && v.current is Some {
        Ok(ElementRole::JointChild)
    } else {
        Ok(ElementRole::Ignored)
    }
}

/// Closing an element at `depth` finishes the joint being read there.
pub open spec fn spec_close(v: ParserView, depth: nat) -> ParserView {
    if depth == 2 && v.current is Some {
        ParserView { joints: v.joints.push(v.current->0), current: None, ..v }
    } else {
        v
    }
}

pub open spec fn urdf_error(r: Result<(), ModelError>, m: Seq<char>) -> bool {
    r matches Err(ModelError::Urdf(e)) && e@ == m
}

pub(crate) fn is_bytes(name: &[u8], word: &[u8]) -> (r: bool)
    ensures
        r == (name@ == word@),
{
    if name.len() != word.len() {
        return false;
    }
    let mut i: usize = 0;
    while i < name.len()
        invariant
            name@.len() == word@.len(),
            i <= name@.len(),
            forall|j: int| 0 <= j < i ==> name@[j] == word@[j],
        decreases name@.len() - i,
    {
        if name[i] != word[i] {
            return false;
        }
        i = i + 1;
    }
    assert(name@ =~= word@);
    true
}

impl UrdfParser {
    pub closed spec fn view(&self) -> ParserView {
        ParserView {
            robot_name: opt_text(self.robot_name),
            links: crate::compose::texts(self.links@).to_set(),
            joints: crate::compose::texts(self.joints@),
            current: opt_text(self.current),
            depth: self.depth as nat,
        }
    }

    /// The links are kept in code-point order; the joints read so far have
    /// distinct names, and the joint being read is not one of them.
    pub closed spec fn wf(&self) -> bool {
        &&& crate::compose::strictly_sorted(crate::compose::texts(self.links@))
        &&& crate::compose::texts(self.joints@).no_duplicates()
        &&& self.current is Some ==> !crate::compose::texts(self.joints@).contains(self.current->0@)
    }

    /// Nothing read yet.
    pub fn new() -> (r: UrdfParser)
        ensures
            r.wf(),
            r@.robot_name is None,
            r@.links == Set::<Seq<char>>::empty(),
            r@.joints == Seq::<Seq<char>>::empty(),
            r@.current is None,
            r@.depth == 0,
    {
        let r = UrdfParser { robot_name: None, links: Vec::new(), joints: Vec::new(), current: None, depth: 0 };
        assert(crate::compose::texts(r.links@).to_set() =~= Set::<Seq<char>>::empty());
        assert(crate::compose::texts(r.joints@) =~= Seq::<Seq<char>>::empty());
        r
    }

    /// The current element depth.
    pub fn depth(&self) -> (r: usize)
        ensures
            r == self@.depth,
    {
        self.depth
    }

    fn role(&self, name: &[u8], depth: usize) -> (r: Result<ElementRole, ModelError>)
        ensures
            match (r, spec_role(self@, name@, depth as nat)) {
                (Ok(a), Ok(b)) => a == b,
                (Err(ModelError::Urdf(e)), Err(m)) => e@ == m,
                _ => false,
            },
    {
        if depth == 1 {
            if is_bytes(name, &[114u8, 111, 98, 111, 116]) && self.robot_name.is_none() {
                return Ok(ElementRole::Robot);
            }
            return Err(ModelError::Urdf("expected exactly one robot root element".to_owned()));
        }
        if depth == ROBOT_CHILD_DEPTH && is_bytes(name, &[108u8, 105, 110, 107]) {
            return Ok(ElementRole::Link);
        }
        if depth == ROBOT_CHILD_DEPTH && is_bytes(name, &[106u8, 111, 105, 110, 116]) {
            return Ok(ElementRole::Joint);
        }
        if depth == ROBOT_CHILD_DEPTH + 1 && self.current.is_some() {
            return Ok(ElementRole::JointChild);
        }
        Ok(ElementRole::Ignored)
    }

    /// A start tag `<name ...>`: one level deeper, and the role of the
    /// element there.
    pub fn start(&mut self, name: &[u8]) -> (r: Result<ElementRole, ModelError>)
        requires
            old(self)@.depth < usize::MAX,
        ensures
            final(self).wf() == old(self).wf(),
            final(self)@ == (ParserView { depth: old(self)@.depth + 1, ..old(self)@ }),
            match (r, spec_role(old(self)@, name@, old(self)@.depth + 1)) {
                (Ok(a), Ok(b)) => a == b,
                (Err(ModelError::Urdf(e)), Err(m)) => e@ == m,
                _ => false,
            },
    {
        self.depth = self.depth + 1;
        self.role(name, self.depth)
    }

    /// A self-closing tag `<name .../>`: the role of the element one level
    /// deeper; [`UrdfParser::close_empty`] follows once its attributes are
    /// read.
    pub fn empty(&self, name: &[u8]) -> (r: Result<ElementRole, ModelError>)
        requires
            self@.depth < usize::MAX,
        ensures
            match (r, spec_role(self@, name@, self@.depth + 1)) {
                (Ok(a), Ok(b)) => a == b,
                (Err(ModelError::Urdf(e)), Err(m)) => e@ == m,
                _ => false,
            },
    {
        self.role(name, self.depth + 1)
    }

    fn close(&mut self, depth: usize) -> (closed: bool)
        ensures
            old(self).wf() ==> final(self).wf(),
            final(self)@ == spec_close(old(self)@, depth as nat),
            closed == (depth == 2 && old(self)@.current is Some),
    {
        if depth == ROBOT_CHILD_DEPTH {
            if let Some(joint) = self.current.take() {
                let ghost before = self.joints@;
                let ghost name = joint@;
                self.joints.push(joint);
                proof {
                    assert(crate::compose::texts(self.joints@) =~= crate::compose::texts(before).push(
                        self.joints@.last()@,
                    ));
                    assert(self.joints@.last()@ == name);
                    let t = crate::compose::texts(self.joints@);
                    let b = crate::compose::texts(before);
                    if b.no_duplicates() && !b.contains(name) {
                        assert forall|x: int, y: int| 0 <= x < t.len() && 0 <= y < t.len() && x != y implies t[x]
                            != t[y] by {
                            if x < b.len() && y < b.len() {
                                assert(t[x] == b[x] && t[y] == b[y]);
                            } else if x < b.len() {
                                assert(t[x] == b[x]);
                            } else {
                                assert(t[y] == b[y]);
                            }
                        }
                    }
                }
                return true;
            }
        }
        false
    }

    /// Ends a self-closing element: the joint read there, if any, is
    /// finished (and `true` is returned).
    pub fn close_empty(&mut self) -> (closed: bool)
        requires
            old(self)@.depth < usize::MAX,
        ensures
            old(self).wf() ==> final(self).wf(),
            final(self)@ == spec_close(old(self)@, old(self)@.depth + 1),
            closed == (old(self)@.depth + 1 == 2 && old(self)@.current is Some),
    {
        self.close(self.depth + 1)
    }

    /// An end tag: the joint read at this depth, if any, is finished (and
    /// `true` is returned); one level up.
    pub fn end(&mut self) -> (closed: bool)
        ensures
            old(self).wf() ==> final(self).wf(),
            final(self)@ == (ParserView {
                depth: if old(self)@.depth == 0 {
                    0
                } else {
                    (old(self)@.depth - 1) as nat
                },
                ..spec_close(old(self)@, old(self)@.depth)
            }),
            closed == (old(self)@.depth == 2 && old(self)@.current is Some),
    {
        let closed = self.close(self.depth);
        if self.depth > 0 {
            self.depth = self.depth - 1;
        }
        closed
    }

    /// The root element's name attribute.
    pub fn set_robot_name(&mut self, name: String)
        ensures
            final(self).wf() == old(self).wf(),
            final(self)@ == (ParserView { robot_name: Some(name@), ..old(self)@ }),
    {
        self.robot_name = Some(name);
    }

    /// A link of the robot; a name read before is an error.
    pub fn add_link(&mut self, name: String) -> (r: Result<(), ModelError>)
        requires
            old(self).wf(),
        ensures
            final(self).wf(),
            old(self)@.links.contains(name@) ==> urdf_error(r, "duplicate link name "@ + debug_repr(name@))
                && final(self)@ == old(self)@,
            !old(self)@.links.contains(name@) ==> r is Ok && final(self)@ == (ParserView {
                links: old(self)@.links.insert(name@),
                ..old(self)@
            }),
    {
        let mut i: usize = 0;
        while i < self.links.len()
            invariant
                i <= self.links@.len(),
                *self == *old(self),
                old(self).wf(),
                forall|j: int| 0 <= j < i ==> #[trigger] self.links@[j]@ != name@,
            decreases self.links@.len() - i,
        {
            if str_eq(self.links[i].as_str(), name.as_str()) {
                proof {
                    assert(crate::compose::texts(self.links@)[i as int] == name@);
                }
                let mut m = String::new();
                append_str(&mut m, "duplicate link name ");
                append_debug(&mut m, name.as_str());
                return Err(ModelError::Urdf(m));
            }
            i = i + 1;
        }
        proof {
            assert(!crate::compose::texts(self.links@).to_set().contains(name@)) by {
                if crate::compose::texts(self.links@).to_set().contains(name@) {
                    let j = choose|j: int| 0 <= j < self.links@.len() && crate::compose::texts(self.links@)[j] == name@;
                    assert(self.links@[j]@ == name@);
                }
            }
        }
        crate::diff::insert_key_pub(&mut self.links, &name);
        Ok(())
    }

    /// A joint of the robot starts; a name of a joint read before is an
    /// error.
    pub fn begin_joint(&mut self, name: String) -> (r: Result<(), ModelError>)
        ensures
            old(self).wf() ==> final(self).wf(),
            old(self)@.joints.contains(name@) ==> urdf_error(r, "duplicate joint name "@ + debug_repr(name@))
                && final(self)@ == old(self)@,
            !old(self)@.joints.contains(name@) ==> r is Ok && final(self)@ == (ParserView {
                current: Some(name@),
                ..old(self)@
            }),
    {
        let mut i: usize = 0;
        while i < self.joints.len()
            invariant
                i <= self.joints@.len(),
                *self == *old(self),
                forall|j: int| 0 <= j < i ==> #[trigger] self.joints@[j]@ != name@,
            decreases self.joints@.len() - i,
        {
            if str_eq(self.joints[i].as_str(), name.as_str()) {
                proof {
                    assert(crate::compose::texts(self.joints@)[i as int] == name@);
                }
                let mut m = String::new();
                append_str(&mut m, "duplicate joint name ");
                append_debug(&mut m, name.as_str());
                return Err(ModelError::Urdf(m));
            }
            i = i + 1;
        }
        proof {
            assert(!crate::compose::texts(self.joints@).contains(name@)) by {
                if crate::compose::texts(self.joints@).contains(name@) {
                    let j = choose|j: int| 0 <= j < self.joints@.len() && crate::compose::texts(self.joints@)[j] == name@;
                    assert(self.joints@[j]@ == name@);
                }
            }
        }
        self.current = Some(name);
        Ok(())
    }

    /// Text outside the root element is an error.
    pub fn text(&self, nonempty: bool) -> (r: Result<(), ModelError>)
        ensures
            self@.depth == 0 && nonempty ==> urdf_error(r, "text outside robot root element"@),
            !(self@.depth == 0 && nonempty) ==> r is Ok,
    {
        if self.depth == 0 && nonempty {
            return Err(ModelError::Urdf("text outside robot root element".to_owned()));
        }
        Ok(())
    }

    /// Character data outside the root element is an error.
    pub fn cdata(&self) -> (r: Result<(), ModelError>)
        ensures
            self@.depth == 0 ==> urdf_error(r, "CDATA outside robot root element"@),
            self@.depth != 0 ==> r is Ok,
    {
        if self.depth == 0 {
            return Err(ModelError::Urdf("CDATA outside robot root element".to_owned()));
        }
        Ok(())
    }

    /// The end of the document: an unclosed element means a truncated file.
    pub fn eof(&self) -> (r: Result<(), ModelError>)
        ensures
            self@.depth != 0 ==> urdf_error(
                r,
                "unexpected end of file: "@ + spec_decimal(self@.depth) + " unclosed element(s)"@,
            ),
            self@.depth == 0 ==> r is Ok,
    {
        if self.depth != 0 {
            let mut m = String::new();
            append_str(&mut m, "unexpected end of file: ");
            push_decimal(&mut m, self.depth as u64);
            append_str(&mut m, " unclosed element(s)");
            return Err(ModelError::Urdf(m));
        }
        Ok(())
    }

    /// The robot's name and its links in code-point order; a document
    /// without a named root is an error.
    pub fn finish(self) -> (r: Result<(String, Vec<String>), ModelError>)
        requires
            self.wf(),
        ensures
            match r {
                Ok((name, links)) => self@.robot_name == Some(name@) && crate::compose::texts(links@)
                    == crate::compose::sorted_texts(self@.links),
                Err(ModelError::Urdf(e)) => self@.robot_name is None && e@ == "robot name is missing"@,
                Err(_) => false,
            },
    {
        proof {
            let s = crate::compose::sorted_texts(self@.links);
            assert(crate::compose::strictly_sorted(crate::compose::texts(self.links@)));
            assert(crate::compose::strictly_sorted(s) && s.to_set() == self@.links);
            crate::compose::lemma_sorted_unique(crate::compose::texts(self.links@), s);
        }
        match self.robot_name {
            Some(name) => Ok((name, self.links)),
            None => Err(ModelError::Urdf("robot name is missing".to_owned())),
        }
    }
}

/// However a document is read, the joints read from it have distinct
/// names, and the joint being read is not one of them.
pub proof fn law_joint_names_are_distinct(p: &UrdfParser)
    requires
        p.wf(),
    ensures
        p@.joints.no_duplicates(),
        p@.current matches Some(name) ==> !p@.joints.contains(name),
{
}

} // verus!
