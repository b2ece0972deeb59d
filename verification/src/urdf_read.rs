//! Reading a URDF document: the events of the XML reader are walked in
//! order, [`UrdfParser`] decides what each element is, and the attributes
//! of the robot, its links and its joints are read. Numbers stay text: the
//! numbers met are listed in the order they are read, so that the caller,
//! which converts them, reports the first bad one before any later error.
use crate::compose::sorted_texts;
use crate::error::{debug_repr, ModelError};
use crate::text::spec_decimal;
use crate::urdf::{is_bytes, opt_text, spec_close, spec_role, ElementRole, ParserView, UrdfParser};
use crate::xml::{
    attribute, events_view, required_attribute, spec_attribute, spec_required, xml_events,
    xml_events_of, XmlEvent, XmlEventV, XmlTag, XmlTagV,
};
use vstd::prelude::*;

verus! {

/// A number the document gives as text: a numeric attribute (`lower`,
/// `upper`, `effort`, `velocity` of `<limit>`; `multiplier`, `offset` of
/// `<mimic>`) with its key, or the `xyz` of `<axis>`.
#[derive(Debug)]
pub enum NumberText {
    Attribute { key: String, text: String },
    Axis(String),
}

/// The `<limit>` of a joint, its numbers as text.
#[derive(Debug)]
pub struct LimitText {
    pub lower: Option<String>,
    pub upper: Option<String>,
    pub effort: Option<String>,
    pub velocity: Option<String>,
}

/// The `<mimic>` of a joint, its numbers as text.
#[derive(Debug)]
pub struct MimicText {
    pub joint: String,
    pub multiplier: Option<String>,
    pub offset: Option<String>,
}

/// A joint as read. `axis` is `Some` once an `<axis>` element was read,
/// holding its `xyz` text where it has one.
#[derive(Debug)]
pub struct JointText {
    pub name: String,
    pub joint_type: String,
    pub parent: Option<String>,
    pub child: Option<String>,
    pub limit: Option<LimitText>,
    pub axis: Option<Option<String>>,
    pub mimic: Option<MimicText>,
}

/// A URDF document as read: the robot's name, its links in code-point
/// order, and its joints in document order.
#[derive(Debug)]
pub struct UrdfDocument {
    pub robot_name: String,
    pub links: Vec<String>,
    pub joints: Vec<JointText>,
}

/// What reading a document gives: the numbers met, in the order they were
/// read, and the document or the error that stopped the reading.
#[derive(Debug)]
pub struct UrdfReading {
    pub numbers: Vec<NumberText>,
    pub outcome: Result<UrdfDocument, ModelError>,
}

pub enum NumberV {
    Attribute(Seq<char>, Seq<char>),
    Axis(Seq<char>),
}

pub struct LimitV {
    pub lower: Option<Seq<char>>,
    pub upper: Option<Seq<char>>,
    pub effort: Option<Seq<char>>,
    pub velocity: Option<Seq<char>>,
}

pub struct MimicV {
    pub joint: Seq<char>,
    pub multiplier: Option<Seq<char>>,
    pub offset: Option<Seq<char>>,
}

pub struct JointV {
    pub name: Seq<char>,
    pub joint_type: Seq<char>,
    pub parent: Option<Seq<char>>,
    pub child: Option<Seq<char>>,
    pub limit: Option<LimitV>,
    pub axis: Option<Option<Seq<char>>>,
    pub mimic: Option<MimicV>,
}

pub struct DocumentV {
    pub robot_name: Seq<char>,
    pub links: Seq<Seq<char>>,
    pub joints: Seq<JointV>,
}

impl NumberText {
    pub open spec fn view(&self) -> NumberV {
        match self {
            NumberText::Attribute { key, text } => NumberV::Attribute(key@, text@),
            NumberText::Axis(t) => NumberV::Axis(t@),
        }
    }
}

impl LimitText {
    pub open spec fn view(&self) -> LimitV {
        LimitV {
            lower: opt_text(self.lower),
            upper: opt_text(self.upper),
            effort: opt_text(self.effort),
            velocity: opt_text(self.velocity),
        }
    }
}

impl MimicText {
    pub open spec fn view(&self) -> MimicV {
        MimicV { joint: self.joint@, multiplier: opt_text(self.multiplier), offset: opt_text(self.offset) }
    }
}

impl JointText {
    pub open spec fn view(&self) -> JointV {
        JointV {
            name: self.name@,
            joint_type: self.joint_type@,
            parent: opt_text(self.parent),
            child: opt_text(self.child),
            limit: match self.limit {
                Some(l) => Some(l.view()),
                None => None,
            },
            axis: match self.axis {
                Some(a) => Some(opt_text(a)),
                None => None,
            },
            mimic: match self.mimic {
                Some(m) => Some(m.view()),
                None => None,
            },
        }
    }
}

pub open spec fn numbers_view(s: Seq<NumberText>) -> Seq<NumberV> {
    s.map_values(|n: NumberText| n.view())
}

pub open spec fn joints_view(s: Seq<JointText>) -> Seq<JointV> {
    s.map_values(|j: JointText| j.view())
}

impl UrdfDocument {
    pub open spec fn view(&self) -> DocumentV {
        DocumentV {
            robot_name: self.robot_name@,
            links: crate::compose::texts(self.links@),
            joints: joints_view(self.joints@),
        }
    }
}

/// The state of a reading: the parser, the joints finished, the joint
/// being read and the numbers met.
pub struct ReadV {
    pub parser: ParserView,
    pub joints: Seq<JointV>,
    pub current: Option<JointV>,
    pub numbers: Seq<NumberV>,
}

/// A reading stopped: the numbers met before, and the message.
pub type Stop = (Seq<NumberV>, Seq<char>);

pub open spec fn initial_read() -> ReadV {
    ReadV {
        parser: ParserView {
            robot_name: None,
            links: Set::empty(),
            joints: Seq::empty(),
            current: None,
            depth: 0,
        },
        joints: Seq::empty(),
        current: None,
        numbers: Seq::empty(),
    }
}

pub open spec fn name_key() -> Seq<u8> {
    seq![110u8, 97, 109, 101]
}

pub open spec fn type_key() -> Seq<u8> {
    seq![116u8, 121, 112, 101]
}

pub open spec fn link_key() -> Seq<u8> {
    seq![108u8, 105, 110, 107]
}

pub open spec fn joint_key() -> Seq<u8> {
    seq![106u8, 111, 105, 110, 116]
}

/// A numeric attribute `key` (whose text is `label`): its text, listed
/// among the numbers met where the tag has it.
pub open spec fn spec_number(tag: XmlTagV, key: Seq<u8>, label: Seq<char>, numbers: Seq<NumberV>) -> Result<
    (Option<Seq<char>>, Seq<NumberV>),
    Stop,
> {
    match spec_attribute(tag, key) {
        Err(m) => Err((numbers, m)),
        Ok(None) => Ok((None, numbers)),
        Ok(Some(t)) => Ok((Some(t), numbers.push(NumberV::Attribute(label, t)))),
    }
}

/// `<limit>`: its four numbers, in order.
pub open spec fn spec_limit(tag: XmlTagV, numbers: Seq<NumberV>) -> Result<(LimitV, Seq<NumberV>), Stop> {
    match spec_number(tag, seq![108u8, 111, 119, 101, 114], "lower"@, numbers) {
        Err(x) => Err(x),
        Ok((lower, n1)) => match spec_number(tag, seq![117u8, 112, 112, 101, 114], "upper"@, n1) {
            Err(x) => Err(x),
            Ok((upper, n2)) => match spec_number(tag, seq![101u8, 102, 102, 111, 114, 116], "effort"@, n2) {
                Err(x) => Err(x),
                Ok((effort, n3)) => match spec_number(
                    tag,
                    seq![118u8, 101, 108, 111, 99, 105, 116, 121],
                    "velocity"@,
                    n3,
                ) {
                    Err(x) => Err(x),
                    Ok((velocity, n4)) => Ok((LimitV { lower, upper, effort, velocity }, n4)),
                },
            },
        },
    }
}

/// `<mimic>`: the joint it follows, then its two numbers.
pub open spec fn spec_mimic(tag: XmlTagV, numbers: Seq<NumberV>) -> Result<(MimicV, Seq<NumberV>), Stop> {
    match spec_required(tag, joint_key(), "mimic joint"@) {
        Err(m) => Err((numbers, m)),
        Ok(joint) => match spec_number(
            tag,
            seq![109u8, 117, 108, 116, 105, 112, 108, 105, 101, 114],
            "multiplier"@,
            numbers,
        ) {
            Err(x) => Err(x),
            Ok((multiplier, n1)) => match spec_number(tag, seq![111u8, 102, 102, 115, 101, 116], "offset"@, n1) {
                Err(x) => Err(x),
                Ok((offset, n2)) => Ok((MimicV { joint, multiplier, offset }, n2)),
            },
        },
    }
}

/// What a child element of the joint being read sets: `<parent>` and
/// `<child>` their link, `<limit>`, `<axis>` and `<mimic>` their numbers;
/// another element nothing.
pub open spec fn spec_joint_child(j: JointV, tag: XmlTagV, numbers: Seq<NumberV>) -> Result<(JointV, Seq<NumberV>), Stop> {
    if tag.name == seq![112u8, 97, 114, 101, 110, 116] {
        match spec_attribute(tag, link_key()) {
            Err(m) => Err((numbers, m)),
            Ok(v) => Ok((JointV { parent: v, ..j }, numbers)),
        }
    } else if tag.name == seq![99u8, 104, 105, 108, 100] {
        match spec_attribute(tag, link_key()) {
            Err(m) => Err((numbers, m)),
            Ok(v) => Ok((JointV { child: v, ..j }, numbers)),
        }
    } else if tag.name == seq![108u8, 105, 109, 105, 116] {
        match spec_limit(tag, numbers) {
            Err(x) => Err(x),
            Ok((l, n)) => Ok((JointV { limit: Some(l), ..j }, n)),
        }
    } else if tag.name == seq![97u8, 120, 105, 115] {
        match spec_attribute(tag, seq![120u8, 121, 122]) {
            Err(m) => Err((numbers, m)),
            Ok(None) => Ok((JointV { axis: Some(None), ..j }, numbers)),
            Ok(Some(t)) => Ok((JointV { axis: Some(Some(t)), ..j }, numbers.push(NumberV::Axis(t)))),
        }
    } else if tag.name == seq![109u8, 105, 109, 105, 99] {
        match spec_mimic(tag, numbers) {
            Err(x) => Err(x),
            Ok((m, n)) => Ok((JointV { mimic: Some(m), ..j }, n)),
        }
    } else {
        Ok((j, numbers))
    }
}

/// What reading the attributes of an element with role `role` does.
pub open spec fn spec_element(s: ReadV, tag: XmlTagV, role: ElementRole) -> Result<ReadV, Stop> {
    match role {
        ElementRole::Robot => match spec_required(tag, name_key(), "robot name"@) {
            Err(m) => Err((s.numbers, m)),
            Ok(n) => Ok(ReadV { parser: ParserView { robot_name: Some(n), ..s.parser }, ..s }),
        },
        ElementRole::Link => match spec_required(tag, name_key(), "link name"@) {
            Err(m) => Err((s.numbers, m)),
            Ok(n) => if s.parser.links.contains(n) {
                Err((s.numbers, "duplicate link name "@ + debug_repr(n)))
            } else {
                Ok(ReadV { parser: ParserView { links: s.parser.links.insert(n), ..s.parser }, ..s })
            },
        },
        ElementRole::Joint => match spec_required(tag, name_key(), "joint name"@) {
            Err(m) => Err((s.numbers, m)),
            Ok(n) => match spec_required(tag, type_key(), "joint type"@) {
                Err(m) => Err((s.numbers, m)),
                Ok(t) => if s.parser.joints.contains(n) {
                    Err((s.numbers, "duplicate joint name "@ + debug_repr(n)))
                } else {
                    Ok(
                        ReadV {
                            parser: ParserView { current: Some(n), ..s.parser },
                            current: Some(
                                JointV {
                                    name: n,
                                    joint_type: t,
                                    parent: None,
                                    child: None,
                                    limit: None,
                                    axis: None,
                                    mimic: None,
                                },
                            ),
                            ..s
                        },
                    )
                },
            },
        },
        ElementRole::JointChild => match s.current {
            None => Ok(s),
            Some(j) => match spec_joint_child(j, tag, s.numbers) {
                Err(x) => Err(x),
                Ok((j2, n)) => Ok(ReadV { current: Some(j2), numbers: n, ..s }),
            },
        },
        ElementRole::Ignored => Ok(s),
    }
}

/// Closing an element at `depth`: a joint of the robot is finished there.
pub open spec fn spec_closed(s: ReadV, depth: nat) -> ReadV {
    if depth == 2 && s.parser.current is Some {
        ReadV {
            parser: spec_close(s.parser, depth),
            joints: match s.current {
                Some(j) => s.joints.push(j),
                None => s.joints,
            },
            current: None,
            ..s
        }
    } else {
        s
    }
}

/// What one event does to a reading.
#[verifier::opaque]
pub open spec fn spec_event(s: ReadV, e: XmlEventV) -> Result<ReadV, Stop> {
    match e {
        XmlEventV::Start(tag) => if s.parser.depth >= usize::MAX {
            Err((s.numbers, "document nests too deeply"@))
        } else {
            match spec_role(s.parser, tag.name, s.parser.depth + 1) {
                Err(m) => Err((s.numbers, m)),
                Ok(role) => spec_element(
                    ReadV { parser: ParserView { depth: s.parser.depth + 1, ..s.parser }, ..s },
                    tag,
                    role,
                ),
            }
        },
        XmlEventV::Empty(tag) => if s.parser.depth >= usize::MAX {
            Err((s.numbers, "document nests too deeply"@))
        } else {
            match spec_role(s.parser, tag.name, s.parser.depth + 1) {
                Err(m) => Err((s.numbers, m)),
                Ok(role) => match spec_element(s, tag, role) {
                    Err(x) => Err(x),
                    Ok(t) => Ok(spec_closed(t, t.parser.depth + 1)),
                },
            }
        },
        XmlEventV::End => {
            let t = spec_closed(s, s.parser.depth);
            Ok(
                ReadV {
                    parser: ParserView {
                        depth: if s.parser.depth == 0 {
                            0
                        } else {
                            (s.parser.depth - 1) as nat
                        },
                        ..t.parser
                    },
                    ..t
                },
            )
        },
        XmlEventV::Text(bytes) => if s.parser.depth == 0 && bytes.len() > 0 {
            Err((s.numbers, "text outside robot root element"@))
        } else {
            Ok(s)
        },
        XmlEventV::CData => if s.parser.depth == 0 {
            Err((s.numbers, "CDATA outside robot root element"@))
        } else {
            Ok(s)
        },
        XmlEventV::Other => Ok(s),
    }
}

/// The events applied in turn.
pub open spec fn spec_events(s: ReadV, events: Seq<XmlEventV>) -> Result<ReadV, Stop>
    decreases events.len(),
{
    if events.len() == 0 {
        Ok(s)
    } else {
        match spec_event(s, events[0]) {
            Err(x) => Err(x),
            Ok(t) => spec_events(t, events.drop_first()),
        }
    }
}

/// What reading a document whose events are `events`, followed by the
/// reader's error `failure` or by the end of the text, gives: the numbers
/// met, and the document or the message of the first error.
pub open spec fn spec_reading(events: Seq<XmlEventV>, failure: Option<Seq<char>>) -> (Seq<NumberV>, Result<DocumentV, Seq<char>>) {
    match spec_events(initial_read(), events) {
        Err((numbers, m)) => (numbers, Err(m)),
        Ok(s) => (
            s.numbers,
            match failure {
                Some(m) => Err(m),
                None => if s.parser.depth != 0 {
                    Err(
                        "unexpected end of file: "@ + spec_decimal(s.parser.depth)
                            + " unclosed element(s)"@,
                    )
                } else {
                    match s.parser.robot_name {
                        None => Err("robot name is missing"@),
                        Some(n) => Ok(DocumentV { robot_name: n, links: sorted_texts(s.parser.links), joints: s.joints }),
                    }
                },
            },
        ),
    }
}

/// `r` is the reading `expected`: the same numbers, and the same document
/// or a URDF error with the same message.
pub open spec fn reading_is(r: UrdfReading, expected: (Seq<NumberV>, Result<DocumentV, Seq<char>>)) -> bool {
    &&& numbers_view(r.numbers@) == expected.0
    &&& match (r.outcome, expected.1) {
        (Ok(d), Ok(e)) => d.view() == e,
        (Err(ModelError::Urdf(m)), Err(e)) => m@ == e,
        _ => false,
    }
}

struct ReadState {
    parser: UrdfParser,
    joints: Vec<JointText>,
    current: Option<JointText>,
    numbers: Vec<NumberText>,
}

impl ReadState {
    spec fn view(&self) -> ReadV {
        ReadV {
            parser: self.parser@,
            joints: joints_view(self.joints@),
            current: match self.current {
                Some(j) => Some(j.view()),
                None => None,
            },
            numbers: numbers_view(self.numbers@),
        }
    }
}

/// Reads numeric attribute `key` of `tag`, listing its text in `numbers`.
fn read_number(tag: &XmlTag, key: &[u8], label: &str, numbers: &mut Vec<NumberText>) -> (r: Result<Option<String>, String>)
    ensures
        match spec_number(tag.view(), key@, label@, numbers_view(old(numbers)@)) {
            Ok((v, n)) => r matches Ok(x) && opt_text(x) == v && numbers_view(final(numbers)@) == n,
            Err((n, m)) => r matches Err(x) && x@ == m && numbers_view(final(numbers)@) == n,
        },
{
    match attribute(tag, key)? {
        None => Ok(None),
        Some(t) => {
            let ghost before = numbers@;
            numbers.push(NumberText::Attribute { key: label.to_owned(), text: crate::json::copy_string(&t) });
            assert(numbers_view(numbers@) =~= numbers_view(before).push(NumberV::Attribute(label@, t@)));
            Ok(Some(t))
        },
    }
}

fn read_limit(tag: &XmlTag, numbers: &mut Vec<NumberText>) -> (r: Result<LimitText, String>)
    ensures
        match spec_limit(tag.view(), numbers_view(old(numbers)@)) {
            Ok((l, n)) => r matches Ok(x) && x.view() == l && numbers_view(final(numbers)@) == n,
            Err((n, m)) => r matches Err(x) && x@ == m && numbers_view(final(numbers)@) == n,
        },
{
    let lower = read_number(tag, &[108u8, 111, 119, 101, 114], "lower", numbers)?;
    let upper = read_number(tag, &[117u8, 112, 112, 101, 114], "upper", numbers)?;
    let effort = read_number(tag, &[101u8, 102, 102, 111, 114, 116], "effort", numbers)?;
    let velocity = read_number(tag, &[118u8, 101, 108, 111, 99, 105, 116, 121], "velocity", numbers)?;
    Ok(LimitText { lower, upper, effort, velocity })
}

fn read_mimic(tag: &XmlTag, numbers: &mut Vec<NumberText>) -> (r: Result<MimicText, String>)
    ensures
        match spec_mimic(tag.view(), numbers_view(old(numbers)@)) {
            Ok((m, n)) => r matches Ok(x) && x.view() == m && numbers_view(final(numbers)@) == n,
            Err((n, m)) => r matches Err(x) && x@ == m && numbers_view(final(numbers)@) == n,
        },
{
    let joint = required_attribute(tag, &[106u8, 111, 105, 110, 116], "mimic joint")?;
    let multiplier = read_number(tag, &[109u8, 117, 108, 116, 105, 112, 108, 105, 101, 114], "multiplier", numbers)?;
    let offset = read_number(tag, &[111u8, 102, 102, 115, 101, 116], "offset", numbers)?;
    Ok(MimicText { joint, multiplier, offset })
}

fn read_joint_child(joint: &mut JointText, tag: &XmlTag, numbers: &mut Vec<NumberText>) -> (r: Result<(), String>)
    ensures
        match spec_joint_child(old(joint).view(), tag.view(), numbers_view(old(numbers)@)) {
            Ok((j, n)) => r is Ok && final(joint).view() == j && numbers_view(final(numbers)@) == n,
            Err((n, m)) => r matches Err(x) && x@ == m && numbers_view(final(numbers)@) == n,
        },
{
    let name = tag.name.as_slice();
    if is_bytes(name, &[112u8, 97, 114, 101, 110, 116]) {
        joint.parent = attribute(tag, &[108u8, 105, 110, 107])?;
    } else if is_bytes(name, &[99u8, 104, 105, 108, 100]) {
        joint.child = attribute(tag, &[108u8, 105, 110, 107])?;
    } else if is_bytes(name, &[108u8, 105, 109, 105, 116]) {
        joint.limit = Some(read_limit(tag, numbers)?);
    } else if is_bytes(name, &[97u8, 120, 105, 115]) {
        match attribute(tag, &[120u8, 121, 122])? {
            None => {
                joint.axis = Some(None);
            },
            Some(t) => {
                let ghost before = numbers@;
                numbers.push(NumberText::Axis(crate::json::copy_string(&t)));
                assert(numbers_view(numbers@) =~= numbers_view(before).push(NumberV::Axis(t@)));
                joint.axis = Some(Some(t));
            },
        }
    } else if is_bytes(name, &[109u8, 105, 109, 105, 99]) {
        joint.mimic = Some(read_mimic(tag, numbers)?);
    }
    Ok(())
}

/// The message of a URDF error.
fn urdf_message(e: ModelError) -> (m: String)
    requires
        e is Urdf,
    ensures
        e == ModelError::Urdf(m),
{
    match e {
        ModelError::Urdf(m) => m,
        _ => String::new(),
    }
}

fn read_element(state: &mut ReadState, tag: &XmlTag, role: ElementRole) -> (r: Result<(), String>)
    requires
        old(state).parser.wf(),
    ensures
        final(state).parser.wf(),
        match spec_element(old(state).view(), tag.view(), role) {
            Ok(t) => r is Ok && final(state).view() == t,
            Err((n, m)) => r matches Err(x) && x@ == m && final(state).view().numbers == n,
        },
{
    match role {
        ElementRole::Robot => {
            let n = required_attribute(tag, &[110u8, 97, 109, 101], "robot name")?;
            state.parser.set_robot_name(n);
            Ok(())
        },
        ElementRole::Link => {
            let n = required_attribute(tag, &[110u8, 97, 109, 101], "link name")?;
            match state.parser.add_link(n) {
                Ok(()) => Ok(()),
                Err(e) => Err(urdf_message(e)),
            }
        },
        ElementRole::Joint => {
            let n = required_attribute(tag, &[110u8, 97, 109, 101], "joint name")?;
            let t = required_attribute(tag, &[116u8, 121, 112, 101], "joint type")?;
            match state.parser.begin_joint(crate::json::copy_string(&n)) {
                Ok(()) => {},
                Err(e) => {
                    return Err(urdf_message(e));
                },
            }
            state.current = Some(
                JointText {
                    name: n,
                    joint_type: t,
                    parent: None,
                    child: None,
                    limit: None,
                    axis: None,
                    mimic: None,
                },
            );
            Ok(())
        },
        ElementRole::JointChild => match state.current.take() {
            None => Ok(()),
            Some(j) => {
                let mut j = j;
                let r = read_joint_child(&mut j, tag, &mut state.numbers);
                state.current = Some(j);
                r
            },
        },
        ElementRole::Ignored => Ok(()),
    }
}

/// Finishes the joint being read, if the parser closed one.
fn finish_joint(state: &mut ReadState, closed: bool)
    ensures
        closed ==> final(state).view() == (ReadV {
            joints: match old(state).view().current {
                Some(j) => old(state).view().joints.push(j),
                None => old(state).view().joints,
            },
            current: None,
            ..old(state).view()
        }),
        !closed ==> final(state).view() == old(state).view(),
        final(state).parser == old(state).parser,
{
    if closed {
        if let Some(j) = state.current.take() {
            let ghost before = state.joints@;
            let ghost v = j.view();
            state.joints.push(j);
            assert(joints_view(state.joints@) =~= joints_view(before).push(v));
        }
    }
}

fn apply_event(state: &mut ReadState, e: &XmlEvent) -> (r: Result<(), String>)
    requires
        old(state).parser.wf(),
    ensures
        final(state).parser.wf(),
        match spec_event(old(state).view(), e.view()) {
            Ok(t) => r is Ok && final(state).view() == t,
            Err((n, m)) => r matches Err(x) && x@ == m && final(state).view().numbers == n,
        },
{
    reveal(spec_event);
    match e {
        XmlEvent::Start(tag) => {
            if state.parser.depth() == usize::MAX {
                return Err("document nests too deeply".to_owned());
            }
            let role = match state.parser.start(tag.name.as_slice()) {
                Ok(role) => role,
                Err(e) => {
                    return Err(urdf_message(e));
                },
            };
            read_element(state, tag, role)
        },
        XmlEvent::Empty(tag) => {
            if state.parser.depth() == usize::MAX {
                return Err("document nests too deeply".to_owned());
            }
            let role = match state.parser.empty(tag.name.as_slice()) {
                Ok(role) => role,
                Err(e) => {
                    return Err(urdf_message(e));
                },
            };
            read_element(state, tag, role)?;
            let closed = state.parser.close_empty();
            finish_joint(state, closed);
            Ok(())
        },
        XmlEvent::End => {
            let closed = state.parser.end();
            finish_joint(state, closed);
            Ok(())
        },
        XmlEvent::Text(bytes) => match state.parser.text(bytes.len() > 0) {
            Ok(()) => Ok(()),
            Err(e) => Err(urdf_message(e)),
        },
        XmlEvent::CData => match state.parser.cdata() {
            Ok(()) => Ok(()),
            Err(e) => Err(urdf_message(e)),
        },
        XmlEvent::Other => Ok(()),
    }
}

proof fn lemma_events_step(s: ReadV, all: Seq<XmlEventV>, i: int)
    requires
        0 <= i < all.len(),
    ensures
        spec_events(s, all.skip(i)) == match spec_event(s, all[i]) {
            Err(x) => Err(x),
            Ok(t) => spec_events(t, all.skip(i + 1)),
        },
{
    let rest = all.skip(i);
    assert(rest[0] == all[i]);
    assert(rest.drop_first() =~= all.skip(i + 1));
}

/// Reads a URDF document from the events of the XML reader, followed by
/// the reader's error `failure` or, where there is none, by the end of
/// the text; see [`spec_reading`].
pub fn read_urdf(events: &Vec<XmlEvent>, failure: Option<String>) -> (r: UrdfReading)
    ensures
        reading_is(r, spec_reading(events_view(events@), opt_text(failure))),
{
    let mut state = ReadState { parser: UrdfParser::new(), joints: Vec::new(), current: None, numbers: Vec::new() };
    proof {
        assert(joints_view(state.joints@) =~= Seq::<JointV>::empty());
        assert(numbers_view(state.numbers@) =~= Seq::<NumberV>::empty());
        assert(state.view() == initial_read());
    }
    let ghost all = events_view(events@);
    assert(all.skip(0) =~= all);
    let mut i: usize = 0;
    while i < events.len()
        invariant
            i <= events@.len(),
            all == events_view(events@),
            state.parser.wf(),
            spec_events(initial_read(), all) == spec_events(state.view(), all.skip(i as int)),
        decreases events@.len() - i,
    {
        proof {
            lemma_events_step(state.view(), all, i as int);
            assert(all[i as int] == events@[i as int].view());
        }
        match apply_event(&mut state, &events[i]) {
            Ok(()) => {},
            Err(m) => {
                return UrdfReading { numbers: state.numbers, outcome: Err(ModelError::Urdf(m)) };
            },
        }
        i = i + 1;
    }
    assert(all.skip(i as int) =~= Seq::<XmlEventV>::empty());
    if let Some(m) = failure {
        return UrdfReading { numbers: state.numbers, outcome: Err(ModelError::Urdf(m)) };
    }
    if let Err(e) = state.parser.eof() {
        return UrdfReading { numbers: state.numbers, outcome: Err(e) };
    }
    let ReadState { parser, joints, current: _, numbers } = state;
    match parser.finish() {
        Ok((robot_name, links)) => UrdfReading {
            numbers,
            outcome: Ok(UrdfDocument { robot_name, links, joints }),
        },
        Err(e) => UrdfReading { numbers, outcome: Err(e) },
    }
}

/// Reads a URDF document from its text: the events `quick_xml` reads from
/// it, walked by [`read_urdf`].
pub fn parse_urdf(source: &str) -> (r: UrdfReading)
    ensures
        reading_is(r, spec_reading(xml_events_of(source@).0, xml_events_of(source@).1)),
{
    let (events, failure) = xml_events(source);
    read_urdf(&events, failure)
}

} // verus!
