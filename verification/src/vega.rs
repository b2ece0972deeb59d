//! Vega-specific hardware-to-model selection. No hardware queries are
//! performed here: callers supply reports and the effective hand components.
use crate::error::ModelError;
use crate::json::{
    entries_view, find_key, lemma_entries_view_keys, lemma_entries_view_value, unique_keys, Json, JsonV,
};
use crate::text::{append_str, chars_eq_str, str_eq};
use vstd::prelude::*;

verus! {

/// The end effector carried by both arms of a supported Vega model.
#[derive(Debug, Clone, Copy, PartialEq, Eq, Structural)]
pub enum EndEffector {
    Bare,
    Gripper,
    F5d6,
}

/// Hardware evidence for both arms: which sides answered a hand query, and
/// per side whether the wrist force/torque sensor is present (`None` when
/// the report could not tell). Omitted or unknown wrists never imply that
/// the sensor is absent.
#[derive(Debug, Clone, Default)]
pub struct HardwareReport {
    pub reported_hands: Vec<String>,
    pub wrist_ft: Vec<(String, Option<bool>)>,
}

/// The outcome of model selection: a bundled URDF, or the reason the
/// configured URDF is kept.
#[derive(Debug, Clone, PartialEq, Eq)]
pub enum ModelSelection {
    Selected { uri: String },
    Unchanged { reason: String },
}

/// [`ModelSelection`] as plain text values.
pub enum SelectionView {
    Selected(Seq<char>),
    Unchanged(Seq<char>),
}

impl ModelSelection {
    pub open spec fn view(&self) -> SelectionView {
        match self {
            ModelSelection::Selected { uri } => SelectionView::Selected(uri@),
            ModelSelection::Unchanged { reason } => SelectionView::Unchanged(reason@),
        }
    }
}

/// The value of the first entry keyed `key`.
pub open spec fn side_lookup<T>(entries: Seq<(String, T)>, key: Seq<char>) -> Option<T>
    decreases entries.len(),
{
    if entries.len() == 0 {
        None
    } else if entries[0].0@ == key {
        Some(entries[0].1)
    } else {
        side_lookup(entries.drop_first(), key)
    }
}

/// Exactly two entries, one for each side.
pub open spec fn spec_both_sides<T>(entries: Seq<(String, T)>) -> bool {
    entries.len() == 2 && side_lookup(entries, "left"@) is Some && side_lookup(entries, "right"@) is Some
}

pub open spec fn reason_incomplete() -> Seq<char> {
    "Both arms must report hand and wrist hardware; configured URDF retained."@
}

pub open spec fn reason_mixed_hands() -> Seq<char> {
    "Arms have different end effectors; no matching model exists."@
}

pub open spec fn reason_unknown_wrist() -> Seq<char> {
    "Wrist FT status is unknown; configured URDF retained."@
}

pub open spec fn reason_mixed_wrists() -> Seq<char> {
    "Arms have different wrist hardware; no matching model exists."@
}

pub open spec fn reason_unsupported_body() -> Seq<char> {
    "No bundled model supports this body and wrist combination."@
}

pub open spec fn hand_suffix(e: EndEffector) -> Seq<char> {
    match e {
        EndEffector::Bare => ""@,
        EndEffector::Gripper => "_gripper"@,
        EndEffector::F5d6 => "_f5d6"@,
    }
}

pub open spec fn wrist_suffix(ft: bool) -> Seq<char> {
    if ft {
        ""@
    } else {
        "_no_ft"@
    }
}

/// The bundled URDF of `body` with the given wrist and hand.
pub open spec fn model_uri(body: Seq<char>, ft: bool, hand: EndEffector) -> Seq<char> {
    "package://dexmate_urdf/robots/humanoid/"@ + body + "/"@ + body + wrist_suffix(ft)
        + hand_suffix(hand) + ".urdf"@
}

/// Model selection over plain values: a bundled model only for complete,
/// agreeing reports from both arms. Vega-1 has no no-FT model; Vega-1p and
/// Vega-1u support both wrist variants.
pub open spec fn spec_select_model(
    body: Seq<char>,
    hands: Seq<(String, EndEffector)>,
    wrist_ft: Seq<(String, Option<bool>)>,
) -> SelectionView {
    if !spec_both_sides(hands) || !spec_both_sides(wrist_ft) {
        SelectionView::Unchanged(reason_incomplete())
    } else {
        let lh = side_lookup(hands, "left"@).unwrap();
        let rh = side_lookup(hands, "right"@).unwrap();
        let lw = side_lookup(wrist_ft, "left"@).unwrap();
        let rw = side_lookup(wrist_ft, "right"@).unwrap();
        if lh != rh {
            SelectionView::Unchanged(reason_mixed_hands())
        } else if lw is None || rw is None {
            SelectionView::Unchanged(reason_unknown_wrist())
        } else if lw != rw {
            SelectionView::Unchanged(reason_mixed_wrists())
        } else if !(body == "vega_1"@ || body == "vega_1p"@ || body == "vega_1u"@) || (body
            == "vega_1"@ && !lw.unwrap()) {
            SelectionView::Unchanged(reason_unsupported_body())
        } else {
            SelectionView::Selected(model_uri(body, lw.unwrap(), lh))
        }
    }
}

/// An `Unchanged` selection with the given reason.
pub fn unchanged(reason: &str) -> (r: ModelSelection)
    ensures
        r@ == SelectionView::Unchanged(reason@),
{
    ModelSelection::Unchanged { reason: reason.to_owned() }
}

/// The value of the first entry keyed `key`.
pub fn find_side<T: Copy>(entries: &[(String, T)], key: &str) -> (r: Option<T>)
    ensures
        r == side_lookup(entries@, key@),
{
    let mut i: usize = 0;
    assert(entries@.skip(0) =~= entries@);
    while i < entries.len()
        invariant
            i <= entries@.len(),
            side_lookup(entries@, key@) == side_lookup(entries@.skip(i as int), key@),
        decreases entries@.len() - i,
    {
        assert(entries@.skip(i as int).drop_first() =~= entries@.skip(i + 1));
        if str_eq(entries[i].0.as_str(), key) {
            return Some(entries[i].1);
        }
        i = i + 1;
    }
    None
}

/// Exactly two entries, one keyed `left` and one keyed `right`.
pub fn both_sides<T: Copy>(entries: &[(String, T)]) -> (r: bool)
    ensures
        r == spec_both_sides(entries@),
{
    entries.len() == 2 && find_side(entries, "left").is_some() && find_side(entries, "right").is_some()
}

/// Selects a bundled model only for complete, agreeing reports from both
/// arms. F5D6 hardware revisions share one model; callers map both to
/// [`EndEffector::F5d6`].
pub fn select_model(
    body: &str,
    hands: &[(String, EndEffector)],
    wrist_ft: &[(String, Option<bool>)],
) -> (r: ModelSelection)
    ensures
        r@ == spec_select_model(body@, hands@, wrist_ft@),
{
    if !both_sides(hands) || !both_sides(wrist_ft) {
        return unchanged("Both arms must report hand and wrist hardware; configured URDF retained.");
    }
    let lh = find_side(hands, "left").unwrap();
    let rh = find_side(hands, "right").unwrap();
    let lw = find_side(wrist_ft, "left").unwrap();
    let rw = find_side(wrist_ft, "right").unwrap();
    if lh != rh {
        return unchanged("Arms have different end effectors; no matching model exists.");
    }
    let (left, right) = match (lw, rw) {
        (Some(l), Some(r)) => (l, r),
        _ => {
            return unchanged("Wrist FT status is unknown; configured URDF retained.");
        },
    };
    if left != right {
        return unchanged("Arms have different wrist hardware; no matching model exists.");
    }
    let is_1 = str_eq(body, "vega_1");
    let supported = is_1 || str_eq(body, "vega_1p") || str_eq(body, "vega_1u");
    if !supported || (is_1 && !left) {
        return unchanged("No bundled model supports this body and wrist combination.");
    }
    let mut uri = String::new();
    append_str(&mut uri, "package://dexmate_urdf/robots/humanoid/");
    append_str(&mut uri, body);
    append_str(&mut uri, "/");
    append_str(&mut uri, body);
    append_str(&mut uri, if left { "" } else { "_no_ft" });
    append_str(
        &mut uri,
        match lh {
            EndEffector::Bare => "",
            EndEffector::Gripper => "_gripper",
            EndEffector::F5d6 => "_f5d6",
        },
    );
    append_str(&mut uri, ".urdf");
    ModelSelection::Selected { uri }
}


/// The member `key` of an object; `Null` for a missing member or a value
/// that is not an object.
pub open spec fn member(v: JsonV, key: Seq<char>) -> JsonV {
    match v {
        JsonV::Object(m) => if m.contains_key(key) {
            m[key]
        } else {
            JsonV::Null
        },
        _ => JsonV::Null,
    }
}

/// The member `key` of an object, if present.
pub fn get_member<'a>(v: &'a Json, key: &str) -> (r: Option<&'a Json>)
    requires
        v.wf(),
    ensures
        match r {
            Some(x) => x.view_json() == member(v.view_json(), key@) && x.wf() && v.view_json() is Object
                && v.view_json()->Object_0.contains_key(key@),
            None => member(v.view_json(), key@) == JsonV::Null && !(v.view_json() is Object
                && v.view_json()->Object_0.contains_key(key@)),
        },
{
    match v {
        Json::Object(entries) => {
            proof {
                lemma_entries_view_keys(entries@);
            }
            match find_key(entries, key) {
                Some(i) => {
                    proof {
                        lemma_entries_view_value(entries@, i as int);
                    }
                    Some(&entries[i].1)
                },
                None => None,
            }
        },
        _ => None,
    }
}

pub open spec fn reason_unsupported_driver() -> Seq<char> {
    "Hand driver has no supported Vega model; configured URDF retained."@
}

/// The end effector that the effective configuration runs on `side`: a
/// bare flange when its hand component is absent or disabled, else the one
/// its driver names (`None` for a driver with no Vega model).
pub open spec fn spec_effective_hand(effective: JsonV, side: Seq<char>) -> Option<EndEffector> {
    let component = member(member(effective, "components"@), side + "_hand"@);
    if component == JsonV::Null || member(component, "enabled"@) == JsonV::Bool(false) {
        Some(EndEffector::Bare)
    } else {
        match member(component, "driver"@) {
            JsonV::Text(d) => if d == "standard.dex_gripper"@ {
                Some(EndEffector::Gripper)
            } else if d == "standard.f5d6_hand"@ {
                Some(EndEffector::F5d6)
            } else {
                None
            },
            _ => None,
        }
    }
}

/// One `(side, end effector)` entry per reported side, in report order.
pub open spec fn effective_hands(effective: JsonV, sides: Seq<String>) -> Seq<(String, EndEffector)>
    decreases sides.len(),
{
    if sides.len() == 0 {
        Seq::empty()
    } else {
        let rest = effective_hands(effective, sides.drop_last());
        let s = sides.last();
        if side_lookup(rest, s@) is Some {
            rest
        } else {
            rest.push((s, spec_effective_hand(effective, s@).unwrap()))
        }
    }
}

/// The robot model named by the effective configuration (empty if none).
pub open spec fn effective_body(effective: JsonV) -> Seq<char> {
    match member(member(effective, "robot"@), "model"@) {
        JsonV::Text(t) => t,
        _ => Seq::empty(),
    }
}

/// Selection for the hand components that will actually run.
pub open spec fn spec_select_effective(effective: JsonV, report: HardwareReport) -> SelectionView {
    if exists|i: int|
        0 <= i < report.reported_hands@.len() && #[trigger] spec_effective_hand(
            effective,
            report.reported_hands@[i]@,
        ) is None {
        SelectionView::Unchanged(reason_unsupported_driver())
    } else {
        spec_select_model(
            effective_body(effective),
            effective_hands(effective, report.reported_hands@),
            report.wrist_ft@,
        )
    }
}

/// The end effector of `side` in the effective configuration; see
/// [`spec_effective_hand`].
fn effective_hand(effective: &Json, side: &str) -> (r: Option<EndEffector>)
    requires
        effective.wf(),
    ensures
        r == spec_effective_hand(effective.view_json(), side@),
{
    proof {
        reveal_strlit("enabled");
        reveal_strlit("driver");
    }
    let mut key = String::new();
    append_str(&mut key, side);
    append_str(&mut key, "_hand");
    let component = match get_member(effective, "components") {
        Some(components) => get_member(components, key.as_str()),
        None => None,
    };
    let component = match component {
        None => {
            return Some(EndEffector::Bare);
        },
        Some(c) => c,
    };
    if let Json::Null = component {
        return Some(EndEffector::Bare);
    }
    if let Some(Json::Bool(false)) = get_member(component, "enabled") {
        return Some(EndEffector::Bare);
    }
    match get_member(component, "driver") {
        Some(Json::String(d)) => {
            if str_eq(d.as_str(), "standard.dex_gripper") {
                Some(EndEffector::Gripper)
            } else if str_eq(d.as_str(), "standard.f5d6_hand") {
                Some(EndEffector::F5d6)
            } else {
                None
            }
        },
        _ => None,
    }
}

/// Selects the bundled model for the hand components that the effective
/// configuration will actually run: a disabled or absent hand is a bare
/// flange, so a retained configured hand type never gets the detected
/// hand's model. A hand driver without a Vega model, or an incomplete or
/// inconsistent report, keeps the configured URDF.
pub fn select_effective_model(effective: &Json, report: &HardwareReport) -> (r: ModelSelection)
    requires
        effective.wf(),
    ensures
        r@ == spec_select_effective(effective.view_json(), *report),
{
    let ghost eff = effective.view_json();
    let sides = &report.reported_hands;
    let mut hands: Vec<(String, EndEffector)> = Vec::new();
    let mut i: usize = 0;
    while i < sides.len()
        invariant
            effective.wf(),
            eff == effective.view_json(),
            sides@ == report.reported_hands@,
            i <= sides@.len(),
            forall|j: int| 0 <= j < i ==> #[trigger] spec_effective_hand(eff, sides@[j]@) is Some,
            hands@ == effective_hands(eff, sides@.take(i as int)),
        decreases sides@.len() - i,
    {
        let hand = match effective_hand(effective, sides[i].as_str()) {
            Some(h) => h,
            None => {
                assert(spec_effective_hand(eff, sides@[i as int]@) is None);
                return unchanged("Hand driver has no supported Vega model; configured URDF retained.");
            },
        };
        proof {
            assert(sides@.take(i + 1).drop_last() =~= sides@.take(i as int));
            assert(sides@.take(i + 1).last() == sides@[i as int]);
        }
        let ghost before = hands@;
        if find_side(hands.as_slice(), sides[i].as_str()).is_none() {
            hands.push((sides[i].clone(), hand));
            assert(hands@ == before.push((sides@[i as int], hand)));
        }
        i = i + 1;
    }
    proof {
        assert(sides@.take(sides@.len() as int) =~= sides@);
    }
    let body = match get_member(effective, "robot") {
        Some(robot) => match get_member(robot, "model") {
            Some(Json::String(t)) => t.as_str(),
            _ => "",
        },
        None => "",
    };
    proof {
        reveal_strlit("");
        assert(body@ == effective_body(eff));
        assert(hands@ == effective_hands(eff, sides@));
        assert(!exists|i: int|
            0 <= i < report.reported_hands@.len() && #[trigger] spec_effective_hand(
                eff,
                report.reported_hands@[i]@,
            ) is None);
    }
    select_model(body, hands.as_slice(), report.wrist_ft.as_slice())
}

pub open spec fn reason_explicit_urdf() -> Seq<char> {
    "Discovery supplied an explicit URDF; automatic selection skipped."@
}

pub open spec fn reason_missing_urdf() -> Seq<char> {
    "Selected URDF is missing from the configured asset root; configured URDF retained."@
}

/// The discovery facts name a URDF themselves: their `robot` member is an
/// object with a `urdf` member (of any value).
pub open spec fn names_urdf(facts: JsonV) -> bool {
    &&& facts is Object
    &&& facts->Object_0.contains_key("robot"@)
    &&& facts->Object_0["robot"@] is Object
    &&& facts->Object_0["robot"@]->Object_0.contains_key("urdf"@)
}

/// The model selection of a discovery: skipped where the facts name a URDF
/// themselves, else the selection for the hands of the effective document
/// (the configuration with the facts applied).
pub fn discovery_selection(facts: &Json, effective: &Json, report: &HardwareReport) -> (r: ModelSelection)
    requires
        facts.wf(),
        effective.wf(),
    ensures
        r@ == if names_urdf(facts.view_json()) {
            SelectionView::Unchanged(reason_explicit_urdf())
        } else {
            spec_select_effective(effective.view_json(), *report)
        },
{
    let explicit = match get_member(facts, "robot") {
        Some(robot) => get_member(robot, "urdf").is_some(),
        None => false,
    };
    if explicit {
        return unchanged("Discovery supplied an explicit URDF; automatic selection skipped.");
    }
    select_effective_model(effective, report)
}

/// What loading a selected URDF gave.
pub enum UrdfProbe {
    Loaded,
    /// The file is not there.
    Missing,
    /// Any other failure, reported as it came.
    Failed(ModelError),
}

/// The discovery layer that sets the robot's URDF to `uri`.
pub open spec fn urdf_layer(uri: Seq<char>) -> JsonV {
    JsonV::Object(map!["robot"@ => JsonV::Object(map!["urdf"@ => JsonV::Text(uri)])])
}

pub open spec fn empty_layer() -> JsonV {
    JsonV::Object(Map::empty())
}

/// The layer a selection adds to the discovery, and the selection
/// reported. A selected model whose URDF loaded sets `robot.urdf`; one
/// whose URDF is missing adds nothing and keeps the configured model; any
/// other failure to load it is the error. `probe` is consulted only for a
/// selected model: an unchanged selection adds nothing.
pub fn selection_layer(selection: ModelSelection, probe: UrdfProbe) -> (r: Result<(Json, ModelSelection), ModelError>)
    ensures
        match selection@ {
            SelectionView::Unchanged(_) => r matches Ok((layer, s)) && layer.wf() && layer.view_json()
                == empty_layer() && s@ == selection@,
            SelectionView::Selected(uri) => match probe {
                UrdfProbe::Loaded => r matches Ok((layer, s)) && layer.wf() && layer.view_json()
                    == urdf_layer(uri) && s@ == selection@,
                UrdfProbe::Missing => r matches Ok((layer, s)) && layer.wf() && layer.view_json()
                    == empty_layer() && s@ == SelectionView::Unchanged(reason_missing_urdf()),
                UrdfProbe::Failed(e) => r == Err::<(Json, ModelSelection), ModelError>(e),
            },
        },
{
    let empty = Json::Object(Vec::new());
    proof {
        assert(entries_view(Seq::<(String, Json)>::empty()) =~= Map::<Seq<char>, JsonV>::empty());
    }
    match selection {
        ModelSelection::Unchanged { reason } => Ok((empty, ModelSelection::Unchanged { reason })),
        ModelSelection::Selected { uri } => match probe {
            UrdfProbe::Loaded => {
                let value = Json::String(crate::json::copy_string(&uri));
                let mut inner: Vec<(String, Json)> = Vec::new();
                inner.push(("urdf".to_owned(), value));
                proof {
                    assert(inner@.drop_last() =~= Seq::<(String, Json)>::empty());
                    assert(inner@.last().0@ == "urdf"@);
                    assert(inner@.last().1.view_json() == JsonV::Text(uri@));
                    assert(entries_view(Seq::<(String, Json)>::empty()) == Map::<Seq<char>, JsonV>::empty());
                    assert(entries_view(inner@) == Map::<Seq<char>, JsonV>::empty().insert("urdf"@, JsonV::Text(uri@)));
                    assert(entries_view(inner@) =~= map!["urdf"@ => JsonV::Text(uri@)]);
                }
                proof {
                    assert(inner@.len() == 1 && inner@[0].1.wf());
                    assert(unique_keys(inner@));
                }
                let robot = Json::Object(inner);
                assert(robot.wf());
                let mut outer: Vec<(String, Json)> = Vec::new();
                outer.push(("robot".to_owned(), robot));
                proof {
                    let inner_view = map!["urdf"@ => JsonV::Text(uri@)];
                    assert(outer@.drop_last() =~= Seq::<(String, Json)>::empty());
                    assert(outer@.last().0@ == "robot"@);
                    assert(outer@.last().1.view_json() == JsonV::Object(inner_view));
                    assert(entries_view(Seq::<(String, Json)>::empty()) == Map::<Seq<char>, JsonV>::empty());
                    assert(entries_view(outer@) == Map::<Seq<char>, JsonV>::empty().insert("robot"@, JsonV::Object(inner_view)));
                    assert(entries_view(outer@) =~= map!["robot"@ => JsonV::Object(inner_view)]);
                    assert(outer@.len() == 1 && outer@[0].1.wf());
                    assert(unique_keys(outer@));
                }
                Ok((Json::Object(outer), ModelSelection::Selected { uri }))
            },
            UrdfProbe::Missing => Ok((empty, unchanged("Selected URDF is missing from the configured asset root; configured URDF retained."))),
            UrdfProbe::Failed(e) => Err(e),
        },
    }
}

/// Both arms report, with the same end effector and the same known wrist
/// status `ft`, and `body` has a bundled model for that wrist.
pub open spec fn complete_agreeing_report(
    body: Seq<char>,
    hands: Seq<(String, EndEffector)>,
    wrist_ft: Seq<(String, Option<bool>)>,
    ft: bool,
) -> bool {
    &&& spec_both_sides(hands)
    &&& spec_both_sides(wrist_ft)
    &&& side_lookup(hands, "left"@) == side_lookup(hands, "right"@)
    &&& side_lookup(wrist_ft, "left"@) == Some(Some(ft))
    &&& side_lookup(wrist_ft, "right"@) == Some(Some(ft))
    &&& (body == "vega_1"@ || body == "vega_1p"@ || body == "vega_1u"@)
    &&& (body == "vega_1"@ ==> ft)
}

/// Selection never guesses: a bundled model is chosen exactly when both
/// arms report the same end effector and the same known wrist status for a
/// body that has a model for it, and the model chosen is that body's
/// model for that wrist and hand. Missing, unknown or disagreeing reports
/// and unsupported bodies keep the configured model.
pub proof fn law_selection_never_guesses(
    body: Seq<char>,
    hands: Seq<(String, EndEffector)>,
    wrist_ft: Seq<(String, Option<bool>)>,
)
    ensures
        spec_select_model(body, hands, wrist_ft) is Selected <==> exists|ft: bool|
            complete_agreeing_report(body, hands, wrist_ft, ft),
        forall|ft: bool|
            complete_agreeing_report(body, hands, wrist_ft, ft) ==> spec_select_model(body, hands, wrist_ft)
                == SelectionView::Selected(model_uri(body, ft, side_lookup(hands, "left"@)->0)),
{
    if spec_select_model(body, hands, wrist_ft) is Selected {
        let ft = side_lookup(wrist_ft, "left"@)->0->0;
        assert(complete_agreeing_report(body, hands, wrist_ft, ft));
    }
}

/// The hand component that the effective configuration declares on `side`
/// (`left_hand` or `right_hand`): enabled, with driver `driver`.
pub open spec fn declares_enabled_hand(effective: JsonV, key: Seq<char>, driver: Seq<char>) -> bool {
    let component = member(member(effective, "components"@), key);
    &&& member(component, "driver"@) == JsonV::Text(driver)
    &&& member(component, "enabled"@) != JsonV::Bool(false)
}

/// An enabled hand on each arm with the same supported driver
/// (`standard.dex_gripper` for the gripper, `standard.f5d6_hand` for the
/// F5D6 hand), with a report from both arms that agrees on the wrist
/// sensor, selects the body's model for that hand and wrist (a Vega-1 only
/// with the sensor).
pub proof fn law_supported_hands_select_their_model(
    effective: JsonV,
    report: HardwareReport,
    body: Seq<char>,
    ft: bool,
    driver: Seq<char>,
    suffix: Seq<char>,
)
    requires
        member(member(effective, "robot"@), "model"@) == JsonV::Text(body),
        (body == "vega_1"@ && ft) || body == "vega_1p"@ || body == "vega_1u"@,
        (driver == "standard.dex_gripper"@ && suffix == "_gripper"@) || (driver == "standard.f5d6_hand"@
            && suffix == "_f5d6"@),
        declares_enabled_hand(effective, "left_hand"@, driver),
        declares_enabled_hand(effective, "right_hand"@, driver),
        report.reported_hands@.len() == 2,
        report.reported_hands@[0]@ == "left"@,
        report.reported_hands@[1]@ == "right"@,
        report.wrist_ft@.len() == 2,
        report.wrist_ft@[0].0@ == "left"@ && report.wrist_ft@[0].1 == Some(ft),
        report.wrist_ft@[1].0@ == "right"@ && report.wrist_ft@[1].1 == Some(ft),
    ensures
        spec_select_effective(effective, report) == SelectionView::Selected(
            "package://dexmate_urdf/robots/humanoid/"@ + body + "/"@ + body + (if ft {
                ""@
            } else {
                "_no_ft"@
            }) + suffix + ".urdf"@,
        ),
{
    reveal_strlit("left");
    reveal_strlit("right");
    reveal_strlit("_hand");
    reveal_strlit("left_hand");
    reveal_strlit("right_hand");
    reveal_strlit("standard.f5d6_hand");
    reveal_strlit("standard.dex_gripper");
    reveal_strlit("_f5d6");
    reveal_strlit(".urdf");
    reveal_strlit("_gripper");
    reveal_strlit("");
    reveal_strlit("_no_ft");
    assert("left"@ + "_hand"@ =~= "left_hand"@);
    assert("right"@ + "_hand"@ =~= "right_hand"@);
    assert("left"@ != "right"@);
    assert("standard.f5d6_hand"@ != "standard.dex_gripper"@) by {
        assert("standard.f5d6_hand"@.len() != "standard.dex_gripper"@.len());
    }
    let e = if driver == "standard.dex_gripper"@ {
        EndEffector::Gripper
    } else {
        EndEffector::F5d6
    };
    assert(hand_suffix(e) == suffix);
    let sides = report.reported_hands@;
    assert(spec_effective_hand(effective, sides[0]@) == Some(e));
    assert(spec_effective_hand(effective, sides[1]@) == Some(e));
    assert(!exists|i: int| 0 <= i < sides.len() && #[trigger] spec_effective_hand(effective, sides[i]@) is None);
    let d = sides.drop_last();
    assert(d.len() == 1 && d.last() == sides[0]);
    assert(d.drop_last() =~= Seq::<String>::empty());
    assert(effective_hands(effective, d.drop_last()) == Seq::<(String, EndEffector)>::empty());
    let first = effective_hands(effective, d);
    assert(first =~= seq![(sides[0], e)]);
    assert(first.drop_first() =~= Seq::<(String, EndEffector)>::empty());
    assert(side_lookup(first.drop_first(), sides[1]@) is None);
    assert(side_lookup(first, sides[1]@) is None);
    assert(sides.last() == sides[1]);
    let hands = effective_hands(effective, sides);
    assert(hands =~= seq![(sides[0], e), (sides[1], e)]);
    assert(hands.drop_first() =~= seq![(sides[1], e)]);
    assert(hands.drop_first().drop_first() =~= Seq::<(String, EndEffector)>::empty());
    assert(side_lookup(hands, "left"@) == Some(e));
    assert(side_lookup(hands.drop_first(), "right"@) == Some(e));
    assert(side_lookup(hands, "right"@) == Some(e));
    let w = report.wrist_ft@;
    assert(w.drop_first()[0] == w[1]);
    assert(w.drop_first().drop_first() =~= Seq::<(String, Option<bool>)>::empty());
    assert(side_lookup(w, "left"@) == Some(Some(ft)));
    assert(side_lookup(w.drop_first(), "right"@) == Some(Some(ft)));
    assert(side_lookup(w, "right"@) == Some(Some(ft)));
    law_selection_never_guesses(body, hands, w);
    reveal_strlit("vega_1");
    reveal_strlit("vega_1p");
    reveal_strlit("vega_1u");
    assert(body == "vega_1"@ ==> ft) by {
        assert("vega_1"@.len() != "vega_1p"@.len());
        assert("vega_1"@.len() != "vega_1u"@.len());
    }
    assert(spec_both_sides(hands));
    assert(spec_both_sides(w));
    assert(complete_agreeing_report(body, hands, w, ft));
    let w_suffix: Seq<char> = if ft {
        ""@
    } else {
        "_no_ft"@
    };
    assert(model_uri(body, ft, e) =~= "package://dexmate_urdf/robots/humanoid/"@ + body + "/"@
        + body + w_suffix + suffix + ".urdf"@);
}

} // verus!
