//! Composition of a robot configuration from layers: the base profile's
//! fragments, the profile itself, overlays, API layers and discovery.
use crate::error::{append_debug, debug_repr, ModelError};
use crate::json::{
    entries_view, find_key, json_display, json_text, lemma_entries_view_keys,
    lemma_entries_view_value, unique_keys, Json, JsonV,
};
use crate::merge::{merge_layer, reports, spec_merge_layer, MergeFailure};
use crate::provenance::{lemma_lex_irreflexive, lemma_lex_total, lemma_lex_transitive, lex_less, lex_lt, Provenance};
use crate::text::{append_str, chars_of, slice_chars, spec_starts_with, starts_with, string_of};
use crate::types::ResolutionStage;
use crate::vega::{get_member, member};
use vstd::prelude::*;

verus! {

/// Strictly increasing in code-point order.
pub open spec fn strictly_sorted(s: Seq<Seq<char>>) -> bool {
    forall|i: int, j: int| 0 <= i < j < s.len() ==> lex_lt(#[trigger] s[i], #[trigger] s[j])
}

/// The texts of a finite set in code-point order.
pub open spec fn sorted_texts(keys: Set<Seq<char>>) -> Seq<Seq<char>> {
    choose|r: Seq<Seq<char>>| strictly_sorted(r) && r.to_set() == keys
}

/// Two strictly sorted sequences of the same texts are equal.
pub proof fn lemma_sorted_unique(a: Seq<Seq<char>>, b: Seq<Seq<char>>)
    requires
        strictly_sorted(a),
        strictly_sorted(b),
        a.to_set() == b.to_set(),
    ensures
        a == b,
    decreases a.len(),
{
    if a.len() == 0 {
        if b.len() > 0 {
            assert(b.to_set().contains(b[0]));
        }
        assert(a =~= b);
    } else {
        assert(a.to_set().contains(a[0]));
        assert(b.len() > 0);
        assert(b.to_set().contains(b[0]));
        let i = choose|i: int| 0 <= i < b.len() && b[i] == a[0];
        let j = choose|j: int| 0 <= j < a.len() && a[j] == b[0];
        if i > 0 {
            assert(lex_lt(b[0], b[i]));
            if j > 0 {
                assert(lex_lt(a[0], a[j]));
                lemma_lex_total(a[0], b[0]);
            } else {
                lemma_lex_irreflexive(a[0]);
            }
        }
        assert(a[0] == b[0]);
        let a1 = a.drop_first();
        let b1 = b.drop_first();
        assert forall|x: Seq<char>| a1.to_set().contains(x) <==> b1.to_set().contains(x) by {
            if a1.to_set().contains(x) {
                let k = choose|k: int| 0 <= k < a1.len() && a1[k] == x;
                assert(a[k + 1] == x);
                assert(lex_lt(a[0], x));
                lemma_lex_irreflexive(x);
                assert(b.to_set().contains(x));
                let m = choose|m: int| 0 <= m < b.len() && b[m] == x;
                assert(m != 0);
                assert(b1[m - 1] == x);
            }
            if b1.to_set().contains(x) {
                let k = choose|k: int| 0 <= k < b1.len() && b1[k] == x;
                assert(b[k + 1] == x);
                assert(lex_lt(b[0], x));
                lemma_lex_irreflexive(x);
                assert(a.to_set().contains(x));
                let m = choose|m: int| 0 <= m < a.len() && a[m] == x;
                assert(m != 0);
                assert(a1[m - 1] == x);
            }
        }
        assert(a1.to_set() =~= b1.to_set());
        lemma_sorted_unique(a1, b1);
        assert(a.len() == b.len());
        assert forall|k: int| 0 <= k < a.len() implies a[k] == b[k] by {
            if k > 0 {
                assert(a[k] == a1[k - 1]);
                assert(b[k] == b1[k - 1]);
            }
        }
        assert(a =~= b);
    }
}

/// The texts of `s` joined by `", "`.
pub open spec fn join_comma(s: Seq<Seq<char>>) -> Seq<char>
    decreases s.len(),
{
    if s.len() == 0 {
        Seq::empty()
    } else if s.len() == 1 {
        s[0]
    } else {
        join_comma(s.drop_last()) + ", "@ + s.last()
    }
}

/// Strict code-point order of two texts.
pub fn text_less_pub(a: &String, b: &String) -> (r: bool)
    ensures
        r == lex_lt(a@, b@),
{
    text_less(a, b)
}

fn text_less(a: &String, b: &String) -> (r: bool)
    ensures
        r == lex_lt(a@, b@),
{
    let ac = chars_of(a.as_str());
    let bc = chars_of(b.as_str());
    lex_less(ac.as_slice(), bc.as_slice())
}

/// The texts of `v`.
pub open spec fn texts(v: Seq<String>) -> Seq<Seq<char>> {
    v.map_values(|s: String| s@)
}

/// The keys of `entries` in code-point order (the keys are distinct).
fn sorted_keys_of(entries: &Vec<(String, Json)>) -> (r: Vec<String>)
    requires
        unique_keys(entries@),
    ensures
        texts(r@) == sorted_texts(entries_view(entries@).dom()),
        strictly_sorted(texts(r@)),
        texts(r@).to_set() == entries_view(entries@).dom(),
{
    let mut out: Vec<String> = Vec::new();
    let mut i: usize = 0;
    proof {
        lemma_entries_view_keys(entries@);
        assert(texts(out@).to_set() =~= Set::new(
            |k: Seq<char>| exists|j: int| 0 <= j < 0 && #[trigger] entries@[j].0@ == k,
        ));
    }
    while i < entries.len()
        invariant
            i <= entries@.len(),
            unique_keys(entries@),
            strictly_sorted(texts(out@)),
            texts(out@).to_set() == Set::new(
                |k: Seq<char>| exists|j: int| 0 <= j < i && #[trigger] entries@[j].0@ == k,
            ),
        decreases entries@.len() - i,
    {
        let key = &entries[i].0;
        let ghost before = texts(out@);
        let mut p: usize = 0;
        while p < out.len() && !text_less(key, &out[p])
            invariant
                p <= out@.len(),
                before == texts(out@),
                forall|q: int| 0 <= q < p ==> lex_lt(#[trigger] before[q], key@) || before[q] == key@,
            decreases out@.len() - p,
        {
            proof {
                lemma_lex_total(key@, before[p as int]);
            }
            p = p + 1;
        }
        proof {
            assert(!before.to_set().contains(key@)) by {
                if before.to_set().contains(key@) {
                    assert(Set::new(
                        |k: Seq<char>| exists|j: int| 0 <= j < i && #[trigger] entries@[j].0@ == k,
                    ).contains(key@));
                    let j = choose|j: int| 0 <= j < i && #[trigger] entries@[j].0@ == key@;
                    assert(entries@[j].0@ != entries@[i as int].0@);
                }
            }
            assert forall|q: int| 0 <= q < p implies lex_lt(#[trigger] before[q], key@) by {
                if before[q] == key@ {
                    assert(before.to_set().contains(before[q]));
                }
            }
        }
        out.insert(p, key.clone());
        proof {
            let now = texts(out@);
            assert(now =~= before.insert(p as int, key@));
            assert forall|x: int, y: int| 0 <= x < y < now.len() implies lex_lt(#[trigger] now[x], #[trigger] now[y]) by {
                if y < p {
                } else if x < p && y == p {
                } else if x < p && y > p {
                    assert(now[y] == before[y - 1]);
                    assert(lex_lt(key@, before[y - 1])) by {
                        assert(p < before.len());
                        assert(lex_lt(key@, before[p as int]));
                        if y - 1 > p {
                            lemma_lex_transitive(key@, before[p as int], before[y - 1]);
                        }
                    }
                    lemma_lex_transitive(before[x], key@, before[y - 1]);
                } else if x == p {
                    assert(now[y] == before[y - 1]);
                    assert(lex_lt(key@, before[p as int]));
                    if y - 1 > p {
                        lemma_lex_transitive(key@, before[p as int], before[y - 1]);
                    }
                } else {
                    assert(now[x] == before[x - 1]);
                    assert(now[y] == before[y - 1]);
                }
            }
            assert(now.to_set() =~= Set::new(
                |k: Seq<char>| exists|j: int| 0 <= j < i + 1 && #[trigger] entries@[j].0@ == k,
            )) by {
                assert forall|k: Seq<char>| now.to_set().contains(k) implies exists|j: int| 0 <= j < i + 1 && #[trigger] entries@[j].0@ == k by {
                    let m = choose|m: int| 0 <= m < now.len() && now[m] == k;
                    if m == p {
                        assert(entries@[i as int].0@ == k);
                    } else if m < p {
                        assert(before.to_set().contains(before[m]));
                    } else {
                        assert(before.to_set().contains(before[m - 1]));
                    }
                }
                assert forall|k: Seq<char>| (exists|j: int| 0 <= j < i + 1 && #[trigger] entries@[j].0@ == k) implies now.to_set().contains(k) by {
                    let j = choose|j: int| 0 <= j < i + 1 && #[trigger] entries@[j].0@ == k;
                    if j == i {
                        assert(now[p as int] == k);
                    } else {
                        assert(before.to_set().contains(k));
                        let m = choose|m: int| 0 <= m < before.len() && before[m] == k;
                        if m < p {
                            assert(now[m] == k);
                        } else {
                            assert(now[m + 1] == k);
                        }
                    }
                }
            }
        }
        i = i + 1;
    }
    proof {
        let keys = entries_view(entries@).dom();
        assert(texts(out@).to_set() =~= keys) by {
            assert forall|k: Seq<char>| texts(out@).to_set().contains(k) <==> keys.contains(k) by {
                assert(keys.contains(k) <==> crate::json::has_key(entries@, k));
            }
        }
        let r = sorted_texts(keys);
        assert(strictly_sorted(r) && r.to_set() == keys);
        lemma_sorted_unique(texts(out@), r);
    }
    out
}

// ------------------------------------------------------------- extends

/// Every element of an array value is a string: what a list of fragment
/// names reads as.
pub open spec fn text_list(v: JsonV) -> Option<Seq<Seq<char>>> {
    match v {
        JsonV::Array(items) => if forall|i: int| 0 <= i < items.len() ==> #[trigger] items[i] is Text {
            Some(items.map_values(|x: JsonV| x->Text_0))
        } else {
            None
        },
        _ => None,
    }
}

/// Why a value is not a list of strings, as `serde_json` words it.
pub uninterp spec fn string_list_error(v: JsonV) -> Seq<char>;

/// Reads a list of strings (`serde_json::from_value::<Vec<String>>`): an
/// array whose elements are all strings gives them; anything else fails
/// with the deserializer's message.
#[verifier::external_body]
fn read_string_list(v: &Json) -> (r: Result<Vec<String>, String>)
    ensures
        match r {
            Ok(list) => text_list(v.view_json()) == Some(texts(list@)),
            Err(e) => text_list(v.view_json()) is None && e@ == string_list_error(v.view_json()),
        },
{
    serde_json::from_value::<Vec<String>>(crate::json::to_serde(v)).map_err(|error| error.to_string())
}

/// `v` is an object with member `key`.
pub open spec fn has_member(v: JsonV, key: Seq<char>) -> bool {
    v is Object && v->Object_0.contains_key(key)
}

pub open spec fn not_an_object(name: Seq<char>, e: ModelError) -> bool {
    e matches ModelError::Parse { source_name, message } && source_name@ == name && message@
        == "document root must be an object"@
}

/// Takes the `extends` list out of a profile document named `name`: the
/// document must be an object, and `extends`, where present, a list of
/// fragment names; it is removed from the document either way.
pub fn take_extends(value: &mut Json, name: &str) -> (r: Result<Vec<String>, ModelError>)
    requires
        old(value).wf(),
    ensures
        final(value).wf(),
        !(old(value).view_json() is Object) ==> not_an_object(name@, r->Err_0) && r is Err
            && final(value).view_json() == old(value).view_json(),
        old(value).view_json() is Object && !has_member(old(value).view_json(), "extends"@) ==> ((
        r matches Ok(l) && l@.len() == 0) && final(value).view_json() == old(value).view_json()),
        has_member(old(value).view_json(), "extends"@) ==> final(value).view_json() == JsonV::Object(
            old(value).view_json()->Object_0.remove("extends"@),
        ) && match text_list(old(value).view_json()->Object_0["extends"@]) {
            Some(l) => (r matches Ok(list) && texts(list@) == l),
            None => (r matches Err(ModelError::Parse { source_name, message }) && source_name@
                == name@ && message@ == "invalid extends: "@ + string_list_error(
                old(value).view_json()->Object_0["extends"@],
            )),
        },
{
    let entries = match value {
        Json::Object(entries) => entries,
        _ => {
            return Err(
                ModelError::Parse {
                    source_name: name.to_owned(),
                    message: "document root must be an object".to_owned(),
                },
            );
        },
    };
    proof {
        lemma_entries_view_keys(entries@);
    }
    let i = match find_key(entries, "extends") {
        None => {
            assert(!entries_view(entries@).contains_key("extends"@));
            return Ok(Vec::new());
        },
        Some(i) => i,
    };
    let ghost before = entries@;
    proof {
        lemma_entries_view_value(before, i as int);
        crate::json::lemma_entries_view_remove(before, i as int);
    }
    let (_, extends) = entries.remove(i);
    assert(entries@ == before.remove(i as int));
    assert forall|k: int| 0 <= k < entries@.len() implies (#[trigger] entries@[k]).1.wf() by {
        if k < i {
            assert(entries@[k] == before[k]);
        } else {
            assert(entries@[k] == before[k + 1]);
        }
    }
    match read_string_list(&extends) {
        Ok(list) => Ok(list),
        Err(e) => {
            let mut message = String::new();
            append_str(&mut message, "invalid extends: ");
            append_str(&mut message, e.as_str());
            Err(ModelError::Parse { source_name: name.to_owned(), message })
        },
    }
}

/// Takes the `extends` list out of fragment `fragment` of profile
/// `profile`: only the base profile composes fragments, so a fragment that
/// extends others is an error. The document rules are those of
/// [`take_extends`], under the fragment's name.
pub fn take_fragment_extends(value: &mut Json, profile: &str, fragment: &str) -> (r: Result<(), ModelError>)
    requires
        old(value).wf(),
    ensures
        final(value).wf(),
        !(old(value).view_json() is Object) ==> not_an_object(fragment@, r->Err_0) && r is Err
            && final(value).view_json() == old(value).view_json(),
        old(value).view_json() is Object && !has_member(old(value).view_json(), "extends"@) ==> (r is Ok
            && final(value).view_json() == old(value).view_json()),
        has_member(old(value).view_json(), "extends"@) ==> final(value).view_json() == JsonV::Object(
            old(value).view_json()->Object_0.remove("extends"@),
        ) && match text_list(old(value).view_json()->Object_0["extends"@]) {
            Some(l) => if l.len() == 0 {
                r is Ok
            } else {
                r matches Err(ModelError::NestedExtends { profile: p, fragment: f }) && p@ == profile@
                    && f@ == fragment@
            },
            None => (r matches Err(ModelError::Parse { source_name, message }) && source_name@
                == fragment@ && message@ == "invalid extends: "@ + string_list_error(
                old(value).view_json()->Object_0["extends"@],
            )),
        },
{
    match take_extends(value, fragment) {
        Err(e) => Err(e),
        Ok(nested) => {
            if nested.len() > 0 {
                Err(ModelError::NestedExtends { profile: profile.to_owned(), fragment: fragment.to_owned() })
            } else {
                Ok(())
            }
        },
    }
}

/// An overlay document must be an object without `extends`.
pub fn check_overlay(name: &str, value: &Json) -> (r: Result<(), ModelError>)
    ensures
        !(value.view_json() is Object) ==> not_an_object(name@, r->Err_0) && r is Err,
        value.view_json() is Object && has_member(value.view_json(), "extends"@) ==> (r matches Err(
            ModelError::Validation(m),
        ) && m@ == "overlays cannot contain extends"@),
        value.view_json() is Object && !has_member(value.view_json(), "extends"@) ==> r is Ok,
{
    match value {
        Json::Object(entries) => {
            proof {
                lemma_entries_view_keys(entries@);
            }
            if find_key(entries, "extends").is_some() {
                assert(entries_view(entries@).contains_key("extends"@));
                Err(ModelError::Validation("overlays cannot contain extends".to_owned()))
            } else {
                assert(!entries_view(entries@).contains_key("extends"@));
                Ok(())
            }
        },
        _ => Err(
            ModelError::Parse {
                source_name: name.to_owned(),
                message: "document root must be an object".to_owned(),
            },
        ),
    }
}

/// The layer that enables sensor `sensor`:
/// `{"sensors": {sensor: {"enabled": true}}}`.
pub fn sensor_overlay(sensor: &str) -> (r: Json)
    ensures
        r.wf(),
        r.view_json() == JsonV::Object(
            map![
                "sensors"@ => JsonV::Object(
                    map![sensor@ => JsonV::Object(map!["enabled"@ => JsonV::Bool(true)])],
                ),
            ],
        ),
{
    let e1 = vec![("enabled".to_owned(), Json::Bool(true))];
    let ghost v1 = JsonV::Object(map!["enabled"@ => JsonV::Bool(true)]);
    assert(e1@.len() == 1);
    assert(e1@[0].0@ == "enabled"@);
    assert(e1@[0].1 == Json::Bool(true));
    assert(e1@[0].1.view_json() == JsonV::Bool(true));
    assert(e1@.last() == e1@[0]);
    assert(e1@.drop_last() =~= Seq::<(String, Json)>::empty());
    assert(entries_view(Seq::<(String, Json)>::empty()) == Map::<Seq<char>, JsonV>::empty());
    assert(entries_view(e1@) =~= map!["enabled"@ => JsonV::Bool(true)]);
    assert(e1@[0].1.wf());
    let enabled = Json::Object(e1);
    assert(enabled.view_json() == v1);
    assert(enabled.wf());
    let e2 = vec![(sensor.to_owned(), enabled)];
    let ghost v2 = JsonV::Object(map![sensor@ => v1]);
    assert(e2@.len() == 1);
    assert(e2@.last() == e2@[0]);
    assert(e2@.drop_last() =~= Seq::<(String, Json)>::empty());
    assert(e2@[0].1.wf());
    assert(entries_view(e2@) =~= map![sensor@ => v1]);
    let named = Json::Object(e2);
    assert(named.view_json() == v2);
    assert(named.wf());
    let e3 = vec![("sensors".to_owned(), named)];
    assert(e3@.len() == 1);
    assert(e3@.last() == e3@[0]);
    assert(e3@.drop_last() =~= Seq::<(String, Json)>::empty());
    assert(e3@[0].1.wf());
    assert(entries_view(e3@) =~= map!["sensors"@ => v2]);
    let r = Json::Object(e3);
    r
}

// ------------------------------------------------------------ layering

/// How composing layers fails, over plain values.
pub enum ComposeFailure {
    /// A layer other than a base profile carries `extends`.
    LayerExtends(Seq<char>),
    /// An API layer enables `sensor`, which the document does not declare:
    /// the robot model and the declared sensors are reported.
    UnknownSensor(Seq<char>, Seq<char>, Seq<char>),
    Merge(MergeFailure),
}

pub open spec fn enable_sensor_prefix() -> Seq<char> {
    "api:enable_sensor:"@
}

/// The sensor an `api:enable_sensor:<sensor>` layer enables.
pub open spec fn enabled_sensor(layer: Seq<char>) -> Option<Seq<char>> {
    if spec_starts_with(layer, enable_sensor_prefix()) {
        Some(layer.skip(18))
    } else {
        None
    }
}

/// The robot model a document names, or `unspecified`.
pub open spec fn model_of(doc: JsonV) -> Seq<char> {
    match member(member(doc, "robot"@), "model"@) {
        JsonV::Text(t) => t,
        _ => "unspecified"@,
    }
}

/// The sensors a document declares, in code-point order, joined by
/// `", "`; `none` when there are none.
pub open spec fn available_sensors(doc: JsonV) -> Seq<char> {
    let keys = match member(doc, "sensors"@) {
        JsonV::Object(m) => m.dom(),
        _ => Set::empty(),
    };
    if keys.is_empty() {
        "none"@
    } else {
        join_comma(sorted_texts(keys))
    }
}

/// Merges `layers` in order onto `merged`, extending `prov`.
pub open spec fn spec_compose(merged: JsonV, prov: crate::merge::Prov, layers: Seq<(String, Json)>) -> Result<
    (JsonV, crate::merge::Prov),
    ComposeFailure,
>
    decreases layers.len(),
{
    if layers.len() == 0 {
        Ok((merged, prov))
    } else {
        let name = layers[0].0@;
        let value = layers[0].1;
        if has_member(value.view_json(), "extends"@) {
            Err(ComposeFailure::LayerExtends(name))
        } else if enabled_sensor(name) is Some && !has_member(
            member(merged, "sensors"@),
            enabled_sensor(name)->0,
        ) {
            Err(
                ComposeFailure::UnknownSensor(
                    enabled_sensor(name)->0,
                    model_of(merged),
                    available_sensors(merged),
                ),
            )
        } else {
            match spec_merge_layer(merged, value, name, prov) {
                Err(f) => Err(ComposeFailure::Merge(f)),
                Ok((next, p)) => spec_compose(next, p, layers.drop_first()),
            }
        }
    }
}

/// The library error that reports `f`, for the configuration `profile`.
pub open spec fn reports_compose(e: ModelError, f: ComposeFailure, profile: Seq<char>) -> bool {
    match f {
        ComposeFailure::LayerExtends(name) => e matches ModelError::Validation(m) && m@ == "layer "@
            + debug_repr(name) + " cannot contain extends; only the base profile composes fragments"@,
        ComposeFailure::UnknownSensor(sensor, model, available) => e matches ModelError::UnknownSensor {
            sensor: s,
            model: mo,
            profile: p,
            available: a,
        } && s@ == sensor && mo@ == model && p@ == profile && a@ == available,
        ComposeFailure::Merge(g) => reports(e, g),
    }
}

fn join_keys(keys: &Vec<String>) -> (r: String)
    ensures
        r@ == join_comma(texts(keys@)),
{
    let mut out = String::new();
    let mut i: usize = 0;
    while i < keys.len()
        invariant
            i <= keys@.len(),
            out@ == join_comma(texts(keys@.take(i as int))),
        decreases keys@.len() - i,
    {
        proof {
            assert(texts(keys@.take(i + 1)).drop_last() =~= texts(keys@.take(i as int)));
        }
        if i > 0 {
            append_str(&mut out, ", ");
        }
        append_str(&mut out, keys[i].as_str());
        proof {
            if i == 0 {
                assert(texts(keys@.take(1)).len() == 1);
            }
        }
        i = i + 1;
    }
    proof {
        assert(keys@.take(keys@.len() as int) =~= keys@);
    }
    out
}

fn unknown_sensor(sensor: &str, merged: &Json, profile: &str) -> (r: ModelError)
    requires
        merged.wf(),
    ensures
        r matches ModelError::UnknownSensor { sensor: s, model, profile: p, available } && s@ == sensor@
            && model@ == model_of(merged.view_json()) && p@ == profile@ && available@
            == available_sensors(merged.view_json()),
{
    proof {
        reveal_strlit("none");
        reveal_strlit("unspecified");
    }
    let model = match get_member(merged, "robot") {
        Some(robot) => match get_member(robot, "model") {
            Some(Json::String(t)) => t.clone(),
            _ => "unspecified".to_owned(),
        },
        None => "unspecified".to_owned(),
    };
    let available = match get_member(merged, "sensors") {
        Some(Json::Object(entries)) => {
            let keys = sorted_keys_of(entries);
            if keys.len() == 0 {
                proof {
                    let d = entries_view(entries@).dom();
                    assert(texts(keys@).len() == 0);
                    assert(d =~= Set::empty()) by {
                        assert forall|k: Seq<char>| !d.contains(k) by {
                            if d.contains(k) {
                                assert(texts(keys@).to_set().contains(k));
                            }
                        }
                    }
                }
                "none".to_owned()
            } else {
                proof {
                    let d = entries_view(entries@).dom();
                    assert(texts(keys@).to_set().contains(texts(keys@)[0]));
                    assert(d.contains(texts(keys@)[0]));
                }
                join_keys(&keys)
            }
        },
        _ => {
            proof {
                assert(Set::<Seq<char>>::empty().is_empty());
            }
            "none".to_owned()
        },
    };
    ModelError::UnknownSensor { sensor: sensor.to_owned(), model, profile: profile.to_owned(), available }
}

/// Composes `layers` onto `merged`, in order, extending `provenance`: a
/// layer may not carry `extends`, an `api:enable_sensor:<sensor>` layer
/// needs the sensor declared, and each layer is merged with
/// [`merge_layer`]. On failure `merged` and `provenance` are to be
/// discarded.
pub fn compose_layers(
    profile: &str,
    merged: &mut Json,
    layers: Vec<(String, Json)>,
    provenance: &mut Provenance,
) -> (r: Result<(), ModelError>)
    requires
        old(merged).wf(),
        old(provenance).wf(),
        forall|i: int| 0 <= i < layers@.len() ==> (#[trigger] layers@[i]).1.wf(),
    ensures
        match spec_compose(old(merged).view_json(), old(provenance)@, layers@) {
            Ok((v, p)) => r is Ok && final(merged).view_json() == v && final(provenance)@ == p
                && final(merged).wf() && final(provenance).wf(),
            Err(f) => r matches Err(e) && reports_compose(e, f, profile@),
        },
{
    let ghost all = layers@;
    let mut rest = layers;
    let ghost mut k: int = 0;
    proof {
        reveal_strlit("api:enable_sensor:");
        assert(all.skip(0) =~= all);
    }
    while rest.len() > 0
        invariant
            0 <= k <= all.len(),
            all == layers@,
            rest@ == all.skip(k),
            forall|i: int| 0 <= i < all.len() ==> (#[trigger] all[i]).1.wf(),
            merged.wf(),
            provenance.wf(),
            spec_compose(old(merged).view_json(), old(provenance)@, all) == spec_compose(
                merged.view_json(),
                provenance@,
                rest@,
            ),
        decreases rest@.len(),
    {
        proof {
            reveal_strlit("api:enable_sensor:");
            assert(rest@.drop_first() =~= all.skip(k + 1));
            assert(rest@[0] == all[k]);
        }
        let ghost cur = rest@;
        let (name, value) = rest.remove(0);
        proof {
            assert(cur[0] == (name, value));
            assert(rest@ =~= cur.drop_first());
        }
        if let Json::Object(entries) = &value {
            proof {
                lemma_entries_view_keys(entries@);
            }
            if find_key(entries, "extends").is_some() {
                assert(entries_view(entries@).contains_key("extends"@));
                let mut m = String::new();
                append_str(&mut m, "layer ");
                append_debug(&mut m, name.as_str());
                append_str(&mut m, " cannot contain extends; only the base profile composes fragments");
                return Err(ModelError::Validation(m));
            }
            assert(!entries_view(entries@).contains_key("extends"@));
        }
        assert(!has_member(value.view_json(), "extends"@));
        let nc = chars_of(name.as_str());
        if starts_with(nc.as_slice(), "api:enable_sensor:") {
            let sensor = string_of(slice_chars(nc.as_slice(), 18, nc.len()).as_slice());
            proof {
                assert(sensor@ == name@.skip(18));
            }
            let declared = match get_member(merged, "sensors") {
                Some(Json::Object(entries)) => {
                    proof {
                        lemma_entries_view_keys(entries@);
                    }
                    let found = find_key(entries, sensor.as_str()).is_some();
                    assert(found == entries_view(entries@).contains_key(sensor@));
                    found
                },
                _ => false,
            };
            assert(declared == has_member(member(merged.view_json(), "sensors"@), sensor@));
            assert(enabled_sensor(name@) == Some(sensor@));
            if !declared {
                return Err(unknown_sensor(sensor.as_str(), merged, profile));
            }
        } else {
            assert(enabled_sensor(name@) is None);
        }
        match merge_layer(merged, value, name.as_str(), provenance) {
            Ok(()) => {},
            Err(e) => {
                return Err(e);
            },
        }
        proof {
            k = k + 1;
        }
    }
    proof {
        assert(rest@ =~= Seq::<(String, Json)>::empty());
    }
    Ok(())
}

/// The merged document declares the schema version this build reads.
pub fn check_schema_version(merged: &Json) -> (r: Result<(), ModelError>)
    requires
        merged.wf(),
    ensures
        !has_member(merged.view_json(), "schema_version"@) ==> (r matches Err(
            ModelError::Validation(m),
        ) && m@ == "schema_version is required"@),
        has_member(merged.view_json(), "schema_version"@) ==> match crate::checks::spec_as_u64(
            member(merged.view_json(), "schema_version"@),
        ) {
            Some(n) if n == 1 => r is Ok,
            _ => (r matches Err(ModelError::UnsupportedSchemaVersion { found, expected }) && found@
                == json_text(member(merged.view_json(), "schema_version"@)) && expected == 1),
        },
{
    match get_member(merged, "schema_version") {
        None => {
            proof {
                assert(!has_member(merged.view_json(), "schema_version"@));
            }
            Err(ModelError::Validation("schema_version is required".to_owned()))
        },
        Some(v) => {
            let ok = match crate::checks::as_u64(v) {
                Some(n) => n == 1,
                None => false,
            };
            if ok {
                Ok(())
            } else {
                Err(
                    ModelError::UnsupportedSchemaVersion {
                        found: json_display(v),
                        expected: crate::types::SOURCE_SCHEMA_VERSION,
                    },
                )
            }
        },
    }
}

/// Discovery applies to a static configuration only, and never composes
/// fragments.
pub fn check_discovery(stage: ResolutionStage, overlay: &Json) -> (r: Result<(), ModelError>)
    ensures
        stage != ResolutionStage::Static ==> (r matches Err(ModelError::Validation(m)) && m@
            == "discovery overlay requires a static resolved configuration"@),
        stage == ResolutionStage::Static && has_member(overlay.view_json(), "extends"@) ==> (r matches Err(
            ModelError::Validation(m),
        ) && m@ == "discovery cannot contain extends; only the base profile composes fragments"@),
        stage == ResolutionStage::Static && !has_member(overlay.view_json(), "extends"@) ==> r is Ok,
{
    if stage != ResolutionStage::Static {
        return Err(
            ModelError::Validation(
                "discovery overlay requires a static resolved configuration".to_owned(),
            ),
        );
    }
    if let Json::Object(entries) = overlay {
        proof {
            lemma_entries_view_keys(entries@);
        }
        if find_key(entries, "extends").is_some() {
            assert(entries_view(entries@).contains_key("extends"@));
            return Err(
                ModelError::Validation(
                    "discovery cannot contain extends; only the base profile composes fragments".to_owned(),
                ),
            );
        }
        assert(!entries_view(entries@).contains_key("extends"@));
    }
    Ok(())
}

/// User overlays apply to a static configuration only: they precede
/// discovery.
pub fn check_user_overlay(stage: ResolutionStage) -> (r: Result<(), ModelError>)
    ensures
        stage == ResolutionStage::Static ==> r is Ok,
        stage != ResolutionStage::Static ==> (r matches Err(ModelError::Validation(m)) && m@
            == "user overlays require a static resolved configuration; apply them before discovery"@),
{
    if stage != ResolutionStage::Static {
        return Err(
            ModelError::Validation(
                "user overlays require a static resolved configuration; apply them before discovery".to_owned(),
            ),
        );
    }
    Ok(())
}

} // verus!
