//! A JSON document model: the value tree that profile layers are parsed into
//! and merged on.
use crate::text::str_eq;
use vstd::prelude::*;

verus! {

/// A JSON value. Numbers keep their canonical decimal text; an object is a
/// list of `(key, value)` entries with distinct keys.
#[derive(Debug)]
pub enum Json {
    Null,
    Bool(bool),
    Number(String),
    String(String),
    Array(Vec<Json>),
    Object(Vec<(String, Json)>),
}

/// The mathematical value of a [`Json`]: objects are maps from key text to
/// values, so entry order carries no meaning.
pub enum JsonV {
    Null,
    Bool(bool),
    Number(Seq<char>),
    Text(Seq<char>),
    Array(Seq<JsonV>),
    Object(Map<Seq<char>, JsonV>),
}

/// The values of a list of elements.
pub open spec fn items_view(s: Seq<Json>) -> Seq<JsonV>
    decreases s, 0nat,
{
    if s.len() == 0 {
        Seq::empty()
    } else {
        items_view(s.drop_last()).push(s.last().view_json())
    }
}

/// The map that a list of object entries denotes (a later entry wins).
pub open spec fn entries_view(s: Seq<(String, Json)>) -> Map<Seq<char>, JsonV>
    decreases s, 0nat,
{
    if s.len() == 0 {
        Map::empty()
    } else {
        entries_view(s.drop_last()).insert(s.last().0@, s.last().1.view_json())
    }
}

/// Distinct keys.
pub open spec fn unique_keys<T>(s: Seq<(String, T)>) -> bool {
    forall|i: int, j: int| 0 <= i < j < s.len() ==> #[trigger] s[i].0@ != #[trigger] s[j].0@
}

/// Whether some entry is keyed `k`.
pub open spec fn has_key<T>(s: Seq<(String, T)>, k: Seq<char>) -> bool {
    exists|i: int| 0 <= i < s.len() && #[trigger] s[i].0@ == k
}

impl Json {
    pub open spec fn view_json(&self) -> JsonV
        decreases self, 1nat,
    {
        match self {
            Json::Null => JsonV::Null,
            Json::Bool(b) => JsonV::Bool(*b),
            Json::Number(n) => JsonV::Number(n@),
            Json::String(s) => JsonV::Text(s@),
            Json::Array(items) => JsonV::Array(items_view(items@)),
            Json::Object(es) => JsonV::Object(entries_view(es@)),
        }
    }

    /// Every object in the tree holds its members in code-point order of
    /// their keys, as a `serde_json::Map` (a `BTreeMap` in this build)
    /// iterates them.
    pub open spec fn members_in_key_order(&self) -> bool
        decreases self,
    {
        match self {
            Json::Array(items) => forall|i: int|
                0 <= i < items@.len() ==> (#[trigger] items@[i]).members_in_key_order(),
            Json::Object(es) => crate::compose::strictly_sorted(es@.map_values(|e: (String, Json)| e.0@))
                && forall|i: int| 0 <= i < es@.len() ==> (#[trigger] es@[i]).1.members_in_key_order(),
            _ => true,
        }
    }

    /// Every object in the tree has distinct keys.
    pub open spec fn wf(&self) -> bool
        decreases self,
    {
        match self {
            Json::Array(items) => forall|i: int|
                0 <= i < items@.len() ==> (#[trigger] items@[i]).wf(),
            Json::Object(es) => unique_keys(es@) && forall|i: int|
                0 <= i < es@.len() ==> (#[trigger] es@[i]).1.wf(),
            _ => true,
        }
    }
}

pub broadcast proof fn lemma_items_view(s: Seq<Json>)
    ensures
        #[trigger] items_view(s).len() == s.len(),
        forall|i: int| 0 <= i < s.len() ==> #[trigger] items_view(s)[i] == s[i].view_json(),
    decreases s.len(),
{
    if s.len() > 0 {
        lemma_items_view(s.drop_last());
    }
}

pub proof fn lemma_entries_view_keys(s: Seq<(String, Json)>)
    ensures
        forall|k: Seq<char>| #[trigger] entries_view(s).contains_key(k) <==> has_key(s, k),
    decreases s.len(),
{
    if s.len() > 0 {
        lemma_entries_view_keys(s.drop_last());
        assert forall|k: Seq<char>| #[trigger] entries_view(s).contains_key(k) <==> has_key(s, k) by {
            if has_key(s, k) {
                let i = choose|i: int| 0 <= i < s.len() && #[trigger] s[i].0@ == k;
                if i < s.len() - 1 {
                    assert(s.drop_last()[i].0@ == k);
                }
            }
            if entries_view(s.drop_last()).contains_key(k) {
                let i = choose|i: int| 0 <= i < s.len() - 1 && #[trigger] s.drop_last()[i].0@ == k;
                assert(s[i].0@ == k);
            }
            if k == s.last().0@ {
                assert(s[s.len() - 1].0@ == k);
            }
        }
    } else {
        assert forall|k: Seq<char>| #[trigger] entries_view(s).contains_key(k) <==> has_key(s, k) by {}
    }
}

pub proof fn lemma_entries_view_value(s: Seq<(String, Json)>, i: int)
    requires
        unique_keys(s),
        0 <= i < s.len(),
    ensures
        entries_view(s).contains_key(s[i].0@),
        entries_view(s)[s[i].0@] == s[i].1.view_json(),
    decreases s.len(),
{
    if i < s.len() - 1 {
        lemma_entries_view_value(s.drop_last(), i);
        assert(s[i].0@ != s[s.len() - 1].0@);
    }
}

pub proof fn lemma_entries_view_remove(s: Seq<(String, Json)>, i: int)
    requires
        unique_keys(s),
        0 <= i < s.len(),
    ensures
        entries_view(s.remove(i)) == entries_view(s).remove(s[i].0@),
        unique_keys(s.remove(i)),
    decreases s.len(),
{
    let r = s.remove(i);
    if i == s.len() - 1 {
        assert(r =~= s.drop_last());
        lemma_entries_view_keys(s.drop_last());
        if entries_view(s.drop_last()).contains_key(s[i].0@) {
            let j = choose|j: int|
                0 <= j < s.drop_last().len() && #[trigger] s.drop_last()[j].0@ == s[i].0@;
            assert(s[j].0@ == s[i].0@);
        }
        assert(entries_view(r) =~= entries_view(s).remove(s[i].0@));
    } else {
        lemma_entries_view_remove(s.drop_last(), i);
        assert(r.drop_last() =~= s.drop_last().remove(i));
        assert(r.last() == s.last());
        assert(s[i].0@ != s.last().0@);
        assert(entries_view(r) =~= entries_view(s).remove(s[i].0@));
    }
    assert(unique_keys(r)) by {
        assert forall|a: int, b: int| 0 <= a < b < r.len() implies #[trigger] r[a].0@
            != #[trigger] r[b].0@ by {
            let a2 = if a < i {
                a
            } else {
                a + 1
            };
            let b2 = if b < i {
                b
            } else {
                b + 1
            };
            assert(r[a] == s[a2]);
            assert(r[b] == s[b2]);
        }
    }
}

pub proof fn lemma_entries_push(s: Seq<(String, Json)>, k: String, v: Json)
    requires
        unique_keys(s),
        !has_key(s, k@),
    ensures
        unique_keys(s.push((k, v))),
        entries_view(s.push((k, v))) == entries_view(s).insert(k@, v.view_json()),
{
    let t = s.push((k, v));
    assert(t.drop_last() =~= s);
    assert forall|a: int, b: int| 0 <= a < b < t.len() implies #[trigger] t[a].0@
        != #[trigger] t[b].0@ by {
        if b == t.len() - 1 {
            assert(s[a].0@ == t[a].0@);
        }
    }
}

/// Position of the entry keyed `key`.
pub fn find_key<T>(entries: &Vec<(String, T)>, key: &str) -> (r: Option<usize>)
    ensures
        match r {
            Some(i) => i < entries@.len() && entries@[i as int].0@ == key@,
            None => !has_key(entries@, key@),
        },
{
    let mut i: usize = 0;
    while i < entries.len()
        invariant
            i <= entries@.len(),
            forall|j: int| 0 <= j < i ==> entries@[j].0@ != key@,
        decreases entries@.len() - i,
    {
        if str_eq(entries[i].0.as_str(), key) {
            return Some(i);
        }
        i = i + 1;
    }
    None
}

/// A fresh string with the same text.
pub fn copy_string(s: &String) -> (r: String)
    ensures
        r@ == s@,
{
    s.as_str().to_owned()
}

/// A deep copy of a JSON value.
#[verifier::loop_isolation(false)]
pub fn copy_json(j: &Json) -> (r: Json)
    requires
        j.wf(),
    ensures
        r.view_json() == j.view_json(),
        r.wf(),
    decreases j,
{
    match j {
        Json::Null => Json::Null,
        Json::Bool(b) => Json::Bool(*b),
        Json::Number(n) => Json::Number(copy_string(n)),
        Json::String(s) => Json::String(copy_string(s)),
        Json::Array(items) => {
            let mut out: Vec<Json> = Vec::new();
            let mut i: usize = 0;
            while i < items.len()
                invariant
                    i <= items@.len(),
                    out@.len() == i,
                    forall|k: int| 0 <= k < items@.len() ==> (#[trigger] items@[k]).wf(),
                    forall|k: int|
                        0 <= k < i ==> (#[trigger] out@[k]).view_json() == items@[k].view_json()
                            && out@[k].wf(),
                decreases items@.len() - i,
            {
                assert(decreases_to!(j => items@[i as int]));
                let c = copy_json(&items[i]);
                out.push(c);
                i = i + 1;
            }
            proof {
                lemma_items_view(out@);
                lemma_items_view(items@);
                assert(items_view(out@) =~= items_view(items@));
            }
            Json::Array(out)
        },
        Json::Object(es) => {
            let mut out: Vec<(String, Json)> = Vec::new();
            let mut i: usize = 0;
            while i < es.len()
                invariant
                    i <= es@.len(),
                    out@.len() == i,
                    unique_keys(es@),
                    forall|k: int| 0 <= k < es@.len() ==> (#[trigger] es@[k]).1.wf(),
                    forall|k: int|
                        0 <= k < i ==> (#[trigger] out@[k]).0@ == es@[k].0@
                            && out@[k].1.view_json() == es@[k].1.view_json() && out@[k].1.wf(),
                decreases es@.len() - i,
            {
                assert(decreases_to!(j => es@[i as int].1));
                let k = copy_string(&es[i].0);
                let v = copy_json(&es[i].1);
                out.push((k, v));
                i = i + 1;
            }
            proof {
                assert(unique_keys(out@)) by {
                    assert forall|a: int, b: int| 0 <= a < b < out@.len() implies #[trigger] out@[a].0@
                        != #[trigger] out@[b].0@ by {
                        assert(es@[a].0@ != es@[b].0@);
                    }
                }
                lemma_same_entries_view(out@, es@);
            }
            Json::Object(out)
        },
    }
}

/// Two entry lists with the same keys and values, position by position,
/// denote the same map.
pub proof fn lemma_same_entries_view(a: Seq<(String, Json)>, b: Seq<(String, Json)>)
    requires
        a.len() == b.len(),
        forall|k: int|
            0 <= k < a.len() ==> (#[trigger] a[k]).0@ == b[k].0@ && a[k].1.view_json()
                == b[k].1.view_json(),
    ensures
        entries_view(a) == entries_view(b),
    decreases a.len(),
{
    if a.len() > 0 {
        lemma_same_entries_view(a.drop_last(), b.drop_last());
        assert(a.last() == a[a.len() - 1]);
    }
}

/// The text `serde_json` writes for a floating-point zero, `0.0` or `-0.0`.
pub open spec fn zero_text(t: Seq<char>) -> bool {
    t == "0.0"@ || t == "-0.0"@
}

/// Two numbers, by their text, are the same number as `serde_json` compares
/// them: the same text, or the two zeros (`0.0 == -0.0` as floats).
pub open spec fn same_number(x: Seq<char>, y: Seq<char>) -> bool {
    x == y || (zero_text(x) && zero_text(y))
}

/// Two values are equal as `serde_json::Value`s compare them: structurally,
/// numbers by [`same_number`], objects by their members whatever their
/// order.
pub open spec fn json_same(a: JsonV, b: JsonV) -> bool
    decreases a,
{
    match (a, b) {
        (JsonV::Number(x), JsonV::Number(y)) => same_number(x, y),
        (JsonV::Array(x), JsonV::Array(y)) => x.len() == y.len() && forall|i: int|
            0 <= i < x.len() ==> json_same(#[trigger] x[i], y[i]),
        (JsonV::Object(x), JsonV::Object(y)) => x.dom() == y.dom() && forall|k: Seq<char>|
            #[trigger] x.contains_key(k) ==> json_same(x[k], y[k]),
        _ => a == b,
    }
}

/// Every value is the same as itself.
pub proof fn lemma_json_same_reflexive(a: JsonV)
    ensures
        json_same(a, a),
    decreases a,
{
    match a {
        JsonV::Array(x) => {
            assert forall|i: int| 0 <= i < x.len() implies json_same(#[trigger] x[i], x[i]) by {
                lemma_json_same_reflexive(x[i]);
            }
        },
        JsonV::Object(x) => {
            assert forall|k: Seq<char>| #[trigger] x.contains_key(k) implies json_same(x[k], x[k]) by {
                lemma_json_same_reflexive(x[k]);
            }
        },
        _ => {},
    }
}

fn is_zero_text(t: &String) -> (r: bool)
    ensures
        r == zero_text(t@),
{
    str_eq(t.as_str(), "0.0") || str_eq(t.as_str(), "-0.0")
}

/// Whether two values are equal as JSON: see [`json_same`].
#[verifier::loop_isolation(false)]
pub fn json_eq(a: &Json, b: &Json) -> (r: bool)
    requires
        a.wf(),
        b.wf(),
    ensures
        r == json_same(a.view_json(), b.view_json()),
    decreases a,
{
    match (a, b) {
        (Json::Null, Json::Null) => true,
        (Json::Bool(x), Json::Bool(y)) => *x == *y,
        (Json::Number(x), Json::Number(y)) => str_eq(x.as_str(), y.as_str()) || (is_zero_text(x)
            && is_zero_text(y)),
        (Json::String(x), Json::String(y)) => str_eq(x.as_str(), y.as_str()),
        (Json::Array(x), Json::Array(y)) => {
            proof {
                lemma_items_view(x@);
                lemma_items_view(y@);
            }
            if x.len() != y.len() {
                return false;
            }
            let mut i: usize = 0;
            while i < x.len()
                invariant
                    x@.len() == y@.len(),
                    i <= x@.len(),
                    forall|k: int| 0 <= k < x@.len() ==> (#[trigger] x@[k]).wf(),
                    forall|k: int| 0 <= k < y@.len() ==> (#[trigger] y@[k]).wf(),
                    forall|k: int| 0 <= k < i ==> json_same((#[trigger] x@[k]).view_json(), y@[k].view_json()),
                decreases x@.len() - i,
            {
                assert(decreases_to!(a => x@[i as int]));
                if !json_eq(&x[i], &y[i]) {
                    assert(!json_same(items_view(x@)[i as int], items_view(y@)[i as int]));
                    return false;
                }
                i = i + 1;
            }
            assert forall|k: int| 0 <= k < items_view(x@).len() implies json_same(
                #[trigger] items_view(x@)[k],
                items_view(y@)[k],
            ) by {
                assert(json_same(x@[k].view_json(), y@[k].view_json()));
            }
            true
        },
        (Json::Object(x), Json::Object(y)) => {
            proof {
                lemma_entries_view_keys(x@);
                lemma_entries_view_keys(y@);
            }
            let mut i: usize = 0;
            while i < x.len()
                invariant
                    i <= x@.len(),
                    unique_keys(x@),
                    unique_keys(y@),
                    forall|k: int| 0 <= k < x@.len() ==> (#[trigger] x@[k]).1.wf(),
                    forall|k: int| 0 <= k < y@.len() ==> (#[trigger] y@[k]).1.wf(),
                    forall|k: int|
                        0 <= k < i ==> entries_view(y@).contains_key(#[trigger] x@[k].0@) && json_same(
                            x@[k].1.view_json(),
                            entries_view(y@)[x@[k].0@],
                        ),
                decreases x@.len() - i,
            {
                proof {
                    lemma_entries_view_value(x@, i as int);
                }
                match find_key(y, x[i].0.as_str()) {
                    None => {
                        assert(!entries_view(y@).contains_key(x@[i as int].0@));
                        return false;
                    },
                    Some(j) => {
                        proof {
                            lemma_entries_view_value(y@, j as int);
                        }
                        assert(decreases_to!(a => x@[i as int].1));
                        if !json_eq(&x[i].1, &y[j].1) {
                            return false;
                        }
                    },
                }
                i = i + 1;
            }
            let mut j: usize = 0;
            while j < y.len()
                invariant
                    j <= y@.len(),
                    unique_keys(x@),
                    unique_keys(y@),
                    forall|k: int| 0 <= k < j ==> entries_view(x@).contains_key(#[trigger] y@[k].0@),
                decreases y@.len() - j,
            {
                match find_key(x, y[j].0.as_str()) {
                    None => {
                        assert(!entries_view(x@).contains_key(y@[j as int].0@));
                        proof {
                            lemma_entries_view_value(y@, j as int);
                        }
                        return false;
                    },
                    Some(_) => {},
                }
                j = j + 1;
            }
            proof {
                assert forall|k: Seq<char>| #[trigger] entries_view(x@).contains_key(k) implies entries_view(
                    y@,
                ).contains_key(k) && json_same(entries_view(x@)[k], entries_view(y@)[k]) by {
                    let i = choose|i: int| 0 <= i < x@.len() && #[trigger] x@[i].0@ == k;
                    lemma_entries_view_value(x@, i);
                }
                assert forall|k: Seq<char>| #[trigger] entries_view(y@).contains_key(k) implies entries_view(
                    x@,
                ).contains_key(k) by {
                    let i = choose|i: int| 0 <= i < y@.len() && #[trigger] y@[i].0@ == k;
                }
                assert(entries_view(x@).dom() =~= entries_view(y@).dom());
            }
            true
        },
        _ => false,
    }
}

/// The compact JSON text of a value, as `serde_json` writes it (object
/// members in key order).
pub uninterp spec fn json_text(v: JsonV) -> Seq<char>;

/// A JSON value as `serde_json` holds it.
#[verifier::external_type_specification]
#[verifier::external_body]
pub struct ExJsonValue(serde_json::Value);

/// `v` as a `serde_json::Value`, node for node; a number is read back from
/// its text as a `serde_json::Number` (text that is no number becomes null).
#[verifier::external_body]
pub(crate) fn to_serde(v: &Json) -> serde_json::Value {
    match v {
        Json::Null => serde_json::Value::Null,
        Json::Bool(b) => serde_json::Value::Bool(*b),
        Json::Number(t) => t.parse::<serde_json::Number>().map(serde_json::Value::Number).unwrap_or(
            serde_json::Value::Null,
        ),
        Json::String(s) => serde_json::Value::String(s.clone()),
        Json::Array(items) => serde_json::Value::Array(items.iter().map(to_serde).collect()),
        Json::Object(entries) => serde_json::Value::Object(
            entries.iter().map(|(k, x)| (k.clone(), to_serde(x))).collect(),
        ),
    }
}

/// `v` as a [`Json`], node for node; a number by its `Display` text, an
/// object by its members in the map's order.
#[verifier::external_body]
pub(crate) fn from_serde(v: &serde_json::Value) -> Json {
    match v {
        serde_json::Value::Null => Json::Null,
        serde_json::Value::Bool(b) => Json::Bool(*b),
        serde_json::Value::Number(n) => Json::Number(n.to_string()),
        serde_json::Value::String(s) => Json::String(s.clone()),
        serde_json::Value::Array(items) => Json::Array(items.iter().map(from_serde).collect()),
        serde_json::Value::Object(members) => Json::Object(
            members.iter().map(|(k, x)| (k.clone(), from_serde(x))).collect(),
        ),
    }
}

/// The compact JSON text of `v` (the `Display` of `serde_json::Value`),
/// which depends on the value alone.
#[verifier::external_body]
pub(crate) fn json_display(v: &Json) -> (r: String)
    ensures
        r@ == json_text(v.view_json()),
{
    to_serde(v).to_string()
}

} // verus!
