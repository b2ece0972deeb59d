//! Layered deep merge of profile documents.
//!
//! Objects merge key by key; every other value (arrays included) replaces
//! wholesale. `{"$delete": true}` is the only deletion directive. Layers
//! named `discovery:<source>` may add facts but never silently override a
//! value recorded by a user layer (`overlay:` or `api:`).
use crate::error::ModelError;
use crate::json::{
    copy_json, copy_string, entries_view, find_key, has_key, json_eq, json_same, lemma_entries_push,
    lemma_entries_view_keys, lemma_entries_view_remove, lemma_entries_view_value, lemma_items_view, items_view,
    unique_keys, Json, JsonV,
};
use crate::provenance::{
    is_user_layer, spec_first_user_below, spec_user_provenance, user_below, user_provenance,
    Provenance,
};
use crate::text::{append_str, chars_of, push_decimal, spec_decimal, spec_starts_with, starts_with};
use vstd::prelude::*;

verus! {

/// How a merge fails, over plain values.
pub enum MergeFailure {
    InvalidDeletion(Seq<char>),
    MalformedDeletion(Seq<char>),
    Conflict(Seq<char>, Seq<char>, Seq<char>),
}

/// The library error that reports `f`.
pub open spec fn reports(e: ModelError, f: MergeFailure) -> bool {
    match (e, f) {
        (ModelError::InvalidDeletion(p), MergeFailure::InvalidDeletion(q)) => p@ == q,
        (ModelError::MalformedDeletion(p), MergeFailure::MalformedDeletion(q)) => p@ == q,
        (
            ModelError::DiscoveryConflict { path, existing, incoming },
            MergeFailure::Conflict(p, x, i),
        ) => path@ == p && existing@ == x && incoming@ == i,
        _ => false,
    }
}

pub type Prov = Map<Seq<char>, Seq<char>>;

pub open spec fn delete_key() -> Seq<char> {
    "$delete"@
}

/// The exact deletion directive `{"$delete": true}`.
pub open spec fn spec_is_deletion(v: Json) -> bool {
    match v {
        Json::Object(es) => es@.len() == 1 && es@[0].0@ == delete_key() && (es@[0].1 matches Json::Bool(
            b,
        ) && b),
        _ => false,
    }
}

/// Any other object mentioning `$delete`.
pub open spec fn spec_is_malformed(v: Json) -> bool {
    match v {
        Json::Object(es) => has_key(es@, delete_key()) && !spec_is_deletion(v),
        _ => false,
    }
}

/// The dotted path of `key` under `path`.
pub open spec fn child_path(path: Seq<char>, key: Seq<char>) -> Seq<char> {
    if path.len() == 0 {
        key
    } else {
        path + "."@ + key
    }
}

/// The path of array element `i` under `path`.
pub open spec fn index_path(path: Seq<char>, i: nat) -> Seq<char> {
    path + "["@ + spec_decimal(i) + "]"@
}

pub open spec fn deleted_layer(layer: Seq<char>) -> Seq<char> {
    layer + " (deleted)"@
}

pub open spec fn is_discovery_layer(layer: Seq<char>) -> bool {
    spec_starts_with(layer, "discovery:"@)
}

/// Both slots are empty, or both hold values equal as JSON ([`json_same`]).
pub open spec fn opt_same(a: Option<JsonV>, b: Option<JsonV>) -> bool {
    match (a, b) {
        (None, None) => true,
        (Some(x), Some(y)) => json_same(x, y),
        _ => false,
    }
}

/// The discovery-conflict rule for a slot a layer is about to change:
/// `Ok(true)` when the write is skipped because a discovery layer restates
/// the user-set state (a value equal as JSON, see [`opt_same`]), an error
/// when it would change it, `Ok(false)` otherwise.
pub open spec fn spec_check_conflict(
    existing: Option<JsonV>,
    incoming: Option<JsonV>,
    path: Seq<char>,
    layer: Seq<char>,
    prov: Prov,
) -> Result<bool, MergeFailure> {
    if !is_discovery_layer(layer) {
        Ok(false)
    } else {
        match spec_user_provenance(prov, path) {
            None => Ok(false),
            Some((user_path, user_layer)) => if opt_same(existing, incoming) {
                Ok(true)
            } else {
                Err(MergeFailure::Conflict(user_path, user_layer, layer))
            },
        }
    }
}

/// The first deletion directive inside `v` (which sits at `path`), if any.
pub open spec fn spec_reject(v: Json, path: Seq<char>) -> Option<Seq<char>>
    decreases v, 1nat,
{
    match v {
        Json::Object(es) => if has_key(es@, delete_key()) {
            Some(path)
        } else {
            spec_reject_entries(es@, path)
        },
        Json::Array(items) => spec_reject_items(items@, path, 0),
        _ => None,
    }
}

pub open spec fn spec_reject_entries(es: Seq<(String, Json)>, path: Seq<char>) -> Option<Seq<char>>
    decreases es, 0nat,
{
    if es.len() == 0 {
        None
    } else {
        match spec_reject(es[0].1, path + "."@ + es[0].0@) {
            Some(p) => Some(p),
            None => spec_reject_entries(es.drop_first(), path),
        }
    }
}

pub open spec fn spec_reject_items(items: Seq<Json>, path: Seq<char>, start: nat) -> Option<
    Seq<char>,
>
    decreases items, 0nat,
{
    if items.len() == 0 {
        None
    } else {
        match spec_reject(items[0], index_path(path, start)) {
            Some(p) => Some(p),
            None => spec_reject_items(items.drop_first(), path, start + 1),
        }
    }
}

/// Merges overlay value `overlay` onto `base` at `path`.
pub open spec fn spec_merge_value(
    base: JsonV,
    overlay: Json,
    path: Seq<char>,
    layer: Seq<char>,
    prov: Prov,
) -> Result<(JsonV, Prov), MergeFailure>
    decreases overlay, 1nat,
{
    if spec_is_deletion(overlay) {
        Err(MergeFailure::InvalidDeletion(path))
    } else if spec_is_malformed(overlay) {
        Err(MergeFailure::MalformedDeletion(path))
    } else {
        match (base, overlay) {
            (JsonV::Object(bm), Json::Object(oe)) => match spec_merge_entries(
                bm,
                oe@,
                path,
                layer,
                prov,
            ) {
                Ok((m, p)) => Ok((JsonV::Object(m), p)),
                Err(f) => Err(f),
            },
            _ => match spec_check_conflict(Some(base), Some(overlay.view_json()), path, layer, prov) {
                Err(f) => Err(f),
                Ok(true) => Ok((base, prov)),
                Ok(false) => spec_materialize(overlay, path, layer, prov),
            },
        }
    }
}

/// Merges one overlay entry `(key, value)` onto the object `bm` at `path`.
pub open spec fn spec_merge_entry(
    bm: Map<Seq<char>, JsonV>,
    key: Seq<char>,
    value: Json,
    path: Seq<char>,
    layer: Seq<char>,
    prov: Prov,
) -> Result<(Map<Seq<char>, JsonV>, Prov), MergeFailure>
    decreases value, 2nat,
{
    let child = child_path(path, key);
    if spec_is_malformed(value) {
        Err(MergeFailure::MalformedDeletion(child))
    } else if spec_is_deletion(value) {
        let existing = if bm.contains_key(key) {
            Some(bm[key])
        } else {
            None
        };
        match spec_check_conflict(existing, None, child, layer, prov) {
            Err(f) => Err(f),
            Ok(true) => Ok((bm, prov)),
            Ok(false) => Ok((bm.remove(key), prov.insert(child, deleted_layer(layer)))),
        }
    } else if bm.contains_key(key) {
        match spec_merge_value(bm[key], value, child, layer, prov) {
            Ok((v, p)) => Ok((bm.insert(key, v), p)),
            Err(f) => Err(f),
        }
    } else {
        match spec_check_conflict(None, Some(value.view_json()), child, layer, prov) {
            Err(f) => Err(f),
            Ok(_) => match spec_materialize(value, child, layer, prov) {
                Ok((v, p)) => Ok((bm.insert(key, v), p)),
                Err(f) => Err(f),
            },
        }
    }
}

/// Merges the overlay entries `oe`, in order, onto the object `bm`.
pub open spec fn spec_merge_entries(
    bm: Map<Seq<char>, JsonV>,
    oe: Seq<(String, Json)>,
    path: Seq<char>,
    layer: Seq<char>,
    prov: Prov,
) -> Result<(Map<Seq<char>, JsonV>, Prov), MergeFailure>
    decreases oe, 3nat,
{
    if oe.len() == 0 {
        Ok((bm, prov))
    } else {
        match spec_merge_entry(bm, oe[0].0@, oe[0].1, path, layer, prov) {
            Ok((m, p)) => spec_merge_entries(m, oe.drop_first(), path, layer, p),
            Err(f) => Err(f),
        }
    }
}

/// The stored form of a fresh overlay value: deletion directives inside
/// objects are consumed, those inside arrays rejected; provenance records
/// every stored leaf (and every empty object).
pub open spec fn spec_materialize(value: Json, path: Seq<char>, layer: Seq<char>, prov: Prov) -> Result<
    (JsonV, Prov),
    MergeFailure,
>
    decreases value, 0nat,
{
    match value {
        Json::Object(es) => match spec_merge_entries(Map::empty(), es@, path, layer, prov) {
            Ok((m, p)) => Ok(
                (
                    JsonV::Object(m),
                    if m == Map::<Seq<char>, JsonV>::empty() {
                        p.insert(path, layer)
                    } else {
                        p
                    },
                ),
            ),
            Err(f) => Err(f),
        },
        Json::Array(items) => match spec_reject_items(items@, path, 0) {
            Some(p) => Err(MergeFailure::MalformedDeletion(p)),
            None => Ok((value.view_json(), prov.insert(path, layer))),
        },
        _ => Ok((value.view_json(), prov.insert(path, layer))),
    }
}

/// The outcome of merging layer `overlay` onto document `base`.
pub open spec fn spec_merge_layer(base: JsonV, overlay: Json, layer: Seq<char>, prov: Prov) -> Result<
    (JsonV, Prov),
    MergeFailure,
> {
    spec_merge_value(base, overlay, Seq::empty(), layer, prov)
}

/// True only for the exact deletion directive `{"$delete": true}`.
pub fn is_deletion(v: &Json) -> (r: bool)
    ensures
        r == spec_is_deletion(*v),
{
    proof {
        reveal_strlit("$delete");
    }
    match v {
        Json::Object(es) => {
            if es.len() != 1 {
                return false;
            }
            if !crate::text::str_eq(es[0].0.as_str(), "$delete") {
                return false;
            }
            match &es[0].1 {
                Json::Bool(b) => *b,
                _ => false,
            }
        },
        _ => false,
    }
}

/// Any other object shape mentioning `$delete` is a malformed directive.
pub fn is_malformed(v: &Json) -> (r: bool)
    ensures
        r == spec_is_malformed(*v),
{
    match v {
        Json::Object(es) => find_key(es, "$delete").is_some() && !is_deletion(v),
        _ => false,
    }
}

fn child_of(path: &str, key: &str) -> (r: String)
    ensures
        r@ == child_path(path@, key@),
{
    let p = chars_of(path);
    let mut r = path.to_owned();
    if p.len() != 0 {
        append_str(&mut r, ".");
    }
    append_str(&mut r, key);
    r
}

fn index_of(path: &str, i: usize) -> (r: String)
    ensures
        r@ == index_path(path@, i as nat),
{
    let mut r = path.to_owned();
    append_str(&mut r, "[");
    push_decimal(&mut r, i as u64);
    append_str(&mut r, "]");
    r
}

fn is_discovery(layer: &str) -> (r: bool)
    ensures
        r == is_discovery_layer(layer@),
{
    let l = chars_of(layer);
    starts_with(l.as_slice(), "discovery:")
}

pub open spec fn opt_view(j: Option<&Json>) -> Option<JsonV> {
    match j {
        Some(v) => Some(v.view_json()),
        None => None,
    }
}

/// Enforces the discovery-conflict rule for a slot a layer is about to
/// change (`None` meaning absent: a deletion or a fresh insert).
fn check_conflict(
    existing: Option<&Json>,
    incoming: Option<&Json>,
    path: &str,
    layer: &str,
    prov: &Provenance,
) -> (r: Result<bool, ModelError>)
    requires
        prov.wf(),
        existing matches Some(e) ==> e.wf(),
        incoming matches Some(i) ==> i.wf(),
    ensures
        match spec_check_conflict(opt_view(existing), opt_view(incoming), path@, layer@, prov@) {
            Ok(b) => r == Ok::<bool, ModelError>(b),
            Err(f) => r matches Err(e) && reports(e, f),
        },
{
    if !is_discovery(layer) {
        return Ok(false);
    }
    match user_provenance(prov, path) {
        None => Ok(false),
        Some((user_path, user_layer)) => {
            let same = match (existing, incoming) {
                (None, None) => true,
                (Some(a), Some(b)) => json_eq(a, b),
                _ => false,
            };
            if same {
                Ok(true)
            } else {
                Err(
                    ModelError::DiscoveryConflict {
                        path: user_path,
                        existing: user_layer,
                        incoming: layer.to_owned(),
                    },
                )
            }
        },
    }
}

/// Rejects any deletion directive inside `value`, which sits at `path`:
/// arrays replace wholesale, so a directive there could never take effect.
pub fn reject_directives(value: &Json, path: &str) -> (r: Result<(), ModelError>)
    ensures
        match spec_reject(*value, path@) {
            None => r is Ok,
            Some(p) => r matches Err(e) && reports(e, MergeFailure::MalformedDeletion(p)),
        },
    decreases value, 1nat,
{
    match value {
        Json::Object(es) => {
            if find_key(es, "$delete").is_some() {
                return Err(ModelError::MalformedDeletion(path.to_owned()));
            }
            reject_entries(es, path)
        },
        Json::Array(items) => reject_items(items, path),
        _ => Ok(()),
    }
}

fn reject_entries(es: &Vec<(String, Json)>, path: &str) -> (r: Result<(), ModelError>)
    ensures
        match spec_reject_entries(es@, path@) {
            None => r is Ok,
            Some(p) => r matches Err(e) && reports(e, MergeFailure::MalformedDeletion(p)),
        },
    decreases es@, 0nat,
{
    let mut i: usize = 0;
    assert(es@.skip(0) =~= es@);
    while i < es.len()
        invariant
            i <= es@.len(),
            spec_reject_entries(es@, path@) == spec_reject_entries(es@.skip(i as int), path@),
        decreases es@.len() - i,
    {
        let ghost rest = es@.skip(i as int);
        assert(rest[0] == es@[i as int]);
        assert(rest.drop_first() =~= es@.skip(i + 1));
        let mut child = path.to_owned();
        append_str(&mut child, ".");
        append_str(&mut child, es[i].0.as_str());
        assert(decreases_to!(es@ => es@[i as int].1));
        reject_directives(&es[i].1, child.as_str())?;
        i = i + 1;
    }
    Ok(())
}

fn reject_items(items: &Vec<Json>, path: &str) -> (r: Result<(), ModelError>)
    ensures
        match spec_reject_items(items@, path@, 0) {
            None => r is Ok,
            Some(p) => r matches Err(e) && reports(e, MergeFailure::MalformedDeletion(p)),
        },
    decreases items@, 0nat,
{
    let mut i: usize = 0;
    assert(items@.skip(0) =~= items@);
    while i < items.len()
        invariant
            i <= items@.len(),
            spec_reject_items(items@, path@, 0) == spec_reject_items(
                items@.skip(i as int),
                path@,
                i as nat,
            ),
        decreases items@.len() - i,
    {
        let ghost rest = items@.skip(i as int);
        assert(rest[0] == items@[i as int]);
        assert(rest.drop_first() =~= items@.skip(i + 1));
        let child = index_of(path, i);
        assert(decreases_to!(items@ => items@[i as int]));
        reject_directives(&items[i], child.as_str())?;
        i = i + 1;
    }
    Ok(())
}

/// The deletion layer name `"<layer> (deleted)"`.
fn deleted_name(layer: &str) -> (r: String)
    ensures
        r@ == deleted_layer(layer@),
{
    let mut r = layer.to_owned();
    append_str(&mut r, " (deleted)");
    r
}

/// Object entries: distinct keys and well-formed values.
pub open spec fn entries_wf(es: Seq<(String, Json)>) -> bool {
    unique_keys(es) && forall|i: int| 0 <= i < es.len() ==> (#[trigger] es[i]).1.wf()
}

/// Merges `overlay` onto `base` at `path`, extending `prov`.
fn merge_value(base: Json, overlay: &Json, path: &str, layer: &str, prov: &mut Provenance) -> (r:
    Result<Json, ModelError>)
    requires
        base.wf(),
        overlay.wf(),
        old(prov).wf(),
    ensures
        final(prov).wf(),
        match spec_merge_value(base.view_json(), *overlay, path@, layer@, old(prov)@) {
            Ok((v, p)) => r matches Ok(j) && j.view_json() == v && j.wf() && final(prov)@ == p,
            Err(f) => r matches Err(e) && reports(e, f),
        },
    decreases overlay, 1nat,
{
    if is_deletion(overlay) {
        return Err(ModelError::InvalidDeletion(path.to_owned()));
    }
    if is_malformed(overlay) {
        return Err(ModelError::MalformedDeletion(path.to_owned()));
    }
    match (base, overlay) {
        (Json::Object(bm), Json::Object(oe)) => {
            assert(decreases_to!(overlay => oe@));
            let m = merge_entries(bm, oe, path, layer, prov)?;
            Ok(Json::Object(m))
        },
        (base, _) => {
            let skip = check_conflict(Some(&base), Some(overlay), path, layer, prov)?;
            if skip {
                return Ok(base);
            }
            materialize(overlay, path, layer, prov)
        },
    }
}

/// Merges the overlay entries `overlay`, in order, onto the object entries
/// `base` at `path`.
fn merge_entries(
    base: Vec<(String, Json)>,
    overlay: &Vec<(String, Json)>,
    path: &str,
    layer: &str,
    prov: &mut Provenance,
) -> (r: Result<Vec<(String, Json)>, ModelError>)
    requires
        entries_wf(base@),
        forall|i: int| 0 <= i < overlay@.len() ==> (#[trigger] overlay@[i]).1.wf(),
        old(prov).wf(),
    ensures
        final(prov).wf(),
        match spec_merge_entries(entries_view(base@), overlay@, path@, layer@, old(prov)@) {
            Ok((m, p)) => r matches Ok(es) && entries_view(es@) == m && entries_wf(es@)
                && final(prov)@ == p,
            Err(f) => r matches Err(e) && reports(e, f),
        },
    decreases overlay@, 3nat,
{
    let mut bm = base;
    let mut i: usize = 0;
    assert(overlay@.skip(0) =~= overlay@);
    while i < overlay.len()
        invariant
            i <= overlay@.len(),
            entries_wf(bm@),
            prov.wf(),
            forall|k: int| 0 <= k < overlay@.len() ==> (#[trigger] overlay@[k]).1.wf(),
            spec_merge_entries(entries_view(base@), overlay@, path@, layer@, old(prov)@)
                == spec_merge_entries(
                entries_view(bm@),
                overlay@.skip(i as int),
                path@,
                layer@,
                prov@,
            ),
        decreases overlay@.len() - i,
    {
        let ghost rest = overlay@.skip(i as int);
        assert(rest[0] == overlay@[i as int]);
        assert(rest.drop_first() =~= overlay@.skip(i + 1));
        assert(decreases_to!(overlay@ => overlay@[i as int].1));
        let ghost before = entries_view(bm@);
        let ghost prov_before = prov@;
        let ghost step = spec_merge_entry(
            before,
            overlay@[i as int].0@,
            overlay@[i as int].1,
            path@,
            layer@,
            prov_before,
        );
        let key = &overlay[i].0;
        let value = &overlay[i].1;
        let child = child_of(path, key.as_str());
        proof {
            lemma_entries_view_keys(bm@);
        }
        if is_malformed(value) {
            return Err(ModelError::MalformedDeletion(child));
        }
        if is_deletion(value) {
            let idx = find_key(&bm, key.as_str());
            let existing: Option<&Json> = match idx {
                Some(k) => Some(&bm[k].1),
                None => None,
            };
            proof {
                if let Some(k) = idx {
                    lemma_entries_view_value(bm@, k as int);
                }
            }
            assert(opt_view(existing) == (if before.contains_key(key@) {
                Some(before[key@])
            } else {
                None
            }));
            let skip = check_conflict(existing, None, child.as_str(), layer, prov)?;
            if !skip {
                if let Some(k) = idx {
                    proof {
                        lemma_entries_view_remove(bm@, k as int);
                    }
                    let ghost old_bm = bm@;
                    bm.remove(k);
                    assert forall|j: int| 0 <= j < bm@.len() implies (#[trigger] bm@[j]).1.wf() by {
                        let j2 = if j < k {
                            j
                        } else {
                            j + 1
                        };
                        assert(bm@[j] == old_bm[j2]);
                    }
                } else {
                    assert(entries_view(bm@) =~= before.remove(key@));
                }
                prov.insert(child, deleted_name(layer));
            }
        } else {
            match find_key(&bm, key.as_str()) {
                Some(k) => {
                    proof {
                        lemma_entries_view_value(bm@, k as int);
                        lemma_entries_view_remove(bm@, k as int);
                    }
                    let ghost old_bm = bm@;
                    let (existing_key, existing) = bm.remove(k);
                    assert(existing_key@ == key@);
                    assert(existing == old_bm[k as int].1);
                    assert forall|j: int| 0 <= j < bm@.len() implies (#[trigger] bm@[j]).1.wf() by {
                        let j2 = if j < k {
                            j
                        } else {
                            j + 1
                        };
                        assert(bm@[j] == old_bm[j2]);
                    }
                    let merged = merge_value(existing, value, child.as_str(), layer, prov)?;
                    proof {
                        lemma_entries_view_keys(bm@);
                        lemma_entries_push(bm@, existing_key, merged);
                        assert(entries_view(bm@).insert(key@, merged.view_json()) =~= before.insert(
                            key@,
                            merged.view_json(),
                        ));
                    }
                    bm.push((existing_key, merged));
                },
                None => {
                    check_conflict(None, Some(value), child.as_str(), layer, prov)?;
                    let stored = materialize(value, child.as_str(), layer, prov)?;
                    let k = copy_string(key);
                    proof {
                        lemma_entries_push(bm@, k, stored);
                    }
                    bm.push((k, stored));
                },
            }
        }
        i = i + 1;
    }
    Ok(bm)
}

/// Converts an overlay value into a stored value with every deletion
/// directive consumed (objects) or rejected (arrays).
fn materialize(value: &Json, path: &str, layer: &str, prov: &mut Provenance) -> (r: Result<
    Json,
    ModelError,
>)
    requires
        value.wf(),
        old(prov).wf(),
    ensures
        final(prov).wf(),
        match spec_materialize(*value, path@, layer@, old(prov)@) {
            Ok((v, p)) => r matches Ok(j) && j.view_json() == v && j.wf() && final(prov)@ == p,
            Err(f) => r matches Err(e) && reports(e, f),
        },
    decreases value, 0nat,
{
    match value {
        Json::Object(es) => {
            assert(decreases_to!(value => es@));
            let fresh = merge_entries(Vec::new(), es, path, layer, prov)?;
            proof {
                lemma_entries_view_keys(fresh@);
                if fresh@.len() > 0 {
                    assert(has_key(fresh@, fresh@[0].0@));
                    assert(entries_view(fresh@).contains_key(fresh@[0].0@));
                }
            }
            if fresh.len() == 0 {
                assert(entries_view(fresh@) =~= Map::<Seq<char>, JsonV>::empty());
                prov.insert(path.to_owned(), layer.to_owned());
            }
            Ok(Json::Object(fresh))
        },
        Json::Array(items) => {
            reject_items(items, path)?;
            prov.insert(path.to_owned(), layer.to_owned());
            Ok(copy_json(value))
        },
        _ => {
            prov.insert(path.to_owned(), layer.to_owned());
            Ok(copy_json(value))
        },
    }
}

/// Merges layer `overlay`, named `layer`, onto document `base`, recording
/// provenance. On failure the error is exact; `base` and `provenance` are
/// then left partly merged and should be discarded. The members of each
/// overlay object are merged in the order the object holds them, so the
/// first failure found is the first in that order; a parsed layer holds
/// them in key order (see `Json::members_in_key_order`).
pub fn merge_layer(base: &mut Json, overlay: Json, layer: &str, provenance: &mut Provenance) -> (r:
    Result<(), ModelError>)
    requires
        old(base).wf(),
        overlay.wf(),
        old(provenance).wf(),
    ensures
        final(provenance).wf(),
        final(base).wf(),
        match spec_merge_layer(old(base).view_json(), overlay, layer@, old(provenance)@) {
            Ok((v, p)) => r is Ok && final(base).view_json() == v && final(provenance)@ == p,
            Err(f) => r matches Err(e) && reports(e, f),
        },
{
    let mut current = Json::Null;
    std::mem::swap(&mut current, base);
    proof {
        reveal_strlit("");
        assert(""@ =~= Seq::<char>::empty());
    }
    match merge_value(current, &overlay, "", layer, provenance) {
        Ok(merged) => {
            *base = merged;
            Ok(())
        },
        Err(e) => Err(e),
    }
}

/// No object anywhere in `v` has a `$delete` key.
pub open spec fn free_of_directives(v: JsonV) -> bool
    decreases v,
{
    match v {
        JsonV::Object(m) => !m.contains_key(delete_key()) && forall|k: Seq<char>|
            m.contains_key(k) ==> free_of_directives(#[trigger] m[k]),
        JsonV::Array(s) => forall|i: int| 0 <= i < s.len() ==> free_of_directives(#[trigger] s[i]),
        _ => true,
    }
}

proof fn lemma_entries_view_value_some(s: Seq<(String, Json)>, k: Seq<char>)
    requires
        entries_view(s).contains_key(k),
    ensures
        exists|j: int|
            0 <= j < s.len() && #[trigger] s[j].0@ == k && entries_view(s)[k] == s[j].1.view_json(),
    decreases s.len(),
{
    if s.last().0@ == k {
        assert(s[s.len() - 1].0@ == k);
    } else {
        lemma_entries_view_value_some(s.drop_last(), k);
        let j = choose|j: int|
            0 <= j < s.drop_last().len() && #[trigger] s.drop_last()[j].0@ == k && entries_view(
                s.drop_last(),
            )[k] == s.drop_last()[j].1.view_json();
        assert(s[j] == s.drop_last()[j]);
    }
}

proof fn lemma_reject_free(v: Json, path: Seq<char>)
    requires
        spec_reject(v, path) is None,
    ensures
        free_of_directives(v.view_json()),
    decreases v, 1nat,
{
    match v {
        Json::Object(es) => {
            lemma_reject_entries_free(es@, path);
            lemma_entries_view_keys(es@);
            assert forall|k: Seq<char>| entries_view(es@).contains_key(k) implies free_of_directives(
                #[trigger] entries_view(es@)[k],
            ) by {
                lemma_entries_view_value_some(es@, k);
            }
        },
        Json::Array(items) => {
            lemma_reject_items_free(items@, path, 0);
            lemma_items_view(items@);
            assert forall|i: int| 0 <= i < items@.len() implies free_of_directives(
                #[trigger] items_view(items@)[i],
            ) by {}
        },
        _ => {},
    }
}

proof fn lemma_reject_entries_free(es: Seq<(String, Json)>, path: Seq<char>)
    requires
        spec_reject_entries(es, path) is None,
    ensures
        forall|i: int| 0 <= i < es.len() ==> free_of_directives(#[trigger] es[i].1.view_json()),
    decreases es, 0nat,
{
    if es.len() > 0 {
        lemma_reject_free(es[0].1, path + "."@ + es[0].0@);
        lemma_reject_entries_free(es.drop_first(), path);
        assert forall|i: int| 0 <= i < es.len() implies free_of_directives(
            #[trigger] es[i].1.view_json(),
        ) by {
            if i > 0 {
                assert(es[i] == es.drop_first()[i - 1]);
            }
        }
    }
}

proof fn lemma_reject_items_free(items: Seq<Json>, path: Seq<char>, start: nat)
    requires
        spec_reject_items(items, path, start) is None,
    ensures
        forall|i: int| 0 <= i < items.len() ==> free_of_directives(#[trigger] items[i].view_json()),
    decreases items, 0nat,
{
    if items.len() > 0 {
        lemma_reject_free(items[0], index_path(path, start));
        lemma_reject_items_free(items.drop_first(), path, start + 1);
        assert forall|i: int| 0 <= i < items.len() implies free_of_directives(
            #[trigger] items[i].view_json(),
        ) by {
            if i > 0 {
                assert(items[i] == items.drop_first()[i - 1]);
            }
        }
    }
}

/// A map whose keys and values are free of directives.
pub open spec fn free_map(m: Map<Seq<char>, JsonV>) -> bool {
    !m.contains_key(delete_key()) && forall|k: Seq<char>|
        m.contains_key(k) ==> free_of_directives(#[trigger] m[k])
}

proof fn lemma_merge_value_free(base: JsonV, overlay: Json, path: Seq<char>, layer: Seq<char>, prov: Prov)
    requires
        free_of_directives(base),
    ensures
        spec_merge_value(base, overlay, path, layer, prov) matches Ok((v, _)) ==> free_of_directives(v),
    decreases overlay, 1nat,
{
    if !spec_is_deletion(overlay) && !spec_is_malformed(overlay) {
        match (base, overlay) {
            (JsonV::Object(bm), Json::Object(oe)) => {
                lemma_merge_entries_free(bm, oe@, path, layer, prov);
            },
            _ => {
                lemma_materialize_free(overlay, path, layer, prov);
            },
        }
    }
}

proof fn lemma_merge_entry_free(
    bm: Map<Seq<char>, JsonV>,
    key: Seq<char>,
    value: Json,
    path: Seq<char>,
    layer: Seq<char>,
    prov: Prov,
)
    requires
        free_map(bm),
        key != delete_key(),
    ensures
        spec_merge_entry(bm, key, value, path, layer, prov) matches Ok((m, _)) ==> free_map(m),
    decreases value, 2nat,
{
    let child = child_path(path, key);
    if !spec_is_malformed(value) && !spec_is_deletion(value) {
        if bm.contains_key(key) {
            lemma_merge_value_free(bm[key], value, child, layer, prov);
        } else {
            lemma_materialize_free(value, child, layer, prov);
        }
    }
}

proof fn lemma_merge_entries_free(
    bm: Map<Seq<char>, JsonV>,
    oe: Seq<(String, Json)>,
    path: Seq<char>,
    layer: Seq<char>,
    prov: Prov,
)
    requires
        free_map(bm),
        !has_key(oe, delete_key()),
    ensures
        spec_merge_entries(bm, oe, path, layer, prov) matches Ok((m, _)) ==> free_map(m),
    decreases oe, 3nat,
{
    if oe.len() > 0 {
        assert(oe[0].0@ != delete_key());
        lemma_merge_entry_free(bm, oe[0].0@, oe[0].1, path, layer, prov);
        if let Ok((m, p)) = spec_merge_entry(bm, oe[0].0@, oe[0].1, path, layer, prov) {
            assert forall|i: int| 0 <= i < oe.drop_first().len() implies #[trigger] oe.drop_first()[i].0@
                != delete_key() by {
                assert(oe.drop_first()[i] == oe[i + 1]);
            }
            lemma_merge_entries_free(m, oe.drop_first(), path, layer, p);
        }
    }
}

proof fn lemma_materialize_free(value: Json, path: Seq<char>, layer: Seq<char>, prov: Prov)
    requires
        !spec_is_malformed(value),
        !spec_is_deletion(value),
    ensures
        spec_materialize(value, path, layer, prov) matches Ok((v, _)) ==> free_of_directives(v),
    decreases value, 0nat,
{
    match value {
        Json::Object(es) => {
            lemma_merge_entries_free(Map::empty(), es@, path, layer, prov);
        },
        Json::Array(items) => {
            if spec_reject_items(items@, path, 0) is None {
                lemma_reject_items_free(items@, path, 0);
                lemma_items_view(items@);
            }
        },
        _ => {},
    }
}

/// A successful merge never leaves a deletion directive in the document:
/// every `{"$delete": true}` is consumed and any other use is rejected.
pub proof fn law_merge_leaves_no_directives(base: JsonV, overlay: Json, layer: Seq<char>, prov: Prov)
    requires
        free_of_directives(base),
    ensures
        spec_merge_layer(base, overlay, layer, prov) matches Ok((v, _)) ==> free_of_directives(v),
{
    lemma_merge_value_free(base, overlay, Seq::empty(), layer, prov);
}

/// `before` and `after` hold the same user-intent records: every one of
/// `before` is still in `after`, unchanged, and `after` has no new one.
pub open spec fn keeps_user_records(before: Prov, after: Prov) -> bool {
    &&& forall|k: Seq<char>|
        #[trigger] before.contains_key(k) && is_user_layer(before[k]) ==> after.contains_key(k)
            && after[k] == before[k]
    &&& forall|k: Seq<char>|
        #[trigger] after.contains_key(k) && is_user_layer(after[k]) ==> before.contains_key(k)
            && before[k] == after[k]
}

/// `path` holds no user-intent record.
pub open spec fn not_user_at(prov: Prov, path: Seq<char>) -> bool {
    !(prov.contains_key(path) && is_user_layer(prov[path]))
}

proof fn lemma_discovery_is_not_user(layer: Seq<char>)
    requires
        is_discovery_layer(layer),
    ensures
        !is_user_layer(layer),
        !is_user_layer(deleted_layer(layer)),
{
    reveal_strlit("discovery:");
    reveal_strlit("overlay:");
    reveal_strlit("api:");
    assert(layer.subrange(0, 10)[0] == layer[0]);
    assert(layer[0] == 'd');
    assert(deleted_layer(layer)[0] == 'd');
    let d = deleted_layer(layer);
    assert(layer.len() >= 8 ==> layer.subrange(0, 8)[0] == layer[0]);
    assert(d.len() >= 8 ==> d.subrange(0, 8)[0] == d[0]);
    assert(layer.len() >= 4 ==> layer.subrange(0, 4)[0] == layer[0]);
    assert(d.len() >= 4 ==> d.subrange(0, 4)[0] == d[0]);
}

proof fn lemma_keep_insert(prov: Prov, path: Seq<char>, l: Seq<char>)
    requires
        not_user_at(prov, path),
        !is_user_layer(l),
    ensures
        keeps_user_records(prov, prov.insert(path, l)),
{
}

proof fn lemma_keep_transitive(a: Prov, b: Prov, c: Prov)
    requires
        keeps_user_records(a, b),
        keeps_user_records(b, c),
    ensures
        keeps_user_records(a, c),
{
    assert forall|k: Seq<char>| #[trigger] a.contains_key(k) && is_user_layer(a[k]) implies c.contains_key(k)
        && c[k] == a[k] by {
        assert(b.contains_key(k) && b[k] == a[k]);
    }
    assert forall|k: Seq<char>| #[trigger] c.contains_key(k) && is_user_layer(c[k]) implies a.contains_key(k)
        && a[k] == c[k] by {
        assert(b.contains_key(k) && b[k] == c[k]);
    }
}

proof fn lemma_check_passes_not_user(
    existing: Option<JsonV>,
    incoming: Option<JsonV>,
    path: Seq<char>,
    layer: Seq<char>,
    prov: Prov,
)
    requires
        is_discovery_layer(layer),
        spec_check_conflict(existing, incoming, path, layer, prov) == Ok::<bool, MergeFailure>(false),
    ensures
        not_user_at(prov, path),
{
}

proof fn lemma_merge_value_keeps(base: JsonV, overlay: Json, path: Seq<char>, layer: Seq<char>, prov: Prov)
    requires
        is_discovery_layer(layer),
    ensures
        spec_merge_value(base, overlay, path, layer, prov) matches Ok((_, p)) ==> keeps_user_records(
            prov,
            p,
        ),
    decreases overlay, 1nat,
{
    if !spec_is_deletion(overlay) && !spec_is_malformed(overlay) {
        match (base, overlay) {
            (JsonV::Object(bm), Json::Object(oe)) => {
                lemma_merge_entries_keeps(bm, oe@, path, layer, prov);
            },
            _ => {
                if spec_check_conflict(Some(base), Some(overlay.view_json()), path, layer, prov)
                    == Ok::<bool, MergeFailure>(false) {
                    lemma_check_passes_not_user(
                        Some(base),
                        Some(overlay.view_json()),
                        path,
                        layer,
                        prov,
                    );
                    lemma_materialize_keeps(overlay, path, layer, prov);
                }
            },
        }
    }
}

proof fn lemma_merge_entry_keeps(
    bm: Map<Seq<char>, JsonV>,
    key: Seq<char>,
    value: Json,
    path: Seq<char>,
    layer: Seq<char>,
    prov: Prov,
)
    requires
        is_discovery_layer(layer),
    ensures
        spec_merge_entry(bm, key, value, path, layer, prov) matches Ok((_, p)) ==> keeps_user_records(
            prov,
            p,
        ),
    decreases value, 2nat,
{
    let child = child_path(path, key);
    lemma_discovery_is_not_user(layer);
    if !spec_is_malformed(value) {
        if spec_is_deletion(value) {
            let existing = if bm.contains_key(key) {
                Some(bm[key])
            } else {
                None
            };
            if spec_check_conflict(existing, None, child, layer, prov) == Ok::<bool, MergeFailure>(
                false,
            ) {
                lemma_check_passes_not_user(existing, None, child, layer, prov);
                lemma_keep_insert(prov, child, deleted_layer(layer));
            }
        } else if bm.contains_key(key) {
            lemma_merge_value_keeps(bm[key], value, child, layer, prov);
        } else {
            let c = spec_check_conflict(None, Some(value.view_json()), child, layer, prov);
            if c is Ok {
                assert(c == Ok::<bool, MergeFailure>(false));
                lemma_check_passes_not_user(None, Some(value.view_json()), child, layer, prov);
                lemma_materialize_keeps(value, child, layer, prov);
            }
        }
    }
}

proof fn lemma_merge_entries_keeps(
    bm: Map<Seq<char>, JsonV>,
    oe: Seq<(String, Json)>,
    path: Seq<char>,
    layer: Seq<char>,
    prov: Prov,
)
    requires
        is_discovery_layer(layer),
    ensures
        spec_merge_entries(bm, oe, path, layer, prov) matches Ok((_, p)) ==> keeps_user_records(
            prov,
            p,
        ),
    decreases oe, 3nat,
{
    if oe.len() > 0 {
        lemma_merge_entry_keeps(bm, oe[0].0@, oe[0].1, path, layer, prov);
        if let Ok((m, p)) = spec_merge_entry(bm, oe[0].0@, oe[0].1, path, layer, prov) {
            lemma_merge_entries_keeps(m, oe.drop_first(), path, layer, p);
            if let Ok((_, p2)) = spec_merge_entries(m, oe.drop_first(), path, layer, p) {
                lemma_keep_transitive(prov, p, p2);
            }
        }
    }
}

proof fn lemma_materialize_keeps(value: Json, path: Seq<char>, layer: Seq<char>, prov: Prov)
    requires
        is_discovery_layer(layer),
        not_user_at(prov, path),
    ensures
        spec_materialize(value, path, layer, prov) matches Ok((_, p)) ==> keeps_user_records(prov, p),
    decreases value, 0nat,
{
    lemma_discovery_is_not_user(layer);
    match value {
        Json::Object(es) => {
            lemma_merge_entries_keeps(Map::empty(), es@, path, layer, prov);
            if let Ok((m, p)) = spec_merge_entries(Map::empty(), es@, path, layer, prov) {
                assert(not_user_at(p, path));
                lemma_keep_insert(p, path, layer);
                lemma_keep_transitive(prov, p, p.insert(path, layer));
            }
        },
        _ => {
            lemma_keep_insert(prov, path, layer);
        },
    }
}

/// A discovery layer adds facts and never silently overrides explicit user
/// configuration: after a successful merge of a `discovery:` layer, every
/// provenance record made by a user layer (`overlay:` or `api:`) is still
/// present and unchanged, and no new one appears. (A write that would change such a value fails
/// with `DiscoveryConflict`; restating the same value keeps the user's
/// record.)
pub proof fn law_discovery_never_overrides_user_records(
    base: JsonV,
    overlay: Json,
    layer: Seq<char>,
    prov: Prov,
)
    requires
        is_discovery_layer(layer),
    ensures
        spec_merge_layer(base, overlay, layer, prov) matches Ok((_, p)) ==> keeps_user_records(prov, p),
{
    lemma_merge_value_keeps(base, overlay, Seq::empty(), layer, prov);
}

/// Some overlay entry is keyed `k`.
pub open spec fn mentions(oe: Seq<(String, Json)>, k: Seq<char>) -> bool {
    exists|i: int| 0 <= i < oe.len() && #[trigger] oe[i].0@ == k
}

proof fn lemma_merge_entries_frame(
    bm: Map<Seq<char>, JsonV>,
    oe: Seq<(String, Json)>,
    path: Seq<char>,
    layer: Seq<char>,
    prov: Prov,
    k: Seq<char>,
)
    requires
        !mentions(oe, k),
    ensures
        spec_merge_entries(bm, oe, path, layer, prov) matches Ok((m, _)) ==> (m.contains_key(k)
            == bm.contains_key(k) && (bm.contains_key(k) ==> m[k] == bm[k])),
    decreases oe.len(),
{
    if oe.len() > 0 {
        assert(oe[0].0@ != k);
        match spec_merge_entry(bm, oe[0].0@, oe[0].1, path, layer, prov) {
            Ok((m1, p1)) => {
                assert(!mentions(oe.drop_first(), k)) by {
                    if mentions(oe.drop_first(), k) {
                        let i = choose|i: int| 0 <= i < oe.drop_first().len() && #[trigger] oe.drop_first()[i].0@ == k;
                        assert(oe[i + 1].0@ == k);
                    }
                }
                lemma_merge_entries_frame(m1, oe.drop_first(), path, layer, p1, k);
            },
            Err(_) => {},
        }
    }
}

/// A layer changes only the members it mentions: merging an object
/// overlay onto an object leaves every root member that the overlay does
/// not name as it was, present or absent.
pub proof fn law_merge_touches_only_mentioned_members(
    bm: Map<Seq<char>, JsonV>,
    overlay: Json,
    layer: Seq<char>,
    prov: Prov,
    k: Seq<char>,
)
    requires
        overlay matches Json::Object(oe) && !mentions(oe@, k),
    ensures
        spec_merge_layer(JsonV::Object(bm), overlay, layer, prov) matches Ok((JsonV::Object(m), _)) ==> (
        m.contains_key(k) == bm.contains_key(k) && (bm.contains_key(k) ==> m[k] == bm[k])),
{
    match overlay {
        Json::Object(oe) => lemma_merge_entries_frame(bm, oe@, Seq::empty(), layer, prov, k),
        _ => {},
    }
}

/// A later layer's value wins: merging `{key: value}`, with `value` a
/// scalar, from a layer that is not a discovery layer sets `key` to
/// `value` whatever the document held there, and records that layer for
/// it. `null` is such a value: it is stored as data, not as a deletion.
pub proof fn law_later_layer_wins(
    bm: Map<Seq<char>, JsonV>,
    overlay: Json,
    key: String,
    value: Json,
    layer: Seq<char>,
    prov: Prov,
)
    requires
        !is_discovery_layer(layer),
        key@ != delete_key(),
        overlay matches Json::Object(oe) && oe@ == seq![(key, value)],
        value is Null || value is Bool || value is Number || value is String,
    ensures
        spec_merge_layer(JsonV::Object(bm), overlay, layer, prov) == Ok::<(JsonV, Prov), MergeFailure>(
            (JsonV::Object(bm.insert(key@, value.view_json())), prov.insert(key@, layer)),
        ),
{
    match overlay {
        Json::Object(oe) => {
            assert(!has_key(oe@, delete_key())) by {
                if has_key(oe@, delete_key()) {
                    let i = choose|i: int| 0 <= i < oe@.len() && #[trigger] oe@[i].0@ == delete_key();
                    assert(i == 0);
                }
            }
            assert(oe@.drop_first() =~= Seq::<(String, Json)>::empty());
            assert(child_path(Seq::empty(), key@) == key@);
            assert(!spec_is_deletion(overlay));
            assert(!spec_is_malformed(overlay));
            assert(!spec_is_deletion(value) && !spec_is_malformed(value));
            let stored = (value.view_json(), prov.insert(key@, layer));
            assert(spec_materialize(value, key@, layer, prov) == Ok::<(JsonV, Prov), MergeFailure>(stored));
            if bm.contains_key(key@) {
                assert(spec_merge_value(bm[key@], value, key@, layer, prov) == Ok::<(JsonV, Prov), MergeFailure>(
                    stored,
                ));
            }
            let entry = (bm.insert(key@, value.view_json()), prov.insert(key@, layer));
            assert(spec_merge_entry(bm, key@, value, Seq::empty(), layer, prov) == Ok::<
                (Map<Seq<char>, JsonV>, Prov),
                MergeFailure,
            >(entry));
            assert(spec_merge_entries(entry.0, oe@.drop_first(), Seq::empty(), layer, entry.1) == Ok::<
                (Map<Seq<char>, JsonV>, Prov),
                MergeFailure,
            >(entry));
            assert(spec_merge_entries(bm, oe@, Seq::empty(), layer, prov) == Ok::<
                (Map<Seq<char>, JsonV>, Prov),
                MergeFailure,
            >(entry));
        },
        _ => {},
    }
}

} // verus!
