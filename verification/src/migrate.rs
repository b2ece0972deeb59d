//! Schema-version migration of raw profile documents.
//!
//! Schema version 1 is the only version that exists, so the step table of
//! [`migrate_profile`] is empty and a v1 -> v1 migration is the identity.
//! The stepping engine, [`run_migrations`], takes any step table.
use crate::error::ModelError;
use crate::text::{append_str, chars_of, push_decimal, spec_decimal, spec_trim, string_of, trim};
use crate::types::SOURCE_SCHEMA_VERSION;
use crate::checks::{as_u64, spec_as_u64};
use crate::json::{Json, JsonV};
use serde_yaml::value::{Tag, TaggedValue};
use serde_yaml::Value as YamlValue;
use vstd::prelude::*;

verus! {

/// A YAML document as `serde_yaml` holds it.
#[verifier::external_type_specification]
#[verifier::external_body]
pub struct ExYamlValue(serde_yaml::Value);

/// A YAML document as plain values: a number by its text (as
/// `serde_yaml::Number` displays it), a tag by its text (`!name`), a
/// mapping by its entries in order.
#[derive(Debug)]
pub enum Yaml {
    Null,
    Bool(bool),
    Number(String),
    String(String),
    Sequence(Vec<Yaml>),
    Mapping(Vec<(Yaml, Yaml)>),
    Tagged(String, Box<Yaml>),
}

/// A YAML document as spec values.
pub enum YamlV {
    Null,
    Bool(bool),
    Number(Seq<char>),
    Text(Seq<char>),
    Sequence(Seq<YamlV>),
    Mapping(Seq<(YamlV, YamlV)>),
    Tagged(Seq<char>, Box<YamlV>),
}

/// The values of a list of YAML elements.
pub open spec fn yaml_items_view(s: Seq<Yaml>) -> Seq<YamlV>
    decreases s, 0nat,
{
    if s.len() == 0 {
        Seq::empty()
    } else {
        yaml_items_view(s.drop_last()).push(s.last().view())
    }
}

/// The entries of a YAML mapping, as spec values.
pub open spec fn yaml_entries_view(s: Seq<(Yaml, Yaml)>) -> Seq<(YamlV, YamlV)>
    decreases s, 0nat,
{
    if s.len() == 0 {
        Seq::empty()
    } else {
        yaml_entries_view(s.drop_last()).push((s.last().0.view(), s.last().1.view()))
    }
}

impl Yaml {
    pub open spec fn view(&self) -> YamlV
        decreases self, 1nat,
    {
        match self {
            Yaml::Null => YamlV::Null,
            Yaml::Bool(b) => YamlV::Bool(*b),
            Yaml::Number(t) => YamlV::Number(t@),
            Yaml::String(s) => YamlV::Text(s@),
            Yaml::Sequence(items) => YamlV::Sequence(yaml_items_view(items@)),
            Yaml::Mapping(es) => YamlV::Mapping(yaml_entries_view(es@)),
            Yaml::Tagged(t, v) => YamlV::Tagged(t@, Box::new((**v).view())),
        }
    }
}

/// The document `serde_yaml` reads from YAML text, or its error message.
pub uninterp spec fn yaml_parse(source: Seq<char>) -> Result<YamlV, Seq<char>>;

/// The YAML text `serde_yaml` writes for a value, or its error message.
pub uninterp spec fn yaml_emit(value: YamlV) -> Result<Seq<char>, Seq<char>>;

/// `value` as a [`Yaml`], node for node.
#[verifier::external_body]
pub(crate) fn yaml_of(value: &YamlValue) -> Yaml {
    match value {
        YamlValue::Null => Yaml::Null,
        YamlValue::Bool(b) => Yaml::Bool(*b),
        YamlValue::Number(n) => Yaml::Number(n.to_string()),
        YamlValue::String(s) => Yaml::String(s.clone()),
        YamlValue::Sequence(items) => Yaml::Sequence(items.iter().map(yaml_of).collect()),
        YamlValue::Mapping(m) => Yaml::Mapping(m.iter().map(|(k, v)| (yaml_of(k), yaml_of(v))).collect()),
        YamlValue::Tagged(t) => Yaml::Tagged(t.tag.to_string(), Box::new(yaml_of(&t.value))),
    }
}

/// `value` as a `serde_yaml::Value`, node for node; a number and a tag are
/// read back from their text (`Tag::new`, which panics on an empty tag).
#[verifier::external_body]
pub(crate) fn serde_of(value: &Yaml) -> YamlValue
    requires
        tags_nonempty(value.view()),
{
    match value {
        Yaml::Null => YamlValue::Null,
        Yaml::Bool(b) => YamlValue::Bool(*b),
        Yaml::Number(t) => t.parse().map(YamlValue::Number).unwrap_or(YamlValue::Null),
        Yaml::String(s) => YamlValue::String(s.clone()),
        Yaml::Sequence(items) => YamlValue::Sequence(items.iter().map(serde_of).collect()),
        Yaml::Mapping(es) => YamlValue::Mapping(es.iter().map(|(k, v)| (serde_of(k), serde_of(v))).collect()),
        Yaml::Tagged(t, v) => YamlValue::Tagged(Box::new(TaggedValue { tag: Tag::new(t.clone()), value: serde_of(v) })),
    }
}

/// Every tag in `v` is non-empty (YAML has no syntax for an empty tag, and
/// `serde_yaml` refuses to build one).
pub open spec fn tags_nonempty(v: YamlV) -> bool
    decreases v, 1nat,
{
    match v {
        YamlV::Tagged(t, inner) => t.len() > 0 && tags_nonempty(*inner),
        YamlV::Sequence(items) => all_tags_nonempty(items),
        YamlV::Mapping(es) => entry_tags_nonempty(es),
        _ => true,
    }
}

/// Every tag in each of `items` is non-empty.
pub open spec fn all_tags_nonempty(items: Seq<YamlV>) -> bool
    decreases items, 0nat,
{
    if items.len() == 0 {
        true
    } else {
        all_tags_nonempty(items.drop_last()) && tags_nonempty(items.last())
    }
}

/// Every tag in each key and value of `es` is non-empty.
pub open spec fn entry_tags_nonempty(es: Seq<(YamlV, YamlV)>) -> bool
    decreases es, 0nat,
{
    if es.len() == 0 {
        true
    } else {
        entry_tags_nonempty(es.drop_last()) && tags_nonempty(es.last().0) && tags_nonempty(es.last().1)
    }
}

proof fn lemma_all_tags(items: Seq<YamlV>)
    ensures
        all_tags_nonempty(items) <==> forall|k: int| 0 <= k < items.len() ==> tags_nonempty(#[trigger] items[k]),
    decreases items.len(),
{
    if items.len() > 0 {
        let d = items.drop_last();
        lemma_all_tags(d);
        if all_tags_nonempty(items) {
            assert forall|k: int| 0 <= k < items.len() implies tags_nonempty(#[trigger] items[k]) by {
                if k < items.len() - 1 {
                    assert(d[k] == items[k]);
                }
            }
        }
        if forall|k: int| 0 <= k < items.len() ==> tags_nonempty(#[trigger] items[k]) {
            assert forall|k: int| 0 <= k < d.len() implies tags_nonempty(#[trigger] d[k]) by {
                assert(d[k] == items[k]);
            }
            assert(tags_nonempty(items[items.len() - 1]));
        }
    }
}

proof fn lemma_entry_tags(es: Seq<(YamlV, YamlV)>)
    ensures
        entry_tags_nonempty(es) <==> forall|k: int|
            0 <= k < es.len() ==> tags_nonempty((#[trigger] es[k]).0) && tags_nonempty(es[k].1),
    decreases es.len(),
{
    if es.len() > 0 {
        let d = es.drop_last();
        lemma_entry_tags(d);
        if entry_tags_nonempty(es) {
            assert forall|k: int| 0 <= k < es.len() implies tags_nonempty((#[trigger] es[k]).0) && tags_nonempty(
                es[k].1,
            ) by {
                if k < es.len() - 1 {
                    assert(d[k] == es[k]);
                }
            }
        }
        if forall|k: int| 0 <= k < es.len() ==> tags_nonempty((#[trigger] es[k]).0) && tags_nonempty(es[k].1) {
            assert forall|k: int| 0 <= k < d.len() implies tags_nonempty((#[trigger] d[k]).0) && tags_nonempty(
                d[k].1,
            ) by {
                assert(d[k] == es[k]);
            }
            assert(tags_nonempty(es[es.len() - 1].0));
        }
    }
}

/// Parses YAML text (`serde_yaml::from_str` into a `serde_yaml::Value`):
/// the document, or the parser's message, which depend on the text alone.
/// Each tag of the document is its `Display` text, which starts with `!`.
#[verifier::external_body]
pub(crate) fn parse_yaml(source: &str) -> (r: Result<Yaml, String>)
    ensures
        match r {
            Ok(d) => yaml_parse(source@) == Ok::<YamlV, Seq<char>>(d.view()) && tags_nonempty(d.view()),
            Err(e) => yaml_parse(source@) == Err::<YamlV, Seq<char>>(e@),
        },
{
    match serde_yaml::from_str::<YamlValue>(source) {
        Ok(value) => Ok(yaml_of(&value)),
        Err(error) => Err(error.to_string()),
    }
}

/// YAML text of a value (`serde_yaml::to_string`): the text, or the
/// serializer's message, which depend on the value alone.
#[verifier::external_body]
fn yaml_to_string(value: &Yaml) -> (r: Result<String, String>)
    requires
        tags_nonempty(value.view()),
    ensures
        match r {
            Ok(t) => yaml_emit(value.view()) == Ok::<Seq<char>, Seq<char>>(t@),
            Err(e) => yaml_emit(value.view()) == Err::<Seq<char>, Seq<char>>(e@),
        },
{
    serde_yaml::to_string(&serde_of(value)).map_err(|error| error.to_string())
}

/// A tagged value is read through its tags (`Value::untag_ref`).
pub open spec fn untagged(v: YamlV) -> YamlV
    decreases v,
{
    match v {
        YamlV::Tagged(_, inner) => untagged(*inner),
        _ => v,
    }
}

/// The value of the first entry keyed by the string `key`
/// (`Mapping::get`).
pub open spec fn mapping_get(entries: Seq<(YamlV, YamlV)>, key: Seq<char>) -> Option<YamlV>
    decreases entries.len(),
{
    if entries.len() == 0 {
        None
    } else if entries[0].0 == YamlV::Text(key) {
        Some(entries[0].1)
    } else {
        mapping_get(entries.drop_first(), key)
    }
}

/// What `Value::as_u64` reads: an untagged number written as plain decimal
/// digits (how a non-negative integer displays; a negative one has a sign
/// and a float a point, an exponent or a name).
pub open spec fn yaml_as_u64(v: YamlV) -> Option<u64> {
    match untagged(v) {
        YamlV::Number(t) => match spec_as_u64(JsonV::Number(t)) {
            Some(n) => Some(n as u64),
            None => None,
        },
        _ => None,
    }
}

/// What a document says of its schema version, as read from YAML.
pub enum SchemaVersionEntry {
    /// The document root is not a mapping.
    NotAMapping,
    /// The root mapping has no `schema_version`.
    Absent,
    /// `schema_version` is present: `unsigned` is its value where it is an
    /// unsigned integer, `text` its YAML text.
    Present { unsigned: Option<u64>, text: String },
}

pub open spec fn migration_input() -> Seq<char> {
    "migration input"@
}

pub open spec fn not_an_object() -> Seq<char> {
    "document root must be an object"@
}

/// The schema version a document declares, or why it declares none.
pub enum VersionRead {
    Version(u32),
    NotAnObject,
    Missing,
    Unsupported(Seq<char>),
}

/// What a document says of its schema version, as spec values.
pub enum EntryView {
    NotAMapping,
    Absent,
    Present(Option<u64>, Seq<char>),
}

impl SchemaVersionEntry {
    pub open spec fn view(&self) -> EntryView {
        match self {
            SchemaVersionEntry::NotAMapping => EntryView::NotAMapping,
            SchemaVersionEntry::Absent => EntryView::Absent,
            SchemaVersionEntry::Present { unsigned, text } => EntryView::Present(*unsigned, text@),
        }
    }
}

/// What an entry says of the schema version: a version where it is an
/// unsigned integer that fits `u32`, else the trimmed YAML text.
pub open spec fn spec_read(entry: EntryView) -> VersionRead {
    match entry {
        EntryView::NotAMapping => VersionRead::NotAnObject,
        EntryView::Absent => VersionRead::Missing,
        EntryView::Present(unsigned, text) => match unsigned {
            Some(n) => if n <= u32::MAX {
                VersionRead::Version(n as u32)
            } else {
                VersionRead::Unsupported(spec_trim(text))
            },
            None => VersionRead::Unsupported(spec_trim(text)),
        },
    }
}

/// What `entry` says of the schema version; see [`spec_read`].
pub open spec fn spec_schema_version(entry: SchemaVersionEntry) -> VersionRead {
    spec_read(entry.view())
}

/// What a parsed document says of its schema version: the root (read
/// through its tags) must be a mapping, and its `schema_version` entry is
/// read as an unsigned integer and as YAML text (empty where it cannot be
/// written).
pub open spec fn spec_entry(document: YamlV) -> EntryView {
    match untagged(document) {
        YamlV::Mapping(es) => match mapping_get(es, "schema_version"@) {
            None => EntryView::Absent,
            Some(v) => EntryView::Present(
                yaml_as_u64(v),
                match yaml_emit(v) {
                    Ok(t) => t,
                    Err(_) => Seq::empty(),
                },
            ),
        },
        _ => EntryView::NotAMapping,
    }
}

/// The schema version a YAML text declares, or why it declares none; `None`
/// where the text is not YAML.
pub open spec fn declared_version(source: Seq<char>) -> Option<VersionRead> {
    match yaml_parse(source) {
        Ok(document) => Some(spec_read(spec_entry(document))),
        Err(_) => None,
    }
}

/// The error, or the version, that a read gives.
pub open spec fn version_result(read: VersionRead, r: Result<u32, ModelError>) -> bool {
    match read {
        VersionRead::Version(v) => r == Ok::<u32, ModelError>(v),
        VersionRead::NotAnObject => r matches Err(ModelError::Parse { source_name, message })
            && source_name@ == migration_input() && message@ == not_an_object(),
        VersionRead::Missing => r matches Err(ModelError::Validation(m)) && m@
            == "schema_version is required"@,
        VersionRead::Unsupported(t) => r matches Err(
            ModelError::UnsupportedSchemaVersion { found, expected },
        ) && found@ == t && expected == SOURCE_SCHEMA_VERSION,
    }
}

/// The schema version that `entry` declares; see [`spec_schema_version`].
pub fn schema_version_from(entry: &SchemaVersionEntry) -> (r: Result<u32, ModelError>)
    ensures
        version_result(spec_schema_version(*entry), r),
{
    match entry {
        SchemaVersionEntry::NotAMapping => Err(
            ModelError::Parse {
                source_name: "migration input".to_owned(),
                message: "document root must be an object".to_owned(),
            },
        ),
        SchemaVersionEntry::Absent => Err(
            ModelError::Validation("schema_version is required".to_owned()),
        ),
        SchemaVersionEntry::Present { unsigned, text } => {
            if let Some(n) = unsigned {
                if *n <= 0xffff_ffffu64 {
                    return Ok(*n as u32);
                }
            }
            let t = chars_of(text.as_str());
            let found = trim(t.as_slice());
            Err(
                ModelError::UnsupportedSchemaVersion {
                    found: string_of(found.as_slice()),
                    expected: SOURCE_SCHEMA_VERSION,
                },
            )
        },
    }
}

fn is_schema_version_key(key: &Yaml) -> (r: bool)
    ensures
        r == (key.view() == YamlV::Text("schema_version"@)),
{
    match key {
        Yaml::String(s) => crate::text::str_eq(s.as_str(), "schema_version"),
        _ => false,
    }
}

/// The position of the entry keyed by the string `schema_version`.
fn find_version_key(entries: &Vec<(Yaml, Yaml)>) -> (r: Option<usize>)
    ensures
        match r {
            Some(i) => i < entries@.len() && mapping_get(yaml_entries_view(entries@), "schema_version"@)
                == Some(entries@[i as int].1.view()) && entries@[i as int].0.view() == YamlV::Text(
                "schema_version"@,
            ) && forall|k: int| 0 <= k < i ==> (#[trigger] entries@[k]).0.view() != YamlV::Text("schema_version"@),
            None => mapping_get(yaml_entries_view(entries@), "schema_version"@) is None && forall|k: int|
                0 <= k < entries@.len() ==> (#[trigger] entries@[k]).0.view() != YamlV::Text("schema_version"@),
        },
{
    let ghost key = "schema_version"@;
    proof {
        lemma_entries_view(entries@);
        assert(yaml_entries_view(entries@).skip(0) =~= yaml_entries_view(entries@));
    }
    let mut i: usize = 0;
    while i < entries.len()
        invariant
            i <= entries@.len(),
            yaml_entries_view(entries@).len() == entries@.len(),
            forall|k: int| 0 <= k < entries@.len() ==> #[trigger] yaml_entries_view(entries@)[k] == (
                entries@[k].0.view(),
                entries@[k].1.view(),
            ),
            mapping_get(yaml_entries_view(entries@), key) == mapping_get(
                yaml_entries_view(entries@).skip(i as int),
                key,
            ),
            key == "schema_version"@,
            forall|k: int| 0 <= k < i ==> (#[trigger] entries@[k]).0.view() != YamlV::Text(key),
        decreases entries@.len() - i,
    {
        let ghost rest = yaml_entries_view(entries@).skip(i as int);
        assert(rest[0] == yaml_entries_view(entries@)[i as int]);
        assert(rest.drop_first() =~= yaml_entries_view(entries@).skip(i + 1));
        if is_schema_version_key(&entries[i].0) {
            return Some(i);
        }
        i = i + 1;
    }
    assert(yaml_entries_view(entries@).skip(i as int) =~= Seq::<(YamlV, YamlV)>::empty());
    None
}

proof fn lemma_entries_view(s: Seq<(Yaml, Yaml)>)
    ensures
        yaml_entries_view(s).len() == s.len(),
        forall|k: int| 0 <= k < s.len() ==> #[trigger] yaml_entries_view(s)[k] == (s[k].0.view(), s[k].1.view()),
    decreases s.len(),
{
    if s.len() > 0 {
        lemma_entries_view(s.drop_last());
        assert forall|k: int| 0 <= k < s.len() implies #[trigger] yaml_entries_view(s)[k] == (
            s[k].0.view(),
            s[k].1.view(),
        ) by {
            if k < s.len() - 1 {
                assert(s.drop_last()[k] == s[k]);
            }
        }
    }
}

proof fn lemma_items_view(s: Seq<Yaml>)
    ensures
        yaml_items_view(s).len() == s.len(),
        forall|k: int| 0 <= k < s.len() ==> #[trigger] yaml_items_view(s)[k] == s[k].view(),
    decreases s.len(),
{
    if s.len() > 0 {
        lemma_items_view(s.drop_last());
        assert forall|k: int| 0 <= k < s.len() implies #[trigger] yaml_items_view(s)[k] == s[k].view() by {
            if k < s.len() - 1 {
                assert(s.drop_last()[k] == s[k]);
            }
        }
    }
}

/// Whether every tag in `value` is non-empty; see [`tags_nonempty`].
#[verifier::loop_isolation(false)]
pub fn tags_ok(value: &Yaml) -> (r: bool)
    ensures
        r == tags_nonempty(value.view()),
    decreases value,
{
    match value {
        Yaml::Tagged(t, inner) => t.as_str().unicode_len() > 0 && tags_ok(inner),
        Yaml::Sequence(items) => {
            proof {
                lemma_items_view(items@);
            }
            let mut i: usize = 0;
            while i < items.len()
                invariant
                    i <= items@.len(),
                    yaml_items_view(items@).len() == items@.len(),
                    forall|k: int| 0 <= k < items@.len() ==> #[trigger] yaml_items_view(items@)[k] == items@[k].view(),
                    forall|k: int| 0 <= k < i ==> tags_nonempty(#[trigger] yaml_items_view(items@)[k]),
                decreases items@.len() - i,
            {
                assert(decreases_to!(value => items@[i as int]));
                if !tags_ok(&items[i]) {
                    let ghost vs = yaml_items_view(items@);
                    assert(!tags_nonempty(vs[i as int]));
                    assert(value.view() == YamlV::Sequence(vs));
                    proof {
                        lemma_all_tags(vs);
                    }
                    return false;
                }
                i = i + 1;
            }
            proof {
                lemma_all_tags(yaml_items_view(items@));
            }
            true
        },
        Yaml::Mapping(entries) => {
            proof {
                lemma_entries_view(entries@);
            }
            let mut i: usize = 0;
            while i < entries.len()
                invariant
                    i <= entries@.len(),
                    yaml_entries_view(entries@).len() == entries@.len(),
                    forall|k: int| 0 <= k < entries@.len() ==> #[trigger] yaml_entries_view(entries@)[k] == (
                        entries@[k].0.view(),
                        entries@[k].1.view(),
                    ),
                    forall|k: int|
                        0 <= k < i ==> tags_nonempty((#[trigger] yaml_entries_view(entries@)[k]).0)
                            && tags_nonempty(yaml_entries_view(entries@)[k].1),
                decreases entries@.len() - i,
            {
                assert(decreases_to!(value => entries@[i as int].0));
                assert(decreases_to!(value => entries@[i as int].1));
                if !tags_ok(&entries[i].0) || !tags_ok(&entries[i].1) {
                    let ghost es = yaml_entries_view(entries@);
                    assert(!(tags_nonempty(es[i as int].0) && tags_nonempty(es[i as int].1)));
                    assert(value.view() == YamlV::Mapping(es));
                    proof {
                        lemma_entry_tags(es);
                    }
                    return false;
                }
                i = i + 1;
            }
            proof {
                lemma_entry_tags(yaml_entries_view(entries@));
            }
            true
        },
        _ => true,
    }
}

/// What `Value::as_u64` reads from `value`; see [`yaml_as_u64`].
fn yaml_u64(value: &Yaml) -> (r: Option<u64>)
    ensures
        r == yaml_as_u64(value.view()),
    decreases value,
{
    match value {
        Yaml::Tagged(_, inner) => yaml_u64(inner),
        Yaml::Number(t) => {
            let n = Json::Number(crate::json::copy_string(t));
            match as_u64(&n) {
                Some(v) => Some(v),
                None => None,
            }
        },
        _ => None,
    }
}

/// Reads what `document` says of its schema version; see [`spec_entry`].
fn schema_entry(document: &Yaml) -> (r: SchemaVersionEntry)
    requires
        tags_nonempty(document.view()),
    ensures
        r.view() == spec_entry(document.view()),
    decreases document,
{
    match document {
        Yaml::Tagged(_, inner) => schema_entry(inner),
        Yaml::Mapping(entries) => match find_version_key(entries) {
            None => SchemaVersionEntry::Absent,
            Some(i) => {
                proof {
                    lemma_entries_view(entries@);
                    lemma_entry_tags(yaml_entries_view(entries@));
                    assert(yaml_entries_view(entries@)[i as int].1 == entries@[i as int].1.view());
                }
                let value = &entries[i].1;
                let text = match yaml_to_string(value) {
                    Ok(t) => t,
                    Err(_) => String::new(),
                };
                SchemaVersionEntry::Present { unsigned: yaml_u64(value), text }
            },
        },
        _ => SchemaVersionEntry::NotAMapping,
    }
}

/// One single-step schema transformation, applied to the raw profile
/// document before any validation.
pub trait SchemaTransform {
    /// What the transformation makes of a document: the new document, or
    /// the error it fails with. An implementation states its own; one that
    /// states none is taken to leave the document as it is.
    open spec fn transformed(&self, document: YamlV) -> Result<YamlV, ModelError> {
        Ok(document)
    }

    fn apply(&self, document: &mut Yaml) -> (r: Result<(), ModelError>)
        ensures
            match self.transformed(old(document).view()) {
                Ok(d) => r is Ok && final(document).view() == d,
                Err(e) => r == Err::<(), ModelError>(e),
            },
    ;
}

/// The transformation type of this build's step table. Schema version 1 is
/// the only version, so the table is empty and no transformation of this
/// type is ever applied; one that were would leave the document unchanged.
pub struct NoTransform;

impl SchemaTransform for NoTransform {
    open spec fn transformed(&self, document: YamlV) -> Result<YamlV, ModelError> {
        Ok(document)
    }

    fn apply(&self, document: &mut Yaml) -> (r: Result<(), ModelError>) {
        Ok(())
    }
}

/// The entries `es` with `schema_version` set to the number `n`: the value
/// of its first entry replaced in place where there is one, else a new
/// entry at the end (`Mapping::insert`).
pub open spec fn entries_with_version(es: Seq<(YamlV, YamlV)>, n: Seq<char>) -> Seq<(YamlV, YamlV)>
    decreases es.len(),
{
    if es.len() == 0 {
        seq![(YamlV::Text("schema_version"@), YamlV::Number(n))]
    } else if es[0].0 == YamlV::Text("schema_version"@) {
        es.update(0, (es[0].0, YamlV::Number(n)))
    } else {
        seq![es[0]] + entries_with_version(es.drop_first(), n)
    }
}

/// `document` with its `schema_version` set to the number `n`, through its
/// tags (`Value::as_mapping_mut`); unchanged where it is not a mapping.
pub open spec fn with_version(document: YamlV, n: Seq<char>) -> YamlV
    decreases document,
{
    match document {
        YamlV::Tagged(t, inner) => YamlV::Tagged(t, Box::new(with_version(*inner, n))),
        YamlV::Mapping(es) => YamlV::Mapping(entries_with_version(es, n)),
        _ => document,
    }
}

proof fn lemma_entries_with_version(es: Seq<(YamlV, YamlV)>, n: Seq<char>, i: int)
    requires
        0 <= i <= es.len(),
        forall|k: int| 0 <= k < i ==> (#[trigger] es[k]).0 != YamlV::Text("schema_version"@),
        i < es.len() ==> es[i].0 == YamlV::Text("schema_version"@),
    ensures
        entries_with_version(es, n) == if i < es.len() {
            es.update(i, (es[i].0, YamlV::Number(n)))
        } else {
            es.push((YamlV::Text("schema_version"@), YamlV::Number(n)))
        },
    decreases es.len(),
{
    if es.len() > 0 && i > 0 {
        assert(es[0].0 != YamlV::Text("schema_version"@));
        let t = es.drop_first();
        assert forall|k: int| 0 <= k < i - 1 implies (#[trigger] t[k]).0 != YamlV::Text("schema_version"@) by {
            assert(t[k] == es[k + 1]);
        }
        lemma_entries_with_version(t, n, i - 1);
        if i < es.len() {
            assert(seq![es[0]] + t.update(i - 1, (t[i - 1].0, YamlV::Number(n))) =~= es.update(
                i,
                (es[i].0, YamlV::Number(n)),
            ));
        } else {
            assert(seq![es[0]] + t.push((YamlV::Text("schema_version"@), YamlV::Number(n))) =~= es.push(
                (YamlV::Text("schema_version"@), YamlV::Number(n)),
            ));
        }
    } else if es.len() == 0 {
        assert(seq![(YamlV::Text("schema_version"@), YamlV::Number(n))] =~= es.push(
            (YamlV::Text("schema_version"@), YamlV::Number(n)),
        ));
    }
}

/// Sets `schema_version` to the number `n` in the mapping under the tags of
/// `document`; false, changing nothing, where there is no mapping.
fn set_version(document: &mut Yaml, n: &String) -> (ok: bool)
    ensures
        ok == (untagged(old(document).view()) is Mapping),
        final(document).view() == with_version(old(document).view(), n@),
    decreases *old(document),
{
    match document {
        Yaml::Tagged(_, inner) => set_version(inner, n),
        Yaml::Mapping(entries) => {
            proof {
                lemma_entries_view(entries@);
            }
            let ghost before = entries@;
            match find_version_key(entries) {
                Some(i) => {
                    entries.set(i, (Yaml::String("schema_version".to_owned()), Yaml::Number(crate::json::copy_string(n))));
                    proof {
                        lemma_entries_view(entries@);
                        lemma_entries_with_version(yaml_entries_view(before), n@, i as int);
                        assert(yaml_entries_view(entries@) =~= yaml_entries_view(before).update(
                            i as int,
                            (yaml_entries_view(before)[i as int].0, YamlV::Number(n@)),
                        ));
                    }
                },
                None => {
                    entries.push((Yaml::String("schema_version".to_owned()), Yaml::Number(crate::json::copy_string(n))));
                    proof {
                        lemma_entries_view(entries@);
                        lemma_entries_with_version(yaml_entries_view(before), n@, before.len() as int);
                        assert(yaml_entries_view(entries@) =~= yaml_entries_view(before).push(
                            (YamlV::Text("schema_version"@), YamlV::Number(n@)),
                        ));
                    }
                },
            }
            true
        },
        _ => false,
    }
}

/// A step of the migration table: `transform` takes a document of schema
/// version `from` to version `to`.
pub struct MigrationStep<T> {
    pub from: u32,
    pub to: u32,
    pub transform: T,
}

/// Step `i` is the first step leaving `version` that does not overshoot
/// `target`.
pub open spec fn is_first_step<T>(steps: Seq<MigrationStep<T>>, version: u32, target: u32, i: int) -> bool {
    &&& 0 <= i < steps.len()
    &&& steps[i].from == version
    &&& steps[i].to <= target
    &&& forall|j: int| 0 <= j < i ==> !(#[trigger] steps[j].from == version && steps[j].to <= target)
}

/// The first step leaving `version` that does not overshoot `target`.
pub open spec fn first_step<T>(steps: Seq<MigrationStep<T>>, version: u32, target: u32) -> Option<int> {
    if exists|i: int| is_first_step(steps, version, target, i) {
        Some(choose|i: int| is_first_step(steps, version, target, i))
    } else {
        None
    }
}

pub open spec fn no_path_message(current: u32, target: u32) -> Seq<char> {
    "no migration path from schema_version "@ + spec_decimal(current as nat) + " to "@
        + spec_decimal(target as nat)
}

pub open spec fn non_advancing_message(from: u32, to: u32) -> Seq<char> {
    "invalid migration step "@ + spec_decimal(from as nat) + " -> "@ + spec_decimal(to as nat)
        + ": steps must increase the version"@
}

/// Which step a migration from `current`, now at `version`, takes next
/// towards `target`: none once the target is reached; the first step that
/// leaves `version` without overshooting the target; an error when there is
/// no such step, or when that step does not increase the version.
pub fn next_step<T>(version: u32, target: u32, current: u32, steps: &[MigrationStep<T>]) -> (r:
    Result<Option<usize>, ModelError>)
    ensures
        version == target ==> r matches Ok(None),
        version != target ==> match first_step(steps@, version, target) {
            None => r matches Err(ModelError::Validation(m)) && m@ == no_path_message(
                current,
                target,
            ),
            Some(i) => if steps@[i].to <= steps@[i].from {
                r matches Err(ModelError::Validation(m)) && m@ == non_advancing_message(
                    steps@[i].from,
                    steps@[i].to,
                )
            } else {
                r == Ok::<Option<usize>, ModelError>(Some(i as usize))
            },
        },
{
    if version == target {
        return Ok(None);
    }
    let mut i: usize = 0;
    while i < steps.len()
        invariant
            version != target,
            i <= steps@.len(),
            forall|j: int| 0 <= j < i ==> !(#[trigger] steps@[j].from == version && steps@[j].to <= target),
        decreases steps@.len() - i,
    {
        if steps[i].from == version && steps[i].to <= target {
            proof {
                assert(is_first_step(steps@, version, target, i as int));
                let c = first_step(steps@, version, target)->0;
                assert(is_first_step(steps@, version, target, c));
                if c < i {
                    assert(!(steps@[c].from == version && steps@[c].to <= target));
                } else if c > i {
                    assert(!(steps@[i as int].from == version && steps@[i as int].to <= target));
                }
            }
            if steps[i].to <= steps[i].from {
                let mut m = String::new();
                append_str(&mut m, "invalid migration step ");
                push_decimal(&mut m, steps[i].from as u64);
                append_str(&mut m, " -> ");
                push_decimal(&mut m, steps[i].to as u64);
                append_str(&mut m, ": steps must increase the version");
                return Err(ModelError::Validation(m));
            }
            return Ok(Some(i));
        }
        i = i + 1;
    }
    proof {
        if exists|c: int| is_first_step(steps@, version, target, c) {
            let c = choose|c: int| is_first_step(steps@, version, target, c);
            assert(!(steps@[c].from == version && steps@[c].to <= target));
        }
    }
    let mut m = String::new();
    append_str(&mut m, "no migration path from schema_version ");
    push_decimal(&mut m, current as u64);
    append_str(&mut m, " to ");
    push_decimal(&mut m, target as u64);
    Err(ModelError::Validation(m))
}

/// Why a chain of migration steps stops short of its target.
pub enum ChainFailure {
    /// No step leaves the version reached without overshooting the target.
    NoPath,
    /// The step chosen does not increase the version.
    NonAdvancing(u32, u32),
    /// A transformation left a document whose root is not a mapping.
    NotAMapping,
    /// A transformation failed with this error.
    Step(ModelError),
}

/// The document that the steps chosen by [`next_step`] make of `document`,
/// which is at `version`, on the way to `target`: each step's
/// transformation applied in turn, and `schema_version` set to the step's
/// `to` after it.
pub open spec fn chain<T: SchemaTransform>(
    steps: Seq<MigrationStep<T>>,
    document: YamlV,
    version: u32,
    target: u32,
) -> Result<YamlV, ChainFailure>
    decreases target - version,
{
    if version == target {
        Ok(document)
    } else if exists|i: int| is_first_step(steps, version, target, i) {
        let i = choose|i: int| is_first_step(steps, version, target, i);
        let step = steps[i];
        if step.to <= step.from {
            Err(ChainFailure::NonAdvancing(step.from, step.to))
        } else {
            match step.transform.transformed(document) {
                Err(e) => Err(ChainFailure::Step(e)),
                Ok(d) => if untagged(d) is Mapping {
                    chain(steps, with_version(d, spec_decimal(step.to as nat)), step.to, target)
                } else {
                    Err(ChainFailure::NotAMapping)
                },
            }
        }
    } else {
        Err(ChainFailure::NoPath)
    }
}

/// `r` is what a migration from `current` to `target` gives where its chain
/// of steps ends in `end`: the YAML text of the final document, or the
/// error that stopped it.
pub open spec fn migration_outcome(
    end: Result<YamlV, ChainFailure>,
    current: u32,
    target: u32,
    r: Result<String, ModelError>,
) -> bool {
    match end {
        Ok(d) => if !tags_nonempty(d) {
            r matches Err(ModelError::Parse { source_name, message }) && source_name@
                == "migration output"@ && message@ == empty_tag_message()
        } else {
            match yaml_emit(d) {
                Ok(t) => r matches Ok(s) && s@ == t,
                Err(m) => r matches Err(ModelError::Parse { source_name, message }) && source_name@
                    == "migration output"@ && message@ == m,
            }
        },
        Err(ChainFailure::NoPath) => r matches Err(ModelError::Validation(m)) && m@
            == no_path_message(current, target),
        Err(ChainFailure::NonAdvancing(from, to)) => r matches Err(ModelError::Validation(m)) && m@
            == non_advancing_message(from, to),
        Err(ChainFailure::NotAMapping) => r matches Err(ModelError::Parse { source_name, message })
            && source_name@ == migration_input() && message@ == not_an_object(),
        Err(ChainFailure::Step(e)) => r == Err::<String, ModelError>(e),
    }
}

pub open spec fn empty_tag_message() -> Seq<char> {
    "empty YAML tag is not allowed"@
}

proof fn lemma_decimal_digits(n: nat)
    ensures
        spec_decimal(n).len() > 0,
        forall|i: int| 0 <= i < spec_decimal(n).len() ==> '0' <= #[trigger] spec_decimal(n)[i] <= '9',
        crate::checks::digits_value(spec_decimal(n)) == n,
    decreases n,
{
    let d = ((n % 10) + 48) as u32;
    assert(48 <= d <= 57);
    assert((d as char) as u32 == d);
    if n < 10 {
        let s = spec_decimal(n);
        assert(s.drop_last() =~= Seq::<char>::empty());
        assert(s.last() == (d as char));
        assert(s.last() as nat == n + 48);
        assert(crate::checks::digits_value(s) == crate::checks::digits_value(s.drop_last()) * 10 + ((s.last() as nat) - ('0' as nat)) as nat);
    } else {
        lemma_decimal_digits(n / 10);
        let s = spec_decimal(n);
        assert(s.drop_last() =~= spec_decimal(n / 10));
        assert(s.last() == (d as char));
        assert forall|i: int| 0 <= i < s.len() implies '0' <= #[trigger] s[i] <= '9' by {
            if i < s.len() - 1 {
                assert(s[i] == spec_decimal(n / 10)[i]);
            }
        }
        assert(s.last() as nat == n % 10 + 48);
        assert(crate::checks::digits_value(s) == crate::checks::digits_value(s.drop_last()) * 10 + ((s.last() as nat) - ('0' as nat)) as nat);
        assert(n == (n / 10) * 10 + n % 10);
    }
}

proof fn lemma_version_entry(es: Seq<(YamlV, YamlV)>, n: Seq<char>)
    ensures
        mapping_get(entries_with_version(es, n), "schema_version"@) == Some(YamlV::Number(n)),
    decreases es.len(),
{
    if es.len() > 0 && es[0].0 != YamlV::Text("schema_version"@) {
        lemma_version_entry(es.drop_first(), n);
        let t = seq![es[0]] + entries_with_version(es.drop_first(), n);
        assert(t[0] == es[0]);
        assert(t.drop_first() =~= entries_with_version(es.drop_first(), n));
    }
}

proof fn lemma_with_version_read(d: YamlV, to: u32)
    requires
        untagged(d) is Mapping,
    ensures
        spec_read(spec_entry(with_version(d, spec_decimal(to as nat)))) == VersionRead::Version(to),
    decreases d,
{
    match d {
        YamlV::Tagged(t, inner) => {
            lemma_with_version_read(*inner, to);
        },
        YamlV::Mapping(es) => {
            lemma_version_entry(es, spec_decimal(to as nat));
            lemma_decimal_digits(to as nat);
        },
        _ => {},
    }
}

/// A chain of steps that succeeds ends at the target: the document it leaves
/// declares the target version, for a document that declares the version
/// the chain starts from.
pub proof fn law_migration_ends_at_the_target<T: SchemaTransform>(
    steps: Seq<MigrationStep<T>>,
    document: YamlV,
    version: u32,
    target: u32,
)
    requires
        spec_read(spec_entry(document)) == VersionRead::Version(version),
    ensures
        chain(steps, document, version, target) matches Ok(d) ==> spec_read(spec_entry(d))
            == VersionRead::Version(target),
    decreases target - version,
{
    if version != target && exists|i: int| is_first_step(steps, version, target, i) {
        let i = choose|i: int| is_first_step(steps, version, target, i);
        let step = steps[i];
        if !(step.to <= step.from) {
            if let Ok(d) = step.transform.transformed(document) {
                if untagged(d) is Mapping {
                    lemma_with_version_read(d, step.to);
                    law_migration_ends_at_the_target(
                        steps,
                        with_version(d, spec_decimal(step.to as nat)),
                        step.to,
                        target,
                    );
                }
            }
        }
    }
}

/// The error that a read that declares no version gives.
pub open spec fn read_failure(read: VersionRead, r: Result<String, ModelError>) -> bool {
    match read {
        VersionRead::Version(_) => false,
        VersionRead::NotAnObject => r matches Err(ModelError::Parse { source_name, message })
            && source_name@ == migration_input() && message@ == not_an_object(),
        VersionRead::Missing => r matches Err(ModelError::Validation(m)) && m@
            == "schema_version is required"@,
        VersionRead::Unsupported(t) => r matches Err(
            ModelError::UnsupportedSchemaVersion { found, expected },
        ) && found@ == t && expected == SOURCE_SCHEMA_VERSION,
    }
}

/// `r` is the parse error `m` of the migration input.
pub open spec fn parse_failure(m: Seq<char>, r: Result<String, ModelError>) -> bool {
    r matches Err(ModelError::Parse { source_name, message }) && source_name@ == migration_input()
        && message@ == m
}

/// Migrates a raw profile document with the given step table and returns
/// the migrated YAML. Text that is not YAML is a parse error, and a
/// document that declares no usable version fails as [`schema_version_from`]
/// says. A document already at `target_version` is returned unchanged,
/// comments and layout included. Otherwise the steps chosen by
/// [`next_step`] are applied in turn, each one rewriting `schema_version`,
/// until the target is reached, and the final document is written out; see
/// [`chain`] and [`migration_outcome`].
pub fn run_migrations<T: SchemaTransform>(
    source: &str,
    target_version: u32,
    steps: &[MigrationStep<T>],
) -> (r: Result<String, ModelError>)
    ensures
        match yaml_parse(source@) {
            Err(m) => parse_failure(m, r),
            Ok(document) => match spec_read(spec_entry(document)) {
                VersionRead::Version(v) => if v == target_version {
                    r matches Ok(s) && s@ == source@
                } else {
                    migration_outcome(chain(steps@, document, v, target_version), v, target_version, r)
                },
                read => read_failure(read, r),
            },
        },
        r matches Ok(s) ==> exists|d: YamlV|
            spec_read(spec_entry(d)) == VersionRead::Version(target_version) && (yaml_emit(d) == Ok::<
                Seq<char>,
                Seq<char>,
            >(s@) || (s@ == source@ && yaml_parse(source@) == Ok::<YamlV, Seq<char>>(d))),
{
    let document = match parse_yaml(source) {
        Ok(d) => d,
        Err(message) => {
            return Err(ModelError::Parse { source_name: "migration input".to_owned(), message });
        },
    };
    let ghost doc = document.view();
    assert(yaml_parse(source@) == Ok::<YamlV, Seq<char>>(doc));
    let entry = schema_entry(&document);
    let ghost read = spec_read(spec_entry(doc));
    assert(spec_schema_version(entry) == read);
    let current = match schema_version_from(&entry) {
        Ok(v) => v,
        Err(e) => {
            assert(read !is Version);
            assert(read_failure(read, Err::<String, ModelError>(e)));
            return Err(e);
        },
    };
    assert(read == VersionRead::Version(current));
    if current == target_version {
        let text = source.to_owned();
        assert(spec_read(spec_entry(doc)) == VersionRead::Version(target_version) && (yaml_emit(doc) == Ok::<
            Seq<char>,
            Seq<char>,
        >(text@) || (text@ == source@ && yaml_parse(source@) == Ok::<YamlV, Seq<char>>(doc))));
        return Ok(text);
    }
    let r = apply_steps(document, current, target_version, steps);
    proof {
        law_migration_ends_at_the_target(steps@, doc, current, target_version);
        if let Ok(d) = chain(steps@, doc, current, target_version) {
            if r is Ok {
                assert(spec_read(spec_entry(d)) == VersionRead::Version(target_version) && (yaml_emit(d)
                    == Ok::<Seq<char>, Seq<char>>(r->Ok_0@) || (r->Ok_0@ == source@ && yaml_parse(source@)
                    == Ok::<YamlV, Seq<char>>(d))));
            }
        }
    }
    r
}

/// Applies the steps chosen by [`next_step`] to `document`, which declares
/// version `current`, until `target_version` is reached, and writes the
/// result; see [`chain`].
#[verifier::loop_isolation(false)]
fn apply_steps<T: SchemaTransform>(
    document: Yaml,
    current: u32,
    target_version: u32,
    steps: &[MigrationStep<T>],
) -> (r: Result<String, ModelError>)
    ensures
        migration_outcome(chain(steps@, document.view(), current, target_version), current, target_version, r),
{
    let ghost end = chain(steps@, document.view(), current, target_version);
    let count = steps.len();
    let mut document = document;
    let mut version = current;
    loop
        invariant
            chain(steps@, document.view(), version, target_version) == end,
        decreases target_version - version,
    {
        let chosen = next_step(version, target_version, current, steps);
        let i = match chosen {
            Ok(None) => {
                break ;
            },
            Ok(Some(i)) => i,
            Err(e) => {
                proof {
                    if exists|c: int| is_first_step(steps@, version, target_version, c) {
                        let c = choose|c: int| is_first_step(steps@, version, target_version, c);
                        assert(first_step(steps@, version, target_version) == Some(c));
                    }
                }
                return Err(e);
            },
        };
        let ghost c = choose|c: int| is_first_step(steps@, version, target_version, c);
        proof {
            assert(version != target_version);
            assert(first_step(steps@, version, target_version) is Some);
            assert(first_step(steps@, version, target_version) == Some(c));
            assert(is_first_step(steps@, version, target_version, c));
            assert(c < count);
            assert(!(steps@[c].to <= steps@[c].from));
            assert(i as int == c);
        }
        let ghost before = document.view();
        match steps[i].transform.apply(&mut document) {
            Ok(()) => {},
            Err(e) => {
                return Err(e);
            },
        }
        let text = crate::text::decimal(steps[i].to as u64);
        let ghost transformed = document.view();
        if !set_version(&mut document, &text) {
            return Err(
                ModelError::Parse {
                    source_name: "migration input".to_owned(),
                    message: "document root must be an object".to_owned(),
                },
            );
        }
        assert(document.view() == with_version(transformed, spec_decimal(steps@[c].to as nat)));
        version = steps[i].to;
    }
    assert(version == target_version);
    if !tags_ok(&document) {
        return Err(
            ModelError::Parse {
                source_name: "migration output".to_owned(),
                message: "empty YAML tag is not allowed".to_owned(),
            },
        );
    }
    match yaml_to_string(&document) {
        Ok(text) => Ok(text),
        Err(message) => Err(ModelError::Parse { source_name: "migration output".to_owned(), message }),
    }
}

/// Migrates a raw profile document between schema versions and returns the
/// migrated YAML. A same-version migration returns the source unchanged.
///
/// This build's step table is empty: a migration succeeds exactly where the
/// text is YAML whose document declares the target version, and then gives
/// back the source text unchanged; another declared version has no path.
pub fn migrate_profile(source: &str, target_version: u32) -> (r: Result<String, ModelError>)
    ensures
        match yaml_parse(source@) {
            Err(m) => parse_failure(m, r),
            Ok(document) => match spec_read(spec_entry(document)) {
                VersionRead::Version(v) => if v == target_version {
                    r matches Ok(s) && s@ == source@
                } else {
                    r matches Err(ModelError::Validation(m)) && m@ == no_path_message(v, target_version)
                },
                read => read_failure(read, r),
            },
        },
{
    let steps: Vec<MigrationStep<NoTransform>> = Vec::new();
    let r = run_migrations(source, target_version, steps.as_slice());
    proof {
        assert(steps@.len() == 0);
    }
    r
}

} // verus!
