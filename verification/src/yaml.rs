//! Profile YAML read into the JSON value model that layers are merged on.
use crate::error::ModelError;
use crate::json::{Json, JsonV};
use crate::migrate::{parse_yaml, serde_of, tags_nonempty, yaml_of, yaml_parse, Yaml, YamlV};
use vstd::prelude::*;

verus! {

/// The document that `serde_yaml`'s `Value::apply_merge` makes of a
/// document by applying its merge keys (`<<`), or its error message.
pub uninterp spec fn yaml_merged(document: YamlV) -> Result<YamlV, Seq<char>>;

/// The JSON value that `serde_json::to_value` makes of a YAML document, or
/// its error message.
pub uninterp spec fn yaml_json(document: YamlV) -> Result<JsonV, Seq<char>>;

/// Applies the merge keys of a document (`Value::apply_merge`): the
/// merged document, or the error message, which depend on the document
/// alone. Each tag of the result is its `Display` text, which starts with
/// `!`.
#[verifier::external_body]
fn apply_merge(document: &Yaml) -> (r: Result<Yaml, String>)
    requires
        tags_nonempty(document.view()),
    ensures
        match r {
            Ok(d) => yaml_merged(document.view()) == Ok::<YamlV, Seq<char>>(d.view()) && tags_nonempty(
                d.view(),
            ),
            Err(e) => yaml_merged(document.view()) == Err::<YamlV, Seq<char>>(e@),
        },
{
    let mut value = serde_of(document);
    match value.apply_merge() {
        Ok(()) => Ok(yaml_of(&value)),
        Err(error) => Err(error.to_string()),
    }
}

/// The JSON value of a YAML document (`serde_json::to_value`): the value,
/// whose objects have distinct keys held in key order (a
/// `serde_json::Map`, which is a `BTreeMap` without the `preserve_order`
/// feature), or the error message, which depend on the document alone.
#[verifier::external_body]
fn to_json_value(document: &Yaml) -> (r: Result<Json, String>)
    requires
        tags_nonempty(document.view()),
    ensures
        match r {
            Ok(j) => yaml_json(document.view()) == Ok::<JsonV, Seq<char>>(j.view_json()) && j.wf()
                && j.members_in_key_order(),
            Err(e) => yaml_json(document.view()) == Err::<JsonV, Seq<char>>(e@),
        },
{
    match serde_json::to_value(serde_of(document)) {
        Ok(value) => Ok(crate::json::from_serde(&value)),
        Err(error) => Err(error.to_string()),
    }
}

/// `r` is the parse error `message` of the source called `name`.
pub open spec fn parse_error(name: Seq<char>, message: Seq<char>, r: Result<Json, ModelError>) -> bool {
    r matches Err(ModelError::Parse { source_name, message: m }) && source_name@ == name && m@
        == message
}

/// What reading the YAML text `source`, called `name`, as a JSON value
/// gives: the text is parsed, its merge keys are applied, and the document
/// is converted; a failure of the first two is a parse error of `name`,
/// one of the conversion a serialization error.
pub open spec fn yaml_value_outcome(name: Seq<char>, source: Seq<char>, r: Result<Json, ModelError>) -> bool {
    match yaml_parse(source) {
        Err(m) => parse_error(name, m, r),
        Ok(document) => match yaml_merged(document) {
            Err(m) => parse_error(name, m, r),
            Ok(merged) => match yaml_json(merged) {
                Ok(j) => r matches Ok(x) && x.view_json() == j && x.wf() && x.members_in_key_order(),
                Err(m) => r matches Err(ModelError::Serialization(s)) && s@ == m,
            },
        },
    }
}

/// Parses YAML into the JSON value model the merge works on. YAML merge
/// keys (`<<: *anchor`) are applied first: the strict typed sections reject
/// a literal `<<` key, but the free-form maps would keep it as data and
/// drop the merged entries. The members of each object come out in key
/// order, which is the order the merge walks them in.
pub fn parse_yaml_value(name: &str, source: &str) -> (r: Result<Json, ModelError>)
    ensures
        yaml_value_outcome(name@, source@, r),
{
    let document = match parse_yaml(source) {
        Ok(d) => d,
        Err(message) => {
            return Err(ModelError::Parse { source_name: name.to_owned(), message });
        },
    };
    let merged = match apply_merge(&document) {
        Ok(d) => d,
        Err(message) => {
            return Err(ModelError::Parse { source_name: name.to_owned(), message });
        },
    };
    match to_json_value(&merged) {
        Ok(value) => Ok(value),
        Err(message) => Err(ModelError::Serialization(message)),
    }
}

/// An overlay document: a JSON value merged onto a configuration.
#[derive(Debug)]
pub struct RobotOverlay(pub Json);

impl RobotOverlay {
    /// Parses an overlay from YAML text, as the source called `overlay`;
    /// see [`parse_yaml_value`].
    pub fn from_yaml(yaml: &str) -> (r: Result<RobotOverlay, ModelError>)
        ensures
            yaml_value_outcome(
                "overlay"@,
                yaml@,
                match r {
                    Ok(o) => Ok::<Json, ModelError>(o.0),
                    Err(e) => Err::<Json, ModelError>(e),
                },
            ),
    {
        match parse_yaml_value("overlay", yaml) {
            Ok(value) => Ok(RobotOverlay(value)),
            Err(e) => Err(e),
        }
    }
}

} // verus!
