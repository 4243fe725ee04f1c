//! YAML values, and YAML as JSON.

use crate::json::{json_view, plain, Json, JsonView, Num};
use serde_json::Value as SerdeJson;
use serde_yaml::Value as SerdeYaml;
use vstd::prelude::*;

verus! {

/// A value of `serde_yaml`.
#[verifier::external_type_specification]
#[verifier::external_body]
pub struct ExSerdeYamlValue(SerdeYaml);

/// An error of `serde_yaml`.
#[verifier::external_type_specification]
#[verifier::external_body]
pub struct ExSerdeYamlError(serde_yaml::Error);

/// What a YAML value means.
pub enum YamlView {
    Null,
    Bool(bool),
    Num(Num),
    Str(Seq<char>),
    List(Seq<YamlView>),
    Mapping(Seq<(YamlView, YamlView)>),
    Tagged(Seq<char>, Box<YamlView>),
}

/// What a value of `serde_yaml` holds.
pub uninterp spec fn yaml_view(v: SerdeYaml) -> YamlView;

/// What a YAML text holds, or `None` where it is no YAML.
pub uninterp spec fn yaml_text(s: Seq<char>) -> Option<YamlView>;

/// A YAML value as JSON, or `None` where JSON has no such value.
pub uninterp spec fn yaml_as_json(v: YamlView) -> Option<JsonView>;

/// What a list of values of `serde_yaml` holds.
pub open spec fn yaml_views(v: Seq<SerdeYaml>) -> Seq<YamlView> {
    Seq::new(v.len(), |i: int| yaml_view(v[i]))
}

/// A value without its tags.
pub open spec fn untagged(v: YamlView) -> YamlView
    decreases v,
{
    match v {
        YamlView::Tagged(_, inner) => untagged(*inner),
        _ => v,
    }
}

/// The value of the first entry under a text.
pub open spec fn under(entries: Seq<(YamlView, YamlView)>, key: Seq<char>) -> Option<YamlView>
    decreases entries.len(),
{
    if entries.len() == 0 {
        None
    } else if entries[0].0 == YamlView::Str(key) {
        Some(entries[0].1)
    } else {
        under(entries.drop_first(), key)
    }
}

impl YamlView {
    /// The value under a text, if this is a map that has it.
    pub open spec fn get(self, key: Seq<char>) -> Option<YamlView> {
        match untagged(self) {
            YamlView::Mapping(entries) => under(entries, key),
            _ => None,
        }
    }

    /// The text, if this is one.
    pub open spec fn as_str(self) -> Option<Seq<char>> {
        match untagged(self) {
            YamlView::Str(s) => Some(s),
            _ => None,
        }
    }
}

/// `serde_yaml::from_str` to a value: it succeeds on a YAML text and gives
/// what the text holds.
#[verifier::external_body]
pub(crate) fn yaml_of(s: &str) -> (r: Result<SerdeYaml, serde_yaml::Error>)
    ensures
        r is Ok <==> yaml_text(s@) is Some,
        r is Ok ==> yaml_view(r->Ok_0) == yaml_text(s@)->0,
{
    serde_yaml::from_str(s)
}

/// `serde_yaml::Value::get` by a text: the value under the text, if the value
/// is a map, tagged or not, that has it.
#[verifier::external_body]
pub(crate) fn yaml_get<'a>(v: &'a SerdeYaml, key: &str) -> (r: Option<&'a SerdeYaml>)
    ensures
        r is Some <==> yaml_view(*v).get(key@) is Some,
        r is Some ==> yaml_view(*r->0) == yaml_view(*v).get(key@)->0,
{
    v.get(key)
}

/// `serde_yaml::Value::Sequence`: the items, if the value is a list without a
/// tag.
#[verifier::external_body]
pub(crate) fn yaml_items(v: &SerdeYaml) -> (r: Option<&Vec<SerdeYaml>>)
    ensures
        r is Some <==> yaml_view(*v) is List,
        r is Some ==> yaml_view(*v) == YamlView::List(yaml_views(r->0@)),
{
    match v {
        SerdeYaml::Sequence(s) => Some(s),
        _ => None,
    }
}

/// `serde_yaml::Value::as_str`: the text, if the value is one, tagged or not.
#[verifier::external_body]
pub(crate) fn yaml_str(v: &SerdeYaml) -> (r: Option<&str>)
    ensures
        r is Some <==> yaml_view(*v).as_str() is Some,
        r is Some ==> r->0@ == yaml_view(*v).as_str()->0,
{
    v.as_str()
}

/// `serde_json::to_value` of a YAML value: it succeeds where JSON has such a
/// value, and gives it.
#[verifier::external_body]
fn yaml_to_json(v: SerdeYaml) -> (r: Result<SerdeJson, serde_json::Error>)
    ensures
        r is Ok <==> yaml_as_json(yaml_view(v)) is Some,
        r is Ok ==> json_view(r->Ok_0) == yaml_as_json(yaml_view(v))->0,
{
    serde_json::to_value(v)
}

/// What a YAML text holds as JSON, or `None` where it is no YAML or JSON has no
/// such value.
pub open spec fn yaml_text_as_json(s: Seq<char>) -> Option<JsonView> {
    match yaml_text(s) {
        Some(v) => yaml_as_json(v),
        None => None,
    }
}

/// What a YAML text holds as JSON.
pub fn parse_as_json(s: &str) -> (r: Option<Json>)
    ensures
        r is Some <==> yaml_text_as_json(s@) is Some,
        r is Some ==> r->0@ == yaml_text_as_json(s@)->0,
{
    match yaml_of(s) {
        Err(_) => None,
        Ok(v) => match yaml_to_json(v) {
            Err(_) => None,
            Ok(j) => Some(plain(&j)),
        },
    }
}

} // verus!
