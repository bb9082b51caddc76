//! The YAML text form of an inventory: a mapping from zone keys to lists of
//! record identifiers. Reading and writing the text is serde_yaml's work.
use vstd::prelude::*;
use std::collections::BTreeMap;

verus! {

#[verifier::external_type_specification]
#[verifier::external_body]
pub struct ExYamlError(serde_yaml::Error);

/// A parsed document: absent when the top level is null, else each zone key
/// with its record list, which may be null.
pub type DocView = Option<Seq<(Seq<char>, Option<Seq<Seq<char>>>)>>;

pub open spec fn strings_view(v: Seq<String>) -> Seq<Seq<char>> {
    v.map_values(|s: String| s@)
}

pub open spec fn doc_view(d: Option<Vec<(String, Option<Vec<String>>)>>) -> DocView {
    match d {
        None => None,
        Some(zs) => Some(
            zs@.map_values(
                |z: (String, Option<Vec<String>>)|
                    (
                        z.0@,
                        match z.1 {
                            None => None,
                            Some(rs) => Some(strings_view(rs@)),
                        },
                    ),
            ),
        ),
    }
}

pub open spec fn items_view(v: Seq<(String, Vec<String>)>) -> Seq<(Seq<char>, Seq<Seq<char>>)> {
    v.map_values(|z: (String, Vec<String>)| (z.0@, strings_view(z.1@)))
}

/// What serde_yaml reads from a text as a document of zones: `None` where the
/// text is no such document.
pub uninterp spec fn yaml_doc_of(text: Seq<char>) -> Option<DocView>;

/// The text serde_yaml writes for the zones given, as a mapping.
pub uninterp spec fn yaml_text_of(zones: Seq<(Seq<char>, Seq<Seq<char>>)>) -> Seq<char>;

/// Relies on serde_yaml::from_str, reading an optional mapping from strings to
/// optional lists of strings; the outcome depends on the text alone.
#[verifier::external_body]
pub(crate) fn parse_document(text: &str) -> (r: Result<
    Option<Vec<(String, Option<Vec<String>>)>>,
    serde_yaml::Error,
>)
    ensures
        match yaml_doc_of(text@) {
            None => r is Err,
            Some(d) => r matches Ok(v) && doc_view(v) == d,
        },
{
    match serde_yaml::from_str::<Option<BTreeMap<String, Option<Vec<String>>>>>(text) {
        Ok(Some(m)) => Ok(Some(m.into_iter().collect())),
        Ok(None) => Ok(None),
        Err(e) => Err(e),
    }
}

/// Relies on serde_yaml::to_string, writing the zones as a mapping from zone
/// key to record list; the text depends on the zones alone. It fails only
/// where a `Serialize` impl fails, and those of strings, lists and maps do not.
#[verifier::external_body]
pub(crate) fn write_document(zones: &Vec<(String, Vec<String>)>) -> (r: Result<
    String,
    serde_yaml::Error,
>)
    ensures
        r is Ok,
        r matches Ok(s) ==> s@ == yaml_text_of(items_view(zones@)),
{
    serde_yaml::to_string(&zones.iter().cloned().collect::<BTreeMap<String, Vec<String>>>())
}

} // verus!
