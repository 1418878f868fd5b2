//! Turning a configuration document's text into a [`DocValue`] tree.
//!
//! The grammar itself is delegated to the `toml` crate. The trusted
//! functions below parse the text into that crate's value tree and copy
//! the tree, node for node, into the library's own [`DocValue`]; the two
//! spec functions name the outcomes, which depend on the text alone.

use vstd::prelude::*;

use crate::doc_model::{DocValue, DocValueV};

verus! {

#[verifier::external_type_specification]
#[verifier::external_body]
pub struct ExTomlValue(toml::Value);

/// What parsing a document's text yields: `None` when the text is not a
/// well-formed document, otherwise the shape of its value tree.
pub uninterp spec fn doc_of(s: Seq<char>) -> Option<DocValueV>;

/// The shape of a parsed value tree: strings, arrays and tables kept as
/// they are, every other kind of node collapsed to `Other`. Table entries
/// keep the order in which the `toml` crate hands them out.
pub uninterp spec fn shape_of(v: toml::Value) -> DocValueV;

/// Relies on toml::from_str: whether the document's text parses, and
/// what it parses to, depend on the text alone.
#[verifier::external_body]
fn parse_value(s: &str) -> (r: Option<toml::Value>)
    ensures
        match r {
            Some(v) => doc_of(s@) == Some(shape_of(v)),
            None => doc_of(s@) is None,
        },
{
    toml::from_str::<toml::Value>(s).ok()
}

/// Relies on toml::Value's variants: strings, arrays and tables are
/// copied one for one (tables in the order the crate's map iterates,
/// which is fixed for a given value), and any other variant becomes
/// `Other`.
#[verifier::external_body]
fn copy_shape(v: &toml::Value) -> (r: DocValue)
    ensures
        r@ == shape_of(*v),
{
    match v {
        toml::Value::String(s) => DocValue::Str(s.clone()),
        toml::Value::Array(items) => DocValue::Arr(items.iter().map(copy_shape).collect()),
        toml::Value::Table(entries) => DocValue::Tbl(
            entries.iter().map(|(k, w)| (k.clone(), copy_shape(w))).collect(),
        ),
        _ => DocValue::Other,
    }
}

/// Parse a document's text into the library's own value tree.
pub fn parse_document(s: &str) -> (r: Option<DocValue>)
    ensures
        match r {
            Some(d) => doc_of(s@) == Some(d@),
            None => doc_of(s@) is None,
        },
{
    match parse_value(s) {
        Some(v) => Some(copy_shape(&v)),
        None => None,
    }
}

} // verus!
