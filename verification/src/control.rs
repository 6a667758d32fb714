//! Flat TOML documents of texts and numbers, as the control interface of a server
//! takes them.
use serde::ser::SerializeMap;
use serde::Serializer;
use vstd::prelude::*;

use crate::tree::{toml_document, unsigned_of, TreeModel};

verus! {

/// A value of a flat document.
pub enum Scalar {
    Text(String),
    Number(u64),
}

/// The model of [`Scalar`].
pub enum ScalarModel {
    Text(Seq<char>),
    Number(u64),
}

impl Scalar {
    pub open spec fn view(&self) -> ScalarModel {
        match self {
            Scalar::Text(text) => ScalarModel::Text(text@),
            Scalar::Number(number) => ScalarModel::Number(*number),
        }
    }
}

/// The models of fields.
pub open spec fn field_models(fields: Seq<(String, Scalar)>) -> Seq<(Seq<char>, ScalarModel)> {
    fields.map_values(|field: (String, Scalar)| (field.0@, field.1@))
}

/// The TOML text of fields, or the message with which they are refused.
pub uninterp spec fn toml_fields_text(fields: Seq<(Seq<char>, ScalarModel)>) -> Result<Seq<char>, Seq<char>>;

/// Whether no key stands twice.
pub open spec fn distinct_fields(fields: Seq<(Seq<char>, ScalarModel)>) -> bool {
    forall|i: int, j: int| 0 <= i < j < fields.len() ==> #[trigger] fields[i].0 != #[trigger] fields[j].0
}

/// Whether a parsed value says the value of a field.
pub open spec fn says_scalar(tree: TreeModel, value: ScalarModel) -> bool {
    match value {
        ScalarModel::Text(text) => tree == TreeModel::Text(text),
        ScalarModel::Number(number) => tree matches TreeModel::Integer(digits, radix) && unsigned_of(
            digits,
            radix as nat,
        ) == Some(number),
    }
}

/// Whether a text says the fields, in their order.
pub open spec fn says_fields(text: Seq<char>, fields: Seq<(Seq<char>, ScalarModel)>) -> bool {
    &&& toml_document(text) matches Ok(trees)
    &&& trees.len() == fields.len()
    &&& forall|i: int|
        0 <= i < fields.len() ==> trees[i].0 == (#[trigger] fields[i]).0 && says_scalar(trees[i].1, fields[i].1)
}

/// A map of texts and numbers handed to `toml::ser::Serializer`, entry by entry.
/// The result depends on the fields alone and is named [`toml_fields_text`]. It is
/// always written, and parsed as it was.
#[verifier::external_body]
pub(crate) fn print_fields(fields: &Vec<(String, Scalar)>) -> (text: Result<String, String>)
    requires
        distinct_fields(field_models(fields@)),
    ensures
        text is Ok,
        (toml_fields_text(field_models(fields@)) == Ok::<Seq<char>, Seq<char>>(text->Ok_0@)),
        says_fields(text->Ok_0@, field_models(fields@)),
{
    let mut output = toml::ser::Buffer::new();
    let mut map = toml::ser::Serializer::new(&mut output).serialize_map(None).map_err(|error| error.to_string())?;
    for (key, value) in fields {
        let written = match value {
            Scalar::Text(text) => map.serialize_entry(key, text),
            Scalar::Number(number) => map.serialize_entry(key, number),
        };
        written.map_err(|error| error.to_string())?;
    }
    map.end().map_err(|error| error.to_string())?;
    Ok(output.to_string())
}

}
