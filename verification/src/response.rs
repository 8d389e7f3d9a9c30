//! Reading the fields of a probe response document.

use vstd::prelude::*;

verus! {

/// A probe response as the server sent it: a `bson::Document`. The library
/// reads it only through [`lookup`].
#[verifier::external_type_specification]
#[verifier::external_body]
pub struct ExDocument(bson::Document);

/// One field of a response, reduced to what discovery reads.
#[derive(Debug)]
pub enum Field {
    /// A boolean.
    Flag(bool),
    /// A string.
    Text(String),
    /// An array; each element is its text if it is a string, `None` if not.
    List(Vec<Option<String>>),
    /// A value of any other type.
    Other,
}

/// The mathematical content of a [`Field`].
pub enum FieldView {
    Flag(bool),
    Text(Seq<char>),
    List(Seq<Option<Seq<char>>>),
    Other,
}

/// The view of one array element.
pub open spec fn item_view(item: Option<String>) -> Option<Seq<char>> {
    match item {
        Some(s) => Some(s@),
        None => None,
    }
}

impl View for Field {
    type V = FieldView;

    open spec fn view(&self) -> FieldView {
        match self {
            Field::Flag(b) => FieldView::Flag(*b),
            Field::Text(s) => FieldView::Text(s@),
            Field::List(items) => FieldView::List(items@.map_values(|it: Option<String>| item_view(it))),
            Field::Other => FieldView::Other,
        }
    }
}

/// The view of a looked-up field: `None` where the key is absent.
pub open spec fn found_view(found: Option<Field>) -> Option<FieldView> {
    match found {
        Some(f) => Some(f@),
        None => None,
    }
}

/// What a document holds: for each key present, its value reduced to a
/// [`FieldView`]. A boolean is a `Flag`, a string a `Text`, an array a `List`
/// with each string element as `Some` of its text and every other element as
/// `None`; a value of any other type is `Other`.
pub uninterp spec fn document_fields(doc: bson::Document) -> Map<Seq<char>, FieldView>;

/// What a document holds under `key`, if anything.
pub open spec fn field_of(doc: bson::Document, key: Seq<char>) -> Option<FieldView> {
    if document_fields(doc).contains_key(key) {
        Some(document_fields(doc)[key])
    } else {
        None
    }
}

/// Looks a key up with `bson::Document::get` and reduces the value found to a
/// [`Field`]. Not proved: that the result is what [`document_fields`] holds
/// under that key, which is how `document_fields` gets its meaning.
#[verifier::external_body]
pub(crate) fn lookup(doc: &bson::Document, key: &str) -> (found: Option<Field>)
    ensures
        found.is_some() == document_fields(*doc).contains_key(key@),
        found.is_some() ==> found.unwrap()@ == document_fields(*doc)[key@],
{
    match doc.get(key) {
        None => None,
        Some(bson::Bson::Boolean(b)) => Some(Field::Flag(*b)),
        Some(bson::Bson::String(s)) => Some(Field::Text(s.clone())),
        Some(bson::Bson::Array(items)) => Some(Field::List(items.iter().map(|e| match e {
            bson::Bson::String(s) => Some(s.clone()),
            _ => None,
        }).collect())),
        Some(_) => Some(Field::Other),
    }
}

} // verus!
