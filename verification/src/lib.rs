//! A text format for data interchange: documents of named properties whose
//! values are scalars, lists and objects, with macros that stand for objects
//! of a fixed set of keys. The crate reads documents from text and writes
//! them back, and proves that what it writes it reads back as the same
//! document.
pub mod convert;
pub mod deserializer;
pub mod document;
pub mod error;
pub mod flags;
pub mod lexer;
pub mod lexer_laws;
pub mod parse_laws;
pub mod roundtrip;
pub mod serializer;
pub mod text;
pub mod token;
pub mod value;

use crate::deserializer::{parse_document, Deserializer};
use crate::document::{AeonDocument, AeonMacro, DocView};
use crate::error::{AeonDeserializeError, AeonSerializeError};
use crate::serializer::{document_text, PrettySerializer};
use crate::value::AeonValue;
use vstd::prelude::*;

verus! {

pub type DeserializeResult<T> = Result<T, AeonDeserializeError>;

pub type SerializeResult<T> = Result<T, AeonSerializeError>;

/// The text that a document serializes to: nothing for a document that
/// nothing was ever added to.
pub open spec fn serialized(doc: DocView) -> Seq<char> {
    if doc.is_empty {
        Seq::empty()
    } else {
        document_text(doc)
    }
}

/// Writes a document as text. The macros come first, then the properties,
/// each in the order of registration. The call stack grows with the depth
/// to which the values are nested.
pub fn serialize(aeon: &AeonDocument) -> (r: SerializeResult<String>)
    ensures
        r matches Ok(text) && text@ == serialized(aeon@),
{
    if aeon.is_empty {
        return Ok(String::new());
    }
    Ok(PrettySerializer::serialize_aeon(aeon))
}

/// Reads a document from text. Any failure aborts the whole: no part of a
/// document is returned. The call stack grows with the depth to which the
/// values are nested.
pub fn deserialize(s: String) -> (r: DeserializeResult<AeonDocument>)
    ensures
        match parse_document(s@, DocView::empty()) {
            Ok(doc) => r matches Ok(d) && d@ == doc && d@.wf(),
            Err(e) => r matches Err(error) && error@ == e,
        },
{
    proof {
        crate::value::lemma_object_wf(DocView::empty().properties);
        crate::parse_laws::law_parsed_wf(s@, DocView::empty());
    }
    let mut deserializer = Deserializer::new(s.as_str());
    deserializer.deserialize()
}

/// A type that can be read from text.
pub trait AeonDeserialize: Sized {
    fn from_aeon(s: String) -> DeserializeResult<Self>;
}

/// A type that can be written as text.
pub trait AeonSerialize {
    fn to_aeon(&self) -> SerializeResult<String>;

    fn to_aeon_value(&self) -> SerializeResult<AeonValue>;

    /// The macros that the type's values are written with; with
    /// `insert_self`, the type's own macro among them.
    fn create_macros(insert_self: bool) -> Vec<AeonMacro>;
}

/// A type that can be made from a value.
pub trait AeonDeserializeProperty: Sized {
    fn from_property(field: AeonValue) -> DeserializeResult<Self>;
}

/// A type that can be turned into a value.
pub trait AeonSerializeProperty {
    fn serialize_property(&self) -> SerializeResult<AeonValue>;

    /// The macros that the type's values are written with; with
    /// `insert_self`, the type's own macro among them.
    fn create_property_macros(insert_self: bool) -> Vec<AeonMacro>;
}

} // verus!
