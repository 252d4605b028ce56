use crate::slot::Slot;
use crate::text::{decimal, push_decimal};
use serde_json::Error as JsonError;
use vstd::prelude::*;

verus! {

#[verifier::external_type_specification]
#[verifier::external_body]
pub struct ExJsonError(JsonError);

pub type Result<T> = std::result::Result<T, Error>;

/// What can go wrong while loading a catalog or searching for a set.
#[derive(Debug)]
pub enum Error {
    /// The catalog is not the JSON that was expected.
    SerdeJson(JsonError),
    /// There is no way at all to fill the slots.
    NoCombinations,
    /// A list of items ends before this slot.
    MissingItem(Slot),
    /// A set breaks a rule on which items go together.
    ValidationError(String),
}

/// Calls `to_string` on a `serde_json::Error`, which writes the error as
/// its `Display` does. Nothing is claimed of the text.
#[verifier::external_body]
fn json_error_text(error: &JsonError) -> (text: String) {
    error.to_string()
}

impl Error {
    /// The error as text, for the errors of a search.
    pub open spec fn text(self) -> Seq<char> {
        match self {
            Error::NoCombinations => "no combination of items fills the slots"@,
            Error::MissingItem(slot) => "no item for slot "@ + slot.location.label_text() + " "@
                + decimal(slot.instance + 1),
            Error::ValidationError(message) => "invalid item set: "@ + message@,
            Error::SerdeJson(_) => Seq::empty(),
        }
    }

    /// The error as text. For a slot, the text names the location and
    /// counts its slots from 1. What is said of a catalog that could not be
    /// read is left to the reader of the catalog.
    pub fn to_string(&self) -> (text: String)
        ensures
            !(self is SerdeJson) ==> text@ == self.text(),
    {
        match self {
            Error::SerdeJson(error) => json_error_text(error),
            Error::NoCombinations => String::from_str("no combination of items fills the slots"),
            Error::MissingItem(slot) => {
                let mut text = String::from_str("no item for slot ");
                text.append(slot.location.label());
                text.append(" ");
                push_decimal(&mut text, slot.instance as i32 + 1);
                text
            },
            Error::ValidationError(message) => {
                let mut text = String::from_str("invalid item set: ");
                text.append(message.as_str());
                text
            },
        }
    }
}

impl From<JsonError> for Error {
    fn from(error: JsonError) -> (e: Error)
    {
        Error::SerdeJson(error)
    }
}

impl vstd::std_specs::convert::FromSpecImpl<JsonError> for Error {
    open spec fn obeys_from_spec() -> bool {
        true
    }

    open spec fn from_spec(error: JsonError) -> Error {
        Error::SerdeJson(error)
    }
}

} // verus!
