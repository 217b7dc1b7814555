//! The text that a file had before the change that is being worked on.

use vstd::prelude::*;
use vstd::utf8::decode_utf8;
use vstd::utf8::valid_utf8;

verus! {

/// What a repository holds at a path in the parent of the working copy, as far
/// as the base text goes.
#[derive(Debug)]
pub enum MaterializedValue {
    /// A file, with its content.
    File(Vec<u8>),
    /// Something that may not be read, with the reason.
    AccessDenied(String),
    /// Nothing, or something that is no file.
    Other,
}

/// Why there is no base text.
#[derive(Debug)]
pub enum BaseTextError {
    /// The content may not be read.
    AccessDenied { reason: String },
}

/// The base text that `value` gives: the text of a file whose content is
/// valid UTF-8. A file of other content has no base text, as has anything
/// that is no file. What may not be read is a failure, with its reason.
pub open spec fn base_text_view(value: MaterializedValue) -> Result<Option<Seq<char>>, Seq<char>> {
    match value {
        MaterializedValue::File(content) => if valid_utf8(content@) {
            Ok(Some(decode_utf8(content@)))
        } else {
            Ok(None)
        },
        MaterializedValue::AccessDenied(reason) => Err(reason@),
        MaterializedValue::Other => Ok(None),
    }
}

/// Calls `String::from_utf8`, which gives the text that `bytes` encode where
/// they are valid UTF-8, and fails otherwise.
#[verifier::external_body]
fn text_from_utf8(bytes: Vec<u8>) -> (text: Option<String>)
    ensures
        match text {
            Some(t) => valid_utf8(bytes@) && t@ == decode_utf8(bytes@),
            None => !valid_utf8(bytes@),
        },
{
    String::from_utf8(bytes).ok()
}

/// Turns what the repository holds at a path into the base text of the file
/// there. No base text, which is the case of a new file, is told apart from an
/// empty one and from a failure.
pub fn base_text_of(value: MaterializedValue) -> (text: Result<Option<String>, BaseTextError>)
    ensures
        match text {
            Ok(Some(found)) => base_text_view(value) == Ok::<Option<Seq<char>>, Seq<char>>(
                Some(found@),
            ),
            Ok(None) => base_text_view(value) == Ok::<Option<Seq<char>>, Seq<char>>(None),
            Err(BaseTextError::AccessDenied { reason }) => base_text_view(value) == Err::<
                Option<Seq<char>>,
                Seq<char>,
            >(reason@),
        },
{
    match value {
        MaterializedValue::File(content) => Ok(text_from_utf8(content)),
        MaterializedValue::AccessDenied(reason) => Err(BaseTextError::AccessDenied { reason }),
        MaterializedValue::Other => Ok(None),
    }
}

} // verus!
