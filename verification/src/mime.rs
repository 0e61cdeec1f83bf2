//! The content type reported for a file: the type guessed from its name by
//! mime_guess, or a fallback chosen by whether its contents look binary.

use vstd::prelude::*;
use crate::xml_model::opt_chars;

verus! {

/// The text of the MIME type that `mime_guess::guess_mime_type_opt` guesses
/// for a path with these characters (a function of the path's extension alone).
pub uninterp spec fn mime_guess_for(path: Seq<char>) -> Option<Seq<char>>;

/// Calls `mime_guess::guess_mime_type_opt` on the path and renders the guessed
/// type with its `Display`; the outcome is `mime_guess_for` of the path's
/// characters.
#[verifier::external_body]
fn guess_mime_type_opt_text(path: &str) -> (r: Option<String>)
    ensures
        opt_chars(r) == mime_guess_for(path@),
{
    match mime_guess::guess_mime_type_opt(path) {
        Some(mime) => Some(mime.to_string()),
        None => None,
    }
}

/// The MIME type guessed from the file name, if its extension has one.
pub fn guessed_mime_type(path: &str) -> (r: Option<String>)
    ensures
        opt_chars(r) == mime_guess_for(path@),
{
    guess_mime_type_opt_text(path)
}

/// The content type reported for a file: the guessed type, else
/// `application/octet-stream` for binary contents and `text/plain` otherwise.
pub open spec fn content_type_spec(path: Seq<char>, binary: bool) -> Seq<char> {
    match mime_guess_for(path) {
        Some(m) => m,
        None => if binary {
            "application/octet-stream"@
        } else {
            "text/plain"@
        },
    }
}

/// The content type reported for the file at `path`; `binary` tells whether
/// its contents look binary, and is consulted only when no type is guessed.
pub fn content_type(path: &str, binary: bool) -> (r: String)
    ensures
        r@ == content_type_spec(path@, binary),
{
    match guess_mime_type_opt_text(path) {
        Some(m) => m,
        None => if binary {
            "application/octet-stream".to_owned()
        } else {
            "text/plain".to_owned()
        },
    }
}

} // verus!
