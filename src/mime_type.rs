//! The MIME type of a path, as guessed from its extension by `mime_guess`.
use vstd::prelude::*;

verus! {

/// The MIME type (`type/subtype`) that `mime_guess` assigns to a path; it
/// depends on the path's extension alone.
pub uninterp spec fn mime_of(path: Seq<char>) -> Seq<char>;

/// Relies on `mime_guess::guess_mime_type`: the MIME type for the extension of
/// `path`, `application/octet-stream` where none is known, written out by the
/// type's `Display`.
#[verifier::external_body]
pub(crate) fn guess_mime(path: &str) -> (r: String)
    ensures
        r@ == mime_of(path@),
{
    mime_guess::guess_mime_type(path).to_string()
}

} // verus!
