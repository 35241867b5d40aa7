//! The few calls into outside code that the library relies on. Each wrapper's
//! contract states what the outside function's source shows; nothing else in
//! the crate is taken on trust.

use vstd::prelude::*;

verus! {

/// The character sequence that `str::to_lowercase` produces for `s`.
pub uninterp spec fn lower_of(s: Seq<char>) -> Seq<char>;

/// Relies on `str::to_lowercase`: the result depends on the characters alone,
/// and an empty input yields an empty result.
#[verifier::external_body]
pub(crate) fn lowercase(s: &str) -> (r: String)
    ensures
        r@ == lower_of(s@),
        s@.len() == 0 ==> r@.len() == 0,
{
    s.to_lowercase()
}

/// The MIME essence string that `mime_guess` assigns to a file name.
pub uninterp spec fn mime_of(s: Seq<char>) -> Seq<char>;

/// Relies on `mime_guess::from_path`, `MimeGuess::first_or_octet_stream` and
/// `Mime::essence_str`: a fixed table lookup on the name's extension, falling
/// back to `application/octet-stream`, so the result depends on the name alone.
#[verifier::external_body]
pub(crate) fn guess_mime(name: &str) -> (r: String)
    ensures
        r@ == mime_of(name@),
{
    mime_guess::from_path(name).first_or_octet_stream().essence_str().to_string()
}

/// Relies on `uuid::Uuid::new_v4` and its `Display` impl: a fresh random
/// identifier always renders as 36 characters of lowercase hex and hyphens.
#[verifier::external_body]
pub(crate) fn fresh_token() -> (r: String)
    ensures
        r@.len() == 36,
        forall|i: int|
            0 <= i < r@.len() ==> (r@[i] == '-' || ('0' as u32) <= (r@[i] as u32) <= ('9' as u32)
                || ('a' as u32) <= (r@[i] as u32) <= ('f' as u32)),
{
    uuid::Uuid::new_v4().to_string()
}

} // verus!
