//! The two path operations the library needs from `std::path`, by name.
//!
//! Joining and extension replacement follow the platform's path rules
//! (separators, prefixes), which the standard library owns; the library only
//! decides *what* is joined or replaced.
use vstd::prelude::*;

verus! {

/// What `Path::new(base).join(name)` yields, as text.
pub uninterp spec fn joined_path(base: Seq<char>, name: Seq<char>) -> Seq<char>;

/// What `Path::new(path).with_extension(ext)` yields, as text.
pub uninterp spec fn path_with_extension(path: Seq<char>, ext: Seq<char>) -> Seq<char>;

/// `Path::join`: the result is `joined_path` of the two arguments.
#[verifier::external_body]
pub(crate) fn path_join(base: &str, name: &str) -> (joined: String)
    ensures
        joined@ == joined_path(base@, name@),
{
    std::path::Path::new(base).join(name).to_string_lossy().into_owned()
}

/// No path separator (`/` or `\`) in `s`.
pub open spec fn has_no_separator(s: Seq<char>) -> bool {
    forall|i: int| 0 <= i < s.len() ==> s[i] != '/' && s[i] != '\\'
}

/// `Path::with_extension`: the result is `path_with_extension` of the two
/// arguments. It panics when the extension holds a path separator, so
/// `requires` rules that out.
#[verifier::external_body]
pub(crate) fn with_extension(path: &str, ext: &str) -> (changed: String)
    requires
        has_no_separator(ext@),
    ensures
        changed@ == path_with_extension(path@, ext@),
{
    std::path::Path::new(path).with_extension(ext).to_string_lossy().into_owned()
}

} // verus!
