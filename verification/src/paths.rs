//! File paths, through `std::path`.  Paths are handled as text; what the
//! path operations make of a text is named below and left to `std`.

use vstd::prelude::*;

verus! {

/// What `Path::join` makes of a base and a relative part.
pub uninterp spec fn joined_path(base: Seq<char>, rel: Seq<char>) -> Seq<char>;

/// What `Path::parent` makes of a path.
pub uninterp spec fn parent_path(p: Seq<char>) -> Option<Seq<char>>;

/// What `Path::file_name` makes of a path (when it is valid text).
pub uninterp spec fn file_name_of(p: Seq<char>) -> Option<Seq<char>>;

/// What `Path::extension` makes of a path (when it is valid text).
pub uninterp spec fn extension_of(p: Seq<char>) -> Option<Seq<char>>;

/// `Path::new(base).join(rel)` as text.  The contract claims only that the
/// result is a function of the two texts (named `joined_path`).
#[verifier::external_body]
pub(crate) fn path_join(base: &str, rel: &str) -> (r: String)
    ensures
        r@ == joined_path(base@, rel@),
{
    std::path::Path::new(base).join(rel).to_string_lossy().into_owned()
}

/// `Path::new(p).parent()` as text.  The contract claims that the result is
/// a function of the text (named `parent_path`) and that a parent is
/// shorter than the path: `Path::parent` gives the path without its final
/// component, a leading part of the same text.
#[verifier::external_body]
pub(crate) fn path_parent(p: &str) -> (r: Option<String>)
    ensures
        match r {
            Some(q) => parent_path(p@) == Some(q@) && q@.len() < p@.len(),
            None => parent_path(p@) is None,
        },
{
    std::path::Path::new(p).parent().map(|q| q.to_string_lossy().into_owned())
}

/// `Path::new(p).file_name()` as text.  The contract claims only that the
/// result is a function of the text (named `file_name_of`).
#[verifier::external_body]
pub(crate) fn path_file_name(p: &str) -> (r: Option<String>)
    ensures
        match r {
            Some(q) => file_name_of(p@) == Some(q@),
            None => file_name_of(p@) is None,
        },
{
    std::path::Path::new(p).file_name().and_then(|f| f.to_str()).map(|f| f.to_string())
}

/// `Path::new(p).extension()` as text.  The contract claims only that the
/// result is a function of the text (named `extension_of`).
#[verifier::external_body]
pub(crate) fn path_extension(p: &str) -> (r: Option<String>)
    ensures
        match r {
            Some(q) => extension_of(p@) == Some(q@),
            None => extension_of(p@) is None,
        },
{
    std::path::Path::new(p).extension().and_then(|f| f.to_str()).map(|f| f.to_string())
}

/// The directory of a path: its parent, or the empty text when it has none.
pub open spec fn dir_of(p: Seq<char>) -> Seq<char> {
    match parent_path(p) {
        Some(d) => d,
        None => Seq::empty(),
    }
}

pub fn directory_of(p: &str) -> (r: String)
    ensures
        r@ == dir_of(p@),
{
    match path_parent(p) {
        Some(d) => d,
        None => String::new(),
    }
}

} // verus!
