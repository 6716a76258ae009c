//! File paths as strings, with the path arithmetic of `std::path::Path`.
//!
//! Paths here are always valid UTF-8 (they are built from `&str`), so the
//! conversions back to `String` lose nothing.
use vstd::prelude::*;
use crate::todo::opt_view;

verus! {

/// What `Path::parent` gives for a path (on the target platform).
pub uninterp spec fn path_parent(p: Seq<char>) -> Option<Seq<char>>;

/// What `Path::join` gives for a base and a segment (on the target platform).
pub uninterp spec fn path_join(base: Seq<char>, seg: Seq<char>) -> Seq<char>;

/// What `Path::is_absolute` says of a path (on the target platform).
pub uninterp spec fn path_is_absolute(p: Seq<char>) -> bool;

/// What `Path::extension` gives for a path: the part of its file name
/// after the last `.`, if any (on the target platform).
pub uninterp spec fn path_extension(p: Seq<char>) -> Option<Seq<char>>;

/// `Path::parent`: the path without its final component, `None` for a root
/// or an empty path. The result depends on the argument alone.
#[verifier::external_body]
pub(crate) fn parent_of(p: &str) -> (r: Option<String>)
    ensures
        opt_view(r) == path_parent(p@),
{
    match std::path::Path::new(p).parent() {
        Some(q) => Some(q.to_string_lossy().into_owned()),
        None => None,
    }
}

/// `Path::join`: `seg` appended to `base` as a further component (or `seg`
/// itself when it is absolute). The result depends on the arguments alone.
#[verifier::external_body]
pub(crate) fn join(base: &str, seg: &str) -> (r: String)
    ensures
        r@ == path_join(base@, seg@),
{
    std::path::Path::new(base).join(seg).to_string_lossy().into_owned()
}

/// `Path::is_absolute`. The result depends on the argument alone.
#[verifier::external_body]
pub(crate) fn is_absolute(p: &str) -> (r: bool)
    ensures
        r == path_is_absolute(p@),
{
    std::path::Path::new(p).is_absolute()
}

/// `Path::extension`: the file name's extension, `None` where the name has
/// no `.` past its first character. The result depends on the argument
/// alone.
#[verifier::external_body]
pub(crate) fn extension_of(p: &str) -> (r: Option<String>)
    ensures
        opt_view(r) == path_extension(p@),
{
    match std::path::Path::new(p).extension() {
        Some(x) => Some(x.to_string_lossy().into_owned()),
        None => None,
    }
}

} // verus!
