//! What the library asks of `std::path`: the directory a path sits in,
//! the last component of a path, and the key two paths share exactly
//! when `std::path` calls them equal — by components, so `/a//b/`,
//! `/a/./b` and `/a/b` are one path, and on Windows `\` separates as
//! `/` does. The answers are std's; the library only names them.

use vstd::prelude::*;

verus! {

/// What `std::path::Path::parent` makes of a path: the path without its
/// last component, `None` for a root or the empty path.
pub uninterp spec fn path_parent(path: Seq<char>) -> Option<Seq<char>>;

/// The directory a path sits in, as `Path::parent` gives it.
///
/// Calls `std::path::Path::parent`; the contract claims only that the
/// result is a function of the path (named [`path_parent`]). Which
/// directory that is — separators, `.` and `..` — is left unsaid.
#[verifier::external_body]
pub(crate) fn parent_of(path: &str) -> (parent: Option<String>)
    ensures
        match parent {
            Some(dir) => path_parent(path@) == Some(dir@),
            None => path_parent(path@) is None,
        },
{
    std::path::Path::new(path).parent().map(|dir| dir.to_string_lossy().into_owned())
}

/// What `std::path::Path::file_name` makes of a path: its last
/// component, `None` when that is `..` or there is none.
pub uninterp spec fn path_file_name(path: Seq<char>) -> Option<Seq<char>>;

/// The last component of a path, as `Path::file_name` gives it.
///
/// Calls `std::path::Path::file_name`; the contract claims only that
/// the result is a function of the path (named [`path_file_name`]).
#[verifier::external_body]
pub(crate) fn file_name_of(path: &str) -> (name: Option<String>)
    ensures
        match name {
            Some(n) => path_file_name(path@) == Some(n@),
            None => path_file_name(path@) is None,
        },
{
    std::path::Path::new(path).file_name().map(|name| name.to_string_lossy().into_owned())
}

/// A path spelled by its components, as `Path::components` splits it:
/// two paths `std::path` calls equal have the same key.
pub uninterp spec fn path_key(path: Seq<char>) -> Seq<char>;

/// The key of a path (see [`path_key`]).
///
/// Calls `std::path::Path::components` and collects the components
/// back into a path; the contract claims only that the key is a
/// function of the path. That different component lists never share a
/// key is left unsaid.
#[verifier::external_body]
pub(crate) fn key_of(path: &str) -> (key: String)
    ensures
        key@ == path_key(path@),
{
    std::path::Path::new(path).components().collect::<std::path::PathBuf>().to_string_lossy().into_owned()
}

} // verus!
