//! Upward navigation: the parent of a filesystem path, read from the path
//! text alone.

use vstd::prelude::*;
use crate::locate::opt_str_view;

verus! {

/// The parent of a path as the platform's lexical path algebra gives it:
/// the path without its final component, or nothing when the path is a root
/// or has no parent.
pub uninterp spec fn parent_of(path: Seq<char>) -> Option<Seq<char>>;

/// Relies on std::path::Path::parent: the path without its final component,
/// computed from the path text alone, absent for a root or an empty path.
#[verifier::external_body]
fn parent_component(path: &String) -> (r: Option<String>)
    ensures
        opt_str_view(r) == parent_of(path@),
{
    std::path::Path::new(path.as_str()).parent().map(|p| p.to_string_lossy().into_owned())
}

/// The parent directory of `path`, or nothing when `path` has none; a pure
/// path computation that never touches the filesystem and never fails.
pub fn get_parent_path(path: String) -> (r: Option<String>)
    ensures
        opt_str_view(r) == parent_of(path@),
{
    parent_component(&path)
}

} // verus!
