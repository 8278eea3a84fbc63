//! Resolving the directory to list: an explicit non-empty path is taken as
//! given; an absent or empty path falls back to a default location, normally
//! the user's home directory and otherwise the filesystem root.

use vstd::prelude::*;

verus! {

/// The view of an optional string.
pub open spec fn opt_str_view(o: Option<String>) -> Option<Seq<char>> {
    match o {
        Some(s) => Some(s@),
        None => None,
    }
}

/// The directory a listing request targets: the given path when it is
/// present and non-empty, the default location otherwise.
pub open spec fn resolved_target(path: Option<Seq<char>>, default: Seq<char>) -> Seq<char> {
    match path {
        Some(p) => if p.len() > 0 {
            p
        } else {
            default
        },
        None => default,
    }
}

/// An absent path and an explicitly empty path resolve to the same target:
/// both fall back to the default location.
pub proof fn lemma_absent_and_empty_resolve_alike(default: Seq<char>)
    ensures
        resolved_target(None, default) == resolved_target(Some(Seq::empty()), default),
{
}

/// Picks the directory to list: the given path when present and non-empty,
/// the supplied default location otherwise.
pub fn resolve_with_default(path: Option<String>, default: String) -> (r: String)
    ensures
        r@ == resolved_target(opt_str_view(path), default@),
{
    match path {
        Some(p) => if p.as_str().is_empty() {
            default
        } else {
            p
        },
        None => default,
    }
}

/// Relies on dirs::home_dir for the invoking user's home directory; the
/// result depends on the environment, so nothing is promised of it.
#[verifier::external_body]
fn home_dir_string() -> (r: Option<String>) {
    dirs::home_dir().map(|p| p.to_string_lossy().into_owned())
}

/// The home-or-root fallback: a determined home directory is taken as it
/// is, and a failed lookup falls back to the filesystem root, never to an
/// error.
pub fn default_from_home(home: Option<String>) -> (r: String)
    ensures
        match home {
            Some(h) => r@ == h@,
            None => r@ == "/"@,
        },
{
    match home {
        Some(h) => h,
        None => "/".to_owned(),
    }
}

/// The default location for a listing: the user's home directory when it
/// can be determined, the filesystem root otherwise. The home value depends
/// on the environment; what is made of it is fixed by `default_from_home`.
pub fn default_location() -> (r: String) {
    default_from_home(home_dir_string())
}

} // verus!
