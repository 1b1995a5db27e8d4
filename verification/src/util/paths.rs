//! Paths, as the platform reads them.

use std::path::Path;
use vstd::prelude::*;

verus! {

/// What `Path::is_absolute` says of a path.
pub uninterp spec fn path_is_absolute(path: Seq<char>) -> bool;

/// What `Path::parent` yields for a path.
pub uninterp spec fn path_parent(path: Seq<char>) -> Option<Seq<char>>;

/// What `Path::strip_prefix` yields for a path and a prefix; None where the
/// path does not begin with the prefix.
pub uninterp spec fn path_without_prefix(path: Seq<char>, prefix: Seq<char>) -> Option<Seq<char>>;

/// What `Path::join` yields for a base and a path.
pub uninterp spec fn path_joined(base: Seq<char>, path: Seq<char>) -> Seq<char>;

/// The path `b` as seen from the file `a`: `b` itself where it is absolute;
/// else `b`, without a `./` at its start, joined to the directory of `a`.
pub open spec fn pretty_joined(a: Seq<char>, b: Seq<char>) -> Seq<char> {
    if path_is_absolute(b) {
        b
    } else {
        path_joined(
            path_parent(a).unwrap(),
            match path_without_prefix(b, seq!['.', '/']) {
                Some(rest) => rest,
                None => b,
            },
        )
    }
}

/// `b` is absolute, or `a` has a directory to join it to.
pub open spec fn can_be_joined(a: Seq<char>, b: Seq<char>) -> bool {
    path_is_absolute(b) || path_parent(a).is_some()
}

/// `Path::is_absolute`: whether the path is absolute.
#[verifier::external_body]
fn is_absolute(path: &str) -> (absolute: bool)
    ensures
        absolute == path_is_absolute(path@),
{
    Path::new(path).is_absolute()
}

/// `Path::parent`: the path without its last component, if it has one.
#[verifier::external_body]
fn parent(path: &str) -> (directory: Option<String>)
    ensures
        match directory {
            Some(d) => path_parent(path@) == Some(d@),
            None => path_parent(path@).is_none(),
        },
{
    match Path::new(path).parent() {
        Some(directory) => Some(directory.to_string_lossy().into_owned()),
        None => None,
    }
}

/// `Path::strip_prefix`: the path without the prefix, if it begins with it.
#[verifier::external_body]
fn strip_prefix(path: &str, prefix: &str) -> (rest: Option<String>)
    ensures
        match rest {
            Some(r) => path_without_prefix(path@, prefix@) == Some(r@),
            None => path_without_prefix(path@, prefix@).is_none(),
        },
{
    match Path::new(path).strip_prefix(prefix) {
        Ok(rest) => Some(rest.to_string_lossy().into_owned()),
        Err(_) => None,
    }
}

/// `Path::join`: the path joined to the base.
#[verifier::external_body]
fn join(base: &str, path: &str) -> (whole: String)
    ensures
        whole@ == path_joined(base@, path@),
{
    Path::new(base).join(path).to_string_lossy().into_owned()
}

/// Joins two paths and keeps the result tidy. Where `b` is absolute the
/// result is `b`. Else it is `b`, without a `./` at its start, joined to the
/// directory of `a`.
pub fn join_path_pretty(a: &str, b: &str) -> (whole: String)
    requires
        can_be_joined(a@, b@),
    ensures
        whole@ == pretty_joined(a@, b@),
{
    if is_absolute(b) {
        b.to_owned()
    } else {
        let directory = parent(a).unwrap();
        proof {
            reveal_strlit("./");
            assert("./"@ =~= seq!['.', '/']);
        }
        match strip_prefix(b, "./") {
            Some(rest) => join(directory.as_str(), rest.as_str()),
            None => join(directory.as_str(), b),
        }
    }
}

/// `join_path_pretty` where it can be had: None where `b` is relative and
/// `a` has no directory to join it to.
pub fn try_join_path_pretty(a: &str, b: &str) -> (whole: Option<String>)
    ensures
        whole.is_some() == can_be_joined(a@, b@),
        whole matches Some(w) ==> w@ == pretty_joined(a@, b@),
{
    if is_absolute(b) || parent(a).is_some() {
        Some(join_path_pretty(a, b))
    } else {
        None
    }
}

} // verus!
