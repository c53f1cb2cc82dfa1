//! File paths, kept as plain strings and taken apart by the standard
//! library's path functions.

use vstd::prelude::*;

verus! {

/// What `std::path::Path::join` makes of `base` and `name`, as text, on the
/// platform this crate is built for.
pub uninterp spec fn path_join(base: Seq<char>, name: Seq<char>) -> Seq<char>;

/// What `std::path::Path::parent` makes of `path`, as text, on the platform
/// this crate is built for.
pub uninterp spec fn path_parent(path: Seq<char>) -> Option<Seq<char>>;

/// What `std::path::Path::file_name` makes of `path`, as text, on the
/// platform this crate is built for.
pub uninterp spec fn path_file_name(path: Seq<char>) -> Option<Seq<char>>;

/// Calls `std::path::Path::join`. Nothing is proved of the result: the
/// contract only gives it the name `path_join`, that is, claims that joining
/// the same two strings always gives the same string.
#[verifier::external_body]
fn join_paths(base: &str, name: &str) -> (joined: String)
    ensures
        joined@ == path_join(base@, name@),
{
    std::path::Path::new(base).join(name).to_string_lossy().into_owned()
}

/// Calls `std::path::Path::parent`. Nothing is proved of the result: the
/// contract only gives it the name `path_parent`, that is, claims that the
/// same string always has the same parent, or always none.
#[verifier::external_body]
pub(crate) fn parent_of(path: &str) -> (parent: Option<String>)
    ensures
        match parent {
            Some(p) => path_parent(path@) == Some(p@),
            None => path_parent(path@) is None,
        },
{
    match std::path::Path::new(path).parent() {
        Some(p) => Some(p.to_string_lossy().into_owned()),
        None => None,
    }
}

/// Calls `std::path::Path::file_name`. Nothing is proved of the result: the
/// contract only gives it the name `path_file_name`, that is, claims that the
/// same string always has the same final component, or always none.
#[verifier::external_body]
fn file_name_of(path: &str) -> (name: Option<String>)
    ensures
        match name {
            Some(n) => path_file_name(path@) == Some(n@),
            None => path_file_name(path@) is None,
        },
{
    match std::path::Path::new(path).file_name() {
        Some(n) => Some(n.to_string_lossy().into_owned()),
        None => None,
    }
}

/// The path of the shader `shader_path` as seen from the directory
/// `call_site`.
pub fn resolve_shader_path(call_site: &str, shader_path: &str) -> (resolved: String)
    ensures
        resolved@ == path_join(call_site@, shader_path@),
{
    join_paths(call_site, shader_path)
}

/// Where the argument of a directive points, seen from the directory `base`:
/// the directory of the file it names, and the file's name within that
/// directory. `None` where the joined path has no parent or the argument has
/// no final component.
pub open spec fn include_target(base: Seq<char>, argument: Seq<char>) -> Option<
    (Seq<char>, Seq<char>),
> {
    match (path_parent(path_join(base, argument)), path_file_name(argument)) {
        (Some(directory), Some(leaf)) => Some((directory, leaf)),
        _ => None,
    }
}

/// Splits what `argument` names, seen from `call_site`, into the directory to
/// search and the file's name.
pub fn locate_include(call_site: &str, argument: &str) -> (target: Option<(String, String)>)
    ensures
        match target {
            Some(t) => include_target(call_site@, argument@) == Some((t.0@, t.1@)),
            None => include_target(call_site@, argument@) is None,
        },
{
    let joined = resolve_shader_path(call_site, argument);
    match parent_of(joined.as_str()) {
        None => None,
        Some(directory) => match file_name_of(argument) {
            None => None,
            Some(leaf) => Some((directory, leaf)),
        },
    }
}

} // verus!
