//! Resolution and validation in one step.

use vstd::prelude::*;
use crate::laws::lemma_plain_text;
use crate::model::{expand_path, Failure};
use crate::paths::{parent_of, path_join, path_parent, resolve_shader_path};
use crate::resolver::{splice_file, ResolveError};
use crate::sources::{SourceSet, VisitedSet};
use crate::text::{no_directive_between, replace_module_separators, replace_separators};
use crate::validator::{shader_fault, validate, Diagnostic};

verus! {

/// Why no shader came out.
#[derive(Debug, PartialEq, Eq)]
pub enum IncludeError {
    /// The files could not be merged.
    Unresolved(ResolveError),
    /// The merged text is no valid shader.
    Rejected(Diagnostic),
}

/// The merged source of the shader asked for as `file_path` from the
/// directory `call_site`. The shader is the file under the path that the
/// two join to; where no such file is known, that path is reported missing.
/// The directives of the shader are taken from the parent directory of that
/// path.
pub open spec fn shader_source(
    files: Map<Seq<char>, Seq<char>>,
    call_site: Seq<char>,
    file_path: Seq<char>,
) -> Result<Seq<char>, Failure> {
    let path = path_join(call_site, file_path);
    if !files.dom().contains(path) {
        Err(Failure::IncludeNotFound { path })
    } else {
        match path_parent(path) {
            None => Err(Failure::InvalidIncludePath { argument: file_path }),
            Some(directory) => match expand_path(files, directory, path, Set::empty()) {
                Ok(expansion) => Ok(replace_separators(expansion.text)),
                Err(failure) => Err(failure),
            },
        }
    }
}

/// A shader that is not known is reported missing under the path that the
/// call site and the path asked for join to.
pub proof fn law_missing_shader(
    files: Map<Seq<char>, Seq<char>>,
    call_site: Seq<char>,
    file_path: Seq<char>,
)
    requires
        !files.dom().contains(path_join(call_site, file_path)),
    ensures
        shader_source(files, call_site, file_path) == Err::<Seq<char>, Failure>(
            Failure::IncludeNotFound { path: path_join(call_site, file_path) },
        ),
{
}

/// A known shader without directives comes out as its own text, with each
/// `::` replaced by `_`, wherever its path has a parent directory.
pub proof fn law_plain_shader(
    files: Map<Seq<char>, Seq<char>>,
    call_site: Seq<char>,
    file_path: Seq<char>,
)
    requires
        files.dom().finite(),
        files.dom().contains(path_join(call_site, file_path)),
        path_parent(path_join(call_site, file_path)) is Some,
        no_directive_between(
            files[path_join(call_site, file_path)],
            0,
            files[path_join(call_site, file_path)].len() as int,
        ),
    ensures
        shader_source(files, call_site, file_path) == Ok::<Seq<char>, Failure>(
            replace_separators(files[path_join(call_site, file_path)]),
        ),
{
    let path = path_join(call_site, file_path);
    lemma_plain_text(files, path_parent(path)->Some_0, files[path], Set::empty().insert(path));
}

/// Merges the shader asked for as `file_path` from the directory
/// `call_site` with the files it pulls in, and validates the merged text.
/// A diagnostic names the shader as it was asked for.
pub fn include_wgsl(sources: &SourceSet, call_site: &str, file_path: &str) -> (shader: Result<
    String,
    IncludeError,
>)
    ensures
        match shader_source(sources@, call_site@, file_path@) {
            Err(failure) => shader matches Err(IncludeError::Unresolved(error)) && error@
                == failure,
            Ok(text) => match shader_fault(text) {
                None => shader matches Ok(accepted) && accepted@ == text,
                Some(message) => {
                    &&& shader matches Err(IncludeError::Rejected(diagnostic))
                    &&& diagnostic.path@ == file_path@
                    &&& diagnostic.message@ == message
                },
            },
        },
{
    let path = resolve_shader_path(call_site, file_path);
    if !sources.contains(path.as_str()) {
        return Err(IncludeError::Unresolved(ResolveError::IncludeNotFound { path }));
    }
    match parent_of(path.as_str()) {
        None => Err(
            IncludeError::Unresolved(
                ResolveError::InvalidIncludePath { argument: file_path.to_owned() },
            ),
        ),
        Some(directory) => {
            let mut includes = VisitedSet::new();
            match splice_file(sources, directory.as_str(), path, &mut includes) {
                Err(error) => Err(IncludeError::Unresolved(error)),
                Ok(expanded) => {
                    let merged = replace_module_separators(expanded.as_str());
                    match validate(file_path, merged) {
                        Ok(accepted) => Ok(accepted),
                        Err(diagnostic) => Err(IncludeError::Rejected(diagnostic)),
                    }
                },
            }
        },
    }
}

} // verus!
