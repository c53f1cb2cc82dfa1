//! The resolver: merges a shader file and the files it pulls in, directly or
//! through others, into one text.

use vstd::prelude::*;
use vstd::string::StringExecFns;
use crate::model::{
    expand_directive, expand_file, expand_path, expand_text, lemma_failure_spreads,
    lemma_literal_run, lemma_unvisited_insert, lemma_unvisited_union, merged_source, unvisited,
    Expansion, Failure,
};
use crate::paths::{locate_include, resolve_shader_path};
use crate::sources::{SourceSet, VisitedSet};
use crate::text::{
    chars_of, directive_positions, find_line_end, forward_slashes, lemma_line_end_from,
    lists_directives, no_directive_between, replace_module_separators, with_forward_slashes,
    ARGUMENT_OFFSET,
};

verus! {

/// Why a resolution failed. Every failure ends the whole resolution.
#[derive(Debug, PartialEq, Eq)]
pub enum ResolveError {
    /// No file is known under the canonical path `path`.
    IncludeNotFound { path: String },
    /// No line end follows a directive.
    UnterminatedDirective,
    /// A line ends right behind the keyword of a directive.
    MissingArgument,
    /// The argument of a directive has no file name, or leads to no
    /// directory.
    InvalidIncludePath { argument: String },
}

impl View for ResolveError {
    type V = Failure;

    open spec fn view(&self) -> Failure {
        match self {
            ResolveError::IncludeNotFound { path } => Failure::IncludeNotFound { path: path@ },
            ResolveError::UnterminatedDirective => Failure::UnterminatedDirective,
            ResolveError::MissingArgument => Failure::MissingArgument,
            ResolveError::InvalidIncludePath { argument } => Failure::InvalidIncludePath {
                argument: argument@,
            },
        }
    }
}

/// The text that reports `failure`.
pub open spec fn failure_message(failure: Failure) -> Seq<char> {
    match failure {
        Failure::IncludeNotFound { path } => "Failed to include shader \""@ + forward_slashes(path)
            + "\"."@,
        Failure::UnterminatedDirective => "Failed to include shader: no line end follows a directive."@,
        Failure::MissingArgument => "Failed to include shader: a directive has no argument."@,
        Failure::InvalidIncludePath { argument } => "Failed to include shader: no file name in \""@
            + argument + "\"."@,
    }
}

impl ResolveError {
    /// The text that reports this failure. A path is shown with forward
    /// slashes only.
    pub fn message(&self) -> (shown: String)
        ensures
            shown@ == failure_message(self@),
    {
        match self {
            ResolveError::IncludeNotFound { path } => {
                let mut shown = "Failed to include shader \"".to_owned();
                let path_shown = with_forward_slashes(path.as_str());
                shown.append(path_shown.as_str());
                shown.append("\".");
                shown
            },
            ResolveError::UnterminatedDirective => {
                "Failed to include shader: no line end follows a directive.".to_owned()
            },
            ResolveError::MissingArgument => {
                "Failed to include shader: a directive has no argument.".to_owned()
            },
            ResolveError::InvalidIncludePath { argument } => {
                let mut shown = "Failed to include shader: no file name in \"".to_owned();
                shown.append(argument.as_str());
                shown.append("\".");
                shown
            },
        }
    }
}

/// What an executable resolution must hand back, and leave on record, to
/// agree with its model `expected`: on success the model's text, with the
/// record grown by the files the model expanded; on failure the model's
/// failure, with nothing taken off the record.
pub open spec fn agrees(
    merged: Result<String, ResolveError>,
    expected: Result<Expansion, Failure>,
    before: Set<Seq<char>>,
    after: Set<Seq<char>>,
) -> bool {
    match expected {
        Ok(expansion) => {
            &&& merged matches Ok(text)
            &&& text@ == expansion.text
            &&& after == before.union(expansion.added)
        },
        Err(failure) => {
            &&& merged matches Err(error)
            &&& error@ == failure
            &&& before.subset_of(after)
        },
    }
}

/// Expands the file `name` of the directory `call_site`, unless `includes`
/// holds it already: then the result is empty. Otherwise the file goes on
/// record and each directive in its text, from the last to the first, gives
/// way to the expansion of the file it names.
pub fn parse_shader_includes_recursive(
    sources: &SourceSet,
    call_site: &str,
    name: &str,
    includes: &mut VisitedSet,
) -> (merged: Result<String, ResolveError>)
    ensures
        agrees(
            merged,
            expand_file(sources@, call_site@, name@, old(includes)@),
            old(includes)@,
            final(includes)@,
        ),
    decreases unvisited(sources@, old(includes)@), 1nat, 0nat,
{
    proof {
        sources.lemma_finite();
    }
    let file_path = resolve_shader_path(call_site, name);
    splice_file(sources, call_site, file_path, includes)
}

/// Expands the file under the canonical path `file_path`, which lies in the
/// directory `call_site`, unless `includes` holds the path already.
pub fn splice_file(
    sources: &SourceSet,
    call_site: &str,
    file_path: String,
    includes: &mut VisitedSet,
) -> (merged: Result<String, ResolveError>)
    ensures
        agrees(
            merged,
            expand_path(sources@, call_site@, file_path@, old(includes)@),
            old(includes)@,
            final(includes)@,
        ),
    decreases unvisited(sources@, old(includes)@), 0nat, 0nat,
{
    proof {
        sources.lemma_finite();
    }
    if includes.contains(file_path.as_str()) {
        assert(includes@.union(Set::empty()) =~= includes@);
        return Ok(String::new());
    }
    match sources.get(file_path.as_str()) {
        None => Err(ResolveError::IncludeNotFound { path: file_path }),
        Some(contents) => {
            proof {
                lemma_unvisited_insert(sources@, includes@, file_path@);
            }
            includes.insert(file_path);
            let merged = splice_includes(sources, call_site, contents.as_str(), includes);
            proof {
                let path = file_path@;
                match expand_text(sources@, call_site@, contents@, 0, old(includes)@.insert(path)) {
                    Ok(inner) => {
                        assert(old(includes)@.insert(path).union(inner.added) =~= old(
                            includes,
                        )@.union(inner.added.insert(path)));
                    },
                    Err(_) => {},
                }
            }
            merged
        },
    }
}

/// Expands the directives of `contents`, the text of a file in the directory
/// `call_site`, from the last one to the first.
pub fn splice_includes(
    sources: &SourceSet,
    call_site: &str,
    contents: &str,
    includes: &mut VisitedSet,
) -> (spliced: Result<String, ResolveError>)
    ensures
        agrees(
            spliced,
            expand_text(sources@, call_site@, contents@, 0, old(includes)@),
            old(includes)@,
            final(includes)@,
        ),
    decreases unvisited(sources@, old(includes)@), 3nat, 0nat,
{
    let chars = chars_of(contents);
    let positions = directive_positions(&chars);
    let n: usize = chars.len();
    let ghost before = includes@;
    let ghost mut added: Set<Seq<char>> = Set::empty();
    let mut tail = String::new();
    let mut boundary: usize = n;
    let mut k: usize = positions.len();
    proof {
        sources.lemma_finite();
    }
    while k > 0
        invariant
            sources@.dom().finite(),
            chars@ == contents@,
            n == chars.len(),
            k <= positions.len(),
            boundary <= n,
            before == old(includes)@,
            lists_directives(contents@, positions@),
            forall|j: int| 0 <= j < k ==> #[trigger] positions[j] < boundary,
            forall|j: int| k <= j < positions.len() ==> #[trigger] positions[j] >= boundary,
            includes@ == before.union(added),
            expand_text(sources@, call_site@, contents@, boundary as int, before) == Ok::<
                Expansion,
                Failure,
            >(Expansion { text: tail@, added }),
        decreases k,
    {
        k -= 1;
        let p: usize = positions[k];
        let mut buffer = contents.substring_char(p, boundary).to_owned();
        buffer.append(tail.as_str());
        proof {
            assert(no_directive_between(contents@, p + 1, boundary as int));
            lemma_literal_run(sources@, call_site@, contents@, p + 1, boundary as int, before);
            assert(buffer@ =~= seq![contents@[p as int]] + (contents@.subrange(
                p + 1,
                boundary as int,
            ) + tail@));
            lemma_unvisited_union(sources@, before, added);
        }
        let ghost here = expand_directive(sources@, call_site@, buffer@, before.union(added));
        match splice_directive(sources, call_site, buffer.as_str(), includes) {
            Err(error) => {
                proof {
                    lemma_failure_spreads(sources@, call_site@, contents@, 0, p as int, before);
                }
                return Err(error);
            },
            Ok(spliced) => {
                proof {
                    added = added.union(here->Ok_0.added);
                }
                tail = spliced;
                boundary = p;
            },
        }
    }
    let mut spliced = contents.substring_char(0, boundary).to_owned();
    spliced.append(tail.as_str());
    proof {
        assert(no_directive_between(contents@, 0, boundary as int));
        lemma_literal_run(sources@, call_site@, contents@, 0, boundary as int, before);
    }
    Ok(spliced)
}

/// Expands the directive at the start of `buffer`: the file that its
/// argument names, seen from `call_site`, takes the place of everything
/// before the first line end.
pub fn splice_directive(
    sources: &SourceSet,
    call_site: &str,
    buffer: &str,
    includes: &mut VisitedSet,
) -> (spliced: Result<String, ResolveError>)
    ensures
        agrees(
            spliced,
            expand_directive(sources@, call_site@, buffer@, old(includes)@),
            old(includes)@,
            final(includes)@,
        ),
    decreases unvisited(sources@, old(includes)@), 2nat, 0nat,
{
    proof {
        sources.lemma_finite();
        lemma_line_end_from(buffer@, 0);
    }
    match find_line_end(buffer) {
        None => Err(ResolveError::UnterminatedDirective),
        Some(end) => {
            if end < ARGUMENT_OFFSET {
                return Err(ResolveError::MissingArgument);
            }
            let argument = buffer.substring_char(ARGUMENT_OFFSET, end);
            match locate_include(call_site, argument) {
                None => Err(ResolveError::InvalidIncludePath { argument: argument.to_owned() }),
                Some(target) => {
                    let (directory, leaf) = target;
                    match parse_shader_includes_recursive(
                        sources,
                        directory.as_str(),
                        leaf.as_str(),
                        includes,
                    ) {
                        Err(error) => Err(error),
                        Ok(included) => {
                            let len: usize = buffer.unicode_len();
                            let mut spliced = included;
                            spliced.append(buffer.substring_char(end, len));
                            Ok(spliced)
                        },
                    }
                },
            }
        },
    }
}

/// Merges the shader `name` of the directory `call_site` with every file it
/// pulls in, each at most once, and replaces every `::` of the merged text
/// by `_`.
pub fn parse_shader_includes(sources: &SourceSet, call_site: &str, name: &str) -> (merged: Result<
    String,
    ResolveError,
>)
    ensures
        match merged_source(sources@, call_site@, name@) {
            Ok(text) => merged matches Ok(m) && m@ == text,
            Err(failure) => merged matches Err(error) && error@ == failure,
        },
{
    let mut includes = VisitedSet::new();
    match parse_shader_includes_recursive(sources, call_site, name, &mut includes) {
        Ok(expanded) => Ok(replace_module_separators(expanded.as_str())),
        Err(error) => Err(error),
    }
}

} // verus!
