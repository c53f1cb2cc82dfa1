//! What resolution computes, as mathematics: the expansion of a file, of a
//! stretch of text, and of one directive.
//!
//! Directives are taken from the last one in a text to the first. Taking one
//! means looking at the text from the directive on, as the directives after
//! it have left it: the argument runs from behind the keyword and one more
//! character to the first line end of that text, and the expansion of the
//! file it names takes the place of everything before that line end.

use vstd::prelude::*;
use crate::paths::{include_target, path_join};
use crate::text::{first_line_end, is_directive_at, no_directive_between, replace_separators};

verus! {

/// Why a resolution fails.
pub enum Failure {
    /// No file is known under the canonical path `path`.
    IncludeNotFound { path: Seq<char> },
    /// No line end follows a directive.
    UnterminatedDirective,
    /// A line ends right behind the keyword of a directive.
    MissingArgument,
    /// The argument of a directive has no file name, or leads to no
    /// directory.
    InvalidIncludePath { argument: Seq<char> },
}

/// The outcome of an expansion: the text it yields and the canonical paths of
/// the files it expanded.
pub struct Expansion {
    pub text: Seq<char>,
    pub added: Set<Seq<char>>,
}

/// The expansion that yields no text and expands no file.
pub open spec fn nothing() -> Expansion {
    Expansion { text: Seq::empty(), added: Set::empty() }
}

/// Number of known files that are not in `visited`.
pub open spec fn unvisited(files: Map<Seq<char>, Seq<char>>, visited: Set<Seq<char>>) -> nat {
    files.dom().difference(visited).len()
}

/// Visiting more files leaves no more files unvisited.
pub proof fn lemma_unvisited_union(
    files: Map<Seq<char>, Seq<char>>,
    visited: Set<Seq<char>>,
    more: Set<Seq<char>>,
)
    requires
        files.dom().finite(),
    ensures
        unvisited(files, visited.union(more)) <= unvisited(files, visited),
{
    vstd::set_lib::lemma_len_subset(
        files.dom().difference(visited.union(more)),
        files.dom().difference(visited),
    );
}

/// Visiting a known file that was not visited leaves fewer files unvisited.
pub proof fn lemma_unvisited_insert(
    files: Map<Seq<char>, Seq<char>>,
    visited: Set<Seq<char>>,
    path: Seq<char>,
)
    requires
        files.dom().finite(),
        files.dom().contains(path),
        !visited.contains(path),
    ensures
        unvisited(files, visited.insert(path)) < unvisited(files, visited),
{
    assert(files.dom().difference(visited.insert(path)) =~= files.dom().difference(visited).remove(
        path,
    ));
}

/// The expansion of the file `name` in the directory `base`, when the files
/// in `visited` have been expanded before: that of the file under the
/// canonical path that `base` and `name` join to.
pub open spec fn expand_file(
    files: Map<Seq<char>, Seq<char>>,
    base: Seq<char>,
    name: Seq<char>,
    visited: Set<Seq<char>>,
) -> Result<Expansion, Failure>
    decreases unvisited(files, visited), 1nat, 0nat,
    when files.dom().finite()
{
    expand_path(files, base, path_join(base, name), visited)
}

/// The expansion of the file under the canonical path `path`, which lies in
/// the directory `base`: nothing where the file is in `visited`, else the
/// expansion of its text, with the file itself now visited.
pub open spec fn expand_path(
    files: Map<Seq<char>, Seq<char>>,
    base: Seq<char>,
    path: Seq<char>,
    visited: Set<Seq<char>>,
) -> Result<Expansion, Failure>
    decreases unvisited(files, visited), 0nat, 0nat,
    when files.dom().finite()
{
    if visited.contains(path) {
        Ok(nothing())
    } else if !files.dom().contains(path) {
        Err(Failure::IncludeNotFound { path })
    } else {
        proof {
            lemma_unvisited_insert(files, visited, path);
        }
        match expand_text(files, base, files[path], 0, visited.insert(path)) {
            Ok(inner) => Ok(Expansion { text: inner.text, added: inner.added.insert(path) }),
            Err(failure) => Err(failure),
        }
    }
}

/// The expansion of `text` from position `from` on, for a file in the
/// directory `base`: the directives behind `from` are taken first, then the
/// one at `from`, if there is one.
pub open spec fn expand_text(
    files: Map<Seq<char>, Seq<char>>,
    base: Seq<char>,
    text: Seq<char>,
    from: int,
    visited: Set<Seq<char>>,
) -> Result<Expansion, Failure>
    decreases unvisited(files, visited), 3nat, text.len() - from,
    when files.dom().finite()
{
    if from < 0 || from >= text.len() {
        Ok(nothing())
    } else {
        match expand_text(files, base, text, from + 1, visited) {
            Err(failure) => Err(failure),
            Ok(behind) => if is_directive_at(text, from) {
                proof {
                    lemma_unvisited_union(files, visited, behind.added);
                }
                match expand_directive(
                    files,
                    base,
                    seq![text[from]] + behind.text,
                    visited.union(behind.added),
                ) {
                    Err(failure) => Err(failure),
                    Ok(here) => Ok(
                        Expansion { text: here.text, added: behind.added.union(here.added) },
                    ),
                }
            } else {
                Ok(Expansion { text: seq![text[from]] + behind.text, added: behind.added })
            },
        }
    }
}

/// The expansion of `buffer`, a text that starts with a directive and in
/// which no other directive is left.
pub open spec fn expand_directive(
    files: Map<Seq<char>, Seq<char>>,
    base: Seq<char>,
    buffer: Seq<char>,
    visited: Set<Seq<char>>,
) -> Result<Expansion, Failure>
    decreases unvisited(files, visited), 2nat, 0nat,
    when files.dom().finite()
{
    match first_line_end(buffer) {
        None => Err(Failure::UnterminatedDirective),
        Some(end) => if end < 9 {
            Err(Failure::MissingArgument)
        } else {
            let argument = buffer.subrange(9, end);
            match include_target(base, argument) {
                None => Err(Failure::InvalidIncludePath { argument }),
                Some((directory, leaf)) => match expand_file(files, directory, leaf, visited) {
                    Err(failure) => Err(failure),
                    Ok(included) => Ok(
                        Expansion {
                            text: included.text + buffer.subrange(end, buffer.len() as int),
                            added: included.added,
                        },
                    ),
                },
            }
        },
    }
}

/// The merged source of the shader `name` in the directory `base`: its
/// expansion with no file visited before, with every `::` replaced by `_`.
pub open spec fn merged_source(
    files: Map<Seq<char>, Seq<char>>,
    base: Seq<char>,
    name: Seq<char>,
) -> Result<Seq<char>, Failure> {
    match expand_file(files, base, name, Set::empty()) {
        Ok(expansion) => Ok(replace_separators(expansion.text)),
        Err(failure) => Err(failure),
    }
}

/// `expansion` with `text` put in front of what it yields.
pub open spec fn prefixed(text: Seq<char>, expansion: Result<Expansion, Failure>) -> Result<
    Expansion,
    Failure,
> {
    match expansion {
        Ok(behind) => Ok(Expansion { text: text + behind.text, added: behind.added }),
        Err(failure) => Err(failure),
    }
}

/// A stretch of text in which no directive starts is carried over as it is:
/// the expansion from `from` on is that stretch followed by the expansion
/// from `to` on.
pub proof fn lemma_literal_run(
    files: Map<Seq<char>, Seq<char>>,
    base: Seq<char>,
    text: Seq<char>,
    from: int,
    to: int,
    visited: Set<Seq<char>>,
)
    requires
        files.dom().finite(),
        0 <= from <= to <= text.len(),
        no_directive_between(text, from, to),
    ensures
        expand_text(files, base, text, from, visited) == prefixed(
            text.subrange(from, to),
            expand_text(files, base, text, to, visited),
        ),
    decreases to - from,
{
    if from < to {
        lemma_literal_run(files, base, text, from + 1, to, visited);
        if let Ok(behind) = expand_text(files, base, text, to, visited) {
            assert(seq![text[from]] + (text.subrange(from + 1, to) + behind.text)
                =~= text.subrange(from, to) + behind.text);
        }
    }
}

/// A failure behind `to` is the failure of the whole text: nothing before it
/// is looked at.
pub proof fn lemma_failure_spreads(
    files: Map<Seq<char>, Seq<char>>,
    base: Seq<char>,
    text: Seq<char>,
    from: int,
    to: int,
    visited: Set<Seq<char>>,
)
    requires
        files.dom().finite(),
        0 <= from <= to < text.len(),
        expand_text(files, base, text, to, visited) is Err,
    ensures
        expand_text(files, base, text, from, visited) == expand_text(files, base, text, to, visited),
    decreases to - from,
{
    if from < to {
        lemma_failure_spreads(files, base, text, from + 1, to, visited);
    }
}

} // verus!
