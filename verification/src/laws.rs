//! What holds of every resolution.

use vstd::prelude::*;
use crate::model::{
    expand_directive, expand_file, expand_path, expand_text, lemma_failure_spreads,
    lemma_literal_run, lemma_unvisited_insert, lemma_unvisited_union, merged_source, nothing,
    unvisited, Expansion, Failure,
};
use crate::paths::{include_target, path_join};
use crate::text::{
    directive_keyword, first_line_end, is_directive_at, is_line_end, is_separator_at,
    lemma_first_line_end_is, lemma_replace_without_separator, no_directive_between, no_line_end,
    replace_separators,
};

verus! {

/// A directive as it is written: the keyword, the character `separator`, and
/// the argument.
pub open spec fn directive(separator: char, argument: Seq<char>) -> Seq<char> {
    directive_keyword() + seq![separator] + argument
}

/// At position `at` of `text` stands a directive with `argument`, on a line
/// that ends right behind the argument, and `gap` is the text from that line
/// end up to the next directive, or up to the end of `text`.
pub open spec fn directive_line_at(
    text: Seq<char>,
    at: int,
    separator: char,
    argument: Seq<char>,
    gap: Seq<char>,
) -> bool {
    let next = at + 9 + argument.len() + gap.len();
    &&& 0 <= at
    &&& next <= text.len()
    &&& text.subrange(at, next) == directive(separator, argument) + gap
    &&& !is_line_end(separator)
    &&& no_line_end(argument)
    &&& gap.len() > 0
    &&& is_line_end(gap[0])
    &&& no_directive_between(text, at + 1, next)
}

/// The expansion from a directive on, where the directive has a line of its
/// own: the file that the argument names, expanded after everything behind
/// the directive, then the text up to the next directive, then the expansion
/// of what follows.
pub proof fn lemma_directive_line(
    files: Map<Seq<char>, Seq<char>>,
    base: Seq<char>,
    text: Seq<char>,
    at: int,
    separator: char,
    argument: Seq<char>,
    gap: Seq<char>,
    visited: Set<Seq<char>>,
)
    requires
        files.dom().finite(),
        directive_line_at(text, at, separator, argument, gap),
    ensures
        expand_text(files, base, text, at, visited) == match expand_text(
            files,
            base,
            text,
            at + 9 + argument.len() + gap.len(),
            visited,
        ) {
            Err(failure) => Err(failure),
            Ok(behind) => match include_target(base, argument) {
                None => Err(Failure::InvalidIncludePath { argument }),
                Some((directory, leaf)) => match expand_file(
                    files,
                    directory,
                    leaf,
                    visited.union(behind.added),
                ) {
                    Err(failure) => Err(failure),
                    Ok(included) => Ok(
                        Expansion {
                            text: included.text + gap + behind.text,
                            added: behind.added.union(included.added),
                        },
                    ),
                },
            },
        },
{
    let next: int = at + 9 + argument.len() + gap.len();
    let line = text.subrange(at, next);
    let end: int = 9 + argument.len() as int;
    assert(is_directive_at(text, at)) by {
        assert(text.subrange(at, at + 8) =~= line.subrange(0, 8));
        assert(line.subrange(0, 8) =~= directive_keyword());
    }
    lemma_literal_run(files, base, text, at + 1, next, visited);
    match expand_text(files, base, text, next, visited) {
        Err(failure) => {
            if next < text.len() {
                lemma_failure_spreads(files, base, text, at + 1, next, visited);
            }
        },
        Ok(behind) => {
            // What the directive sees: its own line, the gap, and what the
            // directives behind it have left.
            let buffer = seq![text[at]] + (text.subrange(at + 1, next) + behind.text);
            assert(buffer =~= directive(separator, argument) + gap + behind.text);
            assert(first_line_end(buffer) == Some(end)) by {
                assert forall|j: int| 0 <= j < end implies !is_line_end(buffer[j]) by {
                    if j < 8 {
                        assert(buffer[j] == directive_keyword()[j]);
                    } else if j > 8 {
                        assert(buffer[j] == argument[j - 9]);
                    }
                }
                lemma_first_line_end_is(buffer, end);
            }
            assert(buffer.subrange(9, end) =~= argument);
            assert(buffer.subrange(end, buffer.len() as int) =~= gap + behind.text);
            let here = expand_directive(files, base, buffer, visited.union(behind.added));
            assert(expand_text(files, base, text, at, visited) == match here {
                Err(failure) => Err::<Expansion, Failure>(failure),
                Ok(e) => Ok(Expansion { text: e.text, added: behind.added.union(e.added) }),
            });
            if let Some((directory, leaf)) = include_target(base, argument) {
                if let Ok(included) = expand_file(
                    files,
                    directory,
                    leaf,
                    visited.union(behind.added),
                ) {
                    assert(included.text + (gap + behind.text) =~= included.text + gap
                        + behind.text);
                }
            }
        },
    }
}

/// `text` holds one directive, on a line of its own: it is `before`, the
/// directive, and `after`, which starts with the line end.
pub open spec fn has_one_directive(
    text: Seq<char>,
    before: Seq<char>,
    separator: char,
    argument: Seq<char>,
    after: Seq<char>,
) -> bool {
    &&& text == before + directive(separator, argument) + after
    &&& !is_line_end(separator)
    &&& no_line_end(argument)
    &&& after.len() > 0
    &&& is_line_end(after[0])
    &&& forall|i: int| is_directive_at(text, i) ==> i == before.len()
}

/// `text` holds two directives, each on a line of its own: it is `before`,
/// the first directive, `between`, the second directive, and `after`, where
/// `between` and `after` each start with a line end.
pub open spec fn has_two_directives(
    text: Seq<char>,
    before: Seq<char>,
    first_separator: char,
    first_argument: Seq<char>,
    between: Seq<char>,
    second_separator: char,
    second_argument: Seq<char>,
    after: Seq<char>,
) -> bool {
    &&& text == before + directive(first_separator, first_argument) + between + directive(
        second_separator,
        second_argument,
    ) + after
    &&& !is_line_end(first_separator)
    &&& no_line_end(first_argument)
    &&& between.len() > 0
    &&& is_line_end(between[0])
    &&& !is_line_end(second_separator)
    &&& no_line_end(second_argument)
    &&& after.len() > 0
    &&& is_line_end(after[0])
    &&& forall|i: int|
        is_directive_at(text, i) ==> i == before.len() || i == before.len() + 9
            + first_argument.len() + between.len()
}

/// The expansion of a text without directives is the text.
pub proof fn lemma_plain_text(
    files: Map<Seq<char>, Seq<char>>,
    base: Seq<char>,
    text: Seq<char>,
    visited: Set<Seq<char>>,
)
    requires
        files.dom().finite(),
        no_directive_between(text, 0, text.len() as int),
    ensures
        expand_text(files, base, text, 0, visited) == Ok::<Expansion, Failure>(
            Expansion { text, added: Set::empty() },
        ),
{
    lemma_literal_run(files, base, text, 0, text.len() as int, visited);
    assert(text.subrange(0, text.len() as int) + Seq::<char>::empty() =~= text);
}

/// The expansion of a text with one directive on a line of its own: the
/// text, with the expansion of the file that the directive names in the
/// place of the directive.
pub proof fn lemma_one_directive(
    files: Map<Seq<char>, Seq<char>>,
    base: Seq<char>,
    text: Seq<char>,
    before: Seq<char>,
    separator: char,
    argument: Seq<char>,
    after: Seq<char>,
    visited: Set<Seq<char>>,
)
    requires
        files.dom().finite(),
        has_one_directive(text, before, separator, argument, after),
    ensures
        expand_text(files, base, text, 0, visited) == match include_target(base, argument) {
            None => Err(Failure::InvalidIncludePath { argument }),
            Some((directory, leaf)) => match expand_file(files, directory, leaf, visited) {
                Err(failure) => Err(failure),
                Ok(included) => Ok(
                    Expansion { text: before + included.text + after, added: included.added },
                ),
            },
        },
{
    let at = before.len() as int;
    let end = text.len() as int;
    assert(text.subrange(at, end) =~= directive(separator, argument) + after);
    assert(text.subrange(0, at) =~= before);
    lemma_directive_line(files, base, text, at, separator, argument, after, visited);
    lemma_literal_run(files, base, text, 0, at, visited);
    assert(visited.union(Set::empty()) =~= visited);
    match include_target(base, argument) {
        None => {},
        Some((directory, leaf)) => {
            match expand_file(files, directory, leaf, visited) {
                Err(_) => {},
                Ok(included) => {
                    assert(Set::<Seq<char>>::empty().union(included.added) =~= included.added);
                    assert(before + (included.text + after + Seq::<char>::empty()) =~= before
                        + included.text + after);
                },
            }
        },
    }
}

/// The expansion of a text with two directives, each on a line of its own:
/// the second directive is taken first, and the first one after it, with the
/// files on record that the second one expanded.
pub proof fn lemma_two_directives(
    files: Map<Seq<char>, Seq<char>>,
    base: Seq<char>,
    text: Seq<char>,
    before: Seq<char>,
    first_separator: char,
    first_argument: Seq<char>,
    between: Seq<char>,
    second_separator: char,
    second_argument: Seq<char>,
    after: Seq<char>,
    visited: Set<Seq<char>>,
)
    requires
        files.dom().finite(),
        has_two_directives(
            text,
            before,
            first_separator,
            first_argument,
            between,
            second_separator,
            second_argument,
            after,
        ),
    ensures
        expand_text(files, base, text, 0, visited) == match include_target(base, second_argument) {
            None => Err(Failure::InvalidIncludePath { argument: second_argument }),
            Some((second_directory, second_leaf)) => match expand_file(
                files,
                second_directory,
                second_leaf,
                visited,
            ) {
                Err(failure) => Err(failure),
                Ok(second) => match include_target(base, first_argument) {
                    None => Err(Failure::InvalidIncludePath { argument: first_argument }),
                    Some((first_directory, first_leaf)) => match expand_file(
                        files,
                        first_directory,
                        first_leaf,
                        visited.union(second.added),
                    ) {
                        Err(failure) => Err(failure),
                        Ok(first) => Ok(
                            Expansion {
                                text: before + first.text + between + second.text + after,
                                added: second.added.union(first.added),
                            },
                        ),
                    },
                },
            },
        },
{
    let one = before.len() as int;
    let two = one + 9 + first_argument.len() + between.len();
    let end = text.len() as int;
    assert(text.subrange(two, end) =~= directive(second_separator, second_argument) + after);
    assert(text.subrange(one, two) =~= directive(first_separator, first_argument) + between);
    assert(text.subrange(0, one) =~= before);
    lemma_directive_line(files, base, text, two, second_separator, second_argument, after, visited);
    lemma_directive_line(files, base, text, one, first_separator, first_argument, between, visited);
    lemma_literal_run(files, base, text, 0, one, visited);
    assert(visited.union(Set::empty()) =~= visited);
    let behind = expand_text(files, base, text, two, visited);
    if behind is Err {
        lemma_failure_spreads(files, base, text, 0, two, visited);
    }
    match include_target(base, second_argument) {
        None => {},
        Some((second_directory, second_leaf)) => {
            match expand_file(files, second_directory, second_leaf, visited) {
                Err(_) => {},
                Ok(second) => {
                    assert(Set::<Seq<char>>::empty().union(second.added) =~= second.added);
                    match include_target(base, first_argument) {
                        None => {},
                        Some((first_directory, first_leaf)) => {
                            match expand_file(
                                files,
                                first_directory,
                                first_leaf,
                                visited.union(second.added),
                            ) {
                                Err(_) => {},
                                Ok(first) => {
                                    assert(before + (first.text + between + (second.text + after
                                        + Seq::<char>::empty())) =~= before + first.text + between
                                        + second.text + after);
                                },
                            }
                        },
                    }
                },
            }
        },
    }
}

/// The expansion of a file that is known, was not visited and holds no
/// directive is its text, and the file goes on record.
pub proof fn lemma_leaf_file(
    files: Map<Seq<char>, Seq<char>>,
    base: Seq<char>,
    name: Seq<char>,
    visited: Set<Seq<char>>,
)
    requires
        files.dom().finite(),
        files.dom().contains(path_join(base, name)),
        !visited.contains(path_join(base, name)),
        no_directive_between(
            files[path_join(base, name)],
            0,
            files[path_join(base, name)].len() as int,
        ),
    ensures
        expand_file(files, base, name, visited) == Ok::<Expansion, Failure>(
            Expansion {
                text: files[path_join(base, name)],
                added: Set::empty().insert(path_join(base, name)),
            },
        ),
{
    let path = path_join(base, name);
    lemma_plain_text(files, base, files[path], visited.insert(path));
}

/// Identity: a shader without directives resolves to its own text, with each
/// `::` replaced by `_`; so to its own text where it holds no `::`.
pub proof fn law_identity(files: Map<Seq<char>, Seq<char>>, base: Seq<char>, name: Seq<char>)
    requires
        files.dom().finite(),
        files.dom().contains(path_join(base, name)),
        no_directive_between(
            files[path_join(base, name)],
            0,
            files[path_join(base, name)].len() as int,
        ),
    ensures
        merged_source(files, base, name) == Ok::<Seq<char>, Failure>(
            replace_separators(files[path_join(base, name)]),
        ),
        (forall|i: int| !is_separator_at(files[path_join(base, name)], i)) ==> merged_source(
            files,
            base,
            name,
        ) == Ok::<Seq<char>, Failure>(files[path_join(base, name)]),
{
    lemma_leaf_file(files, base, name, Set::empty());
    if forall|i: int| !is_separator_at(files[path_join(base, name)], i) {
        lemma_replace_without_separator(files[path_join(base, name)]);
    }
}

/// Single inclusion: where a file holds one directive, on a line of its own,
/// and the file that the directive names holds none, the expansion is the
/// first file's text with the second file's text in the place of the
/// directive. The line end behind the directive stays.
pub proof fn law_single_inclusion(
    files: Map<Seq<char>, Seq<char>>,
    base: Seq<char>,
    name: Seq<char>,
    before: Seq<char>,
    separator: char,
    argument: Seq<char>,
    after: Seq<char>,
    directory: Seq<char>,
    leaf: Seq<char>,
    visited: Set<Seq<char>>,
)
    requires
        files.dom().finite(),
        files.dom().contains(path_join(base, name)),
        has_one_directive(files[path_join(base, name)], before, separator, argument, after),
        include_target(base, argument) == Some((directory, leaf)),
        files.dom().contains(path_join(directory, leaf)),
        path_join(directory, leaf) != path_join(base, name),
        no_directive_between(
            files[path_join(directory, leaf)],
            0,
            files[path_join(directory, leaf)].len() as int,
        ),
        !visited.contains(path_join(base, name)),
        !visited.contains(path_join(directory, leaf)),
    ensures
        expand_file(files, base, name, visited) == Ok::<Expansion, Failure>(
            Expansion {
                text: before + files[path_join(directory, leaf)] + after,
                added: Set::empty().insert(path_join(base, name)).insert(
                    path_join(directory, leaf),
                ),
            },
        ),
{
    let outer = path_join(base, name);
    let inner = path_join(directory, leaf);
    lemma_one_directive(
        files,
        base,
        files[outer],
        before,
        separator,
        argument,
        after,
        visited.insert(outer),
    );
    lemma_leaf_file(files, directory, leaf, visited.insert(outer));
    assert(Set::<Seq<char>>::empty().insert(inner).insert(outer) =~= Set::<Seq<char>>::empty().insert(
        outer,
    ).insert(inner));
}

/// Fatal on a missing file: where the one directive of a file names a file
/// that is not known, the resolution fails and names the canonical path of
/// the missing file.
pub proof fn law_missing_file(
    files: Map<Seq<char>, Seq<char>>,
    base: Seq<char>,
    name: Seq<char>,
    before: Seq<char>,
    separator: char,
    argument: Seq<char>,
    after: Seq<char>,
    directory: Seq<char>,
    leaf: Seq<char>,
)
    requires
        files.dom().finite(),
        files.dom().contains(path_join(base, name)),
        has_one_directive(files[path_join(base, name)], before, separator, argument, after),
        include_target(base, argument) == Some((directory, leaf)),
        !files.dom().contains(path_join(directory, leaf)),
    ensures
        merged_source(files, base, name) == Err::<Seq<char>, Failure>(
            Failure::IncludeNotFound { path: path_join(directory, leaf) },
        ),
{
    let outer = path_join(base, name);
    lemma_one_directive(
        files,
        base,
        files[outer],
        before,
        separator,
        argument,
        after,
        Set::empty().insert(outer),
    );
}

/// A file that was visited before expands to nothing.
pub proof fn law_visited_file_is_empty(
    files: Map<Seq<char>, Seq<char>>,
    base: Seq<char>,
    name: Seq<char>,
    visited: Set<Seq<char>>,
)
    requires
        files.dom().finite(),
        visited.contains(path_join(base, name)),
    ensures
        expand_file(files, base, name, visited) == Ok::<Expansion, Failure>(nothing()),
{
}

/// Cycle: where a first file pulls in a second and the second pulls in the
/// first, the first file's expansion holds the second file's text once, and
/// nothing in the place of the second file's directive.
pub proof fn law_cycle(
    files: Map<Seq<char>, Seq<char>>,
    base: Seq<char>,
    name: Seq<char>,
    before: Seq<char>,
    separator: char,
    argument: Seq<char>,
    after: Seq<char>,
    directory: Seq<char>,
    leaf: Seq<char>,
    inner_before: Seq<char>,
    inner_separator: char,
    inner_argument: Seq<char>,
    inner_after: Seq<char>,
    back_directory: Seq<char>,
    back_leaf: Seq<char>,
    visited: Set<Seq<char>>,
)
    requires
        files.dom().finite(),
        files.dom().contains(path_join(base, name)),
        has_one_directive(files[path_join(base, name)], before, separator, argument, after),
        include_target(base, argument) == Some((directory, leaf)),
        files.dom().contains(path_join(directory, leaf)),
        path_join(directory, leaf) != path_join(base, name),
        has_one_directive(
            files[path_join(directory, leaf)],
            inner_before,
            inner_separator,
            inner_argument,
            inner_after,
        ),
        include_target(directory, inner_argument) == Some((back_directory, back_leaf)),
        path_join(back_directory, back_leaf) == path_join(base, name),
        !visited.contains(path_join(base, name)),
        !visited.contains(path_join(directory, leaf)),
    ensures
        expand_file(files, base, name, visited) == Ok::<Expansion, Failure>(
            Expansion {
                text: before + inner_before + inner_after + after,
                added: Set::empty().insert(path_join(base, name)).insert(
                    path_join(directory, leaf),
                ),
            },
        ),
{
    let outer = path_join(base, name);
    let inner = path_join(directory, leaf);
    let seen = visited.insert(outer);
    lemma_one_directive(files, base, files[outer], before, separator, argument, after, seen);
    lemma_one_directive(
        files,
        directory,
        files[inner],
        inner_before,
        inner_separator,
        inner_argument,
        inner_after,
        seen.insert(inner),
    );
    assert(before + (inner_before + inner_after) + after =~= before + inner_before + inner_after
        + after);
    assert(Set::<Seq<char>>::empty().insert(inner).insert(outer) =~= Set::<Seq<char>>::empty().insert(
        outer,
    ).insert(inner));
}

/// Two inclusions: where a file holds two directives, each on a line of its
/// own, that name two different files without directives, each of the two
/// texts stands in the place of the directive that names it, though the
/// second directive is taken first.
pub proof fn law_two_inclusions(
    files: Map<Seq<char>, Seq<char>>,
    base: Seq<char>,
    name: Seq<char>,
    before: Seq<char>,
    first_separator: char,
    first_argument: Seq<char>,
    between: Seq<char>,
    second_separator: char,
    second_argument: Seq<char>,
    after: Seq<char>,
    first_directory: Seq<char>,
    first_leaf: Seq<char>,
    second_directory: Seq<char>,
    second_leaf: Seq<char>,
    visited: Set<Seq<char>>,
)
    requires
        files.dom().finite(),
        files.dom().contains(path_join(base, name)),
        has_two_directives(
            files[path_join(base, name)],
            before,
            first_separator,
            first_argument,
            between,
            second_separator,
            second_argument,
            after,
        ),
        include_target(base, first_argument) == Some((first_directory, first_leaf)),
        include_target(base, second_argument) == Some((second_directory, second_leaf)),
        files.dom().contains(path_join(first_directory, first_leaf)),
        files.dom().contains(path_join(second_directory, second_leaf)),
        path_join(first_directory, first_leaf) != path_join(base, name),
        path_join(second_directory, second_leaf) != path_join(base, name),
        path_join(first_directory, first_leaf) != path_join(second_directory, second_leaf),
        no_directive_between(
            files[path_join(first_directory, first_leaf)],
            0,
            files[path_join(first_directory, first_leaf)].len() as int,
        ),
        no_directive_between(
            files[path_join(second_directory, second_leaf)],
            0,
            files[path_join(second_directory, second_leaf)].len() as int,
        ),
        !visited.contains(path_join(base, name)),
        !visited.contains(path_join(first_directory, first_leaf)),
        !visited.contains(path_join(second_directory, second_leaf)),
    ensures
        expand_file(files, base, name, visited) == Ok::<Expansion, Failure>(
            Expansion {
                text: before + files[path_join(first_directory, first_leaf)] + between
                    + files[path_join(second_directory, second_leaf)] + after,
                added: Set::empty().insert(path_join(base, name)).insert(
                    path_join(first_directory, first_leaf),
                ).insert(path_join(second_directory, second_leaf)),
            },
        ),
{
    let outer = path_join(base, name);
    let first = path_join(first_directory, first_leaf);
    let second = path_join(second_directory, second_leaf);
    let seen = visited.insert(outer);
    lemma_two_directives(
        files,
        base,
        files[outer],
        before,
        first_separator,
        first_argument,
        between,
        second_separator,
        second_argument,
        after,
        seen,
    );
    lemma_leaf_file(files, second_directory, second_leaf, seen);
    lemma_leaf_file(
        files,
        first_directory,
        first_leaf,
        seen.union(Set::empty().insert(second)),
    );
    assert(Set::<Seq<char>>::empty().insert(second).union(Set::empty().insert(first)).insert(outer)
        =~= Set::<Seq<char>>::empty().insert(outer).insert(first).insert(second));
}

/// Diamond: a file pulls in two files, and each of the two pulls in the same
/// fourth file, which holds no directive. The fourth file's text then stands
/// once in the expansion: inside the text of the file that the second
/// directive names, which is taken first. In the text of the file that the
/// first directive names, nothing stands in the place of its directive.
pub proof fn law_diamond(
    files: Map<Seq<char>, Seq<char>>,
    base: Seq<char>,
    name: Seq<char>,
    before: Seq<char>,
    first_separator: char,
    first_argument: Seq<char>,
    between: Seq<char>,
    second_separator: char,
    second_argument: Seq<char>,
    after: Seq<char>,
    first_directory: Seq<char>,
    first_leaf: Seq<char>,
    second_directory: Seq<char>,
    second_leaf: Seq<char>,
    first_before: Seq<char>,
    first_inner_separator: char,
    first_inner_argument: Seq<char>,
    first_after: Seq<char>,
    second_before: Seq<char>,
    second_inner_separator: char,
    second_inner_argument: Seq<char>,
    second_after: Seq<char>,
    shared_directory: Seq<char>,
    shared_leaf: Seq<char>,
    same_directory: Seq<char>,
    same_leaf: Seq<char>,
    visited: Set<Seq<char>>,
)
    requires
        files.dom().finite(),
        files.dom().contains(path_join(base, name)),
        has_two_directives(
            files[path_join(base, name)],
            before,
            first_separator,
            first_argument,
            between,
            second_separator,
            second_argument,
            after,
        ),
        include_target(base, first_argument) == Some((first_directory, first_leaf)),
        include_target(base, second_argument) == Some((second_directory, second_leaf)),
        files.dom().contains(path_join(first_directory, first_leaf)),
        files.dom().contains(path_join(second_directory, second_leaf)),
        has_one_directive(
            files[path_join(first_directory, first_leaf)],
            first_before,
            first_inner_separator,
            first_inner_argument,
            first_after,
        ),
        has_one_directive(
            files[path_join(second_directory, second_leaf)],
            second_before,
            second_inner_separator,
            second_inner_argument,
            second_after,
        ),
        include_target(second_directory, second_inner_argument) == Some(
            (shared_directory, shared_leaf),
        ),
        include_target(first_directory, first_inner_argument) == Some((same_directory, same_leaf)),
        path_join(same_directory, same_leaf) == path_join(shared_directory, shared_leaf),
        files.dom().contains(path_join(shared_directory, shared_leaf)),
        no_directive_between(
            files[path_join(shared_directory, shared_leaf)],
            0,
            files[path_join(shared_directory, shared_leaf)].len() as int,
        ),
        path_join(first_directory, first_leaf) != path_join(base, name),
        path_join(second_directory, second_leaf) != path_join(base, name),
        path_join(shared_directory, shared_leaf) != path_join(base, name),
        path_join(first_directory, first_leaf) != path_join(second_directory, second_leaf),
        path_join(shared_directory, shared_leaf) != path_join(first_directory, first_leaf),
        path_join(shared_directory, shared_leaf) != path_join(second_directory, second_leaf),
        !visited.contains(path_join(base, name)),
        !visited.contains(path_join(first_directory, first_leaf)),
        !visited.contains(path_join(second_directory, second_leaf)),
        !visited.contains(path_join(shared_directory, shared_leaf)),
    ensures
        expand_file(files, base, name, visited) == Ok::<Expansion, Failure>(
            Expansion {
                text: before + (first_before + first_after) + between + (second_before
                    + files[path_join(shared_directory, shared_leaf)] + second_after) + after,
                added: Set::empty().insert(path_join(base, name)).insert(
                    path_join(first_directory, first_leaf),
                ).insert(path_join(second_directory, second_leaf)).insert(
                    path_join(shared_directory, shared_leaf),
                ),
            },
        ),
{
    let outer = path_join(base, name);
    let first = path_join(first_directory, first_leaf);
    let second = path_join(second_directory, second_leaf);
    let shared = path_join(shared_directory, shared_leaf);
    let seen = visited.insert(outer);
    lemma_two_directives(
        files,
        base,
        files[outer],
        before,
        first_separator,
        first_argument,
        between,
        second_separator,
        second_argument,
        after,
        seen,
    );
    // The second directive is taken first, and the shared file with it.
    lemma_one_directive(
        files,
        second_directory,
        files[second],
        second_before,
        second_inner_separator,
        second_inner_argument,
        second_after,
        seen.insert(second),
    );
    lemma_leaf_file(files, shared_directory, shared_leaf, seen.insert(second));
    let late = Expansion {
        text: second_before + files[shared] + second_after,
        added: Set::empty().insert(shared).insert(second),
    };
    // The first directive finds the shared file on record.
    let then = seen.union(late.added);
    lemma_one_directive(
        files,
        first_directory,
        files[first],
        first_before,
        first_inner_separator,
        first_inner_argument,
        first_after,
        then.insert(first),
    );
    let early = Expansion {
        text: first_before + first_after,
        added: Set::<Seq<char>>::empty().insert(first),
    };
    assert(late.added.union(early.added).insert(outer) =~= Set::<Seq<char>>::empty().insert(
        outer,
    ).insert(first).insert(second).insert(shared));
}

/// Every path in `added` is the path of a known file that is not in
/// `visited`.
pub open spec fn only_new_files(
    files: Map<Seq<char>, Seq<char>>,
    visited: Set<Seq<char>>,
    added: Set<Seq<char>>,
) -> bool {
    forall|path: Seq<char>| #[trigger]
        added.contains(path) ==> files.dom().contains(path) && !visited.contains(path)
}

/// No file is expanded twice: what the expansion of a file expands are known
/// files that were not visited before.
pub proof fn law_file_expands_only_new_files(
    files: Map<Seq<char>, Seq<char>>,
    base: Seq<char>,
    name: Seq<char>,
    visited: Set<Seq<char>>,
)
    requires
        files.dom().finite(),
    ensures
        expand_file(files, base, name, visited) matches Ok(expansion) ==> only_new_files(
            files,
            visited,
            expansion.added,
        ),
    decreases unvisited(files, visited), 1nat, 0nat,
{
    law_path_expands_only_new_files(files, base, path_join(base, name), visited);
}

/// No file is expanded twice: what the expansion of the file under a
/// canonical path expands are known files that were not visited before.
pub proof fn law_path_expands_only_new_files(
    files: Map<Seq<char>, Seq<char>>,
    base: Seq<char>,
    path: Seq<char>,
    visited: Set<Seq<char>>,
)
    requires
        files.dom().finite(),
    ensures
        expand_path(files, base, path, visited) matches Ok(expansion) ==> only_new_files(
            files,
            visited,
            expansion.added,
        ),
    decreases unvisited(files, visited), 0nat, 0nat,
{
    if !visited.contains(path) && files.dom().contains(path) {
        lemma_unvisited_insert(files, visited, path);
        law_text_expands_only_new_files(files, base, files[path], 0, visited.insert(path));
    }
}

/// No file is expanded twice: what the expansion of a text expands are known
/// files that were not visited before.
pub proof fn law_text_expands_only_new_files(
    files: Map<Seq<char>, Seq<char>>,
    base: Seq<char>,
    text: Seq<char>,
    from: int,
    visited: Set<Seq<char>>,
)
    requires
        files.dom().finite(),
    ensures
        expand_text(files, base, text, from, visited) matches Ok(expansion) ==> only_new_files(
            files,
            visited,
            expansion.added,
        ),
    decreases unvisited(files, visited), 3nat, text.len() - from,
{
    if 0 <= from < text.len() {
        law_text_expands_only_new_files(files, base, text, from + 1, visited);
        match expand_text(files, base, text, from + 1, visited) {
            Err(_) => {},
            Ok(behind) => {
                if is_directive_at(text, from) {
                    lemma_unvisited_union(files, visited, behind.added);
                    law_directive_expands_only_new_files(
                        files,
                        base,
                        seq![text[from]] + behind.text,
                        visited.union(behind.added),
                    );
                }
            },
        }
    }
}

/// No file is expanded twice: what the expansion of a directive expands are
/// known files that were not visited before.
pub proof fn law_directive_expands_only_new_files(
    files: Map<Seq<char>, Seq<char>>,
    base: Seq<char>,
    buffer: Seq<char>,
    visited: Set<Seq<char>>,
)
    requires
        files.dom().finite(),
    ensures
        expand_directive(files, base, buffer, visited) matches Ok(expansion) ==> only_new_files(
            files,
            visited,
            expansion.added,
        ),
    decreases unvisited(files, visited), 2nat, 0nat,
{
    match first_line_end(buffer) {
        None => {},
        Some(end) => {
            if end >= 9 {
                match include_target(base, buffer.subrange(9, end)) {
                    None => {},
                    Some((directory, leaf)) => {
                        law_file_expands_only_new_files(files, directory, leaf, visited);
                    },
                }
            }
        },
    }
}

/// The file that `outcome` fails for, where it fails for a missing file, is
/// not among `files`.
pub open spec fn misses_unknown_file(
    files: Map<Seq<char>, Seq<char>>,
    outcome: Result<Expansion, Failure>,
) -> bool {
    outcome matches Err(Failure::IncludeNotFound { path }) ==> !files.dom().contains(path)
}

/// A file that the expansion of a file fails for as missing is not known.
pub proof fn law_missing_is_unknown_file(
    files: Map<Seq<char>, Seq<char>>,
    base: Seq<char>,
    name: Seq<char>,
    visited: Set<Seq<char>>,
)
    requires
        files.dom().finite(),
    ensures
        misses_unknown_file(files, expand_file(files, base, name, visited)),
    decreases unvisited(files, visited), 1nat, 0nat,
{
    law_missing_is_unknown_path(files, base, path_join(base, name), visited);
}

/// A file that the expansion of the file under a canonical path fails for as
/// missing is not known.
pub proof fn law_missing_is_unknown_path(
    files: Map<Seq<char>, Seq<char>>,
    base: Seq<char>,
    path: Seq<char>,
    visited: Set<Seq<char>>,
)
    requires
        files.dom().finite(),
    ensures
        misses_unknown_file(files, expand_path(files, base, path, visited)),
    decreases unvisited(files, visited), 0nat, 0nat,
{
    if !visited.contains(path) && files.dom().contains(path) {
        lemma_unvisited_insert(files, visited, path);
        law_missing_is_unknown_text(files, base, files[path], 0, visited.insert(path));
    }
}

/// A file that the expansion of a text fails for as missing is not known.
pub proof fn law_missing_is_unknown_text(
    files: Map<Seq<char>, Seq<char>>,
    base: Seq<char>,
    text: Seq<char>,
    from: int,
    visited: Set<Seq<char>>,
)
    requires
        files.dom().finite(),
    ensures
        misses_unknown_file(files, expand_text(files, base, text, from, visited)),
    decreases unvisited(files, visited), 3nat, text.len() - from,
{
    if 0 <= from < text.len() {
        law_missing_is_unknown_text(files, base, text, from + 1, visited);
        match expand_text(files, base, text, from + 1, visited) {
            Err(_) => {},
            Ok(behind) => {
                if is_directive_at(text, from) {
                    lemma_unvisited_union(files, visited, behind.added);
                    law_missing_is_unknown_directive(
                        files,
                        base,
                        seq![text[from]] + behind.text,
                        visited.union(behind.added),
                    );
                }
            },
        }
    }
}

/// A file that the expansion of a directive fails for as missing is not known.
pub proof fn law_missing_is_unknown_directive(
    files: Map<Seq<char>, Seq<char>>,
    base: Seq<char>,
    buffer: Seq<char>,
    visited: Set<Seq<char>>,
)
    requires
        files.dom().finite(),
    ensures
        misses_unknown_file(files, expand_directive(files, base, buffer, visited)),
    decreases unvisited(files, visited), 2nat, 0nat,
{
    match first_line_end(buffer) {
        None => {},
        Some(end) => {
            if end >= 9 {
                match include_target(base, buffer.subrange(9, end)) {
                    None => {},
                    Some((directory, leaf)) => {
                        law_missing_is_unknown_file(files, directory, leaf, visited);
                    },
                }
            }
        },
    }
}

/// `outcome` is final: it does not fail for a missing file.
pub open spec fn is_settled(outcome: Result<Expansion, Failure>) -> bool {
    !(outcome matches Err(Failure::IncludeNotFound { .. }))
}

/// More files change no final outcome: an expansion of a file that does not
/// fail for a missing file stays what it is when more files become known.
pub proof fn law_more_files_file(
    files: Map<Seq<char>, Seq<char>>,
    more: Map<Seq<char>, Seq<char>>,
    base: Seq<char>,
    name: Seq<char>,
    visited: Set<Seq<char>>,
)
    requires
        files.dom().finite(),
        more.dom().finite(),
        files.submap_of(more),
    ensures
        is_settled(expand_file(files, base, name, visited)) ==> expand_file(more, base, name, visited) == expand_file(files, base, name, visited),
    decreases unvisited(files, visited), 1nat, 0nat,
{
    law_more_files_path(files, more, base, path_join(base, name), visited);
}

/// More files change no final outcome of the expansion of the file under a
/// canonical path.
pub proof fn law_more_files_path(
    files: Map<Seq<char>, Seq<char>>,
    more: Map<Seq<char>, Seq<char>>,
    base: Seq<char>,
    path: Seq<char>,
    visited: Set<Seq<char>>,
)
    requires
        files.dom().finite(),
        more.dom().finite(),
        files.submap_of(more),
    ensures
        is_settled(expand_path(files, base, path, visited)) ==> expand_path(more, base, path, visited) == expand_path(files, base, path, visited),
    decreases unvisited(files, visited), 0nat, 0nat,
{
    if !visited.contains(path) && files.dom().contains(path) {
        lemma_unvisited_insert(files, visited, path);
        law_more_files_text(files, more, base, files[path], 0, visited.insert(path));
    }
}

/// More files change no final outcome of the expansion of a text.
pub proof fn law_more_files_text(
    files: Map<Seq<char>, Seq<char>>,
    more: Map<Seq<char>, Seq<char>>,
    base: Seq<char>,
    text: Seq<char>,
    from: int,
    visited: Set<Seq<char>>,
)
    requires
        files.dom().finite(),
        more.dom().finite(),
        files.submap_of(more),
    ensures
        is_settled(expand_text(files, base, text, from, visited)) ==> expand_text(more, base, text, from, visited) == expand_text(files, base, text, from, visited),
    decreases unvisited(files, visited), 3nat, text.len() - from,
{
    if 0 <= from < text.len() {
        law_more_files_text(files, more, base, text, from + 1, visited);
        match expand_text(files, base, text, from + 1, visited) {
            Err(_) => {},
            Ok(behind) => {
                if is_directive_at(text, from) {
                    lemma_unvisited_union(files, visited, behind.added);
                    law_more_files_directive(
                        files, more,
                        base,
                        seq![text[from]] + behind.text,
                        visited.union(behind.added),
                    );
                }
            },
        }
    }
}

/// More files change no final outcome of the expansion of a directive.
pub proof fn law_more_files_directive(
    files: Map<Seq<char>, Seq<char>>,
    more: Map<Seq<char>, Seq<char>>,
    base: Seq<char>,
    buffer: Seq<char>,
    visited: Set<Seq<char>>,
)
    requires
        files.dom().finite(),
        more.dom().finite(),
        files.submap_of(more),
    ensures
        is_settled(expand_directive(files, base, buffer, visited)) ==> expand_directive(more, base, buffer, visited) == expand_directive(files, base, buffer, visited),
    decreases unvisited(files, visited), 2nat, 0nat,
{
    match first_line_end(buffer) {
        None => {},
        Some(end) => {
            if end >= 9 {
                match include_target(base, buffer.subrange(9, end)) {
                    None => {},
                    Some((directory, leaf)) => {
                        law_more_files_file(files, more, directory, leaf, visited);
                    },
                }
            }
        },
    }
}

/// A resolution that fails for a missing file names a file that is not
/// known; one that ends otherwise ends the same way when more files become
/// known. So a caller may add the file that was missed and ask again: once
/// no file is missed, the outcome is that for any larger set of files.
pub proof fn law_ask_again(
    files: Map<Seq<char>, Seq<char>>,
    more: Map<Seq<char>, Seq<char>>,
    base: Seq<char>,
    name: Seq<char>,
)
    requires
        files.dom().finite(),
        more.dom().finite(),
        files.submap_of(more),
    ensures
        match merged_source(files, base, name) {
            Err(Failure::IncludeNotFound { path }) => !files.dom().contains(path),
            outcome => merged_source(more, base, name) == outcome,
        },
{
    law_missing_is_unknown_file(files, base, name, Set::empty());
    law_more_files_file(files, more, base, name, Set::empty());
}

} // verus!
