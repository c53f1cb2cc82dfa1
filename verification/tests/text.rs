use wgsl_includes::{
    chars_of, directive_positions, end_of_line_idx, find_line_end, replace_module_separators,
    with_forward_slashes, SourceSet, VisitedSet,
};

#[test]
fn line_end_is_the_first_of_either_kind() {
    assert_eq!(end_of_line_idx("abc\ndef"), 3);
    assert_eq!(end_of_line_idx("ab\r\ncd"), 2);
    assert_eq!(end_of_line_idx("a\nb\rc"), 1);
    assert_eq!(end_of_line_idx("a\rb\nc"), 1);
    assert_eq!(end_of_line_idx("\n"), 0);
    assert_eq!(end_of_line_idx("abc\r"), 3);
}

#[test]
fn line_end_offset_counts_bytes() {
    assert_eq!(end_of_line_idx("\u{e9}\n"), 2);
    assert_eq!(end_of_line_idx("\u{e9}\u{e9}\n"), 4);
    assert_eq!(end_of_line_idx("a\u{20ac}\r\n"), 4);
    assert_eq!(end_of_line_idx("\u{1f600}\n"), 4);
    let text = "pr\u{e9}lude\nrest";
    assert_eq!(&text[..end_of_line_idx(text)], "pr\u{e9}lude");
}

#[test]
fn line_end_offset_is_where_the_standard_search_finds_it() {
    for text in ["abc\ndef", "\u{e9}\r\n", "x\ry\nz", "\n", "\u{20ac}\u{e9}a\n\r"] {
        assert_eq!(Some(end_of_line_idx(text)), text.find(|c| c == '\r' || c == '\n'));
    }
}

#[test]
fn line_end_position_is_the_first_of_either_kind() {
    assert_eq!(find_line_end("abc\ndef"), Some(3));
    assert_eq!(find_line_end("ab\r\ncd"), Some(2));
    assert_eq!(find_line_end("a\nb\rc"), Some(1));
    assert_eq!(find_line_end("a\rb\nc"), Some(1));
    assert_eq!(find_line_end("\n"), Some(0));
}

#[test]
fn text_without_line_end_has_no_line_end() {
    assert_eq!(find_line_end(""), None);
    assert_eq!(find_line_end("abc"), None);
}

#[test]
fn positions_count_characters() {
    assert_eq!(find_line_end("\u{e9}\u{e9}\n"), Some(2));
    assert_eq!(directive_positions(&chars_of("\u{e9}@include x\n")), vec![1]);
}

#[test]
fn characters_come_in_order() {
    assert_eq!(chars_of("a\u{e9}\n"), vec!['a', '\u{e9}', '\n']);
    assert_eq!(chars_of(""), Vec::<char>::new());
}

#[test]
fn directives_are_found_wherever_the_keyword_stands() {
    assert_eq!(directive_positions(&chars_of("@include a\nxx@include b\n")), vec![0, 13]);
    assert_eq!(directive_positions(&chars_of("@@include")), vec![1]);
    assert_eq!(directive_positions(&chars_of("@include@include")), vec![0, 8]);
    assert_eq!(directive_positions(&chars_of("x@include")), vec![1]);
}

#[test]
fn text_without_the_keyword_holds_no_directive() {
    assert_eq!(directive_positions(&chars_of("")), Vec::<usize>::new());
    assert_eq!(directive_positions(&chars_of("@includ")), Vec::<usize>::new());
    assert_eq!(directive_positions(&chars_of("@Include x\n")), Vec::<usize>::new());
    assert_eq!(directive_positions(&chars_of("#include x\n")), Vec::<usize>::new());
}

#[test]
fn pairs_of_colons_become_underscores_from_the_left() {
    assert_eq!(replace_module_separators("a::b"), "a_b");
    assert_eq!(replace_module_separators(":::"), "_:");
    assert_eq!(replace_module_separators("::::"), "__");
    assert_eq!(replace_module_separators("::"), "_");
    assert_eq!(replace_module_separators("a::b::c d:e"), "a_b_c d:e");
}

#[test]
fn text_without_pairs_of_colons_is_unchanged() {
    assert_eq!(replace_module_separators(""), "");
    assert_eq!(replace_module_separators(":"), ":");
    assert_eq!(replace_module_separators("a:b:c"), "a:b:c");
    assert_eq!(replace_module_separators("var<uniform> x: f32;"), "var<uniform> x: f32;");
}

#[test]
fn backslashes_become_forward_slashes() {
    assert_eq!(with_forward_slashes("a\\b\\c.wgsl"), "a/b/c.wgsl");
    assert_eq!(with_forward_slashes("\\"), "/");
    assert_eq!(with_forward_slashes("a/b"), "a/b");
    assert_eq!(with_forward_slashes(""), "");
}

#[test]
fn source_set_holds_the_last_text_put_under_a_path() {
    let mut sources = SourceSet::new();
    assert!(!sources.contains("a"));
    assert_eq!(sources.get("a"), None);
    sources.insert("a".to_string(), "one".to_string());
    sources.insert("b".to_string(), "two".to_string());
    assert_eq!(sources.get("a"), Some(&"one".to_string()));
    assert_eq!(sources.get("b"), Some(&"two".to_string()));
    sources.insert("a".to_string(), "three".to_string());
    assert_eq!(sources.get("a"), Some(&"three".to_string()));
    assert_eq!(sources.get("b"), Some(&"two".to_string()));
    assert!(sources.contains("a"));
    assert!(!sources.contains("c"));
}

#[test]
fn visited_set_holds_what_was_put_in() {
    let mut visited = VisitedSet::new();
    assert!(!visited.contains("a"));
    visited.insert("a".to_string());
    visited.insert("a".to_string());
    visited.insert("b".to_string());
    assert!(visited.contains("a"));
    assert!(visited.contains("b"));
    assert!(!visited.contains(""));
}

#[test]
fn default_sets_are_empty() {
    let sources = SourceSet::default();
    assert!(!sources.contains("a"));
    assert_eq!(sources.get(""), None);
    let visited = VisitedSet::default();
    assert!(!visited.contains("a"));
    assert!(!visited.contains(""));
}
