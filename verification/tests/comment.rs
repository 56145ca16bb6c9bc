use armonik_api::comment::{backtick_run, clean_comment, closing_run, escape_prose, previous_sibling};

#[test]
fn indentation_is_clamped_below_a_code_block() {
    assert_eq!(escape_prose("  two"), "  two");
    assert_eq!(escape_prose("   three"), "   three");
    assert_eq!(escape_prose("    four"), "   four");
    assert_eq!(escape_prose("\tGET /tasks"), "   GET /tasks");
}

#[test]
fn a_leading_fence_is_escaped() {
    assert_eq!(escape_prose("```sh"), "\\```sh");
    assert_eq!(escape_prose("~~~"), "\\~~~");
    assert_eq!(escape_prose("a ``` b"), "a ``` b");
}

#[test]
fn the_three_build_breaking_characters_are_escaped() {
    assert_eq!(escape_prose("see [Something]"), "see \\[Something]");
    assert_eq!(escape_prose("a <string> value"), "a \\<string> value");
    assert_eq!(escape_prose("a \\ backslash"), "a \\\\ backslash");
}

#[test]
fn markdown_emphasis_is_left_alone() {
    assert_eq!(escape_prose("*bold* _it_ # h - li"), "*bold* _it_ # h - li");
}

#[test]
fn code_spans_are_copied_through() {
    assert_eq!(escape_prose("`Vec<T>` holds"), "`Vec<T>` holds");
    assert_eq!(escape_prose("``a ` b<c>``"), "``a ` b<c>``");
    assert_eq!(escape_prose("`unclosed <T>"), "`unclosed \\<T>");
}

#[test]
fn ordinary_prose_is_unchanged() {
    assert_eq!(
        escape_prose("The task creation date."),
        "The task creation date."
    );
    assert_eq!(escape_prose(""), "");
}

#[test]
fn non_ascii_text_survives_the_escapes() {
    assert_eq!(escape_prose("\u{a0}\u{a0}é <ü>"), "  é \\<ü>");
    assert_eq!(escape_prose(" \t x"), "   x");
}

#[test]
fn backtick_runs_are_measured_whole() {
    let chars: Vec<char> = "a``b```c``".chars().collect();
    assert_eq!(backtick_run(&chars, 1), 2);
    assert_eq!(backtick_run(&chars, 0), 0);
    assert_eq!(closing_run(&chars, 3, 2), Some(8));
    assert_eq!(closing_run(&chars, 3, 1), None);
}

#[test]
fn the_previous_sibling_is_the_index_before() {
    assert_eq!(previous_sibling(&[4, 0, 2, 3]), Some(vec![4, 0, 2, 2]));
    assert_eq!(previous_sibling(&[4, 0, 2, 0]), None);
    assert_eq!(previous_sibling(&[]), None);
}

#[test]
fn comments_lose_their_javadoc_margin_and_blank_edges() {
    let comment = "\n * First line.\n *\n *     indented <x>\n * last\r\n\n";
    assert_eq!(
        clean_comment(comment),
        vec![
            "First line.".to_string(),
            "".to_string(),
            "   indented \\<x>".to_string(),
            "last".to_string(),
        ]
    );
    assert_eq!(clean_comment(""), Vec::<String>::new());
    assert_eq!(clean_comment(" Only one. "), vec!["Only one.".to_string()]);
}
