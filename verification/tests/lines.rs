use bladeink_compiler::lines::{split_lines, strip_block_comments};

fn chars(s: &str) -> Vec<char> {
    s.chars().collect()
}

#[test]
fn lines_keep_indent_and_drop_comments() {
    let lines = split_lines("a\n  b // note\n\tc");
    assert_eq!(lines.len(), 3);
    assert_eq!(lines[0].content, chars("a"));
    assert!(lines[0].had_newline);
    assert_eq!(lines[1].content, chars("  b"));
    assert_eq!(lines[1].indent, 2);
    assert_eq!(lines[2].indent, 4);
    assert!(lines[2].had_newline);
}

#[test]
fn comment_marks_inside_strings_are_text() {
    let lines = split_lines("x = \"a//b\"\n");
    assert_eq!(lines[0].content, chars("x = \"a//b\""));
}

#[test]
fn block_comments_are_removed() {
    assert_eq!(strip_block_comments(&chars("a /* b */ c")), chars("a  c"));
}
