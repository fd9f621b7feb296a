use mcpg_cloud::diff::line_diff;

#[test]
fn diff_marks_added_removed_unchanged() {
    let d = line_diff("a\nb\nc\n", "a\nB\nc\nd\n");
    assert!(d.contains("  a\n"), "{d}");
    assert!(d.contains("- b\n"), "{d}");
    assert!(d.contains("+ B\n"), "{d}");
    assert!(d.contains("  c\n"), "{d}");
    assert!(d.contains("+ d\n"), "{d}");
}

#[test]
fn identical_is_all_context() {
    let d = line_diff("x\ny\n", "x\ny\n");
    assert_eq!(d, "  x\n  y\n");
}

#[test]
fn diff_exact_output_prefers_removal_on_ties() {
    let d = line_diff("a\nb\nc\n", "a\nB\nc\nd\n");
    assert_eq!(d, "  a\n- b\n+ B\n  c\n+ d\n");
}

#[test]
fn diff_of_empty_texts_is_empty() {
    assert_eq!(line_diff("", ""), "");
    assert_eq!(line_diff("", "x\n"), "+ x\n");
    assert_eq!(line_diff("x\n", ""), "- x\n");
}

#[test]
fn diff_reads_crlf_and_missing_final_newline_like_lf() {
    assert_eq!(line_diff("a\r\nb\r\n", "a\nb"), "  a\n  b\n");
}

#[test]
fn diff_keeps_a_longest_common_subsequence() {
    // LCS of (x, a, b, c) and (a, b, c, x) has length 3.
    let d = line_diff("x\na\nb\nc\n", "a\nb\nc\nx\n");
    assert_eq!(d, "- x\n  a\n  b\n  c\n+ x\n");
}

#[test]
fn diff_replaces_everything_when_nothing_is_shared() {
    assert_eq!(line_diff("a\nb\n", "c\n"), "- a\n- b\n+ c\n");
}

#[test]
fn diff_keeps_blank_lines_and_final_bare_cr() {
    assert_eq!(line_diff("\n\nz\r", "\nz\r"), "  \n- \n  z\r\n");
}
