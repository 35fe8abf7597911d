use agsh::file::{
    edit_read_check, edit_success, plan_edit, read_file_view, write_success, EditPlan,
};

#[test]
fn read_whole_file() {
    let text = read_file_view("line1\nline2\nline3\n", None, None);
    assert_eq!(text, "line1\nline2\nline3");
    assert!(text.contains("line1"));
    assert!(text.contains("line3"));
}

#[test]
fn read_with_offset_and_limit() {
    let text = read_file_view("line0\nline1\nline2\nline3\nline4\n", Some(1), Some(2));
    assert!(text.contains("line1"));
    assert!(text.contains("line2"));
    assert!(!text.contains("line0"));
    assert!(!text.contains("line3"));
    assert_eq!(text, "line1\nline2");
}

#[test]
fn read_lines_like_str_lines() {
    for content in ["", "\n", "a", "a\n", "a\r\nb", "a\r", "a\n\nb\n", "\r\n\r\n", "x\ry\n"] {
        let expected: Vec<&str> = content.lines().collect();
        assert_eq!(read_file_view(content, None, None), expected.join("\n"), "{:?}", content);
        let expected: Vec<&str> = content.lines().skip(1).take(1).collect();
        assert_eq!(read_file_view(content, Some(1), Some(1)), expected.join("\n"), "{:?}", content);
    }
}

#[test]
fn read_offset_past_end_is_empty() {
    assert_eq!(read_file_view("a\nb\n", Some(5), None), "");
    assert_eq!(read_file_view("a\nb\n", Some(0), Some(0)), "");
    assert_eq!(read_file_view("a\nb\n", Some(1), Some(usize::MAX)), "b");
}

#[test]
fn long_file_gets_a_note_only_without_offset_and_limit() {
    let content: String = (0..2005).map(|i| format!("l{}\n", i)).collect();
    let text = read_file_view(&content, None, None);
    assert!(text.ends_with(
        "l1999\n\n... (showing first 2000 of 2005 lines, use offset/limit to read more)"
    ));
    assert!(!text.contains("l2000"));
    let text = read_file_view(&content, Some(0), None);
    assert!(text.ends_with("l1999"));
    let text = read_file_view(&content, None, Some(3000));
    assert!(text.ends_with("l2004"));
}

#[test]
fn edit_replaces_first_occurrence_by_default() {
    match plan_edit("f", "foo bar foo baz foo", "foo", "qux", false) {
        EditPlan::Write { content, count } => {
            assert_eq!(content, "qux bar foo baz foo");
            assert_eq!(count, 1);
        }
        EditPlan::Reject(_) => panic!("expected a write"),
    }
}

#[test]
fn edit_replace_all_counts_occurrences() {
    match plan_edit("f", "foo bar foo baz foo", "foo", "qux", true) {
        EditPlan::Write { content, count } => {
            assert_eq!(content, "qux bar qux baz qux");
            assert_eq!(count, 3);
            assert_eq!(edit_success("f", count).text, "Successfully edited 'f': replaced 3 occurrence(s)");
        }
        EditPlan::Reject(_) => panic!("expected a write"),
    }
}

#[test]
fn edit_replacement_matches_std() {
    let cases = [
        ("aaaa", "aa", "b"),
        ("abcabc", "", "-"),
        ("", "", "x"),
        ("héllo wörld", "ö", "oe"),
        ("abab", "ab", "ab"),
        ("xyz", "xyz", ""),
    ];
    for (content, old, new) in cases {
        match plan_edit("p", content, old, new, true) {
            EditPlan::Write { content: c, count } => {
                assert_eq!(c, content.replace(old, new));
                assert_eq!(count, content.matches(old).count());
            }
            EditPlan::Reject(_) => panic!("{:?} should contain {:?}", content, old),
        }
        match plan_edit("p", content, old, new, false) {
            EditPlan::Write { content: c, count } => {
                assert_eq!(c, content.replacen(old, new, 1));
                assert_eq!(count, 1);
            }
            EditPlan::Reject(_) => panic!("{:?} should contain {:?}", content, old),
        }
    }
}

#[test]
fn test_edit_file_not_found_string() {
    match plan_edit("edit.txt", "hello world", "nonexistent", "replacement", false) {
        EditPlan::Reject(out) => {
            assert!(out.is_error);
            assert!(out.text.contains("not found"));
            assert_eq!(out.text, "Error: 'nonexistent' not found in 'edit.txt'");
        }
        EditPlan::Write { .. } => panic!("expected a rejection"),
    }
}

#[test]
fn not_found_message_quotes_at_most_100_bytes() {
    let old = "é".repeat(60);
    match plan_edit("p", "abc", &old, "x", true) {
        EditPlan::Reject(out) => {
            assert_eq!(out.text, format!("Error: '{}' not found in 'p'", "é".repeat(50)));
        }
        EditPlan::Write { .. } => panic!("expected a rejection"),
    }
}

#[test]
fn test_edit_without_read_fails() {
    let out = edit_read_check("edit.txt", false, false).expect("must refuse");
    assert!(out.is_error);
    assert!(out.text.contains("must be read before editing"));
    assert_eq!(
        out.text,
        "Error: file 'edit.txt' must be read before editing. Use read_file first, or set force=true to bypass."
    );
}

#[test]
fn test_edit_with_force_bypasses_read_check() {
    assert!(edit_read_check("edit.txt", true, false).is_none());
    assert!(edit_read_check("edit.txt", false, true).is_none());
    assert!(edit_read_check("edit.txt", true, true).is_none());
}

#[test]
fn write_message_counts_bytes() {
    let out = write_success("out.txt", "hello world");
    assert!(!out.is_error);
    assert_eq!(out.text, "Successfully wrote 11 bytes to 'out.txt'");
    assert_eq!(write_success("u", "é€").text, "Successfully wrote 5 bytes to 'u'");
}

#[test]
fn file_without_carriage_returns_reads_back_whole() {
    for content in ["a\nb\n", "a\nb", "", "\n\n", "one line"] {
        let expected = content.strip_suffix('\n').unwrap_or(content);
        assert_eq!(read_file_view(content, None, None), expected);
    }
}

#[test]
fn identity_edit_changes_nothing() {
    match plan_edit("p", "abcabc", "bc", "bc", true) {
        EditPlan::Write { content, count } => {
            assert_eq!(content, "abcabc");
            assert_eq!(count, 2);
        }
        EditPlan::Reject(_) => panic!("expected a write"),
    }
}
