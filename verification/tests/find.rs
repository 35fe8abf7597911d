use agsh::find::{find_results, full_glob_pattern, invalid_glob_error, record_match, MAX_FIND_RESULTS};

#[test]
fn pattern_goes_under_the_base_directory() {
    assert_eq!(full_glob_pattern("*.txt", None), "*.txt");
    assert_eq!(full_glob_pattern("*.txt", Some("/tmp/dir")), "/tmp/dir/*.txt");
    assert_eq!(full_glob_pattern("*.txt", Some("/tmp/dir///")), "/tmp/dir/*.txt");
    assert_eq!(full_glob_pattern("*.rs", Some("/")), "/*.rs");
    assert_eq!(full_glob_pattern("a", Some("")), "/a");
}

#[test]
fn results_one_path_per_line() {
    let matches = vec!["a.txt".to_string(), "b.txt".to_string()];
    let out = find_results(&matches, false);
    assert!(!out.is_error);
    assert_eq!(out.text, "a.txt\nb.txt");
    assert!(!out.text.contains("c.rs"));
}

#[test]
fn no_results() {
    let out = find_results(&Vec::new(), false);
    assert_eq!(out.text, "No files found matching the pattern.");
}

#[test]
fn truncated_results_say_so() {
    let mut matches = Vec::new();
    let mut stop = false;
    for i in 0..500 {
        stop = record_match(&mut matches, format!("f{}", i));
        if stop {
            break;
        }
    }
    assert!(stop);
    assert_eq!(matches.len(), MAX_FIND_RESULTS);
    let out = find_results(&matches, stop);
    assert!(out.text.ends_with("f199\n\n... (truncated, showing first 200 results)"));
}

#[test]
fn glob_error_message() {
    let error = invalid_glob_error("a[", "bad");
    assert_eq!(error.tool_name, "find_files");
    assert_eq!(error.message, "invalid glob pattern 'a[': bad");
}
