use ifttt_lint::git::{
    expand_file_globs, is_glob_pattern, normalize_input_path, parse_grep_output,
    parse_ls_files_stage_record, parse_no_ifttt, range_has_null_ref, three_dot_to_log_range,
    detected_range, resolve_input, DiffSource, GitVcsProvider, NULL_OID,
};

// ─── three_dot_to_log_range ───

#[test]
fn three_dot_to_log_range_basic() {
    assert_eq!(three_dot_to_log_range("main...HEAD"), "main..HEAD");
}

#[test]
fn three_dot_to_log_range_no_separator() {
    assert_eq!(three_dot_to_log_range("HEAD"), "HEAD");
}

#[test]
fn three_dot_to_log_range_two_dot_unchanged() {
    // two-dot range has no "...", so it passes through unmodified
    assert_eq!(three_dot_to_log_range("main..HEAD"), "main..HEAD");
}

#[test]
fn three_dot_to_log_range_rightmost_wins() {
    // only the rightmost "..." is converted
    assert_eq!(three_dot_to_log_range("a...b...c"), "a...b..c");
}

#[test]
fn three_dot_to_log_range_sha_refs() {
    assert_eq!(
        three_dot_to_log_range("abc1234...def5678"),
        "abc1234..def5678"
    );
}

// ─── null refs ───

#[test]
fn null_ref_as_base_of_three_dot_range() {
    assert!(range_has_null_ref(&format!("{NULL_OID}...HEAD")));
}

#[test]
fn null_ref_as_head_of_two_dot_range() {
    assert!(range_has_null_ref(&format!("main..{NULL_OID}")));
}

#[test]
fn ordinary_range_has_no_null_ref() {
    assert!(!range_has_null_ref("main...HEAD"));
    assert!(!range_has_null_ref("HEAD"));
}

#[test]
fn shortened_null_ref_is_not_null() {
    assert!(!range_has_null_ref("0000000...HEAD"));
}

// ─── NO_IFTTT ───

#[test]
fn no_ifttt_reason_from_first_matching_line() {
    let log = "Fix bug\n\nNO_IFTTT=generated code\nNO_IFTTT=second\n";
    assert_eq!(parse_no_ifttt(log).as_deref(), Some("generated code"));
}

#[test]
fn no_ifttt_absent() {
    assert_eq!(parse_no_ifttt("Fix bug\n\nSigned-off-by: a\n"), None);
}

#[test]
fn no_ifttt_must_start_the_line() {
    assert_eq!(parse_no_ifttt("see NO_IFTTT=x\n"), None);
}

#[test]
fn no_ifttt_repeated_prefix_is_trimmed() {
    assert_eq!(parse_no_ifttt("NO_IFTTT=NO_IFTTT=why\r\n").as_deref(), Some("why"));
}

#[test]
fn no_ifttt_empty_reason() {
    assert_eq!(parse_no_ifttt("NO_IFTTT=").as_deref(), Some(""));
}

// ─── git ls-files --stage ───

#[test]
fn stage_record_regular_file() {
    let rec = b"100644 e69de29bb2d1d6434b8b29ae775ad8c2e48c5391 0\tsrc/a.rs";
    assert_eq!(parse_ls_files_stage_record(rec).as_deref(), Some("src/a.rs"));
}

#[test]
fn stage_record_submodule_skipped() {
    let rec = b"160000 e69de29bb2d1d6434b8b29ae775ad8c2e48c5391 0\tvendor/lib";
    assert_eq!(parse_ls_files_stage_record(rec), None);
}

#[test]
fn stage_record_empty_and_malformed() {
    assert_eq!(parse_ls_files_stage_record(b""), None);
    assert_eq!(parse_ls_files_stage_record(b"100644 abc 0 no-tab"), None);
}

#[test]
fn stage_record_backslashes_become_slashes() {
    let rec = b"100644 abc 0\tdir\\file.txt";
    assert_eq!(parse_ls_files_stage_record(rec).as_deref(), Some("dir/file.txt"));
}

// ─── git grep output ───

#[test]
fn grep_output_lines() {
    let out = parse_grep_output("a.rs\n\nsub\\b.rs\r\n");
    assert_eq!(out, vec!["a.rs".to_string(), "sub/b.rs".to_string()]);
}

// ─── configuration ───

#[test]
fn git_provider_ranges() {
    let vcs = GitVcsProvider::new("/repo".to_string(), Some("main...HEAD".to_string()), true, vec![]);
    assert_eq!(vcs.effective_diff_range().map(|s| s.as_str()), Some("main...HEAD"));
    assert_eq!(vcs.suppression_log_range().as_deref(), Some("main..HEAD"));
    assert_eq!(vcs.inner().root(), "/repo");
    assert!(vcs.inner().is_strict());

    let null = GitVcsProvider::new("/repo".to_string(), Some(format!("{NULL_OID}...HEAD")), true, vec![]);
    assert_eq!(null.effective_diff_range(), None);
    assert_eq!(null.suppression_log_range(), None);

    let none = GitVcsProvider::new("/repo".to_string(), None, false, vec![("a.rs".to_string(), false)]);
    assert_eq!(none.effective_diff_range(), None);
    assert_eq!(none.suppression_log_range(), None);
    assert_eq!(none.inner().validate_files(), &vec!["a.rs".to_string()]);
}

// ─── file arguments ───

#[test]
fn glob_arguments_expand_against_listed_files() {
    assert!(is_glob_pattern("src/*.rs"));
    assert!(is_glob_pattern("a?.rs"));
    assert!(is_glob_pattern("[ab].rs"));
    assert!(!is_glob_pattern("src/a.rs"));
    let files = vec!["src/*.rs".to_string(), "README.md".to_string()];
    let listed = vec!["src/a.rs".to_string(), "src/sub/b.rs".to_string(), "docs/c.rs".to_string()];
    let (expanded, warnings) = expand_file_globs(&files, &listed);
    // `*` does not cross `/`.
    assert_eq!(expanded, vec!["src/a.rs".to_string(), "README.md".to_string()]);
    assert!(warnings.is_empty());
}

#[test]
fn invalid_glob_argument_passes_through_with_a_warning() {
    let files = vec!["src/[*.rs".to_string()];
    let (expanded, warnings) = expand_file_globs(&files, &vec!["src/a.rs".to_string()]);
    assert_eq!(expanded, files);
    assert_eq!(warnings.len(), 1);
    assert!(warnings[0].starts_with("warning: invalid glob pattern 'src/[*.rs': "));
}

#[test]
fn input_paths_become_root_relative() {
    assert_eq!(normalize_input_path("/repo/src/a.rs", "/repo").as_deref(), Some("src/a.rs"));
    assert_eq!(normalize_input_path("/elsewhere/a.rs", "/repo"), None);
    assert_eq!(normalize_input_path("./src\\a.rs", "/repo").as_deref(), Some("src/a.rs"));
    assert_eq!(normalize_input_path("", "/repo"), None);
}

#[test]
fn resolve_input_unknown_arg_is_error() {
    let result = resolve_input(&Some("not-a-file-or-range".to_string()), false);
    let err = result.unwrap_err();
    assert!(err.contains("not-a-file-or-range"), "error should mention the bad argument: {err}");
}

#[test]
fn resolve_input_unknown_arg_error_hints_syntax() {
    let result = resolve_input(&Some("bogus".to_string()), false);
    let err = result.unwrap_err();
    assert!(err.contains("BASE...HEAD"), "error should hint at correct syntax: {err}");
}

#[test]
fn resolve_input_sources() {
    assert!(matches!(resolve_input(&None, false), Ok(DiffSource::Auto)));
    assert!(matches!(resolve_input(&Some("-".to_string()), false), Ok(DiffSource::Stdin)));
    match resolve_input(&Some("main...HEAD".to_string()), false) {
        Ok(DiffSource::Range { diff_range, log_range }) => {
            assert_eq!(diff_range, "main...HEAD");
            assert_eq!(log_range, "main..HEAD");
        }
        other => panic!("unexpected: {other:?}"),
    }
    match resolve_input(&Some("a..b".to_string()), false) {
        Ok(DiffSource::Range { diff_range, log_range }) => {
            assert_eq!(diff_range, "a..b");
            assert_eq!(log_range, "a..b");
        }
        other => panic!("unexpected: {other:?}"),
    }
    match resolve_input(&Some("changes.patch".to_string()), true) {
        Ok(DiffSource::File(p)) => assert_eq!(p, "changes.patch"),
        other => panic!("unexpected: {other:?}"),
    }
}

#[test]
fn symlink_files_are_skipped_in_structural_validation() {
    let g = GitVcsProvider::new(
        "/repo".to_string(),
        None,
        true,
        vec![("link.rs".to_string(), true), ("./real.rs".to_string(), false), ("/elsewhere/x.rs".to_string(), false)],
    );
    assert_eq!(g.inner().validate_files(), &vec!["real.rs".to_string()]);
    assert!(g.inner().is_strict());
    assert_eq!(g.suppression_log_range(), None);
    let only_link = GitVcsProvider::new("/repo".to_string(), None, false, vec![("link.rs".to_string(), true)]);
    assert!(only_link.inner().validate_files().is_empty());
    assert!(!only_link.inner().is_strict());
}

#[test]
fn detected_range_prefers_upstream_then_origin_branches() {
    assert_eq!(
        detected_range(&Some("origin/feature".to_string()), &Some("abc123".to_string()), true, true),
        Ok("origin/feature...abc123".to_string())
    );
    assert_eq!(detected_range(&Some("up".to_string()), &None, false, false), Ok("up...HEAD".to_string()));
    assert_eq!(detected_range(&None, &None, true, true), Ok("origin/main...HEAD".to_string()));
    assert_eq!(detected_range(&None, &None, false, true), Ok("origin/master...HEAD".to_string()));
    assert_eq!(
        detected_range(&None, &None, false, false),
        Err("no upstream branch found. Provide a ref range (e.g. main...HEAD) or pipe a diff".to_string())
    );
}
