use ifttt_lint::jj::parse_jj_file_list;

#[test]
fn jj_file_list_is_split_at_nul() {
    let out = parse_jj_file_list(b"a.rs\0sub\\b.rs\0\0weird\nname.rs\0");
    assert_eq!(out, vec!["a.rs".to_string(), "sub/b.rs".to_string(), "weird\nname.rs".to_string()]);
}

#[test]
fn jj_file_list_decodes_lossily_and_keeps_last_field() {
    let out = parse_jj_file_list(b"ok.rs\0bad\xff.rs");
    assert_eq!(out, vec!["ok.rs".to_string(), "bad\u{FFFD}.rs".to_string()]);
    assert!(parse_jj_file_list(b"").is_empty());
}

#[test]
fn vcs_kind_prefers_explicit_then_nearest_marker() {
    use_kind_cases();
}

fn use_kind_cases() {
    let none: Vec<(bool, bool)> = Vec::new();
    assert_eq!(ifttt_lint::jj::vcs_kind(Some(ifttt_lint::jj::VcsKind::Jj), &none), ifttt_lint::jj::VcsKind::Jj);
    assert_eq!(ifttt_lint::jj::vcs_kind(None, &none), ifttt_lint::jj::VcsKind::Git);
    let colocated = vec![(false, false), (true, true)];
    assert_eq!(ifttt_lint::jj::vcs_kind(None, &colocated), ifttt_lint::jj::VcsKind::Jj);
    let git_below_jj = vec![(false, true), (true, false)];
    assert_eq!(ifttt_lint::jj::vcs_kind(None, &git_below_jj), ifttt_lint::jj::VcsKind::Git);
    assert_eq!(
        ifttt_lint::jj::vcs_kind(Some(ifttt_lint::jj::VcsKind::Git), &colocated),
        ifttt_lint::jj::VcsKind::Git
    );
}
