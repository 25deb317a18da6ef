use ifttt_lint::diagnostic::{sort_result, Diagnostic, Severity};
use ifttt_lint::lines::{any_in_range, lower_bound, sort_values, SortedLines};
use ifttt_lint::msg::decimal;
use ifttt_lint::vcs::{
    classify_bytes, default_resolve_path, lenient_resolve_path, ChangeMap, FileChanges,
    FileContent, NoneVcsProvider,
};

// ─── target path resolution ───

#[test]
fn strict_requires_double_slash() {
    assert_eq!(
        default_resolve_path("src/a.rs"),
        Err("target path src/a.rs must start with // (e.g. //src/a.rs)".to_string())
    );
}

#[test]
fn strict_accepts_root_relative() {
    assert_eq!(default_resolve_path("//src/a.rs"), Ok("src/a.rs".to_string()));
}

#[test]
fn strict_normalizes_backslashes() {
    assert_eq!(default_resolve_path("//src\\a.rs"), Ok("src/a.rs".to_string()));
}

#[test]
fn strict_rejects_absolute_after_prefix() {
    assert_eq!(
        default_resolve_path("///etc/passwd"),
        Err("target path ///etc/passwd must be relative after // (absolute paths are not allowed)".to_string())
    );
}

#[test]
fn strict_rejects_traversal_even_with_backslashes() {
    assert_eq!(
        default_resolve_path("//foo\\..\\secret"),
        Err("path traversal (..) is not allowed in target: //foo\\..\\secret".to_string())
    );
    assert!(default_resolve_path("//..").is_err());
    assert!(default_resolve_path("//a/../b").is_err());
}

#[test]
fn strict_allows_dots_inside_names() {
    assert_eq!(default_resolve_path("//a/..b/c..").unwrap(), "a/..b/c..");
}

#[test]
fn lenient_accepts_bare_and_single_slash() {
    assert_eq!(lenient_resolve_path("a.rs"), Ok("a.rs".to_string()));
    assert_eq!(lenient_resolve_path("/src/a.rs"), Ok("src/a.rs".to_string()));
    assert_eq!(lenient_resolve_path("//src/a.rs"), Ok("src/a.rs".to_string()));
}

#[test]
fn lenient_rejects_urls() {
    assert_eq!(
        lenient_resolve_path("https://example.com/x"),
        Err("URL targets are not supported: https://example.com/x".to_string())
    );
    assert!(lenient_resolve_path("http://example.com/x").is_err());
}

#[test]
fn lenient_rejects_absolute_and_traversal() {
    assert_eq!(
        lenient_resolve_path("///x"),
        Err("target path ///x must be relative (absolute paths are not allowed)".to_string())
    );
    assert!(lenient_resolve_path("../x").is_err());
}

#[test]
fn none_provider_resolves_by_mode() {
    let strict = NoneVcsProvider::new("/r".to_string(), true, vec![]);
    assert!(strict.try_resolve_path("a.rs").is_err());
    let lenient = NoneVcsProvider::new("/r".to_string(), false, vec!["a.rs".to_string()]);
    assert_eq!(lenient.try_resolve_path("a.rs"), Ok("a.rs".to_string()));
    assert_eq!(lenient.root(), "/r");
    assert!(!lenient.is_strict());
    assert_eq!(lenient.validate_files().len(), 1);
}

// ─── file contents ───

#[test]
fn text_is_text() {
    assert_eq!(classify_bytes("a", b"hello\n"), Ok(FileContent::Text("hello\n".to_string())));
}

#[test]
fn nul_byte_is_binary() {
    assert_eq!(classify_bytes("a", b"he\0llo"), Ok(FileContent::Binary));
}

#[test]
fn invalid_utf8_in_probe_is_binary() {
    assert_eq!(classify_bytes("a", &[b'a', 0xff, b'b']), Ok(FileContent::Binary));
}

#[test]
fn utf8_cut_at_probe_end_is_text() {
    // 8191 ASCII bytes, then a 2-byte character straddling the probe window.
    let mut bytes = vec![b'x'; 8191];
    bytes.extend_from_slice("é".as_bytes());
    match classify_bytes("a", &bytes) {
        Ok(FileContent::Text(t)) => assert!(t.ends_with('é')),
        other => panic!("expected text, got {other:?}"),
    }
}

#[test]
fn invalid_utf8_after_probe_is_an_error() {
    let mut bytes = vec![b'x'; 9000];
    bytes.push(0xff);
    assert_eq!(classify_bytes("f.txt", &bytes), Err("read f.txt".to_string()));
}

#[test]
fn as_text() {
    assert_eq!(FileContent::Text("x".to_string()).as_text().map(|s| s.as_str()), Some("x"));
    assert_eq!(FileContent::Binary.as_text(), None);
}

// ─── change maps ───

fn lines(v: &[usize]) -> FileChanges {
    FileChanges {
        added_lines: v.to_vec(),
        removed_lines: vec![],
        removed_new_positions: vec![],
        deleted: false,
    }
}

#[test]
fn insert_replaces_in_place() {
    let mut m = ChangeMap::new();
    m.insert("a".to_string(), lines(&[1]));
    m.insert("b".to_string(), lines(&[2]));
    m.insert("a".to_string(), lines(&[3]));
    assert_eq!(m.len(), 2);
    assert_eq!(m.key_at(0), "a");
    assert_eq!(m.get("a").unwrap().added_lines, vec![3]);
    assert!(m.contains_key("b"));
    assert!(!m.contains_key("c"));
}

#[test]
fn merge_unions_lines_and_mark_deleted_keeps_them() {
    let mut m = ChangeMap::new();
    m.merge("a".to_string(), lines(&[1]));
    m.merge("a".to_string(), lines(&[2]));
    let a = m.get("a").unwrap();
    assert!(a.added_lines.contains(&1) && a.added_lines.contains(&2));
    m.mark_deleted("a".to_string());
    m.mark_deleted("gone".to_string());
    assert!(m.get("a").unwrap().deleted);
    assert!(m.get("a").unwrap().added_lines.contains(&2));
    assert!(m.get("gone").unwrap().deleted);
    assert!(m.get("gone").unwrap().added_lines.is_empty());
}

#[test]
fn retain_deleted_keeps_order_of_deleted_entries() {
    let mut m = ChangeMap::new();
    m.insert("x".to_string(), FileChanges::deleted());
    m.insert("y".to_string(), lines(&[1]));
    m.insert("z".to_string(), FileChanges::deleted());
    m.retain_deleted();
    assert_eq!(m.len(), 2);
    assert_eq!(m.key_at(0), "x");
    assert_eq!(m.key_at(1), "z");
}

#[test]
fn remove_entry() {
    let mut m = ChangeMap::new();
    m.insert("x".to_string(), lines(&[1]));
    m.insert("y".to_string(), lines(&[2]));
    m.remove("x");
    assert_eq!(m.len(), 1);
    assert_eq!(m.key_at(0), "y");
    m.remove("nothing");
    assert_eq!(m.len(), 1);
}

// ─── sorted lines ───

#[test]
fn sorted_lines_queries() {
    let v = sort_values(&vec![9, 3, 5, 3]);
    assert_eq!(v, vec![3, 3, 5, 9]);
    assert_eq!(lower_bound(&v, 4), 2);
    assert!(any_in_range(&v, 4, 5));
    assert!(!any_in_range(&v, 6, 8));
    assert!(!any_in_range(&v, 5, 4));
    let s = SortedLines::from_changes(&FileChanges {
        added_lines: vec![7, 2],
        removed_lines: vec![],
        removed_new_positions: vec![4],
        deleted: false,
    });
    assert!(s.added_in(2, 2));
    assert!(!s.added_in(3, 6));
    assert!(s.removed_in(1, 4));
    assert!(s.has_removals());
}

// ─── report order and numbers ───

fn diag(sev: Severity, file: &str, line: usize, msg: &str) -> Diagnostic {
    Diagnostic { file: file.to_string(), line, severity: sev, message: msg.to_string(), target: None }
}

#[test]
fn findings_sort_by_severity_file_line_message() {
    let mut r = vec![
        diag(Severity::Warning, "a.rs", 1, "w"),
        diag(Severity::Error, "b.rs", 2, "y"),
        diag(Severity::Error, "b.rs", 2, "x"),
        diag(Severity::Error, "a.rs", 10, "z"),
        diag(Severity::Error, "a.rs", 9, "z"),
    ];
    sort_result(&mut r);
    let keys: Vec<(Severity, String, usize, String)> =
        r.iter().map(|d| (d.severity, d.file.clone(), d.line, d.message.clone())).collect();
    assert_eq!(
        keys,
        vec![
            (Severity::Error, "a.rs".to_string(), 9, "z".to_string()),
            (Severity::Error, "a.rs".to_string(), 10, "z".to_string()),
            (Severity::Error, "b.rs".to_string(), 2, "x".to_string()),
            (Severity::Error, "b.rs".to_string(), 2, "y".to_string()),
            (Severity::Warning, "a.rs".to_string(), 1, "w".to_string()),
        ]
    );
}

#[test]
fn location_and_decimal() {
    assert_eq!(decimal(0), "0");
    assert_eq!(decimal(1234567890), "1234567890");
    assert_eq!(diag(Severity::Error, "src/x.rs", 42, "m").location(), "src/x.rs:42");
}

#[test]
fn diff_is_unsupported() {
    let dir = tempfile::tempdir().unwrap();
    let vcs = NoneVcsProvider::new(dir.path().to_string_lossy().into_owned(), true, vec![]);
    assert!(vcs.diff().is_err());
}

#[test]
fn suppressions_is_unsupported() {
    let dir = tempfile::tempdir().unwrap();
    let vcs = NoneVcsProvider::new(dir.path().to_string_lossy().into_owned(), true, vec![]);
    assert!(vcs.suppressions().is_err());
}

#[test]
fn search_string_in_files_is_unsupported() {
    let dir = tempfile::tempdir().unwrap();
    let vcs = NoneVcsProvider::new(dir.path().to_string_lossy().into_owned(), true, vec![]);
    assert!(vcs.search_files("LINT.").is_err());
}

fn dir_files(files: &[(&str, &[u8])]) -> Vec<(String, Vec<u8>)> {
    files.iter().map(|(p, b)| (p.to_string(), b.to_vec())).collect()
}

#[test]
fn from_directory_all_lines_added() {
    let (map, texts) = ifttt_lint::vcs::from_directory(&dir_files(&[("a.rs", b"line1\nline2\nline3\n")]));
    assert_eq!(texts, vec![("a.rs".to_string(), "line1\nline2\nline3\n".to_string())]);
    let changes = map.get("a.rs").unwrap();
    let mut added = changes.added_lines.clone();
    added.sort();
    assert_eq!(added, vec![1, 2, 3]);
    assert!(changes.removed_lines.is_empty());
}

#[test]
fn from_directory_skips_binary() {
    let (map, texts) = ifttt_lint::vcs::from_directory(&dir_files(&[("binary.rs", b"line1\n\0")]));
    assert!(map.is_empty());
    assert!(texts.is_empty());
}

#[test]
fn from_directory_file_counts() {
    assert_eq!(ifttt_lint::vcs::from_directory(&dir_files(&[("a.rs", b"line1\nline2\n")])).0.len(), 1);
    assert_eq!(ifttt_lint::vcs::from_directory(&dir_files(&[("a.rs", b"l1\n"), ("b.rs", b"l1\nl2\n")])).0.len(), 2);
    assert_eq!(ifttt_lint::vcs::from_directory(&dir_files(&[("a.rs", b"")])).0.len(), 0);
    assert_eq!(ifttt_lint::vcs::from_directory(&dir_files(&[("bad.rs", b"\xff\xfe\n")])).0.len(), 0);
}
