use ifttt_lint::check::{check, find_label_range, ParseCache, ParsedFile};
use ifttt_lint::diagnostic::Severity;
use ifttt_lint::ext::IgnorePattern;
use ifttt_lint::directive::Directive;
use ifttt_lint::vcs::{ChangeMap, FileChanges};
use ifttt_lint::vcs_mock::MockVcsProvider;
use unindent::unindent;

/// Per-file change specification: `(path, added_lines, removed_new_positions)`.
///
/// `removed_lines` is populated with the same values as `removed_new_positions`
/// (they coincide for the simple single-hunk diffs used in tests).
type TestChange = (&'static str, &'static [usize], &'static [usize]);

/// Shorthand for a substitution: same lines appear in both added and removed sets.
const fn sub(path: &'static str, lines: &'static [usize]) -> TestChange {
    (path, lines, lines)
}

/// - `expected_errors`:   `None` = skip, `Some(&[])` = assert empty, `Some(&["msg"])` = assert contains
/// - `expected_findings`: `None` = skip, `Some(&[])` = assert empty, `Some(&["msg"])` = assert contains
struct CheckCase {
    files: &'static [(&'static str, &'static str)],
    /// `None` = scan mode (every line of every file is "added").
    changes: Option<&'static [TestChange]>,
    deleted: &'static [&'static str],
    /// Root-relative file paths to validate structurally.
    file_list: &'static [&'static str],
    ignore_patterns: &'static [&'static str],
    strict: bool,
    expected_errors: Option<&'static [&'static str]>,
    expected_findings: Option<&'static [&'static str]>,
    /// Exact number of findings expected. `None` skips the count check.
    expected_finding_count: Option<usize>,
}

const DEFAULTS: CheckCase = CheckCase {
    files: &[],
    changes: None,
    deleted: &[],
    file_list: &[],
    ignore_patterns: &[],
    strict: true,
    expected_errors: None,
    expected_findings: None,
    expected_finding_count: None,
};

fn changes_of(added: &[usize], removed: &[usize], removed_new: &[usize]) -> FileChanges {
    FileChanges {
        added_lines: added.to_vec(),
        removed_lines: removed.to_vec(),
        removed_new_positions: removed_new.to_vec(),
        deleted: false,
    }
}

fn run_case(case: &CheckCase) {
    let mut mock = MockVcsProvider::default();
    mock.set_strict(case.strict);
    let files: Vec<(String, String)> = case
        .files
        .iter()
        .map(|(path, content)| (path.to_string(), unindent(content)))
        .collect();
    for (path, content) in &files {
        mock.add_file(path, content);
    }

    let mut change_map = ChangeMap::new();
    match case.changes {
        Some(changes) => {
            for (path, added, removed_new) in changes {
                change_map.insert(path.to_string(), changes_of(added, removed_new, removed_new));
            }
            for &path in case.deleted {
                change_map.insert(path.to_string(), FileChanges::deleted());
            }
        }
        None => {
            for (path, content) in &files {
                let line_count = content.lines().count();
                if line_count == 0 {
                    continue;
                }
                let added: Vec<usize> = (1..=line_count).collect();
                change_map.insert(path.clone(), changes_of(&added, &[], &[]));
            }
        }
    }

    let patterns: Vec<IgnorePattern> = case
        .ignore_patterns
        .iter()
        .filter_map(|p| IgnorePattern::new(p).ok())
        .collect();

    mock.set_validate_files(case.file_list);

    let result = check(&mock, &change_map, &patterns);

    let errors: Vec<_> = result
        .iter()
        .filter(|d| d.severity == Severity::Error)
        .collect();
    let warnings: Vec<_> = result
        .iter()
        .filter(|d| d.severity == Severity::Warning)
        .collect();

    if let Some(expected) = case.expected_errors {
        if expected.is_empty() {
            assert!(errors.is_empty(), "expected no errors, got: {:?}", errors);
        } else {
            for msg in expected {
                assert!(
                    errors.iter().any(|e| e.message.contains(msg)),
                    "expected error containing '{}', got: {:?}",
                    msg,
                    errors
                );
            }
        }
    }

    if let Some(expected) = case.expected_findings {
        if expected.is_empty() {
            assert!(
                warnings.is_empty(),
                "expected no findings, got: {:?}",
                warnings
            );
        } else {
            for msg in expected {
                let (field, pattern) = msg
                    .strip_prefix("source:")
                    .map(|p| ("file", p))
                    .unwrap_or(("message", *msg));
                assert!(
                    warnings.iter().any(|f| {
                        if field == "file" {
                            f.file.contains(pattern)
                        } else {
                            f.message.contains(pattern)
                        }
                    }),
                    "expected finding with {field} containing '{pattern}', got: {:?}",
                    warnings
                );
            }
        }
    }

    if let Some(count) = case.expected_finding_count {
        assert_eq!(
            warnings.len(),
            count,
            "expected exactly {count} finding(s), got: {:?}",
            warnings
        );
    }
}

// Binary file requires injecting a null byte; tested with a mock built by hand.
#[test]
fn binary_file_skipped() {
    let mut mock = MockVcsProvider::default();
    let mut content = "// LINT.IfChange\ncode\n// LINT.ThenChange(//nonexistent.rs)\n".to_string();
    content.push('\0');
    mock.add_file("binary.rs", &content);

    let mut changes = ChangeMap::new();
    changes.insert("binary.rs".to_string(), changes_of(&[1, 2, 3], &[], &[]));

    let result = check(&mock, &changes, &[]);
    assert!(result.is_empty());
}

// A realistic PNG file (starts with the 8-byte PNG signature which contains null
// bytes) must be detected as binary and skipped entirely.
#[test]
fn binary_png_file_skipped() {
    let mut mock = MockVcsProvider::default();
    let png_bytes: &[u8] = &[
        0x89, b'P', b'N', b'G', 0x0D, 0x0A, 0x1A, 0x0A, // PNG signature
        0x00, 0x00, 0x00, 0x0D, // IHDR chunk length
        b'I', b'H', b'D', b'R', // IHDR tag
    ];
    let content = String::from_utf8_lossy(png_bytes).into_owned();
    mock.add_file("icon.png", &content);

    let mut changes = ChangeMap::new();
    changes.insert("icon.png".to_string(), changes_of(&[1], &[], &[]));

    let result = check(&mock, &changes, &[]);
    assert!(result.is_empty());
}

// The location of a finding is file:line without the label.
#[test]
fn finding_source_location_omits_label() {
    let mut mock = MockVcsProvider::default();
    mock.add_file(
        "src/a.rs",
        &unindent(
            "
            // LINT.IfChange(my_section)
            fn f() {}
            // LINT.ThenChange(//src/b.rs)
        ",
        ),
    );
    mock.add_file("src/b.rs", "fn b() {}\n");

    let mut changes = ChangeMap::new();
    changes.insert("src/a.rs".to_string(), changes_of(&[2], &[2], &[2]));
    let result = check(&mock, &changes, &[]);
    let warnings: Vec<_> = result
        .iter()
        .filter(|d| d.severity == Severity::Warning)
        .collect();
    assert_eq!(warnings.len(), 1);
    assert_eq!(warnings[0].location(), "src/a.rs:1");
}

// When a non-matching IfChange appears between a matching IfChange and its
// ThenChange (malformed input), the range is capped at the interrupting
// IfChange rather than extending into a different pair's content.
#[test]
fn find_label_range_with_interleaved_non_matching_if_change() {
    let mut cache = ParseCache::new();
    cache.insert(
        "target.rs".to_string(),
        ParsedFile {
            directives: vec![
                Directive::IfChange {
                    line: 1,
                    label: Some("foo".to_string()),
                },
                Directive::IfChange {
                    line: 3,
                    label: Some("bar".to_string()),
                },
                Directive::ThenChange {
                    line: 5,
                    targets: vec![],
                },
            ],
            errors: vec![],
        },
    );

    let range = find_label_range("target.rs", "foo", &cache);
    assert!(range.is_some(), "should find label despite malformed input");
    let range = range.unwrap();
    // Range is [2, 2] — capped at the interrupting IfChange(bar) on line 3,
    // not extending to the ThenChange on line 5.
    assert_eq!(range.start, 2);
    assert_eq!(range.end, 2);
}

#[test]
fn find_label_range_missing_label() {
    let mut cache = ParseCache::new();
    cache.insert(
        "target.rs".to_string(),
        ParsedFile {
            directives: vec![
                Directive::IfChange {
                    line: 1,
                    label: Some("bar".to_string()),
                },
                Directive::ThenChange {
                    line: 3,
                    targets: vec![],
                },
            ],
            errors: vec![],
        },
    );

    assert!(
        find_label_range("target.rs", "nonexistent", &cache).is_none(),
        "should return None for missing label"
    );
}

#[test]
fn directive_recognition_c_style_slash_slash() {
    run_case(&CheckCase {
        files: &[("test.rs", "
                // LINT.IfChange
                code
                // LINT.ThenChange(//b.rs)
            "), ("b.rs", "x\n")],
        changes: Some(const { &[sub("test.rs", &[2])] }),
        expected_findings: Some(&["may need to be reflected in"]),
        ..DEFAULTS
    });
}

#[test]
fn directive_recognition_hash_comment() {
    run_case(&CheckCase {
        files: &[("test.py", "
                # LINT.IfChange
                code
                # LINT.ThenChange(//b.py)
            "), ("b.py", "x\n")],
        changes: Some(const { &[sub("test.py", &[2])] }),
        expected_findings: Some(&["may need to be reflected in"]),
        ..DEFAULTS
    });
}

#[test]
fn directive_recognition_html_comment() {
    run_case(&CheckCase {
        files: &[("test.html", "
                <!-- LINT.IfChange -->
                code
                <!-- LINT.ThenChange(//b.html) -->
            "), ("b.html", "x\n")],
        changes: Some(const { &[sub("test.html", &[2])] }),
        expected_findings: Some(&["may need to be reflected in"]),
        ..DEFAULTS
    });
}

#[test]
fn directive_recognition_sql_dash() {
    run_case(&CheckCase {
        files: &[("test.sql", "
                -- LINT.IfChange
                code
                -- LINT.ThenChange(//b.sql)
            "), ("b.sql", "x\n")],
        changes: Some(const { &[sub("test.sql", &[2])] }),
        expected_findings: Some(&["may need to be reflected in"]),
        ..DEFAULTS
    });
}

#[test]
fn directive_recognition_block_comment() {
    run_case(&CheckCase {
        files: &[("test.js", "
                /* LINT.IfChange */
                code
                /* LINT.ThenChange(//b.js) */
            "), ("b.js", "x\n")],
        changes: Some(const { &[sub("test.js", &[2])] }),
        expected_findings: Some(&["may need to be reflected in"]),
        ..DEFAULTS
    });
}

#[test]
fn directive_recognition_semicolon() {
    run_case(&CheckCase {
        files: &[("test.lisp", "
                ; LINT.IfChange
                code
                ; LINT.ThenChange(//b.lisp)
            "), ("b.lisp", "x\n")],
        changes: Some(const { &[sub("test.lisp", &[2])] }),
        expected_findings: Some(&["may need to be reflected in"]),
        ..DEFAULTS
    });
}

#[test]
fn directive_recognition_percent() {
    run_case(&CheckCase {
        files: &[("test.tex", "
                % LINT.IfChange
                code
                % LINT.ThenChange(//b.tex)
            "), ("b.tex", "x\n")],
        changes: Some(const { &[sub("test.tex", &[2])] }),
        expected_findings: Some(&["may need to be reflected in"]),
        ..DEFAULTS
    });
}

#[test]
fn directive_recognition_makefile() {
    run_case(&CheckCase {
        files: &[("Makefile", "
                # LINT.IfChange
                all:
                # LINT.ThenChange(//b.mk)
            "), ("b.mk", "x\n")],
        changes: Some(const { &[sub("Makefile", &[2])] }),
        expected_findings: Some(&["may need to be reflected in"]),
        ..DEFAULTS
    });
}

#[test]
fn directive_recognition_dockerfile() {
    run_case(&CheckCase {
        files: &[("Dockerfile", "
                # LINT.IfChange
                FROM ubuntu
                # LINT.ThenChange(//b.dockerfile)
            "), ("b.dockerfile", "x\n")],
        changes: Some(const { &[sub("Dockerfile", &[2])] }),
        expected_findings: Some(&["may need to be reflected in"]),
        ..DEFAULTS
    });
}

#[test]
fn directive_recognition_vue_slash() {
    run_case(&CheckCase {
        files: &[("test.vue", "
                // LINT.IfChange
                code
                // LINT.ThenChange(//b.vue)
            "), ("b.vue", "x\n")],
        changes: Some(const { &[sub("test.vue", &[2])] }),
        expected_findings: Some(&["may need to be reflected in"]),
        ..DEFAULTS
    });
}

#[test]
fn directive_recognition_vue_html() {
    run_case(&CheckCase {
        files: &[("test.vue", "
                <!-- LINT.IfChange -->
                code
                <!-- LINT.ThenChange(//b.vue) -->
            "), ("b.vue", "x\n")],
        changes: Some(const { &[sub("test.vue", &[2])] }),
        expected_findings: Some(&["may need to be reflected in"]),
        ..DEFAULTS
    });
}

#[test]
fn directive_recognition_php_slash() {
    run_case(&CheckCase {
        files: &[("test.php", "
                // LINT.IfChange
                code
                // LINT.ThenChange(//b.php)
            "), ("b.php", "x\n")],
        changes: Some(const { &[sub("test.php", &[2])] }),
        expected_findings: Some(&["may need to be reflected in"]),
        ..DEFAULTS
    });
}

#[test]
fn directive_recognition_php_hash() {
    run_case(&CheckCase {
        files: &[("test.php", "
                # LINT.IfChange
                code
                # LINT.ThenChange(//b.php)
            "), ("b.php", "x\n")],
        changes: Some(const { &[sub("test.php", &[2])] }),
        expected_findings: Some(&["may need to be reflected in"]),
        ..DEFAULTS
    });
}

#[test]
fn directive_recognition_haskell_block_comment() {
    run_case(&CheckCase {
        files: &[("test.hs", "
                {- LINT.IfChange -}
                code = 42
                {- LINT.ThenChange(//b.hs) -}
            "), ("b.hs", "x\n")],
        changes: Some(const { &[sub("test.hs", &[2])] }),
        expected_findings: Some(&["may need to be reflected in"]),
        ..DEFAULTS
    });
}

#[test]
fn directive_recognition_sql_block_comment() {
    run_case(&CheckCase {
        files: &[("test.sql", "
                /* LINT.IfChange */
                SELECT 1;
                /* LINT.ThenChange(//b.sql) */
            "), ("b.sql", "x\n")],
        changes: Some(const { &[sub("test.sql", &[2])] }),
        expected_findings: Some(&["may need to be reflected in"]),
        ..DEFAULTS
    });
}

#[test]
fn directive_recognition_directive_in_string_literal_ignored() {
    run_case(&CheckCase {
        files: &[("test.rs", "let s = \"LINT.ThenChange(//foo.rs)\";
")],
        expected_findings: Some(&[]),
        ..DEFAULTS
    });
}

#[test]
fn directive_recognition_directive_in_multiline_string_ignored_rust() {
    run_case(&CheckCase {
        files: &[("test.rs", r#"
                let s = "
                    // LINT.IfChange
                    some code
                    // LINT.ThenChange(//nonexistent.rs)
                ";
            "#)],
        expected_findings: Some(&[]),
        expected_errors: Some(&[]),
        ..DEFAULTS
    });
}

#[test]
fn directive_recognition_directive_in_raw_string_ignored_rust() {
    run_case(&CheckCase {
        files: &[("test.rs", r##"
                let s = r#"
                    // LINT.IfChange
                    some code
                    // LINT.ThenChange(//nonexistent.rs)
                "#;
            "##)],
        expected_findings: Some(&[]),
        expected_errors: Some(&[]),
        ..DEFAULTS
    });
}

#[test]
fn directive_recognition_directive_in_triple_quote_ignored_python() {
    run_case(&CheckCase {
        files: &[("test.py", r#"
                s = """
                # LINT.IfChange
                some code
                # LINT.ThenChange(//nonexistent.py)
                """
            "#)],
        expected_findings: Some(&[]),
        expected_errors: Some(&[]),
        ..DEFAULTS
    });
}

#[test]
fn directive_recognition_directive_in_backtick_ignored_js() {
    run_case(&CheckCase {
        files: &[("test.js", "
                const s = `
                    // LINT.IfChange
                    some code
                    // LINT.ThenChange(//nonexistent.js)
                `;
            ")],
        expected_findings: Some(&[]),
        expected_errors: Some(&[]),
        ..DEFAULTS
    });
}

#[test]
fn directive_recognition_directive_in_double_quote_ignored_c() {
    run_case(&CheckCase {
        files: &[("test.c", r#"
                char *s = "// LINT.IfChange";
                char *t = "// LINT.ThenChange(//nonexistent.c)";
            "#)],
        expected_findings: Some(&[]),
        expected_errors: Some(&[]),
        ..DEFAULTS
    });
}

#[test]
fn directive_recognition_directive_in_heredoc_ignored_shell() {
    run_case(&CheckCase {
        files: &[("test.sh", "
                cat <<'EOF'
                # LINT.IfChange
                some text
                # LINT.ThenChange(//nonexistent.sh)
                EOF
            ")],
        expected_findings: Some(&[]),
        expected_errors: Some(&[]),
        ..DEFAULTS
    });
}

#[test]
fn directive_recognition_directive_in_heredoc_ignored_ruby() {
    run_case(&CheckCase {
        files: &[("test.rb", "
                x = <<~HEREDOC
                  # LINT.IfChange
                  some text
                  # LINT.ThenChange(//nonexistent.rb)
                HEREDOC
            ")],
        expected_findings: Some(&[]),
        expected_errors: Some(&[]),
        ..DEFAULTS
    });
}

#[test]
fn directive_recognition_directive_in_heredoc_ignored_perl() {
    run_case(&CheckCase {
        files: &[("test.pl", "
                my $x = <<END;
                # LINT.IfChange
                some text
                # LINT.ThenChange(//nonexistent.pl)
                END
            ")],
        expected_findings: Some(&[]),
        expected_errors: Some(&[]),
        ..DEFAULTS
    });
}

#[test]
fn directive_recognition_directive_in_heredoc_ignored_php() {
    run_case(&CheckCase {
        files: &[("test.php", r#"
                $x = <<<EOT
                // LINT.IfChange
                some text
                // LINT.ThenChange(//nonexistent.php)
                EOT;
            "#)],
        expected_findings: Some(&[]),
        expected_errors: Some(&[]),
        ..DEFAULTS
    });
}

#[test]
fn directive_recognition_directive_in_heredoc_ignored_hcl() {
    run_case(&CheckCase {
        files: &[("test.tf", "
                variable = <<-EOT
                # LINT.IfChange
                some text
                # LINT.ThenChange(//nonexistent.tf)
                EOT
            ")],
        expected_findings: Some(&[]),
        expected_errors: Some(&[]),
        ..DEFAULTS
    });
}

#[test]
fn directive_recognition_directive_in_raw_string_ignored_cpp() {
    run_case(&CheckCase {
        files: &[("test.cpp", r#"
                auto s = R"(
                // LINT.IfChange
                some text
                // LINT.ThenChange(//nonexistent.cpp)
                )";
            "#)],
        expected_findings: Some(&[]),
        expected_errors: Some(&[]),
        ..DEFAULTS
    });
}

#[test]
fn directive_recognition_directive_in_verbatim_string_ignored_csharp() {
    run_case(&CheckCase {
        files: &[("test.cs", r#"
                var s = @"
                // LINT.IfChange
                some text
                // LINT.ThenChange(//nonexistent.cs)
                ";
            "#)],
        expected_findings: Some(&[]),
        expected_errors: Some(&[]),
        ..DEFAULTS
    });
}

#[test]
fn directive_recognition_directive_in_text_block_ignored_java() {
    run_case(&CheckCase {
        files: &[("test.java", r#"
                String s = """
                // LINT.IfChange
                some text
                // LINT.ThenChange(//nonexistent.java)
                """;
            "#)],
        expected_findings: Some(&[]),
        expected_errors: Some(&[]),
        ..DEFAULTS
    });
}

#[test]
fn directive_recognition_directive_in_multiline_string_ignored_swift() {
    run_case(&CheckCase {
        files: &[("test.swift", r#"
                let s = """
                // LINT.IfChange
                some text
                // LINT.ThenChange(//nonexistent.swift)
                """
            "#)],
        expected_findings: Some(&[]),
        expected_errors: Some(&[]),
        ..DEFAULTS
    });
}

#[test]
fn directive_recognition_directive_in_single_hash_extended_string_ignored_swift() {
    run_case(&CheckCase {
        // `#"..."#` is a Swift extended string — the interior may contain
        // unescaped `"` characters, so the generic string handler can't
        // reliably skip it. Directives inside must still be ignored.
        files: &[("test.swift", r###"
                let s = #"
                she said "hello"
                // LINT.IfChange
                some text
                // LINT.ThenChange(//nonexistent.swift)
                "#
            "###)],
        expected_findings: Some(&[]),
        expected_errors: Some(&[]),
        ..DEFAULTS
    });
}

#[test]
fn directive_recognition_directive_in_triple_quote_ignored_groovy() {
    run_case(&CheckCase {
        files: &[("test.groovy", r#"
                def s = """
                // LINT.IfChange
                some text
                // LINT.ThenChange(//nonexistent.groovy)
                """
            "#)],
        expected_findings: Some(&[]),
        expected_errors: Some(&[]),
        ..DEFAULTS
    });
}

#[test]
fn directive_recognition_directive_in_long_string_ignored_lua() {
    run_case(&CheckCase {
        files: &[("test.lua", "
                local s = [[
                -- LINT.IfChange
                some text
                -- LINT.ThenChange(//nonexistent.lua)
                ]]
            ")],
        expected_findings: Some(&[]),
        expected_errors: Some(&[]),
        ..DEFAULTS
    });
}

#[test]
fn directive_recognition_directive_in_multiline_string_ignored_toml() {
    run_case(&CheckCase {
        files: &[("test.toml", r#"
                x = """
                # LINT.IfChange
                some text
                # LINT.ThenChange(//nonexistent.toml)
                """
            "#)],
        expected_findings: Some(&[]),
        expected_errors: Some(&[]),
        ..DEFAULTS
    });
}

#[test]
fn directive_recognition_directive_in_triple_quote_ignored_starlark() {
    run_case(&CheckCase {
        files: &[("test.bzl", r#"
                x = """
                # LINT.IfChange
                some text
                # LINT.ThenChange(//nonexistent.bzl)
                """
            "#)],
        expected_findings: Some(&[]),
        expected_errors: Some(&[]),
        ..DEFAULTS
    });
}

#[test]
fn directive_recognition_directive_in_triple_single_quote_ignored_dart() {
    run_case(&CheckCase {
        files: &[("test.dart", "
                var s = '''
                // LINT.IfChange
                some text
                // LINT.ThenChange(//nonexistent.dart)
                ''';
            ")],
        expected_findings: Some(&[]),
        expected_errors: Some(&[]),
        ..DEFAULTS
    });
}

#[test]
fn directive_recognition_directive_in_herestring_ignored_powershell() {
    run_case(&CheckCase {
        files: &[("test.ps1", "
                $s = @\"
                # LINT.IfChange
                some text
                # LINT.ThenChange(//nonexistent.ps1)
                \"@
            ")],
        expected_findings: Some(&[]),
        expected_errors: Some(&[]),
        ..DEFAULTS
    });
}

#[test]
fn directive_recognition_directive_in_multiline_string_ignored_nix() {
    run_case(&CheckCase {
        files: &[("test.nix", "
                x = ''
                # LINT.IfChange
                some text
                # LINT.ThenChange(//nonexistent.nix)
                '';
            ")],
        expected_findings: Some(&[]),
        expected_errors: Some(&[]),
        ..DEFAULTS
    });
}

#[test]
fn directive_recognition_nix_indented_string_closed_before_letter() {
    run_case(&CheckCase {
        // `''n` is NOT a Nix escape — `''` closes the string, `n` is code.
        // The real directive after the string must be recognised.
        files: &[("test.nix", "
                x = ''
                  inner
                ''n;
                # LINT.IfChange
                code
                # LINT.ThenChange(//b.nix)
            "), ("b.nix", "x\n")],
        changes: Some(const { &[sub("test.nix", &[5])] }),
        expected_findings: Some(&["may need to be reflected in"]),
        expected_errors: Some(&[]),
        ..DEFAULTS
    });
}

#[test]
fn directive_recognition_real_directive_pairs_around_string_literal() {
    run_case(&CheckCase {
        // Real IfChange, fake ThenChange inside string, real ThenChange after.
        // The scanner must skip the string so the real pair is correctly matched.
        files: &[("test.rs", r#"
                // LINT.IfChange
                let s = "
                    // LINT.ThenChange(//decoy.rs)
                ";
                real code
                // LINT.ThenChange(//b.rs)
            "#), ("b.rs", "x\n")],
        changes: Some(const { &[sub("test.rs", &[5])] }),
        expected_findings: Some(&["may need to be reflected in"]),
        expected_errors: Some(&[]),
        ..DEFAULTS
    });
}

#[test]
fn directive_recognition_real_directive_pairs_around_triple_quote() {
    run_case(&CheckCase {
        files: &[("test.py", r#"
                # LINT.IfChange
                s = """
                # LINT.ThenChange(//decoy.py)
                """
                real_code = 1
                # LINT.ThenChange(//b.py)
            "#), ("b.py", "x\n")],
        changes: Some(const { &[sub("test.py", &[5])] }),
        expected_findings: Some(&["may need to be reflected in"]),
        expected_errors: Some(&[]),
        ..DEFAULTS
    });
}

#[test]
fn directive_recognition_real_directive_pairs_around_backtick() {
    run_case(&CheckCase {
        files: &[("test.js", "
                // LINT.IfChange
                const s = `
                    // LINT.ThenChange(//decoy.js)
                `;
                real_code();
                // LINT.ThenChange(//b.js)
            "), ("b.js", "x\n")],
        changes: Some(const { &[sub("test.js", &[5])] }),
        expected_findings: Some(&["may need to be reflected in"]),
        expected_errors: Some(&[]),
        ..DEFAULTS
    });
}

#[test]
fn directive_recognition_decoy_if_change_in_string_ignored() {
    run_case(&CheckCase {
        // Real IfChange, fake IfChange inside string, real ThenChange after.
        // Without proper string skipping, the fake IfChange would trigger a
        // "consecutive IfChange" error on the real one.
        files: &[("test.rs", r#"
                // LINT.IfChange
                let s = "
                    // LINT.IfChange
                ";
                real code
                // LINT.ThenChange(//b.rs)
            "#), ("b.rs", "x\n")],
        changes: Some(const { &[sub("test.rs", &[5])] }),
        expected_findings: Some(&["may need to be reflected in"]),
        expected_errors: Some(&[]),
        ..DEFAULTS
    });
}

#[test]
fn directive_recognition_decoy_if_change_in_triple_quote_ignored() {
    run_case(&CheckCase {
        files: &[("test.py", r#"
                # LINT.IfChange
                s = """
                # LINT.IfChange
                """
                real_code = 1
                # LINT.ThenChange(//b.py)
            "#), ("b.py", "x\n")],
        changes: Some(const { &[sub("test.py", &[5])] }),
        expected_findings: Some(&["may need to be reflected in"]),
        expected_errors: Some(&[]),
        ..DEFAULTS
    });
}

#[test]
fn directive_recognition_decoy_if_change_in_backtick_ignored() {
    run_case(&CheckCase {
        files: &[("test.js", "
                // LINT.IfChange
                const s = `
                    // LINT.IfChange
                `;
                real_code();
                // LINT.ThenChange(//b.js)
            "), ("b.js", "x\n")],
        changes: Some(const { &[sub("test.js", &[5])] }),
        expected_findings: Some(&["may need to be reflected in"]),
        expected_errors: Some(&[]),
        ..DEFAULTS
    });
}

#[test]
fn directive_recognition_escaped_quote_in_string_not_confused() {
    run_case(&CheckCase {
        files: &[("test.rs", r#"
                let s = "she said \"// LINT.IfChange\" ok";
                // LINT.IfChange
                real code
                // LINT.ThenChange(//b.rs)
            "#), ("b.rs", "x\n")],
        changes: Some(const { &[sub("test.rs", &[3])] }),
        expected_findings: Some(&["may need to be reflected in"]),
        expected_errors: Some(&[]),
        ..DEFAULTS
    });
}

#[test]
fn directive_recognition_multiline_then_change_block_comment() {
    run_case(&CheckCase {
        files: &[("test.js", "
                /* LINT.IfChange */
                code
                /* LINT.ThenChange( */
                /* //b.js) */
            "), ("b.js", "x\n")],
        changes: Some(const { &[sub("test.js", &[2])] }),
        expected_findings: Some(&["may need to be reflected in"]),
        ..DEFAULTS
    });
}

#[test]
fn directive_recognition_multiline_then_change_html_comment() {
    run_case(&CheckCase {
        files: &[("test.html", "
                <!-- LINT.IfChange -->
                code
                <!-- LINT.ThenChange( -->
                <!-- //b.html) -->
            "), ("b.html", "x\n")],
        changes: Some(const { &[sub("test.html", &[2])] }),
        expected_findings: Some(&["may need to be reflected in"]),
        ..DEFAULTS
    });
}

#[test]
fn directive_recognition_multiline_then_change_trailing_comma() {
    run_case(&CheckCase {
        // A trailing comma in a multi-line ThenChange must not produce a
        // phantom empty target (which would fail path validation).
        files: &[("a.toml", "
                # LINT.IfChange(ver)
                version = \"1.0\"
                # LINT.ThenChange(
                #     //b.toml:ver,
                # )
            "), ("b.toml", "
                # LINT.IfChange(ver)
                version = \"1.0\"
                # LINT.ThenChange(
                #     //a.toml:ver,
                # )
            ")],
        changes: Some(const { &[sub("a.toml", &[2]), sub("b.toml", &[2])] }),
        expected_errors: Some(&[]),
        expected_findings: Some(&[]),
        ..DEFAULTS
    });
}

#[test]
fn directive_recognition_backtick_mention_in_doc_comment_ignored() {
    run_case(&CheckCase {
        // `LINT.ThenChange` inside backtick-quoted text in a doc comment must
        // not be treated as a directive (backtick is not comment decoration).
        files: &[("test.rs", "
                /// Returns the range between `LINT.IfChange` and its
                /// `LINT.ThenChange`, or `None` if missing.
                // LINT.IfChange
                fn f() {}
                // LINT.ThenChange(//b.rs)
            "), ("b.rs", "x\n")],
        changes: Some(const { &[sub("test.rs", &[4])] }),
        expected_findings: Some(&["may need to be reflected in"]),
        expected_errors: Some(&[]),
        ..DEFAULTS
    });
}

#[test]
fn directive_recognition_repeated_slash_prefix_not_recognized() {
    run_case(&CheckCase {
        // `///` is not the registered prefix `//` — must not match.
        files: &[("test.rs", "
                /// LINT.IfChange
                fn f() {}
                /// LINT.ThenChange(//b.rs)
            "), ("b.rs", "x\n")],
        expected_findings: Some(&[]),
        expected_errors: Some(&[]),
        ..DEFAULTS
    });
}

#[test]
fn directive_recognition_repeated_hash_prefix_not_recognized() {
    run_case(&CheckCase {
        // `##` is not the registered prefix `#` — must not match.
        files: &[("test.py", "
                ## LINT.IfChange
                x = 1
                ## LINT.ThenChange(//b.py)
            "), ("b.py", "x\n")],
        expected_findings: Some(&[]),
        expected_errors: Some(&[]),
        ..DEFAULTS
    });
}

#[test]
fn directive_recognition_repeated_dash_prefix_not_recognized() {
    run_case(&CheckCase {
        // `---` is not the registered prefix `--` — must not match.
        files: &[("test.sql", "
                --- LINT.IfChange
                SELECT 1;
                --- LINT.ThenChange(//b.sql)
            "), ("b.sql", "x\n")],
        expected_findings: Some(&[]),
        expected_errors: Some(&[]),
        ..DEFAULTS
    });
}

#[test]
fn directive_recognition_repeated_semi_prefix_not_recognized() {
    run_case(&CheckCase {
        // `;;` is not the registered prefix `;` — must not match.
        files: &[("test.lisp", "
                ;; LINT.IfChange
                code
                ;; LINT.ThenChange(//b.lisp)
            "), ("b.lisp", "x\n")],
        expected_findings: Some(&[]),
        expected_errors: Some(&[]),
        ..DEFAULTS
    });
}

#[test]
fn directive_recognition_repeated_pct_prefix_not_recognized() {
    run_case(&CheckCase {
        // `%%` is not the registered prefix `%` — must not match.
        files: &[("test.tex", "
                %% LINT.IfChange
                content
                %% LINT.ThenChange(//b.tex)
            "), ("b.tex", "x\n")],
        expected_findings: Some(&[]),
        expected_errors: Some(&[]),
        ..DEFAULTS
    });
}

#[test]
fn directive_recognition_multibyte_utf8_parsed_correctly() {
    run_case(&CheckCase {
        // Files with multi-byte UTF-8 characters (em-dash, CJK, emoji) are
        // scanned correctly and directives around them are recognized.
        files: &[("test.rs", "
                // LINT.IfChange
                let s = \"Principles — must follow\";
                let t = \"café ☕ naïve 日本語\";
                // LINT.ThenChange(//b.rs)
            "), ("b.rs", "x\n")],
        changes: Some(const { &[sub("test.rs", &[2])] }),
        expected_findings: Some(&["may need to be reflected in"]),
        expected_errors: Some(&[]),
        ..DEFAULTS
    });
}

#[test]
fn directive_recognition_prose_mention_not_parsed_as_multiline() {
    run_case(&CheckCase {
        // "Use LINT.ThenChange to keep in sync." must not trigger multiline mode.
        files: &[("test.rs", "
                // Use LINT.ThenChange to keep in sync.
                // LINT.IfChange
                fn f() {}
                // LINT.ThenChange(//b.rs)
            "), ("b.rs", "x\n")],
        changes: Some(const { &[sub("test.rs", &[3])] }),
        expected_findings: Some(&["may need to be reflected in"]),
        ..DEFAULTS
    });
}

#[test]
fn directive_recognition_string_ending_at_eol_not_treated_as_multiline() {
    run_case(&CheckCase {
        // Regression: when a closing `"` is the last byte on a line (e.g.
        // `#include "foo.h"`), the scanner used to enter a multi-line skip
        // region, swallowing subsequent comment tokens including LINT directives.
        files: &[("test.cc", r#"
                #include "foo.h"
                // LINT.IfChange
                int x = 1;
                // LINT.ThenChange(//b.cc)
            "#), ("b.cc", "x\n")],
        changes: Some(const { &[sub("test.cc", &[3])] }),
        expected_findings: Some(&["may need to be reflected in"]),
        expected_errors: Some(&[]),
        ..DEFAULTS
    });
}

#[test]
fn directive_recognition_fenced_code_block_in_markdown_ignored() {
    run_case(&CheckCase {
        files: &[("docs/guide.md", "
                <!-- LINT.IfChange -->
                Real content here.
                <!-- LINT.ThenChange(//src/lib.rs) -->

                ```python
                # LINT.IfChange
                SPEED = 88
                # LINT.ThenChange(//tests/test_speed.py)
                ```
            "), ("src/lib.rs", "fn lib() {}\n")],
        changes: Some(const { &[sub("docs/guide.md", &[2])] }),
        expected_findings: Some(&["src/lib.rs"]),
        expected_finding_count: Some(1),
        ..DEFAULTS
    });
}

#[test]
fn directive_recognition_fenced_code_block_in_doc_comment_ignored() {
    run_case(&CheckCase {
        files: &[("src/lib.rs", "
                // LINT.IfChange
                fn real_code() {}
                // LINT.ThenChange(//src/other.rs)

                // Here\'s an example:
                // ```
                // // LINT.IfChange
                // some_function();
                // // LINT.ThenChange(//nonexistent.rs)
                // ```
            "), ("src/other.rs", "fn other() {}\n")],
        changes: Some(const { &[sub("src/lib.rs", &[2])] }),
        expected_findings: Some(&["src/other.rs"]),
        expected_finding_count: Some(1),
        ..DEFAULTS
    });
}

#[test]
fn directive_recognition_directives_after_fenced_block_parsed() {
    run_case(&CheckCase {
        files: &[("docs/guide.md", "
                ```
                <!-- LINT.IfChange -->
                <!-- LINT.ThenChange(//nonexistent.md) -->
                ```

                <!-- LINT.IfChange -->
                Real content.
                <!-- LINT.ThenChange(//target.md) -->
            "), ("target.md", "x\n")],
        changes: Some(const { &[sub("docs/guide.md", &[7])] }),
        expected_findings: Some(&["target.md"]),
        expected_finding_count: Some(1),
        ..DEFAULTS
    });
}

#[test]
fn directive_recognition_inline_backtick_fenced_code_not_swallowed() {
    run_case(&CheckCase {
        // Inline backtick-quoted triple backticks (e.g., ` ``` `) mid-line
        // must not open a FencedCode skip region that swallows later directives.
        files: &[("docs/readme.md", "
                Fenced code blocks (` ``` `) are skipped by the scanner.

                <!-- LINT.IfChange -->
                Important content.
                <!-- LINT.ThenChange(//other.md) -->
            "), ("other.md", "x\n")],
        changes: Some(const { &[sub("docs/readme.md", &[4])] }),
        expected_findings: Some(&["other.md"]),
        expected_finding_count: Some(1),
        ..DEFAULTS
    });
}

#[test]
fn directive_recognition_unicode_before_html_close_tag() {
    run_case(&CheckCase {
        // <script> containing İ (U+0130, 2 bytes) whose lowercase i̇ is
        // 3 bytes.  find_close_offset must return an offset in the unlowered
        // string, not the lowered copy, or pos overshoots by 1 byte and
        // the trailing quote is mishandled — the scanner enters InSkipRegion
        // looking for a closing `"`, swallowing directives on later lines.
        files: &[("test.html", "<script>\u{0130}</script>\"quoted text\"\n<!-- LINT.IfChange -->\ncontent\n<!-- LINT.ThenChange(//b.html) -->\n"), ("b.html", "x\n")],
        changes: Some(const { &[sub("test.html", &[3])] }),
        expected_findings: Some(&["may need to be reflected in"]),
        expected_errors: Some(&[]),
        ..DEFAULTS
    });
}

#[test]
fn directive_recognition_escaped_quote_at_eol_not_confused() {
    run_case(&CheckCase {
        // A string ending with \" at end of line: the backslash-quote
        // pair exercises the pos += 2 overshoot in skip_single_line_string.
        // The escaped quote must not close the string; directives after
        // the real close on the next line must still be recognised.
        files: &[("test.rs", "let s = \"embedded \\\"\nclosing\";\n// LINT.IfChange\ncode\n// LINT.ThenChange(//b.rs)\n"), ("b.rs", "x\n")],
        changes: Some(const { &[sub("test.rs", &[4])] }),
        expected_findings: Some(&["may need to be reflected in"]),
        expected_errors: Some(&[]),
        ..DEFAULTS
    });
}

#[test]
fn parse_errors_orphan_then_change() {
    run_case(&CheckCase {
        files: &[("test.rs", "
                // LINT.ThenChange(:x)
            ")],
        expected_errors: Some(&["without preceding IfChange"]),
        ..DEFAULTS
    });
}

#[test]
fn parse_errors_unclosed_if_change() {
    run_case(&CheckCase {
        files: &[("test.rs", "
                // LINT.IfChange
                code
            ")],
        expected_errors: Some(&["without matching ThenChange"]),
        ..DEFAULTS
    });
}

#[test]
fn parse_errors_consecutive_if_change_reports_first_line() {
    run_case(&CheckCase {
        files: &[("test.rs", "
                // LINT.IfChange
                code
                // LINT.IfChange
                more
                // LINT.ThenChange(//b.rs)
            "), ("b.rs", "x\n")],
        expected_errors: Some(&["without matching ThenChange", "previous"]),
        ..DEFAULTS
    });
}

#[test]
fn parse_errors_unknown_directive() {
    run_case(&CheckCase {
        files: &[("test.rs", "
                // LINT.FooBar
            ")],
        expected_errors: Some(&["unknown directive"]),
        ..DEFAULTS
    });
}

#[test]
fn parse_errors_duplicate_label() {
    run_case(&CheckCase {
        files: &[("test.rs", "
                // LINT.IfChange(x)
                code
                // LINT.ThenChange(//y.rs)
                // LINT.IfChange(x)
                more
                // LINT.ThenChange(//z.rs)
            "), ("y.rs", "y\n"), ("z.rs", "z\n")],
        expected_errors: Some(&["duplicate"]),
        ..DEFAULTS
    });
}

#[test]
fn parse_errors_bare_path_missing_prefix() {
    run_case(&CheckCase {
        files: &[("test.rs", "
                // LINT.IfChange
                code
                // LINT.ThenChange(src/foo.rs)
            ")],
        expected_errors: Some(&["must start with //"]),
        expected_findings: Some(&[]),
        ..DEFAULTS
    });
}

#[test]
fn parse_errors_path_traversal_rejected() {
    run_case(&CheckCase {
        files: &[("test.rs", "
                // LINT.IfChange
                code
                // LINT.ThenChange(//foo/../etc/passwd)
            ")],
        expected_errors: Some(&["path traversal"]),
        expected_findings: Some(&[]),
        ..DEFAULTS
    });
}

#[test]
fn parse_errors_absolute_path_rejected() {
    run_case(&CheckCase {
        files: &[("test.rs", "
                // LINT.IfChange
                code
                // LINT.ThenChange(///etc/passwd)
            ")],
        expected_errors: Some(&["must be relative"]),
        expected_findings: Some(&[]),
        ..DEFAULTS
    });
}

#[test]
fn parse_errors_double_dot_in_filename_allowed() {
    run_case(&CheckCase {
        // ".." as part of a filename (not a path component) is fine.
        files: &[("test.rs", "
                // LINT.IfChange
                code
                // LINT.ThenChange(//src/file..txt)
            "), ("src/file..txt", "x\n")],
        expected_errors: Some(&[]),
        ..DEFAULTS
    });
}

#[test]
fn parse_errors_modified_but_missing_file() {
    run_case(&CheckCase {
        // File appears in diff as modified but doesn't exist on disk.
        files: &[],
        changes: Some(const { &[sub("missing.rs", &[1])] }),
        expected_errors: Some(&["not found on disk"]),
        ..DEFAULTS
    });
}

#[test]
fn change_detection_source_and_target_both_modified() {
    run_case(&CheckCase {
        files: &[("src/api.rs", "
                // LINT.IfChange
                fn api() {}
                // LINT.ThenChange(//src/handler.rs)
            "), ("src/handler.rs", "fn handler() {}\n")],
        changes: Some(const { &[sub("src/api.rs", &[2]), sub("src/handler.rs", &[1])] }),
        expected_findings: Some(&[]),
        ..DEFAULTS
    });
}

#[test]
fn change_detection_source_modified_target_unchanged() {
    run_case(&CheckCase {
        files: &[("src/api.rs", "
                // LINT.IfChange
                fn api() {}
                // LINT.ThenChange(//src/handler.rs)
            "), ("src/handler.rs", "fn handler() {}\n")],
        changes: Some(const { &[sub("src/api.rs", &[2])] }),
        expected_findings: Some(&["may need to be reflected in"]),
        ..DEFAULTS
    });
}

#[test]
fn change_detection_target_file_missing() {
    run_case(&CheckCase {
        files: &[("src/api.rs", "
                // LINT.IfChange
                fn api() {}
                // LINT.ThenChange(//src/missing.rs)
            ")],
        changes: Some(const { &[sub("src/api.rs", &[2])] }),
        expected_findings: Some(&["target file not found"]),
        ..DEFAULTS
    });
}

#[test]
fn change_detection_changes_outside_guarded_range_ignored() {
    run_case(&CheckCase {
        files: &[("src/api.rs", "
                fn before() {}
                // LINT.IfChange
                fn api() {}
                // LINT.ThenChange(//src/handler.rs)
                fn after() {}
            "), ("src/handler.rs", "fn handler() {}\n")],
        changes: Some(const { &[sub("src/api.rs", &[1])] }),
        expected_findings: Some(&[]),
        ..DEFAULTS
    });
}

#[test]
fn change_detection_removed_lines_trigger_check() {
    run_case(&CheckCase {
        files: &[("src/a.rs", "
                // LINT.IfChange
                fn f() {}
                // LINT.ThenChange(//src/b.rs)
            "), ("src/b.rs", "fn b() {}\n")],
        changes: Some(const { &[("src/a.rs", &[], &[2])] }),
        expected_findings: Some(&["may need to be reflected in"]),
        ..DEFAULTS
    });
}

#[test]
fn change_detection_multiple_blocks_only_triggered_fires() {
    run_case(&CheckCase {
        files: &[("src/a.rs", "
                // LINT.IfChange
                fn f1() {}
                // LINT.ThenChange(//src/b.rs)
                fn gap() {}
                // LINT.IfChange
                fn f2() {}
                // LINT.ThenChange(//src/c.rs)
            "), ("src/b.rs", "fn b() {}\n"), ("src/c.rs", "fn c() {}\n")],
        changes: Some(const { &[sub("src/a.rs", &[2]), sub("src/b.rs", &[1])] }),
        expected_findings: Some(&[]),
        ..DEFAULTS
    });
}

#[test]
fn change_detection_multiple_targets_all_modified() {
    run_case(&CheckCase {
        files: &[("src/a.rs", "
                // LINT.IfChange
                fn f() {}
                // LINT.ThenChange(//src/b.rs, //src/c.rs)
            "), ("src/b.rs", "fn b() {}\n"), ("src/c.rs", "fn c() {}\n")],
        changes: Some(const { &[sub("src/a.rs", &[2]), sub("src/b.rs", &[1]), sub("src/c.rs", &[1])] }),
        expected_findings: Some(&[]),
        ..DEFAULTS
    });
}

#[test]
fn change_detection_multiple_targets_one_not_modified() {
    run_case(&CheckCase {
        files: &[("src/a.rs", "
                // LINT.IfChange
                fn f() {}
                // LINT.ThenChange(//src/b.rs, //src/c.rs)
            "), ("src/b.rs", "fn b() {}\n"), ("src/c.rs", "fn c() {}\n")],
        changes: Some(const { &[sub("src/a.rs", &[2]), sub("src/b.rs", &[1])] }),
        expected_findings: Some(&["may need to be reflected in"]),
        ..DEFAULTS
    });
}

#[test]
fn change_detection_self_reference_without_label() {
    run_case(&CheckCase {
        files: &[("src/a.rs", "
                // LINT.IfChange
                fn f() {}
                // LINT.ThenChange(//src/a.rs)
            ")],
        changes: Some(const { &[sub("src/a.rs", &[2])] }),
        expected_findings: Some(&["self-referencing"]),
        ..DEFAULTS
    });
}

#[test]
fn label_scoped_detection_labeled_target_modified_in_range() {
    run_case(&CheckCase {
        files: &[("src/a.rs", "
                // LINT.IfChange
                fn f() {}
                // LINT.ThenChange(//src/b.rs:section)
            "), ("src/b.rs", "
                fn before() {}
                // LINT.IfChange(section)
                fn target() {}
                // LINT.ThenChange(//src/a.rs)
                fn after() {}
            ")],
        changes: Some(const { &[sub("src/a.rs", &[2]), sub("src/b.rs", &[3])] }),
        expected_findings: Some(&[]),
        ..DEFAULTS
    });
}

#[test]
fn label_scoped_detection_change_outside_label_range() {
    run_case(&CheckCase {
        files: &[("src/a.rs", "
                // LINT.IfChange
                fn f() {}
                // LINT.ThenChange(//src/b.rs:section)
            "), ("src/b.rs", "
                fn before() {}
                // LINT.IfChange(section)
                fn target() {}
                // LINT.ThenChange(//src/a.rs)
                fn after() {}
            ")],
        changes: Some(const { &[sub("src/a.rs", &[2]), sub("src/b.rs", &[1])] }),
        expected_findings: Some(&["may need to be reflected in"]),
        ..DEFAULTS
    });
}

#[test]
fn label_scoped_detection_target_label_not_found() {
    run_case(&CheckCase {
        files: &[("src/a.rs", "
                // LINT.IfChange
                fn f() {}
                // LINT.ThenChange(//src/b.rs:nonexistent)
            "), ("src/b.rs", "fn b() {}\n")],
        changes: Some(const { &[sub("src/a.rs", &[2]), sub("src/b.rs", &[1])] }),
        expected_findings: Some(&["not found"]),
        ..DEFAULTS
    });
}

#[test]
fn label_scoped_detection_same_file_label_both_modified() {
    run_case(&CheckCase {
        files: &[("src/a.rs", "
                // LINT.IfChange(top)
                fn f() {}
                // LINT.ThenChange(:section)
                // LINT.IfChange(section)
                fn target() {}
                // LINT.ThenChange(:top)
            ")],
        changes: Some(const { &[sub("src/a.rs", &[2, 5])] }),
        expected_findings: Some(&[]),
        ..DEFAULTS
    });
}

#[test]
fn label_scoped_detection_full_path_self_reference_with_label() {
    run_case(&CheckCase {
        files: &[("src/a.rs", "
                // LINT.IfChange
                fn f() {}
                // LINT.ThenChange(//src/a.rs:section)
                // LINT.IfChange(section)
                fn g() {}
                // LINT.ThenChange(//src/dummy.rs)
            "), ("src/dummy.rs", "x\n")],
        changes: Some(const { &[sub("src/a.rs", &[2, 5])] }),
        expected_findings: Some(&[":section"]),
        ..DEFAULTS
    });
}

#[test]
fn label_scoped_detection_hyphenated_label_accepted() {
    run_case(&CheckCase {
        files: &[("src/a.rs", "
                // LINT.IfChange(my-label)
                fn f() {}
                // LINT.ThenChange(:other-part)
                // LINT.IfChange(other-part)
                fn g() {}
                // LINT.ThenChange(:my-label)
            ")],
        changes: Some(const { &[sub("src/a.rs", &[2, 5])] }),
        expected_findings: Some(&[]),
        ..DEFAULTS
    });
}

#[test]
fn label_scoped_detection_dotted_label_accepted() {
    run_case(&CheckCase {
        files: &[("src/a.rs", "
                // LINT.IfChange(Payments.Pix.Result)
                fn f() {}
                // LINT.ThenChange(:Other.Section)
                // LINT.IfChange(Other.Section)
                fn g() {}
                // LINT.ThenChange(:Payments.Pix.Result)
            ")],
        changes: Some(const { &[sub("src/a.rs", &[2, 5])] }),
        expected_findings: Some(&[]),
        ..DEFAULTS
    });
}

#[test]
fn label_scoped_detection_label_not_cleared_by_non_matching_if_change() {
    run_case(&CheckCase {
        files: &[("source.rs", "
                // LINT.IfChange
                fn f() {}
                // LINT.ThenChange(//target.rs:wanted)
            "), ("target.rs", "
                // LINT.IfChange(wanted)
                target content
                // LINT.IfChange(other)
                other content
                // LINT.ThenChange(//z.rs)
                // LINT.ThenChange(//z.rs)
            "), ("z.rs", "z\n")],
        changes: Some(const { &[sub("source.rs", &[2]), sub("target.rs", &[2])] }),
        expected_findings: Some(&[]),
        ..DEFAULTS
    });
}

#[test]
fn deleted_file_detection_unchanged_file_references_deleted_target() {
    run_case(&CheckCase {
        files: &[("src/a.rs", "
                // LINT.IfChange
                fn a() {}
                // LINT.ThenChange(//src/b.rs)
            ")],
        changes: Some(&[]),
        deleted: &["src/b.rs"],
        expected_findings: Some(&["target file not found: src/b.rs"]),
        ..DEFAULTS
    });
}

#[test]
fn deleted_file_detection_deleted_target_with_label() {
    run_case(&CheckCase {
        files: &[("src/a.rs", "
                // LINT.IfChange
                fn a() {}
                // LINT.ThenChange(//src/b.rs:section)
            ")],
        changes: Some(&[]),
        deleted: &["src/b.rs"],
        expected_findings: Some(&["target file not found: src/b.rs (label section)"]),
        ..DEFAULTS
    });
}

#[test]
fn deleted_file_detection_no_deletions_no_findings() {
    run_case(&CheckCase {
        files: &[("src/a.rs", "
                // LINT.IfChange
                fn a() {}
                // LINT.ThenChange(//src/b.rs)
            "), ("src/b.rs", "fn b() {}\n")],
        changes: Some(const { &[sub("src/b.rs", &[1])] }),
        expected_findings: Some(&[]),
        ..DEFAULTS
    });
}

#[test]
fn deleted_file_detection_deleted_file_no_error() {
    run_case(&CheckCase {
        // Deleted files are expected to be absent — no error.
        files: &[],
        deleted: &["deleted.rs"],
        changes: Some(&[]),
        expected_errors: Some(&[]),
        ..DEFAULTS
    });
}

#[test]
fn file_list_validation_target_file_missing() {
    run_case(&CheckCase {
        files: &[("a.rs", "
                // LINT.IfChange
                fn a() {}
                // LINT.ThenChange(//missing.rs)
            ")],
        changes: Some(&[]),
        file_list: &["a.rs"],
        expected_findings: Some(&["target file not found: missing.rs"]),
        ..DEFAULTS
    });
}

#[test]
fn file_list_validation_target_label_missing() {
    run_case(&CheckCase {
        files: &[("a.rs", "
                // LINT.IfChange
                fn a() {}
                // LINT.ThenChange(//b.rs:nonexistent)
            "), ("b.rs", "fn b() {}\n")],
        changes: Some(&[]),
        file_list: &["a.rs"],
        expected_findings: Some(&["label nonexistent not found in b.rs"]),
        ..DEFAULTS
    });
}

#[test]
fn file_list_validation_valid_target() {
    run_case(&CheckCase {
        files: &[("a.rs", "
                // LINT.IfChange
                fn a() {}
                // LINT.ThenChange(//b.rs:section)
            "), ("b.rs", "
                // LINT.IfChange(section)
                fn b() {}
                // LINT.ThenChange(//a.rs)
            ")],
        changes: Some(&[]),
        file_list: &["a.rs"],
        expected_findings: Some(&[]),
        ..DEFAULTS
    });
}

#[test]
fn file_list_validation_file_itself_missing() {
    run_case(&CheckCase {
        files: &[],
        changes: Some(&[]),
        file_list: &["nonexistent.rs"],
        expected_errors: Some(&["file not found on disk"]),
        expected_findings: Some(&[]),
        ..DEFAULTS
    });
}

#[test]
fn file_list_validation_in_file_list_and_diff_no_duplicate() {
    run_case(&CheckCase {
        files: &[("a.rs", "
                // LINT.IfChange
                fn a() {}
                // LINT.ThenChange(//b.rs)
            "), ("b.rs", "fn b() {}\n")],
        changes: Some(const { &[sub("a.rs", &[2])] }),
        file_list: &["a.rs"],
        expected_findings: Some(&["may need to be reflected in"]),
        expected_finding_count: Some(1),
        ..DEFAULTS
    });
}

#[test]
fn file_list_validation_same_file_label_exists() {
    run_case(&CheckCase {
        files: &[("a.rs", "
                // LINT.IfChange
                fn a() {}
                // LINT.ThenChange(:section)
                // LINT.IfChange(section)
                fn b() {}
                // LINT.ThenChange(//dummy.rs)
            "), ("dummy.rs", "x\n")],
        changes: Some(&[]),
        file_list: &["a.rs"],
        expected_findings: Some(&[]),
        ..DEFAULTS
    });
}

#[test]
fn file_list_validation_same_file_label_missing() {
    run_case(&CheckCase {
        files: &[("a.rs", "
                // LINT.IfChange
                fn a() {}
                // LINT.ThenChange(:nonexistent)
            ")],
        changes: Some(&[]),
        file_list: &["a.rs"],
        expected_findings: Some(&["label nonexistent not found in a.rs"]),
        ..DEFAULTS
    });
}

#[test]
fn file_list_validation_structural_and_diff_distinct() {
    run_case(&CheckCase {
        files: &[("a.rs", "
                // LINT.IfChange
                fn a() {}
                // LINT.ThenChange(//missing_structural.rs)
            "), ("b.rs", "
                // LINT.IfChange
                fn b() {}
                // LINT.ThenChange(//c.rs)
            "), ("c.rs", "fn c() {}\n")],
        // b.rs has content changes but is NOT in file_list → diff pass
        // is scoped to file_list and skips b.rs. Only the structural
        // finding from a.rs is expected.
        changes: Some(const { &[sub("b.rs", &[2])] }),
        file_list: &["a.rs"],
        expected_findings: Some(&["source:a.rs"]),
        expected_finding_count: Some(1),
        ..DEFAULTS
    });
}

#[test]
fn file_list_validation_structural_and_diff_same_file() {
    run_case(&CheckCase {
        files: &[("a.rs", "
                // LINT.IfChange
                fn a() {}
                // LINT.ThenChange(//missing.rs)
            ")],
        changes: Some(const { &[sub("a.rs", &[2])] }),
        file_list: &["a.rs"],
        expected_findings: Some(&["missing.rs"]),
        expected_finding_count: Some(1),
        ..DEFAULTS
    });
}

#[test]
fn file_list_validation_reverse_lookup_scoped_to_non_file_list() {
    run_case(&CheckCase {
        files: &[("a.rs", "
                // LINT.IfChange
                fn a() {}
                // LINT.ThenChange(//b.rs)
            "), ("c.rs", "
                // LINT.IfChange
                fn c() {}
                // LINT.ThenChange(//b.rs)
            ")],
        changes: Some(&[]),
        deleted: &["b.rs"],
        file_list: &["a.rs"],
        expected_findings: Some(&["source:a.rs", "source:c.rs"]),
        expected_finding_count: Some(2),
        ..DEFAULTS
    });
}

#[test]
fn file_list_validation_deleted_target_no_duplicate_with_file_list() {
    run_case(&CheckCase {
        files: &[("src/a.rs", "
                // LINT.IfChange
                fn a() {}
                // LINT.ThenChange(//src/b.rs)
            ")],
        changes: Some(&[]),
        deleted: &["src/b.rs"],
        file_list: &["src/a.rs"],
        expected_findings: Some(&["target file not found: src/b.rs"]),
        expected_finding_count: Some(1),
        ..DEFAULTS
    });
}

#[test]
fn ignore_patterns_matching_target_skipped() {
    run_case(&CheckCase {
        files: &[("src/a.rs", "
                // LINT.IfChange
                fn f() {}
                // LINT.ThenChange(//generated/api.rs)
            "), ("generated/api.rs", "fn api() {}\n")],
        changes: Some(const { &[sub("src/a.rs", &[2])] }),
        ignore_patterns: &["generated/*"],
        expected_findings: Some(&[]),
        ..DEFAULTS
    });
}

#[test]
fn ignore_patterns_non_matching_still_checked() {
    run_case(&CheckCase {
        files: &[("src/a.rs", "
                // LINT.IfChange
                fn f() {}
                // LINT.ThenChange(//src/b.rs)
            "), ("src/b.rs", "fn b() {}\n")],
        changes: Some(const { &[sub("src/a.rs", &[2])] }),
        ignore_patterns: &["generated/*"],
        expected_findings: Some(&["may need to be reflected in"]),
        ..DEFAULTS
    });
}

#[test]
fn non_strict_bare_filename_same_dir() {
    run_case(&CheckCase {
        // A bare filename like `bar.cc` in ThenChange should resolve to the
        // source file's directory, not the project root.
        files: &[("a/b/foo.h", "
                // LINT.IfChange
                int x;
                // LINT.ThenChange(bar.cc)
            "), ("a/b/bar.cc", "int y;\n")],
        strict: false,
        file_list: &["a/b/foo.h"],
        expected_errors: Some(&[]),
        expected_findings: Some(&[]),
        ..DEFAULTS
    });
}

#[test]
fn non_strict_bare_filename_diff_mode() {
    run_case(&CheckCase {
        // Diff mode: change in foo.h should trigger a finding against a/b/bar.cc.
        files: &[("a/b/foo.h", "
                // LINT.IfChange
                int x;
                // LINT.ThenChange(bar.cc)
            "), ("a/b/bar.cc", "int y;\n")],
        strict: false,
        changes: Some(const { &[sub("a/b/foo.h", &[2])] }),
        expected_findings: Some(&["may need to be reflected in a/b/bar.cc"]),
        ..DEFAULTS
    });
}

#[test]
fn non_strict_bare_filename_at_root() {
    run_case(&CheckCase {
        // When the source file is at the root, bare filenames stay root-relative.
        files: &[("foo.h", "
                // LINT.IfChange
                int x;
                // LINT.ThenChange(bar.cc)
            "), ("bar.cc", "int y;\n")],
        strict: false,
        file_list: &["foo.h"],
        expected_errors: Some(&[]),
        expected_findings: Some(&[]),
        ..DEFAULTS
    });
}

#[test]
fn non_strict_path_with_slash_stays_root_relative() {
    run_case(&CheckCase {
        // Paths containing `/` are root-relative even without `//`.
        files: &[("a/b/foo.h", "
                // LINT.IfChange
                int x;
                // LINT.ThenChange(c/bar.cc)
            "), ("c/bar.cc", "int y;\n")],
        strict: false,
        file_list: &["a/b/foo.h"],
        expected_errors: Some(&[]),
        expected_findings: Some(&[]),
        ..DEFAULTS
    });
}

#[test]
fn non_strict_then_change_empty_parens() {
    run_case(&CheckCase {
        // ThenChange with empty parens is a valid closure with no targets.
        files: &[("test.rs", "
                // LINT.IfChange
                int x;
                // LINT.ThenChange()
            ")],
        file_list: &["test.rs"],
        expected_errors: Some(&[]),
        expected_findings: Some(&[]),
        ..DEFAULTS
    });
}

#[test]
fn non_strict_self_ref_suppressed() {
    run_case(&CheckCase {
        // //same-file:label should NOT warn in non-strict mode.
        files: &[("a/foo.h", "
                // LINT.IfChange(section_a)
                int x;
                // LINT.ThenChange(//a/foo.h:section_b)
                // LINT.IfChange(section_b)
                int y;
                // LINT.ThenChange(//a/foo.h:section_a)
            ")],
        strict: false,
        file_list: &["a/foo.h"],
        expected_errors: Some(&[]),
        expected_findings: Some(&[]),
        ..DEFAULTS
    });
}

#[test]
fn directive_only_changes_new_pair_around_existing_code() {
    run_case(&CheckCase {
        files: &[("a.rs", "
                // LINT.IfChange
                code
                // LINT.ThenChange(//b.rs)
            "), ("b.rs", "x\n")],
        // Directive lines added, content unchanged.
        changes: Some(&[("a.rs", &[1, 3], &[])]),
        expected_findings: Some(&[]),
        expected_finding_count: Some(0),
        ..DEFAULTS
    });
}

#[test]
fn directive_only_changes_new_pair_with_new_content() {
    run_case(&CheckCase {
        files: &[("a.rs", "
                // LINT.IfChange
                new_code
                // LINT.ThenChange(//b.rs)
            "), ("b.rs", "x\n")],
        // All lines added — new file or new block.
        changes: Some(&[("a.rs", &[1, 2, 3], &[])]),
        expected_findings: Some(&[]),
        expected_finding_count: Some(0),
        ..DEFAULTS
    });
}

#[test]
fn directive_only_changes_modify_then_change_only() {
    run_case(&CheckCase {
        files: &[("a.rs", "
                // LINT.IfChange
                code
                // LINT.ThenChange(//b.rs, //c.rs)
            "), ("b.rs", "x\n"), ("c.rs", "x\n")],
        // Only ThenChange line substituted (e.g. target added).
        changes: Some(const { &[sub("a.rs", &[3])] }),
        expected_findings: Some(&[]),
        expected_finding_count: Some(0),
        ..DEFAULTS
    });
}

#[test]
fn directive_only_changes_rename_if_change_label() {
    run_case(&CheckCase {
        files: &[("a.rs", "
                // LINT.IfChange(new_name)
                code
                // LINT.ThenChange(//b.rs)
            "), ("b.rs", "x\n")],
        // Only IfChange line substituted (label rename, content unchanged).
        changes: Some(const { &[sub("a.rs", &[1])] }),
        expected_findings: Some(&[]),
        expected_finding_count: Some(0),
        ..DEFAULTS
    });
}

#[test]
fn directive_only_changes_rename_if_change_label_with_content_change() {
    run_case(&CheckCase {
        files: &[("a.rs", "
                // LINT.IfChange(new_name)
                modified_code
                // LINT.ThenChange(//b.rs)
            "), ("b.rs", "x\n")],
        // IfChange line AND content line both substituted simultaneously.
        // Renaming a label while also modifying content must still trigger —
        // the is_triggered guard only suppresses brand-new pairs (IfChange
        // added without a matching removal at its position).
        changes: Some(const { &[sub("a.rs", &[1, 2])] }),
        expected_findings: Some(&["may need to be reflected in b.rs"]),
        expected_finding_count: Some(1),
        ..DEFAULTS
    });
}

#[test]
fn directive_only_changes_empty_block_then_change_substituted() {
    run_case(&CheckCase {
        files: &[("a.rs", "
                // LINT.IfChange
                // LINT.ThenChange(//b.rs, //c.rs)
            "), ("b.rs", "x\n"), ("c.rs", "x\n")],
        // ThenChange substituted on a block with no content lines.
        // content_start > content_end — any_in_range's lo > hi guard must
        // prevent a false positive here.
        changes: Some(const { &[sub("a.rs", &[2])] }),
        expected_findings: Some(&[]),
        expected_finding_count: Some(0),
        ..DEFAULTS
    });
}

#[test]
fn directive_only_changes_empty_parens_content_changed() {
    run_case(&CheckCase {
        // ThenChange() with empty target list: content changes inside the
        // guarded block produce no finding because there is nothing to check.
        files: &[("test.rs", "
                // LINT.IfChange
                int x;
                // LINT.ThenChange()
            ")],
        changes: Some(const { &[sub("test.rs", &[2])] }),
        expected_errors: Some(&[]),
        expected_findings: Some(&[]),
        expected_finding_count: Some(0),
        ..DEFAULTS
    });
}

#[test]
fn content_changes_trigger_content_modified_target_untouched() {
    run_case(&CheckCase {
        files: &[("a.rs", "
                // LINT.IfChange
                modified_code
                // LINT.ThenChange(//b.rs)
            "), ("b.rs", "x\n")],
        // Content line substituted.
        changes: Some(const { &[sub("a.rs", &[2])] }),
        expected_findings: Some(&["may need to be reflected in"]),
        expected_finding_count: Some(1),
        ..DEFAULTS
    });
}

#[test]
fn content_changes_trigger_content_removed_inside_block() {
    run_case(&CheckCase {
        files: &[("a.rs", "
                // LINT.IfChange
                remaining
                // LINT.ThenChange(//b.rs)
            "), ("b.rs", "x\n")],
        // Content was removed; collapse point is line 2 (between directives).
        changes: Some(&[("a.rs", &[], &[2])]),
        expected_findings: Some(&["may need to be reflected in"]),
        expected_finding_count: Some(1),
        ..DEFAULTS
    });
}

#[test]
fn content_changes_trigger_content_modified_and_new_target() {
    run_case(&CheckCase {
        files: &[("a.rs", "
                // LINT.IfChange
                modified
                // LINT.ThenChange(//b.rs, //c.rs)
            "), ("b.rs", "x\n"), ("c.rs", "x\n")],
        // Content changed AND ThenChange replaced (new target added).
        changes: Some(&[("a.rs", &[2, 3], &[2, 3])]),
        expected_findings: Some(&[
            "may need to be reflected in b.rs",
            "may need to be reflected in c.rs",
        ]),
        expected_finding_count: Some(2),
        ..DEFAULTS
    });
}

#[test]
fn content_changes_trigger_content_removed_and_then_change_replaced() {
    run_case(&CheckCase {
        files: &[("a.rs", "
                // LINT.IfChange
                remaining
                // LINT.ThenChange(//b.rs)
            "), ("b.rs", "x\n")],
        // Content line removed (collapse) AND ThenChange line replaced.
        // This exercises the `removal_end = content_end` cap in is_triggered:
        // the removal at the ThenChange position is excluded from the content
        // check, but the removal at the content position still fires.
        changes: Some(&[("a.rs", &[3], &[2, 3])]),
        expected_findings: Some(&["may need to be reflected in b.rs"]),
        expected_finding_count: Some(1),
        ..DEFAULTS
    });
}

#[test]
fn file_list_scoping_file_list_scopes_diff() {
    run_case(&CheckCase {
        files: &[("a.rs", "
                // LINT.IfChange
                modified
                // LINT.ThenChange(//target_a.rs)
            "), ("b.rs", "
                // LINT.IfChange
                modified
                // LINT.ThenChange(//target_b.rs)
            "), ("target_a.rs", "x\n"), ("target_b.rs", "x\n")],
        // Both files have content changes.
        changes: Some(const { &[sub("a.rs", &[2]), sub("b.rs", &[2])] }),
        // Only a.rs in file list — b.rs's finding should NOT appear.
        file_list: &["a.rs"],
        expected_findings: Some(&["may need to be reflected in target_a.rs"]),
        expected_finding_count: Some(1),
        ..DEFAULTS
    });
}

#[test]
fn file_list_scoping_file_list_no_scope_reverse_lookup() {
    run_case(&CheckCase {
        files: &[("ref.rs", "
                // LINT.IfChange
                code
                // LINT.ThenChange(//deleted.rs)
            ")],
        // No file changes except deleted.
        changes: Some(&[]),
        deleted: &["deleted.rs"],
        // ref.rs is NOT in file list, but reverse lookup fires globally.
        file_list: &["other.rs"],
        expected_findings: Some(&["target file not found: deleted.rs"]),
        expected_finding_count: Some(1),
        ..DEFAULTS
    });
}

#[test]
fn auto_populate_validation_auto_validate_staged_files() {
    run_case(&CheckCase {
        files: &[("a.rs", "
                // LINT.IfChange
                code
                // LINT.ThenChange(//missing.rs)
            ")],
        // a.rs in changes (but no line-level changes). No explicit file_list.
        changes: Some(&[("a.rs", &[], &[])]),
        file_list: &[],
        expected_findings: Some(&["target file not found: missing.rs"]),
        expected_finding_count: Some(1),
        ..DEFAULTS
    });
}

#[test]
fn auto_populate_validation_auto_derive_non_triggered_labeled_target() {
    run_case(&CheckCase {
        files: &[("a.rs", "
                // LINT.IfChange
                guarded code
                // LINT.ThenChange(//b.rs:foo)
                unguarded code
            "), ("b.rs", "
                // LINT.IfChange(foo)
                target code
                // LINT.ThenChange(//a.rs)
            ")],
        // Line 5 changed — outside the IfChange region (lines 2-4), so
        // the pair is NOT triggered and the structural pass checks it.
        changes: Some(const { &[sub("a.rs", &[5])] }),
        file_list: &[],
        expected_findings: Some(&[]),
        expected_errors: Some(&[]),
        ..DEFAULTS
    });
}

#[test]
fn stale_label_reverse_lookup_stale_label_removed() {
    run_case(&CheckCase {
        files: &[("a.rs", "
                fn a() {}
            "), ("ref.rs", "
                // LINT.IfChange
                code
                // LINT.ThenChange(//a.rs:old_label)
            ")],
        // a.rs is in the diff (was modified to remove label).
        changes: Some(&[("a.rs", &[], &[])]),
        file_list: &[],
        expected_findings: Some(&["label old_label not found in a.rs"]),
        expected_finding_count: Some(1),
        ..DEFAULTS
    });
}

#[test]
fn stale_label_reverse_lookup_renamed_label() {
    run_case(&CheckCase {
        files: &[("a.rs", "
                // LINT.IfChange(new_name)
                code
                // LINT.ThenChange(//b.rs)
            "), ("b.rs", "x\n"), ("ref.rs", "
                // LINT.IfChange
                code
                // LINT.ThenChange(//a.rs:old_name)
            ")],
        // IfChange line substituted (rename).
        changes: Some(const { &[sub("a.rs", &[1])] }),
        file_list: &[],
        expected_findings: Some(&["label old_name not found in a.rs"]),
        expected_finding_count: Some(1),
        ..DEFAULTS
    });
}

#[test]
fn stale_label_reverse_lookup_moved_label() {
    run_case(&CheckCase {
        files: &[("a.rs", "
                fn a() {}
            "), ("b.rs", "
                // LINT.IfChange(moved_label)
                code
                // LINT.ThenChange(//c.rs)
            "), ("c.rs", "x\n"), ("ref.rs", "
                // LINT.IfChange
                code
                // LINT.ThenChange(//a.rs:moved_label)
            ")],
        // Both a.rs and b.rs changed.
        changes: Some(&[("a.rs", &[], &[]), ("b.rs", &[1, 2, 3], &[])]),
        file_list: &[],
        expected_findings: Some(&["label moved_label not found in a.rs"]),
        expected_finding_count: Some(1),
        ..DEFAULTS
    });
}

#[test]
fn stale_label_reverse_lookup_valid_label_no_false_positive() {
    run_case(&CheckCase {
        files: &[("a.rs", "
                // LINT.IfChange(my_label)
                code
                // LINT.ThenChange(//b.rs)
            "), ("b.rs", "x\n"), ("ref.rs", "
                // LINT.IfChange
                code
                // LINT.ThenChange(//a.rs:my_label)
            ")],
        // Content changed in a.rs, labels intact.
        changes: Some(const { &[sub("a.rs", &[2])] }),
        file_list: &[],
        // Diff finding fires (b.rs not changed), but NO stale-label finding.
        expected_findings: Some(&["may need to be reflected in b.rs"]),
        expected_finding_count: Some(1),
        ..DEFAULTS
    });
}

#[test]
fn stale_label_reverse_lookup_stale_label_when_ref_file_also_in_diff() {
    run_case(&CheckCase {
        files: &[("a.rs", "
                // LINT.IfChange(new_name)
                code
                // LINT.ThenChange(//b.rs)
            "), ("b.rs", "x\n"), ("ref.rs", "
                // LINT.IfChange
                code
                // LINT.ThenChange(//a.rs:old_name)
            ")],
        // Both a.rs and ref.rs are in the diff. With derived_validate_files,
        // file_list_set = {a.rs, ref.rs}: reverse lookup skips ref.rs, but
        // the structural pass handles ref.rs and catches the stale label
        // (the pair is not triggered — no sorted changes affect its content).
        changes: Some(const { &[sub("a.rs", &[1]), ("ref.rs", &[], &[])] }),
        file_list: &[],
        expected_findings: Some(&["label old_name not found in a.rs"]),
        expected_finding_count: Some(1),
        ..DEFAULTS
    });
}

#[test]
fn stale_label_reverse_lookup_partial_label_removal() {
    run_case(&CheckCase {
        files: &[("a.rs", "
                // LINT.IfChange(bar)
                bar_body
                // LINT.ThenChange(//c.rs)
            "), ("c.rs", "x\n"), ("ref.rs", "
                // LINT.IfChange
                code
                // LINT.ThenChange(//a.rs:foo)
            ")],
        // a.rs is in the diff with removals (the foo pair was deleted).
        // removed_new_pos=[1] signals that lines were removed from the file,
        // triggering the label_sets guard to include a.rs in the reverse lookup.
        changes: Some(&[("a.rs", &[], &[1])]),
        file_list: &[],
        expected_findings: Some(&["label foo not found in a.rs"]),
        expected_finding_count: Some(1),
        ..DEFAULTS
    });
}

#[test]
fn ignore_pattern_compiles_and_matches() {
    let p = IgnorePattern::new("generated/*").unwrap();
    assert_eq!(p.pattern(), "generated/*");
    assert!(p.matches("generated/api.rs"));
    assert!(!p.matches("src/api.rs"));
    assert!(IgnorePattern::new("a[").is_err());
}

#[test]
fn deeply_nested_ignore_pattern_is_an_error() {
    let pattern = format!("{}a{}", "{a,".repeat(300), "}".repeat(300));
    assert!(IgnorePattern::new(&pattern).is_err());
}
