use ifttt_lint::diagnostic::{Diagnostic, Severity, TargetInfo};
use ifttt_lint::reports::Format;

fn result_with_error() -> Vec<Diagnostic> {
    vec![Diagnostic {
        file: "test.rs".to_string(),
        line: 1,
        severity: Severity::Error,
        message: "test error".to_string(),
        target: None,
    }]
}

fn result_with_finding() -> Vec<Diagnostic> {
    vec![Diagnostic {
        file: "src/a.rs".to_string(),
        line: 1,
        severity: Severity::Warning,
        message: "changes in this block may need to be reflected in src/b.rs".to_string(),
        target: Some(TargetInfo {
            label: None,
            raw: "//src/b.rs".to_string(),
            then_change_line: 3,
        }),
    }]
}

fn has_output(fmt: Format, result: Vec<Diagnostic>) -> bool {
    match ifttt_lint::reports::format(&result, fmt, false) {
        Some(s) => !s.is_empty(),
        None => true,
    }
}

#[test]
fn format_has_output_cases() {
    assert!(!has_output(Format::Pretty, Vec::new()));
    assert!(!has_output(Format::Json, Vec::new()));
    assert!(!has_output(Format::Plain, Vec::new()));
    assert!(has_output(Format::Pretty, result_with_error()));
    assert!(has_output(Format::Plain, result_with_error()));
    assert!(has_output(Format::Pretty, result_with_finding()));
    assert!(has_output(Format::Plain, result_with_finding()));
}

#[test]
fn pretty_no_color() {
    let output = ifttt_lint::reports::format(&result_with_error(), Format::Pretty, false).unwrap();
    assert!(output.contains("test.rs:1: error: test error"));
    assert!(!output.contains("\x1b["));
}

#[test]
fn pretty_with_color() {
    let output = ifttt_lint::reports::format(&result_with_error(), Format::Pretty, true).unwrap();
    assert!(output.contains("\x1b[1;31merror\x1b[0m"));
}

#[test]
fn plain_format() {
    let output = ifttt_lint::reports::format(&result_with_error(), Format::Plain, false).unwrap();
    assert!(output.contains("test.rs:1: test error"));
}

#[test]
fn plain_format_names_the_target() {
    let output = ifttt_lint::reports::format(&result_with_finding(), Format::Plain, false).unwrap();
    assert_eq!(
        output,
        "src/a.rs:1: changes in this block may need to be reflected in src/b.rs [ThenChange('//src/b.rs') at line 3]\n"
    );
}

#[test]
fn finding_with_label_omits_label_from_location() {
    let result = vec![Diagnostic {
        file: "src/a.rs".to_string(),
        line: 1,
        severity: Severity::Warning,
        message: "test".to_string(),
        target: Some(TargetInfo {
            label: Some("my_label".to_string()),
            raw: "//src/b.rs".to_string(),
            then_change_line: 3,
        }),
    }];
    let output = ifttt_lint::reports::format(&result, Format::Pretty, false).unwrap();
    assert!(output.contains("src/a.rs:1: warning: test"));
    assert!(!output.contains("my_label"));
}

#[test]
fn pretty_warning_in_yellow() {
    let output = ifttt_lint::reports::format(&result_with_finding(), Format::Pretty, true).unwrap();
    assert!(output.starts_with("src/a.rs:1: \x1b[1;33mwarning\x1b[0m: changes"));
    assert!(output.ends_with('\n'));
}

#[test]
fn json_is_left_to_the_caller() {
    assert!(ifttt_lint::reports::format(&result_with_error(), Format::Json, false).is_none());
}

fn finding(file: &str, line: usize, severity: Severity, message: &str, raw: &str) -> Diagnostic {
    Diagnostic {
        file: file.to_string(),
        line,
        severity,
        message: message.to_string(),
        target: Some(TargetInfo { label: None, raw: raw.to_string(), then_change_line: line + 1 }),
    }
}

#[test]
fn pretty_report_does_not_depend_on_discovery_order() {
    let all = || {
        vec![
            finding("b.rs", 3, Severity::Warning, "label x not found in c.md", "//c.md:x"),
            finding("a.rs", 7, Severity::Warning, "target file not found: d.md", "//d.md"),
            finding("a.rs", 2, Severity::Error, "LINT.ThenChange without preceding IfChange", "//e.md"),
            finding("b.rs", 3, Severity::Warning, "label x not found in c.md", "c.md:x"),
        ]
    };
    let mut first = all();
    let mut second: Vec<Diagnostic> = all().into_iter().rev().collect();
    ifttt_lint::diagnostic::sort_result(&mut first);
    ifttt_lint::diagnostic::sort_result(&mut second);
    let one = ifttt_lint::reports::format(&first, Format::Pretty, false).unwrap();
    let two = ifttt_lint::reports::format(&second, Format::Pretty, false).unwrap();
    assert_eq!(one, two);
    assert!(one.starts_with("a.rs:2: error: LINT.ThenChange without preceding IfChange\n"));
}
