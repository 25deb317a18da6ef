use std::cell::Cell;

use ifttt_lint::check::{resolve_target, ExistsCache, ParseCache, TargetResolution};
use ifttt_lint::diagnostic::Severity;
use ifttt_lint::directive::Target;
use ifttt_lint::pairs::DirectivePair;
use ifttt_lint::vcs::{ChangeMap, FileContent, VcsProvider};

/// A backend whose existence checks fail, counting how often it is asked.
struct FailingBackend {
    asked: Cell<usize>,
    files: Vec<String>,
}

impl VcsProvider for FailingBackend {
    fn diff(&self) -> Result<ChangeMap, String> {
        Ok(ChangeMap::new())
    }
    fn suppressions(&self) -> Result<Option<String>, String> {
        Ok(None)
    }
    fn read_file(&self, _rel_path: &str) -> Result<Option<FileContent>, String> {
        Ok(None)
    }
    fn file_exists(&self, _rel_path: &str) -> Result<bool, String> {
        self.asked.set(self.asked.get() + 1);
        Err("permission denied".to_string())
    }
    fn search_files(&self, _query: &str) -> Result<Vec<String>, String> {
        Ok(Vec::new())
    }
    fn validate_files(&self) -> &Vec<String> {
        &self.files
    }
    fn is_strict(&self) -> bool {
        true
    }
}

fn pair_to(raw: &str, file: &str) -> DirectivePair {
    DirectivePair {
        if_line: 1,
        if_label: None,
        then_line: 3,
        targets: vec![Target { raw: raw.to_string(), file: Some(file.to_string()), label: None }],
    }
}

#[test]
fn failed_existence_check_is_reported_once() {
    let vcs = FailingBackend { asked: Cell::new(0), files: Vec::new() };
    let cache = ParseCache::new();
    let mut exists = ExistsCache::new();
    let first = pair_to("//b.rs", "//b.rs");
    match resolve_target("a.rs", &first, &first.targets[0], &cache, &vcs, true, &mut exists) {
        TargetResolution::Error(d) => {
            assert_eq!(d.file, "b.rs");
            assert_eq!(d.line, 1);
            assert!(matches!(d.severity, Severity::Error));
            assert_eq!(d.message, "failed to check file existence: permission denied");
        }
        _ => panic!("expected an error"),
    }
    let second = pair_to("//b.rs", "//b.rs");
    let again = resolve_target("c.rs", &second, &second.targets[0], &cache, &vcs, true, &mut exists);
    assert!(matches!(again, TargetResolution::PriorError));
    assert_eq!(vcs.asked.get(), 1);
}
