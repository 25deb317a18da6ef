//! The check: which files to read, what each parsed file says, and the
//! findings on pairs whose content changed without their targets.
use vstd::prelude::*;
use crate::diagnostic::{
    diags_view, error_v, mk_error, sort_result, target_diag_v, target_diagnostic, report_sorted,
    Diagnostic, DiagnosticV, Severity,
};
use crate::directive::{
    directives_view, errors_view, opt_view, Directive, DirectiveError, DirectiveErrorV, DirectiveV,
    Target, TargetV,
};
use crate::ext::{
    compile_glob, glob_error_of, glob_match_of, glob_matches, string_of, IgnorePattern, MAX_GLOB_CHARS,
};
use crate::lines::SortedLines;
use crate::msg::push_str;
use crate::pairs::{
    build_pairs, find_label_bounds, is_triggered, label_bounds, lines_ref, lines_view, pairs_of, pairs_view,
    sorted_view, triggered, uniqueness_errors, validate_uniqueness, DirectivePair, LabelRange,
    LinesV, PairV,
};
use crate::parser::{parse, parse_spec};
use crate::text::{chars_of, contains, find_at, rfind, rfind_in};
use crate::vcs::{
    deleted_only, distinct_keys, lemma_lookup_absent, lemma_lookup_at, lookup, resolution_for,
    resolve_path_for, search_view, strings_view, str_eq, ChangeMap, FileChangesV, FileContent, VcsProvider,
};

verus! {

// ─── Parsed files ───

/// The directives of a file and the errors found while reading them.
#[derive(Debug)]
pub struct ParsedFile {
    pub directives: Vec<Directive>,
    pub errors: Vec<DirectiveError>,
}

pub struct ParsedFileV {
    pub directives: Seq<DirectiveV>,
    pub errors: Seq<DirectiveErrorV>,
}

impl View for ParsedFile {
    type V = ParsedFileV;

    open spec fn view(&self) -> ParsedFileV {
        ParsedFileV { directives: directives_view(self.directives@), errors: errors_view(self.errors@) }
    }
}

pub open spec fn parsed_entry_view(e: (String, ParsedFile)) -> (Seq<char>, ParsedFileV) {
    (e.0@, e.1@)
}

/// Parsed files by root-relative path. A file that does not exist has no
/// entry.
pub struct ParseCache {
    entries: Vec<(String, ParsedFile)>,
}

impl View for ParseCache {
    type V = Seq<(Seq<char>, ParsedFileV)>;

    closed spec fn view(&self) -> Seq<(Seq<char>, ParsedFileV)> {
        self.entries@.map_values(|e: (String, ParsedFile)| parsed_entry_view(e))
    }
}

impl ParseCache {
    #[verifier::type_invariant]
    spec fn inv(&self) -> bool {
        distinct_keys(self.entries@.map_values(|e: (String, ParsedFile)| parsed_entry_view(e)))
    }

    pub fn new() -> (r: ParseCache)
        ensures
            r@ == Seq::<(Seq<char>, ParsedFileV)>::empty(),
    {
        let r = ParseCache { entries: Vec::new() };
        assert(r@ =~= Seq::<(Seq<char>, ParsedFileV)>::empty());
        r
    }

    fn position(&self, k: &str) -> (r: Option<usize>)
        ensures
            r matches Some(i) ==> i < self@.len() && self@[i as int].0 == k@,
            r is None ==> forall|i: int| 0 <= i < self@.len() ==> self@[i].0 != k@,
    {
        let mut i: usize = 0;
        while i < self.entries.len()
            invariant
                i <= self@.len(),
                self@.len() == self.entries@.len(),
                self@ == self.entries@.map_values(|e: (String, ParsedFile)| parsed_entry_view(e)),
                forall|j: int| 0 <= j < i ==> self@[j].0 != k@,
            decreases self.entries.len() - i,
        {
            if str_eq(self.entries[i].0.as_str(), k) {
                return Some(i);
            }
            i = i + 1;
        }
        None
    }

    pub fn get(&self, k: &str) -> (r: Option<&ParsedFile>)
        ensures
            r matches Some(v) ==> lookup(self@, k@) == Some(v@),
            r is None ==> lookup(self@, k@) is None,
    {
        proof {
            use_type_invariant(self);
        }
        match self.position(k) {
            Some(i) => {
                proof {
                    lemma_lookup_at(self@, i as int);
                }
                Some(&self.entries[i].1)
            },
            None => {
                proof {
                    lemma_lookup_absent(self@, k@);
                }
                None
            },
        }
    }

    pub fn contains_key(&self, k: &str) -> (r: bool)
        ensures
            r == (lookup(self@, k@) is Some),
    {
        self.get(k).is_some()
    }

    /// Adds the file when it has no entry yet; an existing entry stays.
    pub fn insert(&mut self, k: String, v: ParsedFile)
        ensures
            final(self)@ == (if lookup(old(self)@, k@) is Some {
                old(self)@
            } else {
                old(self)@.push((k@, v@))
            }),
    {
        proof {
            use_type_invariant(&*self);
        }
        let ghost old_v = self@;
        match self.position(k.as_str()) {
            Some(i) => {
                proof {
                    lemma_lookup_at(old_v, i as int);
                }
            },
            None => {
                proof {
                    lemma_lookup_absent(old_v, k@);
                }
                let ghost kv = (k@, v@);
                let mut es: Vec<(String, ParsedFile)> = Vec::new();
                std::mem::swap(&mut es, &mut self.entries);
                es.push((k, v));
                let ghost nv = es@.map_values(|e: (String, ParsedFile)| parsed_entry_view(e));
                assert(nv =~= old_v.push(kv));
                assert(distinct_keys(nv)) by {
                    assert forall|a: int, b: int| 0 <= a < b < nv.len() implies nv[a].0 != nv[b].0 by {
                        if b < old_v.len() {
                            assert(old_v[a].0 != old_v[b].0);
                        } else {
                            assert(nv[a] == old_v[a]);
                        }
                    }
                }
                self.entries = es;
            },
        }
    }
}

/// What reading a file gave.
pub enum ReadV {
    Missing,
    Binary,
    Text(Seq<char>),
    Failed(Seq<char>),
}

pub open spec fn read_view(r: Result<Option<FileContent>, String>) -> ReadV {
    match r {
        Ok(None) => ReadV::Missing,
        Ok(Some(FileContent::Binary)) => ReadV::Binary,
        Ok(Some(FileContent::Text(t))) => ReadV::Text(t@),
        Err(e) => ReadV::Failed(e@),
    }
}

pub open spec fn empty_parsed() -> ParsedFileV {
    ParsedFileV { directives: Seq::empty(), errors: Seq::empty() }
}

/// The parsed form of a file read: none when it does not exist; no
/// directives when it is binary or never mentions `LINT.`; a single error at
/// line 1 when it could not be read; else its directives, with the parse
/// errors followed by the duplicate-label errors.
pub open spec fn parse_outcome(path: Seq<char>, r: ReadV) -> Option<ParsedFileV> {
    match r {
        ReadV::Missing => None,
        ReadV::Binary => Some(empty_parsed()),
        ReadV::Failed(e) => Some(
            ParsedFileV {
                directives: Seq::empty(),
                errors: seq![DirectiveErrorV { line: 1, message: "failed to read file: "@ + e }],
            },
        ),
        ReadV::Text(t) => if !contains(t, "LINT."@) {
            Some(empty_parsed())
        } else {
            let (ds, es) = parse_spec(t, path);
            Some(ParsedFileV { directives: ds, errors: es + uniqueness_errors(ds, path, ds.len() as int) })
        },
    }
}

pub open spec fn parsed_opt_view(p: Option<ParsedFile>) -> Option<ParsedFileV> {
    match p {
        Some(x) => Some(x@),
        None => None,
    }
}

/// Whether `needle` occurs in `hay`.
pub fn contains_str(hay: &str, needle: &str) -> (r: bool)
    ensures
        r == contains(hay@, needle@),
{
    let h = chars_of(hay);
    let n = chars_of(needle);
    find_at(h.as_slice(), n.as_slice(), 0).is_some()
}

/// Turns the result of reading `rel_path` into its parsed form.
pub fn parse_read_result(rel_path: &str, read: Result<Option<FileContent>, String>) -> (r: Option<ParsedFile>)
    ensures
        parsed_opt_view(r) == parse_outcome(rel_path@, read_view(read)),
{
    match read {
        Ok(None) => None,
        Ok(Some(FileContent::Binary)) => {
            let r = ParsedFile { directives: Vec::new(), errors: Vec::new() };
            assert(r@.directives =~= Seq::<DirectiveV>::empty() && r@.errors =~= Seq::<DirectiveErrorV>::empty());
            Some(r)
        },
        Err(e) => {
            let mut m = chars_of("failed to read file: ");
            push_str(&mut m, e.as_str());
            let mut errors: Vec<DirectiveError> = Vec::new();
            errors.push(DirectiveError { line: 1, message: string_of(m.as_slice()) });
            let r = ParsedFile { directives: Vec::new(), errors };
            assert(r@.errors =~= seq![DirectiveErrorV { line: 1, message: "failed to read file: "@ + e@ }]);
            assert(r@.directives =~= Seq::<DirectiveV>::empty());
            Some(r)
        },
        Ok(Some(FileContent::Text(t))) => {
            if !contains_str(t.as_str(), "LINT.") {
                let r = ParsedFile { directives: Vec::new(), errors: Vec::new() };
                assert(r@.directives =~= Seq::<DirectiveV>::empty() && r@.errors =~= Seq::<DirectiveErrorV>::empty());
                return Some(r);
            }
            let (directives, mut errors) = parse(t.as_str(), rel_path);
            let dup = validate_uniqueness(&directives, rel_path);
            let ghost e0 = errors_view(errors@);
            let mut i: usize = 0;
            while i < dup.len()
                invariant
                    i <= dup@.len(),
                    errors_view(errors@) == e0 + errors_view(dup@.subrange(0, i as int)),
                decreases dup.len() - i,
            {
                let e = DirectiveError { line: dup[i].line, message: dup[i].message.clone() };
                let ghost prev = errors@;
                errors.push(e);
                assert(errors_view(errors@) =~= errors_view(prev).push(dup@[i as int]@));
                assert(errors_view(dup@.subrange(0, i + 1)) =~= errors_view(dup@.subrange(0, i as int)).push(
                    dup@[i as int]@,
                ));
                assert(errors_view(errors@) =~= e0 + errors_view(dup@.subrange(0, i + 1)));
                i = i + 1;
            }
            assert(dup@.subrange(0, dup@.len() as int) =~= dup@);
            Some(ParsedFile { directives, errors })
        },
    }
}

// ─── Target paths ───

/// The directory part of a path, as `Path::parent` gives it: the text before
/// the last `/` without trailing `/`, or `/` for a file at the root of an
/// absolute path; empty when there is no `/`.
pub open spec fn parent_dir(s: Seq<char>) -> Seq<char> {
    match rfind(s, seq!['/']) {
        None => Seq::empty(),
        Some(k) => {
            let p = trim_slashes_end(s.subrange(0, k));
            if p.len() == 0 && s.len() > 0 && s[0] == '/' {
                seq!['/']
            } else {
                p
            }
        },
    }
}

pub open spec fn trim_slashes_end(s: Seq<char>) -> Seq<char>
    decreases s.len(),
{
    if s.len() > 0 && s.last() == '/' {
        trim_slashes_end(s.drop_last())
    } else {
        s
    }
}

/// `parent` joined with `r` (one `/` between them), with `\` turned into `/`.
pub open spec fn join_path(parent: Seq<char>, r: Seq<char>) -> Seq<char> {
    crate::vcs::slashes(if parent.last() == '/' { parent + r } else { parent + seq!['/'] + r })
}

/// A bare file name (no `/` in the raw target) is taken relative to the
/// directory of the source file; any other path is root-relative.
pub open spec fn relative_to_source(resolved: Seq<char>, raw: Seq<char>, source: Seq<char>) -> Seq<char> {
    if contains(raw, seq!['/']) {
        resolved
    } else {
        let parent = parent_dir(source);
        if parent.len() == 0 {
            resolved
        } else {
            join_path(parent, resolved)
        }
    }
}

/// The root-relative path a target file of `source` resolves to.
pub open spec fn target_path(strict: bool, file: Seq<char>, source: Seq<char>) -> Option<Seq<char>> {
    match resolution_for(strict, file) {
        Ok(p) => Some(relative_to_source(p, file, source)),
        Err(_) => None,
    }
}

fn trim_slashes_end_index(s: &[char], k: usize) -> (r: usize)
    requires
        k <= s@.len(),
    ensures
        r <= k,
        s@.subrange(0, r as int) == trim_slashes_end(s@.subrange(0, k as int)),
    decreases k,
{
    if k > 0 && s[k - 1] == '/' {
        assert(s@.subrange(0, k as int).drop_last() =~= s@.subrange(0, k - 1));
        trim_slashes_end_index(s, k - 1)
    } else {
        k
    }
}

pub fn resolve_relative_to_source(resolved: String, raw: &str, source: &str) -> (r: String)
    ensures
        r@ == relative_to_source(resolved@, raw@, source@),
{
    let raw_c = chars_of(raw);
    let slash: Vec<char> = vec!['/'];
    assert(slash@ =~= seq!['/']);
    if find_at(raw_c.as_slice(), slash.as_slice(), 0).is_some() {
        return resolved;
    }
    let src = chars_of(source);
    let k = match rfind_in(src.as_slice(), slash.as_slice()) {
        Some(k) => k,
        None => {
            return resolved;
        },
    };
    proof {
        crate::text::lemma_rfind_props(src@, seq!['/'], src@.len() - 1);
    }
    let t = trim_slashes_end_index(src.as_slice(), k);
    let mut parent: Vec<char> = Vec::new();
    if t == 0 && src.len() > 0 && src[0] == '/' {
        parent.push('/');
        assert(parent@ =~= seq!['/']);
    } else {
        let mut i: usize = 0;
        while i < t
            invariant
                i <= t <= k < src@.len(),
                parent@ == src@.subrange(0, i as int),
            decreases t - i,
        {
            parent.push(src[i]);
            i = i + 1;
            assert(parent@ =~= src@.subrange(0, i as int));
        }
    }
    if parent.len() == 0 {
        return resolved;
    }
    let mut joined = parent;
    let ghost pv = joined@;
    if joined[joined.len() - 1] != '/' {
        joined.push('/');
    }
    push_str(&mut joined, resolved.as_str());
    let mut out: Vec<char> = Vec::new();
    let mut i: usize = 0;
    while i < joined.len()
        invariant
            i <= joined@.len(),
            out@ == crate::vcs::slashes(joined@.subrange(0, i as int)),
        decreases joined.len() - i,
    {
        let c = if joined[i] == '\\' {
            '/'
        } else {
            joined[i]
        };
        out.push(c);
        i = i + 1;
        assert(out@ =~= crate::vcs::slashes(joined@.subrange(0, i as int)));
    }
    assert(joined@.subrange(0, joined@.len() as int) =~= joined@);
    proof {
        if pv.last() == '/' {
            assert(joined@ =~= pv + resolved@);
        } else {
            assert(joined@ =~= pv + seq!['/'] + resolved@);
        }
    }
    string_of(out.as_slice())
}

/// Resolves a target file through the backend, relative to the source file.
pub fn resolve_target_path(file: &str, source_file: &str, strict: bool) -> (r: Option<String>)
    ensures
        (match target_path(strict, file@, source_file@) {
            Some(p) => r matches Some(x) && x@ == p,
            None => r is None,
        }),
{
    match resolve_path_for(strict, file) {
        Ok(resolved) => Some(resolve_relative_to_source(resolved, file, source_file)),
        Err(_) => None,
    }
}


// ─── Which files the check reads ───

/// The keys of the entries among the first `n` whose file was not deleted.
pub open spec fn live_keys(cm: Seq<(Seq<char>, FileChangesV)>, n: int) -> Seq<Seq<char>>
    decreases n,
{
    if n <= 0 {
        Seq::empty()
    } else {
        live_keys(cm, n - 1) + (if !cm[n - 1].1.deleted {
            seq![cm[n - 1].0]
        } else {
            Seq::empty()
        })
    }
}

pub open spec fn change_keys(cm: Seq<(Seq<char>, FileChangesV)>) -> Seq<Seq<char>> {
    cm.map_values(|e: (Seq<char>, FileChangesV)| e.0)
}

/// The files to validate: those the backend lists, else the changed files
/// that still exist.
pub open spec fn validate_scope(vlist: Seq<Seq<char>>, cm: Seq<(Seq<char>, FileChangesV)>) -> Seq<Seq<char>> {
    if vlist.len() > 0 {
        vlist
    } else {
        live_keys(cm, cm.len() as int)
    }
}

/// The first `n` files of `v` that the diff does not mention.
pub open spec fn unchanged_files(v: Seq<Seq<char>>, cm: Seq<(Seq<char>, FileChangesV)>, n: int) -> Seq<Seq<char>>
    decreases n,
{
    if n <= 0 {
        Seq::empty()
    } else {
        unchanged_files(v, cm, n - 1) + (if lookup(cm, v[n - 1]) is None {
            seq![v[n - 1]]
        } else {
            Seq::empty()
        })
    }
}

/// The files parsed first: the changed files, then the other files to validate.
pub open spec fn seed_scope(validate: Seq<Seq<char>>, cm: Seq<(Seq<char>, FileChangesV)>) -> Seq<Seq<char>> {
    change_keys(cm) + unchanged_files(validate, cm, validate.len() as int)
}

/// The files a check looks at.
pub struct ValidationScope {
    pub validate_files: Vec<String>,
    pub changed_files: Vec<String>,
    pub seed_files: Vec<String>,
}

fn copy_strings(v: &Vec<String>) -> (r: Vec<String>)
    ensures
        strings_view(r@) == strings_view(v@),
{
    let mut r: Vec<String> = Vec::new();
    let mut i: usize = 0;
    while i < v.len()
        invariant
            i <= v@.len(),
            strings_view(r@) == strings_view(v@.subrange(0, i as int)),
        decreases v.len() - i,
    {
        let ghost r0 = r@;
        r.push(v[i].clone());
        assert(strings_view(r@) =~= strings_view(v@.subrange(0, i + 1))) by {
            assert(strings_view(r@) =~= strings_view(r0).push(v@[i as int]@));
            assert(strings_view(v@.subrange(0, i + 1)) =~= strings_view(v@.subrange(0, i as int)).push(v@[i as int]@));
        }
        i = i + 1;
    }
    assert(v@.subrange(0, v@.len() as int) =~= v@);
    r
}

pub fn build_validation_scope(vcs_validate_files: &Vec<String>, changes: &ChangeMap) -> (r: ValidationScope)
    ensures
        strings_view(r.validate_files@) == validate_scope(strings_view(vcs_validate_files@), changes@),
        strings_view(r.changed_files@) == change_keys(changes@),
        strings_view(r.seed_files@) == seed_scope(validate_scope(strings_view(vcs_validate_files@), changes@), changes@),
{
    let mut validate_files: Vec<String> = Vec::new();
    if vcs_validate_files.len() > 0 {
        validate_files = copy_strings(vcs_validate_files);
    } else {
        let mut i: usize = 0;
        while i < changes.len()
            invariant
                i <= changes@.len(),
                strings_view(validate_files@) == live_keys(changes@, i as int),
            decreases changes@.len() - i,
        {
            let ghost v0 = validate_files@;
            if !changes.value_at(i).deleted {
                validate_files.push(changes.key_at(i).clone());
                assert(strings_view(validate_files@) =~= strings_view(v0).push(changes@[i as int].0));
            }
            assert(strings_view(validate_files@) =~= live_keys(changes@, i + 1));
            i = i + 1;
        }
    }
    let ghost vs = strings_view(validate_files@);
    let mut changed_files: Vec<String> = Vec::new();
    let mut i: usize = 0;
    while i < changes.len()
        invariant
            i <= changes@.len(),
            strings_view(changed_files@) == change_keys(changes@).subrange(0, i as int),
        decreases changes@.len() - i,
    {
        let ghost c0 = changed_files@;
        changed_files.push(changes.key_at(i).clone());
        assert(strings_view(changed_files@) =~= change_keys(changes@).subrange(0, i + 1)) by {
            assert(strings_view(changed_files@) =~= strings_view(c0).push(changes@[i as int].0));
        }
        i = i + 1;
    }
    assert(change_keys(changes@).subrange(0, changes@.len() as int) =~= change_keys(changes@));
    let mut seed_files = copy_strings(&changed_files);
    let mut j: usize = 0;
    while j < validate_files.len()
        invariant
            j <= validate_files@.len(),
            vs == strings_view(validate_files@),
            strings_view(changed_files@) == change_keys(changes@),
            strings_view(seed_files@) == change_keys(changes@) + unchanged_files(vs, changes@, j as int),
        decreases validate_files.len() - j,
    {
        let ghost s0 = seed_files@;
        if !changes.contains_key(validate_files[j].as_str()) {
            seed_files.push(validate_files[j].clone());
            assert(strings_view(seed_files@) =~= strings_view(s0).push(vs[j as int]));
        }
        assert(strings_view(seed_files@) =~= change_keys(changes@) + unchanged_files(vs, changes@, j + 1));
        j = j + 1;
    }
    ValidationScope { validate_files, changed_files, seed_files }
}

// ─── Structure of one file ───

/// Errors for the targets of a `ThenChange` at `line` whose path does not
/// resolve.
pub open spec fn then_change_errors(strict: bool, ts: Seq<TargetV>, file: Seq<char>, line: usize) -> Seq<DiagnosticV>
    decreases ts.len(),
{
    if ts.len() == 0 {
        Seq::empty()
    } else {
        let prev = then_change_errors(strict, ts.drop_last(), file, line);
        match ts.last().file {
            Some(f) => match resolution_for(strict, f) {
                Err(m) => prev.push(error_v(file, line, m)),
                Ok(_) => prev,
            },
            None => prev,
        }
    }
}

pub open spec fn unmatched_previous_message(prev: usize) -> Seq<char> {
    "LINT.IfChange without matching ThenChange (previous IfChange at line "@ + crate::msg::dec(prev as nat) + ")"@
}

/// Structural errors so far, and the line of the `IfChange` waiting for its
/// `ThenChange`.
pub open spec fn structure_state(strict: bool, ds: Seq<DirectiveV>, file: Seq<char>) -> (Seq<DiagnosticV>, Option<usize>)
    decreases ds.len(),
{
    if ds.len() == 0 {
        (Seq::empty(), None)
    } else {
        let (errs, pending) = structure_state(strict, ds.drop_last(), file);
        match ds.last() {
            DirectiveV::IfChange { line, .. } => (
                match pending {
                    Some(p) => errs.push(error_v(file, p, unmatched_previous_message(p))),
                    None => errs,
                },
                Some(line),
            ),
            DirectiveV::ThenChange { line, targets } => (
                (match pending {
                    None => errs.push(error_v(file, line, "LINT.ThenChange without preceding IfChange"@)),
                    Some(_) => errs,
                }) + then_change_errors(strict, targets, file, line),
                None,
            ),
        }
    }
}

/// The structural errors of a file: unpaired directives and target paths
/// that do not resolve.
pub open spec fn structure_diags(strict: bool, ds: Seq<DirectiveV>, file: Seq<char>) -> Seq<DiagnosticV> {
    let (errs, pending) = structure_state(strict, ds, file);
    match pending {
        Some(l) => errs.push(error_v(file, l, "LINT.IfChange without matching ThenChange"@)),
        None => errs,
    }
}

fn push_diag(out: &mut Vec<Diagnostic>, d: Diagnostic)
    ensures
        diags_view(final(out)@) == diags_view(old(out)@).push(d@),
{
    out.push(d);
    assert(diags_view(final(out)@) =~= diags_view(old(out)@).push(d@));
}

pub fn validate_structure(directives: &Vec<Directive>, file_path: &str, strict: bool) -> (r: Vec<Diagnostic>)
    ensures
        diags_view(r@) == structure_diags(strict, directives_view(directives@), file_path@),
{
    let ghost dv = directives_view(directives@);
    let mut errors: Vec<Diagnostic> = Vec::new();
    let mut pending_if: Option<usize> = None;
    let mut i: usize = 0;
    while i < directives.len()
        invariant
            i <= directives@.len(),
            dv == directives_view(directives@),
            diags_view(errors@) == structure_state(strict, dv.subrange(0, i as int), file_path@).0,
            pending_if == structure_state(strict, dv.subrange(0, i as int), file_path@).1,
        decreases directives.len() - i,
    {
        let ghost pre = dv.subrange(0, i + 1);
        assert(pre.drop_last() =~= dv.subrange(0, i as int));
        assert(pre.last() == directives@[i as int]@);
        match &directives[i] {
            Directive::IfChange { line, .. } => {
                if let Some(prev_line) = pending_if {
                    let mut m = chars_of("LINT.IfChange without matching ThenChange (previous IfChange at line ");
                    crate::msg::push_decimal(&mut m, prev_line);
                    push_str(&mut m, ")");
                    assert(m@ =~= unmatched_previous_message(prev_line));
                    push_diag(&mut errors, mk_error(file_path, prev_line, string_of(m.as_slice())));
                }
                pending_if = Some(*line);
            },
            Directive::ThenChange { line, targets } => {
                if pending_if.is_none() {
                    push_diag(
                        &mut errors,
                        mk_error(file_path, *line, "LINT.ThenChange without preceding IfChange".to_string()),
                    );
                }
                let ghost base = diags_view(errors@);
                let mut k: usize = 0;
                while k < targets.len()
                    invariant
                        k <= targets@.len(),
                        diags_view(errors@) == base + then_change_errors(
                            strict,
                            crate::directive::targets_view(targets@.subrange(0, k as int)),
                            file_path@,
                            *line,
                        ),
                    decreases targets.len() - k,
                {
                    let ghost tv = crate::directive::targets_view(targets@.subrange(0, k + 1));
                    assert(tv.drop_last() =~= crate::directive::targets_view(targets@.subrange(0, k as int)));
                    assert(tv.last() == targets@[k as int]@);
                    if let Some(file) = &targets[k].file {
                        if let Err(message) = resolve_path_for(strict, file.as_str()) {
                            push_diag(&mut errors, mk_error(file_path, *line, message));
                        }
                    }
                    k = k + 1;
                }
                assert(targets@.subrange(0, targets@.len() as int) =~= targets@);
                pending_if = None;
            },
        }
        i = i + 1;
    }
    assert(dv.subrange(0, directives@.len() as int) =~= dv);
    if let Some(line) = pending_if {
        push_diag(&mut errors, mk_error(file_path, line, "LINT.IfChange without matching ThenChange".to_string()));
    }
    errors
}

// ─── Reading files ───

/// The cache after parsing `paths` into `cache`, the `i`-th path read as
/// `reads[i]`: a path already parsed is kept, and a path read is added with
/// what it parses to (a file that does not exist is not added).
pub open spec fn parse_all(
    cache: Seq<(Seq<char>, ParsedFileV)>,
    paths: Seq<Seq<char>>,
    reads: Seq<ReadV>,
) -> Seq<(Seq<char>, ParsedFileV)>
    decreases paths.len(),
{
    if paths.len() == 0 {
        cache
    } else {
        let c = parse_all(cache, paths.drop_last(), reads.drop_last());
        let path = paths.last();
        if lookup(c, path) is Some {
            c
        } else {
            match parse_outcome(path, reads.last()) {
                Some(pf) => c.push((path, pf)),
                None => c,
            }
        }
    }
}

/// Whether each read that `parse_all` makes (of a path not parsed yet) is
/// an answer the backend may give for that path.
pub open spec fn reads_answered<V: VcsProvider>(
    vcs: &V,
    cache: Seq<(Seq<char>, ParsedFileV)>,
    paths: Seq<Seq<char>>,
    reads: Seq<ReadV>,
) -> bool
    decreases paths.len(),
{
    if paths.len() == 0 {
        true
    } else {
        &&& reads_answered(vcs, cache, paths.drop_last(), reads.drop_last())
        &&& (lookup(parse_all(cache, paths.drop_last(), reads.drop_last()), paths.last()) is None ==> vcs.read_answers(
            paths.last(),
            reads.last(),
        ))
    }
}

/// Reads and parses each path not parsed yet. What the backend reads
/// depends on the disk: the cache becomes that of `parse_all` for reads the
/// backend may give.
pub fn parse_files<V: VcsProvider>(paths: &Vec<String>, vcs: &V, cache: &mut ParseCache)
    ensures
        exists|reads: Seq<ReadV>|
            final(cache)@ == parse_all(old(cache)@, strings_view(paths@), reads) && reads_answered(
                vcs,
                old(cache)@,
                strings_view(paths@),
                reads,
            ),
{
    let ghost c0 = cache@;
    let ghost pv = strings_view(paths@);
    let ghost mut reads: Seq<ReadV> = Seq::empty();
    let mut i: usize = 0;
    while i < paths.len()
        invariant
            i <= paths@.len(),
            pv == strings_view(paths@),
            reads.len() == i,
            cache@ == parse_all(c0, pv.subrange(0, i as int), reads),
            reads_answered(vcs, c0, pv.subrange(0, i as int), reads),
        decreases paths.len() - i,
    {
        let path = &paths[i];
        assert(pv[i as int] == path@);
        let ghost before = cache@;
        let ghost mut rv: ReadV = ReadV::Missing;
        if !cache.contains_key(path.as_str()) {
            let read = vcs.read_file(path.as_str());
            proof {
                rv = read_view(read);
            }
            if let Some(parsed) = parse_read_result(path.as_str(), read) {
                cache.insert(path.clone(), parsed);
            }
        }
        proof {
            let pre = pv.subrange(0, i as int);
            let nxt = pv.subrange(0, i + 1);
            assert(nxt.drop_last() =~= pre);
            assert(nxt.last() == path@);
            assert(reads.push(rv).drop_last() =~= reads);
            assert(reads.push(rv).last() == rv);
            reads = reads.push(rv);
        }
        i = i + 1;
    }
    assert(pv.subrange(0, pv.len() as int) =~= pv);
}

/// The paths the targets of `ts` resolve to, relative to `source`.
pub open spec fn targets_paths(strict: bool, ts: Seq<TargetV>, source: Seq<char>) -> Seq<Seq<char>>
    decreases ts.len(),
{
    if ts.len() == 0 {
        Seq::empty()
    } else {
        targets_paths(strict, ts.drop_last(), source) + match ts.last().file {
            Some(f) => match target_path(strict, f, source) {
                Some(p) => seq![p],
                None => Seq::empty(),
            },
            None => Seq::empty(),
        }
    }
}

pub open spec fn directive_paths(strict: bool, ds: Seq<DirectiveV>, source: Seq<char>) -> Seq<Seq<char>>
    decreases ds.len(),
{
    if ds.len() == 0 {
        Seq::empty()
    } else {
        directive_paths(strict, ds.drop_last(), source) + match ds.last() {
            DirectiveV::ThenChange { targets, .. } => targets_paths(strict, targets, source),
            DirectiveV::IfChange { .. } => Seq::empty(),
        }
    }
}

/// The paths of all `ThenChange` targets of the parsed sources, in order.
pub open spec fn source_paths(strict: bool, cache: Seq<(Seq<char>, ParsedFileV)>, sources: Seq<Seq<char>>) -> Seq<Seq<char>>
    decreases sources.len(),
{
    if sources.len() == 0 {
        Seq::empty()
    } else {
        source_paths(strict, cache, sources.drop_last()) + match lookup(cache, sources.last()) {
            Some(pf) => directive_paths(strict, pf.directives, sources.last()),
            None => Seq::empty(),
        }
    }
}

fn push_target_paths(strict: bool, targets: &Vec<Target>, source: &str, out: &mut Vec<String>)
    ensures
        strings_view(final(out)@) == strings_view(old(out)@) + targets_paths(
            strict,
            crate::directive::targets_view(targets@),
            source@,
        ),
{
    let ghost base = strings_view(out@);
    let mut k: usize = 0;
    while k < targets.len()
        invariant
            k <= targets@.len(),
            strings_view(out@) == base + targets_paths(
                strict,
                crate::directive::targets_view(targets@.subrange(0, k as int)),
                source@,
            ),
        decreases targets.len() - k,
    {
        let ghost tv = crate::directive::targets_view(targets@.subrange(0, k + 1));
        assert(tv.drop_last() =~= crate::directive::targets_view(targets@.subrange(0, k as int)));
        assert(tv.last() == targets@[k as int]@);
        let ghost o0 = strings_view(out@);
        if let Some(file) = &targets[k].file {
            if let Some(path) = resolve_target_path(file.as_str(), source, strict) {
                out.push(path);
                assert(strings_view(out@) =~= o0.push(out@.last()@));
            }
        }
        assert(strings_view(out@) =~= base + targets_paths(strict, tv, source@));
        k = k + 1;
    }
    assert(targets@.subrange(0, targets@.len() as int) =~= targets@);
}

/// The paths of the `ThenChange` targets of the parsed source files, in
/// the order met (reading skips those already parsed).
pub fn collect_target_paths(strict: bool, cache: &ParseCache, source_files: &Vec<String>) -> (r: Vec<String>)
    ensures
        strings_view(r@) == source_paths(strict, cache@, strings_view(source_files@)),
{
    let ghost sv = strings_view(source_files@);
    let mut paths: Vec<String> = Vec::new();
    let mut i: usize = 0;
    while i < source_files.len()
        invariant
            i <= source_files@.len(),
            sv == strings_view(source_files@),
            strings_view(paths@) == source_paths(strict, cache@, sv.subrange(0, i as int)),
        decreases source_files.len() - i,
    {
        let ghost pre = sv.subrange(0, i + 1);
        assert(pre.drop_last() =~= sv.subrange(0, i as int));
        assert(pre.last() == source_files@[i as int]@);
        let ghost p0 = strings_view(paths@);
        if let Some(parsed) = cache.get(source_files[i].as_str()) {
            let ds = &parsed.directives;
            let ghost dv = directives_view(ds@);
            let mut k: usize = 0;
            while k < ds.len()
                invariant
                    k <= ds@.len(),
                    i < source_files@.len(),
                    dv == directives_view(ds@),
                    strings_view(paths@) == p0 + directive_paths(strict, dv.subrange(0, k as int), source_files@[i as int]@),
                decreases ds.len() - k,
            {
                let ghost dpre = dv.subrange(0, k + 1);
                assert(dpre.drop_last() =~= dv.subrange(0, k as int));
                assert(dpre.last() == ds@[k as int]@);
                let ghost q0 = strings_view(paths@);
                if let Directive::ThenChange { targets, .. } = &ds[k] {
                    push_target_paths(strict, targets, source_files[i].as_str(), &mut paths);
                }
                assert(strings_view(paths@) =~= p0 + directive_paths(strict, dpre, source_files@[i as int]@));
                k = k + 1;
            }
            assert(dv.subrange(0, ds@.len() as int) =~= dv);
        }
        assert(strings_view(paths@) =~= source_paths(strict, cache@, pre));
        i = i + 1;
    }
    assert(sv.subrange(0, source_files@.len() as int) =~= sv);
    paths
}

// ─── Errors found while reading the seed files ───

pub open spec fn missing_changed(cm: Seq<(Seq<char>, FileChangesV)>, cache: Seq<(Seq<char>, ParsedFileV)>, files: Seq<Seq<char>>) -> Seq<DiagnosticV>
    decreases files.len(),
{
    if files.len() == 0 {
        Seq::empty()
    } else {
        let f = files.last();
        missing_changed(cm, cache, files.drop_last()) + (if lookup(cache, f) is None && (lookup(cm, f) matches Some(
            c,
        ) && !c.deleted) {
            seq![error_v(f, 1, "file referenced in diff but not found on disk"@)]
        } else {
            Seq::empty()
        })
    }
}

pub open spec fn missing_validated(cache: Seq<(Seq<char>, ParsedFileV)>, files: Seq<Seq<char>>) -> Seq<DiagnosticV>
    decreases files.len(),
{
    if files.len() == 0 {
        Seq::empty()
    } else {
        let f = files.last();
        missing_validated(cache, files.drop_last()) + (if lookup(cache, f) is None {
            seq![error_v(f, 1, "file not found on disk"@)]
        } else {
            Seq::empty()
        })
    }
}

pub open spec fn parse_error_diags(file: Seq<char>, es: Seq<DirectiveErrorV>) -> Seq<DiagnosticV> {
    es.map_values(|e: DirectiveErrorV| error_v(file, e.line, e.message))
}

/// For each parsed seed file: its parse errors, then its structural errors.
pub open spec fn seed_diags(strict: bool, cache: Seq<(Seq<char>, ParsedFileV)>, seeds: Seq<Seq<char>>) -> Seq<DiagnosticV>
    decreases seeds.len(),
{
    if seeds.len() == 0 {
        Seq::empty()
    } else {
        let f = seeds.last();
        seed_diags(strict, cache, seeds.drop_last()) + match lookup(cache, f) {
            Some(pf) => parse_error_diags(f, pf.errors) + structure_diags(strict, pf.directives, f),
            None => Seq::empty(),
        }
    }
}

pub open spec fn seed_errors(
    strict: bool,
    cm: Seq<(Seq<char>, FileChangesV)>,
    cache: Seq<(Seq<char>, ParsedFileV)>,
    changed: Seq<Seq<char>>,
    validate: Seq<Seq<char>>,
    seeds: Seq<Seq<char>>,
) -> Seq<DiagnosticV> {
    missing_changed(cm, cache, changed) + missing_validated(cache, validate) + seed_diags(strict, cache, seeds)
}

fn append_diags(out: &mut Vec<Diagnostic>, mut more: Vec<Diagnostic>)
    ensures
        diags_view(final(out)@) == diags_view(old(out)@) + diags_view(more@),
{
    let ghost o0 = diags_view(out@);
    let ghost m0 = diags_view(more@);
    out.append(&mut more);
    assert(diags_view(final(out)@) =~= o0 + m0);
}

/// Files of the diff or of the validation list that could not be found,
/// and the parse and structural errors of the seed files.
pub fn collect_seed_parse_errors(
    scope: &ValidationScope,
    changes: &ChangeMap,
    cache: &ParseCache,
    strict: bool,
    result: &mut Vec<Diagnostic>,
)
    ensures
        diags_view(final(result)@) == diags_view(old(result)@) + seed_errors(
            strict,
            changes@,
            cache@,
            strings_view(scope.changed_files@),
            strings_view(scope.validate_files@),
            strings_view(scope.seed_files@),
        ),
{
    let ghost r0 = diags_view(result@);
    let ghost cf = strings_view(scope.changed_files@);
    let ghost vf = strings_view(scope.validate_files@);
    let ghost sf = strings_view(scope.seed_files@);
    let mut i: usize = 0;
    while i < scope.changed_files.len()
        invariant
            i <= cf.len(),
            cf == strings_view(scope.changed_files@),
            diags_view(result@) == r0 + missing_changed(changes@, cache@, cf.subrange(0, i as int)),
        decreases scope.changed_files.len() - i,
    {
        let ghost pre = cf.subrange(0, i + 1);
        assert(pre.drop_last() =~= cf.subrange(0, i as int));
        let f = &scope.changed_files[i];
        let ghost d0 = diags_view(result@);
        if !cache.contains_key(f.as_str()) {
            if let Some(c) = changes.get(f.as_str()) {
                if !c.deleted {
                    push_diag(result, mk_error(f.as_str(), 1, "file referenced in diff but not found on disk".to_string()));
                }
            }
        }
        assert(diags_view(result@) =~= r0 + missing_changed(changes@, cache@, pre));
        i = i + 1;
    }
    assert(cf.subrange(0, cf.len() as int) =~= cf);
    let ghost r1 = diags_view(result@);
    let mut i: usize = 0;
    while i < scope.validate_files.len()
        invariant
            i <= vf.len(),
            vf == strings_view(scope.validate_files@),
            diags_view(result@) == r1 + missing_validated(cache@, vf.subrange(0, i as int)),
        decreases scope.validate_files.len() - i,
    {
        let ghost pre = vf.subrange(0, i + 1);
        assert(pre.drop_last() =~= vf.subrange(0, i as int));
        let f = &scope.validate_files[i];
        if !cache.contains_key(f.as_str()) {
            push_diag(result, mk_error(f.as_str(), 1, "file not found on disk".to_string()));
        }
        assert(diags_view(result@) =~= r1 + missing_validated(cache@, pre));
        i = i + 1;
    }
    assert(vf.subrange(0, vf.len() as int) =~= vf);
    let ghost r2 = diags_view(result@);
    let mut i: usize = 0;
    while i < scope.seed_files.len()
        invariant
            i <= sf.len(),
            sf == strings_view(scope.seed_files@),
            diags_view(result@) == r2 + seed_diags(strict, cache@, sf.subrange(0, i as int)),
        decreases scope.seed_files.len() - i,
    {
        let ghost pre = sf.subrange(0, i + 1);
        assert(pre.drop_last() =~= sf.subrange(0, i as int));
        let path = &scope.seed_files[i];
        let ghost d0 = diags_view(result@);
        assert(sf[i as int] == path@);
        if let Some(parsed) = cache.get(path.as_str()) {
            let mut k: usize = 0;
            while k < parsed.errors.len()
                invariant
                    k <= parsed.errors@.len(),
                    i < sf.len(),
                    sf == strings_view(scope.seed_files@),
                    sf[i as int] == path@,
                    diags_view(result@) == d0 + parse_error_diags(sf[i as int], errors_view(parsed.errors@.subrange(0, k as int))),
                decreases parsed.errors.len() - k,
            {
                let e = &parsed.errors[k];
                let ghost dk = diags_view(result@);
                push_diag(result, mk_error(path.as_str(), e.line, e.message.clone()));
                assert(sf[i as int] == path@);
                let ghost ek = errors_view(parsed.errors@.subrange(0, k as int));
                assert(errors_view(parsed.errors@.subrange(0, k + 1)) =~= ek.push(e@));
                assert(parse_error_diags(path@, ek.push(e@)) =~= parse_error_diags(path@, ek).push(
                    error_v(path@, e.line, e.message@),
                ));
                assert(diags_view(result@) =~= d0 + parse_error_diags(sf[i as int], errors_view(parsed.errors@.subrange(0, k + 1))));
                k = k + 1;
            }
            assert(parsed.errors@.subrange(0, parsed.errors@.len() as int) =~= parsed.errors@);
            let more = validate_structure(&parsed.directives, path.as_str(), strict);
            append_diags(result, more);
        }
        assert(diags_view(result@) =~= r2 + seed_diags(strict, cache@, pre));
        i = i + 1;
    }
    assert(sf.subrange(0, sf.len() as int) =~= sf);
}

// ─── Targets of one pair ───

/// The added lines and removal positions of a changed file that was parsed.
pub open spec fn lines_for(cm: Seq<(Seq<char>, FileChangesV)>, cache: Seq<(Seq<char>, ParsedFileV)>, path: Seq<char>) -> Option<LinesV> {
    match lookup(cm, path) {
        Some(c) => if lookup(cache, path) is Some {
            Some(LinesV { added: c.added, removed: c.removed_new })
        } else {
            None
        },
        None => None,
    }
}

pub fn sorted_lines_for(changes: &ChangeMap, cache: &ParseCache, path: &str) -> (r: Option<SortedLines>)
    ensures
        lines_view(r) == lines_for(changes@, cache@, path@),
{
    match changes.get(path) {
        Some(c) => if cache.contains_key(path) {
            Some(SortedLines::from_changes(c))
        } else {
            None
        },
        None => None,
    }
}

/// An ignore pattern as matching sees it: its text, and whether `\` is a
/// path separator where it was compiled.
pub struct PatternV {
    pub text: Seq<char>,
    pub backslash_sep: bool,
}

pub open spec fn patterns_view(ps: Seq<IgnorePattern>) -> Seq<PatternV> {
    ps.map_values(|p: IgnorePattern| PatternV { text: p.pattern_view(), backslash_sep: p.backslash_sep_view() })
}

/// Whether the pattern matches `path`.
pub open spec fn pattern_hits(p: PatternV, path: Seq<char>) -> bool {
    glob_match_of(p.text, p.backslash_sep, path)
}

impl IgnorePattern {
    /// Compiles an ignore pattern (glob syntax); the error says why it does
    /// not compile on this machine.
    pub fn new(pattern: &str) -> (r: Result<IgnorePattern, String>)
        requires
            pattern@.len() <= MAX_GLOB_CHARS,
        ensures
            r matches Ok(p) ==> p.pattern_view() == pattern@ && glob_error_of(pattern@, p.backslash_sep_view()) is None,
            r matches Err(e) ==> exists|backslash_sep: bool| glob_error_of(pattern@, backslash_sep) == Some(e@),
    {
        let (backslash_sep, r) = compile_glob(pattern);
        r
    }

    /// Whether the pattern matches `path`.
    pub fn matches(&self, path: &str) -> (r: bool)
        ensures
            r == glob_match_of(self.pattern_view(), self.backslash_sep_view(), path@),
    {
        glob_matches(self, path)
    }
}

/// Whether an ignore pattern matches the target's raw text or its resolved
/// path.
pub open spec fn ignored(strict: bool, t: TargetV, source: Seq<char>, pats: Seq<PatternV>) -> bool {
    exists|i: int|
        0 <= i < pats.len() && (pattern_hits(#[trigger] pats[i], t.raw) || (t.file matches Some(f) && (target_path(
            strict,
            f,
            source,
        ) matches Some(p) && pattern_hits(pats[i], p))))
}

pub fn should_ignore(strict: bool, target: &Target, source_file: &str, ignore_patterns: &[IgnorePattern]) -> (r: bool)
    ensures
        r == ignored(strict, target@, source_file@, patterns_view(ignore_patterns@)),
{
    let ghost pv = patterns_view(ignore_patterns@);
    let resolved = match &target.file {
        Some(f) => resolve_target_path(f.as_str(), source_file, strict),
        None => None,
    };
    let mut i: usize = 0;
    while i < ignore_patterns.len()
        invariant
            i <= pv.len(),
            pv == patterns_view(ignore_patterns@),
            (match target@.file {
                Some(f) => match target_path(strict, f, source_file@) {
                    Some(p) => resolved matches Some(x) && x@ == p,
                    None => resolved is None,
                },
                None => resolved is None,
            }),
            forall|k: int|
                0 <= k < i ==> !(pattern_hits(#[trigger] pv[k], target@.raw) || (target@.file matches Some(f) && (
                target_path(strict, f, source_file@) matches Some(p) && pattern_hits(pv[k], p)))),
        decreases ignore_patterns.len() - i,
    {
        let pat = &ignore_patterns[i];
        assert(pv[i as int] == PatternV { text: pat.pattern_view(), backslash_sep: pat.backslash_sep_view() });
        if glob_matches(pat, target.raw.as_str()) {
            return true;
        }
        if let Some(p) = &resolved {
            if glob_matches(pat, p.as_str()) {
                return true;
            }
        }
        i = i + 1;
    }
    false
}

/// A target to check, as `(pair index, target index, whether the pair was
/// triggered)`.
pub open spec fn active_in_pair(
    strict: bool,
    p: PairV,
    pi: int,
    lines: Option<LinesV>,
    source: Seq<char>,
    pats: Seq<PatternV>,
    k: int,
) -> Seq<(int, int, bool)>
    decreases k,
{
    if k <= 0 {
        Seq::empty()
    } else {
        active_in_pair(strict, p, pi, lines, source, pats, k - 1) + (if !ignored(strict, p.targets[k - 1], source, pats) {
            seq![(pi, k - 1, triggered(p, lines))]
        } else {
            Seq::empty()
        })
    }
}

/// The targets not ignored, pair by pair, each with whether its pair was
/// triggered.
pub open spec fn active_list(
    strict: bool,
    ps: Seq<PairV>,
    lines: Option<LinesV>,
    source: Seq<char>,
    pats: Seq<PatternV>,
    n: int,
) -> Seq<(int, int, bool)>
    decreases n,
{
    if n <= 0 {
        Seq::empty()
    } else {
        active_list(strict, ps, lines, source, pats, n - 1) + active_in_pair(
            strict,
            ps[n - 1],
            n - 1,
            lines,
            source,
            pats,
            ps[n - 1].targets.len() as int,
        )
    }
}

pub open spec fn active_view(v: Seq<(usize, usize, bool)>) -> Seq<(int, int, bool)> {
    v.map_values(|e: (usize, usize, bool)| (e.0 as int, e.1 as int, e.2))
}

pub fn active_targets(
    pairs: &Vec<DirectivePair>,
    sorted: Option<&SortedLines>,
    source_file: &str,
    strict: bool,
    ignore_patterns: &[IgnorePattern],
) -> (r: Vec<(usize, usize, bool)>)
    ensures
        active_view(r@) == active_list(
            strict,
            pairs_view(pairs@),
            sorted_view(sorted),
            source_file@,
            patterns_view(ignore_patterns@),
            pairs@.len() as int,
        ),
{
    let ghost pv = pairs_view(pairs@);
    let ghost lv = sorted_view(sorted);
    let ghost iv = patterns_view(ignore_patterns@);
    let mut result: Vec<(usize, usize, bool)> = Vec::new();
    let mut n: usize = 0;
    while n < pairs.len()
        invariant
            n <= pairs@.len(),
            pv == pairs_view(pairs@),
            lv == sorted_view(sorted),
            iv == patterns_view(ignore_patterns@),
            active_view(result@) == active_list(strict, pv, lv, source_file@, iv, n as int),
        decreases pairs.len() - n,
    {
        let pair = &pairs[n];
        let trig = is_triggered(pair, sorted);
        let ghost r0 = active_view(result@);
        let mut k: usize = 0;
        while k < pair.targets.len()
            invariant
                k <= pair.targets@.len(),
                n < pairs@.len(),
                pv == pairs_view(pairs@),
                pv[n as int] == pair@,
                lv == sorted_view(sorted),
                iv == patterns_view(ignore_patterns@),
                trig == triggered(pair@, lv),
                active_view(result@) == r0 + active_in_pair(strict, pair@, n as int, lv, source_file@, iv, k as int),
            decreases pair.targets.len() - k,
        {
            assert(pair@.targets[k as int] == pair.targets@[k as int]@);
            let ghost r1 = result@;
            if !should_ignore(strict, &pair.targets[k], source_file, ignore_patterns) {
                result.push((n, k, trig));
                assert(active_view(result@) =~= active_view(r1).push((n as int, k as int, trig)));
            }
            assert(active_view(result@) =~= r0 + active_in_pair(strict, pair@, n as int, lv, source_file@, iv, k + 1));
            k = k + 1;
        }
        assert(pair@.targets.len() == pair.targets@.len());
        n = n + 1;
    }
    result
}

// ─── Resolving one target ───

/// What a target asks to check, before looking at the disk.
pub enum PlanV {
    /// Neither a file nor a label: nothing to check.
    NoTarget,
    /// The file does not resolve (reported by the structural check).
    Unresolved,
    /// A strict-mode reference to the source file itself, with its warning.
    SameFile(Seq<char>),
    /// The file and label to check.
    Check(Seq<char>, Option<Seq<char>>),
}

pub open spec fn same_file_message(label: Option<Seq<char>>, raw: Seq<char>) -> Seq<char> {
    match label {
        None => "self-referencing ThenChange without label is meaningless"@,
        Some(l) => "use :"@ + l + " syntax for same-file label references (replace "@ + raw + " with :"@ + l + ")"@,
    }
}

pub open spec fn target_plan(strict: bool, source: Seq<char>, t: TargetV) -> PlanV {
    match t.file {
        Some(f) => match target_path(strict, f, source) {
            None => PlanV::Unresolved,
            Some(p) => if p == source && strict {
                PlanV::SameFile(same_file_message(t.label, t.raw))
            } else {
                PlanV::Check(p, t.label)
            },
        },
        None => match t.label {
            Some(l) => PlanV::Check(source, Some(l)),
            None => PlanV::NoTarget,
        },
    }
}

pub enum TargetPlan {
    NoTarget,
    Unresolved,
    SameFile(String),
    Check(String, Option<String>),
}

pub open spec fn plan_view(p: TargetPlan) -> PlanV {
    match p {
        TargetPlan::NoTarget => PlanV::NoTarget,
        TargetPlan::Unresolved => PlanV::Unresolved,
        TargetPlan::SameFile(m) => PlanV::SameFile(m@),
        TargetPlan::Check(p, l) => PlanV::Check(p@, opt_view(l)),
    }
}

pub fn plan_target(strict: bool, source_file: &str, target: &Target) -> (r: TargetPlan)
    ensures
        plan_view(r) == target_plan(strict, source_file@, target@),
{
    match &target.file {
        Some(f) => match resolve_target_path(f.as_str(), source_file, strict) {
            None => TargetPlan::Unresolved,
            Some(p) => {
                if str_eq(p.as_str(), source_file) && strict {
                    let m = match &target.label {
                        None => "self-referencing ThenChange without label is meaningless".to_string(),
                        Some(l) => {
                            let mut m = chars_of("use :");
                            push_str(&mut m, l.as_str());
                            push_str(&mut m, " syntax for same-file label references (replace ");
                            push_str(&mut m, target.raw.as_str());
                            push_str(&mut m, " with :");
                            push_str(&mut m, l.as_str());
                            push_str(&mut m, ")");
                            assert(m@ =~= same_file_message(Some(l@), target.raw@));
                            string_of(m.as_slice())
                        },
                    };
                    TargetPlan::SameFile(m)
                } else {
                    TargetPlan::Check(p, crate::diagnostic::copy_opt_string(&target.label))
                }
            },
        },
        None => match &target.label {
            Some(l) => TargetPlan::Check(source_file.to_owned(), Some(l.clone())),
            None => TargetPlan::NoTarget,
        },
    }
}

/// What the existence check of a target file said.
#[derive(Debug, Clone, Copy, PartialEq, Eq, Structural)]
pub enum ExistsStatus {
    Exists,
    Missing,
    /// The check failed and was reported once; later targets skip the file.
    PriorError,
}

/// An answer on a file's existence: a remembered status, or a failed check.
pub enum AnswerV {
    Known(ExistsStatus),
    Failed(Seq<char>),
}

/// How a target is settled.
pub enum ResolutionV {
    Resolved { path: Seq<char>, label: Option<Seq<char>> },
    SameFileWarning(DiagnosticV),
    Missing(DiagnosticV),
    Error(DiagnosticV),
    NoTarget,
    PriorError,
}

pub open spec fn missing_target_message(path: Seq<char>, label: Option<Seq<char>>) -> Seq<char> {
    match label {
        Some(l) => "target file not found: "@ + path + " (label "@ + l + ")"@,
        None => "target file not found: "@ + path,
    }
}

/// A finding on `p` about `t`.
pub open spec fn pair_diag(source: Seq<char>, p: PairV, t: TargetV, severity: Severity, message: Seq<char>) -> DiagnosticV {
    target_diag_v(source, p.if_line, p.if_label, p.then_line, t.raw, severity, message)
}

/// How a target is settled: a file already parsed exists; otherwise the
/// answer on its existence decides.
pub open spec fn resolution_of(
    source: Seq<char>,
    p: PairV,
    t: TargetV,
    plan: PlanV,
    in_cache: bool,
    ans: AnswerV,
) -> ResolutionV {
    match plan {
        PlanV::NoTarget => ResolutionV::NoTarget,
        PlanV::Unresolved => ResolutionV::PriorError,
        PlanV::SameFile(m) => ResolutionV::SameFileWarning(pair_diag(source, p, t, Severity::Warning, m)),
        PlanV::Check(path, label) => if in_cache {
            ResolutionV::Resolved { path, label }
        } else {
            match ans {
                AnswerV::Known(ExistsStatus::Exists) => ResolutionV::Resolved { path, label },
                AnswerV::Known(ExistsStatus::Missing) => ResolutionV::Missing(
                    pair_diag(source, p, t, Severity::Warning, missing_target_message(path, t.label)),
                ),
                AnswerV::Known(ExistsStatus::PriorError) => ResolutionV::PriorError,
                AnswerV::Failed(e) => ResolutionV::Error(error_v(path, 1, "failed to check file existence: "@ + e)),
            }
        },
    }
}

pub enum TargetResolution {
    Resolved { path: String, label: Option<String> },
    SameFileWarning(Diagnostic),
    Missing(Diagnostic),
    Error(Diagnostic),
    NoTarget,
    PriorError,
}

pub open spec fn resolution_view(r: TargetResolution) -> ResolutionV {
    match r {
        TargetResolution::Resolved { path, label } => ResolutionV::Resolved { path: path@, label: opt_view(label) },
        TargetResolution::SameFileWarning(d) => ResolutionV::SameFileWarning(d@),
        TargetResolution::Missing(d) => ResolutionV::Missing(d@),
        TargetResolution::Error(d) => ResolutionV::Error(d@),
        TargetResolution::NoTarget => ResolutionV::NoTarget,
        TargetResolution::PriorError => ResolutionV::PriorError,
    }
}

/// Remembered answers of `file_exists`, by path.
pub struct ExistsCache {
    entries: Vec<(String, ExistsStatus)>,
}

pub open spec fn status_lookup(s: Seq<(Seq<char>, ExistsStatus)>, k: Seq<char>) -> Option<ExistsStatus>
    decreases s.len(),
{
    if s.len() == 0 {
        None
    } else if s[0].0 == k {
        Some(s[0].1)
    } else {
        status_lookup(s.drop_first(), k)
    }
}

impl View for ExistsCache {
    type V = Seq<(Seq<char>, ExistsStatus)>;

    closed spec fn view(&self) -> Seq<(Seq<char>, ExistsStatus)> {
        self.entries@.map_values(|e: (String, ExistsStatus)| (e.0@, e.1))
    }
}

impl ExistsCache {
    pub fn new() -> (r: ExistsCache)
        ensures
            r@.len() == 0,
    {
        ExistsCache { entries: Vec::new() }
    }

    pub fn get(&self, k: &str) -> (r: Option<ExistsStatus>)
        ensures
            r == status_lookup(self@, k@),
    {
        let ghost sv = self@;
        let mut i: usize = 0;
        assert(sv.subrange(0, sv.len() as int) =~= sv);
        while i < self.entries.len()
            invariant
                i <= sv.len(),
                sv == self@,
                sv.len() == self.entries@.len(),
                status_lookup(sv, k@) == status_lookup(sv.subrange(i as int, sv.len() as int), k@),
            decreases self.entries.len() - i,
        {
            let ghost rest = sv.subrange(i as int, sv.len() as int);
            assert(rest.drop_first() =~= sv.subrange(i + 1, sv.len() as int));
            assert(rest[0] == (self.entries@[i as int].0@, self.entries@[i as int].1));
            if str_eq(self.entries[i].0.as_str(), k) {
                return Some(self.entries[i].1);
            }
            i = i + 1;
        }
        None
    }

    /// Remembers `status` for `k` (an earlier answer for `k` stays first).
    pub fn record(&mut self, k: String, status: ExistsStatus)
        ensures
            final(self)@ == old(self)@.push((k@, status)),
    {
        let ghost s0 = self@;
        self.entries.push((k, status));
        assert(self@ =~= s0.push((k@, status)));
    }
}

/// An answer on a file's existence.
pub enum Answer {
    Known(ExistsStatus),
    Failed(String),
}

pub open spec fn answer_view(a: Answer) -> AnswerV {
    match a {
        Answer::Known(s) => AnswerV::Known(s),
        Answer::Failed(e) => AnswerV::Failed(e@),
    }
}

/// Settles a target from its plan, whether its file was parsed, and the
/// answer on its existence.
pub fn resolution_from(
    source_file: &str,
    pair: &DirectivePair,
    target: &Target,
    plan: TargetPlan,
    in_cache: bool,
    ans: Answer,
) -> (r: TargetResolution)
    ensures
        resolution_view(r) == resolution_of(source_file@, pair@, target@, plan_view(plan), in_cache, answer_view(ans)),
{
    match plan {
        TargetPlan::NoTarget => TargetResolution::NoTarget,
        TargetPlan::Unresolved => TargetResolution::PriorError,
        TargetPlan::SameFile(m) => TargetResolution::SameFileWarning(
            target_diagnostic(source_file, pair.if_line, &pair.if_label, pair.then_line, target, Severity::Warning, m),
        ),
        TargetPlan::Check(path, label) => {
            if in_cache {
                return TargetResolution::Resolved { path, label };
            }
            match ans {
                Answer::Known(ExistsStatus::Exists) => TargetResolution::Resolved { path, label },
                Answer::Known(ExistsStatus::PriorError) => TargetResolution::PriorError,
                Answer::Known(ExistsStatus::Missing) => {
                    let m = missing_message(path.as_str(), &target.label);
                    TargetResolution::Missing(
                        target_diagnostic(source_file, pair.if_line, &pair.if_label, pair.then_line, target, Severity::Warning, m),
                    )
                },
                Answer::Failed(e) => {
                    let mut m = chars_of("failed to check file existence: ");
                    push_str(&mut m, e.as_str());
                    TargetResolution::Error(mk_error(path.as_str(), 1, string_of(m.as_slice())))
                },
            }
        },
    }
}

pub fn missing_message(path: &str, label: &Option<String>) -> (r: String)
    ensures
        r@ == missing_target_message(path@, opt_view(*label)),
{
    let mut m = chars_of("target file not found: ");
    push_str(&mut m, path);
    if let Some(l) = label {
        push_str(&mut m, " (label ");
        push_str(&mut m, l.as_str());
        push_str(&mut m, ")");
    }
    string_of(m.as_slice())
}

pub open spec fn plan_in_cache(plan: PlanV, cache: Seq<(Seq<char>, ParsedFileV)>) -> bool {
    match plan {
        PlanV::Check(p, _) => lookup(cache, p) is Some,
        _ => false,
    }
}

/// The answer a backend gives on a file's existence: whether it exists,
/// or why that could not be found out.
pub open spec fn answer_of(b: Result<bool, Seq<char>>) -> AnswerV {
    match b {
        Ok(true) => AnswerV::Known(ExistsStatus::Exists),
        Ok(false) => AnswerV::Known(ExistsStatus::Missing),
        Err(e) => AnswerV::Failed(e),
    }
}

/// What is remembered of the backend's answer: a failed check is
/// remembered as reported, so later targets naming the file skip it.
pub open spec fn status_of(b: Result<bool, Seq<char>>) -> ExistsStatus {
    match b {
        Ok(true) => ExistsStatus::Exists,
        Ok(false) => ExistsStatus::Missing,
        Err(_) => ExistsStatus::PriorError,
    }
}

/// How a target is settled, and the remembered answers after it, given the
/// remembered answers `ec` and what the backend answers (`b`) if it is
/// asked: a file already parsed exists; else a remembered answer is used;
/// else the backend is asked and its answer remembered.
pub open spec fn settle(
    strict: bool,
    source: Seq<char>,
    p: PairV,
    t: TargetV,
    cache: Seq<(Seq<char>, ParsedFileV)>,
    ec: Seq<(Seq<char>, ExistsStatus)>,
    b: Result<bool, Seq<char>>,
) -> (ResolutionV, Seq<(Seq<char>, ExistsStatus)>) {
    let plan = target_plan(strict, source, t);
    match plan {
        PlanV::Check(path, _) => if plan_in_cache(plan, cache) {
            (resolution_of(source, p, t, plan, true, AnswerV::Known(ExistsStatus::Exists)), ec)
        } else {
            match status_lookup(ec, path) {
                Some(st) => (resolution_of(source, p, t, plan, false, AnswerV::Known(st)), ec),
                None => (resolution_of(source, p, t, plan, false, answer_of(b)), ec.push((path, status_of(b)))),
            }
        },
        _ => (resolution_of(source, p, t, plan, false, AnswerV::Known(ExistsStatus::Exists)), ec),
    }
}

/// The file whose existence the backend is asked about when settling `t`
/// with the remembered answers `ec`: a target file neither parsed nor
/// answered for.
pub open spec fn settle_asks(
    strict: bool,
    source: Seq<char>,
    t: TargetV,
    cache: Seq<(Seq<char>, ParsedFileV)>,
    ec: Seq<(Seq<char>, ExistsStatus)>,
) -> Option<Seq<char>> {
    let plan = target_plan(strict, source, t);
    match plan {
        PlanV::Check(path, _) => if !plan_in_cache(plan, cache) && status_lookup(ec, path) is None {
            Some(path)
        } else {
            None
        },
        _ => None,
    }
}

/// Whether `b` may be the backend's answer when settling `t`: anything
/// when it is not asked, else an answer it may give for the file.
pub open spec fn settle_answered<V: VcsProvider>(
    vcs: &V,
    strict: bool,
    source: Seq<char>,
    t: TargetV,
    cache: Seq<(Seq<char>, ParsedFileV)>,
    ec: Seq<(Seq<char>, ExistsStatus)>,
    b: Result<bool, Seq<char>>,
) -> bool {
    match settle_asks(strict, source, t, cache, ec) {
        Some(path) => vcs.exists_answers(path, b),
        None => true,
    }
}

/// Resolves a target and checks that its file exists: a parsed file exists;
/// otherwise a remembered answer is used, else the backend is asked (and its
/// answer remembered). What the backend answers depends on the disk: the
/// resolution and the remembered answers are those of `settle` for an
/// answer the backend may give for the file it is asked about.
pub fn resolve_target<V: VcsProvider>(
    source_file: &str,
    pair: &DirectivePair,
    target: &Target,
    cache: &ParseCache,
    vcs: &V,
    strict: bool,
    exists_cache: &mut ExistsCache,
) -> (r: TargetResolution)
    ensures
        exists|b: Result<bool, Seq<char>>|
            (resolution_view(r), final(exists_cache)@) == settle(
                strict,
                source_file@,
                pair@,
                target@,
                cache@,
                old(exists_cache)@,
                b,
            ) && settle_answered(vcs, strict, source_file@, target@, cache@, old(exists_cache)@, b),
{
    let ghost ec0 = exists_cache@;
    let plan = plan_target(strict, source_file, target);
    let ghost pv = plan_view(plan);
    let path = match &plan {
        TargetPlan::Check(p, _) => p.clone(),
        _ => {
            let r = resolution_from(source_file, pair, target, plan, false, Answer::Known(ExistsStatus::Exists));
            assert((resolution_view(r), exists_cache@) == settle(strict, source_file@, pair@, target@, cache@, ec0, Ok(true)));
            return r;
        },
    };
    if cache.contains_key(path.as_str()) {
        let r = resolution_from(source_file, pair, target, plan, true, Answer::Known(ExistsStatus::Exists));
        assert((resolution_view(r), exists_cache@) == settle(strict, source_file@, pair@, target@, cache@, ec0, Ok(true)));
        return r;
    }
    let ghost mut b: Result<bool, Seq<char>> = Ok(true);
    let ans = match exists_cache.get(path.as_str()) {
        Some(st) => Answer::Known(st),
        None => match vcs.file_exists(path.as_str()) {
            Ok(true) => {
                proof {
                    b = Ok(true);
                }
                exists_cache.record(path, ExistsStatus::Exists);
                Answer::Known(ExistsStatus::Exists)
            },
            Ok(false) => {
                proof {
                    b = Ok(false);
                }
                exists_cache.record(path, ExistsStatus::Missing);
                Answer::Known(ExistsStatus::Missing)
            },
            Err(e) => {
                proof {
                    b = Err(e@);
                }
                exists_cache.record(path, ExistsStatus::PriorError);
                Answer::Failed(e)
            },
        },
    };
    let ghost av = answer_view(ans);
    let r = resolution_from(source_file, pair, target, plan, false, ans);
    assert(resolution_view(r) == resolution_of(source_file@, pair@, target@, pv, false, av));
    assert((resolution_view(r), exists_cache@) == settle(strict, source_file@, pair@, target@, cache@, ec0, b));
    r
}

// ─── Findings on a settled target ───

pub open spec fn label_missing_message(l: Seq<char>, path: Seq<char>) -> Seq<char> {
    "label "@ + l + " not found in "@ + path
}

pub open spec fn reflect_message(path: Seq<char>) -> Seq<char> {
    "changes in this block may need to be reflected in "@ + path
}

/// On a pair the diff did not trigger: the target label must exist in the
/// target file.
pub open spec fn label_exists_diag(
    source: Seq<char>,
    p: PairV,
    t: TargetV,
    path: Seq<char>,
    label: Option<Seq<char>>,
    cache: Seq<(Seq<char>, ParsedFileV)>,
) -> Option<DiagnosticV> {
    match label {
        None => None,
        Some(l) => {
            let found = match lookup(cache, path) {
                Some(pf) => label_bounds(pf.directives, l) is Some,
                None => false,
            };
            if found {
                None
            } else {
                Some(pair_diag(source, p, t, Severity::Warning, label_missing_message(l, path)))
            }
        },
    }
}

pub open spec fn diag_opt_view(d: Option<Diagnostic>) -> Option<DiagnosticV> {
    match d {
        Some(x) => Some(x@),
        None => None,
    }
}

pub fn check_label_exists(
    source_file: &str,
    pair: &DirectivePair,
    target: &Target,
    path: &str,
    label: &Option<String>,
    cache: &ParseCache,
) -> (r: Option<Diagnostic>)
    ensures
        diag_opt_view(r) == label_exists_diag(source_file@, pair@, target@, path@, opt_view(*label), cache@),
{
    let l = match label {
        Some(l) => l,
        None => {
            return None;
        },
    };
    if let Some(parsed) = cache.get(path) {
        if find_label_bounds(&parsed.directives, l.as_str()).is_some() {
            return None;
        }
    }
    let mut m = chars_of("label ");
    push_str(&mut m, l.as_str());
    push_str(&mut m, " not found in ");
    push_str(&mut m, path);
    Some(target_diagnostic(source_file, pair.if_line, &pair.if_label, pair.then_line, target, Severity::Warning, string_of(m.as_slice())))
}

/// On a triggered pair: the target must have changed too. A file target
/// must have added or removed lines; a labelled target must have an added
/// line inside its region or a removal after its `IfChange` up to its
/// closing line.
pub open spec fn synced_diag(
    source: Seq<char>,
    p: PairV,
    t: TargetV,
    path: Seq<char>,
    label: Option<Seq<char>>,
    lines: Option<LinesV>,
    cm: Seq<(Seq<char>, FileChangesV)>,
    cache: Seq<(Seq<char>, ParsedFileV)>,
) -> Option<DiagnosticV> {
    match label {
        None => {
            let changed = match lookup(cm, path) {
                Some(c) => c.added != Set::<usize>::empty() || c.removed != Set::<usize>::empty(),
                None => false,
            };
            if changed {
                None
            } else {
                Some(pair_diag(source, p, t, Severity::Warning, reflect_message(path)))
            }
        },
        Some(l) => match lookup(cache, path) {
            None => Some(pair_diag(source, p, t, Severity::Warning, reflect_message(path + seq![':'] + l))),
            Some(pf) => match label_bounds(pf.directives, l) {
                None => Some(pair_diag(source, p, t, Severity::Warning, label_missing_message(l, path))),
                Some((a, b)) => {
                    let changed = match lines {
                        Some(x) => crate::lines::in_range(x.added, a + 1, b - 1) || crate::lines::in_range(
                            x.removed,
                            a + 1,
                            b as int,
                        ),
                        None => false,
                    };
                    if changed {
                        None
                    } else {
                        Some(pair_diag(source, p, t, Severity::Warning, reflect_message(path + seq![':'] + l)))
                    }
                },
            },
        },
    }
}

fn reflect_text(path: &str, label: Option<&String>) -> (r: String)
    ensures
        r@ == reflect_message(match label {
            Some(l) => path@ + seq![':'] + l@,
            None => path@,
        }),
{
    let mut m = chars_of("changes in this block may need to be reflected in ");
    push_str(&mut m, path);
    if let Some(l) = label {
        m.push(':');
        push_str(&mut m, l.as_str());
    }
    proof {
        if let Some(l) = label {
            assert(m@ =~= reflect_message(path@ + seq![':'] + l@));
        }
    }
    string_of(m.as_slice())
}

fn has_any(v: &Vec<usize>) -> (r: bool)
    ensures
        r == (v@.to_set() != Set::<usize>::empty()),
{
    let r = v.len() > 0;
    proof {
        if r {
            assert(v@.to_set().contains(v@[0]));
        } else {
            assert(v@.to_set() =~= Set::<usize>::empty());
        }
    }
    r
}

pub fn check_target_synced(
    source_file: &str,
    pair: &DirectivePair,
    target: &Target,
    path: &str,
    label: &Option<String>,
    target_sorted: Option<&SortedLines>,
    changes: &ChangeMap,
    cache: &ParseCache,
) -> (r: Option<Diagnostic>)
    ensures
        diag_opt_view(r) == synced_diag(
            source_file@,
            pair@,
            target@,
            path@,
            opt_view(*label),
            sorted_view(target_sorted),
            changes@,
            cache@,
        ),
{
    let l = match label {
        Some(l) => l,
        None => {
            let changed = match changes.get(path) {
                Some(c) => has_any(&c.added_lines) || has_any(&c.removed_lines),
                None => false,
            };
            if changed {
                return None;
            }
            let m = reflect_text(path, None);
            return Some(target_diagnostic(source_file, pair.if_line, &pair.if_label, pair.then_line, target, Severity::Warning, m));
        },
    };
    let parsed = match cache.get(path) {
        Some(p) => p,
        None => {
            let m = reflect_text(path, Some(l));
            return Some(target_diagnostic(source_file, pair.if_line, &pair.if_label, pair.then_line, target, Severity::Warning, m));
        },
    };
    let (a, b) = match find_label_bounds(&parsed.directives, l.as_str()) {
        Some(ab) => ab,
        None => {
            let mut m = chars_of("label ");
            push_str(&mut m, l.as_str());
            push_str(&mut m, " not found in ");
            push_str(&mut m, path);
            return Some(
                target_diagnostic(source_file, pair.if_line, &pair.if_label, pair.then_line, target, Severity::Warning, string_of(m.as_slice())),
            );
        },
    };
    let changed = match target_sorted {
        Some(s) => {
            let added = if a < usize::MAX && b > 0 {
                s.added_in(a + 1, b - 1)
            } else {
                false
            };
            let removed = if a < usize::MAX {
                s.removed_in(a + 1, b)
            } else {
                false
            };
            added || removed
        },
        None => false,
    };
    if changed {
        return None;
    }
    let m = reflect_text(path, Some(l));
    Some(target_diagnostic(source_file, pair.if_line, &pair.if_label, pair.then_line, target, Severity::Warning, m))
}

// ─── The validation pass ───

/// The finding, if any, on a target settled as `res`: a resolved target is
/// checked for co-change when its pair was triggered, else for its label.
pub open spec fn target_finding(
    source: Seq<char>,
    p: PairV,
    t: TargetV,
    trig: bool,
    res: ResolutionV,
    cm: Seq<(Seq<char>, FileChangesV)>,
    cache: Seq<(Seq<char>, ParsedFileV)>,
) -> Option<DiagnosticV> {
    match res {
        ResolutionV::Resolved { path, label } => if trig {
            synced_diag(source, p, t, path, label, lines_for(cm, cache, path), cm, cache)
        } else {
            label_exists_diag(source, p, t, path, label, cache)
        },
        ResolutionV::SameFileWarning(d) => Some(d),
        ResolutionV::Missing(d) => Some(d),
        ResolutionV::Error(d) => Some(d),
        ResolutionV::NoTarget => None,
        ResolutionV::PriorError => None,
    }
}

pub fn settle_target(
    source_file: &str,
    pair: &DirectivePair,
    target: &Target,
    trig: bool,
    res: TargetResolution,
    changes: &ChangeMap,
    cache: &ParseCache,
) -> (r: Option<Diagnostic>)
    ensures
        diag_opt_view(r) == target_finding(source_file@, pair@, target@, trig, resolution_view(res), changes@, cache@),
{
    match res {
        TargetResolution::Resolved { path, label } => {
            if trig {
                let ts = sorted_lines_for(changes, cache, path.as_str());
                check_target_synced(source_file, pair, target, path.as_str(), &label, lines_ref(&ts), changes, cache)
            } else {
                check_label_exists(source_file, pair, target, path.as_str(), &label, cache)
            }
        },
        TargetResolution::SameFileWarning(d) => Some(d),
        TargetResolution::Missing(d) => Some(d),
        TargetResolution::Error(d) => Some(d),
        TargetResolution::NoTarget => None,
        TargetResolution::PriorError => None,
    }
}

/// Remembered answers on the existence of files, by path.
pub open spec fn no_answers() -> Seq<(Seq<char>, ExistsStatus)> {
    Seq::empty()
}

/// The finding on an active target `a`, settled with the remembered
/// answers `ec` and the backend's answer `b` (if asked), and the remembered
/// answers after it.
pub open spec fn active_finding(
    strict: bool,
    source: Seq<char>,
    ps: Seq<PairV>,
    a: (int, int, bool),
    b: Result<bool, Seq<char>>,
    ec: Seq<(Seq<char>, ExistsStatus)>,
    cm: Seq<(Seq<char>, FileChangesV)>,
    cache: Seq<(Seq<char>, ParsedFileV)>,
) -> (Option<DiagnosticV>, Seq<(Seq<char>, ExistsStatus)>) {
    let (pi, ti, trig) = a;
    if 0 <= pi < ps.len() && 0 <= ti < ps[pi].targets.len() {
        let t = ps[pi].targets[ti];
        let (res, ec2) = settle(strict, source, ps[pi], t, cache, ec, b);
        (target_finding(source, ps[pi], t, trig, res, cm, cache), ec2)
    } else {
        (None, ec)
    }
}

/// The findings on the active targets `active` of the pairs `ps` of
/// `source`, in order, the `k`-th target settled with the backend's answer
/// `bs[k]` (if asked), starting from the remembered answers `ec`; and the
/// remembered answers after them.
pub open spec fn active_findings(
    strict: bool,
    source: Seq<char>,
    ps: Seq<PairV>,
    active: Seq<(int, int, bool)>,
    bs: Seq<Result<bool, Seq<char>>>,
    ec: Seq<(Seq<char>, ExistsStatus)>,
    cm: Seq<(Seq<char>, FileChangesV)>,
    cache: Seq<(Seq<char>, ParsedFileV)>,
) -> (Seq<DiagnosticV>, Seq<(Seq<char>, ExistsStatus)>)
    decreases active.len(),
{
    if active.len() == 0 {
        (Seq::empty(), ec)
    } else {
        let (ds, ec1) = active_findings(strict, source, ps, active.drop_last(), bs.drop_last(), ec, cm, cache);
        let (d, ec2) = active_finding(strict, source, ps, active.last(), bs.last(), ec1, cm, cache);
        (
            match d {
                Some(x) => ds.push(x),
                None => ds,
            },
            ec2,
        )
    }
}

/// The findings on the pairs of a parsed file, its targets settled with
/// the backend's answers `bs` from the remembered answers `ec`; none for a
/// file that was not parsed.
pub open spec fn file_findings(
    strict: bool,
    file: Seq<char>,
    pats: Seq<PatternV>,
    bs: Seq<Result<bool, Seq<char>>>,
    ec: Seq<(Seq<char>, ExistsStatus)>,
    cm: Seq<(Seq<char>, FileChangesV)>,
    cache: Seq<(Seq<char>, ParsedFileV)>,
) -> (Seq<DiagnosticV>, Seq<(Seq<char>, ExistsStatus)>) {
    match lookup(cache, file) {
        Some(pf) => {
            let ps = pairs_of(pf.directives);
            let active = active_list(strict, ps, lines_for(cm, cache, file), file, pats, ps.len() as int);
            active_findings(strict, file, ps, active, bs, ec, cm, cache)
        },
        None => (Seq::empty(), ec),
    }
}

/// The findings of the validation pass over `files`, file by file, the
/// targets of the `i`-th file settled with the backend's answers `bss[i]`,
/// the answers remembered across files from `ec` on; and the remembered
/// answers after it.
pub open spec fn validation_findings(
    strict: bool,
    files: Seq<Seq<char>>,
    pats: Seq<PatternV>,
    bss: Seq<Seq<Result<bool, Seq<char>>>>,
    ec: Seq<(Seq<char>, ExistsStatus)>,
    cm: Seq<(Seq<char>, FileChangesV)>,
    cache: Seq<(Seq<char>, ParsedFileV)>,
) -> (Seq<DiagnosticV>, Seq<(Seq<char>, ExistsStatus)>)
    decreases files.len(),
{
    if files.len() == 0 {
        (Seq::empty(), ec)
    } else {
        let (ds, ec1) = validation_findings(strict, files.drop_last(), pats, bss.drop_last(), ec, cm, cache);
        let (fs, ec2) = file_findings(strict, files.last(), pats, bss.last(), ec1, cm, cache);
        (ds + fs, ec2)
    }
}

/// Whether each backend answer in `bs` that `active_findings` asks for is
/// one the backend may give.
pub open spec fn active_answered<V: VcsProvider>(
    vcs: &V,
    strict: bool,
    source: Seq<char>,
    ps: Seq<PairV>,
    active: Seq<(int, int, bool)>,
    bs: Seq<Result<bool, Seq<char>>>,
    ec: Seq<(Seq<char>, ExistsStatus)>,
    cm: Seq<(Seq<char>, FileChangesV)>,
    cache: Seq<(Seq<char>, ParsedFileV)>,
) -> bool
    decreases active.len(),
{
    if active.len() == 0 {
        true
    } else {
        let ec1 = active_findings(strict, source, ps, active.drop_last(), bs.drop_last(), ec, cm, cache).1;
        let (pi, ti, trig) = active.last();
        &&& active_answered(vcs, strict, source, ps, active.drop_last(), bs.drop_last(), ec, cm, cache)
        &&& (0 <= pi < ps.len() && 0 <= ti < ps[pi].targets.len()) ==> settle_answered(
            vcs,
            strict,
            source,
            ps[pi].targets[ti],
            cache,
            ec1,
            bs.last(),
        )
    }
}

/// Whether the backend answers that `file_findings` asks for are ones it
/// may give.
pub open spec fn file_answered<V: VcsProvider>(
    vcs: &V,
    strict: bool,
    file: Seq<char>,
    pats: Seq<PatternV>,
    bs: Seq<Result<bool, Seq<char>>>,
    ec: Seq<(Seq<char>, ExistsStatus)>,
    cm: Seq<(Seq<char>, FileChangesV)>,
    cache: Seq<(Seq<char>, ParsedFileV)>,
) -> bool {
    match lookup(cache, file) {
        Some(pf) => {
            let ps = pairs_of(pf.directives);
            let active = active_list(strict, ps, lines_for(cm, cache, file), file, pats, ps.len() as int);
            active_answered(vcs, strict, file, ps, active, bs, ec, cm, cache)
        },
        None => true,
    }
}

/// Whether the backend answers that `validation_findings` asks for are
/// ones it may give.
pub open spec fn validation_answered<V: VcsProvider>(
    vcs: &V,
    strict: bool,
    files: Seq<Seq<char>>,
    pats: Seq<PatternV>,
    bss: Seq<Seq<Result<bool, Seq<char>>>>,
    ec: Seq<(Seq<char>, ExistsStatus)>,
    cm: Seq<(Seq<char>, FileChangesV)>,
    cache: Seq<(Seq<char>, ParsedFileV)>,
) -> bool
    decreases files.len(),
{
    if files.len() == 0 {
        true
    } else {
        let ec1 = validation_findings(strict, files.drop_last(), pats, bss.drop_last(), ec, cm, cache).1;
        &&& validation_answered(vcs, strict, files.drop_last(), pats, bss.drop_last(), ec, cm, cache)
        &&& file_answered(vcs, strict, files.last(), pats, bss.last(), ec1, cm, cache)
    }
}

/// For each file to validate, each active target of each pair: the
/// finding on the target, settled through the backend. What the backend
/// answers on a file's existence depends on the disk: the findings added,
/// and the answers remembered, are those of `validation_findings` for some
/// answers of the backend.
pub fn run_validation<V: VcsProvider>(
    scope: &ValidationScope,
    cache: &ParseCache,
    changes: &ChangeMap,
    vcs: &V,
    strict: bool,
    ignore_patterns: &[IgnorePattern],
    exists_cache: &mut ExistsCache,
    result: &mut Vec<Diagnostic>,
)
    ensures
        exists|bss: Seq<Seq<Result<bool, Seq<char>>>>|
            #![trigger validation_findings(strict, strings_view(scope.validate_files@), patterns_view(ignore_patterns@), bss, old(exists_cache)@, changes@, cache@)]
            diags_view(final(result)@) == diags_view(old(result)@) + validation_findings(
                strict,
                strings_view(scope.validate_files@),
                patterns_view(ignore_patterns@),
                bss,
                old(exists_cache)@,
                changes@,
                cache@,
            ).0 && final(exists_cache)@ == validation_findings(
                strict,
                strings_view(scope.validate_files@),
                patterns_view(ignore_patterns@),
                bss,
                old(exists_cache)@,
                changes@,
                cache@,
            ).1 && validation_answered(
                vcs,
                strict,
                strings_view(scope.validate_files@),
                patterns_view(ignore_patterns@),
                bss,
                old(exists_cache)@,
                changes@,
                cache@,
            ),
{
    let ghost r0 = diags_view(result@);
    let ghost ec0 = exists_cache@;
    let ghost vf = strings_view(scope.validate_files@);
    let ghost pats = patterns_view(ignore_patterns@);
    let ghost mut bss: Seq<Seq<Result<bool, Seq<char>>>> = Seq::empty();
    let mut i: usize = 0;
    while i < scope.validate_files.len()
        invariant
            i <= vf.len(),
            vf == strings_view(scope.validate_files@),
            pats == patterns_view(ignore_patterns@),
            bss.len() == i,
            validation_answered(vcs, strict, vf.subrange(0, i as int), pats, bss, ec0, changes@, cache@),
            (diags_view(result@), exists_cache@) == ({
                let v = validation_findings(strict, vf.subrange(0, i as int), pats, bss, ec0, changes@, cache@);
                (r0 + v.0, v.1)
            }),
        decreases scope.validate_files.len() - i,
    {
        let file = &scope.validate_files[i];
        assert(vf[i as int] == file@);
        let ghost before = diags_view(result@);
        let ghost ecf = exists_cache@;
        let ghost mut cur: Seq<Result<bool, Seq<char>>> = Seq::empty();
        if let Some(parsed) = cache.get(file.as_str()) {
            let sorted = sorted_lines_for(changes, cache, file.as_str());
            let pairs = build_pairs(&parsed.directives);
            let active = active_targets(&pairs, lines_ref(&sorted), file.as_str(), strict, ignore_patterns);
            let ghost ps = pairs_view(pairs@);
            let ghost av = active_view(active@);
            assert(ps.len() == pairs@.len());
            let mut j: usize = 0;
            while j < active.len()
                invariant
                    j <= active@.len(),
                    av == active_view(active@),
                    ps == pairs_view(pairs@),
                    ps.len() == pairs@.len(),
                    cur.len() == j,
                    active_answered(vcs, strict, file@, ps, av.subrange(0, j as int), cur, ecf, changes@, cache@),
                    (diags_view(result@), exists_cache@) == ({
                        let v = active_findings(strict, file@, ps, av.subrange(0, j as int), cur, ecf, changes@, cache@);
                        (before + v.0, v.1)
                    }),
                decreases active.len() - j,
            {
                let (pi, ti, trig) = active[j];
                let ghost mut b: Result<bool, Seq<char>> = Ok(true);
                let ghost dsv = diags_view(result@);
                let ghost ec1 = exists_cache@;
                assert(av[j as int] == (pi as int, ti as int, trig));
                if pi < pairs.len() && ti < pairs[pi].targets.len() {
                    let pair = &pairs[pi];
                    let target = &pair.targets[ti];
                    assert(ps[pi as int] == pair@);
                    assert(ps[pi as int].targets[ti as int] == target@);
                    let res = resolve_target(file.as_str(), pair, target, cache, vcs, strict, exists_cache);
                    let ghost rv = resolution_view(res);
                    proof {
                        b = choose|b: Result<bool, Seq<char>>|
                            (rv, exists_cache@) == settle(strict, file@, pair@, target@, cache@, ec1, b)
                                && settle_answered(vcs, strict, file@, target@, cache@, ec1, b);
                    }
                    let fd = settle_target(file.as_str(), pair, target, trig, res, changes, cache);
                    assert((diag_opt_view(fd), exists_cache@) == active_finding(
                        strict,
                        file@,
                        ps,
                        av[j as int],
                        b,
                        ec1,
                        changes@,
                        cache@,
                    ));
                    if let Some(d) = fd {
                        push_diag(result, d);
                    }
                } else {
                    assert(active_finding(strict, file@, ps, av[j as int], b, ec1, changes@, cache@) == (
                        None::<DiagnosticV>,
                        ec1,
                    ));
                }
                proof {
                    let pre = av.subrange(0, j as int);
                    let nxt = av.subrange(0, j + 1);
                    assert(nxt.drop_last() =~= pre);
                    assert(nxt.last() == av[j as int]);
                    assert(cur.push(b).drop_last() =~= cur);
                    assert(cur.push(b).last() == b);
                    cur = cur.push(b);
                }
                j = j + 1;
            }
            assert(av.subrange(0, active@.len() as int) =~= av);
            assert(lookup(cache@, file@) == Some(parsed@));
            assert(file_findings(strict, file@, pats, cur, ecf, changes@, cache@) == active_findings(
                strict,
                file@,
                ps,
                av,
                cur,
                ecf,
                changes@,
                cache@,
            ));
        }
        proof {
            let pre = vf.subrange(0, i as int);
            let nxt = vf.subrange(0, i + 1);
            assert(nxt.drop_last() =~= pre);
            assert(nxt.last() == file@);
            assert(bss.push(cur).drop_last() =~= bss);
            assert(bss.push(cur).last() == cur);
            let ff = file_findings(strict, file@, pats, cur, ecf, changes@, cache@);
            assert(diags_view(result@) == before + ff.0);
            assert(exists_cache@ == ff.1);
            bss = bss.push(cur);
        }
        i = i + 1;
    }
    assert(vf.subrange(0, vf.len() as int) =~= vf);
}

/// The content lines of the region `label_name` opens in a parsed file
/// (see `label_range`); `None` when the file is not parsed or has no such
/// region.
pub fn find_label_range(file_path: &str, label_name: &str, cache: &ParseCache) -> (r: Option<LabelRange>)
    ensures
        (match lookup(cache@, file_path@) {
            Some(pf) => match label_bounds(pf.directives, label_name@) {
                Some((a, b)) => r matches Some(x) && x.start as int == (if a < usize::MAX {
                    a + 1
                } else {
                    a as int
                }) && x.end as int == (if b > 0 {
                    b - 1
                } else {
                    b as int
                }),
                None => r is None,
            },
            None => r is None,
        }),
{
    match cache.get(file_path) {
        Some(parsed) => crate::pairs::label_range(&parsed.directives, label_name),
        None => None,
    }
}

// ─── Reverse lookup: references to deleted files and stale labels ───

pub open spec fn has_if_change(ds: Seq<DirectiveV>) -> bool {
    exists|i: int| 0 <= i < ds.len() && #[trigger] ds[i] is IfChange
}

/// Whether some `IfChange` line was added.
pub open spec fn if_change_added(ds: Seq<DirectiveV>, added: Set<usize>) -> bool {
    exists|i: int| 0 <= i < ds.len() && (#[trigger] ds[i] matches DirectiveV::IfChange { line, .. } && added.contains(line))
}

/// The labels of the `IfChange` directives among the first `n`.
pub open spec fn if_labels(ds: Seq<DirectiveV>, n: int) -> Seq<Seq<char>>
    decreases n,
{
    if n <= 0 {
        Seq::empty()
    } else {
        if_labels(ds, n - 1) + match ds[n - 1] {
            DirectiveV::IfChange { label: Some(l), .. } => seq![l],
            _ => Seq::empty(),
        }
    }
}

/// The current labels of a changed file whose labels may have changed: it
/// has no `IfChange` left, or one of its `IfChange` lines was added, or it
/// lost lines. Deleted and unparsed files have none.
pub open spec fn label_set_entry(
    path: Seq<char>,
    c: FileChangesV,
    cm: Seq<(Seq<char>, FileChangesV)>,
    cache: Seq<(Seq<char>, ParsedFileV)>,
) -> Option<Set<Seq<char>>> {
    if c.deleted {
        None
    } else {
        match lookup(cache, path) {
            None => None,
            Some(pf) => {
                let labels = Some(if_labels(pf.directives, pf.directives.len() as int).to_set());
                if has_if_change(pf.directives) {
                    match lines_for(cm, cache, path) {
                        None => None,
                        Some(lv) => if !if_change_added(pf.directives, lv.added) && lv.removed == Set::<usize>::empty() {
                            None
                        } else {
                            labels
                        },
                    }
                } else {
                    labels
                }
            },
        }
    }
}

pub open spec fn label_sets_of(
    cm: Seq<(Seq<char>, FileChangesV)>,
    cache: Seq<(Seq<char>, ParsedFileV)>,
    n: int,
) -> Seq<(Seq<char>, Set<Seq<char>>)>
    decreases n,
{
    if n <= 0 {
        Seq::empty()
    } else {
        label_sets_of(cm, cache, n - 1) + match label_set_entry(cm[n - 1].0, cm[n - 1].1, cm, cache) {
            Some(set) => seq![(cm[n - 1].0, set)],
            None => Seq::empty(),
        }
    }
}

/// Label sets by path: each path with the labels it holds.
pub struct LabelSets {
    pub entries: Vec<(String, Vec<String>)>,
}

pub open spec fn label_sets_view(v: Seq<(String, Vec<String>)>) -> Seq<(Seq<char>, Set<Seq<char>>)> {
    v.map_values(|e: (String, Vec<String>)| (e.0@, strings_view(e.1@).to_set()))
}

pub open spec fn set_lookup(s: Seq<(Seq<char>, Set<Seq<char>>)>, k: Seq<char>) -> Option<Set<Seq<char>>>
    decreases s.len(),
{
    if s.len() == 0 {
        None
    } else if s[0].0 == k {
        Some(s[0].1)
    } else {
        set_lookup(s.drop_first(), k)
    }
}

fn has_if_change_exec(ds: &Vec<Directive>) -> (r: bool)
    ensures
        r == has_if_change(directives_view(ds@)),
{
    let ghost dv = directives_view(ds@);
    let mut i: usize = 0;
    while i < ds.len()
        invariant
            i <= ds@.len(),
            dv == directives_view(ds@),
            forall|k: int| 0 <= k < i ==> !(#[trigger] dv[k] is IfChange),
        decreases ds.len() - i,
    {
        assert(dv[i as int] == ds@[i as int]@);
        if let Directive::IfChange { .. } = &ds[i] {
            return true;
        }
        i = i + 1;
    }
    false
}

fn if_change_added_exec(ds: &Vec<Directive>, sorted: &SortedLines) -> (r: bool)
    ensures
        r == if_change_added(directives_view(ds@), sorted.added_set()),
{
    let ghost dv = directives_view(ds@);
    let mut i: usize = 0;
    while i < ds.len()
        invariant
            i <= ds@.len(),
            dv == directives_view(ds@),
            forall|k: int|
                0 <= k < i ==> !(#[trigger] dv[k] matches DirectiveV::IfChange { line, .. } && sorted.added_set().contains(
                    line,
                )),
        decreases ds.len() - i,
    {
        assert(dv[i as int] == ds@[i as int]@);
        if let Directive::IfChange { line, .. } = &ds[i] {
            if sorted.added_in(*line, *line) {
                return true;
            }
            proof {
                if sorted.added_set().contains(*line) {
                    assert(crate::lines::in_range(sorted.added_set(), *line as int, *line as int));
                }
            }
        }
        i = i + 1;
    }
    false
}

fn if_labels_exec(ds: &Vec<Directive>) -> (r: Vec<String>)
    ensures
        strings_view(r@) == if_labels(directives_view(ds@), ds@.len() as int),
{
    let ghost dv = directives_view(ds@);
    let mut out: Vec<String> = Vec::new();
    let mut i: usize = 0;
    while i < ds.len()
        invariant
            i <= ds@.len(),
            dv == directives_view(ds@),
            strings_view(out@) == if_labels(dv, i as int),
        decreases ds.len() - i,
    {
        assert(dv[i as int] == ds@[i as int]@);
        let ghost o0 = strings_view(out@);
        if let Directive::IfChange { label: Some(l), .. } = &ds[i] {
            out.push(l.clone());
            assert(strings_view(out@) =~= o0.push(l@));
        }
        assert(strings_view(out@) =~= if_labels(dv, i + 1));
        i = i + 1;
    }
    out
}

pub fn build_label_sets(changes: &ChangeMap, cache: &ParseCache) -> (r: LabelSets)
    ensures
        label_sets_view(r.entries@) == label_sets_of(changes@, cache@, changes@.len() as int),
{
    let mut entries: Vec<(String, Vec<String>)> = Vec::new();
    let mut i: usize = 0;
    while i < changes.len()
        invariant
            i <= changes@.len(),
            label_sets_view(entries@) == label_sets_of(changes@, cache@, i as int),
        decreases changes@.len() - i,
    {
        let path = changes.key_at(i);
        let fc = changes.value_at(i);
        let ghost e0 = entries@;
        let mut keep_entry = false;
        let mut labels: Vec<String> = Vec::new();
        if !fc.deleted {
            if let Some(parsed) = cache.get(path.as_str()) {
                labels = if_labels_exec(&parsed.directives);
                if has_if_change_exec(&parsed.directives) {
                    let sorted = sorted_lines_for(changes, cache, path.as_str());
                    if let Some(s) = &sorted {
                        let added = if_change_added_exec(&parsed.directives, s);
                        keep_entry = added || s.has_removals();
                    }
                } else {
                    keep_entry = true;
                }
            }
        }
        if keep_entry {
            entries.push((path.clone(), labels));
            assert(label_sets_view(entries@) =~= label_sets_view(e0).push(
                (changes@[i as int].0, label_set_entry(changes@[i as int].0, changes@[i as int].1, changes@, cache@)->0),
            ));
        }
        assert(label_sets_view(entries@) =~= label_sets_of(changes@, cache@, i + 1));
        i = i + 1;
    }
    LabelSets { entries }
}

impl LabelSets {
    pub fn is_empty(&self) -> (r: bool)
        ensures
            r == (self.entries@.len() == 0),
    {
        self.entries.len() == 0
    }

    /// The labels recorded for `k`, if any.
    pub fn get(&self, k: &str) -> (r: Option<&Vec<String>>)
        ensures
            (match set_lookup(label_sets_view(self.entries@), k@) {
                Some(set) => r matches Some(v) && strings_view(v@).to_set() == set,
                None => r is None,
            }),
    {
        let ghost sv = label_sets_view(self.entries@);
        let mut i: usize = 0;
        assert(sv.subrange(0, sv.len() as int) =~= sv);
        while i < self.entries.len()
            invariant
                i <= sv.len(),
                sv == label_sets_view(self.entries@),
                set_lookup(sv, k@) == set_lookup(sv.subrange(i as int, sv.len() as int), k@),
            decreases self.entries.len() - i,
        {
            let ghost rest = sv.subrange(i as int, sv.len() as int);
            assert(rest.drop_first() =~= sv.subrange(i + 1, sv.len() as int));
            if str_eq(self.entries[i].0.as_str(), k) {
                return Some(&self.entries[i].1);
            }
            i = i + 1;
        }
        None
    }

    /// Whether `l` is among the recorded labels.
    pub fn holds(labels: &Vec<String>, l: &str) -> (r: bool)
        ensures
            r == strings_view(labels@).to_set().contains(l@),
    {
        let ghost lv = strings_view(labels@);
        let mut i: usize = 0;
        while i < labels.len()
            invariant
                i <= lv.len(),
                lv == strings_view(labels@),
                forall|k: int| 0 <= k < i ==> lv[k] != l@,
            decreases labels.len() - i,
        {
            if str_eq(labels[i].as_str(), l) {
                assert(lv.contains(lv[i as int]));
                return true;
            }
            i = i + 1;
        }
        false
    }
}

/// The paths of the deleted files among the first `n` changes.
pub open spec fn deleted_keys(cm: Seq<(Seq<char>, FileChangesV)>, n: int) -> Seq<Seq<char>>
    decreases n,
{
    if n <= 0 {
        Seq::empty()
    } else {
        deleted_keys(cm, n - 1) + (if cm[n - 1].1.deleted {
            seq![cm[n - 1].0]
        } else {
            Seq::empty()
        })
    }
}

pub fn deleted_files(changes: &ChangeMap) -> (r: Vec<String>)
    ensures
        strings_view(r@) == deleted_keys(changes@, changes@.len() as int),
{
    let mut out: Vec<String> = Vec::new();
    let mut i: usize = 0;
    while i < changes.len()
        invariant
            i <= changes@.len(),
            strings_view(out@) == deleted_keys(changes@, i as int),
        decreases changes@.len() - i,
    {
        let ghost o0 = strings_view(out@);
        if changes.value_at(i).deleted {
            out.push(changes.key_at(i).clone());
            assert(strings_view(out@) =~= o0.push(changes@[i as int].0));
        }
        assert(strings_view(out@) =~= deleted_keys(changes@, i + 1));
        i = i + 1;
    }
    out
}

fn in_list(list: &Vec<String>, k: &str) -> (r: bool)
    ensures
        r == strings_view(list@).contains(k@),
{
    let ghost lv = strings_view(list@);
    let mut i: usize = 0;
    while i < list.len()
        invariant
            i <= lv.len(),
            lv == strings_view(list@),
            forall|j: int| 0 <= j < i ==> lv[j] != k@,
        decreases list.len() - i,
    {
        if str_eq(list[i].as_str(), k) {
            assert(lv[i as int] == k@);
            return true;
        }
        i = i + 1;
    }
    false
}

/// The finding on a target of a pair the diff left alone: it names a
/// deleted file, or a label its file no longer holds.
pub open spec fn stale_finding(
    strict: bool,
    source: Seq<char>,
    p: PairV,
    t: TargetV,
    deleted: Seq<Seq<char>>,
    sets: Seq<(Seq<char>, Set<Seq<char>>)>,
) -> Option<DiagnosticV> {
    match t.file {
        None => None,
        Some(f) => match target_path(strict, f, source) {
            None => None,
            Some(ts) => if deleted.contains(ts) {
                Some(pair_diag(source, p, t, Severity::Warning, missing_target_message(ts, t.label)))
            } else {
                match t.label {
                    None => None,
                    Some(l) => match set_lookup(sets, ts) {
                        None => None,
                        Some(valid) => if valid.contains(l) {
                            None
                        } else {
                            Some(pair_diag(source, p, t, Severity::Warning, label_missing_message(l, ts)))
                        },
                    },
                }
            },
        },
    }
}

/// The stale-reference findings on the active targets of pairs that were
/// not triggered.
pub open spec fn stale_findings(
    strict: bool,
    source: Seq<char>,
    ps: Seq<PairV>,
    active: Seq<(int, int, bool)>,
    deleted: Seq<Seq<char>>,
    sets: Seq<(Seq<char>, Set<Seq<char>>)>,
) -> Seq<DiagnosticV>
    decreases active.len(),
{
    if active.len() == 0 {
        Seq::empty()
    } else {
        let (pi, ti, trig) = active.last();
        stale_findings(strict, source, ps, active.drop_last(), deleted, sets) + (if !trig && 0 <= pi < ps.len() && 0 <= ti
            < ps[pi].targets.len() {
            match stale_finding(strict, source, ps[pi], ps[pi].targets[ti], deleted, sets) {
                Some(d) => seq![d],
                None => Seq::empty(),
            }
        } else {
            Seq::empty()
        })
    }
}

pub fn stale_target_finding(
    strict: bool,
    source_file: &str,
    pair: &DirectivePair,
    target: &Target,
    deleted: &Vec<String>,
    label_sets: &LabelSets,
) -> (r: Option<Diagnostic>)
    ensures
        diag_opt_view(r) == stale_finding(
            strict,
            source_file@,
            pair@,
            target@,
            strings_view(deleted@),
            label_sets_view(label_sets.entries@),
        ),
{
    let file = match &target.file {
        Some(f) => f,
        None => {
            return None;
        },
    };
    let ts = match resolve_target_path(file.as_str(), source_file, strict) {
        Some(p) => p,
        None => {
            return None;
        },
    };
    if in_list(deleted, ts.as_str()) {
        let m = missing_message(ts.as_str(), &target.label);
        return Some(target_diagnostic(source_file, pair.if_line, &pair.if_label, pair.then_line, target, Severity::Warning, m));
    }
    let l = match &target.label {
        Some(l) => l,
        None => {
            return None;
        },
    };
    let valid = match label_sets.get(ts.as_str()) {
        Some(v) => v,
        None => {
            return None;
        },
    };
    if LabelSets::holds(valid, l.as_str()) {
        return None;
    }
    let mut m = chars_of("label ");
    push_str(&mut m, l.as_str());
    push_str(&mut m, " not found in ");
    push_str(&mut m, ts.as_str());
    Some(target_diagnostic(source_file, pair.if_line, &pair.if_label, pair.then_line, target, Severity::Warning, string_of(m.as_slice())))
}

pub fn stale_findings_for(
    strict: bool,
    source_file: &str,
    pairs: &Vec<DirectivePair>,
    active: &Vec<(usize, usize, bool)>,
    deleted: &Vec<String>,
    label_sets: &LabelSets,
) -> (r: Vec<Diagnostic>)
    ensures
        diags_view(r@) == stale_findings(
            strict,
            source_file@,
            pairs_view(pairs@),
            active_view(active@),
            strings_view(deleted@),
            label_sets_view(label_sets.entries@),
        ),
{
    let ghost pv = pairs_view(pairs@);
    let ghost av = active_view(active@);
    let mut out: Vec<Diagnostic> = Vec::new();
    let mut j: usize = 0;
    while j < active.len()
        invariant
            j <= active@.len(),
            pv == pairs_view(pairs@),
            av == active_view(active@),
            diags_view(out@) == stale_findings(
                strict,
                source_file@,
                pv,
                av.subrange(0, j as int),
                strings_view(deleted@),
                label_sets_view(label_sets.entries@),
            ),
        decreases active.len() - j,
    {
        let ghost pre = av.subrange(0, j + 1);
        assert(pre.drop_last() =~= av.subrange(0, j as int));
        let (pi, ti, trig) = active[j];
        assert(pre.last() == (pi as int, ti as int, trig));
        if !trig && pi < pairs.len() && ti < pairs[pi].targets.len() {
            assert(pv[pi as int] == pairs@[pi as int]@);
            assert(pv[pi as int].targets[ti as int] == pairs@[pi as int].targets@[ti as int]@);
            if let Some(d) = stale_target_finding(strict, source_file, &pairs[pi], &pairs[pi].targets[ti], deleted, label_sets) {
                push_diag(&mut out, d);
            }
        }
        j = j + 1;
    }
    assert(av.subrange(0, av.len() as int) =~= av);
    out
}

/// Whether `content` mentions one of `names`.
pub open spec fn mentions_any(content: Seq<char>, names: Seq<Seq<char>>) -> bool {
    exists|i: int| 0 <= i < names.len() && contains(content, #[trigger] names[i])
}

fn mentions_exec(content: &str, names: &Vec<String>) -> (r: bool)
    ensures
        r == mentions_any(content@, strings_view(names@)),
{
    let ghost nv = strings_view(names@);
    let mut i: usize = 0;
    while i < names.len()
        invariant
            i <= nv.len(),
            nv == strings_view(names@),
            forall|k: int| 0 <= k < i ==> !contains(content@, #[trigger] nv[k]),
        decreases names.len() - i,
    {
        if contains_str(content, names[i].as_str()) {
            assert(nv[i as int] == names@[i as int]@);
            return true;
        }
        i = i + 1;
    }
    false
}

/// The pairs of a candidate file the cache does not hold, from what reading
/// it gave: none unless it is text that mentions a deleted file or a file
/// whose labels are recorded.
pub open spec fn read_pairs(
    path: Seq<char>,
    r: ReadV,
    deleted: Seq<Seq<char>>,
    labelled: Seq<Seq<char>>,
) -> Option<Seq<PairV>> {
    match r {
        ReadV::Text(t) => if mentions_any(t, deleted) || mentions_any(t, labelled) {
            Some(pairs_of(parse_spec(t, path).0))
        } else {
            None
        },
        _ => None,
    }
}

pub fn pairs_from_read(
    rel: &str,
    read: Result<Option<FileContent>, String>,
    deleted: &Vec<String>,
    labelled: &Vec<String>,
) -> (r: Option<Vec<DirectivePair>>)
    ensures
        (match read_pairs(rel@, read_view(read), strings_view(deleted@), strings_view(labelled@)) {
            Some(ps) => r matches Some(v) && pairs_view(v@) == ps,
            None => r is None,
        }),
{
    match read {
        Ok(Some(FileContent::Text(t))) => {
            if !mentions_exec(t.as_str(), deleted) && !mentions_exec(t.as_str(), labelled) {
                return None;
            }
            let (directives, _errors) = parse(t.as_str(), rel);
            Some(build_pairs(&directives))
        },
        _ => None,
    }
}

fn labelled_paths(label_sets: &LabelSets) -> (r: Vec<String>)
    ensures
        strings_view(r@) == label_sets_view(label_sets.entries@).map_values(|e: (Seq<char>, Set<Seq<char>>)| e.0),
{
    let ghost lv = label_sets_view(label_sets.entries@);
    let mut out: Vec<String> = Vec::new();
    let mut i: usize = 0;
    while i < label_sets.entries.len()
        invariant
            i <= lv.len(),
            lv == label_sets_view(label_sets.entries@),
            strings_view(out@) == lv.map_values(|e: (Seq<char>, Set<Seq<char>>)| e.0).subrange(0, i as int),
        decreases label_sets.entries.len() - i,
    {
        let ghost o0 = strings_view(out@);
        out.push(label_sets.entries[i].0.clone());
        assert(strings_view(out@) =~= lv.map_values(|e: (Seq<char>, Set<Seq<char>>)| e.0).subrange(0, i + 1)) by {
            assert(strings_view(out@) =~= o0.push(lv[i as int].0));
        }
        i = i + 1;
    }
    assert(lv.map_values(|e: (Seq<char>, Set<Seq<char>>)| e.0).subrange(0, lv.len() as int) =~= lv.map_values(
        |e: (Seq<char>, Set<Seq<char>>)| e.0,
    ));
    out
}

/// The paths that have label sets.
pub open spec fn labelled_of(sets: Seq<(Seq<char>, Set<Seq<char>>)>) -> Seq<Seq<char>> {
    sets.map_values(|e: (Seq<char>, Set<Seq<char>>)| e.0)
}

/// The pairs of a candidate file: those of its parsed directives (none
/// when it has no directive), else those of the read `r` when it mentions
/// a deleted or labelled path.
pub open spec fn candidate_pairs(
    path: Seq<char>,
    r: ReadV,
    deleted: Seq<Seq<char>>,
    sets: Seq<(Seq<char>, Set<Seq<char>>)>,
    cache: Seq<(Seq<char>, ParsedFileV)>,
) -> Option<Seq<PairV>> {
    match lookup(cache, path) {
        Some(pf) => if pf.directives.len() == 0 {
            None
        } else {
            Some(pairs_of(pf.directives))
        },
        None => read_pairs(path, r, deleted, labelled_of(sets)),
    }
}

/// The findings on one candidate file read as `r`: none for a deleted
/// file or one validated anyway, else the stale references of its active
/// targets.
pub open spec fn candidate_findings(
    strict: bool,
    path: Seq<char>,
    r: ReadV,
    validate: Seq<Seq<char>>,
    deleted: Seq<Seq<char>>,
    sets: Seq<(Seq<char>, Set<Seq<char>>)>,
    pats: Seq<PatternV>,
    cm: Seq<(Seq<char>, FileChangesV)>,
    cache: Seq<(Seq<char>, ParsedFileV)>,
) -> Seq<DiagnosticV> {
    if deleted.contains(path) || validate.contains(path) {
        Seq::empty()
    } else {
        match candidate_pairs(path, r, deleted, sets, cache) {
            Some(ps) => stale_findings(
                strict,
                path,
                ps,
                active_list(strict, ps, lines_for(cm, cache, path), path, pats, ps.len() as int),
                deleted,
                sets,
            ),
            None => Seq::empty(),
        }
    }
}

/// The findings of the scan over the candidates `cands`, the `k`-th read
/// as `reads[k]`.
pub open spec fn stale_scan(
    strict: bool,
    cands: Seq<Seq<char>>,
    reads: Seq<ReadV>,
    validate: Seq<Seq<char>>,
    deleted: Seq<Seq<char>>,
    sets: Seq<(Seq<char>, Set<Seq<char>>)>,
    pats: Seq<PatternV>,
    cm: Seq<(Seq<char>, FileChangesV)>,
    cache: Seq<(Seq<char>, ParsedFileV)>,
) -> Seq<DiagnosticV>
    decreases cands.len(),
{
    if cands.len() == 0 {
        Seq::empty()
    } else {
        stale_scan(strict, cands.drop_last(), reads, validate, deleted, sets, pats, cm, cache) + candidate_findings(
            strict,
            cands.last(),
            reads[cands.len() - 1],
            validate,
            deleted,
            sets,
            pats,
            cm,
            cache,
        )
    }
}

/// The candidates a search answer names (none when it failed).
pub open spec fn search_candidates(search: Result<Seq<Seq<char>>, Seq<char>>) -> Seq<Seq<char>> {
    match search {
        Ok(c) => c,
        Err(_) => Seq::empty(),
    }
}

/// The reverse-lookup pass: nothing when no file was deleted and no label
/// set was built, else the scan over the candidates the search answered.
pub open spec fn stale_pass(
    strict: bool,
    search: Result<Seq<Seq<char>>, Seq<char>>,
    reads: Seq<ReadV>,
    validate: Seq<Seq<char>>,
    pats: Seq<PatternV>,
    cm: Seq<(Seq<char>, FileChangesV)>,
    cache: Seq<(Seq<char>, ParsedFileV)>,
) -> Seq<DiagnosticV> {
    let deleted = deleted_keys(cm, cm.len() as int);
    let sets = label_sets_of(cm, cache, cm.len() as int);
    if deleted.len() == 0 && sets.len() == 0 {
        Seq::empty()
    } else {
        stale_scan(strict, search_candidates(search), reads, validate, deleted, sets, pats, cm, cache)
    }
}

/// Whether each read of the scan (of a candidate that is not deleted, not
/// validated anyway and not parsed) is an answer the backend may give for
/// that candidate.
pub open spec fn scan_reads_answered<V: VcsProvider>(
    vcs: &V,
    cands: Seq<Seq<char>>,
    reads: Seq<ReadV>,
    validate: Seq<Seq<char>>,
    deleted: Seq<Seq<char>>,
    cache: Seq<(Seq<char>, ParsedFileV)>,
) -> bool
    decreases cands.len(),
{
    if cands.len() == 0 {
        true
    } else {
        let c = cands.last();
        &&& scan_reads_answered(vcs, cands.drop_last(), reads, validate, deleted, cache)
        &&& (!deleted.contains(c) && !validate.contains(c) && lookup(cache, c) is None) ==> vcs.read_answers(
            c,
            reads[cands.len() - 1],
        )
    }
}

proof fn lemma_scan_reads_prefix<V: VcsProvider>(
    vcs: &V,
    strict: bool,
    cands: Seq<Seq<char>>,
    a: Seq<ReadV>,
    b: Seq<ReadV>,
    validate: Seq<Seq<char>>,
    deleted: Seq<Seq<char>>,
    sets: Seq<(Seq<char>, Set<Seq<char>>)>,
    pats: Seq<PatternV>,
    cm: Seq<(Seq<char>, FileChangesV)>,
    cache: Seq<(Seq<char>, ParsedFileV)>,
)
    requires
        cands.len() <= a.len() <= b.len(),
        forall|k: int| 0 <= k < a.len() ==> a[k] == b[k],
    ensures
        stale_scan(strict, cands, b, validate, deleted, sets, pats, cm, cache) == stale_scan(
            strict,
            cands,
            a,
            validate,
            deleted,
            sets,
            pats,
            cm,
            cache,
        ),
        scan_reads_answered(vcs, cands, b, validate, deleted, cache) == scan_reads_answered(
            vcs,
            cands,
            a,
            validate,
            deleted,
            cache,
        ),
    decreases cands.len(),
{
    if cands.len() > 0 {
        lemma_scan_reads_prefix(vcs, strict, cands.drop_last(), a, b, validate, deleted, sets, pats, cm, cache);
        assert(a[cands.len() - 1] == b[cands.len() - 1]);
    }
}

/// Whether the answers the reverse lookup uses are ones the backend may
/// give: when it searches at all, the answer to the search for `LINT.`, and
/// the reads of the candidates.
pub open spec fn stale_answered<V: VcsProvider>(
    vcs: &V,
    search: Result<Seq<Seq<char>>, Seq<char>>,
    reads: Seq<ReadV>,
    validate: Seq<Seq<char>>,
    cm: Seq<(Seq<char>, FileChangesV)>,
    cache: Seq<(Seq<char>, ParsedFileV)>,
) -> bool {
    let deleted = deleted_keys(cm, cm.len() as int);
    let sets = label_sets_of(cm, cache, cm.len() as int);
    (deleted.len() > 0 || sets.len() > 0) ==> {
        &&& vcs.search_answers("LINT."@, search)
        &&& scan_reads_answered(vcs, search_candidates(search), reads, validate, deleted, cache)
    }
}

/// Scans the files that mention `LINT.` (outside the deleted files and the
/// files validated anyway) for references to deleted files and stale
/// labels. Which files the backend lists, and what it reads from them,
/// depends on the disk: the findings added are those of `stale_pass` for
/// the backend's answer to the search for `LINT.` and reads it may give.
pub fn check_stale_references<V: VcsProvider>(
    vcs: &V,
    strict: bool,
    scope: &ValidationScope,
    changes: &ChangeMap,
    cache: &ParseCache,
    ignore_patterns: &[IgnorePattern],
    result: &mut Vec<Diagnostic>,
)
    ensures
        exists|search: Result<Seq<Seq<char>>, Seq<char>>, reads: Seq<ReadV>|
            diags_view(final(result)@) == diags_view(old(result)@) + stale_pass(
                strict,
                search,
                reads,
                strings_view(scope.validate_files@),
                patterns_view(ignore_patterns@),
                changes@,
                cache@,
            ) && stale_answered(vcs, search, reads, strings_view(scope.validate_files@), changes@, cache@),
{
    let ghost vf = strings_view(scope.validate_files@);
    let ghost pats = patterns_view(ignore_patterns@);
    let deleted = deleted_files(changes);
    let label_sets = build_label_sets(changes, cache);
    let ghost dv = strings_view(deleted@);
    let ghost sv = label_sets_view(label_sets.entries@);
    let ghost r0 = diags_view(result@);
    assert(sv.len() == label_sets.entries@.len());
    assert(stale_scan(strict, Seq::empty(), Seq::empty(), vf, dv, sv, pats, changes@, cache@) =~= Seq::empty());
    assert(r0 + Seq::<DiagnosticV>::empty() =~= r0);
    let ghost none: Result<Seq<Seq<char>>, Seq<char>> = Err(Seq::empty());
    assert(stale_pass(strict, none, Seq::empty(), vf, pats, changes@, cache@) =~= Seq::empty());
    if deleted.len() == 0 && label_sets.is_empty() {
        assert(stale_answered(vcs, none, Seq::empty(), vf, changes@, cache@));
        return;
    }
    let searched = vcs.search_files("LINT.");
    proof {
        reveal_strlit("LINT.");
    }
    let ghost sr = search_view(searched);
    let candidates = match searched {
        Ok(c) => c,
        Err(_) => {
            assert(stale_pass(strict, sr, Seq::empty(), vf, pats, changes@, cache@) =~= Seq::empty());
            assert(stale_answered(vcs, sr, Seq::empty(), vf, changes@, cache@));
            return;
        },
    };
    let labelled = labelled_paths(&label_sets);
    assert(strings_view(labelled@) == labelled_of(sv));
    let ghost cv = strings_view(candidates@);
    let ghost mut reads: Seq<ReadV> = Seq::empty();
    let mut i: usize = 0;
    while i < candidates.len()
        invariant
            i <= candidates@.len(),
            cv == strings_view(candidates@),
            cv.len() == candidates@.len(),
            vf == strings_view(scope.validate_files@),
            pats == patterns_view(ignore_patterns@),
            dv == strings_view(deleted@),
            sv == label_sets_view(label_sets.entries@),
            strings_view(labelled@) == labelled_of(sv),
            reads.len() == i,
            sr == Ok::<Seq<Seq<char>>, Seq<char>>(cv),
            scan_reads_answered(vcs, cv.subrange(0, i as int), reads, vf, dv, cache@),
            diags_view(result@) == r0 + stale_scan(strict, cv.subrange(0, i as int), reads, vf, dv, sv, pats, changes@, cache@),
        decreases candidates.len() - i,
    {
        let rel = candidates[i].as_str();
        assert(cv[i as int] == rel@);
        let ghost before = diags_view(result@);
        let ghost mut rd: ReadV = ReadV::Missing;
        if !in_list(&deleted, rel) && !in_list(&scope.validate_files, rel) {
            let pairs = match cache.get(rel) {
                Some(parsed) => if parsed.directives.len() == 0 {
                    None
                } else {
                    Some(build_pairs(&parsed.directives))
                },
                None => {
                    let read = vcs.read_file(rel);
                    proof {
                        rd = read_view(read);
                    }
                    pairs_from_read(rel, read, &deleted, &labelled)
                },
            };
            assert(match candidate_pairs(rel@, rd, dv, sv, cache@) {
                Some(ps) => pairs matches Some(v) && pairs_view(v@) == ps,
                None => pairs is None,
            });
            if let Some(pairs) = pairs {
                let sorted = sorted_lines_for(changes, cache, rel);
                let active = active_targets(&pairs, lines_ref(&sorted), rel, strict, ignore_patterns);
                assert(pairs_view(pairs@).len() == pairs@.len());
                let found = stale_findings_for(strict, rel, &pairs, &active, &deleted, &label_sets);
                append_diags(result, found);
            }
        }
        proof {
            let pre = cv.subrange(0, i as int);
            let nxt = cv.subrange(0, i + 1);
            assert(nxt.drop_last() =~= pre);
            assert(nxt.last() == rel@);
            assert(reads.push(rd)[i as int] == rd);
            lemma_scan_reads_prefix(vcs, strict, pre, reads, reads.push(rd), vf, dv, sv, pats, changes@, cache@);
            assert(diags_view(result@) == before + candidate_findings(
                strict,
                rel@,
                rd,
                vf,
                dv,
                sv,
                pats,
                changes@,
                cache@,
            ));
            reads = reads.push(rd);
        }
        i = i + 1;
    }
    assert(cv.subrange(0, cv.len() as int) =~= cv);
    assert(diags_view(result@) == r0 + stale_pass(strict, sr, reads, vf, pats, changes@, cache@));
    assert(stale_answered(vcs, sr, reads, vf, changes@, cache@));
}

// ─── The check ───

/// What the backend answered during a check: its mode, the files it
/// listed, what it read of the seed files and of the target files, its
/// answers on the existence of target files (each file asked at most once),
/// its answer to the search of the reverse lookup and what it read of the
/// candidates.
pub struct Outcomes {
    pub strict: bool,
    pub listed: Seq<Seq<char>>,
    pub seed_reads: Seq<ReadV>,
    pub target_reads: Seq<ReadV>,
    pub answers: Seq<Seq<Result<bool, Seq<char>>>>,
    pub search: Result<Seq<Seq<char>>, Seq<char>>,
    pub scan_reads: Seq<ReadV>,
}

/// The files parsed by a check: the seed files, then the files their
/// targets name.
pub open spec fn checked_cache(o: Outcomes, cm: Seq<(Seq<char>, FileChangesV)>) -> Seq<(Seq<char>, ParsedFileV)> {
    let seeds = seed_scope(validate_scope(o.listed, cm), cm);
    let first = parse_all(Seq::empty(), seeds, o.seed_reads);
    parse_all(first, source_paths(o.strict, first, seeds), o.target_reads)
}

/// The findings of a check with the backend outcomes `o`, before they are
/// put in report order: missing, unparsable and malformed seed files, the
/// findings of the validation pass, then those of the reverse lookup.
pub open spec fn check_findings(
    o: Outcomes,
    cm: Seq<(Seq<char>, FileChangesV)>,
    pats: Seq<PatternV>,
) -> Seq<DiagnosticV> {
    let validate = validate_scope(o.listed, cm);
    let seeds = seed_scope(validate, cm);
    let cache = checked_cache(o, cm);
    seed_errors(o.strict, cm, cache, change_keys(cm), validate, seeds) + validation_findings(
        o.strict,
        validate,
        pats,
        o.answers,
        no_answers(),
        cm,
        cache,
    ).0 + stale_pass(o.strict, o.search, o.scan_reads, validate, pats, cm, cache)
}

/// Whether every outcome is an answer the backend `vcs` may give: its mode
/// and listed files, the reads of the two parse passes, the existence
/// answers of the validation pass, and the search and reads of the reverse
/// lookup.
pub open spec fn outcomes_answered<V: VcsProvider>(
    vcs: &V,
    o: Outcomes,
    cm: Seq<(Seq<char>, FileChangesV)>,
    pats: Seq<PatternV>,
) -> bool {
    let validate = validate_scope(o.listed, cm);
    let seeds = seed_scope(validate, cm);
    let first = parse_all(Seq::empty(), seeds, o.seed_reads);
    let cache = checked_cache(o, cm);
    &&& vcs.strict_answers(o.strict)
    &&& vcs.listed_answers(o.listed)
    &&& reads_answered(vcs, Seq::empty(), seeds, o.seed_reads)
    &&& reads_answered(vcs, first, source_paths(o.strict, first, seeds), o.target_reads)
    &&& validation_answered(vcs, o.strict, validate, pats, o.answers, no_answers(), cm, cache)
    &&& stale_answered(vcs, o.search, o.scan_reads, validate, cm, cache)
}

/// Checks the changes against the `LINT.IfChange` / `LINT.ThenChange`
/// directives of the files the backend gives: structural errors of the
/// changed and listed files, targets a triggered pair did not change,
/// missing targets and labels, and references to deleted files or stale
/// labels. The findings are those of `check_findings` for outcomes the
/// backend may give (`outcomes_answered`), in report order.
pub fn check<V: VcsProvider>(vcs: &V, changes: &ChangeMap, ignore_patterns: &[IgnorePattern]) -> (r: Vec<Diagnostic>)
    ensures
        report_sorted(diags_view(r@)),
        exists|o: Outcomes|
            outcomes_answered(vcs, o, changes@, patterns_view(ignore_patterns@)) && diags_view(r@).to_multiset()
                == #[trigger] check_findings(o, changes@, patterns_view(ignore_patterns@)).to_multiset(),
{
    let strict = vcs.is_strict();
    let listed = vcs.validate_files();
    let scope = build_validation_scope(listed, changes);
    let mut cache = ParseCache::new();
    parse_files(&scope.seed_files, vcs, &mut cache);
    let ghost first = cache@;
    let ghost seed_reads = choose|reads: Seq<ReadV>|
        first == parse_all(Seq::empty(), strings_view(scope.seed_files@), reads) && reads_answered(
            vcs,
            Seq::empty(),
            strings_view(scope.seed_files@),
            reads,
        );
    let target_paths = collect_target_paths(strict, &cache, &scope.seed_files);
    parse_files(&target_paths, vcs, &mut cache);
    let ghost target_reads = choose|reads: Seq<ReadV>|
        cache@ == parse_all(first, strings_view(target_paths@), reads) && reads_answered(
            vcs,
            first,
            strings_view(target_paths@),
            reads,
        );
    let mut result: Vec<Diagnostic> = Vec::new();
    collect_seed_parse_errors(&scope, changes, &cache, strict, &mut result);
    let mut exists_cache = ExistsCache::new();
    assert(exists_cache@ =~= no_answers());
    let ghost r1 = diags_view(result@);
    run_validation(&scope, &cache, changes, vcs, strict, ignore_patterns, &mut exists_cache, &mut result);
    let ghost r2 = diags_view(result@);
    let ghost answers = choose|bss: Seq<Seq<Result<bool, Seq<char>>>>|
        #![trigger validation_findings(strict, strings_view(scope.validate_files@), patterns_view(ignore_patterns@), bss, no_answers(), changes@, cache@)]
        r2 == r1 + validation_findings(
            strict,
            strings_view(scope.validate_files@),
            patterns_view(ignore_patterns@),
            bss,
            no_answers(),
            changes@,
            cache@,
        ).0 && validation_answered(
            vcs,
            strict,
            strings_view(scope.validate_files@),
            patterns_view(ignore_patterns@),
            bss,
            no_answers(),
            changes@,
            cache@,
        );
    check_stale_references(vcs, strict, &scope, changes, &cache, ignore_patterns, &mut result);
    let ghost r3 = diags_view(result@);
    let ghost (search, scan_reads) = choose|sr: Result<Seq<Seq<char>>, Seq<char>>, reads: Seq<ReadV>|
        r3 == r2 + stale_pass(
            strict,
            sr,
            reads,
            strings_view(scope.validate_files@),
            patterns_view(ignore_patterns@),
            changes@,
            cache@,
        ) && stale_answered(vcs, sr, reads, strings_view(scope.validate_files@), changes@, cache@);
    let ghost o = Outcomes {
        strict,
        listed: strings_view(listed@),
        seed_reads,
        target_reads,
        answers,
        search,
        scan_reads,
    };
    assert(checked_cache(o, changes@) == cache@);
    assert(r3 =~= check_findings(o, changes@, patterns_view(ignore_patterns@)));
    assert(outcomes_answered(vcs, o, changes@, patterns_view(ignore_patterns@)));
    sort_result(&mut result);
    result
}


// ─── Laws ───

/// A check with no changes and no listed files finds nothing, whatever the
/// backend answers.
pub proof fn law_nothing_to_check(o: Outcomes, pats: Seq<PatternV>)
    requires
        o.listed.len() == 0,
    ensures
        check_findings(o, Seq::empty(), pats) == Seq::<DiagnosticV>::empty(),
{
    let cm = Seq::<(Seq<char>, FileChangesV)>::empty();
    let validate = validate_scope(o.listed, cm);
    assert(validate =~= Seq::<Seq<char>>::empty());
    let seeds = seed_scope(validate, cm);
    assert(change_keys(cm) =~= Seq::<Seq<char>>::empty());
    assert(seeds =~= Seq::<Seq<char>>::empty());
    let first = parse_all(Seq::empty(), seeds, o.seed_reads);
    assert(first =~= Seq::<(Seq<char>, ParsedFileV)>::empty());
    assert(source_paths(o.strict, first, seeds) =~= Seq::<Seq<char>>::empty());
    let cache = checked_cache(o, cm);
    assert(cache =~= Seq::<(Seq<char>, ParsedFileV)>::empty());
    assert(seed_errors(o.strict, cm, cache, change_keys(cm), validate, seeds) =~= Seq::<DiagnosticV>::empty());
    assert(validation_findings(o.strict, validate, pats, o.answers, no_answers(), cm, cache).0 =~= Seq::<DiagnosticV>::empty());
    assert(stale_pass(o.strict, o.search, o.scan_reads, validate, pats, cm, cache) =~= Seq::<DiagnosticV>::empty());
    assert(check_findings(o, cm, pats) =~= Seq::<DiagnosticV>::empty());
}

/// A triggered pair whose target file the diff left untouched is flagged:
/// its changes may need to be reflected in the target.
pub proof fn law_untouched_target_flagged(
    source: Seq<char>,
    p: PairV,
    t: TargetV,
    path: Seq<char>,
    cm: Seq<(Seq<char>, FileChangesV)>,
    cache: Seq<(Seq<char>, ParsedFileV)>,
)
    requires
        lookup(cm, path) is None,
    ensures
        target_finding(source, p, t, true, ResolutionV::Resolved { path, label: None }, cm, cache) == Some(
            pair_diag(source, p, t, Severity::Warning, reflect_message(path)),
        ),
{
}

/// A triggered pair whose target file the diff changed is not flagged.
pub proof fn law_changed_target_not_flagged(
    source: Seq<char>,
    p: PairV,
    t: TargetV,
    path: Seq<char>,
    cm: Seq<(Seq<char>, FileChangesV)>,
    cache: Seq<(Seq<char>, ParsedFileV)>,
)
    requires
        lookup(cm, path) matches Some(c) && (c.added != Set::<usize>::empty() || c.removed != Set::<usize>::empty()),
    ensures
        target_finding(source, p, t, true, ResolutionV::Resolved { path, label: None }, cm, cache) is None,
{
}

/// A triggered pair whose target names a label is flagged exactly when the
/// diff changed no line inside the labelled region of the target.
pub proof fn law_labelled_target_flagged_iff_region_unchanged(
    source: Seq<char>,
    p: PairV,
    t: TargetV,
    path: Seq<char>,
    l: Seq<char>,
    cm: Seq<(Seq<char>, FileChangesV)>,
    cache: Seq<(Seq<char>, ParsedFileV)>,
)
    requires
        lookup(cache, path) matches Some(pf) && label_bounds(pf.directives, l) is Some,
    ensures
        ({
            let (a, b) = label_bounds(lookup(cache, path)->0.directives, l)->0;
            let changed = match lines_for(cm, cache, path) {
                Some(x) => crate::lines::in_range(x.added, a + 1, b - 1) || crate::lines::in_range(
                    x.removed,
                    a + 1,
                    b as int,
                ),
                None => false,
            };
            target_finding(source, p, t, true, ResolutionV::Resolved { path, label: Some(l) }, cm, cache) == if changed {
                None
            } else {
                Some(pair_diag(source, p, t, Severity::Warning, reflect_message(path + seq![':'] + l)))
            }
        }),
{
}

/// In the reverse lookup, a target naming a file the diff deleted is
/// flagged as not found.
pub proof fn law_deleted_target_flagged(
    strict: bool,
    source: Seq<char>,
    p: PairV,
    t: TargetV,
    deleted: Seq<Seq<char>>,
    sets: Seq<(Seq<char>, Set<Seq<char>>)>,
)
    requires
        t.file matches Some(f) && target_path(strict, f, source) matches Some(ts) && deleted.contains(ts),
    ensures
        stale_finding(strict, source, p, t, deleted, sets) == Some(
            pair_diag(
                source,
                p,
                t,
                Severity::Warning,
                missing_target_message(target_path(strict, t.file->0, source)->0, t.label),
            ),
        ),
{
}

proof fn lemma_deleted_keys_take(cm: Seq<(Seq<char>, FileChangesV)>, n: int, m: int)
    requires
        0 <= n <= m <= cm.len(),
    ensures
        deleted_keys(cm.take(m), n) == deleted_keys(cm, n),
    decreases n,
{
    if n > 0 {
        lemma_deleted_keys_take(cm, n - 1, m);
        assert(cm.take(m)[n - 1] == cm[n - 1]);
    }
}

proof fn lemma_deleted_keys_of_filtered(cm: Seq<(Seq<char>, FileChangesV)>, n: int)
    requires
        0 <= n <= cm.len(),
    ensures
        deleted_keys(deleted_only(cm.take(n)), deleted_only(cm.take(n)).len() as int) == deleted_keys(cm, n),
    decreases n,
{
    reveal(Seq::filter);
    let s = cm.take(n);
    if n == 0 {
        assert(s.len() == 0);
        assert(deleted_only(s).len() == 0);
    } else {
        lemma_deleted_keys_of_filtered(cm, n - 1);
        let prev = cm.take(n - 1);
        assert(s.drop_last() =~= prev);
        assert(s.last() == cm[n - 1]);
        let fp = deleted_only(prev);
        let f = deleted_only(s);
        if cm[n - 1].1.deleted {
            assert(f == fp.push(cm[n - 1]));
            lemma_deleted_keys_take(f, fp.len() as int, fp.len() as int);
            assert(f.take(fp.len() as int) =~= fp);
            assert(deleted_keys(f, f.len() as int) == deleted_keys(f, fp.len() as int) + seq![cm[n - 1].0]);
        } else {
            assert(f == fp);
        }
    }
}

/// A suppressed diff keeps every deleted file, so the reverse lookup sees
/// the same deleted files as without the suppression.
pub proof fn law_suppression_keeps_deleted_files(cm: Seq<(Seq<char>, FileChangesV)>)
    ensures
        deleted_keys(deleted_only(cm), deleted_only(cm).len() as int) == deleted_keys(cm, cm.len() as int),
{
    lemma_deleted_keys_of_filtered(cm, cm.len() as int);
    assert(cm.take(cm.len() as int) =~= cm);
}

proof fn lemma_active_in_pair_complete(
    strict: bool,
    p: PairV,
    pi: int,
    lines: Option<LinesV>,
    source: Seq<char>,
    pats: Seq<PatternV>,
    k: int,
    ti: int,
)
    requires
        0 <= ti < k <= p.targets.len(),
        !ignored(strict, p.targets[ti], source, pats),
    ensures
        active_in_pair(strict, p, pi, lines, source, pats, k).contains((pi, ti, triggered(p, lines))),
    decreases k,
{
    let all = active_in_pair(strict, p, pi, lines, source, pats, k);
    let prev = active_in_pair(strict, p, pi, lines, source, pats, k - 1);
    let e = (pi, ti, triggered(p, lines));
    if ti < k - 1 {
        lemma_active_in_pair_complete(strict, p, pi, lines, source, pats, k - 1, ti);
        let j = choose|j: int| 0 <= j < prev.len() && prev[j] == e;
        assert(all[j] == prev[j]);
    } else {
        assert(all[prev.len() as int] == e);
    }
}

proof fn lemma_active_list_complete(
    strict: bool,
    ps: Seq<PairV>,
    lines: Option<LinesV>,
    source: Seq<char>,
    pats: Seq<PatternV>,
    n: int,
    pi: int,
    ti: int,
)
    requires
        0 <= pi < n <= ps.len(),
        0 <= ti < ps[pi].targets.len(),
        !ignored(strict, ps[pi].targets[ti], source, pats),
    ensures
        active_list(strict, ps, lines, source, pats, n).contains((pi, ti, triggered(ps[pi], lines))),
    decreases n,
{
    let all = active_list(strict, ps, lines, source, pats, n);
    let prev = active_list(strict, ps, lines, source, pats, n - 1);
    let e = (pi, ti, triggered(ps[pi], lines));
    if pi < n - 1 {
        lemma_active_list_complete(strict, ps, lines, source, pats, n - 1, pi, ti);
        let j = choose|j: int| 0 <= j < prev.len() && prev[j] == e;
        assert(all[j] == prev[j]);
    } else {
        let tail = active_in_pair(strict, ps[n - 1], n - 1, lines, source, pats, ps[n - 1].targets.len() as int);
        lemma_active_in_pair_complete(strict, ps[n - 1], n - 1, lines, source, pats, ps[n - 1].targets.len() as int, ti);
        let j = choose|j: int| 0 <= j < tail.len() && tail[j] == e;
        assert(all[prev.len() + j] == tail[j]);
    }
}

proof fn lemma_active_findings_contains(
    strict: bool,
    source: Seq<char>,
    ps: Seq<PairV>,
    active: Seq<(int, int, bool)>,
    bs: Seq<Result<bool, Seq<char>>>,
    ec: Seq<(Seq<char>, ExistsStatus)>,
    cm: Seq<(Seq<char>, FileChangesV)>,
    cache: Seq<(Seq<char>, ParsedFileV)>,
    k: int,
    d: DiagnosticV,
)
    requires
        0 <= k < active.len(),
        forall|b: Result<bool, Seq<char>>, e: Seq<(Seq<char>, ExistsStatus)>|
            #[trigger] active_finding(strict, source, ps, active[k], b, e, cm, cache).0 == Some(d),
    ensures
        active_findings(strict, source, ps, active, bs, ec, cm, cache).0.contains(d),
    decreases active.len(),
{
    let all = active_findings(strict, source, ps, active, bs, ec, cm, cache);
    let prev = active_findings(strict, source, ps, active.drop_last(), bs.drop_last(), ec, cm, cache);
    let last = active_finding(strict, source, ps, active.last(), bs.last(), prev.1, cm, cache);
    if k < active.len() - 1 {
        assert(active.drop_last()[k] == active[k]);
        lemma_active_findings_contains(strict, source, ps, active.drop_last(), bs.drop_last(), ec, cm, cache, k, d);
        let j = choose|j: int| 0 <= j < prev.0.len() && prev.0[j] == d;
        match last.0 {
            Some(e) => assert(all.0[j] == prev.0.push(e)[j]),
            None => assert(all.0[j] == prev.0[j]),
        }
    } else {
        assert(last.0 == Some(d));
        assert(all.0[prev.0.len() as int] == d);
    }
}

proof fn lemma_validation_findings_contains(
    strict: bool,
    files: Seq<Seq<char>>,
    pats: Seq<PatternV>,
    bss: Seq<Seq<Result<bool, Seq<char>>>>,
    ec: Seq<(Seq<char>, ExistsStatus)>,
    cm: Seq<(Seq<char>, FileChangesV)>,
    cache: Seq<(Seq<char>, ParsedFileV)>,
    i: int,
    d: DiagnosticV,
)
    requires
        0 <= i < files.len(),
        forall|bs: Seq<Result<bool, Seq<char>>>, e: Seq<(Seq<char>, ExistsStatus)>|
            #[trigger] file_findings(strict, files[i], pats, bs, e, cm, cache).0.contains(d),
    ensures
        validation_findings(strict, files, pats, bss, ec, cm, cache).0.contains(d),
    decreases files.len(),
{
    let prev = validation_findings(strict, files.drop_last(), pats, bss.drop_last(), ec, cm, cache);
    let last = file_findings(strict, files.last(), pats, bss.last(), prev.1, cm, cache);
    let all = validation_findings(strict, files, pats, bss, ec, cm, cache);
    assert(all.0 == prev.0 + last.0);
    if i < files.len() - 1 {
        assert(files.drop_last()[i] == files[i]);
        lemma_validation_findings_contains(strict, files.drop_last(), pats, bss.drop_last(), ec, cm, cache, i, d);
        let j = choose|j: int| 0 <= j < prev.0.len() && prev.0[j] == d;
        assert(all.0[j] == prev.0[j]);
    } else {
        assert(last.0.contains(d));
        let j = choose|j: int| 0 <= j < last.0.len() && last.0[j] == d;
        assert(all.0[prev.0.len() + j] == last.0[j]);
    }
}

/// The pair `pi` of a parsed file.
pub open spec fn pair_of_file(cache: Seq<(Seq<char>, ParsedFileV)>, file: Seq<char>, pi: int) -> PairV {
    pairs_of(lookup(cache, file)->0.directives)[pi]
}

/// A check reports every change the diff did not reflect: when a validated
/// file's pair has changed content, and one of its targets (not ignored)
/// names a file that was read and that the diff left untouched, the
/// findings hold the warning that the changes may need to be reflected in
/// that file, whatever else the backend answered.
pub proof fn law_unreflected_change_reported(
    o: Outcomes,
    cm: Seq<(Seq<char>, FileChangesV)>,
    pats: Seq<PatternV>,
    file: Seq<char>,
    pi: int,
    ti: int,
    path: Seq<char>,
)
    requires
        validate_scope(o.listed, cm).contains(file),
        lookup(checked_cache(o, cm), file) matches Some(pf) && 0 <= pi < pairs_of(pf.directives).len(),
        0 <= ti < pair_of_file(checked_cache(o, cm), file, pi).targets.len(),
        triggered(pair_of_file(checked_cache(o, cm), file, pi), lines_for(cm, checked_cache(o, cm), file)),
        !ignored(o.strict, pair_of_file(checked_cache(o, cm), file, pi).targets[ti], file, pats),
        target_plan(o.strict, file, pair_of_file(checked_cache(o, cm), file, pi).targets[ti]) == PlanV::Check(
            path,
            None,
        ),
        lookup(checked_cache(o, cm), path) is Some,
        lookup(cm, path) is None,
    ensures
        check_findings(o, cm, pats).contains(
            pair_diag(
                file,
                pair_of_file(checked_cache(o, cm), file, pi),
                pair_of_file(checked_cache(o, cm), file, pi).targets[ti],
                Severity::Warning,
                reflect_message(path),
            ),
        ),
{
    let cache = checked_cache(o, cm);
    let validate = validate_scope(o.listed, cm);
    let pf = lookup(cache, file)->0;
    let ps = pairs_of(pf.directives);
    let p = ps[pi];
    let t = p.targets[ti];
    let lines = lines_for(cm, cache, file);
    let act = active_list(o.strict, ps, lines, file, pats, ps.len() as int);
    let d = pair_diag(file, p, t, Severity::Warning, reflect_message(path));
    lemma_active_list_complete(o.strict, ps, lines, file, pats, ps.len() as int, pi, ti);
    let k = choose|k: int| 0 <= k < act.len() && act[k] == (pi, ti, triggered(p, lines));
    assert forall|b: Result<bool, Seq<char>>, e: Seq<(Seq<char>, ExistsStatus)>|
        #[trigger] active_finding(o.strict, file, ps, act[k], b, e, cm, cache).0 == Some(d) by {
        assert(plan_in_cache(target_plan(o.strict, file, t), cache));
    }
    assert forall|bs: Seq<Result<bool, Seq<char>>>, e: Seq<(Seq<char>, ExistsStatus)>|
        #[trigger] file_findings(o.strict, file, pats, bs, e, cm, cache).0.contains(d) by {
        lemma_active_findings_contains(o.strict, file, ps, act, bs, e, cm, cache, k, d);
    }
    let i = choose|i: int| 0 <= i < validate.len() && validate[i] == file;
    lemma_validation_findings_contains(o.strict, validate, pats, o.answers, no_answers(), cm, cache, i, d);
    let seeds = seed_scope(validate, cm);
    let se = seed_errors(o.strict, cm, cache, change_keys(cm), validate, seeds);
    let vf = validation_findings(o.strict, validate, pats, o.answers, no_answers(), cm, cache).0;
    let sp = stale_pass(o.strict, o.search, o.scan_reads, validate, pats, cm, cache);
    let j = choose|j: int| 0 <= j < vf.len() && vf[j] == d;
    assert(check_findings(o, cm, pats) == se + vf + sp);
    assert((se + vf + sp)[se.len() + j] == d);
}

proof fn lemma_status_lookup_push(s: Seq<(Seq<char>, ExistsStatus)>, k: Seq<char>, st: ExistsStatus)
    requires
        status_lookup(s, k) is None,
    ensures
        status_lookup(s.push((k, st)), k) == Some(st),
    decreases s.len(),
{
    if s.len() > 0 {
        assert(s.push((k, st)).drop_first() =~= s.drop_first().push((k, st)));
        lemma_status_lookup_push(s.drop_first(), k, st);
    }
}

/// A failed existence check is reported once: the first target naming a
/// file that is neither parsed nor answered for gets the error, and every
/// later target naming that file (from any source) is skipped, whatever the
/// backend would answer.
pub proof fn law_failed_existence_reported_once(
    strict: bool,
    source: Seq<char>,
    p: PairV,
    t: TargetV,
    source2: Seq<char>,
    p2: PairV,
    t2: TargetV,
    cache: Seq<(Seq<char>, ParsedFileV)>,
    ec: Seq<(Seq<char>, ExistsStatus)>,
    e: Seq<char>,
    b2: Result<bool, Seq<char>>,
)
    requires
        target_plan(strict, source, t) matches PlanV::Check(path, _) && lookup(cache, path) is None && status_lookup(
            ec,
            path,
        ) is None,
        target_plan(strict, source2, t2) matches PlanV::Check(path2, _) && path2 == target_plan(
            strict,
            source,
            t,
        )->Check_0,
    ensures
        settle(strict, source, p, t, cache, ec, Err(e)).0 == ResolutionV::Error(
            error_v(target_plan(strict, source, t)->Check_0, 1, "failed to check file existence: "@ + e),
        ),
        settle(strict, source2, p2, t2, cache, settle(strict, source, p, t, cache, ec, Err(e)).1, b2) == (
            ResolutionV::PriorError,
            settle(strict, source, p, t, cache, ec, Err(e)).1,
        ),
{
    let path = target_plan(strict, source, t)->Check_0;
    lemma_status_lookup_push(ec, path, ExistsStatus::PriorError);
}

proof fn lemma_stale_findings_contains(
    strict: bool,
    source: Seq<char>,
    ps: Seq<PairV>,
    active: Seq<(int, int, bool)>,
    deleted: Seq<Seq<char>>,
    sets: Seq<(Seq<char>, Set<Seq<char>>)>,
    k: int,
    d: DiagnosticV,
)
    requires
        0 <= k < active.len(),
        !active[k].2,
        0 <= active[k].0 < ps.len(),
        0 <= active[k].1 < ps[active[k].0].targets.len(),
        stale_finding(strict, source, ps[active[k].0], ps[active[k].0].targets[active[k].1], deleted, sets) == Some(d),
    ensures
        stale_findings(strict, source, ps, active, deleted, sets).contains(d),
    decreases active.len(),
{
    let all = stale_findings(strict, source, ps, active, deleted, sets);
    let prev = stale_findings(strict, source, ps, active.drop_last(), deleted, sets);
    if k < active.len() - 1 {
        assert(active.drop_last()[k] == active[k]);
        lemma_stale_findings_contains(strict, source, ps, active.drop_last(), deleted, sets, k, d);
        let j = choose|j: int| 0 <= j < prev.len() && prev[j] == d;
        assert(all[j] == prev[j]);
    } else {
        assert(all[prev.len() as int] == d);
    }
}

proof fn lemma_stale_scan_contains(
    strict: bool,
    cands: Seq<Seq<char>>,
    reads: Seq<ReadV>,
    validate: Seq<Seq<char>>,
    deleted: Seq<Seq<char>>,
    sets: Seq<(Seq<char>, Set<Seq<char>>)>,
    pats: Seq<PatternV>,
    cm: Seq<(Seq<char>, FileChangesV)>,
    cache: Seq<(Seq<char>, ParsedFileV)>,
    k: int,
    d: DiagnosticV,
)
    requires
        0 <= k < cands.len(),
        candidate_findings(strict, cands[k], reads[k], validate, deleted, sets, pats, cm, cache).contains(d),
    ensures
        stale_scan(strict, cands, reads, validate, deleted, sets, pats, cm, cache).contains(d),
    decreases cands.len(),
{
    let all = stale_scan(strict, cands, reads, validate, deleted, sets, pats, cm, cache);
    let prev = stale_scan(strict, cands.drop_last(), reads, validate, deleted, sets, pats, cm, cache);
    let last = candidate_findings(strict, cands.last(), reads[cands.len() - 1], validate, deleted, sets, pats, cm, cache);
    assert(all == prev + last);
    if k < cands.len() - 1 {
        assert(cands.drop_last()[k] == cands[k]);
        lemma_stale_scan_contains(strict, cands.drop_last(), reads, validate, deleted, sets, pats, cm, cache, k, d);
        let j = choose|j: int| 0 <= j < prev.len() && prev[j] == d;
        assert(all[j] == prev[j]);
    } else {
        let j = choose|j: int| 0 <= j < last.len() && last[j] == d;
        assert(all[prev.len() + j] == last[j]);
    }
}

/// The pairs the reverse lookup finds in its `k`-th candidate.
pub open spec fn scanned_pairs(o: Outcomes, cm: Seq<(Seq<char>, FileChangesV)>, k: int) -> Option<Seq<PairV>> {
    candidate_pairs(
        search_candidates(o.search)[k],
        o.scan_reads[k],
        deleted_keys(cm, cm.len() as int),
        label_sets_of(cm, checked_cache(o, cm), cm.len() as int),
        checked_cache(o, cm),
    )
}

/// The reverse lookup reports each surviving reference to a deleted file:
/// when a candidate of the search (itself neither deleted nor validated
/// anyway) has a pair whose content did not change with a target (not
/// ignored) naming a file the diff deleted, the findings hold the warning
/// that the target file is not found.
pub proof fn law_deleted_reference_reported(
    o: Outcomes,
    cm: Seq<(Seq<char>, FileChangesV)>,
    pats: Seq<PatternV>,
    k: int,
    pi: int,
    ti: int,
    gone: Seq<char>,
)
    requires
        deleted_keys(cm, cm.len() as int).contains(gone),
        0 <= k < search_candidates(o.search).len(),
        !deleted_keys(cm, cm.len() as int).contains(search_candidates(o.search)[k]),
        !validate_scope(o.listed, cm).contains(search_candidates(o.search)[k]),
        scanned_pairs(o, cm, k) matches Some(ps) && 0 <= pi < ps.len() && 0 <= ti < ps[pi].targets.len(),
        !triggered(
            scanned_pairs(o, cm, k)->0[pi],
            lines_for(cm, checked_cache(o, cm), search_candidates(o.search)[k]),
        ),
        !ignored(o.strict, scanned_pairs(o, cm, k)->0[pi].targets[ti], search_candidates(o.search)[k], pats),
        scanned_pairs(o, cm, k)->0[pi].targets[ti].file matches Some(f) && target_path(
            o.strict,
            f,
            search_candidates(o.search)[k],
        ) == Some(gone),
    ensures
        check_findings(o, cm, pats).contains(
            pair_diag(
                search_candidates(o.search)[k],
                scanned_pairs(o, cm, k)->0[pi],
                scanned_pairs(o, cm, k)->0[pi].targets[ti],
                Severity::Warning,
                missing_target_message(gone, scanned_pairs(o, cm, k)->0[pi].targets[ti].label),
            ),
        ),
{
    let cache = checked_cache(o, cm);
    let validate = validate_scope(o.listed, cm);
    let deleted = deleted_keys(cm, cm.len() as int);
    let sets = label_sets_of(cm, cache, cm.len() as int);
    let cands = search_candidates(o.search);
    let c = cands[k];
    let ps = scanned_pairs(o, cm, k)->0;
    let p = ps[pi];
    let t = p.targets[ti];
    let lines = lines_for(cm, cache, c);
    let d = pair_diag(c, p, t, Severity::Warning, missing_target_message(gone, t.label));
    let act = active_list(o.strict, ps, lines, c, pats, ps.len() as int);
    lemma_active_list_complete(o.strict, ps, lines, c, pats, ps.len() as int, pi, ti);
    let j = choose|j: int| 0 <= j < act.len() && act[j] == (pi, ti, triggered(p, lines));
    law_deleted_target_flagged(o.strict, c, p, t, deleted, sets);
    lemma_stale_findings_contains(o.strict, c, ps, act, deleted, sets, j, d);
    assert(candidate_findings(o.strict, c, o.scan_reads[k], validate, deleted, sets, pats, cm, cache).contains(d));
    lemma_stale_scan_contains(o.strict, cands, o.scan_reads, validate, deleted, sets, pats, cm, cache, k, d);
    assert(deleted.len() > 0);
    let seeds = seed_scope(validate, cm);
    let se = seed_errors(o.strict, cm, cache, change_keys(cm), validate, seeds);
    let vf = validation_findings(o.strict, validate, pats, o.answers, no_answers(), cm, cache).0;
    let sp = stale_pass(o.strict, o.search, o.scan_reads, validate, pats, cm, cache);
    let m = choose|m: int| 0 <= m < sp.len() && sp[m] == d;
    assert(check_findings(o, cm, pats) == se + vf + sp);
    assert((se + vf + sp)[se.len() + vf.len() + m] == d);
}

/// The same, for what `resolve_target` promises: with a backend whose only
/// answer on the file's existence is the failure `e`, the first target
/// naming the file (neither parsed nor answered for) is settled as that
/// error, and every later target naming the file, settled with the
/// remembered answers it leaves, is skipped without asking the backend.
pub proof fn law_failing_backend_reported_once<V: VcsProvider>(
    vcs: &V,
    strict: bool,
    source: Seq<char>,
    p: PairV,
    t: TargetV,
    source2: Seq<char>,
    p2: PairV,
    t2: TargetV,
    cache: Seq<(Seq<char>, ParsedFileV)>,
    ec: Seq<(Seq<char>, ExistsStatus)>,
    e: Seq<char>,
    b: Result<bool, Seq<char>>,
    b2: Result<bool, Seq<char>>,
)
    requires
        target_plan(strict, source, t) matches PlanV::Check(path, _) && lookup(cache, path) is None && status_lookup(
            ec,
            path,
        ) is None,
        forall|a: Result<bool, Seq<char>>|
            #[trigger] vcs.exists_answers(target_plan(strict, source, t)->Check_0, a) ==> a == Err::<bool, Seq<char>>(
                e,
            ),
        settle_answered(vcs, strict, source, t, cache, ec, b),
        target_plan(strict, source2, t2) matches PlanV::Check(path2, _) && path2 == target_plan(
            strict,
            source,
            t,
        )->Check_0,
    ensures
        settle(strict, source, p, t, cache, ec, b).0 == ResolutionV::Error(
            error_v(target_plan(strict, source, t)->Check_0, 1, "failed to check file existence: "@ + e),
        ),
        settle_asks(strict, source2, t2, cache, settle(strict, source, p, t, cache, ec, b).1) is None,
        settle(strict, source2, p2, t2, cache, settle(strict, source, p, t, cache, ec, b).1, b2) == (
            ResolutionV::PriorError,
            settle(strict, source, p, t, cache, ec, b).1,
        ),
{
    let path = target_plan(strict, source, t)->Check_0;
    assert(vcs.exists_answers(path, b));
    assert(b == Err::<bool, Seq<char>>(e));
    law_failed_existence_reported_once(strict, source, p, t, source2, p2, t2, cache, ec, e, b2);
    lemma_status_lookup_push(ec, path, ExistsStatus::PriorError);
}

/// Every target the checks visit is a real target of its pair, is not
/// ignored, and carries whether its pair was triggered.
pub proof fn law_active_targets_not_ignored(
    strict: bool,
    ps: Seq<PairV>,
    lines: Option<LinesV>,
    source: Seq<char>,
    pats: Seq<PatternV>,
    n: int,
)
    requires
        0 <= n <= ps.len(),
    ensures
        forall|k: int|
            0 <= k < active_list(strict, ps, lines, source, pats, n).len() ==> {
                let (pi, ti, trig) = #[trigger] active_list(strict, ps, lines, source, pats, n)[k];
                &&& 0 <= pi < n
                &&& 0 <= ti < ps[pi].targets.len()
                &&& !ignored(strict, ps[pi].targets[ti], source, pats)
                &&& trig == triggered(ps[pi], lines)
            },
    decreases n,
{
    if n > 0 {
        law_active_targets_not_ignored(strict, ps, lines, source, pats, n - 1);
        lemma_active_in_pair(strict, ps[n - 1], n - 1, lines, source, pats, ps[n - 1].targets.len() as int);
        let prev = active_list(strict, ps, lines, source, pats, n - 1);
        let tail = active_in_pair(strict, ps[n - 1], n - 1, lines, source, pats, ps[n - 1].targets.len() as int);
        let all = active_list(strict, ps, lines, source, pats, n);
        assert forall|k: int| 0 <= k < all.len() implies {
            let (pi, ti, trig) = #[trigger] all[k];
            &&& 0 <= pi < n
            &&& 0 <= ti < ps[pi].targets.len()
            &&& !ignored(strict, ps[pi].targets[ti], source, pats)
            &&& trig == triggered(ps[pi], lines)
        } by {
            if k < prev.len() {
                assert(all[k] == prev[k]);
            } else {
                assert(all[k] == tail[k - prev.len()]);
            }
        }
    }
}

proof fn lemma_active_in_pair(
    strict: bool,
    p: PairV,
    pi: int,
    lines: Option<LinesV>,
    source: Seq<char>,
    pats: Seq<PatternV>,
    k: int,
)
    requires
        0 <= k <= p.targets.len(),
    ensures
        forall|j: int|
            0 <= j < active_in_pair(strict, p, pi, lines, source, pats, k).len() ==> {
                let (a, ti, trig) = #[trigger] active_in_pair(strict, p, pi, lines, source, pats, k)[j];
                &&& a == pi
                &&& 0 <= ti < k
                &&& !ignored(strict, p.targets[ti], source, pats)
                &&& trig == triggered(p, lines)
            },
    decreases k,
{
    if k > 0 {
        lemma_active_in_pair(strict, p, pi, lines, source, pats, k - 1);
        let prev = active_in_pair(strict, p, pi, lines, source, pats, k - 1);
        let all = active_in_pair(strict, p, pi, lines, source, pats, k);
        assert forall|j: int| 0 <= j < all.len() implies {
            let (a, ti, trig) = #[trigger] all[j];
            &&& a == pi
            &&& 0 <= ti < k
            &&& !ignored(strict, p.targets[ti], source, pats)
            &&& trig == triggered(p, lines)
        } by {
            if j < prev.len() {
                assert(all[j] == prev[j]);
            }
        }
    }
}

/// A strict-mode target that names its own source file is only warned
/// about, never checked; a same-file `:label` target is checked in the
/// source file itself.
pub proof fn law_same_file_targets(strict: bool, source: Seq<char>, t: TargetV)
    ensures
        (t.file matches Some(f) && target_path(strict, f, source) == Some(source) && strict) ==> target_plan(
            strict,
            source,
            t,
        ) is SameFile,
        (t.file is None && t.label is Some) ==> target_plan(strict, source, t) == PlanV::Check(source, t.label),
{
}


/// A target is skipped as soon as any one of the ignore patterns matches its
/// raw text or its resolved path, wherever that pattern stands in the list;
/// when none matches either, the target is checked. With two lists of
/// patterns given one after the other, a target is skipped exactly when the
/// first list or the second would skip it on its own.
pub proof fn law_any_ignore_pattern_skips(
    strict: bool,
    t: TargetV,
    source: Seq<char>,
    a: Seq<PatternV>,
    b: Seq<PatternV>,
)
    ensures
        forall|i: int|
            0 <= i < a.len() && pattern_hits(#[trigger] a[i], t.raw) ==> ignored(strict, t, source, a),
        forall|i: int|
            0 <= i < a.len() && (t.file matches Some(f) && (target_path(strict, f, source) matches Some(
                p,
            ) && pattern_hits(#[trigger] a[i], p))) ==> ignored(strict, t, source, a),
        (forall|i: int|
            0 <= i < a.len() ==> !pattern_hits(#[trigger] a[i], t.raw) && !(t.file matches Some(f) && (
            target_path(strict, f, source) matches Some(p) && pattern_hits(a[i], p))))
            ==> !ignored(strict, t, source, a),
        ignored(strict, t, source, a + b) == (ignored(strict, t, source, a) || ignored(
            strict,
            t,
            source,
            b,
        )),
        ignored(strict, t, source, Seq::<PatternV>::empty()) == false,
{
    let ab = a + b;
    if ignored(strict, t, source, ab) {
        let i = choose|i: int|
            0 <= i < ab.len() && (pattern_hits(#[trigger] ab[i], t.raw) || (t.file matches Some(f) && (
            target_path(strict, f, source) matches Some(p) && pattern_hits(ab[i], p))));
        if i < a.len() {
            assert(ab[i] == a[i]);
        } else {
            assert(ab[i] == b[i - a.len()]);
        }
    }
    if ignored(strict, t, source, a) {
        let i = choose|i: int|
            0 <= i < a.len() && (pattern_hits(#[trigger] a[i], t.raw) || (t.file matches Some(f) && (
            target_path(strict, f, source) matches Some(p) && pattern_hits(a[i], p))));
        assert(ab[i] == a[i]);
    }
    if ignored(strict, t, source, b) {
        let i = choose|i: int|
            0 <= i < b.len() && (pattern_hits(#[trigger] b[i], t.raw) || (t.file matches Some(f) && (
            target_path(strict, f, source) matches Some(p) && pattern_hits(b[i], p))));
        assert(ab[a.len() + i] == b[i]);
    }
}

} // verus!
