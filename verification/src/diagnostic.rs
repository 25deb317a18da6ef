//! Findings: severity, location, message and the target they concern, and
//! their report order.
use vstd::prelude::*;
use crate::directive::{opt_view, Target};
use crate::ext::string_of;
use crate::msg::{dec, push_decimal};
use crate::text::chars_of;

verus! {

/// Errors sort before warnings.
#[derive(Debug, Clone, Copy, PartialEq, Eq, Structural)]
pub enum Severity {
    Error,
    Warning,
}

pub open spec fn severity_rank(s: Severity) -> int {
    match s {
        Severity::Error => 0,
        Severity::Warning => 1,
    }
}

/// The `ThenChange` target a finding is about.
#[derive(Debug)]
pub struct TargetInfo {
    pub label: Option<String>,
    pub raw: String,
    pub then_change_line: usize,
}

pub struct TargetInfoV {
    pub label: Option<Seq<char>>,
    pub raw: Seq<char>,
    pub then_change_line: usize,
}

impl View for TargetInfo {
    type V = TargetInfoV;

    open spec fn view(&self) -> TargetInfoV {
        TargetInfoV { label: opt_view(self.label), raw: self.raw@, then_change_line: self.then_change_line }
    }
}

/// One finding, at a 1-based line of a root-relative file.
#[derive(Debug)]
pub struct Diagnostic {
    pub file: String,
    pub line: usize,
    pub severity: Severity,
    pub message: String,
    pub target: Option<TargetInfo>,
}

pub struct DiagnosticV {
    pub file: Seq<char>,
    pub line: usize,
    pub severity: Severity,
    pub message: Seq<char>,
    pub target: Option<TargetInfoV>,
}

pub open spec fn target_info_view(t: Option<TargetInfo>) -> Option<TargetInfoV> {
    match t {
        Some(i) => Some(i@),
        None => None,
    }
}

impl View for Diagnostic {
    type V = DiagnosticV;

    open spec fn view(&self) -> DiagnosticV {
        DiagnosticV {
            file: self.file@,
            line: self.line,
            severity: self.severity,
            message: self.message@,
            target: target_info_view(self.target),
        }
    }
}

pub open spec fn diags_view(ds: Seq<Diagnostic>) -> Seq<DiagnosticV> {
    ds.map_values(|d: Diagnostic| d@)
}

/// `file:line`.
pub open spec fn location_of(file: Seq<char>, line: usize) -> Seq<char> {
    file + seq![':'] + dec(line as nat)
}

impl Diagnostic {
    /// `file:line` of the finding.
    pub fn location(&self) -> (r: String)
        ensures
            r@ == location_of(self.file@, self.line),
    {
        let mut v = chars_of(self.file.as_str());
        v.push(':');
        push_decimal(&mut v, self.line);
        string_of(v.as_slice())
    }
}

/// An error finding without a target.
pub open spec fn error_v(file: Seq<char>, line: usize, message: Seq<char>) -> DiagnosticV {
    DiagnosticV { file, line, severity: Severity::Error, message, target: None }
}

pub fn mk_error(file: &str, line: usize, message: String) -> (r: Diagnostic)
    ensures
        r@ == error_v(file@, line, message@),
{
    Diagnostic {
        file: file.to_owned(),
        line,
        severity: Severity::Error,
        message,
        target: None,
    }
}

/// A finding on an `IfChange` / `ThenChange` pair about one of its targets:
/// reported at the `IfChange` line.
pub open spec fn target_diag_v(
    source: Seq<char>,
    if_line: usize,
    if_label: Option<Seq<char>>,
    then_line: usize,
    raw: Seq<char>,
    severity: Severity,
    message: Seq<char>,
) -> DiagnosticV {
    DiagnosticV {
        file: source,
        line: if_line,
        severity,
        message,
        target: Some(TargetInfoV { label: if_label, raw, then_change_line: then_line }),
    }
}

pub fn copy_opt_string(o: &Option<String>) -> (r: Option<String>)
    ensures
        opt_view(r) == opt_view(*o),
{
    match o {
        Some(s) => Some(s.clone()),
        None => None,
    }
}

pub fn target_diagnostic(
    source: &str,
    if_line: usize,
    if_label: &Option<String>,
    then_line: usize,
    target: &Target,
    severity: Severity,
    message: String,
) -> (r: Diagnostic)
    ensures
        r@ == target_diag_v(source@, if_line, opt_view(*if_label), then_line, target.raw@, severity, message@),
{
    Diagnostic {
        file: source.to_owned(),
        line: if_line,
        severity,
        message,
        target: Some(TargetInfo {
            label: copy_opt_string(if_label),
            raw: target.raw.clone(),
            then_change_line: then_line,
        }),
    }
}

// ─── Report order ───

/// Lexicographic order on character sequences (by code point, as `str`'s
/// byte order does for UTF-8).
pub open spec fn text_lt(a: Seq<char>, b: Seq<char>) -> bool
    decreases a.len(),
{
    if b.len() == 0 {
        false
    } else if a.len() == 0 {
        true
    } else if a[0] != b[0] {
        (a[0] as int) < (b[0] as int)
    } else {
        text_lt(a.drop_first(), b.drop_first())
    }
}

/// Whether `a` sorts strictly before `b`: by severity, file, line, then message.
pub open spec fn diag_lt(a: DiagnosticV, b: DiagnosticV) -> bool {
    if severity_rank(a.severity) != severity_rank(b.severity) {
        severity_rank(a.severity) < severity_rank(b.severity)
    } else if a.file != b.file {
        text_lt(a.file, b.file)
    } else if a.line != b.line {
        a.line < b.line
    } else {
        text_lt(a.message, b.message)
    }
}

pub open spec fn report_sorted(s: Seq<DiagnosticV>) -> bool {
    forall|i: int, j: int| 0 <= i < j < s.len() ==> !diag_lt(s[j], s[i])
}

pub proof fn lemma_text_lt_total(a: Seq<char>, b: Seq<char>)
    ensures
        a != b ==> (text_lt(a, b) || text_lt(b, a)),
        !(text_lt(a, b) && text_lt(b, a)),
        !text_lt(a, a),
    decreases a.len(),
{
    if a.len() > 0 && b.len() > 0 {
        lemma_text_lt_total(a.drop_first(), b.drop_first());
        if a[0] == b[0] && a != b {
            assert(a.drop_first() != b.drop_first()) by {
                if a.drop_first() == b.drop_first() {
                    assert(a =~= seq![a[0]] + a.drop_first());
                    assert(b =~= seq![b[0]] + b.drop_first());
                }
            }
        }
    } else if a.len() == 0 && b.len() == 0 {
        assert(a =~= b);
    } else if a.len() > 0 {
        lemma_text_lt_total(a.drop_first(), a.drop_first());
    }
}

pub proof fn lemma_text_lt_trans(a: Seq<char>, b: Seq<char>, c: Seq<char>)
    requires
        text_lt(a, b),
        text_lt(b, c),
    ensures
        text_lt(a, c),
    decreases a.len(),
{
    if a.len() > 0 && b.len() > 0 && c.len() > 0 && a[0] == b[0] && b[0] == c[0] {
        lemma_text_lt_trans(a.drop_first(), b.drop_first(), c.drop_first());
    }
}

pub proof fn lemma_diag_lt_props(a: DiagnosticV, b: DiagnosticV, c: DiagnosticV)
    ensures
        !(diag_lt(a, b) && diag_lt(b, a)),
        diag_lt(a, b) && diag_lt(b, c) ==> diag_lt(a, c),
        !diag_lt(a, b) && !diag_lt(b, c) ==> !diag_lt(a, c),
{
    lemma_text_lt_total(a.file, b.file);
    lemma_text_lt_total(b.file, c.file);
    lemma_text_lt_total(a.file, c.file);
    lemma_text_lt_total(a.message, b.message);
    lemma_text_lt_total(b.message, c.message);
    lemma_text_lt_total(a.message, c.message);
    if text_lt(a.file, b.file) && text_lt(b.file, c.file) {
        lemma_text_lt_trans(a.file, b.file, c.file);
    }
    if text_lt(c.file, b.file) && text_lt(b.file, a.file) {
        lemma_text_lt_trans(c.file, b.file, a.file);
    }
    if text_lt(a.message, b.message) && text_lt(b.message, c.message) {
        lemma_text_lt_trans(a.message, b.message, c.message);
    }
    if text_lt(c.message, b.message) && text_lt(b.message, a.message) {
        lemma_text_lt_trans(c.message, b.message, a.message);
    }
}

pub(crate) fn chars_lt(a: &[char], b: &[char]) -> (r: bool)
    ensures
        r == text_lt(a@, b@),
{
    let mut i: usize = 0;
    assert(a@.subrange(0, a@.len() as int) =~= a@);
    assert(b@.subrange(0, b@.len() as int) =~= b@);
    while i < a.len() && i < b.len()
        invariant
            i <= a@.len(),
            i <= b@.len(),
            a@.subrange(0, i as int) == b@.subrange(0, i as int),
            text_lt(a@, b@) == text_lt(a@.subrange(i as int, a@.len() as int), b@.subrange(i as int, b@.len() as int)),
        decreases a.len() - i,
    {
        if a[i] != b[i] {
            proof {
                let sa = a@.subrange(i as int, a@.len() as int);
                let sb = b@.subrange(i as int, b@.len() as int);
                assert(sa[0] == a@[i as int] && sb[0] == b@[i as int]);
            }
            return a[i] < b[i];
        }
        proof {
            let sa = a@.subrange(i as int, a@.len() as int);
            let sb = b@.subrange(i as int, b@.len() as int);
            assert(sa.drop_first() =~= a@.subrange(i + 1, a@.len() as int));
            assert(sb.drop_first() =~= b@.subrange(i + 1, b@.len() as int));
            assert(a@.subrange(0, i + 1) =~= a@.subrange(0, i as int).push(a@[i as int]));
            assert(b@.subrange(0, i + 1) =~= b@.subrange(0, i as int).push(b@[i as int]));
        }
        i = i + 1;
    }
    i < b.len()
}

/// Whether `a` sorts strictly before `b` in report order.
pub fn diagnostic_lt(a: &Diagnostic, b: &Diagnostic) -> (r: bool)
    ensures
        r == diag_lt(a@, b@),
{
    let ra: u8 = match a.severity {
        Severity::Error => 0,
        Severity::Warning => 1,
    };
    let rb: u8 = match b.severity {
        Severity::Error => 0,
        Severity::Warning => 1,
    };
    if ra != rb {
        return ra < rb;
    }
    if a.file != b.file {
        let fa = chars_of(a.file.as_str());
        let fb = chars_of(b.file.as_str());
        return chars_lt(fa.as_slice(), fb.as_slice());
    }
    if a.line != b.line {
        return a.line < b.line;
    }
    let ma = chars_of(a.message.as_str());
    let mb = chars_of(b.message.as_str());
    chars_lt(ma.as_slice(), mb.as_slice())
}

/// Puts the findings in report order: by severity (errors first), file,
/// line, then message; findings that tie keep their relative order.
pub fn sort_result(result: &mut Vec<Diagnostic>)
    ensures
        report_sorted(diags_view(final(result)@)),
        diags_view(final(result)@).to_multiset() == diags_view(old(result)@).to_multiset(),
{
    let ghost orig = diags_view(result@);
    let mut input: Vec<Diagnostic> = Vec::new();
    std::mem::swap(&mut input, result);
    let mut out: Vec<Diagnostic> = Vec::new();
    let mut rest = input;
    let ghost total = orig;
    proof {
        broadcast use vstd::multiset::group_multiset_axioms;
        assert(diags_view(out@).to_multiset() =~= vstd::multiset::Multiset::<DiagnosticV>::empty()) by {
            broadcast use vstd::seq_lib::group_to_multiset_ensures;
        }
        assert(diags_view(out@).to_multiset().add(diags_view(rest@).to_multiset()) =~= total.to_multiset());
    }
    while rest.len() > 0
        invariant
            report_sorted(diags_view(out@)),
            diags_view(out@).to_multiset().add(diags_view(rest@).to_multiset()) == total.to_multiset(),
        decreases rest.len(),
    {
        let ghost rest0 = diags_view(rest@);
        let ghost out0 = diags_view(out@);
        let d = rest.remove(0);
        proof {
            broadcast use vstd::seq_lib::group_to_multiset_ensures;
            assert(diags_view(rest@) =~= rest0.remove(0));
            assert(rest0[0] == d@);
            assert(diags_view(rest@).to_multiset() =~= rest0.to_multiset().remove(d@));
        }
        // Insert after every finding that does not sort after `d`.
        let mut pos: usize = out.len();
        while pos > 0 && diagnostic_lt(&d, &out[pos - 1])
            invariant
                pos <= out@.len(),
                out0 == diags_view(out@),
                forall|k: int| pos <= k < out@.len() ==> diag_lt(d@, #[trigger] out0[k]),
            decreases pos,
        {
            pos = pos - 1;
        }
        proof {
            assert forall|k: int| 0 <= k < pos implies !diag_lt(d@, #[trigger] out0[k]) by {
                if pos > 0 {
                    assert(!diag_lt(d@, out0[pos - 1]));
                    if k < pos - 1 {
                        assert(!diag_lt(out0[pos - 1], out0[k]));
                        lemma_diag_lt_props(d@, out0[pos - 1], out0[k]);
                        lemma_diag_lt_props(out0[k], out0[pos - 1], d@);
                    }
                }
            }
        }
        out.insert(pos, d);
        proof {
            let n = diags_view(out@);
            assert(n =~= out0.insert(pos as int, d@));
            out0.insert_ensures(pos as int, d@);
            assert forall|i: int, j: int| 0 <= i < j < n.len() implies !diag_lt(n[j], n[i]) by {
                if j < pos {
                    assert(n[i] == out0[i] && n[j] == out0[j]);
                } else if j == pos {
                    assert(n[i] == out0[i]);
                } else if i < pos {
                    assert(n[i] == out0[i] && n[j] == out0[j - 1]);
                } else if i == pos {
                    assert(n[j] == out0[j - 1]);
                    lemma_diag_lt_props(out0[j - 1], d@, out0[j - 1]);
                } else {
                    assert(n[i] == out0[i - 1] && n[j] == out0[j - 1]);
                }
            }
            broadcast use vstd::seq_lib::group_to_multiset_ensures;
            broadcast use vstd::multiset::group_multiset_axioms;
            let removed = n.remove(pos as int);
            assert(removed =~= out0);
            assert(n[pos as int] == d@);
            assert(n.to_multiset().remove(d@) =~= out0.to_multiset());
            assert(n.contains(d@));
            assert(n.to_multiset().count(d@) > 0);
            assert(n.to_multiset() =~= out0.to_multiset().insert(d@));
            assert(rest0.contains(d@));
            assert(rest0.to_multiset().count(d@) > 0);
            assert(rest0.to_multiset() =~= diags_view(rest@).to_multiset().insert(d@));
            assert(n.to_multiset().add(diags_view(rest@).to_multiset()) =~= out0.to_multiset().add(rest0.to_multiset()));
        }
    }
    proof {
        broadcast use vstd::seq_lib::group_to_multiset_ensures;
        broadcast use vstd::multiset::group_multiset_axioms;
        assert(diags_view(rest@) =~= Seq::<DiagnosticV>::empty());
        assert(diags_view(rest@).to_multiset() =~= vstd::multiset::Multiset::<DiagnosticV>::empty());
    }
    *result = out;
}

} // verus!
