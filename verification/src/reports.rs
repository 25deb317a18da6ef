//! Rendering findings as text, one line each.
use vstd::prelude::*;
use crate::diagnostic::{
    diag_lt, diags_view, lemma_diag_lt_props, lemma_text_lt_total, location_of, report_sorted,
    severity_rank, Diagnostic, DiagnosticV, Severity,
};
use crate::ext::string_of;
use crate::msg::{dec, push_decimal, push_str};

verus! {

/// Output formats.
#[derive(Debug, Clone, Copy, PartialEq, Eq, Structural)]
#[non_exhaustive]
pub enum Format {
    Pretty,
    Json,
    Plain,
}

/// `file:line: <severity>: message`, the severity in bold red or yellow
/// when `color` is set.
pub open spec fn pretty_line(d: DiagnosticV, color: bool) -> Seq<char> {
    let (on, label) = match d.severity {
        Severity::Error => (if color { "\x1b[1;31m"@ } else { Seq::empty() }, "error"@),
        Severity::Warning => (if color { "\x1b[1;33m"@ } else { Seq::empty() }, "warning"@),
    };
    let off = if color { "\x1b[0m"@ } else { Seq::empty() };
    location_of(d.file, d.line) + ": "@ + on + label + off + ": "@ + d.message + seq!['\n']
}

/// `file:line: message`, followed by the `ThenChange` target and its line
/// when the finding has one.
pub open spec fn plain_line(d: DiagnosticV) -> Seq<char> {
    match d.target {
        Some(t) => location_of(d.file, d.line) + ": "@ + d.message + " [ThenChange('"@ + t.raw + "') at line "@ + dec(
            t.then_change_line as nat,
        ) + "]"@ + seq!['\n'],
        None => location_of(d.file, d.line) + ": "@ + d.message + seq!['\n'],
    }
}

pub open spec fn pretty_text(ds: Seq<DiagnosticV>, color: bool) -> Seq<char>
    decreases ds.len(),
{
    if ds.len() == 0 {
        Seq::empty()
    } else {
        pretty_text(ds.drop_last(), color) + pretty_line(ds.last(), color)
    }
}

pub open spec fn plain_text(ds: Seq<DiagnosticV>) -> Seq<char>
    decreases ds.len(),
{
    if ds.len() == 0 {
        Seq::empty()
    } else {
        plain_text(ds.drop_last()) + plain_line(ds.last())
    }
}

fn push_location(v: &mut Vec<char>, d: &Diagnostic)
    ensures
        final(v)@ == old(v)@ + location_of(d.file@, d.line),
{
    let ghost v0 = v@;
    push_str(v, d.file.as_str());
    v.push(':');
    push_decimal(v, d.line);
    assert(v@ =~= v0 + location_of(d.file@, d.line));
}

pub fn format_pretty(result: &[Diagnostic], color: bool) -> (r: String)
    ensures
        r@ == pretty_text(diags_view(result@), color),
{
    let ghost dv = diags_view(result@);
    let mut out: Vec<char> = Vec::new();
    let mut i: usize = 0;
    while i < result.len()
        invariant
            i <= result@.len(),
            dv == diags_view(result@),
            out@ == pretty_text(dv.subrange(0, i as int), color),
        decreases result.len() - i,
    {
        let d = &result[i];
        let ghost o0 = out@;
        push_location(&mut out, d);
        push_str(&mut out, ": ");
        match d.severity {
            Severity::Error => {
                if color {
                    push_str(&mut out, "\x1b[1;31m");
                }
                push_str(&mut out, "error");
            },
            Severity::Warning => {
                if color {
                    push_str(&mut out, "\x1b[1;33m");
                }
                push_str(&mut out, "warning");
            },
        }
        if color {
            push_str(&mut out, "\x1b[0m");
        }
        push_str(&mut out, ": ");
        push_str(&mut out, d.message.as_str());
        out.push('\n');
        proof {
            let pre = dv.subrange(0, i + 1);
            assert(pre.drop_last() =~= dv.subrange(0, i as int));
            assert(pre.last() == d@);
            assert(out@ =~= o0 + pretty_line(d@, color));
        }
        i = i + 1;
    }
    assert(dv.subrange(0, dv.len() as int) =~= dv);
    string_of(out.as_slice())
}

pub fn format_plain(result: &[Diagnostic]) -> (r: String)
    ensures
        r@ == plain_text(diags_view(result@)),
{
    let ghost dv = diags_view(result@);
    let mut out: Vec<char> = Vec::new();
    let mut i: usize = 0;
    while i < result.len()
        invariant
            i <= result@.len(),
            dv == diags_view(result@),
            out@ == plain_text(dv.subrange(0, i as int)),
        decreases result.len() - i,
    {
        let d = &result[i];
        let ghost o0 = out@;
        push_location(&mut out, d);
        push_str(&mut out, ": ");
        push_str(&mut out, d.message.as_str());
        if let Some(t) = &d.target {
            push_str(&mut out, " [ThenChange('");
            push_str(&mut out, t.raw.as_str());
            push_str(&mut out, "') at line ");
            push_decimal(&mut out, t.then_change_line);
            push_str(&mut out, "]");
        }
        out.push('\n');
        proof {
            let pre = dv.subrange(0, i + 1);
            assert(pre.drop_last() =~= dv.subrange(0, i as int));
            assert(pre.last() == d@);
            assert(out@ =~= o0 + plain_line(d@));
        }
        i = i + 1;
    }
    assert(dv.subrange(0, dv.len() as int) =~= dv);
    string_of(out.as_slice())
}

/// The report text: empty when there are no findings. JSON is produced by
/// the program around the library (`None` here).
pub fn format(result: &[Diagnostic], fmt: Format, color: bool) -> (r: Option<String>)
    ensures
        result@.len() == 0 ==> (r matches Some(s) && s@.len() == 0),
        result@.len() > 0 ==> (match fmt {
            Format::Pretty => r matches Some(s) && s@ == pretty_text(diags_view(result@), color),
            Format::Plain => r matches Some(s) && s@ == plain_text(diags_view(result@)),
            Format::Json => r is None,
        }),
{
    if result.len() == 0 {
        return Some(String::new());
    }
    match fmt {
        Format::Pretty => Some(format_pretty(result, color)),
        Format::Plain => Some(format_plain(result)),
        Format::Json => None,
    }
}

// ─── Deterministic output ───

/// What a pretty line shows of a finding.
pub open spec fn shown(d: DiagnosticV) -> (Severity, Seq<char>, usize, Seq<char>) {
    (d.severity, d.file, d.line, d.message)
}

proof fn lemma_order_by_shown(a: DiagnosticV, b: DiagnosticV)
    ensures
        shown(a) != shown(b) ==> diag_lt(a, b) || diag_lt(b, a),
        shown(a) == shown(b) ==> !diag_lt(a, b),
{
    lemma_text_lt_total(a.file, b.file);
    lemma_text_lt_total(a.message, b.message);
    if shown(a) != shown(b) && a.severity != b.severity {
        assert(severity_rank(a.severity) != severity_rank(b.severity));
    }
}

proof fn lemma_lt_by_shown(a: DiagnosticV, a2: DiagnosticV, b: DiagnosticV, b2: DiagnosticV)
    requires
        shown(a) == shown(a2),
        shown(b) == shown(b2),
    ensures
        diag_lt(a, b) == diag_lt(a2, b2),
{
}

proof fn lemma_sorted_remove(s: Seq<DiagnosticV>, i: int)
    requires
        report_sorted(s),
        0 <= i < s.len(),
    ensures
        report_sorted(s.remove(i)),
{
    let r = s.remove(i);
    assert forall|p: int, q: int| 0 <= p < q < r.len() implies !diag_lt(r[q], r[p]) by {
        let pp = if p < i { p } else { p + 1 };
        let qq = if q < i { q } else { q + 1 };
        assert(r[p] == s[pp]);
        assert(r[q] == s[qq]);
    }
}

/// Two lists in report order with the same findings show the same thing
/// at each position.
proof fn lemma_sorted_shown_agree(s1: Seq<DiagnosticV>, s2: Seq<DiagnosticV>)
    requires
        report_sorted(s1),
        report_sorted(s2),
        s1.to_multiset() == s2.to_multiset(),
    ensures
        s1.len() == s2.len(),
        forall|k: int| 0 <= k < s1.len() ==> shown(#[trigger] s1[k]) == shown(s2[k]),
    decreases s1.len(),
{
    broadcast use vstd::seq_lib::group_to_multiset_ensures;
    broadcast use vstd::multiset::group_multiset_axioms;

    assert(s1.len() == s1.to_multiset().len());
    assert(s2.len() == s2.to_multiset().len());
    let n = s1.len() as int;
    if n > 0 {
        let a = s1[n - 1];
        let b = s2[n - 1];
        assert(s2.contains(b));
        assert(s2.to_multiset().count(b) > 0);
        assert(s1.contains(b));
        let i = choose|i: int| 0 <= i < n && s1[i] == b;
        assert(s1.to_multiset().count(a) > 0);
        assert(s2.contains(a));
        let i2 = choose|i2: int| 0 <= i2 < n && s2[i2] == a;
        // `a` comes last in s1 and `b` last in s2.
        assert(!diag_lt(a, b)) by {
            if i < n - 1 {
                assert(!diag_lt(s1[n - 1], s1[i]));
            } else {
                lemma_diag_lt_props(a, a, a);
            }
        }
        assert(!diag_lt(b, a)) by {
            if i2 < n - 1 {
                assert(!diag_lt(s2[n - 1], s2[i2]));
            } else {
                lemma_diag_lt_props(b, b, b);
            }
        }
        lemma_order_by_shown(a, b);
        assert(shown(a) == shown(b));
        // Everything from position i on in s1 shows what `a` shows.
        assert forall|m: int| i <= m < n implies shown(#[trigger] s1[m]) == shown(a) by {
            let x = s1[m];
            lemma_order_by_shown(x, b);
            lemma_order_by_shown(x, a);
            if m > i {
                assert(!diag_lt(s1[m], s1[i]));
            }
            if m < n - 1 {
                assert(!diag_lt(s1[n - 1], s1[m]));
            }
            lemma_lt_by_shown(b, a, x, x);
            lemma_lt_by_shown(x, x, a, b);
            lemma_diag_lt_props(a, a, a);
        }
        let r1 = s1.remove(i);
        let r2 = s2.drop_last();
        lemma_sorted_remove(s1, i);
        assert(r2 =~= s2.remove(n - 1));
        lemma_sorted_remove(s2, n - 1);
        assert(r1.to_multiset() == s1.to_multiset().remove(b));
        assert(r2.to_multiset() == s2.to_multiset().remove(b));
        lemma_sorted_shown_agree(r1, r2);
        assert forall|k: int| 0 <= k < n implies shown(#[trigger] s1[k]) == shown(s2[k]) by {
            if k == n - 1 {
            } else if k < i {
                assert(r1[k] == s1[k]);
                assert(r2[k] == s2[k]);
                assert(shown(r1[k]) == shown(r2[k]));
            } else {
                assert(r1[k] == s1[k + 1]);
                assert(r2[k] == s2[k]);
                assert(shown(r1[k]) == shown(r2[k]));
                assert(shown(s1[k + 1]) == shown(a));
                assert(shown(s1[k]) == shown(a));
            }
        }
    }
}

proof fn lemma_pretty_text_by_shown(s1: Seq<DiagnosticV>, s2: Seq<DiagnosticV>, color: bool)
    requires
        s1.len() == s2.len(),
        forall|k: int| 0 <= k < s1.len() ==> shown(#[trigger] s1[k]) == shown(s2[k]),
    ensures
        pretty_text(s1, color) == pretty_text(s2, color),
    decreases s1.len(),
{
    if s1.len() > 0 {
        let n = s1.len() as int;
        assert forall|k: int| 0 <= k < n - 1 implies shown(#[trigger] s1.drop_last()[k]) == shown(
            s2.drop_last()[k],
        ) by {
            assert(s1.drop_last()[k] == s1[k]);
            assert(s2.drop_last()[k] == s2[k]);
        }
        lemma_pretty_text_by_shown(s1.drop_last(), s2.drop_last(), color);
        assert(shown(s1[n - 1]) == shown(s2[n - 1]));
        assert(pretty_line(s1.last(), color) == pretty_line(s2.last(), color));
    }
}

/// The pretty report does not depend on the order in which the findings
/// were found: two lists in report order that hold the same findings read
/// the same.
pub proof fn law_pretty_report_deterministic(s1: Seq<DiagnosticV>, s2: Seq<DiagnosticV>, color: bool)
    requires
        report_sorted(s1),
        report_sorted(s2),
        s1.to_multiset() == s2.to_multiset(),
    ensures
        pretty_text(s1, color) == pretty_text(s2, color),
{
    lemma_sorted_shown_agree(s1, s2);
    lemma_pretty_text_by_shown(s1, s2, color);
}


/// The plain report is one line per finding, in order: the report of two
/// lists of findings one after the other is the report of the first followed
/// by the report of the second, and the report of one finding is its line
/// (`file:line: message`, the `ThenChange` target when there is one, and a
/// newline). So no finding is dropped, merged or reordered.
pub proof fn law_plain_report_line_per_finding(a: Seq<DiagnosticV>, b: Seq<DiagnosticV>, d: DiagnosticV)
    ensures
        plain_text(a + b) == plain_text(a) + plain_text(b),
        plain_text(seq![d]) == plain_line(d),
        plain_line(d).len() > 0 && plain_line(d).last() == '\n',
        plain_text(a).len() >= a.len(),
    decreases b.len(),
{
    if b.len() == 0 {
        assert(a + b =~= a);
        assert(plain_text(a) + plain_text(b) =~= plain_text(a));
    } else {
        law_plain_report_line_per_finding(a, b.drop_last(), d);
        assert((a + b).drop_last() =~= a + b.drop_last());
        assert((a + b).last() == b.last());
        assert(plain_text(a) + plain_text(b.drop_last()) + plain_line(b.last()) =~= plain_text(a) + (
        plain_text(b.drop_last()) + plain_line(b.last())));
    }
    assert(seq![d].drop_last() =~= Seq::<DiagnosticV>::empty());
    assert(seq![d].last() == d);
    assert(plain_text(Seq::<DiagnosticV>::empty()) == Seq::<char>::empty());
    assert(plain_text(seq![d]) == plain_text(seq![d].drop_last()) + plain_line(d));
    assert(Seq::<char>::empty() + plain_line(d) =~= plain_line(d));
    lemma_plain_text_len(a);
}

proof fn lemma_plain_text_len(a: Seq<DiagnosticV>)
    ensures
        plain_text(a).len() >= a.len(),
    decreases a.len(),
{
    if a.len() > 0 {
        lemma_plain_text_len(a.drop_last());
    }
}

/// The pretty report is likewise one line per finding, in order.
pub proof fn law_pretty_report_line_per_finding(a: Seq<DiagnosticV>, b: Seq<DiagnosticV>, d: DiagnosticV, color: bool)
    ensures
        pretty_text(a + b, color) == pretty_text(a, color) + pretty_text(b, color),
        pretty_text(seq![d], color) == pretty_line(d, color),
    decreases b.len(),
{
    if b.len() == 0 {
        assert(a + b =~= a);
        assert(pretty_text(a, color) + pretty_text(b, color) =~= pretty_text(a, color));
    } else {
        law_pretty_report_line_per_finding(a, b.drop_last(), d, color);
        assert((a + b).drop_last() =~= a + b.drop_last());
        assert((a + b).last() == b.last());
        assert(pretty_text(a, color) + pretty_text(b.drop_last(), color) + pretty_line(b.last(), color)
            =~= pretty_text(a, color) + (pretty_text(b.drop_last(), color) + pretty_line(b.last(), color)));
    }
    assert(seq![d].drop_last() =~= Seq::<DiagnosticV>::empty());
    assert(seq![d].last() == d);
    assert(pretty_text(Seq::<DiagnosticV>::empty(), color) == Seq::<char>::empty());
    assert(pretty_text(seq![d], color) == pretty_text(seq![d].drop_last(), color) + pretty_line(d, color));
    assert(Seq::<char>::empty() + pretty_line(d, color) =~= pretty_line(d, color));
}

} // verus!
