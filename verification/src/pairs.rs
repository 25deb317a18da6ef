//! `IfChange` / `ThenChange` pairs: how directives pair up, when a diff
//! triggers a pair, where a labelled region lies, and duplicate labels.
use vstd::prelude::*;
use crate::diagnostic::copy_opt_string;
use crate::directive::{
    directives_view, opt_view, targets_view, Directive, DirectiveError, DirectiveErrorV, DirectiveV,
    Target, TargetV, errors_view,
};
use crate::ext::string_of;
use crate::lines::{in_range, SortedLines};
use crate::msg::{dec, push_decimal, push_str};
use crate::text::chars_of;
use crate::vcs::str_eq;

verus! {

// ─── Copies ───

pub fn copy_target(t: &Target) -> (r: Target)
    ensures
        r@ == t@,
{
    Target { raw: t.raw.clone(), file: copy_opt_string(&t.file), label: copy_opt_string(&t.label) }
}

pub fn copy_targets(ts: &Vec<Target>) -> (r: Vec<Target>)
    ensures
        targets_view(r@) == targets_view(ts@),
{
    let mut r: Vec<Target> = Vec::new();
    let mut i: usize = 0;
    while i < ts.len()
        invariant
            i <= ts@.len(),
            targets_view(r@) == targets_view(ts@.subrange(0, i as int)),
        decreases ts.len() - i,
    {
        let t = copy_target(&ts[i]);
        let ghost r0 = r@;
        r.push(t);
        assert(targets_view(r@) =~= targets_view(ts@.subrange(0, i + 1))) by {
            assert(targets_view(r@) =~= targets_view(r0).push(ts@[i as int]@));
        }
        i = i + 1;
    }
    assert(ts@.subrange(0, ts@.len() as int) =~= ts@);
    r
}

// ─── Pairs ───

/// An `IfChange` with the `ThenChange` that closes it.
#[derive(Debug)]
pub struct DirectivePair {
    pub if_line: usize,
    pub if_label: Option<String>,
    pub then_line: usize,
    pub targets: Vec<Target>,
}

pub struct PairV {
    pub if_line: usize,
    pub if_label: Option<Seq<char>>,
    pub then_line: usize,
    pub targets: Seq<TargetV>,
}

impl View for DirectivePair {
    type V = PairV;

    open spec fn view(&self) -> PairV {
        PairV {
            if_line: self.if_line,
            if_label: opt_view(self.if_label),
            then_line: self.then_line,
            targets: targets_view(self.targets@),
        }
    }
}

pub open spec fn pairs_view(ps: Seq<DirectivePair>) -> Seq<PairV> {
    ps.map_values(|p: DirectivePair| p@)
}

/// Pairs closed so far, and the `IfChange` still waiting for its
/// `ThenChange`. A later `IfChange` replaces a waiting one; a `ThenChange`
/// with nothing waiting closes nothing.
pub open spec fn pair_state(ds: Seq<DirectiveV>) -> (Seq<PairV>, Option<(usize, Option<Seq<char>>)>)
    decreases ds.len(),
{
    if ds.len() == 0 {
        (Seq::empty(), None)
    } else {
        let (ps, pending) = pair_state(ds.drop_last());
        match ds.last() {
            DirectiveV::IfChange { line, label } => (ps, Some((line, label))),
            DirectiveV::ThenChange { line, targets } => match pending {
                Some((il, lab)) => (
                    ps.push(PairV { if_line: il, if_label: lab, then_line: line, targets }),
                    None,
                ),
                None => (ps, None),
            },
        }
    }
}

pub open spec fn pairs_of(ds: Seq<DirectiveV>) -> Seq<PairV> {
    pair_state(ds).0
}

pub fn build_pairs(directives: &Vec<Directive>) -> (r: Vec<DirectivePair>)
    ensures
        pairs_view(r@) == pairs_of(directives_view(directives@)),
{
    let ghost dv = directives_view(directives@);
    let mut pairs: Vec<DirectivePair> = Vec::new();
    let mut pending: Option<(usize, Option<String>)> = None;
    let mut i: usize = 0;
    while i < directives.len()
        invariant
            i <= directives@.len(),
            dv == directives_view(directives@),
            pairs_view(pairs@) == pair_state(dv.subrange(0, i as int)).0,
            (match pending {
                Some((l, lab)) => pair_state(dv.subrange(0, i as int)).1 == Some((l, opt_view(lab))),
                None => pair_state(dv.subrange(0, i as int)).1 is None,
            }),
        decreases directives.len() - i,
    {
        let ghost pre = dv.subrange(0, i + 1);
        assert(pre.drop_last() =~= dv.subrange(0, i as int));
        assert(pre.last() == directives@[i as int]@);
        match &directives[i] {
            Directive::IfChange { line, label } => {
                pending = Some((*line, copy_opt_string(label)));
            },
            Directive::ThenChange { line, targets } => {
                let p = pending.take();
                match p {
                    Some((il, lab)) => {
                        let ghost ps0 = pairs@;
                        pairs.push(
                            DirectivePair { if_line: il, if_label: lab, then_line: *line, targets: copy_targets(targets) },
                        );
                        assert(pairs_view(pairs@) =~= pairs_view(ps0).push(pairs@.last()@));
                    },
                    None => {},
                }
            },
        }
        i = i + 1;
    }
    assert(dv.subrange(0, directives@.len() as int) =~= dv);
    pairs
}

// ─── Triggering ───

/// The added lines and new-file removal positions of a file.
pub struct LinesV {
    pub added: Set<usize>,
    pub removed: Set<usize>,
}

pub open spec fn lines_view(s: Option<SortedLines>) -> Option<LinesV> {
    match s {
        Some(x) => Some(LinesV { added: x.added_set(), removed: x.removed_set() }),
        None => None,
    }
}

pub fn lines_ref(o: &Option<SortedLines>) -> (r: Option<&SortedLines>)
    ensures
        sorted_view(r) == lines_view(*o),
{
    match o {
        Some(x) => Some(x),
        None => None,
    }
}

pub open spec fn sorted_view(s: Option<&SortedLines>) -> Option<LinesV> {
    match s {
        Some(x) => Some(LinesV { added: x.added_set(), removed: x.removed_set() }),
        None => None,
    }
}

/// Whether the diff changed the content of the pair.
///
/// A pair whose `IfChange` line was added but not removed is new, not
/// modified: it does not trigger. Otherwise it triggers on an added line
/// strictly between the directives, or on a removal after the `IfChange` up
/// to the `ThenChange` line (to the line before it when the `ThenChange` line
/// itself was replaced).
pub open spec fn triggered(p: PairV, c: Option<LinesV>) -> bool {
    match c {
        None => false,
        Some(c) => {
            let il = p.if_line as int;
            let tl = p.then_line as int;
            if c.added.contains(p.if_line) && !c.removed.contains(p.if_line) {
                false
            } else if in_range(c.added, il + 1, tl - 1) {
                true
            } else {
                in_range(c.removed, il + 1, if c.added.contains(p.then_line) { tl - 1 } else { tl })
            }
        },
    }
}

/// Whether `set` holds a value in `(a, b)`.
fn added_between(s: &SortedLines, a: usize, b: usize) -> (r: bool)
    ensures
        r == in_range(s.added_set(), a + 1, b - 1),
{
    if a < usize::MAX && b > 0 {
        s.added_in(a + 1, b - 1)
    } else {
        false
    }
}

/// Whether a removal position lies in `(a, b]`.
fn removed_after(s: &SortedLines, a: usize, b: usize) -> (r: bool)
    ensures
        r == in_range(s.removed_set(), a + 1, b as int),
{
    if a < usize::MAX {
        s.removed_in(a + 1, b)
    } else {
        false
    }
}

fn added_at(s: &SortedLines, x: usize) -> (r: bool)
    ensures
        r == s.added_set().contains(x),
{
    let r = s.added_in(x, x);
    proof {
        if s.added_set().contains(x) {
            assert(in_range(s.added_set(), x as int, x as int));
        }
    }
    r
}

fn removed_at(s: &SortedLines, x: usize) -> (r: bool)
    ensures
        r == s.removed_set().contains(x),
{
    let r = s.removed_in(x, x);
    proof {
        if s.removed_set().contains(x) {
            assert(in_range(s.removed_set(), x as int, x as int));
        }
    }
    r
}

pub fn is_triggered(pair: &DirectivePair, sorted: Option<&SortedLines>) -> (r: bool)
    ensures
        r == triggered(pair@, sorted_view(sorted)),
{
    let s = match sorted {
        Some(s) => s,
        None => {
            return false;
        },
    };
    if added_at(s, pair.if_line) && !removed_at(s, pair.if_line) {
        return false;
    }
    if added_between(s, pair.if_line, pair.then_line) {
        return true;
    }
    if added_at(s, pair.then_line) {
        if pair.then_line > 0 {
            removed_after(s, pair.if_line, pair.then_line - 1)
        } else {
            proof {
                assert(!in_range(s.removed_set(), pair.if_line + 1, -1));
            }
            false
        }
    } else {
        removed_after(s, pair.if_line, pair.then_line)
    }
}

// ─── Labelled regions ───

/// The lines of the `IfChange(name)` that opens the region and of the
/// directive that closes it: its `ThenChange`, or an interrupting `IfChange`
/// with another label. A later `IfChange(name)` restarts the region.
pub open spec fn label_scan(ds: Seq<DirectiveV>, name: Seq<char>, i: int, start: Option<usize>) -> Option<(usize, usize)>
    decreases ds.len() - i,
{
    if i < 0 || i >= ds.len() {
        None
    } else {
        match ds[i] {
            DirectiveV::IfChange { line, label } => if label == Some(name) {
                label_scan(ds, name, i + 1, Some(line))
            } else {
                match start {
                    Some(s) => Some((s, line)),
                    None => label_scan(ds, name, i + 1, None),
                }
            },
            DirectiveV::ThenChange { line, .. } => match start {
                Some(s) => Some((s, line)),
                None => label_scan(ds, name, i + 1, None),
            },
        }
    }
}

pub open spec fn label_bounds(ds: Seq<DirectiveV>, name: Seq<char>) -> Option<(usize, usize)> {
    label_scan(ds, name, 0, None)
}

fn label_is(label: &Option<String>, name: &str) -> (r: bool)
    ensures
        r == (opt_view(*label) == Some(name@)),
{
    match label {
        Some(l) => str_eq(l.as_str(), name),
        None => false,
    }
}

/// The lines of the directives that bound the region of `name` (see
/// `label_scan`).
pub fn find_label_bounds(directives: &Vec<Directive>, name: &str) -> (r: Option<(usize, usize)>)
    ensures
        r == label_bounds(directives_view(directives@), name@),
{
    let ghost dv = directives_view(directives@);
    let mut start: Option<usize> = None;
    let mut i: usize = 0;
    while i < directives.len()
        invariant
            i <= directives@.len(),
            dv == directives_view(directives@),
            label_scan(dv, name@, 0, None) == label_scan(dv, name@, i as int, start),
        decreases directives.len() - i,
    {
        assert(dv[i as int] == directives@[i as int]@);
        match &directives[i] {
            Directive::IfChange { line, label } => {
                if label_is(label, name) {
                    start = Some(*line);
                } else if let Some(s) = start {
                    return Some((s, *line));
                }
            },
            Directive::ThenChange { line, .. } => {
                if let Some(s) = start {
                    return Some((s, *line));
                }
            },
        }
        i = i + 1;
    }
    None
}

/// The content lines `start..=end` of a labelled region.
#[derive(Debug, Clone, Copy)]
pub struct LabelRange {
    pub start: usize,
    pub end: usize,
}

/// The content lines between `IfChange(name)` and the directive that closes
/// its region: from the line after the `IfChange` to the line before the
/// closing directive (both saturating at the ends of `usize`).
pub fn label_range(directives: &Vec<Directive>, name: &str) -> (r: Option<LabelRange>)
    ensures
        (match label_bounds(directives_view(directives@), name@) {
            Some((a, b)) => r matches Some(x) && x.start as int == (if a < usize::MAX { a + 1 } else { a as int })
                && x.end as int == (if b > 0 { b - 1 } else { b as int }),
            None => r is None,
        }),
{
    match find_label_bounds(directives, name) {
        Some((a, b)) => Some(
            LabelRange {
                start: if a < usize::MAX { a + 1 } else { a },
                end: if b > 0 { b - 1 } else { b },
            },
        ),
        None => None,
    }
}

// ─── Duplicate labels ───

/// The line of the first `IfChange` labelled `l` among the first `n` directives.
pub open spec fn first_label_line(ds: Seq<DirectiveV>, l: Seq<char>, n: int) -> Option<usize>
    decreases n,
{
    if n <= 0 {
        None
    } else {
        match first_label_line(ds, l, n - 1) {
            Some(x) => Some(x),
            None => match ds[n - 1] {
                DirectiveV::IfChange { line, label } => if label == Some(l) {
                    Some(line)
                } else {
                    None
                },
                _ => None,
            },
        }
    }
}

pub open spec fn duplicate_message(l: Seq<char>, file: Seq<char>, first: usize) -> Seq<char> {
    "duplicate LINT.IfChange label "@ + l + " (first at "@ + file + seq![':'] + dec(first as nat) + ")"@
}

/// An error for each `IfChange` whose label an earlier `IfChange` already used.
pub open spec fn uniqueness_errors(ds: Seq<DirectiveV>, file: Seq<char>, n: int) -> Seq<DirectiveErrorV>
    decreases n,
{
    if n <= 0 {
        Seq::empty()
    } else {
        let prev = uniqueness_errors(ds, file, n - 1);
        match ds[n - 1] {
            DirectiveV::IfChange { line, label: Some(l) } => match first_label_line(ds, l, n - 1) {
                Some(p) => prev.push(DirectiveErrorV { line, message: duplicate_message(l, file, p) }),
                None => prev,
            },
            _ => prev,
        }
    }
}

proof fn lemma_first_label_stable(ds: Seq<DirectiveV>, l: Seq<char>, k: int, n: int)
    requires
        0 <= k <= n,
        first_label_line(ds, l, k) is Some,
    ensures
        first_label_line(ds, l, n) == first_label_line(ds, l, k),
    decreases n - k,
{
    if n > k {
        lemma_first_label_stable(ds, l, k, n - 1);
    }
}

/// The line of the first `IfChange` labelled `l` among the first `n` directives.
fn first_label(directives: &Vec<Directive>, l: &str, n: usize) -> (r: Option<usize>)
    requires
        n <= directives@.len(),
    ensures
        r == first_label_line(directives_view(directives@), l@, n as int),
{
    let ghost dv = directives_view(directives@);
    let mut k: usize = 0;
    while k < n
        invariant
            k <= n <= directives@.len(),
            dv == directives_view(directives@),
            first_label_line(dv, l@, k as int) is None,
        decreases n - k,
    {
        assert(dv[k as int] == directives@[k as int]@);
        if let Directive::IfChange { line, label } = &directives[k] {
            if label_is(label, l) {
                proof {
                    lemma_first_label_stable(dv, l@, k + 1, n as int);
                }
                return Some(*line);
            }
        }
        k = k + 1;
    }
    None
}

/// Errors for `IfChange` labels used twice in one file.
pub fn validate_uniqueness(directives: &Vec<Directive>, file_path: &str) -> (r: Vec<DirectiveError>)
    ensures
        errors_view(r@) == uniqueness_errors(directives_view(directives@), file_path@, directives@.len() as int),
{
    let ghost dv = directives_view(directives@);
    let mut errors: Vec<DirectiveError> = Vec::new();
    let mut n: usize = 0;
    while n < directives.len()
        invariant
            n <= directives@.len(),
            dv == directives_view(directives@),
            errors_view(errors@) == uniqueness_errors(dv, file_path@, n as int),
        decreases directives.len() - n,
    {
        assert(dv[n as int] == directives@[n as int]@);
        let ghost e0 = errors@;
        if let Directive::IfChange { line, label: Some(l) } = &directives[n] {
            if let Some(p) = first_label(directives, l.as_str(), n) {
                let mut m = chars_of("duplicate LINT.IfChange label ");
                push_str(&mut m, l.as_str());
                push_str(&mut m, " (first at ");
                push_str(&mut m, file_path);
                m.push(':');
                push_decimal(&mut m, p);
                push_str(&mut m, ")");
                let message = string_of(m.as_slice());
                assert(message@ =~= duplicate_message(l@, file_path@, p));
                errors.push(DirectiveError { line: *line, message });
                assert(errors_view(errors@) =~= errors_view(e0).push(errors@.last()@));
            }
        }
        assert(errors_view(errors@) == uniqueness_errors(dv, file_path@, n + 1));
        n = n + 1;
    }
    errors
}


// ─── Laws ───

/// A pair whose lines, from its `IfChange` through its `ThenChange`, saw no
/// added line and no removal is not triggered.
pub proof fn law_untouched_pair_not_triggered(p: PairV, c: LinesV)
    requires
        forall|v: usize| p.if_line <= v <= p.then_line ==> !c.added.contains(v) && !c.removed.contains(v),
    ensures
        !triggered(p, Some(c)),
{
}

/// A pair whose `IfChange` line is new (added, not removed) is being
/// established, not modified: it is not triggered.
pub proof fn law_new_pair_not_triggered(p: PairV, c: LinesV)
    requires
        c.added.contains(p.if_line),
        !c.removed.contains(p.if_line),
    ensures
        !triggered(p, Some(c)),
{
}

/// An added line strictly between the directives of an existing pair
/// triggers it.
pub proof fn law_added_content_triggers(p: PairV, c: LinesV, v: usize)
    requires
        !c.added.contains(p.if_line) || c.removed.contains(p.if_line),
        c.added.contains(v),
        p.if_line < v < p.then_line,
    ensures
        triggered(p, Some(c)),
{
    assert(in_range(c.added, p.if_line + 1, p.then_line - 1));
}

/// A removal after the `IfChange` of an existing pair, up to its
/// `ThenChange` line when that line was kept, triggers it.
pub proof fn law_removed_content_triggers(p: PairV, c: LinesV, v: usize)
    requires
        !c.added.contains(p.if_line) || c.removed.contains(p.if_line),
        !c.added.contains(p.then_line),
        c.removed.contains(v),
        p.if_line < v <= p.then_line,
    ensures
        triggered(p, Some(c)),
{
    assert(in_range(c.removed, p.if_line + 1, p.then_line as int));
}

/// A file the diff did not touch triggers no pair.
pub proof fn law_unchanged_file_not_triggered(p: PairV)
    ensures
        !triggered(p, None),
{
}


/// Directives pair up in order: after any directives that leave no
/// `IfChange` waiting, an `IfChange` followed by a `ThenChange` adds exactly
/// one pair, from the `IfChange` (its line and label) to the `ThenChange`
/// (its line and targets). A second `IfChange` before the `ThenChange`
/// replaces the first, and a `ThenChange` with no `IfChange` waiting adds
/// nothing.
pub proof fn law_directives_pair_in_order(
    ds: Seq<DirectiveV>,
    a: usize,
    la: Option<Seq<char>>,
    a2: usize,
    la2: Option<Seq<char>>,
    b: usize,
    ts: Seq<TargetV>,
)
    requires
        pair_state(ds).1 is None,
    ensures
        pairs_of(ds + seq![DirectiveV::IfChange { line: a, label: la }, DirectiveV::ThenChange { line: b, targets: ts }])
            == pairs_of(ds).push(PairV { if_line: a, if_label: la, then_line: b, targets: ts }),
        pairs_of(
            ds + seq![
                DirectiveV::IfChange { line: a, label: la },
                DirectiveV::IfChange { line: a2, label: la2 },
                DirectiveV::ThenChange { line: b, targets: ts },
            ],
        ) == pairs_of(ds).push(PairV { if_line: a2, if_label: la2, then_line: b, targets: ts }),
        pairs_of(ds + seq![DirectiveV::ThenChange { line: b, targets: ts }]) == pairs_of(ds),
{
    let i1 = DirectiveV::IfChange { line: a, label: la };
    let i2 = DirectiveV::IfChange { line: a2, label: la2 };
    let t = DirectiveV::ThenChange { line: b, targets: ts };
    let s1 = ds + seq![i1];
    assert((ds + seq![i1, t]).drop_last() =~= s1);
    assert(s1.drop_last() =~= ds);
    assert(pair_state(s1) == (pair_state(ds).0, Some((a, la))));
    let s2 = ds + seq![i1, i2];
    assert((ds + seq![i1, i2, t]).drop_last() =~= s2);
    assert(s2.drop_last() =~= s1);
    assert(pair_state(s2) == (pair_state(ds).0, Some((a2, la2))));
    assert((ds + seq![t]).drop_last() =~= ds);
}

/// The region of label `name` opened by an `IfChange(name)` runs to the next
/// directive: with its `ThenChange` right after it, the region spans the
/// `IfChange` line through the `ThenChange` line, whatever follows.
pub proof fn law_label_region_bounds(
    a: usize,
    name: Seq<char>,
    b: usize,
    ts: Seq<TargetV>,
    rest: Seq<DirectiveV>,
)
    ensures
        label_bounds(
            seq![
                DirectiveV::IfChange { line: a, label: Some(name) },
                DirectiveV::ThenChange { line: b, targets: ts },
            ] + rest,
            name,
        ) == Some((a, b)),
{
    let ds = seq![
        DirectiveV::IfChange { line: a, label: Some(name) },
        DirectiveV::ThenChange { line: b, targets: ts },
    ] + rest;
    assert(ds[0] == DirectiveV::IfChange { line: a, label: Some(name) });
    assert(ds[1] == DirectiveV::ThenChange { line: b, targets: ts });
    assert(label_scan(ds, name, 1, Some(a)) == Some((a, b)));
}


/// Whether `d` is an `IfChange` labelled `l`.
pub open spec fn opens_label(d: DirectiveV, l: Seq<char>) -> bool {
    match d {
        DirectiveV::IfChange { label: Some(x), .. } => x == l,
        _ => false,
    }
}

proof fn lemma_first_label_none(ds: Seq<DirectiveV>, l: Seq<char>, n: int)
    requires
        n <= ds.len(),
        forall|i: int| 0 <= i < n ==> !opens_label(#[trigger] ds[i], l),
    ensures
        first_label_line(ds, l, n) is None,
    decreases n,
{
    if n > 0 {
        lemma_first_label_none(ds, l, n - 1);
    }
}

/// A label used by a second `IfChange` in one file is reported once, at the
/// second `IfChange`'s line, naming the line of the first use; the first use
/// itself is not reported.
pub proof fn law_duplicate_label_reported(
    ds: Seq<DirectiveV>,
    file: Seq<char>,
    k: int,
    j: int,
    l: Seq<char>,
    a: usize,
    c: usize,
)
    requires
        0 <= k < j < ds.len(),
        ds[k] == (DirectiveV::IfChange { line: a, label: Some(l) }),
        ds[j] == (DirectiveV::IfChange { line: c, label: Some(l) }),
        forall|i: int| 0 <= i < k ==> !opens_label(#[trigger] ds[i], l),
    ensures
        uniqueness_errors(ds, file, k + 1) == uniqueness_errors(ds, file, k),
        uniqueness_errors(ds, file, j + 1) == uniqueness_errors(ds, file, j).push(
            (DirectiveErrorV { line: c, message: duplicate_message(l, file, a) }),
        ),
{
    lemma_first_label_none(ds, l, k);
    assert(first_label_line(ds, l, k + 1) == Some(a));
    lemma_first_label_stable(ds, l, k + 1, j);
}

} // verus!
