//! Per-file changes from a unified diff. Parsing the diff text is done by
//! `patchkit`, which counts hunk lines against the `@@ -a,b +c,d @@` header
//! and drops what it cannot model (mode-only changes, pure renames, binary
//! files) as junk; this module turns its patches into changed line numbers.
use vstd::prelude::*;
use crate::ext::{lossy_of, parse_unified, patches_of, utf8_lossy};
use crate::text::{chars_of, has_prefix, starts_with};
use crate::vcs::{
    lemma_to_set_concat, marked_deleted, merged, str_eq, ChangeMap, FileChanges, FileChangesV,
};
use vstd::string::StringSliceAdditionalSpecFns;

verus! {

// ─── Patches ───

/// The kind of a line of a hunk.
#[derive(Debug, Clone, Copy, PartialEq, Eq, Structural)]
pub enum LineKind {
    Context,
    Insert,
    Remove,
}

/// A hunk: where it starts in the old and new file, and its lines.
#[derive(Debug)]
pub struct HunkData {
    pub orig_pos: usize,
    pub mod_pos: usize,
    pub lines: Vec<LineKind>,
}

/// A file patch: old and new header paths with the hunks, or a binary patch.
#[derive(Debug)]
pub enum PatchData {
    Plain(Vec<u8>, Vec<u8>, Vec<HunkData>),
    Binary,
}

pub struct HunkV {
    pub orig_pos: usize,
    pub mod_pos: usize,
    pub lines: Seq<LineKind>,
}

pub enum PatchV {
    Plain { orig: Seq<u8>, modn: Seq<u8>, hunks: Seq<HunkV> },
    Binary,
}

impl View for HunkData {
    type V = HunkV;

    open spec fn view(&self) -> HunkV {
        HunkV { orig_pos: self.orig_pos, mod_pos: self.mod_pos, lines: self.lines@ }
    }
}

pub open spec fn hunks_view(hs: Seq<HunkData>) -> Seq<HunkV> {
    hs.map_values(|h: HunkData| h@)
}

impl View for PatchData {
    type V = PatchV;

    open spec fn view(&self) -> PatchV {
        match self {
            PatchData::Plain(o, m, hs) => PatchV::Plain { orig: o@, modn: m@, hunks: hunks_view(hs@) },
            PatchData::Binary => PatchV::Binary,
        }
    }
}

pub open spec fn patches_view(ps: Seq<PatchData>) -> Seq<PatchV> {
    ps.map_values(|p: PatchData| p@)
}

pub open spec fn patches_result_view(r: Result<Vec<PatchData>, String>) -> Result<Seq<PatchV>, Seq<char>> {
    match r {
        Ok(v) => Ok(patches_view(v@)),
        Err(e) => Err(e@),
    }
}

// ─── Changed lines of a patch ───

/// `x + 1`, saturating at the largest line number.
pub open spec fn sat_inc(x: usize) -> usize {
    if x < usize::MAX {
        (x + 1) as usize
    } else {
        x
    }
}

/// Walking the first `n` lines of a hunk from the old and new positions
/// `o0` and `w0`: the positions reached, the added new-file lines, the
/// removed old-file lines, and the new-file positions of the removals
/// (consecutive removals share one).
pub open spec fn walk(ls: Seq<LineKind>, o0: usize, w0: usize, n: int) -> (usize, usize, Set<usize>, Set<usize>, Set<usize>)
    decreases n,
{
    if n <= 0 {
        (o0, w0, Set::empty(), Set::empty(), Set::empty())
    } else {
        let (o, w, a, r, rn) = walk(ls, o0, w0, n - 1);
        match ls[n - 1] {
            LineKind::Insert => (o, sat_inc(w), a.insert(w), r, rn),
            LineKind::Remove => (sat_inc(o), w, a, r.insert(o), rn.insert(w)),
            LineKind::Context => (sat_inc(o), sat_inc(w), a, r, rn),
        }
    }
}

pub open spec fn no_changes() -> FileChangesV {
    FileChangesV { added: Set::empty(), removed: Set::empty(), removed_new: Set::empty(), deleted: false }
}

/// The changed lines of the first `n` hunks.
pub open spec fn hunks_changes(hs: Seq<HunkV>, n: int) -> FileChangesV
    decreases n,
{
    if n <= 0 {
        no_changes()
    } else {
        let prev = hunks_changes(hs, n - 1);
        let h = hs[n - 1];
        let (_, _, a, r, rn) = walk(h.lines, h.orig_pos, h.mod_pos, h.lines.len() as int);
        FileChangesV {
            added: prev.added + a,
            removed: prev.removed + r,
            removed_new: prev.removed_new + rn,
            deleted: false,
        }
    }
}

fn sat_inc_exec(x: usize) -> (r: usize)
    ensures
        r == sat_inc(x),
{
    if x < usize::MAX {
        x + 1
    } else {
        x
    }
}

/// The changed lines of the hunks of a patch.
pub fn hunk_changes(hunks: &Vec<HunkData>) -> (r: FileChanges)
    ensures
        r@ == hunks_changes(hunks_view(hunks@), hunks@.len() as int),
{
    let ghost hv = hunks_view(hunks@);
    let mut changes = FileChanges::empty();
    assert(changes@ == no_changes()) by {
        assert(changes@.added =~= Set::<usize>::empty());
        assert(changes@.removed =~= Set::<usize>::empty());
        assert(changes@.removed_new =~= Set::<usize>::empty());
    }
    let mut k: usize = 0;
    while k < hunks.len()
        invariant
            k <= hunks@.len(),
            hv == hunks_view(hunks@),
            changes@ == hunks_changes(hv, k as int),
        decreases hunks.len() - k,
    {
        let h = &hunks[k];
        assert(hv[k as int] == h@);
        let ghost c0 = changes@;
        let ghost a0 = changes.added_lines@;
        let ghost r0 = changes.removed_lines@;
        let ghost n0 = changes.removed_new_positions@;
        let mut old_line = h.orig_pos;
        let mut new_line = h.mod_pos;
        let mut added: Vec<usize> = Vec::new();
        let mut removed: Vec<usize> = Vec::new();
        let mut removed_new: Vec<usize> = Vec::new();
        let mut i: usize = 0;
        while i < h.lines.len()
            invariant
                i <= h.lines@.len(),
                (old_line, new_line, added@.to_set(), removed@.to_set(), removed_new@.to_set()) == walk(
                    h.lines@,
                    h.orig_pos,
                    h.mod_pos,
                    i as int,
                ),
            decreases h.lines.len() - i,
        {
            let ghost pa = added@;
            let ghost pr = removed@;
            let ghost pn = removed_new@;
            match h.lines[i] {
                LineKind::Insert => {
                    added.push(new_line);
                    proof {
                        assert(added@ == pa.push(new_line));
                        pa.lemma_push_to_set_commute(new_line);
                    }
                    new_line = sat_inc_exec(new_line);
                },
                LineKind::Remove => {
                    removed.push(old_line);
                    removed_new.push(new_line);
                    proof {
                        pr.lemma_push_to_set_commute(old_line);
                        pn.lemma_push_to_set_commute(new_line);
                    }
                    old_line = sat_inc_exec(old_line);
                },
                LineKind::Context => {
                    old_line = sat_inc_exec(old_line);
                    new_line = sat_inc_exec(new_line);
                },
            }
            i = i + 1;
        }
        crate::vcs::append_usizes(&mut changes.added_lines, &added);
        crate::vcs::append_usizes(&mut changes.removed_lines, &removed);
        crate::vcs::append_usizes(&mut changes.removed_new_positions, &removed_new);
        proof {
            lemma_to_set_concat(a0, added@);
            lemma_to_set_concat(r0, removed@);
            lemma_to_set_concat(n0, removed_new@);
        }
        k = k + 1;
    }
    changes
}

// ─── Header paths ───

/// How header paths are turned into keys.
#[derive(Debug, Clone, Copy, PartialEq, Eq, Structural)]
pub enum Normalize {
    /// Paths are kept as they are.
    Keep,
    /// git's `a/` / `b/` prefixes are stripped (see `strip_diff_prefix`).
    StripDiffPrefix,
}

/// Without a leading `a/` or `b/`.
pub open spec fn stripped(p: Seq<char>) -> Seq<char> {
    if starts_with(p, "a/"@) || starts_with(p, "b/"@) {
        p.subrange(2, p.len() as int)
    } else {
        p
    }
}

/// Strips the `a/` / `b/` prefixes that git's unified diff puts on every
/// path; other paths are left as they are.
pub fn strip_diff_prefix(path: &str) -> (r: String)
    ensures
        r@ == stripped(path@),
{
    proof {
        reveal_strlit("a/");
        reveal_strlit("b/");
    }
    let cs = chars_of(path);
    let a = chars_of("a/");
    let b = chars_of("b/");
    if has_prefix(cs.as_slice(), a.as_slice()) || has_prefix(cs.as_slice(), b.as_slice()) {
        let rest = crate::text::copy_range(cs.as_slice(), 2, cs.len());
        crate::ext::string_of(rest.as_slice())
    } else {
        path.to_owned()
    }
}

pub open spec fn is_oct(c: u8) -> bool {
    48 <= c <= 55
}

/// The value and length of the octal escape whose first digit is at `j`
/// (at most three digits).
pub open spec fn octal_at(b: Seq<u8>, j: int) -> (int, int) {
    let v0 = b[j] - 48;
    if j + 1 < b.len() && is_oct(b[j + 1]) {
        let v1 = v0 * 8 + (b[j + 1] - 48);
        if j + 2 < b.len() && is_oct(b[j + 2]) {
            (v1 * 8 + (b[j + 2] - 48), 3)
        } else {
            (v1, 2)
        }
    } else {
        (v0, 1)
    }
}

/// The byte a one-letter C escape stands for, if `e` is one.
pub open spec fn c_escape(e: u8) -> Option<u8> {
    if e == 97 {
        Some(7u8)
    } else if e == 98 {
        Some(8u8)
    } else if e == 116 {
        Some(9u8)
    } else if e == 110 {
        Some(10u8)
    } else if e == 118 {
        Some(11u8)
    } else if e == 102 {
        Some(12u8)
    } else if e == 114 {
        Some(13u8)
    } else {
        None
    }
}

/// The bytes of a C-quoted path from index `i` up to its closing quote, with
/// escapes decoded: one-letter escapes, octal escapes of up to three digits
/// (a value above 255 becomes 255), and any other escaped byte as itself.
pub open spec fn unescape(b: Seq<u8>, i: int) -> Seq<u8>
    decreases b.len() - i,
{
    if i < 0 || i >= b.len() {
        Seq::empty()
    } else if b[i] == 34 {
        Seq::empty()
    } else if b[i] == 92 {
        if i + 1 >= b.len() {
            Seq::empty()
        } else {
            let e = b[i + 1];
            match c_escape(e) {
                Some(x) => seq![x] + unescape(b, i + 2),
                None => if is_oct(e) {
                    let (v, k) = octal_at(b, i + 1);
                    seq![if v > 255 { 255u8 } else { v as u8 }] + unescape(b, i + 1 + k)
                } else {
                    seq![e] + unescape(b, i + 2)
                },
            }
        }
    } else {
        seq![b[i]] + unescape(b, i + 1)
    }
}

/// A path in git's C quoting (`core.quotePath`), decoded; a bare path is
/// left as it is.
pub open spec fn unquoted(p: Seq<char>) -> Seq<char> {
    if p.len() > 0 && p[0] == '"' {
        lossy_of(unescape(vstd::utf8::encode_utf8(p), 1))
    } else {
        p
    }
}

fn c_escape_exec(e: u8) -> (r: Option<u8>)
    ensures
        r == c_escape(e),
{
    if e == 97 {
        Some(7u8)
    } else if e == 98 {
        Some(8u8)
    } else if e == 116 {
        Some(9u8)
    } else if e == 110 {
        Some(10u8)
    } else if e == 118 {
        Some(11u8)
    } else if e == 102 {
        Some(12u8)
    } else if e == 114 {
        Some(13u8)
    } else {
        None
    }
}

fn octal_exec(b: &[u8], j: usize) -> (r: (u8, usize))
    requires
        j < b@.len(),
        is_oct(b@[j as int]),
    ensures
        r.0 == (if octal_at(b@, j as int).0 > 255 { 255u8 } else { octal_at(b@, j as int).0 as u8 }),
        r.1 == octal_at(b@, j as int).1,
{
    let v0: u32 = (b[j] - 48) as u32;
    let (v, k): (u32, usize) = if j + 1 < b.len() && 48 <= b[j + 1] && b[j + 1] <= 55 {
        let v1: u32 = v0 * 8 + (b[j + 1] - 48) as u32;
        if j + 2 < b.len() && 48 <= b[j + 2] && b[j + 2] <= 55 {
            (v1 * 8 + (b[j + 2] - 48) as u32, 3)
        } else {
            (v1, 2)
        }
    } else {
        (v0, 1)
    };
    let byte: u8 = if v > 255 {
        255
    } else {
        v as u8
    };
    (byte, k)
}

/// Decodes a path in git's C quoting (see `unquoted`).
pub fn unquote_path(path: &str) -> (r: String)
    ensures
        r@ == unquoted(path@),
{
    let cs = chars_of(path);
    if cs.len() == 0 || cs[0] != '"' {
        return path.to_owned();
    }
    let b = path.as_bytes();
    let mut out: Vec<u8> = Vec::new();
    let mut i: usize = 1;
    let ghost total = unescape(b@, 1);
    while i < b.len()
        invariant
            1 <= i,
            b@ == vstd::utf8::encode_utf8(path@),
            out@ + unescape(b@, i as int) == total,
        ensures
            out@ == total,
        decreases b.len() - i,
    {
        let c = b[i];
        if c == 34 {
            assert(unescape(b@, i as int) =~= Seq::<u8>::empty());
            assert(out@ =~= total);
            break;
        }
        if c == 92 {
            if i + 1 >= b.len() {
                assert(unescape(b@, i as int) =~= Seq::<u8>::empty());
                assert(out@ =~= total);
                break;
            }
            let e = b[i + 1];
            match c_escape_exec(e) {
                Some(x) => {
                    out.push(x);
                    assert(unescape(b@, i as int) == seq![x] + unescape(b@, i + 2));
                    assert(out@ + unescape(b@, i + 2) =~= total);
                    i = i + 2;
                },
                None => {
                    if 48 <= e && e <= 55 {
                        let (x, k) = octal_exec(b, i + 1);
                        out.push(x);
                        assert(unescape(b@, i as int) == seq![x] + unescape(b@, i + 1 + k));
                        assert(out@ + unescape(b@, i + 1 + k) =~= total);
                        i = i + 1 + k;
                    } else {
                        out.push(e);
                        assert(unescape(b@, i as int) == seq![e] + unescape(b@, i + 2));
                        assert(out@ + unescape(b@, i + 2) =~= total);
                        i = i + 2;
                    }
                },
            }
        } else {
            out.push(c);
            assert(unescape(b@, i as int) == seq![c] + unescape(b@, i + 1));
            assert(out@ + unescape(b@, i + 1) =~= total);
            i = i + 1;
        }
        if i >= b.len() {
            assert(unescape(b@, i as int) =~= Seq::<u8>::empty());
            assert(out@ =~= total);
        }
    }
    utf8_lossy(out.as_slice())
}

/// The key a header path gives: decoded from its bytes, unquoted, then
/// normalized.
pub open spec fn header_path(n: Normalize, name: Seq<u8>) -> Seq<char> {
    let p = unquoted(lossy_of(name));
    match n {
        Normalize::Keep => p,
        Normalize::StripDiffPrefix => stripped(p),
    }
}

pub fn header_path_exec(n: Normalize, name: &Vec<u8>) -> (r: String)
    ensures
        r@ == header_path(n, name@),
{
    let p = unquote_path(utf8_lossy(name.as_slice()).as_str());
    match n {
        Normalize::Keep => p,
        Normalize::StripDiffPrefix => strip_diff_prefix(p.as_str()),
    }
}

// ─── Changes of a whole diff ───

/// What a patch does to the changes: a binary patch or one without hunks
/// does nothing; a patch to `/dev/null` marks its old path deleted; any
/// other adds its changed lines to its new path and, for a rename, to its
/// old path too.
pub open spec fn patch_step(m: Seq<(Seq<char>, FileChangesV)>, p: PatchV, n: Normalize) -> Seq<(Seq<char>, FileChangesV)> {
    match p {
        PatchV::Binary => m,
        PatchV::Plain { orig, modn, hunks } => if hunks.len() == 0 {
            m
        } else {
            let newp = header_path(n, modn);
            let oldp = header_path(n, orig);
            if newp == "/dev/null"@ {
                if oldp == "/dev/null"@ {
                    m
                } else {
                    marked_deleted(m, oldp)
                }
            } else {
                let ch = hunks_changes(hunks, hunks.len() as int);
                let m1 = if oldp != newp && oldp != "/dev/null"@ {
                    merged(m, oldp, ch)
                } else {
                    m
                };
                merged(m1, newp, ch)
            }
        },
    }
}

/// The changes of the first `k` patches.
pub open spec fn changes_from(ps: Seq<PatchV>, n: Normalize, k: int) -> Seq<(Seq<char>, FileChangesV)>
    decreases k,
{
    if k <= 0 {
        Seq::empty()
    } else {
        patch_step(changes_from(ps, n, k - 1), ps[k - 1], n)
    }
}

/// The per-file changes of a list of patches.
pub fn apply_patches(patches: &Vec<PatchData>, n: Normalize) -> (r: ChangeMap)
    ensures
        r@ == changes_from(patches_view(patches@), n, patches@.len() as int),
{
    let ghost pv = patches_view(patches@);
    let mut result = ChangeMap::new();
    let mut k: usize = 0;
    while k < patches.len()
        invariant
            k <= patches@.len(),
            pv == patches_view(patches@),
            result@ == changes_from(pv, n, k as int),
        decreases patches.len() - k,
    {
        assert(pv[k as int] == patches@[k as int]@);
        match &patches[k] {
            PatchData::Binary => {},
            PatchData::Plain(orig, modn, hunks) => {
                if hunks.len() > 0 {
                    let new_path = header_path_exec(n, modn);
                    let old_path = header_path_exec(n, orig);
                    proof {
                        reveal_strlit("/dev/null");
                    }
                    if str_eq(new_path.as_str(), "/dev/null") {
                        if !str_eq(old_path.as_str(), "/dev/null") {
                            result.mark_deleted(old_path);
                        }
                    } else {
                        let changes = hunk_changes(hunks);
                        if !str_eq(old_path.as_str(), new_path.as_str()) && !str_eq(old_path.as_str(), "/dev/null") {
                            result.merge(old_path, changes.clone_changes());
                        }
                        result.merge(new_path, changes);
                    }
                }
            },
        }
        k = k + 1;
    }
    result
}

/// The outcome of parsing a diff: the changes of its patches, or the
/// parser's error.
pub open spec fn parse_outcome(patches: Result<Seq<PatchV>, Seq<char>>, n: Normalize) -> Result<Seq<(Seq<char>, FileChangesV)>, Seq<char>> {
    match patches {
        Ok(ps) => Ok(changes_from(ps, n, ps.len() as int)),
        Err(e) => Err("failed to parse diff: "@ + e),
    }
}

/// Parses a unified diff into per-file changes, keyed by `n` applied to
/// the header paths.
pub fn parse(input: &str, n: Normalize) -> (r: Result<ChangeMap, String>)
    ensures
        (match parse_outcome(patches_of(input@), n) {
            Ok(m) => r matches Ok(c) && c@ == m,
            Err(e) => r matches Err(x) && x@ == e,
        }),
{
    match parse_unified(input) {
        Ok(patches) => Ok(apply_patches(&patches, n)),
        Err(e) => {
            let mut m = chars_of("failed to parse diff: ");
            crate::msg::push_str(&mut m, e.as_str());
            Err(crate::ext::string_of(m.as_slice()))
        },
    }
}


// ─── Laws ───

/// A patch without hunks, and a binary patch, change nothing.
pub proof fn law_patch_without_lines_changes_nothing(
    m: Seq<(Seq<char>, FileChangesV)>,
    orig: Seq<u8>,
    modn: Seq<u8>,
    n: Normalize,
)
    ensures
        patch_step(m, PatchV::Plain { orig, modn, hunks: Seq::empty() }, n) == m,
        patch_step(m, PatchV::Binary, n) == m,
{
}

/// A patch to `/dev/null` marks its old path deleted, whatever earlier
/// patches recorded for it, and leaves other paths alone.
pub proof fn law_deletion_marks_deleted(
    m: Seq<(Seq<char>, FileChangesV)>,
    orig: Seq<u8>,
    modn: Seq<u8>,
    hunks: Seq<HunkV>,
    n: Normalize,
    other: Seq<char>,
)
    requires
        crate::vcs::distinct_keys(m),
        hunks.len() > 0,
        header_path(n, modn) == "/dev/null"@,
        header_path(n, orig) != "/dev/null"@,
    ensures
        crate::vcs::lookup(patch_step(m, PatchV::Plain { orig, modn, hunks }, n), header_path(n, orig)) matches Some(
            c,
        ) && c.deleted,
        other != header_path(n, orig) ==> crate::vcs::lookup(patch_step(m, PatchV::Plain { orig, modn, hunks }, n), other)
            == crate::vcs::lookup(m, other),
{
    let k = header_path(n, orig);
    let v = match crate::vcs::find_key(m, k) {
        Some(i) => FileChangesV { deleted: true, ..m[i].1 },
        None => FileChangesV { added: Set::empty(), removed: Set::empty(), removed_new: Set::empty(), deleted: true },
    };
    crate::vcs::law_lookup_after_insert(m, k, v, other);
}

/// A patch that renames a file records its changed lines under both the
/// old and the new path (on top of what earlier patches recorded).
pub proof fn law_rename_tracks_both_paths(
    m: Seq<(Seq<char>, FileChangesV)>,
    orig: Seq<u8>,
    modn: Seq<u8>,
    hunks: Seq<HunkV>,
    n: Normalize,
)
    requires
        crate::vcs::distinct_keys(m),
        hunks.len() > 0,
        header_path(n, modn) != "/dev/null"@,
        header_path(n, orig) != "/dev/null"@,
        header_path(n, orig) != header_path(n, modn),
    ensures
        ({
            let r = patch_step(m, PatchV::Plain { orig, modn, hunks }, n);
            let ch = hunks_changes(hunks, hunks.len() as int);
            &&& crate::vcs::lookup(r, header_path(n, orig)) matches Some(c) && ch.added.subset_of(c.added)
                && ch.removed.subset_of(c.removed)
            &&& crate::vcs::lookup(r, header_path(n, modn)) matches Some(c) && ch.added.subset_of(c.added)
                && ch.removed.subset_of(c.removed)
        }),
{
    let oldp = header_path(n, orig);
    let newp = header_path(n, modn);
    let ch = hunks_changes(hunks, hunks.len() as int);
    let v1 = match crate::vcs::find_key(m, oldp) {
        Some(i) => crate::vcs::union_changes(m[i].1, ch),
        None => ch,
    };
    crate::vcs::law_lookup_after_insert(m, oldp, v1, newp);
    let m1 = crate::vcs::merged(m, oldp, ch);
    let v2 = match crate::vcs::find_key(m1, newp) {
        Some(i) => crate::vcs::union_changes(m1[i].1, ch),
        None => ch,
    };
    crate::vcs::law_lookup_after_insert(m1, newp, v2, oldp);
}


/// How many of the first `n` lines of a hunk are in the new file (inserted
/// or context lines).
pub open spec fn new_lines_before(ls: Seq<LineKind>, n: int) -> int
    decreases n,
{
    if n <= 0 {
        0
    } else {
        new_lines_before(ls, n - 1) + (if ls[n - 1] is Remove { 0int } else { 1int })
    }
}

/// How many of the first `n` lines of a hunk are in the old file (removed
/// or context lines).
pub open spec fn old_lines_before(ls: Seq<LineKind>, n: int) -> int
    decreases n,
{
    if n <= 0 {
        0
    } else {
        old_lines_before(ls, n - 1) + (if ls[n - 1] is Insert { 0int } else { 1int })
    }
}

proof fn lemma_lines_before_bounds(ls: Seq<LineKind>, n: int)
    ensures
        0 <= new_lines_before(ls, n) <= (if n < 0 { 0 } else { n }),
        0 <= old_lines_before(ls, n) <= (if n < 0 { 0 } else { n }),
    decreases n,
{
    if n > 0 {
        lemma_lines_before_bounds(ls, n - 1);
    }
}

/// Numbering inside a hunk that starts at old line `o0` and new line `w0`:
/// the line at index `k` of the hunk, if inserted, is new-file line `w0`
/// plus the number of new-file lines before it; if removed, it is old-file
/// line `o0` plus the number of old-file lines before it, and its new-file
/// position is that of the next new-file line. Nothing else is recorded, and
/// the walk ends past the last old and new lines of the hunk.
pub proof fn law_hunk_line_numbers(ls: Seq<LineKind>, o0: usize, w0: usize, n: int)
    requires
        0 <= n <= ls.len(),
        o0 + ls.len() < usize::MAX,
        w0 + ls.len() < usize::MAX,
    ensures
        walk(ls, o0, w0, n).0 == o0 + old_lines_before(ls, n),
        walk(ls, o0, w0, n).1 == w0 + new_lines_before(ls, n),
        forall|v: usize|
            #![trigger walk(ls, o0, w0, n).2.contains(v)]
            walk(ls, o0, w0, n).2.contains(v) <==> exists|k: int|
                0 <= k < n && ls[k] is Insert && v == w0 + #[trigger] new_lines_before(ls, k),
        forall|v: usize|
            #![trigger walk(ls, o0, w0, n).3.contains(v)]
            walk(ls, o0, w0, n).3.contains(v) <==> exists|k: int|
                0 <= k < n && ls[k] is Remove && v == o0 + #[trigger] old_lines_before(ls, k),
        forall|v: usize|
            #![trigger walk(ls, o0, w0, n).4.contains(v)]
            walk(ls, o0, w0, n).4.contains(v) <==> exists|k: int|
                0 <= k < n && ls[k] is Remove && v == w0 + #[trigger] new_lines_before(ls, k),
    decreases n,
{
    lemma_lines_before_bounds(ls, n);
    if n > 0 {
        law_hunk_line_numbers(ls, o0, w0, n - 1);
        lemma_lines_before_bounds(ls, n - 1);
        let (o, w, a, r, rn) = walk(ls, o0, w0, n - 1);
        let (o2, w2, a2, r2, rn2) = walk(ls, o0, w0, n);
        assert forall|v: usize| a2.contains(v) <==> exists|k: int|
            0 <= k < n && ls[k] is Insert && v == w0 + #[trigger] new_lines_before(ls, k) by {
            if a2.contains(v) && !a.contains(v) {
                assert(ls[n - 1] is Insert && v == w0 + new_lines_before(ls, n - 1));
            }
            if exists|k: int| 0 <= k < n && ls[k] is Insert && v == w0 + #[trigger] new_lines_before(ls, k) {
                let k = choose|k: int| 0 <= k < n && ls[k] is Insert && v == w0 + #[trigger] new_lines_before(ls, k);
                if k < n - 1 {
                    assert(a.contains(v));
                }
            }
        }
        assert forall|v: usize| r2.contains(v) <==> exists|k: int|
            0 <= k < n && ls[k] is Remove && v == o0 + #[trigger] old_lines_before(ls, k) by {
            if r2.contains(v) && !r.contains(v) {
                assert(ls[n - 1] is Remove && v == o0 + old_lines_before(ls, n - 1));
            }
            if exists|k: int| 0 <= k < n && ls[k] is Remove && v == o0 + #[trigger] old_lines_before(ls, k) {
                let k = choose|k: int| 0 <= k < n && ls[k] is Remove && v == o0 + #[trigger] old_lines_before(ls, k);
                if k < n - 1 {
                    assert(r.contains(v));
                }
            }
        }
        assert forall|v: usize| rn2.contains(v) <==> exists|k: int|
            0 <= k < n && ls[k] is Remove && v == w0 + #[trigger] new_lines_before(ls, k) by {
            if rn2.contains(v) && !rn.contains(v) {
                assert(ls[n - 1] is Remove && v == w0 + new_lines_before(ls, n - 1));
            }
            if exists|k: int| 0 <= k < n && ls[k] is Remove && v == w0 + #[trigger] new_lines_before(ls, k) {
                let k = choose|k: int| 0 <= k < n && ls[k] is Remove && v == w0 + #[trigger] new_lines_before(ls, k);
                if k < n - 1 {
                    assert(rn.contains(v));
                }
            }
        }
    }
}

} // verus!
