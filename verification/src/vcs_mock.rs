//! An in-memory backend for tests and benchmarks. It stores raw bytes and
//! classifies them on read with the same probe as the real backends.
use vstd::prelude::*;
use crate::diagnostic::{chars_lt, text_lt};
use crate::text::chars_of;
use crate::check::ReadV;
use vstd::string::StringSliceAdditionalSpecFns;
use crate::vcs::{
    classify_bytes, content_of, content_view, lookup, resolution_for, resolve_path_for,
    result_view, strings_view, ChangeMap, FileContent, VcsProvider,
};

verus! {

/// Whether `n` occurs in `h` (the empty sequence occurs everywhere).
pub open spec fn bytes_contain(h: Seq<u8>, n: Seq<u8>) -> bool {
    exists|i: int| 0 <= i && i + n.len() <= h.len() && #[trigger] h.subrange(i, i + n.len()) == n
}

pub open spec fn file_entry_view(e: (String, Vec<u8>)) -> (Seq<char>, Seq<u8>) {
    (e.0@, e.1@)
}

/// Whether the `i`-th stored file is the latest one stored under its path.
pub open spec fn latest(s: Seq<(Seq<char>, Seq<u8>)>, i: int) -> bool {
    forall|j: int| i < j < s.len() ==> s[j].0 != s[i].0
}

/// Files by path (the latest stored under a path wins), a diff, a
/// suppression reason, files to validate and a path mode.
pub struct MockVcsProvider {
    files: Vec<(String, Vec<u8>)>,
    diff: ChangeMap,
    suppression: Option<String>,
    validate_files: Vec<String>,
    strict: bool,
}

impl MockVcsProvider {
    /// The stored files, in the order they were stored.
    pub closed spec fn files_view(&self) -> Seq<(Seq<char>, Seq<u8>)> {
        self.files@.map_values(|e: (String, Vec<u8>)| file_entry_view(e))
    }

    pub closed spec fn diff_view(&self) -> Seq<(Seq<char>, crate::vcs::FileChangesV)> {
        self.diff@
    }

    pub closed spec fn suppression_view(&self) -> Option<Seq<char>> {
        crate::directive::opt_view(self.suppression)
    }

    pub closed spec fn validate_view(&self) -> Seq<Seq<char>> {
        strings_view(self.validate_files@)
    }

    pub closed spec fn strict_view(&self) -> bool {
        self.strict
    }

    /// No files, an empty diff, no suppression, nothing to validate, strict.
    pub fn new() -> (r: MockVcsProvider)
        ensures
            r.files_view().len() == 0,
            r.diff_view().len() == 0,
            r.suppression_view() is None,
            r.validate_view().len() == 0,
            r.strict_view(),
    {
        let r = MockVcsProvider {
            files: Vec::new(),
            diff: ChangeMap::new(),
            suppression: None,
            validate_files: Vec::new(),
            strict: true,
        };
        assert(r.validate_view() =~= Seq::<Seq<char>>::empty());
        r
    }

    pub fn add_file(&mut self, rel_path: &str, content: &str)
        ensures
            final(self).files_view() == old(self).files_view().push((rel_path@, content.spec_bytes())),
            final(self).diff_view() == old(self).diff_view(),
            final(self).suppression_view() == old(self).suppression_view(),
            final(self).validate_view() == old(self).validate_view(),
            final(self).strict_view() == old(self).strict_view(),
    {
        self.add_file_bytes(rel_path, content.as_bytes());
    }

    pub fn add_file_bytes(&mut self, rel_path: &str, content: &[u8])
        ensures
            final(self).files_view() == old(self).files_view().push((rel_path@, content@)),
            final(self).diff_view() == old(self).diff_view(),
            final(self).suppression_view() == old(self).suppression_view(),
            final(self).validate_view() == old(self).validate_view(),
            final(self).strict_view() == old(self).strict_view(),
    {
        let mut bytes: Vec<u8> = Vec::new();
        let mut i: usize = 0;
        while i < content.len()
            invariant
                i <= content@.len(),
                bytes@ == content@.subrange(0, i as int),
            decreases content.len() - i,
        {
            bytes.push(content[i]);
            i = i + 1;
            assert(bytes@ =~= content@.subrange(0, i as int));
        }
        assert(content@.subrange(0, content@.len() as int) =~= content@);
        let ghost f0 = self.files_view();
        self.files.push((rel_path.to_owned(), bytes));
        assert(self.files_view() =~= f0.push((rel_path@, content@)));
    }

    pub fn set_diff(&mut self, diff: ChangeMap)
        ensures
            final(self).diff_view() == diff@,
            final(self).files_view() == old(self).files_view(),
            final(self).suppression_view() == old(self).suppression_view(),
            final(self).validate_view() == old(self).validate_view(),
            final(self).strict_view() == old(self).strict_view(),
    {
        self.diff = diff;
    }

    pub fn set_suppression(&mut self, reason: &str)
        ensures
            final(self).suppression_view() == Some(reason@),
            final(self).files_view() == old(self).files_view(),
            final(self).diff_view() == old(self).diff_view(),
            final(self).validate_view() == old(self).validate_view(),
            final(self).strict_view() == old(self).strict_view(),
    {
        self.suppression = Some(reason.to_owned());
    }

    pub fn set_validate_files(&mut self, paths: &[&str])
        ensures
            final(self).validate_view() == paths@.map_values(|p: &str| p@),
            final(self).files_view() == old(self).files_view(),
            final(self).diff_view() == old(self).diff_view(),
            final(self).suppression_view() == old(self).suppression_view(),
            final(self).strict_view() == old(self).strict_view(),
    {
        let mut v: Vec<String> = Vec::new();
        let mut i: usize = 0;
        while i < paths.len()
            invariant
                i <= paths@.len(),
                strings_view(v@) == paths@.map_values(|p: &str| p@).subrange(0, i as int),
            decreases paths.len() - i,
        {
            let ghost v0 = strings_view(v@);
            v.push(paths[i].to_owned());
            assert(strings_view(v@) =~= paths@.map_values(|p: &str| p@).subrange(0, i + 1)) by {
                assert(strings_view(v@) =~= v0.push(paths@[i as int]@));
            }
            i = i + 1;
        }
        assert(paths@.map_values(|p: &str| p@).subrange(0, paths@.len() as int) =~= paths@.map_values(|p: &str| p@));
        self.validate_files = v;
    }

    pub fn set_strict(&mut self, enabled: bool)
        ensures
            final(self).strict_view() == enabled,
            final(self).files_view() == old(self).files_view(),
            final(self).diff_view() == old(self).diff_view(),
            final(self).suppression_view() == old(self).suppression_view(),
            final(self).validate_view() == old(self).validate_view(),
    {
        self.strict = enabled;
    }

    /// The index of the latest file stored under `k`.
    fn find_file(&self, k: &str) -> (r: Option<usize>)
        ensures
            (match lookup(self.files_view(), k@) {
                Some(b) => r matches Some(i) && i < self.files_view().len() && self.files_view()[i as int] == (k@, b),
                None => r is None,
            }),
    {
        let ghost fv = self.files_view();
        let mut i: usize = self.files.len();
        assert(fv.subrange(0, fv.len() as int) =~= fv);
        while i > 0
            invariant
                i <= fv.len(),
                fv == self.files_view(),
                lookup(fv, k@) == lookup(fv.subrange(0, i as int), k@),
            decreases i,
        {
            let ghost pre = fv.subrange(0, i as int);
            assert(pre.drop_last() =~= fv.subrange(0, i - 1));
            assert(pre.last() == fv[i - 1]);
            if crate::vcs::str_eq(self.files[i - 1].0.as_str(), k) {
                return Some(i - 1);
            }
            i = i - 1;
        }
        assert(fv.subrange(0, 0) =~= Seq::<(Seq<char>, Seq<u8>)>::empty());
        None
    }
}

impl Default for MockVcsProvider {
    fn default() -> (r: MockVcsProvider)
        ensures
            r.files_view().len() == 0,
            r.diff_view().len() == 0,
            r.suppression_view() is None,
            r.validate_view().len() == 0,
            r.strict_view(),
    {
        MockVcsProvider::new()
    }
}

fn bytes_contain_exec(h: &Vec<u8>, n: &[u8]) -> (r: bool)
    ensures
        r == bytes_contain(h@, n@),
{
    if n.len() > h.len() {
        return false;
    }
    let mut i: usize = 0;
    while i <= h.len() - n.len()
        invariant
            n@.len() <= h@.len(),
            i <= h@.len() - n@.len() + 1,
            forall|k: int| 0 <= k < i ==> #[trigger] h@.subrange(k, k + n@.len()) != n@,
        decreases h.len() - n.len() + 1 - i,
    {
        let mut k: usize = 0;
        let mut same = true;
        let hl = h.len();
        while k < n.len()
            invariant
                k <= n@.len(),
                hl == h@.len(),
                i + n@.len() <= hl,
                same == (forall|j: int| 0 <= j < k ==> h@[i + j] == n@[j]),
            decreases n.len() - k,
        {
            let hk: usize = i + k;
            if h[hk] != n[k] {
                same = false;
            }
            k = k + 1;
        }
        if same {
            assert(h@.subrange(i as int, i + n@.len()) =~= n@);
            return true;
        }
        proof {
            if h@.subrange(i as int, i + n@.len()) == n@ {
                assert forall|j: int| 0 <= j < n@.len() implies h@[i + j] == n@[j] by {
                    assert(h@.subrange(i as int, i + n@.len())[j] == h@[i + j]);
                }
            }
        }
        i = i + 1;
    }
    proof {
        if bytes_contain(h@, n@) {
            let w = choose|w: int| 0 <= w && w + n@.len() <= h@.len() && #[trigger] h@.subrange(w, w + n@.len()) == n@;
            assert(w < i);
        }
    }
    false
}

pub open spec fn strings_sorted(s: Seq<Seq<char>>) -> bool {
    forall|i: int, j: int| 0 <= i < j < s.len() ==> !text_lt(s[j], s[i])
}

fn sorts_before(xc: &Vec<char>, v: &Vec<String>, pos: usize) -> (r: bool)
    requires
        0 < pos <= v@.len(),
    ensures
        r == text_lt(xc@, v@[pos - 1]@),
{
    let vc = chars_of(v[pos - 1].as_str());
    chars_lt(xc.as_slice(), vc.as_slice())
}

/// Inserts `x` into a list sorted by `text_lt`, after the entries that do
/// not sort after it.
fn insert_sorted(v: &mut Vec<String>, x: String)
    requires
        strings_sorted(strings_view(old(v)@)),
    ensures
        strings_sorted(strings_view(final(v)@)),
        strings_view(final(v)@).to_set() == strings_view(old(v)@).to_set().insert(x@),
{
    let ghost s0 = strings_view(v@);
    let xc = chars_of(x.as_str());
    let mut pos: usize = v.len();
    while pos > 0 && sorts_before(&xc, v, pos)
        invariant
            pos <= v@.len(),
            s0 == strings_view(v@),
            xc@ == x@,
            forall|k: int| pos <= k < s0.len() ==> text_lt(x@, #[trigger] s0[k]),
        decreases pos,
    {
        pos = pos - 1;
    }
    proof {
        assert forall|k: int| 0 <= k < pos implies !text_lt(x@, #[trigger] s0[k]) by {
            assert(!text_lt(x@, s0[pos - 1]));
            if k < pos - 1 {
                assert(!text_lt(s0[pos - 1], s0[k]));
                crate::diagnostic::lemma_text_lt_total(x@, s0[k]);
                crate::diagnostic::lemma_text_lt_total(x@, s0[pos - 1]);
                crate::diagnostic::lemma_text_lt_total(s0[k], s0[pos - 1]);
                if text_lt(x@, s0[k]) {
                    if text_lt(s0[k], s0[pos - 1]) {
                        crate::diagnostic::lemma_text_lt_trans(x@, s0[k], s0[pos - 1]);
                    } else if s0[k] == s0[pos - 1] {
                    } else {
                    }
                }
            }
        }
    }
    let ghost xv = x@;
    v.insert(pos, x);
    proof {
        let n = strings_view(v@);
        assert(n =~= s0.insert(pos as int, xv));
        s0.insert_ensures(pos as int, xv);
        assert forall|i: int, j: int| 0 <= i < j < n.len() implies !text_lt(n[j], n[i]) by {
            if j < pos {
                assert(n[i] == s0[i] && n[j] == s0[j]);
            } else if j == pos {
                assert(n[i] == s0[i]);
            } else if i < pos {
                assert(n[i] == s0[i] && n[j] == s0[j - 1]);
                crate::diagnostic::lemma_text_lt_total(s0[j - 1], s0[i]);
                crate::diagnostic::lemma_text_lt_total(xv, s0[i]);
                if text_lt(s0[j - 1], s0[i]) {
                    assert(text_lt(xv, s0[j - 1]));
                    crate::diagnostic::lemma_text_lt_trans(xv, s0[j - 1], s0[i]);
                }
            } else if i == pos {
                assert(n[j] == s0[j - 1]);
                crate::diagnostic::lemma_text_lt_total(xv, s0[j - 1]);
            } else {
                assert(n[i] == s0[i - 1] && n[j] == s0[j - 1]);
            }
        }
        assert forall|y: Seq<char>| n.to_set().contains(y) <==> s0.to_set().insert(xv).contains(y) by {
            if n.to_set().contains(y) {
                let k = choose|k: int| 0 <= k < n.len() && n[k] == y;
                if k < pos {
                    assert(s0[k] == y);
                    assert(s0.contains(y));
                } else if k > pos {
                    assert(s0[k - 1] == y);
                    assert(s0.contains(y));
                }
            }
            if s0.to_set().insert(xv).contains(y) {
                if y == xv {
                    assert(n[pos as int] == y);
                    assert(n.contains(y));
                } else {
                    assert(s0.contains(y));
                    let k = choose|k: int| 0 <= k < s0.len() && s0[k] == y;
                    if k < pos {
                        assert(n[k] == y);
                    } else {
                        assert(n[k + 1] == y);
                    }
                    assert(n.contains(y));
                }
            }
        }
        assert(n.to_set() =~= s0.to_set().insert(xv));
    }
}

/// The paths whose latest content holds `query`.
pub open spec fn matching_paths(files: Seq<(Seq<char>, Seq<u8>)>, query: Seq<u8>) -> Set<Seq<char>> {
    Set::new(
        |p: Seq<char>|
            exists|i: int| 0 <= i < files.len() && latest(files, i) && #[trigger] files[i].0 == p && bytes_contain(files[i].1, query),
    )
}

impl VcsProvider for MockVcsProvider {
    /// The latest stored bytes under `path`, classified: missing when none
    /// is stored, a failure when they are not UTF-8 past the probe.
    open spec fn read_answers(&self, path: Seq<char>, r: ReadV) -> bool {
        match lookup(self.files_view(), path) {
            None => r == ReadV::Missing,
            Some(b) => match content_of(b) {
                Some(Some(t)) => r == ReadV::Text(t),
                Some(None) => r == ReadV::Binary,
                None => r is Failed,
            },
        }
    }

    /// Whether a file is stored under `path`.
    open spec fn exists_answers(&self, path: Seq<char>, r: Result<bool, Seq<char>>) -> bool {
        r == Ok::<bool, Seq<char>>(lookup(self.files_view(), path) is Some)
    }

    /// The stored paths whose latest content holds `query`, sorted.
    open spec fn search_answers(&self, query: Seq<char>, r: Result<Seq<Seq<char>>, Seq<char>>) -> bool {
        r matches Ok(v) && strings_sorted(v) && v.to_set() == matching_paths(
            self.files_view(),
            vstd::utf8::encode_utf8(query),
        )
    }

    open spec fn listed_answers(&self, files: Seq<Seq<char>>) -> bool {
        files == self.validate_view()
    }

    open spec fn strict_answers(&self, strict: bool) -> bool {
        strict == self.strict_view()
    }

    fn diff(&self) -> (r: Result<ChangeMap, String>)
        ensures
            r matches Ok(c) && c@ == self.diff_view(),
    {
        Ok(self.diff.duplicate())
    }

    fn suppressions(&self) -> (r: Result<Option<String>, String>)
        ensures
            r matches Ok(s) && crate::directive::opt_view(s) == self.suppression_view(),
    {
        Ok(crate::diagnostic::copy_opt_string(&self.suppression))
    }

    /// The latest file stored under `rel_path`, classified by its bytes.
    fn read_file(&self, rel_path: &str) -> (r: Result<Option<FileContent>, String>)
        ensures
            (match lookup(self.files_view(), rel_path@) {
                None => r matches Ok(None),
                Some(b) => match content_of(b) {
                    Some(c) => r matches Ok(Some(x)) && content_view(x) == c,
                    None => r is Err,
                },
            }),
    {
        match self.find_file(rel_path) {
            None => Ok(None),
            Some(i) => match classify_bytes(rel_path, self.files[i].1.as_slice()) {
                Ok(c) => Ok(Some(c)),
                Err(e) => Err(e),
            },
        }
    }

    fn file_exists(&self, rel_path: &str) -> (r: Result<bool, String>)
        ensures
            r matches Ok(b) && b == (lookup(self.files_view(), rel_path@) is Some),
    {
        Ok(self.find_file(rel_path).is_some())
    }

    /// The stored paths whose content holds `query`, sorted.
    fn search_files(&self, query: &str) -> (r: Result<Vec<String>, String>)
        ensures
            r matches Ok(v) && strings_sorted(strings_view(v@)) && strings_view(v@).to_set() == matching_paths(
                self.files_view(),
                query.spec_bytes(),
            ),
    {
        let q = query.as_bytes();
        let ghost fv = self.files_view();
        let mut out: Vec<String> = Vec::new();
        let mut i: usize = 0;
        while i < self.files.len()
            invariant
                i <= fv.len(),
                fv == self.files_view(),
                q@ == query.spec_bytes(),
                strings_sorted(strings_view(out@)),
                strings_view(out@).to_set() == Set::new(
                    |p: Seq<char>|
                        exists|k: int| 0 <= k < i && latest(fv, k) && #[trigger] fv[k].0 == p && bytes_contain(fv[k].1, q@),
                ),
            decreases self.files.len() - i,
        {
            let ghost before = strings_view(out@).to_set();
            let mut is_latest = true;
            let mut j: usize = i + 1;
            while j < self.files.len()
                invariant
                    i < j <= fv.len(),
                    fv == self.files_view(),
                    is_latest == (forall|m: int| i < m < j ==> fv[m].0 != fv[i as int].0),
                decreases self.files.len() - j,
            {
                assert(fv[j as int] == file_entry_view(self.files@[j as int]));
                assert(fv[i as int] == file_entry_view(self.files@[i as int]));
                if crate::vcs::str_eq(self.files[j].0.as_str(), self.files[i].0.as_str()) {
                    is_latest = false;
                }
                j = j + 1;
            }
            assert(is_latest == latest(fv, i as int));
            assert(fv[i as int] == file_entry_view(self.files@[i as int]));
            let hit = is_latest && bytes_contain_exec(&self.files[i].1, q);
            let ghost key = fv[i as int].0;
            if hit {
                insert_sorted(&mut out, self.files[i].0.clone());
            }
            proof {
                let next = Set::new(
                    |p: Seq<char>|
                        exists|k: int| 0 <= k < i + 1 && latest(fv, k) && #[trigger] fv[k].0 == p && bytes_contain(fv[k].1, q@),
                );
                assert forall|p: Seq<char>| next.contains(p) <==> (before.contains(p) || (hit && p == key)) by {
                    if next.contains(p) {
                        let k = choose|k: int| 0 <= k < i + 1 && latest(fv, k) && #[trigger] fv[k].0 == p && bytes_contain(fv[k].1, q@);
                        if k < i {
                            assert(before.contains(p));
                        } else {
                            assert(k == i);
                        }
                    }
                    if before.contains(p) {
                        let k = choose|k: int| 0 <= k < i && latest(fv, k) && #[trigger] fv[k].0 == p && bytes_contain(fv[k].1, q@);
                        assert(next.contains(p));
                    }
                    if hit && p == key {
                        assert(fv[i as int].0 == p);
                        assert(next.contains(p));
                    }
                }
                if hit {
                    assert(strings_view(out@).to_set() =~= before.insert(key));
                }
                assert(strings_view(out@).to_set() =~= next);
            }
            i = i + 1;
        }
        proof {
            assert(strings_view(out@).to_set() =~= matching_paths(fv, query.spec_bytes()));
        }
        Ok(out)
    }

    fn try_resolve_path(&self, raw: &str) -> (r: Result<String, String>)
        ensures
            result_view(r) == resolution_for(self.strict_view(), raw@),
    {
        resolve_path_for(self.strict, raw)
    }

    fn validate_files(&self) -> (r: &Vec<String>)
        ensures
            strings_view(r@) == self.validate_view(),
    {
        &self.validate_files
    }

    fn is_strict(&self) -> (r: bool)
        ensures
            r == self.strict_view(),
    {
        self.strict
    }
}


// ─── Laws ───

/// After a file is stored, a read of its path finds exactly what was
/// stored; reads of other paths are unchanged.
pub proof fn law_read_after_store(files: Seq<(Seq<char>, Seq<u8>)>, path: Seq<char>, bytes: Seq<u8>, other: Seq<char>)
    ensures
        lookup(files.push((path, bytes)), path) == Some(bytes),
        other != path ==> lookup(files.push((path, bytes)), other) == lookup(files, other),
{
    assert(files.push((path, bytes)).drop_last() =~= files);
}

} // verus!
