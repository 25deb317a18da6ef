//! Changes from a diff, file contents, target path resolution, and the
//! interface to a version-control backend.
use vstd::prelude::*;
use crate::ext::string_of;
use crate::msg::push_str;
use crate::text::{chars_of, has_prefix, starts_with};
use crate::check::{read_view, ReadV};

verus! {

// ─── Changed lines of one file ───

/// Line numbers are 1-based.
#[derive(Debug, Clone)]
pub struct FileChanges {
    /// New-file line numbers.
    pub added_lines: Vec<usize>,
    /// Old-file line numbers.
    pub removed_lines: Vec<usize>,
    /// New-file positions of removals (consecutive removals collapse to one
    /// position); compare these, not `removed_lines`, with new-file ranges.
    pub removed_new_positions: Vec<usize>,
    /// The new path was /dev/null — no line data is populated.
    pub deleted: bool,
}

pub struct FileChangesV {
    pub added: Set<usize>,
    pub removed: Set<usize>,
    pub removed_new: Set<usize>,
    pub deleted: bool,
}

impl View for FileChanges {
    type V = FileChangesV;

    open spec fn view(&self) -> FileChangesV {
        FileChangesV {
            added: self.added_lines@.to_set(),
            removed: self.removed_lines@.to_set(),
            removed_new: self.removed_new_positions@.to_set(),
            deleted: self.deleted,
        }
    }
}

impl FileChanges {
    /// No changed lines, not deleted.
    pub fn empty() -> (r: FileChanges)
        ensures
            r.added_lines@.len() == 0,
            r.removed_lines@.len() == 0,
            r.removed_new_positions@.len() == 0,
            !r.deleted,
    {
        FileChanges {
            added_lines: Vec::new(),
            removed_lines: Vec::new(),
            removed_new_positions: Vec::new(),
            deleted: false,
        }
    }

    /// A marker for a deleted file (no line data).
    pub fn deleted() -> (r: FileChanges)
        ensures
            r.added_lines@.len() == 0,
            r.removed_lines@.len() == 0,
            r.removed_new_positions@.len() == 0,
            r.deleted,
    {
        FileChanges {
            added_lines: Vec::new(),
            removed_lines: Vec::new(),
            removed_new_positions: Vec::new(),
            deleted: true,
        }
    }
}

impl Default for FileChanges {
    fn default() -> (r: FileChanges)
        ensures
            r.added_lines@.len() == 0,
            r.removed_lines@.len() == 0,
            r.removed_new_positions@.len() == 0,
            !r.deleted,
    {
        FileChanges::empty()
    }
}

// ─── Changes of all files ───

/// Whether no two entries share a key.
pub open spec fn distinct_keys<V>(s: Seq<(Seq<char>, V)>) -> bool {
    forall|i: int, j: int| 0 <= i < j < s.len() ==> s[i].0 != s[j].0
}

/// The value stored under `k`, if any.
pub open spec fn lookup<V>(s: Seq<(Seq<char>, V)>, k: Seq<char>) -> Option<V>
    decreases s.len(),
{
    if s.len() == 0 {
        None
    } else if s.last().0 == k {
        Some(s.last().1)
    } else {
        lookup(s.drop_last(), k)
    }
}

/// Per-file changes, keyed by root-relative path, in insertion order.
#[derive(Debug)]
pub struct ChangeMap {
    entries: Vec<(String, FileChanges)>,
}

pub open spec fn entry_view(e: (String, FileChanges)) -> (Seq<char>, FileChangesV) {
    (e.0@, e.1@)
}

impl ChangeMap {
    #[verifier::type_invariant]
    spec fn inv(&self) -> bool {
        distinct_keys(self.entries@.map_values(|e: (String, FileChanges)| entry_view(e)))
    }

    /// The entries, in order.
    pub closed spec fn entries_view(&self) -> Seq<(Seq<char>, FileChangesV)> {
        self.entries@.map_values(|e: (String, FileChanges)| entry_view(e))
    }

    pub fn new() -> (r: ChangeMap)
        ensures
            r@ == Seq::<(Seq<char>, FileChangesV)>::empty(),
    {
        let r = ChangeMap { entries: Vec::new() };
        assert(r.entries_view() =~= Seq::<(Seq<char>, FileChangesV)>::empty());
        r
    }

    pub fn len(&self) -> (r: usize)
        ensures
            r == self@.len(),
    {
        self.entries.len()
    }

    pub fn is_empty(&self) -> (r: bool)
        ensures
            r == (self@.len() == 0),
    {
        self.entries.len() == 0
    }

    pub fn key_at(&self, i: usize) -> (r: &String)
        requires
            i < self@.len(),
        ensures
            r@ == self@[i as int].0,
    {
        &self.entries[i].0
    }

    pub fn value_at(&self, i: usize) -> (r: &FileChanges)
        requires
            i < self@.len(),
        ensures
            r@ == self@[i as int].1,
    {
        &self.entries[i].1
    }

    /// Index of the entry with key `k`.
    pub fn position(&self, k: &str) -> (r: Option<usize>)
        ensures
            r matches Some(i) ==> i < self@.len() && self@[i as int].0 == k@,
            r is None ==> forall|i: int| 0 <= i < self@.len() ==> self@[i].0 != k@,
    {
        let mut i: usize = 0;
        while i < self.entries.len()
            invariant
                i <= self@.len(),
                self@.len() == self.entries@.len(),
                forall|j: int| 0 <= j < i ==> self@[j].0 != k@,
            decreases self.entries.len() - i,
        {
            if str_eq(self.entries[i].0.as_str(), k) {
                return Some(i);
            }
            i = i + 1;
        }
        None
    }

    pub fn get(&self, k: &str) -> (r: Option<&FileChanges>)
        ensures
            r matches Some(v) ==> lookup(self@, k@) == Some(v@),
            r is None ==> lookup(self@, k@) is None,
    {
        proof {
            use_type_invariant(self);
        }
        match self.position(k) {
            Some(i) => {
                proof {
                    lemma_lookup_at(self@, i as int);
                }
                Some(&self.entries[i].1)
            },
            None => {
                proof {
                    lemma_lookup_absent(self@, k@);
                }
                None
            },
        }
    }

    pub fn contains_key(&self, k: &str) -> (r: bool)
        ensures
            r == (lookup(self@, k@) is Some),
    {
        self.get(k).is_some()
    }

    /// Sets the changes of `k`, replacing any earlier value in place.
    pub fn insert(&mut self, k: String, v: FileChanges)
        ensures
            final(self)@ == (match find_key(old(self)@, k@) {
                Some(i) => old(self)@.update(i, (k@, v@)),
                None => old(self)@.push((k@, v@)),
            }),
    {
        proof {
            use_type_invariant(&*self);
        }
        let ghost old_v = self@;
        let pos = self.position(k.as_str());
        let ghost kv = (k@, v@);
        let mut es: Vec<(String, FileChanges)> = Vec::new();
        std::mem::swap(&mut es, &mut self.entries);
        match pos {
            Some(i) => {
                proof {
                    lemma_find_key_at(old_v, i as int);
                }
                es.set(i, (k, v));
                let ghost nv = es@.map_values(|e: (String, FileChanges)| entry_view(e));
                assert(nv =~= old_v.update(i as int, kv));
                assert(distinct_keys(nv)) by {
                    assert forall|a: int, b: int| 0 <= a < b < nv.len() implies nv[a].0 != nv[b].0 by {
                        if a != i && b != i {
                            assert(old_v[a].0 != old_v[b].0);
                        } else if a == i {
                            assert(old_v[i as int].0 != old_v[b].0);
                        } else {
                            assert(old_v[a].0 != old_v[i as int].0);
                        }
                    }
                }
            },
            None => {
                proof {
                    lemma_find_key_absent(old_v, k@);
                }
                es.push((k, v));
                let ghost nv = es@.map_values(|e: (String, FileChanges)| entry_view(e));
                assert(nv =~= old_v.push(kv));
                assert(distinct_keys(nv)) by {
                    assert forall|a: int, b: int| 0 <= a < b < nv.len() implies nv[a].0 != nv[b].0 by {
                        if b < old_v.len() {
                            assert(old_v[a].0 != old_v[b].0);
                        } else {
                            assert(nv[a] == old_v[a]);
                        }
                    }
                }
            },
        }
        self.entries = es;
    }

    /// Removes the entry of `k`, if any, keeping the order of the others.
    pub fn remove(&mut self, k: &str)
        ensures
            final(self)@ == (match find_key(old(self)@, k@) {
                Some(i) => old(self)@.remove(i),
                None => old(self)@,
            }),
    {
        proof {
            use_type_invariant(&*self);
        }
        let ghost old_v = self@;
        match self.position(k) {
            Some(i) => {
                proof {
                    lemma_find_key_at(old_v, i as int);
                }
                let mut es: Vec<(String, FileChanges)> = Vec::new();
                std::mem::swap(&mut es, &mut self.entries);
                es.remove(i);
                let ghost nv = es@.map_values(|e: (String, FileChanges)| entry_view(e));
                assert(nv =~= old_v.remove(i as int));
                assert(distinct_keys(nv)) by {
                    assert forall|a: int, b: int| 0 <= a < b < nv.len() implies nv[a].0 != nv[b].0 by {
                        if b < i {
                            assert(old_v[a].0 != old_v[b].0);
                        } else if a < i {
                            assert(old_v[a].0 != old_v[b + 1].0);
                        } else {
                            assert(old_v[a + 1].0 != old_v[b + 1].0);
                        }
                    }
                }
                self.entries = es;
            },
            None => {
                proof {
                    lemma_find_key_absent(old_v, k@);
                }
            },
        }
    }

    /// Adds the lines of `c` to those of `k` (its deleted flag stays), or
    /// adds `k` with `c`.
    pub fn merge(&mut self, k: String, c: FileChanges)
        ensures
            final(self)@ == merged(old(self)@, k@, c@),
    {
        proof {
            use_type_invariant(&*self);
        }
        let ghost old_v = self@;
        match self.position(k.as_str()) {
            Some(i) => {
                proof {
                    lemma_find_key_at(old_v, i as int);
                }
                let mut fc = self.entries[i].1.clone_changes();
                append_usizes(&mut fc.added_lines, &c.added_lines);
                append_usizes(&mut fc.removed_lines, &c.removed_lines);
                append_usizes(&mut fc.removed_new_positions, &c.removed_new_positions);
                proof {
                    lemma_to_set_concat(self.entries@[i as int].1.added_lines@, c.added_lines@);
                    lemma_to_set_concat(self.entries@[i as int].1.removed_lines@, c.removed_lines@);
                    lemma_to_set_concat(self.entries@[i as int].1.removed_new_positions@, c.removed_new_positions@);
                }
                assert(fc@ == union_changes(old_v[i as int].1, c@));
                self.insert(k, fc);
            },
            None => {
                proof {
                    lemma_find_key_absent(old_v, k@);
                }
                self.insert(k, c);
            },
        }
    }

    /// Marks `k` deleted, keeping its lines, or adds `k` as a deleted file.
    pub fn mark_deleted(&mut self, k: String)
        ensures
            final(self)@ == marked_deleted(old(self)@, k@),
    {
        proof {
            use_type_invariant(&*self);
        }
        let ghost old_v = self@;
        match self.position(k.as_str()) {
            Some(i) => {
                proof {
                    lemma_find_key_at(old_v, i as int);
                }
                let mut fc = self.entries[i].1.clone_changes();
                fc.deleted = true;
                self.insert(k, fc);
            },
            None => {
                proof {
                    lemma_find_key_absent(old_v, k@);
                }
                let d = FileChanges::deleted();
                assert(d@.added =~= Set::<usize>::empty());
                assert(d@.removed =~= Set::<usize>::empty());
                assert(d@.removed_new =~= Set::<usize>::empty());
                self.insert(k, d);
            },
        }
    }

    /// A copy with the same entries.
    pub fn duplicate(&self) -> (r: ChangeMap)
        ensures
            r@ == self@,
    {
        proof {
            use_type_invariant(self);
        }
        let mut es: Vec<(String, FileChanges)> = Vec::new();
        let mut i: usize = 0;
        while i < self.entries.len()
            invariant
                i <= self.entries@.len(),
                distinct_keys(self@),
                es@.map_values(|e: (String, FileChanges)| entry_view(e)) == self@.subrange(0, i as int),
            decreases self.entries.len() - i,
        {
            let ghost e0 = es@.map_values(|e: (String, FileChanges)| entry_view(e));
            es.push((self.entries[i].0.clone(), self.entries[i].1.clone_changes()));
            assert(es@.map_values(|e: (String, FileChanges)| entry_view(e)) =~= self@.subrange(0, i + 1)) by {
                assert(es@.map_values(|e: (String, FileChanges)| entry_view(e)) =~= e0.push(self@[i as int]));
            }
            i = i + 1;
        }
        assert(self@.subrange(0, self@.len() as int) =~= self@);
        ChangeMap { entries: es }
    }

    /// Keeps only the deleted-file markers (the changes left when findings
    /// on changed lines are suppressed).
    pub fn retain_deleted(&mut self)
        ensures
            final(self)@ == deleted_only(old(self)@),
    {
        proof {
            use_type_invariant(&*self);
        }
        let ghost old_v = self@;
        let mut kept: Vec<(String, FileChanges)> = Vec::new();
        let mut i: usize = 0;
        while i < self.entries.len()
            invariant
                i <= old_v.len(),
                old_v == self@,
                self.entries@.len() == old_v.len(),
                kept@.map_values(|e: (String, FileChanges)| entry_view(e)) == deleted_only(
                    old_v.subrange(0, i as int),
                ),
            decreases self.entries.len() - i,
        {
            let ghost kv0 = kept@.map_values(|e: (String, FileChanges)| entry_view(e));
            proof {
                reveal(Seq::filter);
                let s1 = old_v.subrange(0, i + 1);
                assert(s1.drop_last() =~= old_v.subrange(0, i as int));
                assert(s1.last() == old_v[i as int]);
                assert(old_v[i as int] == entry_view(self.entries@[i as int]));
            }
            if self.entries[i].1.deleted {
                let e = (self.entries[i].0.clone(), self.entries[i].1.clone_changes());
                kept.push(e);
                assert(kept@.map_values(|e: (String, FileChanges)| entry_view(e)) =~= kv0.push(old_v[i as int]));
            } else {
                assert(kept@.map_values(|e: (String, FileChanges)| entry_view(e)) =~= kv0);
            }
            i = i + 1;
        }
        assert(old_v.subrange(0, old_v.len() as int) =~= old_v);
        proof {
            lemma_filter_distinct(old_v, |e: (Seq<char>, FileChangesV)| e.1.deleted);
        }
        self.entries = kept;
    }
}

/// The entries of deleted files, in order.
pub open spec fn deleted_only(s: Seq<(Seq<char>, FileChangesV)>) -> Seq<(Seq<char>, FileChangesV)> {
    s.filter(|e: (Seq<char>, FileChangesV)| e.1.deleted)
}

impl View for ChangeMap {
    type V = Seq<(Seq<char>, FileChangesV)>;

    open spec fn view(&self) -> Seq<(Seq<char>, FileChangesV)> {
        self.entries_view()
    }
}

impl FileChanges {
    /// A copy with the same lines and flag.
    pub fn clone_changes(&self) -> (r: FileChanges)
        ensures
            r@ == self@,
            r.added_lines@ == self.added_lines@,
            r.removed_lines@ == self.removed_lines@,
            r.removed_new_positions@ == self.removed_new_positions@,
    {
        FileChanges {
            added_lines: copy_usizes(&self.added_lines),
            removed_lines: copy_usizes(&self.removed_lines),
            removed_new_positions: copy_usizes(&self.removed_new_positions),
            deleted: self.deleted,
        }
    }
}

/// The lines of both.
pub open spec fn union_changes(a: FileChangesV, b: FileChangesV) -> FileChangesV {
    FileChangesV {
        added: a.added + b.added,
        removed: a.removed + b.removed,
        removed_new: a.removed_new + b.removed_new,
        deleted: a.deleted,
    }
}

/// `m` with the lines of `c` added to those of `k`, or with `k` added.
pub open spec fn merged(m: Seq<(Seq<char>, FileChangesV)>, k: Seq<char>, c: FileChangesV) -> Seq<(Seq<char>, FileChangesV)> {
    match find_key(m, k) {
        Some(i) => m.update(i, (k, union_changes(m[i].1, c))),
        None => m.push((k, c)),
    }
}

/// `m` with `k` marked deleted, or with `k` added as a deleted file.
pub open spec fn marked_deleted(m: Seq<(Seq<char>, FileChangesV)>, k: Seq<char>) -> Seq<(Seq<char>, FileChangesV)> {
    match find_key(m, k) {
        Some(i) => m.update(i, (k, FileChangesV { deleted: true, ..m[i].1 })),
        None => m.push(
            (
                k,
                FileChangesV {
                    added: Set::empty(),
                    removed: Set::empty(),
                    removed_new: Set::empty(),
                    deleted: true,
                },
            ),
        ),
    }
}

pub proof fn lemma_to_set_concat(a: Seq<usize>, b: Seq<usize>)
    ensures
        (a + b).to_set() == a.to_set() + b.to_set(),
{
    assert forall|x: usize| (a + b).to_set().contains(x) <==> (a.to_set() + b.to_set()).contains(x) by {
        if (a + b).contains(x) {
            let k = choose|k: int| 0 <= k < (a + b).len() && (a + b)[k] == x;
            if k < a.len() {
                assert(a[k] == x);
                assert(a.contains(x));
            } else {
                assert(b[k - a.len()] == x);
                assert(b.contains(x));
            }
        }
        if a.contains(x) {
            let k = choose|k: int| 0 <= k < a.len() && a[k] == x;
            assert((a + b)[k] == x);
        }
        if b.contains(x) {
            let k = choose|k: int| 0 <= k < b.len() && b[k] == x;
            assert((a + b)[k + a.len()] == x);
        }
    }
    assert((a + b).to_set() =~= a.to_set() + b.to_set());
}

pub fn append_usizes(dst: &mut Vec<usize>, src: &Vec<usize>)
    ensures
        final(dst)@ == old(dst)@ + src@,
{
    let ghost d0 = dst@;
    let mut i: usize = 0;
    while i < src.len()
        invariant
            i <= src@.len(),
            dst@ == d0 + src@.subrange(0, i as int),
        decreases src.len() - i,
    {
        dst.push(src[i]);
        i = i + 1;
        assert(dst@ =~= d0 + src@.subrange(0, i as int));
    }
    assert(src@.subrange(0, src@.len() as int) =~= src@);
}

pub fn copy_usizes(v: &Vec<usize>) -> (r: Vec<usize>)
    ensures
        r@ == v@,
{
    let mut r: Vec<usize> = Vec::new();
    let mut i: usize = 0;
    while i < v.len()
        invariant
            i <= v@.len(),
            r@ == v@.subrange(0, i as int),
        decreases v.len() - i,
    {
        r.push(v[i]);
        i = i + 1;
    }
    assert(v@.subrange(0, v@.len() as int) =~= v@);
    r
}

/// The index of the entry with key `k`, if any.
pub open spec fn find_key<V>(s: Seq<(Seq<char>, V)>, k: Seq<char>) -> Option<int> {
    if exists|i: int| 0 <= i < s.len() && s[i].0 == k {
        Some(choose|i: int| 0 <= i < s.len() && s[i].0 == k)
    } else {
        None
    }
}

pub proof fn lemma_find_key_at<V>(s: Seq<(Seq<char>, V)>, i: int)
    requires
        distinct_keys(s),
        0 <= i < s.len(),
    ensures
        find_key(s, s[i].0) == Some(i),
{
    let j = choose|j: int| 0 <= j < s.len() && s[j].0 == s[i].0;
    if j != i {
        if j < i {
            assert(s[j].0 != s[i].0);
        } else {
            assert(s[i].0 != s[j].0);
        }
    }
}

pub proof fn lemma_find_key_absent<V>(s: Seq<(Seq<char>, V)>, k: Seq<char>)
    requires
        forall|i: int| 0 <= i < s.len() ==> s[i].0 != k,
    ensures
        find_key(s, k) is None,
{
}

pub proof fn lemma_lookup_at<V>(s: Seq<(Seq<char>, V)>, i: int)
    requires
        distinct_keys(s),
        0 <= i < s.len(),
    ensures
        lookup(s, s[i].0) == Some(s[i].1),
    decreases s.len(),
{
    if i < s.len() - 1 {
        assert(s.last().0 != s[i].0);
        assert(distinct_keys(s.drop_last()));
        lemma_lookup_at(s.drop_last(), i);
    }
}

pub proof fn lemma_lookup_absent<V>(s: Seq<(Seq<char>, V)>, k: Seq<char>)
    requires
        forall|i: int| 0 <= i < s.len() ==> s[i].0 != k,
    ensures
        lookup(s, k) is None,
    decreases s.len(),
{
    if s.len() > 0 {
        lemma_lookup_absent(s.drop_last(), k);
    }
}

pub proof fn lemma_lookup_some<V>(s: Seq<(Seq<char>, V)>, k: Seq<char>)
    requires
        distinct_keys(s),
    ensures
        lookup(s, k) matches Some(v) ==> exists|i: int| 0 <= i < s.len() && s[i].0 == k && s[i].1 == v,
        lookup(s, k) is None ==> forall|i: int| 0 <= i < s.len() ==> s[i].0 != k,
    decreases s.len(),
{
    if s.len() > 0 {
        assert(distinct_keys(s.drop_last()));
        lemma_lookup_some(s.drop_last(), k);
        if s.last().0 != k {
            if let Some(v) = lookup(s, k) {
                let i = choose|i: int| 0 <= i < s.drop_last().len() && s.drop_last()[i].0 == k && s.drop_last()[i].1 == v;
                assert(s[i] == s.drop_last()[i]);
            } else {
                assert forall|i: int| 0 <= i < s.len() implies s[i].0 != k by {
                    if i < s.len() - 1 {
                        assert(s[i] == s.drop_last()[i]);
                    }
                }
            }
        }
    }
}

pub proof fn lemma_filter_distinct<V>(s: Seq<(Seq<char>, V)>, p: spec_fn((Seq<char>, V)) -> bool)
    requires
        distinct_keys(s),
    ensures
        distinct_keys(s.filter(p)),
        forall|i: int| 0 <= i < s.filter(p).len() ==> s.contains(#[trigger] s.filter(p)[i]),
    decreases s.len(),
{
    reveal(Seq::filter);
    if s.len() > 0 {
        let d = s.drop_last();
        assert(distinct_keys(d));
        lemma_filter_distinct(d, p);
        let f = s.filter(p);
        assert forall|i: int| 0 <= i < d.filter(p).len() implies s.contains(#[trigger] d.filter(p)[i]) by {
            let k = choose|k: int| 0 <= k < d.len() && d[k] == d.filter(p)[i];
            assert(s[k] == d[k]);
        }
        if p(s.last()) {
            assert(f == d.filter(p).push(s.last()));
            assert forall|i: int, j: int| 0 <= i < j < f.len() implies f[i].0 != f[j].0 by {
                if j == f.len() - 1 {
                    assert(f[i] == d.filter(p)[i]);
                    assert(d.contains(d.filter(p)[i]));
                    let k = choose|k: int| 0 <= k < d.len() && d[k] == d.filter(p)[i];
                    assert(s[k] == f[i]);
                    assert(s[s.len() - 1] == f[j]);
                } else {
                    assert(f[i] == d.filter(p)[i]);
                    assert(f[j] == d.filter(p)[j]);
                }
            }
            assert forall|i: int| 0 <= i < f.len() implies s.contains(#[trigger] f[i]) by {
                if i == f.len() - 1 {
                    assert(s[s.len() - 1] == f[i]);
                } else {
                    assert(f[i] == d.filter(p)[i]);
                }
            }
        } else {
            assert(f == d.filter(p));
        }
    }
}

/// `==` on `str`.
pub fn str_eq(a: &str, b: &str) -> (r: bool)
    ensures
        r == (a@ == b@),
{
    let x = chars_of(a);
    let y = chars_of(b);
    crate::skip::slices_equal(x.as_slice(), y.as_slice())
}


// ─── Target paths ───

/// `\` replaced by `/`.
pub open spec fn slashes(s: Seq<char>) -> Seq<char> {
    s.map_values(|c: char| if c == '\\' { '/' } else { c })
}

/// Whether some `/`-separated component of `s` is `..`.
pub open spec fn has_dotdot(s: Seq<char>) -> bool {
    exists|i: int|
        0 <= i && i + 2 <= s.len() && #[trigger] s[i] == '.' && s[i + 1] == '.' && (i == 0 || s[i - 1] == '/')
            && (i + 2 == s.len() || s[i + 2] == '/')
}

pub open spec fn traversal_message(raw: Seq<char>) -> Seq<char> {
    "path traversal (..) is not allowed in target: "@ + raw
}

/// Strict resolution: the target must start with `//`; the rest, with `\`
/// turned into `/`, must not be absolute nor hold a `..` component.
pub open spec fn strict_resolution(raw: Seq<char>) -> Result<Seq<char>, Seq<char>> {
    if !starts_with(raw, "//"@) {
        Err("target path "@ + raw + " must start with // (e.g. //"@ + raw + ")"@)
    } else {
        let n = slashes(raw.subrange(2, raw.len() as int));
        if n.len() > 0 && n[0] == '/' {
            Err("target path "@ + raw + " must be relative after // (absolute paths are not allowed)"@)
        } else if has_dotdot(n) {
            Err(traversal_message(raw))
        } else {
            Ok(n)
        }
    }
}

/// Lenient resolution: URLs are refused; a leading `//` or `/` is dropped;
/// the rest, with `\` turned into `/`, must not be absolute nor hold a `..`
/// component.
pub open spec fn lenient_resolution(raw: Seq<char>) -> Result<Seq<char>, Seq<char>> {
    if starts_with(raw, "http://"@) || starts_with(raw, "https://"@) {
        Err("URL targets are not supported: "@ + raw)
    } else {
        let rel = if starts_with(raw, "//"@) {
            raw.subrange(2, raw.len() as int)
        } else if starts_with(raw, "/"@) {
            raw.subrange(1, raw.len() as int)
        } else {
            raw
        };
        let n = slashes(rel);
        if n.len() > 0 && n[0] == '/' {
            Err("target path "@ + raw + " must be relative (absolute paths are not allowed)"@)
        } else if has_dotdot(n) {
            Err(traversal_message(raw))
        } else {
            Ok(n)
        }
    }
}

pub open spec fn resolution_for(strict: bool, raw: Seq<char>) -> Result<Seq<char>, Seq<char>> {
    if strict {
        strict_resolution(raw)
    } else {
        lenient_resolution(raw)
    }
}

pub open spec fn result_view(r: Result<String, String>) -> Result<Seq<char>, Seq<char>> {
    match r {
        Ok(s) => Ok(s@),
        Err(e) => Err(e@),
    }
}

pub(crate) fn slashes_from(s: &[char], start: usize) -> (r: Vec<char>)
    requires
        start <= s@.len(),
    ensures
        r@ == slashes(s@.subrange(start as int, s@.len() as int)),
{
    let mut r: Vec<char> = Vec::new();
    let mut i: usize = start;
    while i < s.len()
        invariant
            start <= i <= s@.len(),
            r@ == slashes(s@.subrange(start as int, i as int)),
        decreases s.len() - i,
    {
        let c = if s[i] == '\\' {
            '/'
        } else {
            s[i]
        };
        r.push(c);
        i = i + 1;
        assert(r@ =~= slashes(s@.subrange(start as int, i as int)));
    }
    r
}

fn find_dotdot(s: &[char]) -> (r: bool)
    ensures
        r == has_dotdot(s@),
{
    let mut i: usize = 0;
    while i < s.len() && s.len() - i >= 2
        invariant
            forall|k: int|
                0 <= k < i && k + 2 <= s@.len() ==> !(#[trigger] s@[k] == '.' && s@[k + 1] == '.' && (k == 0
                    || s@[k - 1] == '/') && (k + 2 == s@.len() || s@[k + 2] == '/')),
        decreases s.len() - i,
    {
        if s[i] == '.' && s[i + 1] == '.' && (i == 0 || s[i - 1] == '/') && (i + 2 == s.len() || s[i + 2] == '/') {
            return true;
        }
        i = i + 1;
    }
    false
}

fn text_of(v: &Vec<char>) -> (r: String)
    ensures
        r@ == v@,
{
    string_of(v.as_slice())
}

/// Resolves a `ThenChange` path strictly (see `strict_resolution`).
pub fn default_resolve_path(raw: &str) -> (r: Result<String, String>)
    ensures
        result_view(r) == strict_resolution(raw@),
{
    proof {
        reveal_strlit("//");
    }
    let cs = chars_of(raw);
    let pre = chars_of("//");
    if !has_prefix(cs.as_slice(), pre.as_slice()) {
        let mut m = chars_of("target path ");
        push_str(&mut m, raw);
        push_str(&mut m, " must start with // (e.g. //");
        push_str(&mut m, raw);
        push_str(&mut m, ")");
        assert(m@ =~= "target path "@ + raw@ + " must start with // (e.g. //"@ + raw@ + ")"@);
        return Err(text_of(&m));
    }
    let n = slashes_from(cs.as_slice(), 2);
    if n.len() > 0 && n[0] == '/' {
        let mut m = chars_of("target path ");
        push_str(&mut m, raw);
        push_str(&mut m, " must be relative after // (absolute paths are not allowed)");
        assert(m@ =~= "target path "@ + raw@ + " must be relative after // (absolute paths are not allowed)"@);
        return Err(text_of(&m));
    }
    if find_dotdot(n.as_slice()) {
        let mut m = chars_of("path traversal (..) is not allowed in target: ");
        push_str(&mut m, raw);
        return Err(text_of(&m));
    }
    Ok(text_of(&n))
}

/// Resolves a `ThenChange` path leniently (see `lenient_resolution`).
pub fn lenient_resolve_path(raw: &str) -> (r: Result<String, String>)
    ensures
        result_view(r) == lenient_resolution(raw@),
{
    proof {
        reveal_strlit("//");
        reveal_strlit("/");
    }
    let cs = chars_of(raw);
    let http = chars_of("http://");
    let https = chars_of("https://");
    if has_prefix(cs.as_slice(), http.as_slice()) || has_prefix(cs.as_slice(), https.as_slice()) {
        let mut m = chars_of("URL targets are not supported: ");
        push_str(&mut m, raw);
        return Err(text_of(&m));
    }
    let dbl = chars_of("//");
    let one = chars_of("/");
    let start: usize = if has_prefix(cs.as_slice(), dbl.as_slice()) {
        2
    } else if has_prefix(cs.as_slice(), one.as_slice()) {
        1
    } else {
        0
    };
    assert(cs@.subrange(0, cs@.len() as int) =~= cs@);
    let n = slashes_from(cs.as_slice(), start);
    if n.len() > 0 && n[0] == '/' {
        let mut m = chars_of("target path ");
        push_str(&mut m, raw);
        push_str(&mut m, " must be relative (absolute paths are not allowed)");
        assert(m@ =~= "target path "@ + raw@ + " must be relative (absolute paths are not allowed)"@);
        return Err(text_of(&m));
    }
    if find_dotdot(n.as_slice()) {
        let mut m = chars_of("path traversal (..) is not allowed in target: ");
        push_str(&mut m, raw);
        return Err(text_of(&m));
    }
    Ok(text_of(&n))
}

/// Resolves strictly or leniently.
pub fn resolve_path_for(strict: bool, raw: &str) -> (r: Result<String, String>)
    ensures
        result_view(r) == resolution_for(strict, raw@),
{
    if strict {
        default_resolve_path(raw)
    } else {
        lenient_resolve_path(raw)
    }
}

pub open spec fn strings_view(v: Seq<String>) -> Seq<Seq<char>> {
    v.map_values(|s: String| s@)
}

// ─── The backend interface ───

pub open spec fn exists_view(r: Result<bool, String>) -> Result<bool, Seq<char>> {
    match r {
        Ok(b) => Ok(b),
        Err(e) => Err(e@),
    }
}

pub open spec fn search_view(r: Result<Vec<String>, String>) -> Result<Seq<Seq<char>>, Seq<char>> {
    match r {
        Ok(v) => Ok(strings_view(v@)),
        Err(e) => Err(e@),
    }
}

/// A version-control backend (git, Mercurial, …): implement this trait to
/// support a new one. Errors are messages. What a backend answers depends
/// on what is on disk; each answer is one that the backend's `*_answers`
/// relation admits. A backend that does not define a relation admits every
/// answer; the in-memory backend defines each exactly.
pub trait VcsProvider {
    /// Whether `r` may be what `read_file(path)` gives.
    open spec fn read_answers(&self, path: Seq<char>, r: ReadV) -> bool {
        true
    }

    /// Whether `r` may be what `file_exists(path)` gives.
    open spec fn exists_answers(&self, path: Seq<char>, r: Result<bool, Seq<char>>) -> bool {
        true
    }

    /// Whether `r` may be what `search_files(query)` gives.
    open spec fn search_answers(&self, query: Seq<char>, r: Result<Seq<Seq<char>>, Seq<char>>) -> bool {
        true
    }

    /// Whether `files` may be what `validate_files()` gives.
    open spec fn listed_answers(&self, files: Seq<Seq<char>>) -> bool {
        true
    }

    /// Whether `strict` may be what `is_strict()` gives.
    open spec fn strict_answers(&self, strict: bool) -> bool {
        true
    }

    /// The changes of the diff under check.
    fn diff(&self) -> Result<ChangeMap, String>;

    /// The reason checks are suppressed, if any. Independent of `diff`.
    fn suppressions(&self) -> Result<Option<String>, String>;

    /// The file's content; `None` when it does not exist (not an error).
    fn read_file(&self, rel_path: &str) -> (r: Result<Option<FileContent>, String>)
        ensures
            self.read_answers(rel_path@, read_view(r)),
    ;

    fn file_exists(&self, rel_path: &str) -> (r: Result<bool, String>)
        ensures
            self.exists_answers(rel_path@, exists_view(r)),
    ;

    /// Root-relative paths of the files whose content holds `query`.
    fn search_files(&self, query: &str) -> (r: Result<Vec<String>, String>)
        ensures
            self.search_answers(query@, search_view(r)),
    ;

    /// The files to validate structurally.
    fn validate_files(&self) -> (r: &Vec<String>)
        ensures
            self.listed_answers(strings_view(r@)),
    ;

    /// Whether strict path mode is enabled.
    fn is_strict(&self) -> (r: bool)
        ensures
            self.strict_answers(r),
    ;

    /// Resolves a raw target path to a root-relative path, or says why not.
    /// By default the resolution is strict.
    fn try_resolve_path(&self, raw: &str) -> (r: Result<String, String>)
        default_ensures
            result_view(r) == strict_resolution(raw@),
    {
        default_resolve_path(raw)
    }

    /// Like `try_resolve_path`, without the reason.
    fn resolve_path(&self, raw: &str) -> Option<String> {
        match self.try_resolve_path(raw) {
            Ok(p) => Some(p),
            Err(_) => None,
        }
    }
}

// ─── A backend that knows no version control ───

/// The configuration of a filesystem backend: its root, its path mode and
/// the files to validate (taken verbatim). Reading files is done by the
/// program around the library.
pub struct NoneVcsProvider {
    root: String,
    strict: bool,
    files: Vec<String>,
}

impl NoneVcsProvider {
    pub closed spec fn root_view(&self) -> Seq<char> {
        self.root@
    }

    pub closed spec fn strict_view(&self) -> bool {
        self.strict
    }

    pub closed spec fn files_view(&self) -> Seq<Seq<char>> {
        strings_view(self.files@)
    }

    pub fn new(root: String, strict: bool, files: Vec<String>) -> (r: NoneVcsProvider)
        ensures
            r.root_view() == root@,
            r.strict_view() == strict,
            r.files_view() == strings_view(files@),
    {
        NoneVcsProvider { root, strict, files }
    }

    pub fn root(&self) -> (r: &String)
        ensures
            r@ == self.root_view(),
    {
        &self.root
    }

    /// Strict or lenient resolution, by the configured mode.
    pub fn try_resolve_path(&self, raw: &str) -> (r: Result<String, String>)
        ensures
            result_view(r) == resolution_for(self.strict_view(), raw@),
    {
        resolve_path_for(self.strict, raw)
    }

    pub fn is_strict(&self) -> (r: bool)
        ensures
            r == self.strict_view(),
    {
        self.strict
    }

    pub fn validate_files(&self) -> (r: &Vec<String>)
        ensures
            strings_view(r@) == self.files_view(),
    {
        &self.files
    }

    /// A filesystem knows no diff.
    pub fn diff(&self) -> (r: Result<ChangeMap, String>)
        ensures
            r matches Err(e) && e@ == "diff is not supported by NoneVcsProvider — needs a VCS backend"@,
    {
        Err("diff is not supported by NoneVcsProvider — needs a VCS backend".to_string())
    }

    /// A filesystem knows no commit messages.
    pub fn suppressions(&self) -> (r: Result<Option<String>, String>)
        ensures
            r matches Err(e) && e@ == "suppressions are not supported by NoneVcsProvider — needs a VCS backend"@,
    {
        Err("suppressions are not supported by NoneVcsProvider — needs a VCS backend".to_string())
    }

    /// A filesystem offers no content search.
    pub fn search_files(&self, query: &str) -> (r: Result<Vec<String>, String>)
        ensures
            r matches Err(e) && e@ == "search_string_in_files is not supported by NoneVcsProvider — needs a VCS backend"@,
    {
        Err("search_string_in_files is not supported by NoneVcsProvider — needs a VCS backend".to_string())
    }
}


// ─── Every line of a set of files ───

/// Every line of a file of `n` lines, as added.
pub open spec fn all_lines_added(n: nat) -> FileChangesV {
    FileChangesV {
        added: Set::new(|i: usize| 1 <= i <= n),
        removed: Set::empty(),
        removed_new: Set::empty(),
        deleted: false,
    }
}

/// `m` with `v` under `k`: replacing the entry for `k`, else appended.
pub open spec fn put(m: Seq<(Seq<char>, FileChangesV)>, k: Seq<char>, v: FileChangesV) -> Seq<(Seq<char>, FileChangesV)> {
    match find_key(m, k) {
        Some(i) => m.update(i, (k, v)),
        None => m.push((k, v)),
    }
}

/// The changes of the first `n` files (root-relative path and bytes) when
/// every line of each is taken as added: a file that is binary, not UTF-8
/// or has no line is left out.
pub open spec fn directory_changes(files: Seq<(Seq<char>, Seq<u8>)>, n: int) -> Seq<(Seq<char>, FileChangesV)>
    decreases n,
{
    if n <= 0 {
        Seq::empty()
    } else {
        let m = directory_changes(files, n - 1);
        match content_of(files[n - 1].1) {
            Some(Some(text)) => if crate::parser::lines_of(text).len() == 0 {
                m
            } else {
                put(m, files[n - 1].0, all_lines_added(crate::parser::lines_of(text).len()))
            },
            _ => m,
        }
    }
}

/// `m` with `v` under `k`: replacing the entry for `k`, else appended.
pub open spec fn put_text(m: Seq<(Seq<char>, Seq<char>)>, k: Seq<char>, v: Seq<char>) -> Seq<(Seq<char>, Seq<char>)> {
    match find_key(m, k) {
        Some(i) => m.update(i, (k, v)),
        None => m.push((k, v)),
    }
}

/// The texts of the files `directory_changes` keeps, by path.
pub open spec fn directory_texts(files: Seq<(Seq<char>, Seq<u8>)>, n: int) -> Seq<(Seq<char>, Seq<char>)>
    decreases n,
{
    if n <= 0 {
        Seq::empty()
    } else {
        let m = directory_texts(files, n - 1);
        match content_of(files[n - 1].1) {
            Some(Some(text)) => if crate::parser::lines_of(text).len() == 0 {
                m
            } else {
                put_text(m, files[n - 1].0, text)
            },
            _ => m,
        }
    }
}

pub open spec fn texts_view(v: Seq<(String, String)>) -> Seq<(Seq<char>, Seq<char>)> {
    v.map_values(|e: (String, String)| (e.0@, e.1@))
}

fn put_text_exec(texts: &mut Vec<(String, String)>, k: String, v: String)
    requires
        distinct_keys(texts_view(old(texts)@)),
    ensures
        texts_view(final(texts)@) == put_text(texts_view(old(texts)@), k@, v@),
        distinct_keys(texts_view(final(texts)@)),
{
    let ghost t0 = texts_view(texts@);
    let mut i: usize = 0;
    while i < texts.len()
        invariant
            i <= texts@.len(),
            t0 == texts_view(texts@),
            t0 == texts_view(old(texts)@),
            distinct_keys(t0),
            forall|j: int| 0 <= j < i ==> t0[j].0 != k@,
        decreases texts.len() - i,
    {
        assert(t0[i as int] == (texts@[i as int].0@, texts@[i as int].1@));
        if str_eq(texts[i].0.as_str(), k.as_str()) {
            proof {
                assert(t0[i as int].0 == k@);
                lemma_find_key_at(t0, i as int);
            }
            texts.set(i, (k, v));
            proof {
                assert(texts_view(texts@) =~= t0.update(i as int, (k@, v@)));
                assert(find_key(t0, k@) == Some(i as int));
                assert(texts_view(texts@) == put_text(t0, k@, v@));
            }
            return;
        }
        i = i + 1;
    }
    proof {
        lemma_find_key_absent(t0, k@);
    }
    texts.push((k, v));
    assert(texts_view(texts@) =~= t0.push((k@, v@)));
}

pub open spec fn files_bytes_view(v: Seq<(String, Vec<u8>)>) -> Seq<(Seq<char>, Seq<u8>)> {
    v.map_values(|e: (String, Vec<u8>)| (e.0@, e.1@))
}

/// Every line of `1..=n` as added.
fn lines_up_to(n: usize) -> (r: FileChanges)
    ensures
        r@ == all_lines_added(n as nat),
{
    let mut added: Vec<usize> = Vec::new();
    let mut k: usize = 0;
    while k < n
        invariant
            k <= n,
            added@ == Seq::new(k as nat, |j: int| (j + 1) as usize),
        decreases n - k,
    {
        added.push(k + 1);
        k = k + 1;
        assert(added@ =~= Seq::new(k as nat, |j: int| (j + 1) as usize));
    }
    let r = FileChanges { added_lines: added, removed_lines: Vec::new(), removed_new_positions: Vec::new(), deleted: false };
    assert forall|i: usize| #[trigger] r.added_lines@.to_set().contains(i) <==> 1 <= i <= n by {
        if 1 <= i <= n {
            assert(r.added_lines@[i - 1] == i);
        }
    }
    assert(r@.added =~= all_lines_added(n as nat).added);
    assert(r@.removed =~= Set::<usize>::empty());
    assert(r@.removed_new =~= Set::<usize>::empty());
    r
}

/// Takes every line of every given file (root-relative path and bytes, as
/// a walk of a directory reads them) as added; files that are binary, not
/// UTF-8 or empty are left out, and a later file under a path already seen
/// replaces it. Also gives the text of each file kept, by path, so that it
/// need not be read again.
pub fn from_directory(files: &Vec<(String, Vec<u8>)>) -> (r: (ChangeMap, Vec<(String, String)>))
    ensures
        r.0@ == directory_changes(files_bytes_view(files@), files@.len() as int),
        texts_view(r.1@) == directory_texts(files_bytes_view(files@), files@.len() as int),
{
    let ghost fv = files_bytes_view(files@);
    let mut out = ChangeMap::new();
    let mut texts: Vec<(String, String)> = Vec::new();
    let mut i: usize = 0;
    assert(texts_view(texts@) =~= Seq::<(Seq<char>, Seq<char>)>::empty());
    while i < files.len()
        invariant
            i <= files@.len(),
            fv == files_bytes_view(files@),
            out@ == directory_changes(fv, i as int),
            texts_view(texts@) == directory_texts(fv, i as int),
            distinct_keys(texts_view(texts@)),
        decreases files.len() - i,
    {
        assert(fv[i as int] == (files@[i as int].0@, files@[i as int].1@));
        match classify_bytes(files[i].0.as_str(), files[i].1.as_slice()) {
            Ok(FileContent::Text(t)) => {
                let lines = crate::parser::split_lines(chars_of(t.as_str()).as_slice());
                assert(lines@.len() == crate::parser::line_views(lines@).len());
                if lines.len() > 0 {
                    let fc = lines_up_to(lines.len());
                    out.insert(files[i].0.clone(), fc);
                    put_text_exec(&mut texts, files[i].0.clone(), t);
                }
            },
            _ => {},
        }
        i = i + 1;
    }
    (out, texts)
}

// ─── Laws ───

/// A resolved target path is relative and safe: it neither starts with `/`
/// nor holds a `\` or a `..` component, in strict and lenient mode alike.
/// Strict resolution succeeds only for paths that start with `//`.
pub proof fn law_resolved_paths_are_relative(strict: bool, raw: Seq<char>)
    ensures
        resolution_for(strict, raw) matches Ok(p) ==> !(p.len() > 0 && p[0] == '/') && !has_dotdot(p) && !p.contains(
            '\\',
        ),
        strict && resolution_for(strict, raw) is Ok ==> starts_with(raw, "//"@),
{
    if let Ok(p) = resolution_for(strict, raw) {
        assert(!p.contains('\\')) by {
            if p.contains('\\') {
                let k = choose|k: int| 0 <= k < p.len() && p[k] == '\\';
                assert(p[k] != '\\');
            }
        }
    }
}

/// Setting the changes of `k` makes them what a lookup of `k` gives, leaves
/// every other key as it was, and keeps keys distinct.
pub proof fn law_lookup_after_insert(m: Seq<(Seq<char>, FileChangesV)>, k: Seq<char>, v: FileChangesV, other: Seq<char>)
    requires
        distinct_keys(m),
    ensures
        ({
            let n = match find_key(m, k) {
                Some(i) => m.update(i, (k, v)),
                None => m.push((k, v)),
            };
            &&& distinct_keys(n)
            &&& lookup(n, k) == Some(v)
            &&& other != k ==> lookup(n, other) == lookup(m, other)
        }),
{
    let n = match find_key(m, k) {
        Some(i) => m.update(i, (k, v)),
        None => m.push((k, v)),
    };
    match find_key(m, k) {
        Some(i) => {
            let i = choose|i: int| 0 <= i < m.len() && m[i].0 == k;
            lemma_find_key_at(m, i);
            assert(distinct_keys(n)) by {
                assert forall|a: int, b: int| 0 <= a < b < n.len() implies n[a].0 != n[b].0 by {
                    assert(m[a].0 != m[b].0);
                }
            }
            lemma_lookup_at(n, i);
            lemma_lookup_some(m, other);
            lemma_lookup_some(n, other);
            if other != k {
                if let Some(x) = lookup(m, other) {
                    let j = choose|j: int| 0 <= j < m.len() && m[j].0 == other && m[j].1 == x;
                    assert(n[j] == m[j]);
                    lemma_lookup_at(n, j);
                } else {
                    assert forall|j: int| 0 <= j < n.len() implies n[j].0 != other by {
                        if j != i {
                            assert(n[j] == m[j]);
                        }
                    }
                    lemma_lookup_absent(n, other);
                }
            }
        },
        None => {
            assert(distinct_keys(n)) by {
                assert forall|a: int, b: int| 0 <= a < b < n.len() implies n[a].0 != n[b].0 by {
                    if b < m.len() {
                        assert(m[a].0 != m[b].0);
                    } else {
                        assert(n[a] == m[a]);
                    }
                }
            }
            assert(n.drop_last() =~= m);
            if other != k {
                assert(lookup(n, other) == lookup(m, other));
            }
        },
    }
}

/// Keeping only the deleted files drops exactly the files that were not
/// deleted: a lookup after it gives the changes of a deleted file and
/// nothing for any other.
pub proof fn law_retain_deleted(m: Seq<(Seq<char>, FileChangesV)>, k: Seq<char>)
    requires
        distinct_keys(m),
    ensures
        lookup(deleted_only(m), k) == (match lookup(m, k) {
            Some(c) => if c.deleted {
                Some(c)
            } else {
                None
            },
            None => None,
        }),
    decreases m.len(),
{
    reveal(Seq::filter);
    if m.len() > 0 {
        let d = m.drop_last();
        assert(distinct_keys(d));
        law_retain_deleted(d, k);
        let f = deleted_only(m);
        assert(f == if m.last().1.deleted {
            deleted_only(d).push(m.last())
        } else {
            deleted_only(d)
        });
        if m.last().1.deleted {
            assert(f.drop_last() =~= deleted_only(d));
            assert(f.last() == m.last());
        }
        assert(lookup(m, k) == if m.last().0 == k {
            Some(m.last().1)
        } else {
            lookup(d, k)
        });
        if m.last().0 == k {
            lemma_lookup_some(d, k);
            assert(lookup(d, k) is None) by {
                if let Some(x) = lookup(d, k) {
                    let j = choose|j: int| 0 <= j < d.len() && d[j].0 == k && d[j].1 == x;
                    assert(m[j].0 != m[m.len() - 1].0);
                }
            }
            lemma_filter_distinct(d, |e: (Seq<char>, FileChangesV)| e.1.deleted);
            if !m.last().1.deleted {
                lemma_lookup_some(deleted_only(d), k);
                if let Some(x) = lookup(deleted_only(d), k) {
                    let j = choose|j: int| 0 <= j < deleted_only(d).len() && deleted_only(d)[j].0 == k && deleted_only(d)[j].1 == x;
                    let e = deleted_only(d)[j];
                    assert(d.contains(e));
                    let q = choose|q: int| 0 <= q < d.len() && d[q] == e;
                    assert(d[q].0 == k);
                }
            }
        }
    }
}

// ─── File contents ───

/// Result of reading a file from the VCS provider.
#[derive(Debug, PartialEq, Eq)]
pub enum FileContent {
    /// Valid text content.
    Text(String),
    /// File exists but is not valid text (contains NUL bytes or invalid UTF-8).
    Binary,
}

/// How much of a file is probed to tell text from binary.
pub const BINARY_PROBE_BYTES: usize = 8192;

/// The probed head of a file: its first `BINARY_PROBE_BYTES` bytes.
pub open spec fn probe_head(b: Seq<u8>) -> Seq<u8> {
    if b.len() <= BINARY_PROBE_BYTES {
        b
    } else {
        b.subrange(0, BINARY_PROBE_BYTES as int)
    }
}

/// A file is binary when its head holds a NUL byte or an invalid UTF-8
/// sequence (a character cut off by the probe's end does not count).
pub open spec fn probe_is_binary(head: Seq<u8>) -> bool {
    head.contains(0u8) || (!vstd::utf8::valid_utf8(head) && crate::ext::utf8_invalid_of(head))
}

/// What the bytes of a file read as: binary, text, or (`None`) not UTF-8
/// past the probe.
pub open spec fn content_of(b: Seq<u8>) -> Option<Option<Seq<char>>> {
    if probe_is_binary(probe_head(b)) {
        Some(None)
    } else if vstd::utf8::valid_utf8(b) {
        Some(Some(vstd::utf8::decode_utf8(b)))
    } else {
        None
    }
}

pub open spec fn content_view(c: FileContent) -> Option<Seq<char>> {
    match c {
        FileContent::Text(s) => Some(s@),
        FileContent::Binary => None,
    }
}

fn has_nul(b: &[u8]) -> (r: bool)
    ensures
        r == b@.contains(0u8),
{
    let mut i: usize = 0;
    while i < b.len()
        invariant
            i <= b@.len(),
            forall|k: int| 0 <= k < i ==> b@[k] != 0u8,
        decreases b.len() - i,
    {
        if b[i] == 0u8 {
            assert(b@[i as int] == 0u8);
            return true;
        }
        i = i + 1;
    }
    false
}

/// Reads the bytes of `rel_path` as text or binary (see `content_of`); bytes
/// that are not UTF-8 past the probe are an error.
pub fn classify_bytes(rel_path: &str, bytes: &[u8]) -> (r: Result<FileContent, String>)
    ensures
        (match content_of(bytes@) {
            Some(c) => r matches Ok(x) && content_view(x) == c,
            None => r is Err,
        }),
{
    let n: usize = if bytes.len() <= BINARY_PROBE_BYTES {
        bytes.len()
    } else {
        BINARY_PROBE_BYTES
    };
    let head = &bytes[0..n];
    assert(head@ == probe_head(bytes@)) by {
        if bytes@.len() <= BINARY_PROBE_BYTES {
            assert(bytes@.subrange(0, n as int) =~= bytes@);
        }
    }
    if has_nul(head) {
        return Ok(FileContent::Binary);
    }
    if let Err(invalid) = crate::ext::from_utf8(head) {
        if invalid {
            return Ok(FileContent::Binary);
        }
    }
    match crate::ext::from_utf8(bytes) {
        Ok(text) => Ok(FileContent::Text(text)),
        Err(_) => {
            let mut m = chars_of("read ");
            push_str(&mut m, rel_path);
            Err(string_of(m.as_slice()))
        },
    }
}

impl FileContent {
    /// The text content by reference, or `None` for binary files.
    pub fn as_text(&self) -> (r: Option<&String>)
        ensures
            match self {
                FileContent::Text(s) => r == Some(s),
                FileContent::Binary => r is None,
            },
    {
        match self {
            FileContent::Text(s) => Some(s),
            FileContent::Binary => None,
        }
    }
}

} // verus!
