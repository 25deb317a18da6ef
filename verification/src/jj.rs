//! What the jj backend computes around its commands: the file list of
//! `jj file list` with a NUL-separated template; and which backend a run
//! uses. (Its `NO_IFTTT=` tags are
//! read from the log as the git backend's are, with `git::parse_no_ifttt`.)
use vstd::prelude::*;
use crate::ext::{lossy_of, string_of, utf8_lossy};
use crate::vcs::{slashes, slashes_from, strings_view};

verus! {

/// The NUL-separated fields of the first `n` bytes: the finished fields,
/// and the field being read.
pub open spec fn nul_fields(b: Seq<u8>, n: int) -> (Seq<Seq<u8>>, Seq<u8>)
    decreases n,
{
    if n <= 0 {
        (Seq::empty(), Seq::empty())
    } else {
        let (done, cur) = nul_fields(b, n - 1);
        if b[n - 1] == 0u8 {
            (done.push(cur), Seq::empty())
        } else {
            (done, cur.push(b[n - 1]))
        }
    }
}

/// The fields of `b` split at each NUL byte (the last one may be empty).
pub open spec fn split_nul(b: Seq<u8>) -> Seq<Seq<u8>> {
    let (done, cur) = nul_fields(b, b.len() as int);
    done.push(cur)
}

/// The paths the first `n` fields name: empty fields skipped, each read as
/// UTF-8 (invalid sequences replaced) with `\` turned into `/`.
pub open spec fn field_paths(fields: Seq<Seq<u8>>, n: int) -> Seq<Seq<char>>
    decreases n,
{
    if n <= 0 {
        Seq::empty()
    } else {
        field_paths(fields, n - 1) + (if fields[n - 1].len() > 0 {
            seq![slashes(lossy_of(fields[n - 1]))]
        } else {
            Seq::empty()
        })
    }
}

fn push_field_path(out: &mut Vec<String>, field: &Vec<u8>)
    ensures
        strings_view(final(out)@) == strings_view(old(out)@) + (if field@.len() > 0 {
            seq![slashes(lossy_of(field@))]
        } else {
            Seq::<Seq<char>>::empty()
        }),
{
    let ghost o0 = strings_view(out@);
    if field.len() > 0 {
        let text = utf8_lossy(field.as_slice());
        let cs = crate::text::chars_of(text.as_str());
        let fixed = slashes_from(cs.as_slice(), 0);
        assert(cs@.subrange(0, cs@.len() as int) =~= cs@);
        out.push(string_of(fixed.as_slice()));
        assert(strings_view(out@) =~= o0.push(slashes(lossy_of(field@))));
    } else {
        assert(strings_view(out@) =~= o0 + Seq::<Seq<char>>::empty());
    }
}

/// The paths of `jj file list` output whose template ends each path with a
/// NUL byte.
pub fn parse_jj_file_list(stdout: &[u8]) -> (r: Vec<String>)
    ensures
        strings_view(r@) == field_paths(split_nul(stdout@), split_nul(stdout@).len() as int),
{
    let mut out: Vec<String> = Vec::new();
    let mut cur: Vec<u8> = Vec::new();
    let mut i: usize = 0;
    while i < stdout.len()
        invariant
            i <= stdout@.len(),
            cur@ == nul_fields(stdout@, i as int).1,
            strings_view(out@) == field_paths(
                nul_fields(stdout@, i as int).0,
                nul_fields(stdout@, i as int).0.len() as int,
            ),
        decreases stdout.len() - i,
    {
        let ghost done = nul_fields(stdout@, i as int).0;
        if stdout[i] == 0u8 {
            push_field_path(&mut out, &cur);
            proof {
                let d2 = done.push(cur@);
                assert(d2.len() == done.len() + 1);
                assert(d2[done.len() as int] == cur@);
                lemma_field_paths_prefix(done, d2, done.len() as int);
            }
            cur = Vec::new();
        } else {
            cur.push(stdout[i]);
        }
        i = i + 1;
    }
    let ghost done = nul_fields(stdout@, stdout@.len() as int).0;
    push_field_path(&mut out, &cur);
    proof {
        let d2 = done.push(cur@);
        assert(d2[done.len() as int] == cur@);
        lemma_field_paths_prefix(done, d2, done.len() as int);
    }
    out
}

proof fn lemma_field_paths_prefix(a: Seq<Seq<u8>>, b: Seq<Seq<u8>>, n: int)
    requires
        0 <= n <= a.len() <= b.len(),
        forall|k: int| 0 <= k < a.len() ==> a[k] == b[k],
    ensures
        field_paths(b, n) == field_paths(a, n),
    decreases n,
{
    if n > 0 {
        lemma_field_paths_prefix(a, b, n - 1);
        assert(a[n - 1] == b[n - 1]);
    }
}

// ─── Which backend ───

/// A version-control backend.
#[derive(Debug, Clone, Copy, PartialEq, Eq, Structural)]
pub enum VcsKind {
    Git,
    Jj,
}

/// The backend for a directory whose ancestors, from itself upward, hold
/// `.jj` directories and `.git` entries as `markers` says (from index `i`
/// on): the nearest marker decides, `.jj` before `.git` in one directory;
/// git when there is none.
pub open spec fn kind_from(markers: Seq<(bool, bool)>, i: int) -> VcsKind
    decreases markers.len() - i,
{
    if i < 0 || i >= markers.len() {
        VcsKind::Git
    } else if markers[i].0 {
        VcsKind::Jj
    } else if markers[i].1 {
        VcsKind::Git
    } else {
        kind_from(markers, i + 1)
    }
}

/// The backend of a run: the one asked for, else the one the working
/// directory's ancestors point to (see `kind_from`); the markers are the
/// caller's to find out.
pub fn vcs_kind(explicit: Option<VcsKind>, markers: &Vec<(bool, bool)>) -> (r: VcsKind)
    ensures
        r == (match explicit {
            Some(k) => k,
            None => kind_from(markers@, 0),
        }),
{
    if let Some(k) = explicit {
        return k;
    }
    let mut i: usize = 0;
    while i < markers.len()
        invariant
            i <= markers@.len(),
            explicit is None,
            kind_from(markers@, 0) == kind_from(markers@, i as int),
        decreases markers.len() - i,
    {
        if markers[i].0 {
            return VcsKind::Jj;
        }
        if markers[i].1 {
            return VcsKind::Git;
        }
        i = i + 1;
    }
    VcsKind::Git
}

} // verus!
