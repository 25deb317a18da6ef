//! Changed line numbers kept sorted, for range-overlap queries by binary
//! search.
use vstd::prelude::*;
use crate::vcs::FileChanges;

verus! {

pub open spec fn sorted(s: Seq<usize>) -> bool {
    forall|i: int, j: int| 0 <= i <= j < s.len() ==> s[i] <= s[j]
}

/// Whether some value of `set` lies in `[lo, hi]`.
pub open spec fn in_range(set: Set<usize>, lo: int, hi: int) -> bool {
    exists|v: usize| set.contains(v) && lo <= v && v <= hi
}

/// The first index of a sorted sequence whose value is not below `x`.
pub fn lower_bound(s: &[usize], x: usize) -> (r: usize)
    requires
        sorted(s@),
    ensures
        r <= s@.len(),
        forall|i: int| 0 <= i < r ==> s@[i] < x,
        forall|i: int| r <= i < s@.len() ==> s@[i] >= x,
{
    let mut lo: usize = 0;
    let mut hi: usize = s.len();
    while lo < hi
        invariant
            lo <= hi <= s@.len(),
            sorted(s@),
            forall|i: int| 0 <= i < lo ==> s@[i] < x,
            forall|i: int| hi <= i < s@.len() ==> s@[i] >= x,
        decreases hi - lo,
    {
        let mid = lo + (hi - lo) / 2;
        if s[mid] < x {
            lo = mid + 1;
        } else {
            hi = mid;
        }
    }
    lo
}

/// Whether some value of the sorted sequence lies in `[lo, hi]`.
pub fn any_in_range(s: &[usize], lo: usize, hi: usize) -> (r: bool)
    requires
        sorted(s@),
    ensures
        r == in_range(s@.to_set(), lo as int, hi as int),
{
    if lo > hi {
        return false;
    }
    let start = lower_bound(s, lo);
    let r = start < s.len() && s[start] <= hi;
    proof {
        if r {
            let v = s@[start as int];
            assert(s@.contains(v));
            assert(s@.to_set().contains(v));
            assert(lo <= v && v <= hi);
        } else if in_range(s@.to_set(), lo as int, hi as int) {
            let v = choose|v: usize| s@.to_set().contains(v) && lo <= v && v <= hi;
            let k = choose|k: int| 0 <= k < s@.len() && s@[k] == v;
            assert(k >= start);
            assert(s@[start as int] <= s@[k]);
        }
    }
    r
}

/// The values of `v` in ascending order (duplicates kept).
pub fn sort_values(v: &Vec<usize>) -> (r: Vec<usize>)
    ensures
        sorted(r@),
        r@.to_set() == v@.to_set(),
        r@.len() == v@.len(),
{
    let mut r: Vec<usize> = Vec::new();
    let mut i: usize = 0;
    while i < v.len()
        invariant
            i <= v@.len(),
            sorted(r@),
            r@.len() == i,
            r@.to_set() == v@.subrange(0, i as int).to_set(),
        decreases v.len() - i,
    {
        let x = v[i];
        let pos = lower_bound(r.as_slice(), x);
        let ghost r0 = r@;
        r.insert(pos, x);
        proof {
            assert(r@ =~= r0.insert(pos as int, x));
            r0.insert_ensures(pos as int, x);
            assert forall|a: int, b: int| 0 <= a <= b < r@.len() implies r@[a] <= r@[b] by {
                if a < pos && b < pos {
                } else if a < pos && b == pos {
                } else if a < pos {
                    assert(r@[b] == r0[b - 1]);
                } else if a == pos && b == pos {
                } else if a == pos {
                    assert(r@[b] == r0[b - 1]);
                } else {
                    assert(r@[a] == r0[a - 1]);
                    assert(r@[b] == r0[b - 1]);
                }
            }
            let pre = v@.subrange(0, i as int);
            let pre1 = v@.subrange(0, i + 1);
            assert(pre1 =~= pre.push(x));
            assert forall|y: usize| r@.to_set().contains(y) <==> pre1.to_set().contains(y) by {
                if r@.to_set().contains(y) {
                    let k = choose|k: int| 0 <= k < r@.len() && r@[k] == y;
                    if k < pos {
                        assert(r0.contains(y));
                        assert(r0.to_set().contains(y));
                        let m = choose|m: int| 0 <= m < pre.len() && pre[m] == y;
                        assert(pre1[m] == y);
                    } else if k == pos {
                        assert(pre1[i as int] == y);
                    } else {
                        assert(r@[k] == r0[k - 1]);
                        assert(r0.contains(y));
                        assert(r0.to_set().contains(y));
                        let m = choose|m: int| 0 <= m < pre.len() && pre[m] == y;
                        assert(pre1[m] == y);
                    }
                }
                if pre1.to_set().contains(y) {
                    let m = choose|m: int| 0 <= m < pre1.len() && pre1[m] == y;
                    if m == i {
                        assert(r@[pos as int] == y);
                    } else {
                        assert(pre[m] == y);
                        assert(pre.to_set().contains(y));
                        assert(r0.to_set().contains(y));
                        let k = choose|k: int| 0 <= k < r0.len() && r0[k] == y;
                        if k < pos {
                            assert(r@[k] == y);
                        } else {
                            assert(r@[k + 1] == y);
                        }
                    }
                }
            }
            assert(r@.to_set() =~= pre1.to_set());
        }
        i = i + 1;
    }
    assert(v@.subrange(0, v@.len() as int) =~= v@);
    r
}

/// The added lines and the new-file removal positions of one file, sorted.
pub struct SortedLines {
    added: Vec<usize>,
    removed_new_pos: Vec<usize>,
}

impl SortedLines {
    #[verifier::type_invariant]
    spec fn inv(&self) -> bool {
        sorted(self.added@) && sorted(self.removed_new_pos@)
    }

    pub closed spec fn added_set(&self) -> Set<usize> {
        self.added@.to_set()
    }

    pub closed spec fn removed_set(&self) -> Set<usize> {
        self.removed_new_pos@.to_set()
    }

    pub fn from_changes(changes: &FileChanges) -> (r: SortedLines)
        ensures
            r.added_set() == changes@.added,
            r.removed_set() == changes@.removed_new,
    {
        SortedLines {
            added: sort_values(&changes.added_lines),
            removed_new_pos: sort_values(&changes.removed_new_positions),
        }
    }

    /// Whether an added line lies in `[lo, hi]`.
    pub fn added_in(&self, lo: usize, hi: usize) -> (r: bool)
        ensures
            r == in_range(self.added_set(), lo as int, hi as int),
    {
        proof {
            use_type_invariant(self);
        }
        any_in_range(self.added.as_slice(), lo, hi)
    }

    /// Whether a removal position lies in `[lo, hi]`.
    pub fn removed_in(&self, lo: usize, hi: usize) -> (r: bool)
        ensures
            r == in_range(self.removed_set(), lo as int, hi as int),
    {
        proof {
            use_type_invariant(self);
        }
        any_in_range(self.removed_new_pos.as_slice(), lo, hi)
    }

    /// Whether any removal position is recorded.
    pub fn has_removals(&self) -> (r: bool)
        ensures
            r == (self.removed_set() != Set::<usize>::empty()),
    {
        let r = self.removed_new_pos.len() > 0;
        proof {
            if r {
                assert(self.removed_set().contains(self.removed_new_pos@[0]));
            } else {
                assert(self.removed_set() =~= Set::<usize>::empty());
            }
        }
        r
    }
}

} // verus!
