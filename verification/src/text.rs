//! Character-level text helpers shared by the scanner and directive parser.
//!
//! All text is handled as sequences of `char` (the view of a `str`), so the
//! positions used throughout the library are character indices.
use vstd::prelude::*;
use vstd::std_specs::iter::IteratorSpec;

verus! {

/// Unicode `White_Space`, the property that `char::is_whitespace` and
/// `str::trim` go by.
pub open spec fn is_ws(c: char) -> bool {
    let u = c as u32;
    ||| 0x09 <= u <= 0x0D
    ||| u == 0x20
    ||| u == 0x85
    ||| u == 0xA0
    ||| u == 0x1680
    ||| 0x2000 <= u <= 0x200A
    ||| u == 0x2028
    ||| u == 0x2029
    ||| u == 0x202F
    ||| u == 0x205F
    ||| u == 0x3000
}

pub fn is_whitespace(c: char) -> (r: bool)
    ensures
        r == is_ws(c),
{
    let u: u32 = c as u32;
    (0x09 <= u && u <= 0x0D) || u == 0x20 || u == 0x85 || u == 0xA0 || u == 0x1680 || (0x2000
        <= u && u <= 0x200A) || u == 0x2028 || u == 0x2029 || u == 0x202F || u == 0x205F || u
        == 0x3000
}

pub open spec fn is_ascii_alpha(c: char) -> bool {
    ('a' <= c && c <= 'z') || ('A' <= c && c <= 'Z')
}

pub open spec fn is_ascii_digit(c: char) -> bool {
    '0' <= c && c <= '9'
}

/// Index of the first character at or after `i` that is not whitespace.
pub open spec fn skip_ws_from(s: Seq<char>, i: int) -> int
    decreases s.len() - i,
{
    if 0 <= i < s.len() && is_ws(s[i]) {
        skip_ws_from(s, i + 1)
    } else {
        i
    }
}

/// One past the last non-whitespace character at or before `j - 1`, not going below `lo`.
pub open spec fn trim_end_from(s: Seq<char>, lo: int, j: int) -> int
    decreases j - lo,
{
    if lo < j && j <= s.len() && is_ws(s[j - 1]) {
        trim_end_from(s, lo, j - 1)
    } else {
        j
    }
}

/// `str::trim_start`.
pub open spec fn trim_start(s: Seq<char>) -> Seq<char> {
    s.subrange(skip_ws_from(s, 0), s.len() as int)
}

/// `str::trim_end`.
pub open spec fn trim_end(s: Seq<char>) -> Seq<char> {
    s.subrange(0, trim_end_from(s, 0, s.len() as int))
}

/// `str::trim`.
pub open spec fn trim(s: Seq<char>) -> Seq<char> {
    trim_end(trim_start(s))
}

pub proof fn lemma_skip_ws_bounds(s: Seq<char>, i: int)
    requires
        0 <= i <= s.len(),
    ensures
        i <= skip_ws_from(s, i) <= s.len(),
        forall|k: int| i <= k < skip_ws_from(s, i) ==> is_ws(#[trigger] s[k]),
        skip_ws_from(s, i) < s.len() ==> !is_ws(s[skip_ws_from(s, i)]),
    decreases s.len() - i,
{
    if i < s.len() && is_ws(s[i]) {
        lemma_skip_ws_bounds(s, i + 1);
    }
}

pub proof fn lemma_trim_end_bounds(s: Seq<char>, lo: int, j: int)
    requires
        0 <= lo <= j <= s.len(),
    ensures
        lo <= trim_end_from(s, lo, j) <= j,
        forall|k: int| trim_end_from(s, lo, j) <= k < j ==> is_ws(#[trigger] s[k]),
        trim_end_from(s, lo, j) > lo ==> !is_ws(s[trim_end_from(s, lo, j) - 1]),
    decreases j - lo,
{
    if lo < j && is_ws(s[j - 1]) {
        lemma_trim_end_bounds(s, lo, j - 1);
    }
}

/// Whether `s` begins with `p`.
pub open spec fn starts_with(s: Seq<char>, p: Seq<char>) -> bool {
    p.len() <= s.len() && s.subrange(0, p.len() as int) == p
}

/// Whether `p` occurs in `s` starting at index `i`.
pub open spec fn occurs_at(s: Seq<char>, p: Seq<char>, i: int) -> bool {
    0 <= i && i + p.len() <= s.len() && s.subrange(i, i + p.len()) == p
}

/// `str::find`: the first index at or after `from` where `p` occurs.
pub open spec fn find_from(s: Seq<char>, p: Seq<char>, from: int) -> Option<int>
    decreases s.len() + 1 - from,
{
    if from < 0 || from + p.len() > s.len() {
        None
    } else if occurs_at(s, p, from) {
        Some(from)
    } else {
        find_from(s, p, from + 1)
    }
}

/// `str::find`.
pub open spec fn find(s: Seq<char>, p: Seq<char>) -> Option<int> {
    find_from(s, p, 0)
}

/// `str::contains`.
pub open spec fn contains(s: Seq<char>, p: Seq<char>) -> bool {
    find(s, p) is Some
}

/// `str::rfind`: the last index at or before `upto` where `p` occurs.
pub open spec fn rfind_upto(s: Seq<char>, p: Seq<char>, upto: int) -> Option<int>
    decreases upto + 1,
{
    if upto < 0 {
        None
    } else if occurs_at(s, p, upto) {
        Some(upto)
    } else {
        rfind_upto(s, p, upto - 1)
    }
}

/// `str::rfind`.
pub open spec fn rfind(s: Seq<char>, p: Seq<char>) -> Option<int> {
    rfind_upto(s, p, s.len() - p.len())
}

pub proof fn lemma_find_from_props(s: Seq<char>, p: Seq<char>, from: int)
    requires
        0 <= from,
    ensures
        find_from(s, p, from) matches Some(k) ==> from <= k && occurs_at(s, p, k) && forall|
            j: int,
        |
            from <= j < k ==> !occurs_at(s, p, j),
        find_from(s, p, from) is None ==> forall|j: int| from <= j ==> !occurs_at(s, p, j),
    decreases s.len() + 1 - from,
{
    if from + p.len() > s.len() {
    } else if occurs_at(s, p, from) {
    } else {
        lemma_find_from_props(s, p, from + 1);
    }
}

pub proof fn lemma_rfind_props(s: Seq<char>, p: Seq<char>, upto: int)
    ensures
        rfind_upto(s, p, upto) matches Some(k) ==> 0 <= k <= upto && occurs_at(s, p, k) && forall|
            j: int,
        |
            k < j <= upto ==> !occurs_at(s, p, j),
        rfind_upto(s, p, upto) is None ==> forall|j: int| 0 <= j <= upto ==> !occurs_at(s, p, j),
    decreases upto + 1,
{
    if upto >= 0 && !occurs_at(s, p, upto) {
        lemma_rfind_props(s, p, upto - 1);
    }
}

/// Copies `s[a..b]`.
pub fn copy_range(s: &[char], a: usize, b: usize) -> (r: Vec<char>)
    requires
        a <= b <= s@.len(),
    ensures
        r@ == s@.subrange(a as int, b as int),
{
    let mut r: Vec<char> = Vec::new();
    let mut i: usize = a;
    while i < b
        invariant
            a <= i <= b <= s@.len(),
            r@ == s@.subrange(a as int, i as int),
        decreases b - i,
    {
        r.push(s[i]);
        i = i + 1;
    }
    r
}

/// Copies a whole slice.
pub fn to_vec(s: &[char]) -> (r: Vec<char>)
    ensures
        r@ == s@,
{
    let r = copy_range(s, 0, s.len());
    assert(s@.subrange(0, s@.len() as int) == s@);
    r
}

/// Whether `p` occurs in `s` at index `i`.
pub fn matches_at(s: &[char], p: &[char], i: usize) -> (r: bool)
    ensures
        r == occurs_at(s@, p@, i as int),
{
    if i > s.len() || p.len() > s.len() - i {
        return false;
    }
    let mut k: usize = 0;
    while k < p.len()
        invariant
            i + p.len() <= s.len(),
            p@.len() == p.len(),
            s@.len() == s.len(),
            0 <= k <= p@.len(),
            forall|j: int| 0 <= j < k ==> s@[i + j] == p@[j],
        decreases p.len() - k,
    {
        if s[i + k] != p[k] {
            assert(s@.subrange(i as int, i + p@.len())[k as int] != p@[k as int]);
            return false;
        }
        k = k + 1;
    }
    assert(s@.subrange(i as int, i + p@.len()) =~= p@);
    true
}

/// `str::starts_with`.
pub fn has_prefix(s: &[char], p: &[char]) -> (r: bool)
    ensures
        r == starts_with(s@, p@),
{
    matches_at(s, p, 0)
}

/// `str::find` starting at `from`.
pub fn find_at(s: &[char], p: &[char], from: usize) -> (r: Option<usize>)
    ensures
        r matches Some(k) ==> find_from(s@, p@, from as int) == Some(k as int),
        r is None ==> find_from(s@, p@, from as int) is None,
{
    if from > s.len() {
        return None;
    }
    let mut i: usize = from;
    loop
        invariant
            from <= i <= s.len(),
            find_from(s@, p@, from as int) == find_from(s@, p@, i as int),
        decreases s.len() - i,
    {
        if p.len() > s.len() - i {
            return None;
        }
        if matches_at(s, p, i) {
            return Some(i);
        }
        if i == s.len() {
            assert(find_from(s@, p@, i as int + 1) is None);
            return None;
        }
        i = i + 1;
    }
}

/// `str::rfind`.
pub fn rfind_in(s: &[char], p: &[char]) -> (r: Option<usize>)
    ensures
        r matches Some(k) ==> rfind(s@, p@) == Some(k as int),
        r is None ==> rfind(s@, p@) is None,
{
    if p.len() > s.len() {
        return None;
    }
    let mut i: usize = s.len() - p.len();
    loop
        invariant
            i <= s@.len() - p@.len(),
            rfind(s@, p@) == rfind_upto(s@, p@, i as int),
        decreases i,
    {
        if matches_at(s, p, i) {
            return Some(i);
        }
        if i == 0 {
            assert(rfind_upto(s@, p@, -1) is None);
            return None;
        }
        i = i - 1;
    }
}

/// Index of the first non-whitespace character at or after `i`.
pub fn skip_ws(s: &[char], i: usize) -> (r: usize)
    requires
        i <= s@.len(),
    ensures
        r == skip_ws_from(s@, i as int),
        i <= r <= s@.len(),
{
    proof {
        lemma_skip_ws_bounds(s@, i as int);
    }
    let mut k: usize = i;
    while k < s.len() && is_whitespace(s[k])
        invariant
            i <= k <= s@.len(),
            skip_ws_from(s@, i as int) == skip_ws_from(s@, k as int),
        decreases s.len() - k,
    {
        k = k + 1;
    }
    k
}

/// One past the last non-whitespace character in `s[lo..j]` (or `lo`).
pub fn trim_end_index(s: &[char], lo: usize, j: usize) -> (r: usize)
    requires
        lo <= j <= s@.len(),
    ensures
        r == trim_end_from(s@, lo as int, j as int),
        lo <= r <= j,
{
    proof {
        lemma_trim_end_bounds(s@, lo as int, j as int);
    }
    let mut k: usize = j;
    while lo < k && is_whitespace(s[k - 1])
        invariant
            lo <= k <= j <= s@.len(),
            trim_end_from(s@, lo as int, j as int) == trim_end_from(s@, lo as int, k as int),
        decreases k,
    {
        k = k - 1;
    }
    k
}

pub proof fn lemma_trim_end_shift(s: Seq<char>, a: int, j: int)
    requires
        0 <= a <= j <= s.len(),
    ensures
        trim_end_from(s.subrange(a, s.len() as int), 0, j - a) == trim_end_from(s, a, j) - a,
    decreases j - a,
{
    let t = s.subrange(a, s.len() as int);
    if a < j {
        assert(t[j - a - 1] == s[j - 1]);
        if is_ws(s[j - 1]) {
            lemma_trim_end_shift(s, a, j - 1);
        }
    }
}

pub proof fn lemma_trim_end_prefix(s: Seq<char>, lo: int, j: int, n: int)
    requires
        0 <= lo <= j <= n <= s.len(),
    ensures
        trim_end_from(s.subrange(0, n), lo, j) == trim_end_from(s, lo, j),
    decreases j - lo,
{
    if lo < j {
        assert(s.subrange(0, n)[j - 1] == s[j - 1]);
        lemma_trim_end_prefix(s, lo, j - 1, n);
    }
}

/// `trim(s)` is `s[i..j]` for any bounds with only whitespace outside them
/// and no whitespace at either end inside them.
pub proof fn lemma_trim_is(s: Seq<char>, i: int, j: int)
    requires
        0 <= i <= j <= s.len(),
        forall|k: int| 0 <= k < i ==> is_ws(#[trigger] s[k]),
        forall|k: int| j <= k < s.len() ==> is_ws(#[trigger] s[k]),
        i < j ==> !is_ws(s[i]) && !is_ws(s[j - 1]),
    ensures
        trim(s) == s.subrange(i, j),
{
    lemma_skip_ws_bounds(s, 0);
    let a = skip_ws_from(s, 0);
    if i < j {
        if a < i {
            assert(is_ws(s[a]));
        }
        if a > i {
            assert(is_ws(s[i]));
        }
    } else {
        if a < s.len() {
            assert(is_ws(s[a]));
        }
    }
    let u = s.subrange(a, s.len() as int);
    lemma_trim_end_bounds(u, 0, u.len() as int);
    let e = trim_end_from(u, 0, u.len() as int);
    if i < j {
        if e < j - a {
            assert(u[j - a - 1] == s[j - 1]);
            assert(is_ws(u[j - a - 1]));
        }
        if e > j - a {
            assert(u[e - 1] == s[a + e - 1]);
            assert(is_ws(s[a + e - 1]));
        }
        assert(u.subrange(0, e) =~= s.subrange(i, j));
    } else {
        assert(u.subrange(0, e) =~= s.subrange(i, j));
    }
}

/// The bounds that `trim(s)` keeps of `s`.
pub proof fn lemma_trim_bounds(s: Seq<char>) -> (r: (int, int))
    ensures
        0 <= r.0 <= r.1 <= s.len(),
        forall|k: int| 0 <= k < r.0 ==> is_ws(#[trigger] s[k]),
        forall|k: int| r.1 <= k < s.len() ==> is_ws(#[trigger] s[k]),
        r.0 < r.1 ==> !is_ws(s[r.0]) && !is_ws(s[r.1 - 1]),
        trim(s) == s.subrange(r.0, r.1),
{
    lemma_skip_ws_bounds(s, 0);
    let a = skip_ws_from(s, 0);
    let u = s.subrange(a, s.len() as int);
    lemma_trim_end_bounds(u, 0, u.len() as int);
    let e = trim_end_from(u, 0, u.len() as int);
    assert forall|k: int| a + e <= k < s.len() implies is_ws(#[trigger] s[k]) by {
        assert(u[k - a] == s[k]);
    }
    if e > 0 {
        assert(u[e - 1] == s[a + e - 1]);
        assert(u[0] == s[a]);
    }
    assert(u.subrange(0, e) =~= s.subrange(a, a + e));
    (a, a + e)
}

/// `str::trim` of `s[a..b]`, as index bounds into `s`.
pub fn trim_range(s: &[char], a: usize, b: usize) -> (r: (usize, usize))
    requires
        a <= b <= s@.len(),
    ensures
        a <= r.0 <= r.1 <= b,
        s@.subrange(r.0 as int, r.1 as int) == trim(s@.subrange(a as int, b as int)),
{
    let mut st: usize = a;
    while st < b && is_whitespace(s[st])
        invariant
            a <= st <= b <= s@.len(),
            forall|k: int| a <= k < st ==> is_ws(#[trigger] s@[k]),
        decreases b - st,
    {
        st = st + 1;
    }
    let en = trim_end_index(s, st, b);
    proof {
        let w = s@.subrange(a as int, b as int);
        lemma_skip_ws_bounds(w, 0);
        let k0 = skip_ws_from(w, 0);
        // the first non-ws index of w is st - a
        assert(k0 == st - a) by {
            if k0 < st - a {
                assert(w[k0] == s@[a + k0]);
            }
            if k0 > st - a {
                assert(w[st - a] == s@[st as int]);
            }
        }
        let t = trim_start(w);
        assert(t =~= s@.subrange(st as int, b as int));
        lemma_trim_end_prefix(s@, st as int, b as int, b as int);
        lemma_trim_end_shift(s@.subrange(0, b as int), st as int, b as int);
        assert(s@.subrange(0, b as int).subrange(st as int, b as int) =~= t);
        assert(trim_end_from(t, 0, t.len() as int) == en - st);
        assert(trim(w) =~= s@.subrange(st as int, en as int));
    }
    (st, en)
}

/// Collects the characters of a string.
pub fn chars_of(s: &str) -> (r: Vec<char>)
    ensures
        r@ == s@,
{
    broadcast use vstd::string::group_string_axioms;

    let mut r: Vec<char> = Vec::new();
    for c in it: s.chars()
        invariant
            r@ == it.seq().take(it.index() as int),
            it.seq() == s@,
    {
        r.push(c);
    }
    r
}

} // verus!
