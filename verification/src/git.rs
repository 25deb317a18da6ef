//! What the git backend computes around its git commands: ref ranges,
//! `NO_IFTTT=` suppressions in commit messages, `git ls-files --stage`
//! records and `git grep` output, and its configuration.
use vstd::prelude::*;
use crate::ext::{lossy_of, path_glob, path_glob_of, string_of, utf8_lossy, MAX_GLOB_CHARS};
use crate::parser::{line_views, lines_of, split_lines};
use crate::text::{chars_of, copy_range, has_prefix, lemma_rfind_props, rfind, rfind_in, starts_with};
use crate::vcs::{slashes, strings_view, NoneVcsProvider};

verus! {

/// The object id git uses for "no commit" (a new or deleted branch).
pub const NULL_OID: &'static str = "0000000000000000000000000000000000000000";


// ─── Where the diff comes from ───

/// Where a diff is read from.
#[derive(Debug)]
pub enum DiffSource {
    /// The upstream range on a terminal, else standard input.
    Auto,
    /// Standard input (`-`).
    Stdin,
    /// `git diff` of the range, with the range to scan for `NO_IFTTT` tags.
    Range { diff_range: String, log_range: String },
    /// A patch file.
    File(String),
}

pub enum DiffSourceV {
    Auto,
    Stdin,
    Range { diff_range: Seq<char>, log_range: Seq<char> },
    File(Seq<char>),
}

pub open spec fn source_view(s: DiffSource) -> DiffSourceV {
    match s {
        DiffSource::Auto => DiffSourceV::Auto,
        DiffSource::Stdin => DiffSourceV::Stdin,
        DiffSource::Range { diff_range, log_range } => DiffSourceV::Range {
            diff_range: diff_range@,
            log_range: log_range@,
        },
        DiffSource::File(p) => DiffSourceV::File(p@),
    }
}

pub open spec fn unknown_input_message(arg: Seq<char>) -> Seq<char> {
    "'"@ + arg + "' is not a file or git ref range (use BASE...HEAD syntax)"@
}

/// Where the diff named by the `--diff` argument comes from: nothing means
/// auto-detection, `-` standard input, an argument with `..` a ref range
/// (a three-dot range is scanned for tags as the matching two-dot range),
/// and an existing path a patch file; anything else is refused.
pub open spec fn input_source(input: Option<Seq<char>>, path_exists: bool) -> Result<DiffSourceV, Seq<char>> {
    match input {
        None => Ok(DiffSourceV::Auto),
        Some(a) => if a == "-"@ {
            Ok(DiffSourceV::Stdin)
        } else if crate::text::contains(a, ".."@) {
            Ok(DiffSourceV::Range { diff_range: a, log_range: log_range_of(a) })
        } else if path_exists {
            Ok(DiffSourceV::File(a))
        } else {
            Err(unknown_input_message(a))
        },
    }
}

/// Decides where the diff comes from (see `input_source`); whether the
/// argument names an existing path is the caller's to find out.
pub fn resolve_input(input: &Option<String>, path_exists: bool) -> (r: Result<DiffSource, String>)
    ensures
        (match r {
            Ok(s) => input_source(crate::directive::opt_view(*input), path_exists) == Ok::<DiffSourceV, Seq<char>>(
                source_view(s),
            ),
            Err(e) => input_source(crate::directive::opt_view(*input), path_exists) == Err::<DiffSourceV, Seq<char>>(e@),
        }),
{
    match input {
        None => Ok(DiffSource::Auto),
        Some(arg) => {
            let a = chars_of(arg.as_str());
            let dots = chars_of("..");
            proof {
                reveal_strlit("-");
                reveal_strlit("..");
            }
            if crate::vcs::str_eq(arg.as_str(), "-") {
                Ok(DiffSource::Stdin)
            } else if crate::text::find_at(a.as_slice(), dots.as_slice(), 0).is_some() {
                let log_range = three_dot_to_log_range(arg.as_str());
                Ok(DiffSource::Range { diff_range: arg.clone(), log_range })
            } else if path_exists {
                Ok(DiffSource::File(arg.clone()))
            } else {
                let mut m = chars_of("'");
                crate::msg::push_str(&mut m, arg.as_str());
                crate::msg::push_str(&mut m, "' is not a file or git ref range (use BASE...HEAD syntax)");
                Err(string_of(m.as_slice()))
            }
        },
    }
}

// ─── The range to check when none is given ───

pub open spec fn no_upstream_message() -> Seq<char> {
    "no upstream branch found. Provide a ref range (e.g. main...HEAD) or pipe a diff"@
}

/// The range checked when none is given on a terminal: from the upstream
/// branch to the current commit (`HEAD` when it has no name), else from
/// `origin/main`, else from `origin/master`; with none of them, nothing can
/// be checked.
pub open spec fn detected_range_of(
    upstream: Option<Seq<char>>,
    head: Option<Seq<char>>,
    origin_main: bool,
    origin_master: bool,
) -> Result<Seq<char>, Seq<char>> {
    match upstream {
        Some(u) => Ok(u + "..."@ + match head {
            Some(h) => h,
            None => "HEAD"@,
        }),
        None => if origin_main {
            Ok("origin/main...HEAD"@)
        } else if origin_master {
            Ok("origin/master...HEAD"@)
        } else {
            Err(no_upstream_message())
        },
    }
}

/// Decides the range to check when none is given (see
/// `detected_range_of`); whether the upstream, the current commit and the
/// two remote branches exist is the caller's to find out.
pub fn detected_range(
    upstream: &Option<String>,
    head: &Option<String>,
    origin_main: bool,
    origin_master: bool,
) -> (r: Result<String, String>)
    ensures
        (match detected_range_of(
            crate::directive::opt_view(*upstream),
            crate::directive::opt_view(*head),
            origin_main,
            origin_master,
        ) {
            Ok(x) => r matches Ok(s) && s@ == x,
            Err(x) => r matches Err(s) && s@ == x,
        }),
{
    match upstream {
        Some(u) => {
            let mut m = chars_of(u.as_str());
            crate::msg::push_str(&mut m, "...");
            match head {
                Some(h) => crate::msg::push_str(&mut m, h.as_str()),
                None => crate::msg::push_str(&mut m, "HEAD"),
            }
            Ok(string_of(m.as_slice()))
        },
        None => if origin_main {
            Ok("origin/main...HEAD".to_string())
        } else if origin_master {
            Ok("origin/master...HEAD".to_string())
        } else {
            Err("no upstream branch found. Provide a ref range (e.g. main...HEAD) or pipe a diff".to_string())
        },
    }
}

// ─── Ref ranges ───

/// `str::rsplit_once`: the text around the last occurrence of `p`.
pub open spec fn rsplit_once(s: Seq<char>, p: Seq<char>) -> Option<(Seq<char>, Seq<char>)> {
    match rfind(s, p) {
        Some(k) => Some((s.subrange(0, k), s.subrange(k + p.len(), s.len() as int))),
        None => None,
    }
}

proof fn rfind_upto_is(s: Seq<char>, p: Seq<char>, k: int)
    requires
        rfind(s, p) == Some(k),
    ensures
        0 <= k && k + p.len() <= s.len(),
{
    lemma_rfind_props(s, p, s.len() - p.len());
}

fn rsplit_once_exec(s: &[char], p: &[char]) -> (r: Option<(Vec<char>, Vec<char>)>)
    ensures
        (match rsplit_once(s@, p@) {
            Some((a, b)) => r matches Some(x) && x.0@ == a && x.1@ == b,
            None => r is None,
        }),
{
    let n = s.len();
    match rfind_in(s, p) {
        Some(k) => {
            proof {
                lemma_rfind_props(s@, p@, s@.len() - p@.len());
                rfind_upto_is(s@, p@, k as int);
            }
            Some((copy_range(s, 0, k), copy_range(s, k + p.len(), n)))
        },
        None => None,
    }
}

/// A symmetric-difference range `base...head` as the log range
/// `base..head`; only the last `...` separates (a `...` inside a ref name
/// stays).
pub open spec fn log_range_of(range: Seq<char>) -> Seq<char> {
    match rsplit_once(range, "..."@) {
        Some((base, head)) => base + ".."@ + head,
        None => range,
    }
}

/// Converts a three-dot range (`base...head`) to a two-dot log range
/// (`base..head`) for `git log`.
pub fn three_dot_to_log_range(range: &str) -> (r: String)
    ensures
        r@ == log_range_of(range@),
{
    let cs = chars_of(range);
    let sep = chars_of("...");
    match rsplit_once_exec(cs.as_slice(), sep.as_slice()) {
        Some((base, head)) => {
            let mut v = base;
            crate::msg::push_str(&mut v, "..");
            crate::msg::push_chars(&mut v, head.as_slice());
            string_of(v.as_slice())
        },
        None => range.to_owned(),
    }
}

/// The base and head of a range: around its last `...`, else its last `..`.
pub open spec fn split_range(range: Seq<char>) -> Option<(Seq<char>, Seq<char>)> {
    match rsplit_once(range, "..."@) {
        Some(x) => Some(x),
        None => rsplit_once(range, ".."@),
    }
}

/// Whether a side of the range is the null object id.
pub open spec fn null_ref_in(range: Seq<char>) -> bool {
    match split_range(range) {
        Some((base, head)) => base == NULL_OID@ || head == NULL_OID@,
        None => false,
    }
}

pub fn range_has_null_ref(range: &str) -> (r: bool)
    ensures
        r == null_ref_in(range@),
{
    let cs = chars_of(range);
    let three = chars_of("...");
    let two = chars_of("..");
    let parts = match rsplit_once_exec(cs.as_slice(), three.as_slice()) {
        Some(x) => Some(x),
        None => rsplit_once_exec(cs.as_slice(), two.as_slice()),
    };
    match parts {
        Some((base, head)) => {
            let null = chars_of(NULL_OID);
            crate::skip::slices_equal(base.as_slice(), null.as_slice()) || crate::skip::slices_equal(
                head.as_slice(),
                null.as_slice(),
            )
        },
        None => false,
    }
}

// ─── NO_IFTTT suppressions ───

/// `s` without every leading copy of `p` (`str::trim_start_matches`).
pub open spec fn trim_start_all(s: Seq<char>, p: Seq<char>) -> Seq<char>
    decreases s.len(),
{
    if p.len() > 0 && starts_with(s, p) {
        trim_start_all(s.subrange(p.len() as int, s.len() as int), p)
    } else {
        s
    }
}

/// The first of the lines from `i` on that starts with `p`.
pub open spec fn first_with_prefix(ls: Seq<Seq<char>>, p: Seq<char>, i: int) -> Option<Seq<char>>
    decreases ls.len() - i,
{
    if i < 0 || i >= ls.len() {
        None
    } else if starts_with(ls[i], p) {
        Some(ls[i])
    } else {
        first_with_prefix(ls, p, i + 1)
    }
}

/// The reason given by the first line of a commit log that starts with
/// `NO_IFTTT=` (all leading `NO_IFTTT=` removed).
pub open spec fn suppression_of(log: Seq<char>) -> Option<Seq<char>> {
    match first_with_prefix(lines_of(log), "NO_IFTTT="@, 0) {
        Some(l) => Some(trim_start_all(l, "NO_IFTTT="@)),
        None => None,
    }
}

fn trim_start_all_exec(s: &[char], p: &[char]) -> (r: Vec<char>)
    ensures
        r@ == trim_start_all(s@, p@),
{
    let mut i: usize = 0;
    assert(s@.subrange(0, s@.len() as int) =~= s@);
    while p.len() > 0 && crate::text::matches_at(s, p, i)
        invariant
            i <= s@.len(),
            trim_start_all(s@, p@) == trim_start_all(s@.subrange(i as int, s@.len() as int), p@),
        decreases s.len() - i,
    {
        let ghost rest = s@.subrange(i as int, s@.len() as int);
        assert(rest.subrange(0, p@.len() as int) =~= s@.subrange(i as int, i + p@.len()));
        assert(rest.subrange(p@.len() as int, rest.len() as int) =~= s@.subrange(i + p@.len(), s@.len() as int));
        i = i + p.len();
    }
    proof {
        let rest = s@.subrange(i as int, s@.len() as int);
        if p@.len() > 0 && starts_with(rest, p@) {
            assert(rest.subrange(0, p@.len() as int) =~= s@.subrange(i as int, i + p@.len()));
        }
    }
    copy_range(s, i, s.len())
}

/// The `NO_IFTTT=` reason in a commit log, if any.
pub fn parse_no_ifttt(log: &str) -> (r: Option<String>)
    ensures
        (match suppression_of(log@) {
            Some(x) => r matches Some(s) && s@ == x,
            None => r is None,
        }),
{
    let cs = chars_of(log);
    let lines = split_lines(cs.as_slice());
    let ghost lv = line_views(lines@);
    let prefix = chars_of("NO_IFTTT=");
    let mut i: usize = 0;
    while i < lines.len()
        invariant
            i <= lv.len(),
            lv == line_views(lines@),
            lv == lines_of(log@),
            prefix@ == "NO_IFTTT="@,
            first_with_prefix(lv, prefix@, 0) == first_with_prefix(lv, prefix@, i as int),
        decreases lines.len() - i,
    {
        assert(lv[i as int] == lines@[i as int]@);
        if has_prefix(lines[i].as_slice(), prefix.as_slice()) {
            let reason = trim_start_all_exec(lines[i].as_slice(), prefix.as_slice());
            return Some(string_of(reason.as_slice()));
        }
        i = i + 1;
    }
    None
}

// ─── git ls-files --stage ───

/// The mode git gives submodule entries (gitlinks).
pub open spec fn gitlink_mode() -> Seq<u8> {
    seq![49u8, 54u8, 48u8, 48u8, 48u8, 48u8]
}

/// The index of the first `x` in `b` from `i` on.
pub open spec fn first_byte(b: Seq<u8>, x: u8, i: int) -> Option<int>
    decreases b.len() - i,
{
    if i < 0 || i >= b.len() {
        None
    } else if b[i] == x {
        Some(i)
    } else {
        first_byte(b, x, i + 1)
    }
}

/// The path of a `<mode> <oid> <stage>\t<path>` record, with `\` turned
/// into `/`; none for an empty or malformed record or a submodule.
pub open spec fn stage_record_path(b: Seq<u8>) -> Option<Seq<char>> {
    if b.len() == 0 {
        None
    } else {
        match first_byte(b, 9u8, 0) {
            None => None,
            Some(t) => {
                let meta = b.subrange(0, t);
                let mode = match first_byte(meta, 32u8, 0) {
                    Some(s) => meta.subrange(0, s),
                    None => meta,
                };
                if mode == gitlink_mode() {
                    None
                } else {
                    Some(slashes(lossy_of(b.subrange(t + 1, b.len() as int))))
                }
            },
        }
    }
}

fn find_byte(b: &[u8], x: u8, end: usize) -> (r: Option<usize>)
    requires
        end <= b@.len(),
    ensures
        (match first_byte(b@.subrange(0, end as int), x, 0) {
            Some(k) => r matches Some(j) && j as int == k && j < end,
            None => r is None,
        }),
{
    let ghost s = b@.subrange(0, end as int);
    let mut i: usize = 0;
    while i < end
        invariant
            i <= end <= b@.len(),
            s == b@.subrange(0, end as int),
            first_byte(s, x, 0) == first_byte(s, x, i as int),
        decreases end - i,
    {
        if b[i] == x {
            assert(s[i as int] == x);
            return Some(i);
        }
        i = i + 1;
    }
    None
}

/// The path of one NUL-separated record of `git ls-files -z --stage`.
pub fn parse_ls_files_stage_record(bytes: &[u8]) -> (r: Option<String>)
    ensures
        (match stage_record_path(bytes@) {
            Some(p) => r matches Some(s) && s@ == p,
            None => r is None,
        }),
{
    if bytes.len() == 0 {
        return None;
    }
    assert(bytes@.subrange(0, bytes@.len() as int) =~= bytes@);
    let t = match find_byte(bytes, 9u8, bytes.len()) {
        Some(t) => t,
        None => {
            return None;
        },
    };
    let mode_end = match find_byte(bytes, 32u8, t) {
        Some(s) => s,
        None => t,
    };
    let gitlink: [u8; 6] = [49u8, 54u8, 48u8, 48u8, 48u8, 48u8];
    assert(gitlink@ =~= gitlink_mode());
    let mut is_gitlink = mode_end == 6;
    let mut k: usize = 0;
    while k < 6 && is_gitlink
        invariant
            k <= 6,
            gitlink@ == gitlink_mode(),
            mode_end <= t < bytes@.len(),
            is_gitlink ==> mode_end == 6 && forall|j: int| 0 <= j < k ==> bytes@[j] == gitlink_mode()[j],
            !is_gitlink ==> !(mode_end == 6 && forall|j: int| 0 <= j < 6 ==> bytes@[j] == gitlink_mode()[j]),
        decreases 6 - k,
    {
        if bytes[k] != gitlink[k] {
            is_gitlink = false;
        }
        k = k + 1;
    }
    proof {
        let meta = bytes@.subrange(0, t as int);
        let mode = bytes@.subrange(0, mode_end as int);
        assert(meta.subrange(0, mode_end as int) =~= mode);
        if is_gitlink {
            assert(mode =~= gitlink_mode());
        } else if mode == gitlink_mode() {
            assert forall|j: int| 0 <= j < 6 implies bytes@[j] == gitlink_mode()[j] by {
                assert(mode[j] == bytes@[j]);
            }
        }
    }
    if is_gitlink {
        return None;
    }
    let path = utf8_lossy(&bytes[t + 1..bytes.len()]);
    let pc = chars_of(path.as_str());
    let mut out: Vec<char> = Vec::new();
    let mut i: usize = 0;
    while i < pc.len()
        invariant
            i <= pc@.len(),
            out@ == slashes(pc@.subrange(0, i as int)),
        decreases pc.len() - i,
    {
        out.push(if pc[i] == '\\' { '/' } else { pc[i] });
        i = i + 1;
        assert(out@ =~= slashes(pc@.subrange(0, i as int)));
    }
    assert(pc@.subrange(0, pc@.len() as int) =~= pc@);
    Some(string_of(out.as_slice()))
}

// ─── git grep output ───

/// The non-empty lines of `git grep -l` output, with `\` turned into `/`.
pub open spec fn grep_paths(ls: Seq<Seq<char>>, n: int) -> Seq<Seq<char>>
    decreases n,
{
    if n <= 0 {
        Seq::empty()
    } else {
        grep_paths(ls, n - 1) + (if ls[n - 1].len() > 0 {
            seq![slashes(ls[n - 1])]
        } else {
            Seq::empty()
        })
    }
}

pub fn parse_grep_output(stdout: &str) -> (r: Vec<String>)
    ensures
        strings_view(r@) == grep_paths(lines_of(stdout@), lines_of(stdout@).len() as int),
{
    let cs = chars_of(stdout);
    let lines = split_lines(cs.as_slice());
    let ghost lv = line_views(lines@);
    let mut out: Vec<String> = Vec::new();
    let mut i: usize = 0;
    while i < lines.len()
        invariant
            i <= lv.len(),
            lv == line_views(lines@),
            lv == lines_of(stdout@),
            strings_view(out@) == grep_paths(lv, i as int),
        decreases lines.len() - i,
    {
        let l = &lines[i];
        assert(lv[i as int] == l@);
        let ghost o0 = strings_view(out@);
        if l.len() > 0 {
            let mut v: Vec<char> = Vec::new();
            let mut k: usize = 0;
            while k < l.len()
                invariant
                    k <= l@.len(),
                    v@ == slashes(l@.subrange(0, k as int)),
                decreases l.len() - k,
            {
                v.push(if l[k] == '\\' { '/' } else { l[k] });
                k = k + 1;
                assert(v@ =~= slashes(l@.subrange(0, k as int)));
            }
            assert(l@.subrange(0, l@.len() as int) =~= l@);
            out.push(string_of(v.as_slice()));
            assert(strings_view(out@) =~= o0.push(slashes(l@)));
        }
        assert(strings_view(out@) =~= grep_paths(lv, i + 1));
        i = i + 1;
    }
    out
}


// ─── File arguments ───

/// Whether a file argument is a glob pattern (holds `*`, `?` or `[`).
pub open spec fn is_glob(s: Seq<char>) -> bool {
    s.contains('*') || s.contains('?') || s.contains('[')
}

pub fn is_glob_pattern(s: &str) -> (r: bool)
    ensures
        r == is_glob(s@),
{
    let cs = chars_of(s);
    let mut i: usize = 0;
    while i < cs.len()
        invariant
            i <= cs@.len(),
            cs@ == s@,
            forall|k: int| 0 <= k < i ==> cs@[k] != '*' && cs@[k] != '?' && cs@[k] != '[',
        decreases cs.len() - i,
    {
        if cs[i] == '*' || cs[i] == '?' || cs[i] == '[' {
            assert(s@.contains(cs@[i as int]));
            return true;
        }
        i = i + 1;
    }
    false
}

/// The paths of `listed` that `keep` selects, in order.
pub open spec fn selected(listed: Seq<Seq<char>>, keep: Seq<bool>, n: int) -> Seq<Seq<char>>
    decreases n,
{
    if n <= 0 {
        Seq::empty()
    } else {
        selected(listed, keep, n - 1) + (if keep[n - 1] {
            seq![listed[n - 1]]
        } else {
            Seq::empty()
        })
    }
}

/// What one file argument expands to: itself unless it is a glob; a glob
/// gives the listed files it matches (`/` only matched literally), or
/// itself when it does not compile. `backslash_sep` says whether `\` is a
/// path separator on the machine that matched.
pub open spec fn expansion(f: Seq<char>, listed: Seq<Seq<char>>, backslash_sep: bool) -> Seq<Seq<char>> {
    if !is_glob(f) {
        seq![f]
    } else {
        match path_glob_of(f, backslash_sep, listed) {
            Ok(keep) => selected(listed, keep, listed.len() as int),
            Err(_) => seq![f],
        }
    }
}

/// The expansions of the first `n` file arguments, the `i`-th matched where
/// the separator bit was `seps[i]`.
pub open spec fn expansions(files: Seq<Seq<char>>, listed: Seq<Seq<char>>, seps: Seq<bool>, n: int) -> Seq<
    Seq<char>,
>
    decreases n,
{
    if n <= 0 {
        Seq::empty()
    } else {
        expansions(files, listed, seps, n - 1) + expansion(files[n - 1], listed, seps[n - 1])
    }
}

/// The warnings for glob arguments that do not compile.
pub open spec fn glob_warnings(files: Seq<Seq<char>>, listed: Seq<Seq<char>>, seps: Seq<bool>, n: int) -> Seq<
    Seq<char>,
>
    decreases n,
{
    if n <= 0 {
        Seq::empty()
    } else {
        let f = files[n - 1];
        let g = path_glob_of(f, seps[n - 1], listed);
        glob_warnings(files, listed, seps, n - 1) + (if is_glob(f) && g is Err {
            seq!["warning: invalid glob pattern '"@ + f + "': "@ + g->Err_0]
        } else {
            Seq::empty()
        })
    }
}

/// Expands glob file arguments against the listed files; other arguments
/// pass through. Also gives a warning for each glob that does not compile.
/// How globset reads `\` depends on the machine: the result is that of
/// `expansions` for the separator bits the matching ran with.
pub fn expand_file_globs(files: &Vec<String>, listed: &Vec<String>) -> (r: (Vec<String>, Vec<String>))
    requires
        forall|i: int| 0 <= i < files@.len() ==> #[trigger] files@[i]@.len() <= MAX_GLOB_CHARS,
    ensures
        exists|seps: Seq<bool>|
            strings_view(r.0@) == expansions(strings_view(files@), strings_view(listed@), seps, files@.len() as int)
                && strings_view(r.1@) == glob_warnings(
                strings_view(files@),
                strings_view(listed@),
                seps,
                files@.len() as int,
            ),
{
    let ghost fv = strings_view(files@);
    let ghost tv = strings_view(listed@);
    let ghost mut seps: Seq<bool> = Seq::empty();
    assert(listed@.map_values(|p: String| p@) =~= tv);
    let mut out: Vec<String> = Vec::new();
    let mut warnings: Vec<String> = Vec::new();
    let mut i: usize = 0;
    while i < files.len()
        invariant
            i <= fv.len(),
            fv == strings_view(files@),
            tv == strings_view(listed@),
            listed@.map_values(|p: String| p@) == tv,
            forall|k: int| 0 <= k < files@.len() ==> #[trigger] files@[k]@.len() <= MAX_GLOB_CHARS,
            seps.len() == i,
            strings_view(out@) == expansions(fv, tv, seps, i as int),
            strings_view(warnings@) == glob_warnings(fv, tv, seps, i as int),
        decreases files.len() - i,
    {
        let f = &files[i];
        assert(fv[i as int] == f@);
        let ghost o0 = strings_view(out@);
        let ghost w0 = strings_view(warnings@);
        let ghost mut sep: bool = false;
        if !is_glob_pattern(f.as_str()) {
            out.push(f.clone());
            assert(strings_view(out@) =~= o0 + seq![f@]);
        } else {
            let (backslash_sep, globbed) = path_glob(f.as_str(), listed);
            proof {
                sep = backslash_sep;
            }
            match globbed {
                Ok(keep) => {
                    let mut k: usize = 0;
                    while k < listed.len()
                        invariant
                            k <= listed@.len(),
                            keep@.len() == listed@.len(),
                            tv == strings_view(listed@),
                            strings_view(out@) == o0 + selected(tv, keep@, k as int),
                        decreases listed.len() - k,
                    {
                        let ghost o1 = strings_view(out@);
                        if keep[k] {
                            out.push(listed[k].clone());
                            assert(strings_view(out@) =~= o1.push(tv[k as int]));
                        }
                        assert(strings_view(out@) =~= o0 + selected(tv, keep@, k + 1));
                        k = k + 1;
                    }
                },
                Err(e) => {
                    out.push(f.clone());
                    assert(strings_view(out@) =~= o0 + seq![f@]);
                    let mut m = chars_of("warning: invalid glob pattern '");
                    crate::msg::push_str(&mut m, f.as_str());
                    crate::msg::push_str(&mut m, "': ");
                    crate::msg::push_str(&mut m, e.as_str());
                    warnings.push(string_of(m.as_slice()));
                    assert(strings_view(warnings@) =~= w0 + seq![
                        "warning: invalid glob pattern '"@ + f@ + "': "@ + e@
                    ]);
                },
            }
        }
        proof {
            let s2 = seps.push(sep);
            assert(s2[i as int] == sep);
            lemma_expansions_prefix(fv, tv, seps, s2, i as int);
            assert(expansions(fv, tv, s2, i + 1) == expansions(fv, tv, seps, i as int) + expansion(f@, tv, sep));
            seps = s2;
        }
        assert(strings_view(out@) =~= expansions(fv, tv, seps, i + 1));
        assert(strings_view(warnings@) =~= glob_warnings(fv, tv, seps, i + 1));
        i = i + 1;
    }
    (out, warnings)
}

proof fn lemma_expansions_prefix(files: Seq<Seq<char>>, listed: Seq<Seq<char>>, a: Seq<bool>, b: Seq<bool>, n: int)
    requires
        0 <= n <= a.len() <= b.len(),
        forall|k: int| 0 <= k < a.len() ==> a[k] == b[k],
    ensures
        expansions(files, listed, b, n) == expansions(files, listed, a, n),
        glob_warnings(files, listed, b, n) == glob_warnings(files, listed, a, n),
    decreases n,
{
    if n > 0 {
        lemma_expansions_prefix(files, listed, a, b, n - 1);
        assert(a[n - 1] == b[n - 1]);
    }
}

/// A file argument as a root-relative `/`-separated path: an absolute path
/// must lie under `root`; `\` becomes `/` and a leading `./` is dropped;
/// nothing is left of an empty path.
pub open spec fn input_path(path: Seq<char>, root: Seq<char>) -> Option<Seq<char>> {
    let rel = if path.len() > 0 && path[0] == '/' {
        if starts_with(path, root + seq!['/']) {
            Some(path.subrange(root.len() as int + 1, path.len() as int))
        } else {
            None
        }
    } else {
        Some(path)
    };
    match rel {
        None => None,
        Some(r) => {
            let s = slashes(r);
            let t = if starts_with(s, "./"@) {
                s.subrange(2, s.len() as int)
            } else {
                s
            };
            if t.len() == 0 {
                None
            } else {
                Some(t)
            }
        },
    }
}

pub fn normalize_input_path(path: &str, root: &str) -> (r: Option<String>)
    ensures
        (match input_path(path@, root@) {
            Some(p) => r matches Some(x) && x@ == p,
            None => r is None,
        }),
{
    proof {
        reveal_strlit("./");
    }
    let pc = chars_of(path);
    let start: usize = if pc.len() > 0 && pc[0] == '/' {
        let mut prefix = chars_of(root);
        prefix.push('/');
        assert(prefix@ =~= root@ + seq!['/']);
        if !has_prefix(pc.as_slice(), prefix.as_slice()) {
            return None;
        }
        prefix.len()
    } else {
        0
    };
    assert(pc@.subrange(0, pc@.len() as int) =~= pc@);
    let mut s: Vec<char> = Vec::new();
    let mut i: usize = start;
    while i < pc.len()
        invariant
            start <= i <= pc@.len(),
            s@ == slashes(pc@.subrange(start as int, i as int)),
        decreases pc.len() - i,
    {
        s.push(if pc[i] == '\\' { '/' } else { pc[i] });
        i = i + 1;
        assert(s@ =~= slashes(pc@.subrange(start as int, i as int)));
    }
    proof {
        let rel = pc@.subrange(start as int, pc@.len() as int);
        if start == 0 {
            assert(rel =~= path@);
        }
        assert(s@ == slashes(rel));
    }
    let dot = chars_of("./");
    let t = if has_prefix(s.as_slice(), dot.as_slice()) {
        copy_range(s.as_slice(), 2, s.len())
    } else {
        s
    };
    if t.len() == 0 {
        None
    } else {
        Some(string_of(t.as_slice()))
    }
}

// ─── The git backend's configuration ───

/// The git backend: a filesystem backend plus the ref range to diff (none
/// when only structural validation is asked for). Running git is done by
/// the program around the library.
pub struct GitVcsProvider {
    inner: NoneVcsProvider,
    diff_range: Option<String>,
}

impl GitVcsProvider {
    pub closed spec fn inner_view(&self) -> NoneVcsProvider {
        self.inner
    }

    pub closed spec fn range_view(&self) -> Option<Seq<char>> {
        crate::directive::opt_view(self.diff_range)
    }

    /// The backend for `root`: `files` are the file arguments (globs already
    /// expanded), each with whether it names a symbolic link; symbolic links
    /// are dropped and the others become root-relative paths (see
    /// `input_files`).
    pub fn new(root: String, diff_range: Option<String>, strict: bool, files: Vec<(String, bool)>) -> (r: GitVcsProvider)
        ensures
            r.inner_view().root_view() == root@,
            r.inner_view().strict_view() == strict,
            r.inner_view().files_view() == input_files(flagged_view(files@), root@, files@.len() as int),
            r.range_view() == crate::directive::opt_view(diff_range),
    {
        let kept = keep_input_files(&files, root.as_str());
        GitVcsProvider { inner: NoneVcsProvider::new(root, strict, kept), diff_range }
    }

    pub fn inner(&self) -> (r: &NoneVcsProvider)
        ensures
            *r == self.inner_view(),
    {
        &self.inner
    }

    pub fn diff_range(&self) -> (r: &Option<String>)
        ensures
            crate::directive::opt_view(*r) == self.range_view(),
    {
        &self.diff_range
    }

    /// The range to diff, unless it names the null object id (then there is
    /// nothing to diff).
    pub fn effective_diff_range(&self) -> (r: Option<&String>)
        ensures
            (match self.range_view() {
                Some(x) => if null_ref_in(x) {
                    r is None
                } else {
                    r matches Some(s) && s@ == x
                },
                None => r is None,
            }),
    {
        match &self.diff_range {
            Some(range) => if range_has_null_ref(range.as_str()) {
                None
            } else {
                Some(range)
            },
            None => None,
        }
    }

    /// The log range to read `NO_IFTTT=` reasons from, unless there is no
    /// range or it names the null object id.
    pub fn suppression_log_range(&self) -> (r: Option<String>)
        ensures
            (match self.range_view() {
                Some(x) => if null_ref_in(log_range_of(x)) {
                    r is None
                } else {
                    r matches Some(s) && s@ == log_range_of(x)
                },
                None => r is None,
            }),
    {
        match &self.diff_range {
            Some(range) => {
                let log = three_dot_to_log_range(range.as_str());
                if range_has_null_ref(log.as_str()) {
                    None
                } else {
                    Some(log)
                }
            },
            None => None,
        }
    }
}


pub open spec fn flagged_view(v: Seq<(String, bool)>) -> Seq<(Seq<char>, bool)> {
    v.map_values(|e: (String, bool)| (e.0@, e.1))
}

/// The files to validate, from the first `n` arguments each flagged with
/// whether it names a symbolic link: symbolic links are dropped, the others
/// made root-relative (`input_path`), and those that cannot be are dropped.
pub open spec fn input_files(files: Seq<(Seq<char>, bool)>, root: Seq<char>, n: int) -> Seq<Seq<char>>
    decreases n,
{
    if n <= 0 {
        Seq::empty()
    } else {
        input_files(files, root, n - 1) + (if files[n - 1].1 {
            Seq::empty()
        } else {
            match input_path(files[n - 1].0, root) {
                Some(p) => seq![p],
                None => Seq::empty(),
            }
        })
    }
}

/// The files to validate (see `input_files`).
pub fn keep_input_files(files: &Vec<(String, bool)>, root: &str) -> (r: Vec<String>)
    ensures
        strings_view(r@) == input_files(flagged_view(files@), root@, files@.len() as int),
{
    let ghost fv = flagged_view(files@);
    let mut out: Vec<String> = Vec::new();
    let mut i: usize = 0;
    while i < files.len()
        invariant
            i <= files@.len(),
            fv == flagged_view(files@),
            strings_view(out@) == input_files(fv, root@, i as int),
        decreases files.len() - i,
    {
        let ghost o0 = strings_view(out@);
        assert(fv[i as int] == (files@[i as int].0@, files@[i as int].1));
        if !files[i].1 {
            if let Some(p) = normalize_input_path(files[i].0.as_str(), root) {
                out.push(p);
                assert(strings_view(out@) =~= o0.push(input_path(fv[i as int].0, root@)->0));
            }
        }
        assert(strings_view(out@) =~= input_files(fv, root@, i + 1));
        i = i + 1;
    }
    out
}

// ─── Laws ───

/// A range without `...` is already a log range: it is left as it is.
pub proof fn law_log_range_without_three_dots(range: Seq<char>)
    requires
        rfind(range, "..."@) is None,
    ensures
        log_range_of(range) == range,
{
}

} // verus!
