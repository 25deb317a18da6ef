//! The calls this library makes into `std` functions without a vstd
//! specification and into outside crates (`regex`, `globset`, `patchkit`).
//! Each item states what the library relies on; nothing here is proved.
use vstd::prelude::*;
use crate::udiff::{patches_result_view, HunkData, LineKind, PatchData, PatchV};
use patchkit::unified::{parse_patches, HunkLine, PlainOrBinaryPatch as Patch};

verus! {

/// Builds a `String` holding exactly the given characters
/// (`String::from_iter`, which appends each character in order).
#[verifier::external_body]
pub(crate) fn string_of(v: &[char]) -> (r: String)
    ensures
        r@ == v@,
{
    String::from_iter(v.iter())
}

/// What `regex::Regex::new(pattern)` followed by `captures(text)` yields: `None`
/// when the pattern does not compile or does not match, else the text of each
/// capture group in order (group 0 being the whole match), `None` for a group
/// that did not participate.
pub uninterp spec fn regex_captures_of(pattern: Seq<char>, text: Seq<char>) -> Option<
    Seq<Option<Seq<char>>>,
>;

/// What `regex::Regex::new(pattern)` followed by `is_match(text)` yields
/// (`false` when the pattern does not compile).
pub uninterp spec fn regex_is_match_of(pattern: Seq<char>, text: Seq<char>) -> bool;

pub open spec fn groups_view(v: Seq<Option<String>>) -> Seq<Option<Seq<char>>> {
    v.map_values(
        |g: Option<String>|
            match g {
                Some(s) => Some(s@),
                None => None,
            },
    )
}

/// Calls `regex::Regex::new` and `Regex::captures`, converting the groups to
/// owned strings. The result is the named value `regex_captures_of`.
#[verifier::external_body]
pub(crate) fn regex_captures(pattern: &str, text: &str) -> (r: Option<Vec<Option<String>>>)
    ensures
        r matches Some(v) ==> regex_captures_of(pattern@, text@) == Some(groups_view(v@)),
        r is None ==> regex_captures_of(pattern@, text@) is None,
{
    match regex::Regex::new(pattern) {
        Ok(re) => re.captures(text).map(
            |c| c.iter().map(|m| m.map(|m| m.as_str().to_string())).collect(),
        ),
        Err(_) => None,
    }
}

/// Calls `regex::Regex::new` and `Regex::is_match`. The result is the named
/// value `regex_is_match_of`.
#[verifier::external_body]
pub(crate) fn regex_is_match(pattern: &str, text: &str) -> (r: bool)
    ensures
        r == regex_is_match_of(pattern@, text@),
{
    match regex::Regex::new(pattern) {
        Ok(re) => re.is_match(text),
        Err(_) => false,
    }
}

// globset reads a `\` in a pattern, and separates paths at a `\`, by
// whether `std::path::is_separator('\\')` holds on the machine that runs
// it: with that bit as an argument, what it answers depends on its
// arguments alone. Each wrapper below reports the bit it ran with.

/// The longest glob pattern the library compiles, in characters. A glob's
/// literal prefix or suffix becomes an Aho-Corasick automaton, which
/// `globset` builds with `unwrap`; patterns of this size stay far below the
/// automaton's limits (about 2^31 bytes), so building never panics.
pub const MAX_GLOB_CHARS: usize = 268435456;

/// What the matcher set that `globset::GlobSetBuilder` builds from
/// `globset::Glob::new(pattern)` answers for `path`, on a machine where `\`
/// is a path separator exactly when `backslash_sep` holds.
pub uninterp spec fn glob_match_of(pattern: Seq<char>, backslash_sep: bool, path: Seq<char>) -> bool;

/// The message of the error that `globset::Glob::new(pattern)`, or building
/// a `GlobSet` of it, gives, if any, on a machine where `\` is a path
/// separator exactly when `backslash_sep` holds.
pub uninterp spec fn glob_error_of(pattern: Seq<char>, backslash_sep: bool) -> Option<Seq<char>>;

#[verifier::external_type_specification]
#[verifier::external_body]
pub struct ExGlobSet(globset::GlobSet);

/// An ignore pattern compiled once: its text, whether `\` separates paths
/// on the machine it was compiled on, and its matcher.
pub struct IgnorePattern {
    pattern: String,
    backslash_sep: bool,
    matcher: globset::GlobSet,
}

impl IgnorePattern {
    pub closed spec fn pattern_view(&self) -> Seq<char> {
        self.pattern@
    }

    /// Whether `\` separates paths where the pattern was compiled.
    pub closed spec fn backslash_sep_view(&self) -> bool {
        self.backslash_sep
    }

    /// The pattern's text.
    pub fn pattern(&self) -> (r: &String)
        ensures
            r@ == self.pattern_view(),
    {
        &self.pattern
    }
}

/// Calls `std::path::is_separator('\\')`, `globset::Glob::new` and
/// `GlobSetBuilder::add` and `build` (which, unlike `Glob::compile_matcher`,
/// reports a pattern its regex engine refuses, such as one nested too deep,
/// as an error), keeping the pattern's text and the separator bit beside the
/// set. The error is the named value `glob_error_of` for the reported bit.
#[verifier::external_body]
pub(crate) fn compile_glob(pattern: &str) -> (r: (bool, Result<IgnorePattern, String>))
    requires
        pattern@.len() <= MAX_GLOB_CHARS,
    ensures
        r.1 matches Ok(p) ==> p.pattern_view() == pattern@ && p.backslash_sep_view() == r.0 && glob_error_of(
            pattern@,
            r.0,
        ) is None,
        r.1 matches Err(e) ==> glob_error_of(pattern@, r.0) == Some(e@),
{
    let backslash_sep = std::path::is_separator('\\');
    (backslash_sep, match globset::Glob::new(pattern) {
        Ok(g) => match globset::GlobSetBuilder::new().add(g).build() {
            Ok(set) => Ok(IgnorePattern { pattern: pattern.to_string(), backslash_sep, matcher: set }),
            Err(e) => Err(e.to_string()),
        },
        Err(e) => Err(e.to_string()),
    })
}

/// Calls `GlobSet::is_match` on the set built from the pattern's text. The
/// result is the named value `glob_match_of` for the separator bit of the
/// machine it was built on (the one it runs on).
#[verifier::external_body]
pub(crate) fn glob_matches(p: &IgnorePattern, path: &str) -> (r: bool)
    ensures
        r == glob_match_of(p.pattern_view(), p.backslash_sep_view(), path@),
{
    p.matcher.is_match(path)
}

/// Whether `std::str::from_utf8` reports an invalid sequence (its error's
/// `error_len()` is `Some`) rather than a character cut off at the end.
pub uninterp spec fn utf8_invalid_of(bytes: Seq<u8>) -> bool;

/// Calls `std::str::from_utf8`: `Ok` with the decoded text exactly when the
/// bytes are UTF-8 (as its documentation states), else whether the error is
/// an invalid sequence (named `utf8_invalid_of`).
#[verifier::external_body]
pub(crate) fn from_utf8(bytes: &[u8]) -> (r: Result<String, bool>)
    ensures
        r is Ok <==> vstd::utf8::valid_utf8(bytes@),
        r matches Ok(s) ==> s@ == vstd::utf8::decode_utf8(bytes@),
        r matches Err(invalid) ==> invalid == utf8_invalid_of(bytes@),
{
    match std::str::from_utf8(bytes) {
        Ok(s) => Ok(s.to_string()),
        Err(e) => Err(e.error_len().is_some()),
    }
}

/// What `String::from_utf8_lossy` makes of the bytes.
pub uninterp spec fn lossy_of(bytes: Seq<u8>) -> Seq<char>;

/// Calls `String::from_utf8_lossy`. The result is the named value
/// `lossy_of`; as its documentation states, UTF-8 input decodes unchanged.
#[verifier::external_body]
pub(crate) fn utf8_lossy(bytes: &[u8]) -> (r: String)
    ensures
        r@ == lossy_of(bytes@),
        vstd::utf8::valid_utf8(bytes@) ==> r@ == vstd::utf8::decode_utf8(bytes@),
{
    String::from_utf8_lossy(bytes).into_owned()
}

/// What `patchkit::unified::parse_patches` yields for the text split into
/// lines (each keeping its `\n`): the file patches up to the first error,
/// or that error's message.
pub uninterp spec fn patches_of(raw: Seq<char>) -> Result<Seq<PatchV>, Seq<char>>;

/// Calls `patchkit::unified::parse_patches` on the lines of `raw` and
/// converts each patch: header paths, hunk positions and line kinds. The
/// result is the named value `patches_of`.
#[verifier::external_body]
pub(crate) fn parse_unified(raw: &str) -> (r: Result<Vec<PatchData>, String>)
    ensures
        patches_result_view(r) == patches_of(raw@),
{
    let mut out = Vec::new();
    for entry in parse_patches(raw.split_inclusive('\n').map(|l| l.as_bytes().to_vec())) {
        out.push(match entry.map_err(|e| e.to_string())? {
            Patch::Plain(p) => PatchData::Plain(p.orig_name, p.mod_name, p.hunks.iter().map(|h| HunkData {
                orig_pos: h.orig_pos, mod_pos: h.mod_pos, lines: h.lines.iter().map(|l| match l {
                    HunkLine::ContextLine(_) => LineKind::Context,
                    HunkLine::InsertLine(_) => LineKind::Insert,
                    HunkLine::RemoveLine(_) => LineKind::Remove,
                }).collect() }).collect()),
            Patch::Binary(_) => PatchData::Binary,
        });
    }
    Ok(out)
}

/// What `globset::GlobBuilder::new(pattern)` with `literal_separator(true)`,
/// built into a `GlobSet`, gives on a machine where `\` is a path separator
/// exactly when `backslash_sep` holds: the error's message when the glob or
/// the set does not build, else whether the set matches each path.
pub uninterp spec fn path_glob_of(pattern: Seq<char>, backslash_sep: bool, paths: Seq<Seq<char>>) -> Result<
    Seq<bool>,
    Seq<char>,
>;

pub open spec fn bools_result_view(r: Result<Vec<bool>, String>) -> Result<Seq<bool>, Seq<char>> {
    match r {
        Ok(v) => Ok(v@),
        Err(e) => Err(e@),
    }
}

/// Calls `std::path::is_separator('\\')`, then `globset::GlobBuilder::new`
/// with `literal_separator(true)` and `build`, `GlobSetBuilder::add` and
/// `build`, and `GlobSet::is_match` on each path. The result is the named
/// value `path_glob_of` for the reported separator bit; it has one answer
/// per path.
#[verifier::external_body]
pub(crate) fn path_glob(pattern: &str, paths: &Vec<String>) -> (r: (bool, Result<Vec<bool>, String>))
    requires
        pattern@.len() <= MAX_GLOB_CHARS,
    ensures
        bools_result_view(r.1) == path_glob_of(pattern@, r.0, paths@.map_values(|p: String| p@)),
        r.1 matches Ok(v) ==> v@.len() == paths@.len(),
{
    let backslash_sep = std::path::is_separator('\\');
    (backslash_sep, match globset::GlobBuilder::new(pattern).literal_separator(true).build() {
        Ok(glob) => match globset::GlobSetBuilder::new().add(glob).build() {
            Ok(set) => Ok(paths.iter().map(|p| set.is_match(p)).collect()),
            Err(e) => Err(e.to_string()),
        },
        Err(e) => Err(e.to_string()),
    })
}

} // verus!
