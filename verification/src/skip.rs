//! Skip regions: string literals, heredocs, raw strings and other constructs
//! whose contents must not be mistaken for comments.
//!
//! A skip region is opened by a `try_open` recogniser and described by a
//! [`SkipClose`] value that knows how to find its end on later text.
use vstd::prelude::*;
use crate::ext::{groups_view, regex_captures, regex_captures_of, string_of};
use crate::text::{
    chars_of, to_vec, contains, occurs_at, copy_range, find, find_at, has_prefix,
    lemma_find_from_props, lemma_skip_ws_bounds, skip_ws, starts_with, trim, trim_range,
    trim_start,
};

verus! {

/// The mathematical model of a [`SkipClose`].
pub enum SkipCloseV {
    BacktickString,
    CsRaw(usize),
    CsVerbatim,
    FencedCode(char, usize),
    FixedClose(Seq<char>),
    Heredoc(Seq<char>),
    HtmlBlock(Seq<char>),
    NixIndent,
    PercentLiteral(char, bool, usize),
    PhpHeredoc(Seq<char>),
    PsHereString(Seq<char>),
    SingleLineChar(char),
    UnescapedChar(char),
}

// ─── Shared scanning specs ───

/// One past the first `target` at or after `pos` that is not escaped by a
/// backslash (a backslash skips the character after it).
pub open spec fn unescaped_from(s: Seq<char>, target: char, pos: int) -> Option<int>
    decreases s.len() - pos,
{
    if pos < 0 || pos >= s.len() {
        None
    } else if s[pos] == '\\' {
        unescaped_from(s, target, if pos + 2 <= s.len() { pos + 2 } else { s.len() as int })
    } else if s[pos] == target {
        Some(pos + 1)
    } else {
        unescaped_from(s, target, pos + 1)
    }
}

/// `find_unescaped_char`.
pub open spec fn unescaped(s: Seq<char>, target: char) -> Option<int> {
    unescaped_from(s, target, 0)
}

pub proof fn lemma_unescaped_bounds(s: Seq<char>, target: char, pos: int)
    requires
        0 <= pos,
    ensures
        unescaped_from(s, target, pos) matches Some(k) ==> pos < k <= s.len() && s[k - 1]
            == target,
    decreases s.len() - pos,
{
    if pos < s.len() {
        if s[pos] == '\\' {
            lemma_unescaped_bounds(
                s,
                target,
                if pos + 2 <= s.len() {
                    pos + 2
                } else {
                    s.len() as int
                },
            );
        } else if s[pos] != target {
            lemma_unescaped_bounds(s, target, pos + 1);
        }
    }
}

/// Returns the position just after the first unescaped `target`.
pub fn find_unescaped_char(s: &[char], target: char) -> (r: Option<usize>)
    ensures
        r matches Some(k) ==> unescaped(s@, target) == Some(k as int),
        r is None ==> unescaped(s@, target) is None,
{
    let mut pos: usize = 0;
    while pos < s.len()
        invariant
            pos <= s@.len(),
            unescaped(s@, target) == unescaped_from(s@, target, pos as int),
        decreases s.len() - pos,
    {
        if s[pos] == '\\' {
            pos = if s.len() - pos >= 2 {
                pos + 2
            } else {
                s.len()
            };
            continue;
        }
        if s[pos] == target {
            return Some(pos + 1);
        }
        pos = pos + 1;
    }
    None
}

/// Length of the run of `c` starting at `pos`.
pub open spec fn run_len(s: Seq<char>, c: char, pos: int) -> int
    decreases s.len() - pos,
{
    if 0 <= pos < s.len() && s[pos] == c {
        1 + run_len(s, c, pos + 1)
    } else {
        0
    }
}

pub proof fn lemma_run_len_bounds(s: Seq<char>, c: char, pos: int)
    requires
        0 <= pos <= s.len(),
    ensures
        0 <= run_len(s, c, pos) <= s.len() - pos,
        forall|k: int| pos <= k < pos + run_len(s, c, pos) ==> s[k] == c,
        pos + run_len(s, c, pos) < s.len() ==> s[pos + run_len(s, c, pos)] != c,
    decreases s.len() - pos,
{
    if pos < s.len() && s[pos] == c {
        lemma_run_len_bounds(s, c, pos + 1);
    }
}

pub fn count_run(s: &[char], c: char, pos: usize) -> (r: usize)
    requires
        pos <= s@.len(),
    ensures
        r == run_len(s@, c, pos as int),
        pos + r <= s@.len(),
{
    proof {
        lemma_run_len_bounds(s@, c, pos as int);
    }
    let mut k: usize = pos;
    while k < s.len() && s[k] == c
        invariant
            pos <= k <= s@.len(),
            run_len(s@, c, pos as int) == (k - pos) + run_len(s@, c, k as int),
        decreases s.len() - k,
    {
        k = k + 1;
    }
    k - pos
}

/// ASCII case folding of a single character.
pub open spec fn ascii_lower(c: char) -> char {
    if 'A' <= c && c <= 'Z' {
        ((c as u32) + 32) as char
    } else {
        c
    }
}

pub fn to_ascii_lower(c: char) -> (r: char)
    ensures
        r == ascii_lower(c),
{
    if 'A' <= c && c <= 'Z' {
        let u: u32 = (c as u32) + 32;
        assert(0x61 <= u <= 0x7a);
        char_from_ascii(u)
    } else {
        c
    }
}

/// `char::from_u32` restricted to ASCII values, where it always succeeds.
fn char_from_ascii(u: u32) -> (r: char)
    requires
        u < 128,
    ensures
        r == u as char,
{
    (u as u8) as char
}

/// `<[u8]>::eq_ignore_ascii_case` on `s[i..i + p.len()]` and `p`.
pub open spec fn ci_occurs_at(s: Seq<char>, p: Seq<char>, i: int) -> bool {
    0 <= i && i + p.len() <= s.len() && forall|k: int|
        0 <= k < p.len() ==> ascii_lower(#[trigger] s[i + k]) == ascii_lower(p[k])
}

/// First window at or after `from` equal to `p` ignoring ASCII case.
pub open spec fn ci_find_from(s: Seq<char>, p: Seq<char>, from: int) -> Option<int>
    decreases s.len() + 1 - from,
{
    if from < 0 || from + p.len() > s.len() {
        None
    } else if ci_occurs_at(s, p, from) {
        Some(from)
    } else {
        ci_find_from(s, p, from + 1)
    }
}

pub fn ci_matches_at(s: &[char], p: &[char], i: usize) -> (r: bool)
    ensures
        r == ci_occurs_at(s@, p@, i as int),
{
    if i > s.len() || p.len() > s.len() - i {
        return false;
    }
    let mut k: usize = 0;
    while k < p.len()
        invariant
            i + p.len() <= s.len(),
            0 <= k <= p.len(),
            forall|j: int| 0 <= j < k ==> ascii_lower(#[trigger] s@[i + j]) == ascii_lower(p@[j]),
        decreases p.len() - k,
    {
        if to_ascii_lower(s[i + k]) != to_ascii_lower(p[k]) {
            return false;
        }
        k = k + 1;
    }
    true
}

pub fn ci_find(s: &[char], p: &[char]) -> (r: Option<usize>)
    ensures
        r matches Some(k) ==> ci_find_from(s@, p@, 0) == Some(k as int),
        r is None ==> ci_find_from(s@, p@, 0) is None,
{
    let mut i: usize = 0;
    loop
        invariant
            i <= s.len(),
            ci_find_from(s@, p@, 0) == ci_find_from(s@, p@, i as int),
        decreases s.len() - i,
    {
        if p.len() > s.len() - i {
            return None;
        }
        if ci_matches_at(s, p, i) {
            return Some(i);
        }
        if i == s.len() {
            assert(ci_find_from(s@, p@, i as int + 1) is None);
            return None;
        }
        i = i + 1;
    }
}

// ─── Close strategies ───

/// JS / TS template literal backticks.
#[derive(Debug, Clone)]
pub struct BacktickString;

/// C++ raw strings (`R"delim(…)delim"`).
#[derive(Debug)]
pub struct CppRaw;

/// C# raw string literals (`"""…"""`, `""""…""""`, etc.).
#[derive(Debug, Clone)]
pub struct CsRaw {
    pub quote_count: usize,
}

/// C# verbatim strings (`@"…"`). `""` is escape; lone `"` closes.
#[derive(Debug, Clone)]
pub struct CsVerbatim;

/// SQL dollar-quoted strings (`$$…$$`, `$tag$…$tag$`).
#[derive(Debug)]
pub struct DollarQuote;

/// Markdown / RST fenced code blocks (``` or ~~~).
#[derive(Debug, Clone)]
pub struct FencedCode {
    pub fence_char: char,
    pub fence_count: usize,
}

/// Close strategy for `SkipPattern::Fixed` — literal substring match.
#[derive(Debug, Clone)]
pub struct FixedClose {
    pub close: Vec<char>,
}

/// Shell / Ruby / Perl heredocs (`<<EOF`, `<<~EOF`, `<<-'EOF'`).
#[derive(Debug, Clone)]
pub struct Heredoc {
    pub ident: Vec<char>,
}

/// HTML `<script>`, `<style>`, and `<![CDATA[` blocks.
#[derive(Debug, Clone)]
pub struct HtmlBlock {
    pub close: Vec<char>,
}

/// Lua / CMake long bracket strings (`[==[…]==]`).
#[derive(Debug)]
pub struct LongBracket;

/// Nix indented strings (`''…''`).
#[derive(Debug, Clone)]
pub struct NixIndent;

/// Ruby / Perl percent-literals (`%q(…)`, `%w[…]`, `qq!…!`, etc.).
#[derive(Debug, Clone)]
pub struct PercentLiteral {
    pub close_char: char,
    pub paired: bool,
    pub depth: usize,
}

/// PHP heredocs (`<<<EOF`, `<<<'EOF'`).
#[derive(Debug, Clone)]
pub struct PhpHeredoc {
    pub ident: Vec<char>,
}

/// PowerShell here-strings (`@"…"@`, `@'…'@`).
#[derive(Debug, Clone)]
pub struct PsHereString {
    pub close: Vec<char>,
}

/// R raw strings (`r"(…)"`, `r"-(…)-"`, `r"{…}"`).
#[derive(Debug)]
pub struct RRaw;

/// Rust raw strings (`r#"…"#`, `r##"…"##`).
#[derive(Debug)]
pub struct RustRaw;

/// Swift extended string delimiters (`#"…"#`, `#"""…"""#`).
#[derive(Debug)]
pub struct SwiftExtended;

/// Double-quoted string literal (`"…"`); an unclosed `"` spans lines.
#[derive(Debug)]
pub struct DqString;

/// Single-quoted string literal (`'…'`); an unclosed `'` skips to end of line only.
#[derive(Debug)]
pub struct SqString;

/// Close strategy for single-line string literals.
#[derive(Debug, Clone)]
pub struct SingleLineChar {
    pub target: char,
}

/// Close strategy for unclosed string literals on code lines.
#[derive(Debug, Clone)]
pub struct UnescapedChar {
    pub target: char,
}

/// How an open skip region ends.
#[derive(Debug, Clone)]
pub enum SkipClose {
    BacktickString(BacktickString),
    CsRaw(CsRaw),
    CsVerbatim(CsVerbatim),
    FencedCode(FencedCode),
    FixedClose(FixedClose),
    Heredoc(Heredoc),
    HtmlBlock(HtmlBlock),
    NixIndent(NixIndent),
    PercentLiteral(PercentLiteral),
    PhpHeredoc(PhpHeredoc),
    PsHereString(PsHereString),
    SingleLineChar(SingleLineChar),
    UnescapedChar(UnescapedChar),
}

impl View for SkipClose {
    type V = SkipCloseV;

    open spec fn view(&self) -> SkipCloseV {
        match self {
            SkipClose::BacktickString(_) => SkipCloseV::BacktickString,
            SkipClose::CsRaw(x) => SkipCloseV::CsRaw(x.quote_count),
            SkipClose::CsVerbatim(_) => SkipCloseV::CsVerbatim,
            SkipClose::FencedCode(x) => SkipCloseV::FencedCode(x.fence_char, x.fence_count),
            SkipClose::FixedClose(x) => SkipCloseV::FixedClose(x.close@),
            SkipClose::Heredoc(x) => SkipCloseV::Heredoc(x.ident@),
            SkipClose::HtmlBlock(x) => SkipCloseV::HtmlBlock(x.close@),
            SkipClose::NixIndent(_) => SkipCloseV::NixIndent,
            SkipClose::PercentLiteral(x) => SkipCloseV::PercentLiteral(
                x.close_char,
                x.paired,
                x.depth,
            ),
            SkipClose::PhpHeredoc(x) => SkipCloseV::PhpHeredoc(x.ident@),
            SkipClose::PsHereString(x) => SkipCloseV::PsHereString(x.close@),
            SkipClose::SingleLineChar(x) => SkipCloseV::SingleLineChar(x.target),
            SkipClose::UnescapedChar(x) => SkipCloseV::UnescapedChar(x.target),
        }
    }
}

/// Whether a run of at least `q` quotes occurs at or after `pos`.
pub open spec fn cs_raw_close_from(s: Seq<char>, q: usize, pos: int) -> bool
    decreases s.len() - pos,
{
    if pos < 0 || pos >= s.len() {
        false
    } else if s[pos] == '"' {
        proof {
            lemma_run_len_bounds(s, '"', pos);
        }
        let n = run_len(s, '"', pos);
        if n >= q {
            true
        } else if n > 0 {
            cs_raw_close_from(s, q, pos + n)
        } else {
            false
        }
    } else {
        cs_raw_close_from(s, q, pos + 1)
    }
}

/// A lone `"` (not part of a `""` escape) at or after `pos`.
pub open spec fn cs_verbatim_close_from(s: Seq<char>, pos: int) -> bool
    decreases s.len() - pos,
{
    if pos < 0 || pos >= s.len() {
        false
    } else if s[pos] == '"' {
        if pos + 1 < s.len() && s[pos + 1] == '"' {
            cs_verbatim_close_from(s, pos + 2)
        } else {
            true
        }
    } else {
        cs_verbatim_close_from(s, pos + 1)
    }
}

/// A closing `''` at or after `pos` that is not one of the escapes `''$`, `'''`, `''\`.
pub open spec fn nix_close_from(s: Seq<char>, pos: int) -> bool
    decreases s.len() - pos,
{
    if pos < 0 || pos + 1 >= s.len() {
        false
    } else if s[pos] == '\'' && s[pos + 1] == '\'' {
        if pos + 2 < s.len() && (s[pos + 2] == '$' || s[pos + 2] == '\'' || s[pos + 2] == '\\') {
            nix_close_from(s, pos + 3)
        } else {
            true
        }
    } else {
        nix_close_from(s, pos + 1)
    }
}

/// The opening bracket that pairs with a closing one.
pub open spec fn open_of(close: char) -> Option<char> {
    if close == ')' {
        Some('(')
    } else if close == ']' {
        Some('[')
    } else if close == '}' {
        Some('{')
    } else if close == '>' {
        Some('<')
    } else {
        None
    }
}

pub open spec fn sat_inc(d: usize) -> usize {
    if d == usize::MAX {
        d
    } else {
        (d + 1) as usize
    }
}

pub open spec fn sat_dec(d: usize) -> usize {
    if d == 0 {
        0
    } else {
        (d - 1) as usize
    }
}

pub open spec fn skip_escape(s: Seq<char>, pos: int) -> int {
    if pos + 2 <= s.len() {
        pos + 2
    } else {
        s.len() as int
    }
}

/// Whether a percent-literal closes at or after `pos`, given the nesting depth `d`.
pub open spec fn pl_close_from(s: Seq<char>, close: char, paired: bool, pos: int, d: usize) -> bool
    decreases s.len() - pos,
{
    if pos < 0 || pos >= s.len() {
        false
    } else if s[pos] == '\\' {
        pl_close_from(s, close, paired, skip_escape(s, pos), d)
    } else if !paired {
        if s[pos] == close {
            true
        } else {
            pl_close_from(s, close, paired, pos + 1, d)
        }
    } else if open_of(close) matches Some(o) && s[pos] == o {
        pl_close_from(s, close, paired, pos + 1, sat_inc(d))
    } else if s[pos] == close {
        if d == 0 {
            true
        } else {
            pl_close_from(s, close, paired, pos + 1, sat_dec(d))
        }
    } else {
        pl_close_from(s, close, paired, pos + 1, d)
    }
}

/// The nesting depth of a paired percent-literal after the rest of a line from `pos`.
pub open spec fn pl_depth_from(s: Seq<char>, close: char, open: char, pos: int, d: usize) -> usize
    decreases s.len() - pos,
{
    if pos < 0 || pos >= s.len() {
        d
    } else if s[pos] == '\\' {
        pl_depth_from(s, close, open, skip_escape(s, pos), d)
    } else if s[pos] == open {
        pl_depth_from(s, close, open, pos + 1, sat_inc(d))
    } else if s[pos] == close {
        pl_depth_from(s, close, open, pos + 1, sat_dec(d))
    } else {
        pl_depth_from(s, close, open, pos + 1, d)
    }
}

/// `trim`, then drop one trailing `;`, then `trim` again.
pub open spec fn heredoc_terminator(line: Seq<char>) -> Seq<char> {
    let t = trim(line);
    if t.len() > 0 && t.last() == ';' {
        trim(t.drop_last())
    } else {
        trim(t)
    }
}

/// Whether a line is a closing fence for `fence_count` or more `fence_char`s.
pub open spec fn fence_closes(line: Seq<char>, c: char, count: usize) -> bool {
    let t = trim(line);
    &&& t.len() > 0
    &&& t[0] == c
    &&& run_len(t, c, 0) >= count
    &&& trim(t.subrange(run_len(t, c, 0), t.len() as int)).len() == 0
}

/// Whether the region described by `sc` closes somewhere on `line`.
pub open spec fn closes_on(sc: SkipCloseV, line: Seq<char>) -> bool {
    match sc {
        SkipCloseV::BacktickString => unescaped(line, '`') is Some,
        SkipCloseV::CsRaw(q) => cs_raw_close_from(line, q, 0),
        SkipCloseV::CsVerbatim => cs_verbatim_close_from(line, 0),
        SkipCloseV::FencedCode(c, n) => fence_closes(line, c, n),
        SkipCloseV::FixedClose(close) => contains(line, close),
        SkipCloseV::Heredoc(ident) => heredoc_terminator(line) == ident,
        SkipCloseV::HtmlBlock(close) => ci_find_from(line, close, 0) is Some,
        SkipCloseV::NixIndent => nix_close_from(line, 0),
        SkipCloseV::PercentLiteral(close, paired, d) => pl_close_from(line, close, paired, 0, d),
        SkipCloseV::PhpHeredoc(ident) => heredoc_terminator(line) == ident,
        SkipCloseV::PsHereString(close) => starts_with(line, close),
        SkipCloseV::SingleLineChar(t) => unescaped(line, t) is Some,
        SkipCloseV::UnescapedChar(t) => unescaped(line, t) is Some,
    }
}

/// Where, within `after`, the text following a same-line close begins.
/// Line-oriented closers consume the whole line.
pub open spec fn close_offset(sc: SkipCloseV, after: Seq<char>) -> Option<int> {
    match sc {
        SkipCloseV::BacktickString => unescaped(after, '`'),
        SkipCloseV::FixedClose(close) => match find(after, close) {
            Some(p) => Some(p + close.len()),
            None => None,
        },
        SkipCloseV::HtmlBlock(close) => match ci_find_from(after, close, 0) {
            Some(p) => Some(p + close.len()),
            None => None,
        },
        SkipCloseV::SingleLineChar(t) => unescaped(after, t),
        SkipCloseV::UnescapedChar(t) => unescaped(after, t),
        _ => Some(after.len() as int),
    }
}

/// The region still open after a whole line, or `None` once it closes.
pub open spec fn advance_over(sc: SkipCloseV, line: Seq<char>) -> Option<SkipCloseV> {
    match sc {
        SkipCloseV::PercentLiteral(close, paired, d) => if closes_on(sc, line) {
            None
        } else if !paired {
            Some(sc)
        } else {
            match open_of(close) {
                Some(o) => Some(SkipCloseV::PercentLiteral(close, paired, pl_depth_from(line, close, o, 0, d))),
                None => Some(sc),
            }
        },
        _ => if closes_on(sc, line) {
            None
        } else {
            Some(sc)
        },
    }
}

// ─── Opener models ───

pub open spec fn backtick_open(s: Seq<char>) -> Option<(SkipCloseV, int)> {
    if s.len() > 0 && s[0] == '`' {
        Some((SkipCloseV::BacktickString, 1))
    } else {
        None
    }
}

pub open spec fn cs_raw_open(s: Seq<char>) -> Option<(SkipCloseV, int)> {
    let n = run_len(s, '"', 0);
    if n >= 3 {
        Some((SkipCloseV::CsRaw(n as usize), n))
    } else {
        None
    }
}

pub open spec fn cs_verbatim_open(s: Seq<char>) -> Option<(SkipCloseV, int)> {
    if starts_with(s, seq!['@', '"']) {
        Some((SkipCloseV::CsVerbatim, 2))
    } else {
        None
    }
}

pub open spec fn fenced_code_open(s: Seq<char>) -> Option<(SkipCloseV, int)> {
    let t = trim_start(s);
    if t.len() > 0 && (t[0] == '`' || t[0] == '~') && run_len(t, t[0], 0) >= 3 {
        Some((SkipCloseV::FencedCode(t[0], run_len(t, t[0], 0) as usize), s.len() as int))
    } else {
        None
    }
}

pub open spec fn html_block_open(s: Seq<char>) -> Option<(SkipCloseV, int)> {
    match html_open(s) {
        Some((close, n)) => Some((SkipCloseV::HtmlBlock(close), n)),
        None => None,
    }
}

pub open spec fn long_bracket_skip_open(s: Seq<char>) -> Option<(SkipCloseV, int)> {
    match long_bracket_open(s) {
        Some((close, n)) => Some((SkipCloseV::FixedClose(close), n)),
        None => None,
    }
}

pub open spec fn nix_indent_open(s: Seq<char>) -> Option<(SkipCloseV, int)> {
    if s.len() >= 2 && s[0] == '\'' && s[1] == '\'' && !(s.len() >= 3 && s[2] == '\'') {
        Some((SkipCloseV::NixIndent, 2))
    } else {
        None
    }
}

pub open spec fn dq_string_open(s: Seq<char>) -> Option<(SkipCloseV, int)> {
    if s.len() > 0 && s[0] == '"' {
        Some((SkipCloseV::UnescapedChar('"'), 1))
    } else {
        None
    }
}

pub open spec fn sq_string_open(s: Seq<char>) -> Option<(SkipCloseV, int)> {
    if s.len() > 0 && s[0] == '\'' {
        Some((SkipCloseV::SingleLineChar('\''), 1))
    } else {
        None
    }
}

/// Whether an exec opener result agrees with its model.
pub open spec fn open_result_is(r: Option<(SkipClose, usize)>, m: Option<(SkipCloseV, int)>) -> bool {
    match r {
        Some((sc, n)) => m == Some((sc@, n as int)),
        None => m is None,
    }
}

impl BacktickString {
    pub fn try_open(s: &[char]) -> (r: Option<(SkipClose, usize)>)
        ensures
            open_result_is(r, backtick_open(s@)),
    {
        if s.len() > 0 && s[0] == '`' {
            Some((SkipClose::BacktickString(BacktickString), 1))
        } else {
            None
        }
    }

    pub fn check_close(&self, line: &[char]) -> (r: bool)
        ensures
            r == closes_on(SkipCloseV::BacktickString, line@),
    {
        find_unescaped_char(line, '`').is_some()
    }

    pub fn find_close_offset(&self, after: &[char]) -> (r: Option<usize>)
        ensures
            r matches Some(k) ==> close_offset(SkipCloseV::BacktickString, after@) == Some(k as int),
            r is None ==> close_offset(SkipCloseV::BacktickString, after@) is None,
    {
        find_unescaped_char(after, '`')
    }
}

impl CsRaw {
    pub fn try_open(s: &[char]) -> (r: Option<(SkipClose, usize)>)
        ensures
            open_result_is(r, cs_raw_open(s@)),
    {
        proof {
            lemma_run_len_bounds(s@, '"', 0);
        }
        let count = count_run(s, '"', 0);
        if count < 3 {
            return None;
        }
        Some((SkipClose::CsRaw(CsRaw { quote_count: count }), count))
    }

    pub fn check_close(&self, line: &[char]) -> (r: bool)
        ensures
            r == closes_on(SkipCloseV::CsRaw(self.quote_count), line@),
    {
        let mut pos: usize = 0;
        while pos < line.len()
            invariant
                pos <= line@.len(),
                cs_raw_close_from(line@, self.quote_count, 0) == cs_raw_close_from(
                    line@,
                    self.quote_count,
                    pos as int,
                ),
            decreases line.len() - pos,
        {
            if line[pos] == '"' {
                let count = count_run(line, '"', pos);
                proof {
                    lemma_run_len_bounds(line@, '"', pos as int);
                }
                if count >= self.quote_count {
                    return true;
                }
                pos = pos + count;
                continue;
            }
            pos = pos + 1;
        }
        false
    }

    pub fn find_close_offset(&self, after: &[char]) -> (r: Option<usize>)
        ensures
            r matches Some(k) && k as int == after@.len(),
    {
        Some(after.len())
    }
}

impl CsVerbatim {
    pub fn try_open(s: &[char]) -> (r: Option<(SkipClose, usize)>)
        ensures
            open_result_is(r, cs_verbatim_open(s@)),
    {
        if s.len() >= 2 && s[0] == '@' && s[1] == '"' {
            assert(s@.subrange(0, 2) =~= seq!['@', '"']);
            Some((SkipClose::CsVerbatim(CsVerbatim), 2))
        } else {
            proof {
                if s@.len() >= 2 {
                    assert(s@.subrange(0, 2)[0] == s@[0]);
                    assert(s@.subrange(0, 2)[1] == s@[1]);
                }
            }
            None
        }
    }

    pub fn check_close(&self, line: &[char]) -> (r: bool)
        ensures
            r == closes_on(SkipCloseV::CsVerbatim, line@),
    {
        let mut pos: usize = 0;
        while pos < line.len()
            invariant
                pos <= line@.len(),
                cs_verbatim_close_from(line@, 0) == cs_verbatim_close_from(line@, pos as int),
            decreases line.len() - pos,
        {
            if line[pos] == '"' {
                if line.len() - pos > 1 && line[pos + 1] == '"' {
                    pos = pos + 2;
                    continue;
                }
                return true;
            }
            pos = pos + 1;
        }
        false
    }

    pub fn find_close_offset(&self, after: &[char]) -> (r: Option<usize>)
        ensures
            r matches Some(k) && k as int == after@.len(),
    {
        Some(after.len())
    }
}

impl FencedCode {
    pub fn try_open(s: &[char]) -> (r: Option<(SkipClose, usize)>)
        ensures
            open_result_is(r, fenced_code_open(s@)),
    {
        let st = skip_ws(s, 0);
        proof {
            lemma_skip_ws_bounds(s@, 0);
        }
        let ghost t = trim_start(s@);
        if st >= s.len() {
            return None;
        }
        let fc = s[st];
        assert(t[0] == fc);
        if fc != '`' && fc != '~' {
            return None;
        }
        let count = count_run(s, fc, st);
        proof {
            lemma_run_len_bounds(s@, fc, st as int);
            lemma_run_len_shift(s@, fc, st as int, st as int);
        }
        if count < 3 {
            return None;
        }
        Some((SkipClose::FencedCode(FencedCode { fence_char: fc, fence_count: count }), s.len()))
    }

    pub fn check_close(&self, line: &[char]) -> (r: bool)
        ensures
            r == closes_on(SkipCloseV::FencedCode(self.fence_char, self.fence_count), line@),
    {
        let (a, b) = trim_range(line, 0, line.len());
        let ghost t = trim(line@);
        assert(line@.subrange(0, line@.len() as int) == line@);
        assert(line@.subrange(a as int, b as int) == t);
        if a >= b || line[a] != self.fence_char {
            return false;
        }
        let tv = copy_range(line, a, b);
        let count = count_run(&tv, self.fence_char, 0);
        if count < self.fence_count {
            return false;
        }
        let (c, d) = trim_range(&tv, count, tv.len());
        c >= d
    }

    pub fn find_close_offset(&self, after: &[char]) -> (r: Option<usize>)
        ensures
            r matches Some(k) && k as int == after@.len(),
    {
        Some(after.len())
    }
}

pub proof fn lemma_run_len_shift(s: Seq<char>, c: char, a: int, pos: int)
    requires
        0 <= a <= pos <= s.len(),
    ensures
        run_len(s.subrange(a, s.len() as int), c, pos - a) == run_len(s, c, pos),
    decreases s.len() - pos,
{
    if pos < s.len() {
        assert(s.subrange(a, s.len() as int)[pos - a] == s[pos]);
        lemma_run_len_shift(s, c, a, pos + 1);
    }
}

impl FixedClose {
    pub fn into_skip_close(close: Vec<char>) -> (r: SkipClose)
        ensures
            r@ == SkipCloseV::FixedClose(close@),
    {
        SkipClose::FixedClose(FixedClose { close })
    }

    pub fn check_close(&self, line: &[char]) -> (r: bool)
        ensures
            r == closes_on(SkipCloseV::FixedClose(self.close@), line@),
    {
        find_at(line, self.close.as_slice(), 0).is_some()
    }

    pub fn find_close_offset(&self, after: &[char]) -> (r: Option<usize>)
        ensures
            r matches Some(k) ==> close_offset(SkipCloseV::FixedClose(self.close@), after@) == Some(
                k as int,
            ),
            r is None ==> close_offset(SkipCloseV::FixedClose(self.close@), after@) is None,
    {
        match find_at(after, self.close.as_slice(), 0) {
            Some(p) => {
                proof {
                    lemma_find_from_props(after@, self.close@, 0);
                    assert(occurs_at(after@, self.close@, p as int));
                    assert(after@.len() == after.len());
                }
                Some(p + self.close.len())
            },
            None => None,
        }
    }
}

/// `heredoc_terminator(line) == ident`, computed.
fn is_heredoc_terminator(line: &[char], ident: &[char]) -> (r: bool)
    ensures
        r == (heredoc_terminator(line@) == ident@),
{
    let (a, b) = trim_range(line, 0, line.len());
    assert(line@.subrange(0, line@.len() as int) == line@);
    let t = copy_range(line, a, b);
    let (c, d) = if t.len() > 0 && t[t.len() - 1] == ';' {
        let r = trim_range(&t, 0, t.len() - 1);
        assert(t@.subrange(0, t@.len() - 1) == t@.drop_last());
        r
    } else {
        let r = trim_range(&t, 0, t.len());
        assert(t@.subrange(0, t@.len() as int) == t@);
        r
    };
    let u = copy_range(&t, c, d);
    slices_equal(&u, ident)
}

/// `==` on character slices.
pub fn slices_equal(a: &[char], b: &[char]) -> (r: bool)
    ensures
        r == (a@ == b@),
{
    if a.len() != b.len() {
        return false;
    }
    let mut i: usize = 0;
    while i < a.len()
        invariant
            a@.len() == b@.len(),
            i <= a@.len(),
            forall|k: int| 0 <= k < i ==> a@[k] == b@[k],
        decreases a.len() - i,
    {
        if a[i] != b[i] {
            return false;
        }
        i = i + 1;
    }
    assert(a@ =~= b@);
    true
}

impl Heredoc {
    pub fn check_close(&self, line: &[char]) -> (r: bool)
        ensures
            r == closes_on(SkipCloseV::Heredoc(self.ident@), line@),
    {
        is_heredoc_terminator(line, self.ident.as_slice())
    }

    pub fn find_close_offset(&self, after: &[char]) -> (r: Option<usize>)
        ensures
            r matches Some(k) && k as int == after@.len(),
    {
        Some(after.len())
    }
}

impl PhpHeredoc {
    pub fn check_close(&self, line: &[char]) -> (r: bool)
        ensures
            r == closes_on(SkipCloseV::PhpHeredoc(self.ident@), line@),
    {
        is_heredoc_terminator(line, self.ident.as_slice())
    }

    pub fn find_close_offset(&self, after: &[char]) -> (r: Option<usize>)
        ensures
            r matches Some(k) && k as int == after@.len(),
    {
        Some(after.len())
    }
}

/// Whether `s` begins with `p`, ignoring ASCII case.
pub open spec fn ci_starts_with(s: Seq<char>, p: Seq<char>) -> bool {
    ci_occurs_at(s, p, 0)
}

/// The HTML opener recognised at the start of `s`, as (close text, opener length).
pub open spec fn html_open(s: Seq<char>) -> Option<(Seq<char>, int)> {
    if ci_starts_with(s, seq!['<', '!', '[', 'c', 'd', 'a', 't', 'a', '[']) {
        Some((seq![']', ']', '>'], 9))
    } else if ci_starts_with(s, seq!['<', 's', 'c', 'r', 'i', 'p', 't']) {
        if s.len() > 7 && (s[7] == '>' || is_ascii_ws(s[7])) {
            Some((seq!['<', '/', 's', 'c', 'r', 'i', 'p', 't', '>'], 7))
        } else {
            None
        }
    } else if ci_starts_with(s, seq!['<', 's', 't', 'y', 'l', 'e']) {
        if s.len() > 6 && (s[6] == '>' || is_ascii_ws(s[6])) {
            Some((seq!['<', '/', 's', 't', 'y', 'l', 'e', '>'], 6))
        } else {
            None
        }
    } else {
        None
    }
}

/// `u8::is_ascii_whitespace`.
pub open spec fn is_ascii_ws(c: char) -> bool {
    c == ' ' || c == '\t' || c == '\n' || c == '\x0C' || c == '\r'
}

impl HtmlBlock {
    pub fn try_open(s: &[char]) -> (r: Option<(SkipClose, usize)>)
        ensures
            open_result_is(r, html_block_open(s@)),
    {
        let cdata = vec!['<', '!', '[', 'c', 'd', 'a', 't', 'a', '['];
        let script = vec!['<', 's', 'c', 'r', 'i', 'p', 't'];
        let style = vec!['<', 's', 't', 'y', 'l', 'e'];
        if ci_matches_at(s, cdata.as_slice(), 0) {
            let close = vec![']', ']', '>'];
            return Some((SkipClose::HtmlBlock(HtmlBlock { close }), 9));
        }
        if ci_matches_at(s, script.as_slice(), 0) {
            if s.len() > 7 && (s[7] == '>' || s[7] == ' ' || s[7] == '\t' || s[7] == '\n' || s[7]
                == '\x0C' || s[7] == '\r') {
                let close = vec!['<', '/', 's', 'c', 'r', 'i', 'p', 't', '>'];
                return Some((SkipClose::HtmlBlock(HtmlBlock { close }), 7));
            }
            return None;
        }
        if ci_matches_at(s, style.as_slice(), 0) {
            if s.len() > 6 && (s[6] == '>' || s[6] == ' ' || s[6] == '\t' || s[6] == '\n' || s[6]
                == '\x0C' || s[6] == '\r') {
                let close = vec!['<', '/', 's', 't', 'y', 'l', 'e', '>'];
                return Some((SkipClose::HtmlBlock(HtmlBlock { close }), 6));
            }
            return None;
        }
        None
    }

    pub fn check_close(&self, line: &[char]) -> (r: bool)
        ensures
            r == closes_on(SkipCloseV::HtmlBlock(self.close@), line@),
    {
        ci_find(line, self.close.as_slice()).is_some()
    }

    pub fn find_close_offset(&self, after: &[char]) -> (r: Option<usize>)
        ensures
            r matches Some(k) ==> close_offset(SkipCloseV::HtmlBlock(self.close@), after@) == Some(
                k as int,
            ),
            r is None ==> close_offset(SkipCloseV::HtmlBlock(self.close@), after@) is None,
    {
        match ci_find(after, self.close.as_slice()) {
            Some(p) => {
                proof {
                    lemma_ci_find_props(after@, self.close@, 0);
                    assert(p + self.close@.len() <= after@.len());
                    assert(after@.len() == after.len());
                }
                Some(p + self.close.len())
            },
            None => None,
        }
    }
}

pub proof fn lemma_ci_find_props(s: Seq<char>, p: Seq<char>, from: int)
    requires
        0 <= from,
    ensures
        ci_find_from(s, p, from) matches Some(k) ==> from <= k && k + p.len() <= s.len(),
    decreases s.len() + 1 - from,
{
    if from + p.len() <= s.len() && !ci_occurs_at(s, p, from) {
        lemma_ci_find_props(s, p, from + 1);
    }
}

/// The long-bracket opener at the start of `s`: `[`, `level` `=`s, `[`.
pub open spec fn long_bracket_open(s: Seq<char>) -> Option<(Seq<char>, int)> {
    if s.len() > 0 && s[0] == '[' {
        let level = run_len(s, '=', 1);
        if 1 + level < s.len() && s[1 + level] == '[' {
            Some((seq![']'] + Seq::new(level as nat, |i: int| '=') + seq![']'], 2 + level))
        } else {
            None
        }
    } else {
        None
    }
}

impl LongBracket {
    pub fn try_open(s: &[char]) -> (r: Option<(SkipClose, usize)>)
        ensures
            open_result_is(r, long_bracket_skip_open(s@)),
    {
        if s.len() == 0 || s[0] != '[' {
            return None;
        }
        let level = count_run(s, '=', 1);
        if level >= s.len() - 1 || s[1 + level] != '[' {
            return None;
        }
        let mut close: Vec<char> = vec![']'];
        let mut i: usize = 0;
        while i < level
            invariant
                i <= level,
                close@ == seq![']'] + Seq::new(i as nat, |k: int| '='),
            decreases level - i,
        {
            close.push('=');
            i = i + 1;
            assert(close@ =~= seq![']'] + Seq::new(i as nat, |k: int| '='));
        }
        close.push(']');
        assert(close@ =~= seq![']'] + Seq::new(level as nat, |i: int| '=') + seq![']']);
        Some((FixedClose::into_skip_close(close), 2 + level))
    }
}

impl NixIndent {
    pub fn try_open(s: &[char]) -> (r: Option<(SkipClose, usize)>)
        ensures
            open_result_is(r, nix_indent_open(s@)),
    {
        if s.len() < 2 || s[0] != '\'' || s[1] != '\'' {
            return None;
        }
        if s.len() >= 3 && s[2] == '\'' {
            return None;
        }
        Some((SkipClose::NixIndent(NixIndent), 2))
    }

    pub fn check_close(&self, line: &[char]) -> (r: bool)
        ensures
            r == closes_on(SkipCloseV::NixIndent, line@),
    {
        let mut pos: usize = 0;
        while pos < line.len() && line.len() - pos > 1
            invariant
                pos <= line@.len(),
                nix_close_from(line@, 0) == nix_close_from(line@, pos as int),
            decreases line.len() - pos,
        {
            if line[pos] == '\'' && line[pos + 1] == '\'' {
                if line.len() - pos > 2 && (line[pos + 2] == '$' || line[pos + 2] == '\''
                    || line[pos + 2] == '\\') {
                    pos = pos + 3;
                    continue;
                }
                return true;
            }
            pos = pos + 1;
        }
        false
    }

    pub fn find_close_offset(&self, after: &[char]) -> (r: Option<usize>)
        ensures
            r matches Some(k) && k as int == after@.len(),
    {
        Some(after.len())
    }
}

fn open_char_of(close: char) -> (r: Option<char>)
    ensures
        r == open_of(close),
{
    if close == ')' {
        Some('(')
    } else if close == ']' {
        Some('[')
    } else if close == '}' {
        Some('{')
    } else if close == '>' {
        Some('<')
    } else {
        None
    }
}

impl PercentLiteral {
    pub fn check_close(&self, line: &[char]) -> (r: bool)
        ensures
            r == closes_on(
                SkipCloseV::PercentLiteral(self.close_char, self.paired, self.depth),
                line@,
            ),
    {
        let mut pos: usize = 0;
        let mut d: usize = self.depth;
        let open_char = self.open_char();
        while pos < line.len()
            invariant
                pos <= line@.len(),
                open_char == open_of(self.close_char),
                pl_close_from(line@, self.close_char, self.paired, 0, self.depth) == pl_close_from(
                    line@,
                    self.close_char,
                    self.paired,
                    pos as int,
                    d,
                ),
            decreases line.len() - pos,
        {
            if line[pos] == '\\' {
                pos = if line.len() - pos >= 2 {
                    pos + 2
                } else {
                    line.len()
                };
                continue;
            }
            if !self.paired {
                if line[pos] == self.close_char {
                    return true;
                }
                pos = pos + 1;
                continue;
            }
            if let Some(oc) = open_char {
                if line[pos] == oc {
                    d = d.saturating_add(1);
                    pos = pos + 1;
                    continue;
                }
            }
            if line[pos] == self.close_char {
                if d == 0 {
                    return true;
                }
                d = d - 1;
                pos = pos + 1;
                continue;
            }
            pos = pos + 1;
        }
        false
    }

    pub fn advance(self, line: &[char]) -> (r: Option<SkipClose>)
        ensures
            r matches Some(sc) ==> advance_over(
                SkipCloseV::PercentLiteral(self.close_char, self.paired, self.depth),
                line@,
            ) == Some(sc@),
            r is None ==> advance_over(
                SkipCloseV::PercentLiteral(self.close_char, self.paired, self.depth),
                line@,
            ) is None,
    {
        if self.check_close(line) {
            return None;
        }
        if !self.paired {
            return Some(SkipClose::PercentLiteral(self));
        }
        let depth = self.track_depth(line);
        Some(
            SkipClose::PercentLiteral(
                PercentLiteral { close_char: self.close_char, paired: self.paired, depth },
            ),
        )
    }

    pub fn open_char(&self) -> (r: Option<char>)
        ensures
            r == open_of(self.close_char),
    {
        open_char_of(self.close_char)
    }

    pub fn find_close_offset(&self, after: &[char]) -> (r: Option<usize>)
        ensures
            r matches Some(k) && k as int == after@.len(),
    {
        Some(after.len())
    }

    pub fn track_depth(&self, line: &[char]) -> (r: usize)
        ensures
            r == (match open_of(self.close_char) {
                Some(o) => pl_depth_from(line@, self.close_char, o, 0, self.depth),
                None => self.depth,
            }),
    {
        let open_char = match self.open_char() {
            Some(c) => c,
            None => return self.depth,
        };
        let mut pos: usize = 0;
        let mut d: usize = self.depth;
        while pos < line.len()
            invariant
                pos <= line@.len(),
                pl_depth_from(line@, self.close_char, open_char, 0, self.depth) == pl_depth_from(
                    line@,
                    self.close_char,
                    open_char,
                    pos as int,
                    d,
                ),
            decreases line.len() - pos,
        {
            if line[pos] == '\\' {
                pos = if line.len() - pos >= 2 {
                    pos + 2
                } else {
                    line.len()
                };
                continue;
            }
            if line[pos] == open_char {
                d = d.saturating_add(1);
                pos = pos + 1;
                continue;
            }
            if line[pos] == self.close_char {
                d = d.saturating_sub(1);
            }
            pos = pos + 1;
        }
        d
    }
}

impl PsHereString {
    pub fn check_close(&self, line: &[char]) -> (r: bool)
        ensures
            r == closes_on(SkipCloseV::PsHereString(self.close@), line@),
    {
        has_prefix(line, self.close.as_slice())
    }

    pub fn find_close_offset(&self, after: &[char]) -> (r: Option<usize>)
        ensures
            r matches Some(k) && k as int == after@.len(),
    {
        Some(after.len())
    }
}

impl DqString {
    pub fn try_open(s: &[char]) -> (r: Option<(SkipClose, usize)>)
        ensures
            open_result_is(r, dq_string_open(s@)),
    {
        if s.len() > 0 && s[0] == '"' {
            Some((UnescapedChar::into_skip_close('"'), 1))
        } else {
            None
        }
    }
}

impl SqString {
    pub fn try_open(s: &[char]) -> (r: Option<(SkipClose, usize)>)
        ensures
            open_result_is(r, sq_string_open(s@)),
    {
        if s.len() > 0 && s[0] == '\'' {
            Some((SingleLineChar::into_skip_close('\''), 1))
        } else {
            None
        }
    }
}

impl SingleLineChar {
    pub fn into_skip_close(target: char) -> (r: SkipClose)
        ensures
            r@ == SkipCloseV::SingleLineChar(target),
    {
        SkipClose::SingleLineChar(SingleLineChar { target })
    }

    pub fn check_close(&self, line: &[char]) -> (r: bool)
        ensures
            r == closes_on(SkipCloseV::SingleLineChar(self.target), line@),
    {
        find_unescaped_char(line, self.target).is_some()
    }

    pub fn find_close_offset(&self, after: &[char]) -> (r: Option<usize>)
        ensures
            r matches Some(k) ==> close_offset(SkipCloseV::SingleLineChar(self.target), after@)
                == Some(k as int),
            r is None ==> close_offset(SkipCloseV::SingleLineChar(self.target), after@) is None,
    {
        find_unescaped_char(after, self.target)
    }
}

impl UnescapedChar {
    pub fn into_skip_close(target: char) -> (r: SkipClose)
        ensures
            r@ == SkipCloseV::UnescapedChar(target),
    {
        SkipClose::UnescapedChar(UnescapedChar { target })
    }

    pub fn check_close(&self, line: &[char]) -> (r: bool)
        ensures
            r == closes_on(SkipCloseV::UnescapedChar(self.target), line@),
    {
        find_unescaped_char(line, self.target).is_some()
    }

    pub fn find_close_offset(&self, after: &[char]) -> (r: Option<usize>)
        ensures
            r matches Some(k) ==> close_offset(SkipCloseV::UnescapedChar(self.target), after@)
                == Some(k as int),
            r is None ==> close_offset(SkipCloseV::UnescapedChar(self.target), after@) is None,
    {
        find_unescaped_char(after, self.target)
    }
}

impl SkipClose {
    pub fn check_close(&self, line: &[char]) -> (r: bool)
        ensures
            r == closes_on(self@, line@),
    {
        match self {
            SkipClose::BacktickString(x) => x.check_close(line),
            SkipClose::CsRaw(x) => x.check_close(line),
            SkipClose::CsVerbatim(x) => x.check_close(line),
            SkipClose::FencedCode(x) => x.check_close(line),
            SkipClose::FixedClose(x) => x.check_close(line),
            SkipClose::Heredoc(x) => x.check_close(line),
            SkipClose::HtmlBlock(x) => x.check_close(line),
            SkipClose::NixIndent(x) => x.check_close(line),
            SkipClose::PercentLiteral(x) => x.check_close(line),
            SkipClose::PhpHeredoc(x) => x.check_close(line),
            SkipClose::PsHereString(x) => x.check_close(line),
            SkipClose::SingleLineChar(x) => x.check_close(line),
            SkipClose::UnescapedChar(x) => x.check_close(line),
        }
    }

    /// `None` if no close on this line. Line-oriented closers return the
    /// whole length to consume the entire line.
    pub fn find_close_offset(&self, after: &[char]) -> (r: Option<usize>)
        ensures
            r matches Some(k) ==> close_offset(self@, after@) == Some(k as int),
            r is None ==> close_offset(self@, after@) is None,
    {
        match self {
            SkipClose::BacktickString(x) => x.find_close_offset(after),
            SkipClose::CsRaw(x) => x.find_close_offset(after),
            SkipClose::CsVerbatim(x) => x.find_close_offset(after),
            SkipClose::FencedCode(x) => x.find_close_offset(after),
            SkipClose::FixedClose(x) => x.find_close_offset(after),
            SkipClose::Heredoc(x) => x.find_close_offset(after),
            SkipClose::HtmlBlock(x) => x.find_close_offset(after),
            SkipClose::NixIndent(x) => x.find_close_offset(after),
            SkipClose::PercentLiteral(x) => x.find_close_offset(after),
            SkipClose::PhpHeredoc(x) => x.find_close_offset(after),
            SkipClose::PsHereString(x) => x.find_close_offset(after),
            SkipClose::SingleLineChar(x) => x.find_close_offset(after),
            SkipClose::UnescapedChar(x) => x.find_close_offset(after),
        }
    }

    /// Whether an unclosed match should enter a skip region spanning lines
    /// (true) or just skip to end-of-line (false).
    pub fn spans_lines(&self) -> (r: bool)
        ensures
            r == !(self@ is SingleLineChar),
    {
        !matches!(self, SkipClose::SingleLineChar(_))
    }

    pub fn advance(self, line: &[char]) -> (r: Option<SkipClose>)
        ensures
            r matches Some(sc) ==> advance_over(self@, line@) == Some(sc@),
            r is None ==> advance_over(self@, line@) is None,
    {
        match self {
            SkipClose::PercentLiteral(pl) => pl.advance(line),
            _ => {
                if self.check_close(line) {
                    None
                } else {
                    Some(self)
                }
            },
        }
    }
}

// ─── Openers recognised with regular expressions ───

pub const CPP_RAW_RE: &'static str = r#"^R"([^\s()\\]{0,16})\("#;
pub const DOLLAR_QUOTE_RE: &'static str = r#"^\$([A-Za-z_]\w*)?\$"#;
pub const HEREDOC_RE: &'static str = r#"^<<[-~]?\s*['"]?([A-Za-z_]\w*)['"]?"#;
pub const PERCENT_LITERAL_RE: &'static str = r#"^(?:%[qQwWiIrxs]?|qq?)([^\w\s])"#;
pub const PHP_HEREDOC_RE: &'static str = r#"^<<<\s*['"]?([A-Za-z_]\w*)['"]?"#;
pub const PS_HERE_STRING_RE: &'static str = r#"^@(["'])\s*$"#;
pub const R_RAW_RE: &'static str = r#"^[rR]"(-*)([\(\[\{])"#;
pub const RUST_RAW_RE: &'static str = r#"^r(#+)""#;
pub const SWIFT_EXTENDED_RE: &'static str = r#"^(#+)("{1,3})"#;

/// The capture groups of an anchored pattern on `s`, when `s` starts with a
/// character the pattern can start with.
pub open spec fn anchored_groups(pattern: Seq<char>, s: Seq<char>, first_ok: bool) -> Option<Seq<Option<Seq<char>>>> {
    if s.len() > 0 && first_ok {
        regex_captures_of(pattern, s)
    } else {
        None
    }
}

/// Group `i` if it took part in the match.
pub open spec fn group(g: Seq<Option<Seq<char>>>, i: int) -> Option<Seq<char>> {
    if 0 <= i < g.len() {
        g[i]
    } else {
        None
    }
}

pub open spec fn hashes(n: int) -> Seq<char> {
    Seq::new(n as nat, |i: int| '#')
}

/// Runs an anchored pattern on `s` when its first character passes `first_ok`.
fn anchored_captures(pattern: &str, s: &[char], first_ok: bool) -> (r: Option<Vec<Option<String>>>)
    ensures
        r matches Some(v) ==> anchored_groups(pattern@, s@, first_ok) == Some(groups_view(v@)),
        r is None ==> anchored_groups(pattern@, s@, first_ok) is None,
{
    if s.len() == 0 || !first_ok {
        return None;
    }
    let text = string_of(s);
    regex_captures(pattern, text.as_str())
}

/// The characters of group `i`, if it took part in the match.
fn group_chars(v: &Vec<Option<String>>, i: usize) -> (r: Option<Vec<char>>)
    ensures
        r matches Some(c) ==> group(groups_view(v@), i as int) == Some(c@),
        r is None ==> group(groups_view(v@), i as int) is None,
{
    if i >= v.len() {
        return None;
    }
    match &v[i] {
        Some(s) => Some(chars_of(s.as_str())),
        None => None,
    }
}

fn repeat_char(c: char, n: usize) -> (r: Vec<char>)
    ensures
        r@ == Seq::new(n as nat, |i: int| c),
{
    let mut r: Vec<char> = Vec::new();
    let mut i: usize = 0;
    while i < n
        invariant
            i <= n,
            r@ == Seq::new(i as nat, |k: int| c),
        decreases n - i,
    {
        r.push(c);
        i = i + 1;
        assert(r@ =~= Seq::new(i as nat, |k: int| c));
    }
    r
}

fn concat(a: &[char], b: &[char]) -> (r: Vec<char>)
    ensures
        r@ == a@ + b@,
{
    let mut r = to_vec(a);
    let mut i: usize = 0;
    while i < b.len()
        invariant
            i <= b@.len(),
            r@ == a@ + b@.subrange(0, i as int),
        decreases b.len() - i,
    {
        r.push(b[i]);
        i = i + 1;
        assert(r@ =~= a@ + b@.subrange(0, i as int));
    }
    assert(b@.subrange(0, b@.len() as int) =~= b@);
    r
}

pub open spec fn cpp_raw_open(s: Seq<char>) -> Option<(SkipCloseV, int)> {
    match anchored_groups(CPP_RAW_RE@, s, s.len() > 0 && s[0] == 'R') {
        Some(g) => match (group(g, 0), group(g, 1)) {
            (Some(m), Some(d)) => Some((SkipCloseV::FixedClose(seq![')'] + d + seq!['"']), m.len() as int)),
            _ => None,
        },
        None => None,
    }
}

pub open spec fn dollar_quote_open(s: Seq<char>) -> Option<(SkipCloseV, int)> {
    match anchored_groups(DOLLAR_QUOTE_RE@, s, s.len() > 0 && s[0] == '$') {
        Some(g) => match group(g, 0) {
            Some(m) => {
                let tag = match group(g, 1) {
                    Some(t) => t,
                    None => Seq::empty(),
                };
                Some((SkipCloseV::FixedClose(seq!['$'] + tag + seq!['$']), m.len() as int))
            },
            None => None,
        },
        None => None,
    }
}

pub open spec fn heredoc_open(s: Seq<char>) -> Option<(SkipCloseV, int)> {
    match anchored_groups(HEREDOC_RE@, s, s.len() > 0 && s[0] == '<') {
        Some(g) => match (group(g, 0), group(g, 1)) {
            (Some(m), Some(id)) => Some((SkipCloseV::Heredoc(id), m.len() as int)),
            _ => None,
        },
        None => None,
    }
}

pub open spec fn php_heredoc_open(s: Seq<char>) -> Option<(SkipCloseV, int)> {
    match anchored_groups(PHP_HEREDOC_RE@, s, s.len() > 0 && s[0] == '<') {
        Some(g) => match (group(g, 0), group(g, 1)) {
            (Some(m), Some(id)) => Some((SkipCloseV::PhpHeredoc(id), m.len() as int)),
            _ => None,
        },
        None => None,
    }
}

/// The closing character of a percent-literal delimiter, and whether it pairs.
pub open spec fn percent_close(delim: char) -> (char, bool) {
    if delim == '(' {
        (')', true)
    } else if delim == '[' {
        (']', true)
    } else if delim == '{' {
        ('}', true)
    } else if delim == '<' {
        ('>', true)
    } else {
        (delim, false)
    }
}

pub open spec fn percent_literal_open(s: Seq<char>) -> Option<(SkipCloseV, int)> {
    match anchored_groups(PERCENT_LITERAL_RE@, s, s.len() > 0 && (s[0] == '%' || s[0] == 'q')) {
        Some(g) => match (group(g, 0), group(g, 1)) {
            (Some(m), Some(d)) => if d.len() > 0 {
                let (c, p) = percent_close(d[0]);
                Some((SkipCloseV::PercentLiteral(c, p, 0), m.len() as int))
            } else {
                None
            },
            _ => None,
        },
        None => None,
    }
}

pub open spec fn ps_here_string_open(s: Seq<char>) -> Option<(SkipCloseV, int)> {
    match anchored_groups(PS_HERE_STRING_RE@, s, s.len() > 0 && s[0] == '@') {
        Some(g) => match group(g, 1) {
            Some(q) => if q.len() > 0 {
                Some((SkipCloseV::PsHereString(seq![q[0], '@']), s.len() as int))
            } else {
                None
            },
            None => None,
        },
        None => None,
    }
}

/// The closing bracket of an R raw string's opening bracket.
pub open spec fn r_close_bracket(open: char) -> Option<char> {
    if open == '(' {
        Some(')')
    } else if open == '[' {
        Some(']')
    } else if open == '{' {
        Some('}')
    } else {
        None
    }
}

pub open spec fn r_raw_open(s: Seq<char>) -> Option<(SkipCloseV, int)> {
    match anchored_groups(R_RAW_RE@, s, s.len() > 0 && (s[0] == 'r' || s[0] == 'R')) {
        Some(g) => match (group(g, 0), group(g, 1), group(g, 2)) {
            (Some(m), Some(dashes), Some(b)) => if b.len() > 0 {
                match r_close_bracket(b[0]) {
                    Some(cb) => Some((SkipCloseV::FixedClose(seq![cb] + dashes + seq!['"']), m.len() as int)),
                    None => None,
                }
            } else {
                None
            },
            _ => None,
        },
        None => None,
    }
}

pub open spec fn rust_raw_open(s: Seq<char>) -> Option<(SkipCloseV, int)> {
    match anchored_groups(RUST_RAW_RE@, s, s.len() > 0 && s[0] == 'r') {
        Some(g) => match (group(g, 0), group(g, 1)) {
            (Some(m), Some(h)) => Some((SkipCloseV::FixedClose(seq!['"'] + hashes(h.len() as int)), m.len() as int)),
            _ => None,
        },
        None => None,
    }
}

pub open spec fn swift_extended_open(s: Seq<char>) -> Option<(SkipCloseV, int)> {
    match anchored_groups(SWIFT_EXTENDED_RE@, s, s.len() > 0 && s[0] == '#') {
        Some(g) => match (group(g, 0), group(g, 1), group(g, 2)) {
            (Some(m), Some(h), Some(q)) => Some((SkipCloseV::FixedClose(q + hashes(h.len() as int)), m.len() as int)),
            _ => None,
        },
        None => None,
    }
}

impl CppRaw {
    pub fn try_open(s: &[char]) -> (r: Option<(SkipClose, usize)>)
        ensures
            open_result_is(r, cpp_raw_open(s@)),
    {
        let first_ok = s.len() > 0 && s[0] == 'R';
        let g = match anchored_captures(CPP_RAW_RE, s, first_ok) {
            Some(g) => g,
            None => return None,
        };
        let m = match group_chars(&g, 0) {
            Some(m) => m,
            None => return None,
        };
        let d = match group_chars(&g, 1) {
            Some(d) => d,
            None => return None,
        };
        let close = concat(&concat(&[')'], &d), &['"']);
        assert([')']@ =~= seq![')']);
        assert(['"']@ =~= seq!['"']);
        Some((FixedClose::into_skip_close(close), m.len()))
    }
}

impl DollarQuote {
    pub fn try_open(s: &[char]) -> (r: Option<(SkipClose, usize)>)
        ensures
            open_result_is(r, dollar_quote_open(s@)),
    {
        let first_ok = s.len() > 0 && s[0] == '$';
        let g = match anchored_captures(DOLLAR_QUOTE_RE, s, first_ok) {
            Some(g) => g,
            None => return None,
        };
        let m = match group_chars(&g, 0) {
            Some(m) => m,
            None => return None,
        };
        let tag = match group_chars(&g, 1) {
            Some(t) => t,
            None => Vec::new(),
        };
        let close = concat(&concat(&['$'], &tag), &['$']);
        assert(['$']@ =~= seq!['$']);
        Some((FixedClose::into_skip_close(close), m.len()))
    }
}

impl Heredoc {
    pub fn try_open(s: &[char]) -> (r: Option<(SkipClose, usize)>)
        ensures
            open_result_is(r, heredoc_open(s@)),
    {
        let first_ok = s.len() > 0 && s[0] == '<';
        let g = match anchored_captures(HEREDOC_RE, s, first_ok) {
            Some(g) => g,
            None => return None,
        };
        let m = match group_chars(&g, 0) {
            Some(m) => m,
            None => return None,
        };
        let ident = match group_chars(&g, 1) {
            Some(t) => t,
            None => return None,
        };
        Some((SkipClose::Heredoc(Heredoc { ident }), m.len()))
    }
}

impl PhpHeredoc {
    pub fn try_open(s: &[char]) -> (r: Option<(SkipClose, usize)>)
        ensures
            open_result_is(r, php_heredoc_open(s@)),
    {
        let first_ok = s.len() > 0 && s[0] == '<';
        let g = match anchored_captures(PHP_HEREDOC_RE, s, first_ok) {
            Some(g) => g,
            None => return None,
        };
        let m = match group_chars(&g, 0) {
            Some(m) => m,
            None => return None,
        };
        let ident = match group_chars(&g, 1) {
            Some(t) => t,
            None => return None,
        };
        Some((SkipClose::PhpHeredoc(PhpHeredoc { ident }), m.len()))
    }
}

impl PercentLiteral {
    pub fn try_open(s: &[char]) -> (r: Option<(SkipClose, usize)>)
        ensures
            open_result_is(r, percent_literal_open(s@)),
    {
        let first_ok = s.len() > 0 && (s[0] == '%' || s[0] == 'q');
        let g = match anchored_captures(PERCENT_LITERAL_RE, s, first_ok) {
            Some(g) => g,
            None => return None,
        };
        let m = match group_chars(&g, 0) {
            Some(m) => m,
            None => return None,
        };
        let d = match group_chars(&g, 1) {
            Some(t) => t,
            None => return None,
        };
        if d.len() == 0 {
            return None;
        }
        let delim = d[0];
        let (close_char, paired) = if delim == '(' {
            (')', true)
        } else if delim == '[' {
            (']', true)
        } else if delim == '{' {
            ('}', true)
        } else if delim == '<' {
            ('>', true)
        } else {
            (delim, false)
        };
        Some((SkipClose::PercentLiteral(PercentLiteral { close_char, paired, depth: 0 }), m.len()))
    }
}

impl PsHereString {
    pub fn try_open(s: &[char]) -> (r: Option<(SkipClose, usize)>)
        ensures
            open_result_is(r, ps_here_string_open(s@)),
    {
        let first_ok = s.len() > 0 && s[0] == '@';
        let g = match anchored_captures(PS_HERE_STRING_RE, s, first_ok) {
            Some(g) => g,
            None => return None,
        };
        let q = match group_chars(&g, 1) {
            Some(t) => t,
            None => return None,
        };
        if q.len() == 0 {
            return None;
        }
        let close = vec![q[0], '@'];
        Some((SkipClose::PsHereString(PsHereString { close }), s.len()))
    }
}

impl RRaw {
    pub fn try_open(s: &[char]) -> (r: Option<(SkipClose, usize)>)
        ensures
            open_result_is(r, r_raw_open(s@)),
    {
        let first_ok = s.len() > 0 && (s[0] == 'r' || s[0] == 'R');
        let g = match anchored_captures(R_RAW_RE, s, first_ok) {
            Some(g) => g,
            None => return None,
        };
        let m = match group_chars(&g, 0) {
            Some(m) => m,
            None => return None,
        };
        let dashes = match group_chars(&g, 1) {
            Some(t) => t,
            None => return None,
        };
        let b = match group_chars(&g, 2) {
            Some(t) => t,
            None => return None,
        };
        if b.len() == 0 {
            return None;
        }
        let cb = if b[0] == '(' {
            ')'
        } else if b[0] == '[' {
            ']'
        } else if b[0] == '{' {
            '}'
        } else {
            return None;
        };
        let close = concat(&concat(&[cb], &dashes), &['"']);
        assert([cb]@ =~= seq![cb]);
        assert(['"']@ =~= seq!['"']);
        Some((FixedClose::into_skip_close(close), m.len()))
    }
}

impl RustRaw {
    pub fn try_open(s: &[char]) -> (r: Option<(SkipClose, usize)>)
        ensures
            open_result_is(r, rust_raw_open(s@)),
    {
        let first_ok = s.len() > 0 && s[0] == 'r';
        let g = match anchored_captures(RUST_RAW_RE, s, first_ok) {
            Some(g) => g,
            None => return None,
        };
        let m = match group_chars(&g, 0) {
            Some(m) => m,
            None => return None,
        };
        let h = match group_chars(&g, 1) {
            Some(t) => t,
            None => return None,
        };
        let close = concat(&['"'], &repeat_char('#', h.len()));
        assert(['"']@ =~= seq!['"']);
        Some((FixedClose::into_skip_close(close), m.len()))
    }
}

impl SwiftExtended {
    pub fn try_open(s: &[char]) -> (r: Option<(SkipClose, usize)>)
        ensures
            open_result_is(r, swift_extended_open(s@)),
    {
        let first_ok = s.len() > 0 && s[0] == '#';
        let g = match anchored_captures(SWIFT_EXTENDED_RE, s, first_ok) {
            Some(g) => g,
            None => return None,
        };
        let m = match group_chars(&g, 0) {
            Some(m) => m,
            None => return None,
        };
        let h = match group_chars(&g, 1) {
            Some(t) => t,
            None => return None,
        };
        let q = match group_chars(&g, 2) {
            Some(t) => t,
            None => return None,
        };
        let close = concat(&q, &repeat_char('#', h.len()));
        Some((FixedClose::into_skip_close(close), m.len()))
    }
}

} // verus!
