//! Extracts `LINT.IfChange` / `LINT.ThenChange` directives from source files.
//!
//! Two phases: a line-oriented scanner that collects comment bodies while
//! skipping strings, heredocs and other literals, then the directive grammar
//! of [`crate::directive`] applied to those bodies.
use vstd::prelude::*;
use crate::directive::{
    directives_from, directives_view, errors_view, parse_directives, tokens_view, CommentToken,
    Directive, DirectiveError, DirectiveErrorV, DirectiveV, TokenV,
};
use crate::languages::{
    detect, detect_spec, language_v, BlockComment, BlockCommentV, Language, LanguageV, SkipPattern,
    SkipPatternV,
};
use crate::skip::{
    advance_over, close_offset, closes_on, lemma_unescaped_bounds, long_bracket_open,
    FixedClose, LongBracket, SkipClose, SkipCloseV, UnescapedChar,
};
use crate::text::{
    chars_of, contains, copy_range, find, find_at, find_from, has_prefix, lemma_find_from_props,
    matches_at, occurs_at, skip_ws, skip_ws_from, starts_with, trim, trim_range,
};

verus! {

// ─── Scanner state ───

/// Where the scanner stands at the start of a line.
#[derive(Debug)]
pub enum ScanState {
    Normal,
    InBlockComment { close: Vec<char>, nestable: bool, open: Vec<char>, depth: usize },
    InSkipRegion(SkipClose),
}

pub enum ScanStateV {
    Normal,
    InBlock { close: Seq<char>, nestable: bool, open: Seq<char>, depth: usize },
    InSkip(SkipCloseV),
}

impl View for ScanState {
    type V = ScanStateV;

    open spec fn view(&self) -> ScanStateV {
        match self {
            ScanState::Normal => ScanStateV::Normal,
            ScanState::InBlockComment { close, nestable, open, depth } => ScanStateV::InBlock {
                close: close@,
                nestable: *nestable,
                open: open@,
                depth: *depth,
            },
            ScanState::InSkipRegion(sc) => ScanStateV::InSkip(sc@),
        }
    }
}

// ─── Line splitting (`str::lines`) ───

pub open spec fn strip_cr(l: Seq<char>) -> Seq<char> {
    if l.len() > 0 && l.last() == '\r' {
        l.drop_last()
    } else {
        l
    }
}

/// The lines of `s` from index `start`: split at `\n`, a `\r` before the `\n`
/// dropped, no empty line after a final `\n`.
pub open spec fn lines_from(s: Seq<char>, start: int) -> Seq<Seq<char>>
    decreases s.len() - start,
{
    if start < 0 || start >= s.len() {
        Seq::empty()
    } else {
        proof {
            lemma_find_from_props(s, seq!['\n'], start);
        }
        match find_from(s, seq!['\n'], start) {
            Some(nl) => if nl >= start {
                seq![strip_cr(s.subrange(start, nl))] + lines_from(s, nl + 1)
            } else {
                Seq::empty()
            },
            None => seq![s.subrange(start, s.len() as int)],
        }
    }
}

pub open spec fn lines_of(s: Seq<char>) -> Seq<Seq<char>> {
    lines_from(s, 0)
}

// ─── Per-line models ───

/// The first index `k >= i` such that `s` starts with `prefixes[k]`.
pub open spec fn first_prefix_from(s: Seq<char>, prefixes: Seq<Seq<char>>, i: int) -> Option<int>
    decreases prefixes.len() - i,
{
    if i < 0 || i >= prefixes.len() {
        None
    } else if starts_with(s, prefixes[i]) {
        Some(i)
    } else {
        first_prefix_from(s, prefixes, i + 1)
    }
}

/// The first block comment at or after `i` whose opener starts `s` (only
/// non-empty openers when `nonempty`).
pub open spec fn first_block_from(s: Seq<char>, blocks: Seq<BlockCommentV>, i: int, nonempty: bool) -> Option<int>
    decreases blocks.len() - i,
{
    if i < 0 || i >= blocks.len() {
        None
    } else if (!nonempty || blocks[i].open.len() > 0) && starts_with(s, blocks[i].open) {
        Some(i)
    } else {
        first_block_from(s, blocks, i + 1, nonempty)
    }
}

pub proof fn lemma_first_block(s: Seq<char>, blocks: Seq<BlockCommentV>, i: int, nonempty: bool)
    requires
        0 <= i,
    ensures
        first_block_from(s, blocks, i, nonempty) matches Some(j) ==> i <= j < blocks.len()
            && starts_with(s, blocks[j].open) && (nonempty ==> blocks[j].open.len() > 0),
    decreases blocks.len() - i,
{
    if i < blocks.len() && !((!nonempty || blocks[i].open.len() > 0) && starts_with(s, blocks[i].open)) {
        lemma_first_block(s, blocks, i + 1, nonempty);
    }
}

pub proof fn lemma_first_prefix(s: Seq<char>, prefixes: Seq<Seq<char>>, i: int)
    requires
        0 <= i,
    ensures
        first_prefix_from(s, prefixes, i) matches Some(k) ==> i <= k < prefixes.len()
            && starts_with(s, prefixes[k]),
        first_prefix_from(s, prefixes, i) is None ==> forall|k: int| i <= k < prefixes.len() ==> !starts_with(s, #[trigger] prefixes[k]),
    decreases prefixes.len() - i,
{
    if i < prefixes.len() && !starts_with(s, prefixes[i]) {
        lemma_first_prefix(s, prefixes, i + 1);
    }
}

/// A comment body, if non-empty.
pub open spec fn token_of(b: Seq<char>) -> Option<Seq<char>> {
    if b.len() > 0 {
        Some(b)
    } else {
        None
    }
}

/// Trim, then drop one leading `*` decoration and trim again.
pub open spec fn strip_block_decoration(body: Seq<char>) -> Seq<char> {
    let t = trim(body);
    if t.len() > 0 && t[0] == '*' {
        trim(t.subrange(1, t.len() as int))
    } else {
        t
    }
}

/// What a skip pattern opens at the start of `s`; matches that are empty or
/// longer than `s` are ignored.
pub open spec fn pattern_open(p: SkipPatternV, s: Seq<char>) -> Option<(SkipCloseV, int)> {
    let r = match p {
        SkipPatternV::Fixed(o, c) => if starts_with(s, o) {
            Some((SkipCloseV::FixedClose(c), o.len() as int))
        } else {
            None
        },
        SkipPatternV::Dynamic(op) => crate::languages::opener_open(op, s),
    };
    match r {
        Some((sc, n)) => if 0 < n <= s.len() {
            Some((sc, n))
        } else {
            None
        },
        None => None,
    }
}

/// The longest opener among `pats[i..]` (the first one among equals), given the best so far.
pub open spec fn best_from(s: Seq<char>, pats: Seq<SkipPatternV>, i: int, best: Option<(SkipCloseV, int)>) -> Option<(SkipCloseV, int)>
    decreases pats.len() - i,
{
    if i < 0 || i >= pats.len() {
        best
    } else {
        match pattern_open(pats[i], s) {
            Some((sc, n)) => if best is None || n > open_len(best) {
                best_from(s, pats, i + 1, Some((sc, n)))
            } else {
                best_from(s, pats, i + 1, best)
            },
            None => best_from(s, pats, i + 1, best),
        }
    }
}

pub open spec fn open_len(b: Option<(SkipCloseV, int)>) -> int {
    match b {
        Some((_, n)) => n,
        None => 0,
    }
}

pub open spec fn best_open(s: Seq<char>, pats: Seq<SkipPatternV>) -> Option<(SkipCloseV, int)> {
    best_from(s, pats, 0, None)
}

/// One past the closing `quote` of a string literal whose body starts at `p`.
pub open spec fn string_end_from(line: Seq<char>, p: int, quote: char) -> Option<int>
    decreases line.len() + 2 - p,
{
    if p < 0 || p >= line.len() {
        None
    } else if line[p] == '\\' {
        string_end_from(line, p + 2, quote)
    } else if line[p] == quote {
        Some(p + 1)
    } else {
        string_end_from(line, p + 1, quote)
    }
}

pub proof fn lemma_string_end(line: Seq<char>, p: int, quote: char)
    requires
        0 <= p,
    ensures
        string_end_from(line, p, quote) matches Some(e) ==> p < e <= line.len(),
    decreases line.len() + 2 - p,
{
    if p < line.len() {
        if line[p] == '\\' {
            lemma_string_end(line, p + 2, quote);
        } else if line[p] != quote {
            lemma_string_end(line, p + 1, quote);
        }
    }
}

pub proof fn lemma_close_offset_bounds(sc: SkipCloseV, after: Seq<char>)
    ensures
        close_offset(sc, after) matches Some(k) ==> 0 <= k <= after.len(),
{
    match sc {
        SkipCloseV::BacktickString => lemma_unescaped_bounds(after, '`', 0),
        SkipCloseV::SingleLineChar(t) => lemma_unescaped_bounds(after, t, 0),
        SkipCloseV::UnescapedChar(t) => lemma_unescaped_bounds(after, t, 0),
        SkipCloseV::FixedClose(close) => lemma_find_from_props(after, close, 0),
        SkipCloseV::HtmlBlock(close) => crate::skip::lemma_ci_find_props(after, close, 0),
        _ => {},
    }
}

pub proof fn lemma_best_from(s: Seq<char>, pats: Seq<SkipPatternV>, i: int, best: Option<(SkipCloseV, int)>)
    requires
        best matches Some((_, n)) ==> 0 < n <= s.len(),
    ensures
        best_from(s, pats, i, best) matches Some((_, n)) ==> 0 < n <= s.len(),
    decreases pats.len() - i,
{
    if 0 <= i < pats.len() {
        match pattern_open(pats[i], s) {
            Some((sc, n)) => if best is None || n > open_len(best) {
                lemma_best_from(s, pats, i + 1, Some((sc, n)));
            } else {
                lemma_best_from(s, pats, i + 1, best);
            },
            None => lemma_best_from(s, pats, i + 1, best),
        }
    }
}

/// The state after scanning a code line from `pos`, looking for openers of
/// multi-line constructs.
pub open spec fn openers_from(line: Seq<char>, lang: LanguageV, pos: int) -> ScanStateV
    decreases line.len() - pos,
{
    if pos < 0 || pos >= line.len() {
        ScanStateV::Normal
    } else {
        let rest = line.subrange(pos, line.len() as int);
        match best_open(rest, lang.skip_patterns) {
            Some((sc, adv)) => {
                proof {
                    lemma_best_from(rest, lang.skip_patterns, 0, None);
                }
                if sc is FencedCode && pos > 0 {
                    openers_from(line, lang, pos + 1)
                } else {
                    let after = line.subrange(pos + adv, line.len() as int);
                    if !closes_on(sc, after) {
                        ScanStateV::InSkip(sc)
                    } else {
                        proof {
                            lemma_close_offset_bounds(sc, after);
                        }
                        let off = match close_offset(sc, after) {
                            Some(o) => o,
                            None => after.len() as int,
                        };
                        openers_from(line, lang, pos + adv + off)
                    }
                }
            },
            None => match first_block_from(rest, lang.block_comments, 0, true) {
                Some(j) => {
                    let bc = lang.block_comments[j];
                    let after = line.subrange(pos + bc.open.len(), line.len() as int);
                    proof {
                        lemma_find_from_props(after, bc.close, 0);
                        lemma_first_block(rest, lang.block_comments, 0, true);
                    }
                    match find(after, bc.close) {
                        Some(cp) => openers_from(line, lang, pos + bc.open.len() + cp + bc.close.len()),
                        None => ScanStateV::InBlock {
                            close: bc.close,
                            nestable: bc.nestable,
                            open: bc.open,
                            depth: 0,
                        },
                    }
                },
                None => if first_prefix_from(rest, lang.line_comments, 0) is Some {
                    ScanStateV::Normal
                } else if line[pos] == '"' {
                    proof {
                        lemma_string_end(line, pos + 1, '"');
                    }
                    match string_end_from(line, pos + 1, '"') {
                        Some(e) => openers_from(line, lang, e),
                        None => ScanStateV::InSkip(SkipCloseV::UnescapedChar('"')),
                    }
                } else if line[pos] == '\'' {
                    proof {
                        lemma_string_end(line, pos + 1, '\'');
                    }
                    match string_end_from(line, pos + 1, '\'') {
                        Some(e) => openers_from(line, lang, e),
                        None => ScanStateV::Normal,
                    }
                } else {
                    openers_from(line, lang, pos + 1)
                },
            },
        }
    }
}

/// The state and comment body after a line that starts in the normal state.
pub open spec fn normal_line(line: Seq<char>, lang: LanguageV) -> (ScanStateV, Option<Seq<char>>) {
    let tr = line.subrange(skip_ws_from(line, 0), line.len() as int);
    match first_prefix_from(tr, lang.line_comments, 0) {
        Some(k) => {
            let body = tr.subrange(lang.line_comments[k].len() as int, tr.len() as int);
            match long_bracket_open(body) {
                Some((close, ol)) => if ol <= body.len() && contains(
                    body.subrange(ol, body.len() as int),
                    close,
                ) {
                    (ScanStateV::Normal, None)
                } else {
                    (ScanStateV::InSkip(SkipCloseV::FixedClose(close)), None)
                },
                None => (ScanStateV::Normal, token_of(trim(body))),
            }
        },
        None => match first_block_from(tr, lang.block_comments, 0, false) {
            Some(j) => {
                let bc = lang.block_comments[j];
                let after = tr.subrange(bc.open.len() as int, tr.len() as int);
                match find(after, bc.close) {
                    Some(cp) => (
                        ScanStateV::Normal,
                        token_of(trim(strip_block_decoration(after.subrange(0, cp)))),
                    ),
                    None => (
                        ScanStateV::InBlock {
                            close: bc.close,
                            nestable: bc.nestable,
                            open: bc.open,
                            depth: 0,
                        },
                        None,
                    ),
                }
            },
            None => (openers_from(line, lang, 0), None),
        },
    }
}

pub open spec fn sat_inc(d: usize) -> usize {
    crate::skip::sat_inc(d)
}

/// The state after the rest of a line from `pos` inside a block comment.
pub open spec fn block_from(line: Seq<char>, close: Seq<char>, nestable: bool, open: Seq<char>, pos: int, depth: usize) -> ScanStateV
    decreases line.len() - pos,
{
    if pos < 0 || pos >= line.len() {
        ScanStateV::InBlock { close, nestable, open, depth }
    } else if nestable && open.len() > 0 && occurs_at(line, open, pos) {
        block_from(line, close, nestable, open, pos + open.len(), sat_inc(depth))
    } else if close.len() > 0 && occurs_at(line, close, pos) {
        if depth == 0 {
            ScanStateV::Normal
        } else {
            block_from(line, close, nestable, open, pos + close.len(), (depth - 1) as usize)
        }
    } else {
        block_from(line, close, nestable, open, pos + 1, depth)
    }
}

/// The state after a line, and the comment body it yields.
pub open spec fn line_step(line: Seq<char>, state: ScanStateV, lang: LanguageV) -> (ScanStateV, Option<Seq<char>>) {
    match state {
        ScanStateV::Normal => normal_line(line, lang),
        ScanStateV::InBlock { close, nestable, open, depth } => (
            block_from(line, close, nestable, open, 0, depth),
            None,
        ),
        ScanStateV::InSkip(sc) => (
            match advance_over(sc, line) {
                None => ScanStateV::Normal,
                Some(n) => ScanStateV::InSkip(n),
            },
            None,
        ),
    }
}

/// The comment tokens of `lines[i..]`, scanning from `state`.
pub open spec fn scan_from(lines: Seq<Seq<char>>, lang: LanguageV, i: int, state: ScanStateV) -> Seq<TokenV>
    decreases lines.len() - i,
{
    if i < 0 || i >= lines.len() {
        Seq::empty()
    } else {
        let (next, tok) = line_step(lines[i], state, lang);
        let here = match tok {
            Some(b) => seq![TokenV { line: (i + 1) as usize, body: b }],
            None => Seq::empty(),
        };
        here + scan_from(lines, lang, i + 1, next)
    }
}

/// The comment tokens of a file's content.
pub open spec fn scan_spec(content: Seq<char>, lang: LanguageV) -> Seq<TokenV> {
    scan_from(lines_of(content), lang, 0, ScanStateV::Normal)
}

/// The directives and errors of a file, given its language.
pub open spec fn parse_with(content: Seq<char>, lang: LanguageV) -> (Seq<DirectiveV>, Seq<DirectiveErrorV>) {
    directives_from(scan_spec(content, lang), 0)
}

/// The directives and errors of a file, its language detected from its path.
pub open spec fn parse_spec(content: Seq<char>, path: Seq<char>) -> (Seq<DirectiveV>, Seq<DirectiveErrorV>) {
    parse_with(content, language_v(detect_spec(path)))
}

// ─── Scanner ───

/// Whether an exec opener result agrees with its model.
pub open spec fn open_result_is(r: Option<(SkipClose, usize)>, m: Option<(SkipCloseV, int)>) -> bool {
    crate::skip::open_result_is(r, m)
}

fn pattern_try_open(p: &SkipPattern, s: &[char]) -> (r: Option<(SkipClose, usize)>)
    ensures
        open_result_is(r, pattern_open(p@, s@)),
{
    let r = match p {
        SkipPattern::Fixed { open, close } => {
            if has_prefix(s, open.as_slice()) {
                Some((FixedClose::into_skip_close(crate::text::to_vec(close.as_slice())), open.len()))
            } else {
                None
            }
        },
        SkipPattern::Dynamic(op) => op.try_open(s),
    };
    match r {
        Some((sc, n)) => {
            if 0 < n && n <= s.len() {
                Some((sc, n))
            } else {
                None
            }
        },
        None => None,
    }
}

/// The longest skip-pattern opener at the start of `s` (the first among equals).
fn try_skip_pattern_open(s: &[char], lang: &Language) -> (r: Option<(SkipClose, usize)>)
    ensures
        open_result_is(r, best_open(s@, lang@.skip_patterns)),
{
    let pats = &lang.skip_patterns;
    let ghost pv = lang@.skip_patterns;
    let mut best: Option<(SkipClose, usize)> = None;
    let mut i: usize = 0;
    while i < pats.len()
        invariant
            i <= pats@.len(),
            pv == pats@.map_values(|p: SkipPattern| p@),
            best_open(s@, pv) == best_from(
                s@,
                pv,
                i as int,
                match best {
                    Some((sc, n)) => Some((sc@, n as int)),
                    None => None,
                },
            ),
        decreases pats.len() - i,
    {
        assert(pv[i as int] == pats@[i as int]@);
        let r = pattern_try_open(&pats[i], s);
        match r {
            Some((sc, n)) => {
                let better = match &best {
                    None => true,
                    Some((_, bn)) => n > *bn,
                };
                if better {
                    best = Some((sc, n));
                }
            },
            None => {},
        }
        i = i + 1;
    }
    best
}

/// The first block comment whose (non-empty, when `nonempty`) opener starts `s`.
fn first_block(s: &[char], blocks: &Vec<BlockComment>, nonempty: bool) -> (r: Option<usize>)
    ensures
        r matches Some(j) ==> first_block_from(s@, blocks@.map_values(|b: BlockComment| b@), 0, nonempty) == Some(j as int),
        r is None ==> first_block_from(s@, blocks@.map_values(|b: BlockComment| b@), 0, nonempty) is None,
{
    let ghost bv = blocks@.map_values(|b: BlockComment| b@);
    let mut i: usize = 0;
    while i < blocks.len()
        invariant
            i <= blocks@.len(),
            bv == blocks@.map_values(|b: BlockComment| b@),
            first_block_from(s@, bv, 0, nonempty) == first_block_from(s@, bv, i as int, nonempty),
        decreases blocks.len() - i,
    {
        assert(bv[i as int] == blocks@[i as int]@);
        if (!nonempty || blocks[i].open.len() > 0) && has_prefix(s, blocks[i].open.as_slice()) {
            return Some(i);
        }
        i = i + 1;
    }
    None
}

/// The first line comment prefix that starts `s`.
fn first_prefix(s: &[char], prefixes: &Vec<Vec<char>>) -> (r: Option<usize>)
    ensures
        r matches Some(k) ==> first_prefix_from(s@, prefixes@.map_values(|v: Vec<char>| v@), 0) == Some(k as int),
        r is None ==> first_prefix_from(s@, prefixes@.map_values(|v: Vec<char>| v@), 0) is None,
{
    let ghost pv = prefixes@.map_values(|v: Vec<char>| v@);
    let mut i: usize = 0;
    while i < prefixes.len()
        invariant
            i <= prefixes@.len(),
            pv == prefixes@.map_values(|v: Vec<char>| v@),
            first_prefix_from(s@, pv, 0) == first_prefix_from(s@, pv, i as int),
        decreases prefixes.len() - i,
    {
        assert(pv[i as int] == prefixes@[i as int]@);
        if has_prefix(s, prefixes[i].as_slice()) {
            return Some(i);
        }
        i = i + 1;
    }
    None
}

/// Skips a string literal on one line: the position after the closing quote,
/// or `None` if it is not closed on this line.
fn skip_single_line_string(line: &[char], start: usize, quote: char) -> (r: Option<usize>)
    requires
        start < line@.len(),
    ensures
        r matches Some(e) ==> string_end_from(line@, start + 1, quote) == Some(e as int),
        r is None ==> string_end_from(line@, start + 1, quote) is None,
{
    assert(line@.len() == line.len());
    let mut pos: usize = start + 1;
    while pos < line.len()
        invariant
            start + 1 <= pos,
            string_end_from(line@, start + 1, quote) == string_end_from(line@, pos as int, quote),
        decreases line.len() + 2 - pos,
    {
        if line[pos] == '\\' {
            if line.len() - pos < 2 {
                assert(string_end_from(line@, pos + 2, quote) is None);
                return None;
            }
            pos = pos + 2;
            continue;
        }
        if line[pos] == quote {
            return Some(pos + 1);
        }
        pos = pos + 1;
    }
    None
}

/// Scans a code line for the openers of multi-line constructs.
fn scan_for_openers(line: &[char], lang: &Language) -> (r: ScanState)
    ensures
        r@ == openers_from(line@, lang@, 0),
{
    let ghost lv = lang@;
    let mut pos: usize = 0;
    while pos < line.len()
        invariant
            pos <= line@.len(),
            lv == lang@,
            openers_from(line@, lv, 0) == openers_from(line@, lv, pos as int),
        decreases line.len() - pos,
    {
        let rest = copy_range(line, pos, line.len());
        if let Some((skip_close, advance)) = try_skip_pattern_open(rest.as_slice(), lang) {
            proof {
                lemma_best_from(rest@, lv.skip_patterns, 0, None);
            }
            if matches!(&skip_close, SkipClose::FencedCode(_)) && pos > 0 {
                pos = pos + 1;
                continue;
            }
            let after = copy_range(line, pos + advance, line.len());
            if !skip_close.check_close(after.as_slice()) {
                return ScanState::InSkipRegion(skip_close);
            }
            proof {
                lemma_close_offset_bounds(skip_close@, after@);
            }
            let off = match skip_close.find_close_offset(after.as_slice()) {
                Some(o) => o,
                None => after.len(),
            };
            pos = pos + advance + off;
            continue;
        }
        if let Some(j) = first_block(rest.as_slice(), &lang.block_comments, true) {
            let ghost bv = lv.block_comments;
            proof {
                lemma_first_block(rest@, bv, 0, true);
                assert(bv[j as int] == lang.block_comments@[j as int]@);
            }
            let bc = &lang.block_comments[j];
            let after = copy_range(line, pos + bc.open.len(), line.len());
            proof {
                lemma_find_from_props(after@, bc.close@, 0);
            }
            match find_at(after.as_slice(), bc.close.as_slice(), 0) {
                Some(cp) => {
                    pos = pos + bc.open.len() + cp + bc.close.len();
                    continue;
                },
                None => {
                    return ScanState::InBlockComment {
                        close: crate::text::to_vec(bc.close.as_slice()),
                        nestable: bc.nestable,
                        open: crate::text::to_vec(bc.open.as_slice()),
                        depth: 0,
                    };
                },
            }
        }
        if first_prefix(rest.as_slice(), &lang.line_comments).is_some() {
            return ScanState::Normal;
        }
        if line[pos] == '"' {
            proof {
                lemma_string_end(line@, pos + 1, '"');
            }
            match skip_single_line_string(line, pos, '"') {
                Some(end) => {
                    pos = end;
                    continue;
                },
                None => return ScanState::InSkipRegion(UnescapedChar::into_skip_close('"')),
            }
        }
        if line[pos] == '\'' {
            proof {
                lemma_string_end(line@, pos + 1, '\'');
            }
            match skip_single_line_string(line, pos, '\'') {
                Some(end) => pos = end,
                None => pos = line.len(),
            }
            continue;
        }
        pos = pos + 1;
    }
    ScanState::Normal
}

/// Scans a line inside a block comment.
fn scan_block_comment(line: &[char], close: Vec<char>, nestable: bool, open: Vec<char>, start_depth: usize) -> (r: ScanState)
    ensures
        r@ == block_from(line@, close@, nestable, open@, 0, start_depth),
{
    let mut pos: usize = 0;
    let mut depth: usize = start_depth;
    while pos < line.len()
        invariant
            pos <= line@.len(),
            block_from(line@, close@, nestable, open@, 0, start_depth) == block_from(line@, close@, nestable, open@, pos as int, depth),
        decreases line.len() - pos,
    {
        if nestable && open.len() > 0 && matches_at(line, open.as_slice(), pos) {
            depth = depth.saturating_add(1);
            pos = pos + open.len();
            continue;
        }
        if close.len() > 0 && matches_at(line, close.as_slice(), pos) {
            if depth == 0 {
                return ScanState::Normal;
            }
            depth = depth - 1;
            pos = pos + close.len();
            continue;
        }
        pos = pos + 1;
    }
    ScanState::InBlockComment { close, nestable, open, depth }
}

fn scan_skip_region(line: &[char], skip: SkipClose) -> (r: ScanState)
    ensures
        r@ == (match advance_over(skip@, line@) {
            None => ScanStateV::Normal,
            Some(n) => ScanStateV::InSkip(n),
        }),
{
    match skip.advance(line) {
        None => ScanState::Normal,
        Some(next) => ScanState::InSkipRegion(next),
    }
}

/// Trim, then drop one leading `*` decoration and trim again (as bounds in `s`).
fn strip_block_decoration_range(s: &[char], a: usize, b: usize) -> (r: Vec<char>)
    requires
        a <= b <= s@.len(),
    ensures
        r@ == strip_block_decoration(s@.subrange(a as int, b as int)),
{
    let (x, y) = trim_range(s, a, b);
    if x < y && s[x] == '*' {
        let t = copy_range(s, x, y);
        let (u, v) = trim_range(t.as_slice(), 1, t.len());
        copy_range(t.as_slice(), u, v)
    } else {
        copy_range(s, x, y)
    }
}

fn push_token(tokens: &mut Vec<CommentToken>, body: Vec<char>, line: usize)
    ensures
        tokens_view(final(tokens)@) == tokens_view(old(tokens)@) + (match token_of(body@) {
            Some(b) => seq![TokenV { line, body: b }],
            None => Seq::empty(),
        }),
{
    let ghost t0 = old(tokens)@;
    if body.len() > 0 {
        let ghost bv = body@;
        tokens.push(CommentToken { line, body });
        assert(tokens_view(tokens@) =~= tokens_view(t0) + seq![TokenV { line, body: bv }]);
    } else {
        assert(tokens_view(tokens@) =~= tokens_view(t0) + Seq::<TokenV>::empty());
    }
}

/// Scans a line that starts outside any comment or skip region.
fn scan_normal(line: &[char], line_num: usize, lang: &Language, tokens: &mut Vec<CommentToken>) -> (r: ScanState)
    ensures
        ({
            let (st, tok) = normal_line(line@, lang@);
            &&& r@ == st
            &&& tokens_view(final(tokens)@) == tokens_view(old(tokens)@) + (match tok {
                Some(b) => seq![TokenV { line: line_num, body: b }],
                None => Seq::empty(),
            })
        }),
{
    let ghost lv = lang@;
    let ghost t0 = tokens_view(old(tokens)@);
    let st = skip_ws(line, 0);
    let trimmed = copy_range(line, st, line.len());
    if let Some(k) = first_prefix(trimmed.as_slice(), &lang.line_comments) {
        proof {
            lemma_first_prefix(trimmed@, lv.line_comments, 0);
            assert(lv.line_comments[k as int] == lang.line_comments@[k as int]@);
        }
        let plen = lang.line_comments[k].len();
        let body = copy_range(trimmed.as_slice(), plen, trimmed.len());
        match LongBracket::try_open(body.as_slice()) {
            Some((skip, open_len)) => {
                if open_len <= body.len() {
                    let after_open = copy_range(body.as_slice(), open_len, body.len());
                    if skip.check_close(after_open.as_slice()) {
                        assert(tokens_view(tokens@) =~= t0 + Seq::<TokenV>::empty());
                        return ScanState::Normal;
                    }
                }
                assert(tokens_view(tokens@) =~= t0 + Seq::<TokenV>::empty());
                return ScanState::InSkipRegion(skip);
            },
            None => {
                let (a, b) = trim_range(body.as_slice(), 0, body.len());
                assert(body@.subrange(0, body@.len() as int) =~= body@);
                push_token(tokens, copy_range(body.as_slice(), a, b), line_num);
                return ScanState::Normal;
            },
        }
    }
    if let Some(j) = first_block(trimmed.as_slice(), &lang.block_comments, false) {
        proof {
            lemma_first_block(trimmed@, lv.block_comments, 0, false);
            assert(lv.block_comments[j as int] == lang.block_comments@[j as int]@);
        }
        let bc = &lang.block_comments[j];
        let after_open = copy_range(trimmed.as_slice(), bc.open.len(), trimmed.len());
        match find_at(after_open.as_slice(), bc.close.as_slice(), 0) {
            Some(close_pos) => {
                proof {
                    lemma_find_from_props(after_open@, bc.close@, 0);
                }
                let stripped = strip_block_decoration_range(after_open.as_slice(), 0, close_pos);
                let (a, b) = trim_range(stripped.as_slice(), 0, stripped.len());
                assert(stripped@.subrange(0, stripped@.len() as int) =~= stripped@);
                push_token(tokens, copy_range(stripped.as_slice(), a, b), line_num);
                return ScanState::Normal;
            },
            None => {
                assert(tokens_view(tokens@) =~= t0 + Seq::<TokenV>::empty());
                return ScanState::InBlockComment {
                    close: crate::text::to_vec(bc.close.as_slice()),
                    nestable: bc.nestable,
                    open: crate::text::to_vec(bc.open.as_slice()),
                    depth: 0,
                };
            },
        }
    }
    assert(tokens_view(tokens@) =~= t0 + Seq::<TokenV>::empty());
    scan_for_openers(line, lang)
}

fn scan_line(line: &[char], line_num: usize, state: ScanState, lang: &Language, tokens: &mut Vec<CommentToken>) -> (r: ScanState)
    ensures
        ({
            let (st, tok) = line_step(line@, state@, lang@);
            &&& r@ == st
            &&& tokens_view(final(tokens)@) == tokens_view(old(tokens)@) + (match tok {
                Some(b) => seq![TokenV { line: line_num, body: b }],
                None => Seq::empty(),
            })
        }),
{
    let ghost t0 = tokens_view(old(tokens)@);
    match state {
        ScanState::Normal => scan_normal(line, line_num, lang, tokens),
        ScanState::InBlockComment { close, nestable, open, depth } => {
            assert(tokens_view(tokens@) =~= t0 + Seq::<TokenV>::empty());
            scan_block_comment(line, close, nestable, open, depth)
        },
        ScanState::InSkipRegion(skip) => {
            assert(tokens_view(tokens@) =~= t0 + Seq::<TokenV>::empty());
            scan_skip_region(line, skip)
        },
    }
}

pub proof fn lemma_find_nl(s: Seq<char>, start: int)
    requires
        0 <= start,
    ensures
        find_from(s, seq!['\n'], start) matches Some(k) ==> start <= k < s.len() && s[k] == '\n',
{
    lemma_find_from_props(s, seq!['\n'], start);
    if let Some(k) = find_from(s, seq!['\n'], start) {
        assert(s.subrange(k, k + 1)[0] == s[k]);
    }
}

pub open spec fn line_views(v: Seq<Vec<char>>) -> Seq<Seq<char>> {
    v.map_values(|l: Vec<char>| l@)
}

/// `str::lines`: split at `\n`, a `\r` before the `\n` dropped.
pub fn split_lines(content: &[char]) -> (r: Vec<Vec<char>>)
    ensures
        line_views(r@) == lines_of(content@),
{
    let ghost c = content@;
    let nl = vec!['\n'];
    assert(nl@ =~= seq!['\n']);
    let mut out: Vec<Vec<char>> = Vec::new();
    let mut start: usize = 0;
    assert(lines_of(c) =~= line_views(out@) + lines_from(c, 0));
    while start < content.len()
        invariant
            c == content@,
            nl@ == seq!['\n'],
            start <= content@.len(),
            lines_of(c) == line_views(out@) + lines_from(c, start as int),
        decreases content.len() - start,
    {
        let ghost rest = lines_from(c, start as int);
        proof {
            lemma_find_nl(c, start as int);
        }
        let found = find_at(content, nl.as_slice(), start);
        let (end, next) = match found {
            Some(k) => (k, k + 1),
            None => (content.len(), content.len()),
        };
        let mut line = copy_range(content, start, end);
        if found.is_some() && line.len() > 0 && line[line.len() - 1] == '\r' {
            line.pop();
        }
        let ghost lseq = line@;
        proof {
            match found {
                Some(k) => {
                    assert(lseq == strip_cr(c.subrange(start as int, k as int)));
                    assert(rest == seq![lseq] + lines_from(c, k + 1));
                },
                None => {
                    assert(rest == seq![lseq]);
                    assert(lines_from(c, content@.len() as int) == Seq::<Seq<char>>::empty());
                    assert(rest =~= seq![lseq] + lines_from(c, content@.len() as int));
                },
            }
        }
        let ghost o0 = line_views(out@);
        out.push(line);
        assert(line_views(out@) =~= o0.push(lseq));
        assert(lines_of(c) =~= line_views(out@) + lines_from(c, next as int));
        start = next;
    }
    assert(lines_from(c, start as int) == Seq::<Seq<char>>::empty());
    assert(lines_of(c) =~= line_views(out@));
    out
}

/// Collects the comment tokens of a file, line by line.
pub fn scan(content: &[char], lang: &Language) -> (r: Vec<CommentToken>)
    ensures
        tokens_view(r@) == scan_spec(content@, lang@),
{
    let ghost c = content@;
    let ghost lv = lang@;
    let nl = vec!['\n'];
    assert(nl@ =~= seq!['\n']);
    let mut tokens: Vec<CommentToken> = Vec::new();
    let mut state = ScanState::Normal;
    let mut start: usize = 0;
    let mut i: usize = 0;
    let ghost mut done: Seq<Seq<char>> = Seq::empty();
    assert(lines_of(c) =~= done + lines_from(c, 0));
    while start < content.len()
        invariant
            c == content@,
            lv == lang@,
            nl@ == seq!['\n'],
            start <= content@.len(),
            i <= start,
            done.len() == i,
            lines_of(c) == done + lines_from(c, start as int),
            scan_spec(c, lv) == tokens_view(tokens@) + scan_from(lines_of(c), lv, i as int, state@),
        decreases content.len() - start,
    {
        let ghost rest = lines_from(c, start as int);
        proof {
            lemma_find_nl(c, start as int);
        }
        let found = find_at(content, nl.as_slice(), start);
        let (end, next) = match found {
            Some(k) => (k, k + 1),
            None => (content.len(), content.len()),
        };
        let mut line = copy_range(content, start, end);
        if found.is_some() && line.len() > 0 && line[line.len() - 1] == '\r' {
            line.pop();
        }
        let ghost lseq = line@;
        proof {
            match found {
                Some(k) => {
                    assert(lseq == strip_cr(c.subrange(start as int, k as int)));
                    assert(rest == seq![lseq] + lines_from(c, k + 1));
                },
                None => {
                    assert(rest == seq![lseq]);
                    assert(lines_from(c, content@.len() as int) == Seq::<Seq<char>>::empty());
                    assert(rest =~= seq![lseq] + lines_from(c, content@.len() as int));
                },
            }
            assert(lines_of(c)[i as int] == lseq);
        }
        let ghost st0 = state@;
        let ghost tok0 = tokens_view(tokens@);
        state = scan_line(line.as_slice(), i + 1, state, lang, &mut tokens);
        proof {
            let (nst, tok) = line_step(lseq, st0, lv);
            let here = match tok {
                Some(b) => seq![TokenV { line: (i + 1) as usize, body: b }],
                None => Seq::<TokenV>::empty(),
            };
            assert(scan_from(lines_of(c), lv, i as int, st0) == here + scan_from(lines_of(c), lv, i + 1, nst));
            assert(tokens_view(tokens@) + scan_from(lines_of(c), lv, i + 1, state@) =~= tok0 + (here + scan_from(lines_of(c), lv, i + 1, nst)));
            done = done.push(lseq);
            assert(lines_of(c) =~= done + lines_from(c, next as int));
        }
        i = i + 1;
        start = next;
    }
    proof {
        assert(lines_from(c, start as int) == Seq::<Seq<char>>::empty());
        assert(lines_of(c).len() == i);
        assert(tokens_view(tokens@) + Seq::<TokenV>::empty() =~= tokens_view(tokens@));
    }
    tokens
}

/// Parses a file and returns all directives and errors, its comment syntax
/// chosen from its path.
pub fn parse(content: &str, file_path: &str) -> (r: (Vec<Directive>, Vec<DirectiveError>))
    ensures
        directives_view(r.0@) == parse_spec(content@, file_path@).0,
        errors_view(r.1@) == parse_spec(content@, file_path@).1,
{
    let lang = detect(file_path);
    let chars = chars_of(content);
    let tokens = scan(chars.as_slice(), &lang);
    parse_directives(tokens.as_slice())
}


// ─── Laws ───

/// A line scanned inside a string, raw literal, heredoc or fenced code
/// block yields no comment token: directives there are ignored.
pub proof fn law_skip_region_lines_yield_nothing(line: Seq<char>, sc: SkipCloseV, lang: LanguageV)
    ensures
        line_step(line, ScanStateV::InSkip(sc), lang).1 is None,
{
}

/// Lines scanned while a skip region stays open yield no token at all.
pub proof fn law_open_skip_region_scans_nothing(lines: Seq<Seq<char>>, lang: LanguageV, i: int, sc: SkipCloseV)
    requires
        0 <= i,
        forall|j: int| i <= j < lines.len() ==> advance_over(sc, #[trigger] lines[j]) == Some(sc),
    ensures
        scan_from(lines, lang, i, ScanStateV::InSkip(sc)) == Seq::<TokenV>::empty(),
    decreases lines.len() - i,
{
    if i < lines.len() {
        law_open_skip_region_scans_nothing(lines, lang, i + 1, sc);
    }
}


/// A one-line block comment whose body, after leading whitespace, starts
/// with a `*` decoration (`/** LINT.IfChange */`, ` * LINT.IfChange`) reads
/// as the rest of the body, trimmed: one `*` is dropped, so the body reads
/// as it would without the decoration (`/* LINT.IfChange */`).
pub proof fn law_block_decoration_dropped(w: Seq<char>, x: Seq<char>)
    requires
        forall|k: int| 0 <= k < w.len() ==> crate::text::is_ws(#[trigger] w[k]),
    ensures
        strip_block_decoration(w + seq!['*'] + x) == trim(x),
        !(trim(x).len() > 0 && trim(x)[0] == '*') ==> strip_block_decoration(w + seq!['*'] + x)
            == strip_block_decoration(x),
{
    let s = w + seq!['*'] + x;
    let n = w.len() as int;
    let (ix, jx) = crate::text::lemma_trim_bounds(x);
    let j = if ix < jx { n + 1 + jx } else { n + 1 };
    assert forall|k: int| 0 <= k < n implies crate::text::is_ws(#[trigger] s[k]) by {
        assert(s[k] == w[k]);
    }
    assert forall|k: int| j <= k < s.len() implies crate::text::is_ws(#[trigger] s[k]) by {
        assert(s[k] == x[k - n - 1]);
    }
    assert(s[n] == '*');
    if ix < jx {
        assert(s[j - 1] == x[jx - 1]);
    }
    crate::text::lemma_trim_is(s, n, j);
    let t = trim(s);
    assert(t == s.subrange(n, j));
    assert(t[0] == '*');
    let rest = t.subrange(1, t.len() as int);
    if ix < jx {
        assert(rest =~= x.subrange(0, jx));
        assert forall|k: int| 0 <= k < ix implies crate::text::is_ws(#[trigger] rest[k]) by {
            assert(rest[k] == x[k]);
        }
        assert(rest[ix] == x[ix]);
        assert(rest[jx - 1] == x[jx - 1]);
        crate::text::lemma_trim_is(rest, ix, jx);
        assert(rest.subrange(ix, jx) =~= x.subrange(ix, jx));
    } else {
        assert(rest.len() == 0);
        crate::text::lemma_trim_is(rest, 0, 0);
        assert(rest.subrange(0, 0) =~= x.subrange(ix, jx));
    }
}


/// Outside any open comment or string, a line that holds, after leading
/// whitespace, the language's first line-comment marker (`//` for the C
/// family) followed by text `b` is a comment whose body is `b` trimmed; the
/// line leaves the scanner in its normal state. (A body opening a Lua long
/// bracket, `[[` or `[=[`, starts a skipped region instead.)
pub proof fn law_line_comment_body(w: Seq<char>, b: Seq<char>, lang: LanguageV)
    requires
        forall|k: int| 0 <= k < w.len() ==> crate::text::is_ws(#[trigger] w[k]),
        lang.line_comments.len() > 0,
        lang.line_comments[0] == seq!['/', '/'],
        b.len() == 0 || b[0] != '[',
    ensures
        normal_line(w + seq!['/', '/'] + b, lang) == (ScanStateV::Normal, token_of(trim(b))),
{
    let line = w + seq!['/', '/'] + b;
    let n = w.len() as int;
    crate::text::lemma_skip_ws_bounds(line, 0);
    let a = skip_ws_from(line, 0);
    assert(line[n] == '/');
    if a < n {
        assert(line[a] == w[a]);
    }
    if a > n {
        assert(crate::text::is_ws(line[n]));
    }
    assert(a == n);
    let tr = line.subrange(a, line.len() as int);
    assert(tr.subrange(0, 2) =~= seq!['/', '/']);
    assert(starts_with(tr, lang.line_comments[0]));
    assert(first_prefix_from(tr, lang.line_comments, 0) == Some(0int));
    assert(tr.subrange(2, tr.len() as int) =~= b);
}

} // verus!
