//! The directive grammar: `LINT.IfChange`, `LINT.IfChange(label)`,
//! `LINT.ThenChange(targets)`, read from comment bodies.
use vstd::prelude::*;
use crate::ext::string_of;
use crate::text::{
    chars_of, copy_range, has_prefix, is_ascii_alpha, is_ascii_digit, lemma_rfind_props,
    occurs_at, rfind, rfind_in, rfind_upto, starts_with, trim, trim_range,
};

verus! {

// ─── Public types ───

/// A `ThenChange` target: an optional file path and an optional label.
#[derive(Debug, Clone, PartialEq, Eq)]
pub struct Target {
    pub raw: String,
    pub file: Option<String>,
    pub label: Option<String>,
}

pub struct TargetV {
    pub raw: Seq<char>,
    pub file: Option<Seq<char>>,
    pub label: Option<Seq<char>>,
}

pub open spec fn opt_view(o: Option<String>) -> Option<Seq<char>> {
    match o {
        Some(s) => Some(s@),
        None => None,
    }
}

impl View for Target {
    type V = TargetV;

    open spec fn view(&self) -> TargetV {
        TargetV { raw: self.raw@, file: opt_view(self.file), label: opt_view(self.label) }
    }
}

/// A parsed directive with its 1-based line number.
#[derive(Debug, Clone, PartialEq, Eq)]
pub enum Directive {
    IfChange { line: usize, label: Option<String> },
    ThenChange { line: usize, targets: Vec<Target> },
}

pub enum DirectiveV {
    IfChange { line: usize, label: Option<Seq<char>> },
    ThenChange { line: usize, targets: Seq<TargetV> },
}

pub open spec fn targets_view(ts: Seq<Target>) -> Seq<TargetV> {
    ts.map_values(|t: Target| t@)
}

impl View for Directive {
    type V = DirectiveV;

    open spec fn view(&self) -> DirectiveV {
        match self {
            Directive::IfChange { line, label } => DirectiveV::IfChange {
                line: *line,
                label: opt_view(*label),
            },
            Directive::ThenChange { line, targets } => DirectiveV::ThenChange {
                line: *line,
                targets: targets_view(targets@),
            },
        }
    }
}

/// An error found while parsing directives, with its 1-based line number.
#[derive(Debug, Clone, PartialEq, Eq)]
pub struct DirectiveError {
    pub line: usize,
    pub message: String,
}

pub struct DirectiveErrorV {
    pub line: usize,
    pub message: Seq<char>,
}

impl View for DirectiveError {
    type V = DirectiveErrorV;

    open spec fn view(&self) -> DirectiveErrorV {
        DirectiveErrorV { line: self.line, message: self.message@ }
    }
}

// ─── Labels ───

pub open spec fn is_label_char(c: char) -> bool {
    is_ascii_alpha(c) || is_ascii_digit(c) || c == '_' || c == '.' || c == '-'
}

/// Label format: a letter, then letters, digits, `_`, `-` or `.`.
pub open spec fn valid_label(s: Seq<char>) -> bool {
    s.len() > 0 && is_ascii_alpha(s[0]) && forall|i: int| 0 < i < s.len() ==> is_label_char(#[trigger] s[i])
}

pub fn is_valid_label(s: &[char]) -> (r: bool)
    ensures
        r == valid_label(s@),
{
    if s.len() == 0 {
        return false;
    }
    let c0 = s[0];
    if !(('a' <= c0 && c0 <= 'z') || ('A' <= c0 && c0 <= 'Z')) {
        return false;
    }
    let mut i: usize = 1;
    while i < s.len()
        invariant
            1 <= i <= s@.len(),
            forall|k: int| 0 < k < i ==> is_label_char(#[trigger] s@[k]),
        decreases s.len() - i,
    {
        let c = s[i];
        if !(('a' <= c && c <= 'z') || ('A' <= c && c <= 'Z') || ('0' <= c && c <= '9') || c == '_'
            || c == '.' || c == '-') {
            return false;
        }
        i = i + 1;
    }
    true
}

// ─── Targets ───

/// The message for a label that does not follow the label format.
pub open spec fn malformed_label_message(label: Seq<char>) -> Seq<char> {
    "malformed label \""@ + label + "\""@
}

pub open spec fn has_separator(s: Seq<char>) -> bool {
    exists|i: int| 0 <= i < s.len() && (s[i] == '/' || s[i] == '\\')
}

/// Reading of one target. `:label` is a same-file label; otherwise the text
/// after the last `:` is a label when it starts with a letter and holds no
/// path separator (so drive letters, ports and numeric suffixes stay in the
/// path), and must then follow the label format.
pub open spec fn target_spec(raw: Seq<char>) -> Result<TargetV, Seq<char>> {
    let t = trim(raw);
    if t.len() > 0 && t[0] == ':' {
        let label = t.subrange(1, t.len() as int);
        if valid_label(label) {
            Ok(TargetV { raw: t, file: None, label: Some(label) })
        } else {
            Err(malformed_label_message(label))
        }
    } else {
        match rfind(t, seq![':']) {
            Some(c) => {
                let label = t.subrange(c + 1, t.len() as int);
                if label.len() > 0 && is_ascii_alpha(label[0]) && !has_separator(label) {
                    if valid_label(label) {
                        Ok(TargetV { raw: t, file: Some(t.subrange(0, c)), label: Some(label) })
                    } else {
                        Err(malformed_label_message(label))
                    }
                } else {
                    Ok(TargetV { raw: t, file: Some(t), label: None })
                }
            },
            None => Ok(TargetV { raw: t, file: Some(t), label: None }),
        }
    }
}

fn has_path_separator(s: &[char]) -> (r: bool)
    ensures
        r == has_separator(s@),
{
    let mut i: usize = 0;
    while i < s.len()
        invariant
            i <= s@.len(),
            forall|k: int| 0 <= k < i ==> !(s@[k] == '/' || s@[k] == '\\'),
        decreases s.len() - i,
    {
        if s[i] == '/' || s[i] == '\\' {
            return true;
        }
        i = i + 1;
    }
    false
}

fn malformed_label(label: &[char]) -> (r: String)
    ensures
        r@ == malformed_label_message(label@),
{
    let mut m = chars_of("malformed label \"");
    let mut i: usize = 0;
    let ghost m0 = m@;
    while i < label.len()
        invariant
            i <= label@.len(),
            m@ == m0 + label@.subrange(0, i as int),
        decreases label.len() - i,
    {
        m.push(label[i]);
        i = i + 1;
        assert(m@ =~= m0 + label@.subrange(0, i as int));
    }
    assert(label@.subrange(0, label@.len() as int) =~= label@);
    let q = chars_of("\"");
    let mut j: usize = 0;
    let ghost m1 = m@;
    while j < q.len()
        invariant
            j <= q@.len(),
            m@ == m1 + q@.subrange(0, j as int),
        decreases q.len() - j,
    {
        m.push(q[j]);
        j = j + 1;
        assert(m@ =~= m1 + q@.subrange(0, j as int));
    }
    assert(q@.subrange(0, q@.len() as int) =~= q@);
    string_of(m.as_slice())
}

/// Parses one `ThenChange` target.
pub fn parse_target_chars(raw: &[char]) -> (r: Result<Target, String>)
    ensures
        match r {
            Ok(t) => target_spec(raw@) == Ok::<TargetV, Seq<char>>(t@),
            Err(e) => target_spec(raw@) == Err::<TargetV, Seq<char>>(e@),
        },
{
    let (a, b) = trim_range(raw, 0, raw.len());
    assert(raw@.subrange(0, raw@.len() as int) =~= raw@);
    let t = copy_range(raw, a, b);
    let ghost tv = trim(raw@);
    assert(t@ == tv);
    if t.len() > 0 && t[0] == ':' {
        let label = copy_range(t.as_slice(), 1, t.len());
        if is_valid_label(label.as_slice()) {
            return Ok(
                Target {
                    raw: string_of(t.as_slice()),
                    file: None,
                    label: Some(string_of(label.as_slice())),
                },
            );
        }
        return Err(malformed_label(label.as_slice()));
    }
    let colon = vec![':'];
    assert(colon@ =~= seq![':']);
    match rfind_in(t.as_slice(), colon.as_slice()) {
        Some(c) => {
            proof {
                lemma_rfind_props(t@, colon@, t@.len() - colon@.len());
                assert(occurs_at(t@, colon@, c as int));
            }
            let label = copy_range(t.as_slice(), c + 1, t.len());
            if label.len() > 0 && (('a' <= label[0] && label[0] <= 'z') || ('A' <= label[0]
                && label[0] <= 'Z')) && !has_path_separator(label.as_slice()) {
                if is_valid_label(label.as_slice()) {
                    let file = copy_range(t.as_slice(), 0, c);
                    return Ok(
                        Target {
                            raw: string_of(t.as_slice()),
                            file: Some(string_of(file.as_slice())),
                            label: Some(string_of(label.as_slice())),
                        },
                    );
                }
                return Err(malformed_label(label.as_slice()));
            }
            Ok(
                Target {
                    raw: string_of(t.as_slice()),
                    file: Some(string_of(t.as_slice())),
                    label: None,
                },
            )
        },
        None => Ok(
            Target {
                raw: string_of(t.as_slice()),
                file: Some(string_of(t.as_slice())),
                label: None,
            },
        ),
    }
}

/// Parses one `ThenChange` target (`//path`, `//path:label`, `:label`).
pub fn parse_target(raw: &str) -> (r: Result<Target, String>)
    ensures
        match r {
            Ok(t) => target_spec(raw@) == Ok::<TargetV, Seq<char>>(t@),
            Err(e) => target_spec(raw@) == Err::<TargetV, Seq<char>>(e@),
        },
{
    let chars = chars_of(raw);
    parse_target_chars(chars.as_slice())
}

/// Index of the first `,` at or after `i`, or the end.
pub open spec fn next_comma(s: Seq<char>, i: int) -> int
    decreases s.len() - i,
{
    if i < 0 || i >= s.len() {
        s.len() as int
    } else if s[i] == ',' {
        i
    } else {
        next_comma(s, i + 1)
    }
}

/// Targets of the comma-separated list `s` from index `start` (entries that
/// are blank after trimming are dropped); the first malformed target is the error.
pub open spec fn target_list_from(s: Seq<char>, start: int) -> Result<Seq<TargetV>, Seq<char>>
    decreases s.len() + 1 - start,
{
    if start < 0 || start > s.len() {
        Ok(Seq::empty())
    } else {
        proof {
            lemma_next_comma(s, start);
        }
        let end = next_comma(s, start);
        let entry = trim(s.subrange(start, end));
        let rest = if end < s.len() {
            target_list_from(s, end + 1)
        } else {
            Ok(Seq::empty())
        };
        if entry.len() == 0 {
            rest
        } else {
            match target_spec(entry) {
                Err(e) => Err(e),
                Ok(t) => match rest {
                    Ok(ts) => Ok(seq![t] + ts),
                    Err(e) => Err(e),
                },
            }
        }
    }
}

pub proof fn lemma_next_comma(s: Seq<char>, i: int)
    requires
        0 <= i <= s.len(),
    ensures
        i <= next_comma(s, i) <= s.len(),
        next_comma(s, i) < s.len() ==> s[next_comma(s, i)] == ',',
        forall|k: int| i <= k < next_comma(s, i) ==> s[k] != ',',
    decreases s.len() - i,
{
    if i < s.len() && s[i] != ',' {
        lemma_next_comma(s, i + 1);
    }
}

fn find_comma(s: &[char], i: usize) -> (r: usize)
    requires
        i <= s@.len(),
    ensures
        r == next_comma(s@, i as int),
{
    let mut k: usize = i;
    while k < s.len() && s[k] != ','
        invariant
            i <= k <= s@.len(),
            next_comma(s@, i as int) == next_comma(s@, k as int),
        decreases s.len() - k,
    {
        k = k + 1;
    }
    k
}

/// Parses a comma-separated target list.
pub fn parse_target_list(s: &[char]) -> (r: Result<Vec<Target>, String>)
    ensures
        match r {
            Ok(ts) => target_list_from(s@, 0) == Ok::<Seq<TargetV>, Seq<char>>(targets_view(ts@)),
            Err(e) => target_list_from(s@, 0) == Err::<Seq<TargetV>, Seq<char>>(e@),
        },
{
    let mut out: Vec<Target> = Vec::new();
    let mut start: usize = 0;
    loop
        invariant
            start <= s@.len(),
            target_list_from(s@, 0) == match target_list_from(s@, start as int) {
                Ok(ts) => Ok::<Seq<TargetV>, Seq<char>>(targets_view(out@) + ts),
                Err(e) => Err(e),
            },
        decreases s.len() + 1 - start,
    {
        let end = find_comma(s, start);
        proof {
            lemma_next_comma(s@, start as int);
        }
        let (a, b) = trim_range(s, start, end);
        let entry = copy_range(s, a, b);
        if entry.len() != 0 {
            match parse_target_chars(entry.as_slice()) {
                Ok(t) => {
                    let ghost before = out@;
                    let ghost tv = t@;
                    out.push(t);
                    assert(targets_view(out@) =~= targets_view(before) + seq![tv]);
                    proof {
                        if end < s@.len() {
                            match target_list_from(s@, end + 1) {
                                Ok(ts) => {
                                    assert(targets_view(out@) + ts =~= targets_view(before) + (seq![tv] + ts));
                                },
                                Err(_) => {},
                            }
                        }
                    }
                },
                Err(e) => {
                    return Err(e);
                },
            }
        }
        if end >= s.len() {
            assert(target_list_from(s@, start as int) == Ok::<Seq<TargetV>, Seq<char>>(
                Seq::empty(),
            ) || entry@.len() > 0);
            assert(targets_view(out@) + Seq::<TargetV>::empty() =~= targets_view(out@));
            return Ok(out);
        }
        start = end + 1;
    }
}

// ─── ThenChange bodies ───

/// The shape of a comment body that starts with `LINT.ThenChange`.
pub enum ThenChangeForm {
    /// `LINT.ThenChange(…)` with nothing after the closing parenthesis.
    Complete(Seq<TargetV>),
    /// A target in the list is malformed.
    Malformed(Seq<char>),
    /// No opening parenthesis yet, or it is not closed: may continue on the next line.
    Incomplete,
    /// A mention in prose (text after the closing parenthesis, or no parenthesis
    /// right after the name): not a directive.
    Prose,
}

pub open spec fn then_change_kw() -> Seq<char> {
    seq!['L', 'I', 'N', 'T', '.', 'T', 'h', 'e', 'n', 'C', 'h', 'a', 'n', 'g', 'e']
}

pub open spec fn if_change_kw() -> Seq<char> {
    seq!['L', 'I', 'N', 'T', '.', 'I', 'f', 'C', 'h', 'a', 'n', 'g', 'e']
}

pub open spec fn lint_kw() -> Seq<char> {
    seq!['L', 'I', 'N', 'T', '.']
}

/// Index of the `)` closing the parenthesis opened before `i`, at nesting `depth`.
pub open spec fn close_paren_from(s: Seq<char>, i: int, depth: nat) -> Option<int>
    decreases s.len() - i,
{
    if i < 0 || i >= s.len() {
        None
    } else if s[i] == ')' {
        if depth == 0 {
            Some(i)
        } else {
            close_paren_from(s, i + 1, (depth - 1) as nat)
        }
    } else if s[i] == '(' {
        close_paren_from(s, i + 1, depth + 1)
    } else {
        close_paren_from(s, i + 1, depth)
    }
}

/// The form of a body `t` that starts with `LINT.ThenChange`.
pub open spec fn then_change_form(t: Seq<char>) -> ThenChangeForm {
    let n = then_change_kw().len() as int;
    if t.len() <= n {
        ThenChangeForm::Incomplete
    } else if t[n] != '(' {
        ThenChangeForm::Prose
    } else {
        match close_paren_from(t, n + 1, 0) {
            None => ThenChangeForm::Incomplete,
            Some(k) => if trim(t.subrange(k + 1, t.len() as int)).len() > 0 {
                ThenChangeForm::Prose
            } else {
                match target_list_from(t.subrange(n + 1, k), 0) {
                    Ok(ts) => ThenChangeForm::Complete(ts),
                    Err(e) => ThenChangeForm::Malformed(e),
                }
            },
        }
    }
}

/// The exec counterpart of a [`ThenChangeForm`].
pub enum ThenChangeParse {
    Complete(Vec<Target>),
    Malformed(String),
    Incomplete,
    Prose,
}

pub open spec fn form_of(p: ThenChangeParse) -> ThenChangeForm {
    match p {
        ThenChangeParse::Complete(ts) => ThenChangeForm::Complete(targets_view(ts@)),
        ThenChangeParse::Malformed(e) => ThenChangeForm::Malformed(e@),
        ThenChangeParse::Incomplete => ThenChangeForm::Incomplete,
        ThenChangeParse::Prose => ThenChangeForm::Prose,
    }
}

proof fn lemma_close_paren(s: Seq<char>, i: int, depth: nat)
    requires
        0 <= i,
    ensures
        close_paren_from(s, i, depth) matches Some(k) ==> i <= k < s.len(),
    decreases s.len() - i,
{
    if 0 <= i < s.len() {
        if s[i] == ')' {
            if depth > 0 {
                lemma_close_paren(s, i + 1, (depth - 1) as nat);
            }
        } else if s[i] == '(' {
            lemma_close_paren(s, i + 1, depth + 1);
        } else {
            lemma_close_paren(s, i + 1, depth);
        }
    }
}

fn find_close_paren(s: &[char], i: usize) -> (r: Option<usize>)
    requires
        i <= s@.len(),
    ensures
        r matches Some(k) ==> close_paren_from(s@, i as int, 0) == Some(k as int) && i <= k
            < s@.len(),
        r is None ==> close_paren_from(s@, i as int, 0) is None,
{
    proof {
        lemma_close_paren(s@, i as int, 0);
    }
    let mut k: usize = i;
    let mut depth: usize = 0;
    while k < s.len()
        invariant
            i <= k <= s@.len(),
            depth <= k,
            close_paren_from(s@, i as int, 0) == close_paren_from(s@, k as int, depth as nat),
        decreases s.len() - k,
    {
        if s[k] == ')' {
            if depth == 0 {
                return Some(k);
            }
            depth = depth - 1;
        } else if s[k] == '(' {
            depth = depth + 1;
        }
        k = k + 1;
    }
    None
}

/// Classifies a body `t` that starts with `LINT.ThenChange`.
pub fn then_change_parse(t: &[char]) -> (r: ThenChangeParse)
    requires
        starts_with(t@, then_change_kw()),
    ensures
        form_of(r) == then_change_form(t@),
{
    let n: usize = 15;
    assert(then_change_kw().len() == 15);
    if t.len() <= n {
        return ThenChangeParse::Incomplete;
    }
    if t[n] != '(' {
        return ThenChangeParse::Prose;
    }
    match find_close_paren(t, n + 1) {
        None => ThenChangeParse::Incomplete,
        Some(k) => {
            let (a, b) = trim_range(t, k + 1, t.len());
            if a < b {
                return ThenChangeParse::Prose;
            }
            let inner = copy_range(t, n + 1, k);
            match parse_target_list(inner.as_slice()) {
                Ok(ts) => ThenChangeParse::Complete(ts),
                Err(e) => ThenChangeParse::Malformed(e),
            }
        },
    }
}

/// Targets of a complete `LINT.ThenChange(…)` body: `Ok(None)` when the body
/// is not a complete directive (unclosed, or a mention in prose).
pub fn parse_then_change_targets(body: &str) -> (r: Result<Option<Vec<Target>>, String>)
    ensures
        ({
            let t = trim(body@);
            if starts_with(t, then_change_kw()) {
                match then_change_form(t) {
                    ThenChangeForm::Complete(ts) => r matches Ok(Some(v)) && targets_view(v@) == ts,
                    ThenChangeForm::Malformed(e) => r matches Err(m) && m@ == e,
                    _ => r matches Ok(None),
                }
            } else {
                r matches Ok(None)
            }
        }),
{
    let chars = chars_of(body);
    let (a, b) = trim_range(chars.as_slice(), 0, chars.len());
    assert(chars@.subrange(0, chars@.len() as int) =~= chars@);
    let t = copy_range(chars.as_slice(), a, b);
    let kw = then_change_chars();
    if !has_prefix(t.as_slice(), kw.as_slice()) {
        return Ok(None);
    }
    match then_change_parse(t.as_slice()) {
        ThenChangeParse::Complete(ts) => Ok(Some(ts)),
        ThenChangeParse::Malformed(e) => Err(e),
        _ => Ok(None),
    }
}

fn then_change_chars() -> (r: Vec<char>)
    ensures
        r@ == then_change_kw(),
{
    let r = vec!['L', 'I', 'N', 'T', '.', 'T', 'h', 'e', 'n', 'C', 'h', 'a', 'n', 'g', 'e'];
    assert(r@ =~= then_change_kw());
    r
}

fn if_change_chars() -> (r: Vec<char>)
    ensures
        r@ == if_change_kw(),
{
    let r = vec!['L', 'I', 'N', 'T', '.', 'I', 'f', 'C', 'h', 'a', 'n', 'g', 'e'];
    assert(r@ =~= if_change_kw());
    r
}

fn lint_chars() -> (r: Vec<char>)
    ensures
        r@ == lint_kw(),
{
    let r = vec!['L', 'I', 'N', 'T', '.'];
    assert(r@ =~= lint_kw());
    r
}

// ─── Directives from comment tokens ───

/// The trimmed body of one comment, with its 1-based line number.
#[derive(Debug, Clone)]
pub struct CommentToken {
    pub line: usize,
    pub body: Vec<char>,
}

pub struct TokenV {
    pub line: usize,
    pub body: Seq<char>,
}

impl View for CommentToken {
    type V = TokenV;

    open spec fn view(&self) -> TokenV {
        TokenV { line: self.line, body: self.body@ }
    }
}

pub open spec fn tokens_view(ts: Seq<CommentToken>) -> Seq<TokenV> {
    ts.map_values(|t: CommentToken| t@)
}

pub open spec fn is_word_char(c: char) -> bool {
    is_ascii_alpha(c) || is_ascii_digit(c) || c == '_'
}

/// Length of the run of word characters at `i`.
pub open spec fn word_run(s: Seq<char>, i: int) -> int
    decreases s.len() - i,
{
    if 0 <= i < s.len() && is_word_char(s[i]) {
        1 + word_run(s, i + 1)
    } else {
        0
    }
}

pub proof fn lemma_word_run(s: Seq<char>, i: int)
    requires
        0 <= i <= s.len(),
    ensures
        0 <= word_run(s, i) <= s.len() - i,
    decreases s.len() - i,
{
    if i < s.len() && is_word_char(s[i]) {
        lemma_word_run(s, i + 1);
    }
}

/// Length of the run of label characters at `i`.
pub open spec fn label_run(s: Seq<char>, i: int) -> int
    decreases s.len() - i,
{
    if 0 <= i < s.len() && is_label_char(s[i]) {
        1 + label_run(s, i + 1)
    } else {
        0
    }
}

pub proof fn lemma_label_run(s: Seq<char>, i: int)
    requires
        0 <= i <= s.len(),
    ensures
        0 <= label_run(s, i) <= s.len() - i,
        forall|k: int| i <= k < i + label_run(s, i) ==> is_label_char(#[trigger] s[k]),
    decreases s.len() - i,
{
    if i < s.len() && is_label_char(s[i]) {
        lemma_label_run(s, i + 1);
    }
}

/// The directive name after `LINT.` in a body `t` that starts with `LINT.`.
pub open spec fn directive_name(t: Seq<char>) -> Seq<char> {
    t.subrange(5, 5 + word_run(t, 5))
}

/// The label of `LINT.IfChange(label)`, when the parenthesised label is well
/// formed and not followed by a word character.
pub open spec fn if_change_label(t: Seq<char>) -> Option<Seq<char>> {
    let p = if_change_kw().len() as int;
    if p < t.len() && t[p] == '(' {
        let n = label_run(t, p + 1);
        let j = p + 1 + n;
        if n > 0 && is_ascii_alpha(t[p + 1]) && j < t.len() && t[j] == ')' && (j + 1 >= t.len()
            || !is_word_char(t[j + 1])) {
            Some(t.subrange(p + 1, j))
        } else {
            None
        }
    } else {
        None
    }
}

pub open spec fn name_if_change() -> Seq<char> {
    if_change_kw().subrange(5, 13)
}

pub open spec fn name_then_change() -> Seq<char> {
    then_change_kw().subrange(5, 15)
}

/// What one directive-looking comment contributes before any line joining.
pub enum BodyKind {
    NotDirective,
    IfChange(Option<Seq<char>>),
    ThenChange(ThenChangeForm),
    Unnamed,
    Unknown(Seq<char>),
}

pub open spec fn body_kind(t: Seq<char>) -> BodyKind {
    if !starts_with(t, lint_kw()) {
        BodyKind::NotDirective
    } else {
        let name = directive_name(t);
        if name == name_if_change() {
            BodyKind::IfChange(if_change_label(t))
        } else if name == name_then_change() {
            BodyKind::ThenChange(then_change_form(t))
        } else if name.len() == 0 {
            BodyKind::Unnamed
        } else {
            BodyKind::Unknown(name)
        }
    }
}

pub open spec fn malformed_directive_message(t: Seq<char>) -> Seq<char> {
    "malformed directive: "@ + t
}

pub open spec fn unknown_directive_message(name: Seq<char>) -> Seq<char> {
    "unknown directive: LINT."@ + name
}

/// Joins the comment bodies on consecutive lines after `end - 1` onto
/// `joined`, stopping once the `ThenChange` is no longer incomplete.
pub open spec fn collect_from(toks: Seq<TokenV>, joined: Seq<char>, end: int) -> (Seq<char>, int)
    decreases toks.len() - end,
{
    if 0 < end < toks.len() && toks[end].line == toks[end - 1].line + 1 {
        let j = joined + seq![' '] + toks[end].body;
        if !(then_change_form(j) is Incomplete) {
            (j, end + 1)
        } else {
            collect_from(toks, j, end + 1)
        }
    } else {
        (joined, end)
    }
}

/// The outcome of a `ThenChange` form: a directive, an error, or nothing.
pub open spec fn then_change_outcome(form: ThenChangeForm, line: usize, t: Seq<char>) -> (Option<DirectiveV>, Option<DirectiveErrorV>) {
    match form {
        ThenChangeForm::Complete(ts) => (Some(DirectiveV::ThenChange { line, targets: ts }), None),
        ThenChangeForm::Malformed(e) => (None, Some(DirectiveErrorV { line, message: e })),
        ThenChangeForm::Prose => (None, None),
        ThenChangeForm::Incomplete => (None, Some(DirectiveErrorV { line, message: malformed_directive_message(t) })),
    }
}

/// What token `i` contributes, and the index of the next token to read.
pub open spec fn token_step(toks: Seq<TokenV>, i: int) -> (Option<DirectiveV>, Option<DirectiveErrorV>, int) {
    let t = trim(toks[i].body);
    let line = toks[i].line;
    match body_kind(t) {
        BodyKind::NotDirective => (None, None, i + 1),
        BodyKind::IfChange(label) => (Some(DirectiveV::IfChange { line, label }), None, i + 1),
        BodyKind::ThenChange(form) => if form is Incomplete {
            let (joined, end) = collect_from(toks, t, i + 1);
            let (d, e) = then_change_outcome(then_change_form(joined), line, t);
            (d, e, end)
        } else {
            let (d, e) = then_change_outcome(form, line, t);
            (d, e, i + 1)
        },
        BodyKind::Unnamed => (None, Some(DirectiveErrorV { line, message: malformed_directive_message(t) }), i + 1),
        BodyKind::Unknown(name) => (None, Some(DirectiveErrorV { line, message: unknown_directive_message(name) }), i + 1),
    }
}

pub open spec fn opt_seq<T>(o: Option<T>) -> Seq<T> {
    match o {
        Some(x) => seq![x],
        None => Seq::empty(),
    }
}

pub proof fn lemma_collect_from(toks: Seq<TokenV>, joined: Seq<char>, end: int)
    requires
        1 <= end,
    ensures
        end <= collect_from(toks, joined, end).1,
        end < collect_from(toks, joined, end).1 ==> collect_from(toks, joined, end).1 <= toks.len(),
    decreases toks.len() - end,
{
    if 0 < end < toks.len() && toks[end].line == toks[end - 1].line + 1 {
        let j = joined + seq![' '] + toks[end].body;
        if then_change_form(j) is Incomplete {
            lemma_collect_from(toks, j, end + 1);
        }
    }
}

/// Directives and errors of the tokens from index `i` on.
pub open spec fn directives_from(toks: Seq<TokenV>, i: int) -> (Seq<DirectiveV>, Seq<DirectiveErrorV>)
    decreases toks.len() - i,
{
    if i < 0 || i >= toks.len() {
        (Seq::empty(), Seq::empty())
    } else {
        proof {
            lemma_collect_from(toks, trim(toks[i].body), i + 1);
        }
        let (d, e, next) = token_step(toks, i);
        let (ds, es) = directives_from(toks, next);
        (opt_seq(d) + ds, opt_seq(e) + es)
    }
}

pub open spec fn directives_view(ds: Seq<Directive>) -> Seq<DirectiveV> {
    ds.map_values(|d: Directive| d@)
}

pub open spec fn errors_view(es: Seq<DirectiveError>) -> Seq<DirectiveErrorV> {
    es.map_values(|e: DirectiveError| e@)
}

/// `prefix` followed by the characters `v`, as a `String`.
pub fn message(prefix: &str, v: &[char]) -> (r: String)
    ensures
        r@ == prefix@ + v@,
{
    let mut m = chars_of(prefix);
    let ghost m0 = m@;
    let mut i: usize = 0;
    while i < v.len()
        invariant
            i <= v@.len(),
            m@ == m0 + v@.subrange(0, i as int),
        decreases v.len() - i,
    {
        m.push(v[i]);
        i = i + 1;
        assert(m@ =~= m0 + v@.subrange(0, i as int));
    }
    assert(v@.subrange(0, v@.len() as int) =~= v@);
    string_of(m.as_slice())
}

fn count_word_run(s: &[char], i: usize) -> (r: usize)
    requires
        i <= s@.len(),
    ensures
        r == word_run(s@, i as int),
        i + r <= s@.len(),
{
    proof {
        lemma_word_run(s@, i as int);
    }
    let mut k: usize = i;
    while k < s.len() && (('a' <= s[k] && s[k] <= 'z') || ('A' <= s[k] && s[k] <= 'Z') || ('0'
        <= s[k] && s[k] <= '9') || s[k] == '_')
        invariant
            i <= k <= s@.len(),
            word_run(s@, i as int) == (k - i) + word_run(s@, k as int),
        decreases s.len() - k,
    {
        k = k + 1;
    }
    k - i
}

fn count_label_run(s: &[char], i: usize) -> (r: usize)
    requires
        i <= s@.len(),
    ensures
        r == label_run(s@, i as int),
        i + r <= s@.len(),
{
    proof {
        lemma_label_run(s@, i as int);
    }
    let mut k: usize = i;
    while k < s.len() && (('a' <= s[k] && s[k] <= 'z') || ('A' <= s[k] && s[k] <= 'Z') || ('0'
        <= s[k] && s[k] <= '9') || s[k] == '_' || s[k] == '.' || s[k] == '-')
        invariant
            i <= k <= s@.len(),
            label_run(s@, i as int) == (k - i) + label_run(s@, k as int),
        decreases s.len() - k,
    {
        k = k + 1;
    }
    k - i
}

fn is_word(c: char) -> (r: bool)
    ensures
        r == is_word_char(c),
{
    ('a' <= c && c <= 'z') || ('A' <= c && c <= 'Z') || ('0' <= c && c <= '9') || c == '_'
}

fn if_label(t: &[char]) -> (r: Option<Vec<char>>)
    ensures
        r matches Some(l) ==> if_change_label(t@) == Some(l@),
        r is None ==> if_change_label(t@) is None,
{
    let p: usize = 13;
    assert(if_change_kw().len() == 13);
    if !(p < t.len() && t[p] == '(') {
        return None;
    }
    let n = count_label_run(t, p + 1);
    let j = p + 1 + n;
    if n > 0 && (('a' <= t[p + 1] && t[p + 1] <= 'z') || ('A' <= t[p + 1] && t[p + 1] <= 'Z'))
        && j < t.len() && t[j] == ')' && (j + 1 >= t.len() || !is_word(t[j + 1])) {
        Some(copy_range(t, p + 1, j))
    } else {
        None
    }
}

/// The exec counterpart of [`BodyKind`].
enum Kind {
    NotDirective,
    IfChange(Option<Vec<char>>),
    ThenChange(ThenChangeParse),
    Unnamed,
    Unknown(Vec<char>),
}

spec fn kind_is(k: Kind, m: BodyKind) -> bool {
    match (k, m) {
        (Kind::NotDirective, BodyKind::NotDirective) => true,
        (Kind::IfChange(l), BodyKind::IfChange(ml)) => match (l, ml) {
            (Some(a), Some(b)) => a@ == b,
            (None, None) => true,
            _ => false,
        },
        (Kind::ThenChange(p), BodyKind::ThenChange(f)) => form_of(p) == f,
        (Kind::Unnamed, BodyKind::Unnamed) => true,
        (Kind::Unknown(n), BodyKind::Unknown(mn)) => n@ == mn,
        _ => false,
    }
}

fn kind_of(t: &[char]) -> (r: Kind)
    ensures
        kind_is(r, body_kind(t@)),
        r is ThenChange ==> starts_with(t@, then_change_kw()),
{
    let lint = lint_chars();
    if !has_prefix(t, lint.as_slice()) {
        return Kind::NotDirective;
    }
    let n = count_word_run(t, 5);
    assert(t@.len() == t.len());
    let name = copy_range(t, 5, 5 + n);
    let ic = if_change_chars();
    let tc = then_change_chars();
    let ic_name = copy_range(ic.as_slice(), 5, 13);
    let tc_name = copy_range(tc.as_slice(), 5, 15);
    if slices_eq(name.as_slice(), ic_name.as_slice()) {
        return Kind::IfChange(if_label(t));
    }
    if slices_eq(name.as_slice(), tc_name.as_slice()) {
        proof {
            assert(name_then_change().len() == 10);
            assert(n == 10);
            assert(t@.subrange(0, 5) == lint_kw());
            assert(t@.subrange(5, 15) == name@);
            assert(t@.subrange(0, 15) =~= t@.subrange(0, 5) + t@.subrange(5, 15));
            assert(then_change_kw() =~= lint_kw() + name_then_change());
        }
        return Kind::ThenChange(then_change_parse(t));
    }
    if n == 0 {
        return Kind::Unnamed;
    }
    Kind::Unknown(name)
}

fn slices_eq(a: &[char], b: &[char]) -> (r: bool)
    ensures
        r == (a@ == b@),
{
    if a.len() != b.len() {
        return false;
    }
    let mut i: usize = 0;
    while i < a.len()
        invariant
            a@.len() == b@.len(),
            i <= a@.len(),
            forall|k: int| 0 <= k < i ==> a@[k] == b@[k],
        decreases a.len() - i,
    {
        if a[i] != b[i] {
            return false;
        }
        i = i + 1;
    }
    assert(a@ =~= b@);
    true
}

/// Joins continuation lines of a multi-line `ThenChange`.
fn collect_multiline(tokens: &[CommentToken], first: Vec<char>, start: usize) -> (r: (Vec<char>, usize))
    requires
        1 <= start,
        starts_with(first@, then_change_kw()),
    ensures
        (r.0@, r.1 as int) == collect_from(tokens_view(tokens@), first@, start as int),
        starts_with(r.0@, then_change_kw()),
{
    let ghost tv = tokens_view(tokens@);
    let mut joined = first;
    let mut end: usize = start;
    while end < tokens.len() && tokens[end - 1].line < usize::MAX && tokens[end].line
        == tokens[end - 1].line + 1
        invariant
            1 <= end,
            tv == tokens_view(tokens@),
            starts_with(joined@, then_change_kw()),
            collect_from(tv, first@, start as int) == collect_from(tv, joined@, end as int),
        decreases tokens.len() - end,
    {
        let ghost j0 = joined@;
        joined.push(' ');
        let body = &tokens[end].body;
        let mut k: usize = 0;
        while k < body.len()
            invariant
                k <= body@.len(),
                joined@ == j0 + seq![' '] + body@.subrange(0, k as int),
            decreases body.len() - k,
        {
            joined.push(body[k]);
            k = k + 1;
            assert(joined@ =~= j0 + seq![' '] + body@.subrange(0, k as int));
        }
        assert(body@.subrange(0, body@.len() as int) =~= body@);
        assert(tv[end as int] == tokens@[end as int]@);
        assert(tv[end - 1] == tokens@[end - 1]@);
        end = end + 1;
        assert(joined@.subrange(0, 15) =~= j0.subrange(0, 15));
        match then_change_parse(joined.as_slice()) {
            ThenChangeParse::Incomplete => {},
            _ => {
                return (joined, end);
            },
        }
    }
    proof {
        if end < tokens@.len() {
            assert(tv[end as int] == tokens@[end as int]@);
            assert(tv[end - 1] == tokens@[end - 1]@);
        }
    }
    (joined, end)
}

fn outcome(p: ThenChangeParse, line: usize, t: &[char]) -> (r: (Option<Directive>, Option<DirectiveError>))
    ensures
        ({
            let (d, e) = then_change_outcome(form_of(p), line, t@);
            &&& r.0 matches Some(x) ==> d == Some(x@)
            &&& r.0 is None ==> d is None
            &&& r.1 matches Some(x) ==> e == Some(x@)
            &&& r.1 is None ==> e is None
        }),
{
    match p {
        ThenChangeParse::Complete(targets) => (Some(Directive::ThenChange { line, targets }), None),
        ThenChangeParse::Malformed(message) => (None, Some(DirectiveError { line, message })),
        ThenChangeParse::Prose => (None, None),
        ThenChangeParse::Incomplete => (
            None,
            Some(DirectiveError { line, message: message("malformed directive: ", t) }),
        ),
    }
}

/// What token `i` contributes, and the index of the next token to read.
fn step(tokens: &[CommentToken], i: usize) -> (r: (Option<Directive>, Option<DirectiveError>, usize))
    requires
        i < tokens@.len(),
    ensures
        ({
            let (d, e, next) = token_step(tokens_view(tokens@), i as int);
            &&& r.0 matches Some(x) ==> d == Some(x@)
            &&& r.0 is None ==> d is None
            &&& r.1 matches Some(x) ==> e == Some(x@)
            &&& r.1 is None ==> e is None
            &&& r.2 == next
        }),
{
    let ghost tv = tokens_view(tokens@);
    assert(tv[i as int] == tokens@[i as int]@);
    let body = &tokens[i].body;
    let line = tokens[i].line;
    let (a, b) = trim_range(body.as_slice(), 0, body.len());
    assert(body@.subrange(0, body@.len() as int) =~= body@);
    let t = copy_range(body.as_slice(), a, b);
    match kind_of(t.as_slice()) {
        Kind::NotDirective => (None, None, i + 1),
        Kind::IfChange(label) => {
            let label = match label {
                Some(l) => Some(string_of(l.as_slice())),
                None => None,
            };
            (Some(Directive::IfChange { line, label }), None, i + 1)
        },
        Kind::ThenChange(ThenChangeParse::Incomplete) => {
            proof {
                lemma_collect_from(tv, t@, i + 1);
            }
            let first = copy_range(t.as_slice(), 0, t.len());
            assert(t@.subrange(0, t@.len() as int) =~= t@);
            let (joined, end) = collect_multiline(tokens, first, i + 1);
            let p = then_change_parse(joined.as_slice());
            let (d, e) = outcome(p, line, t.as_slice());
            (d, e, end)
        },
        Kind::ThenChange(p) => {
            let (d, e) = outcome(p, line, t.as_slice());
            (d, e, i + 1)
        },
        Kind::Unnamed => (
            None,
            Some(DirectiveError { line, message: message("malformed directive: ", t.as_slice()) }),
            i + 1,
        ),
        Kind::Unknown(name) => (
            None,
            Some(
                DirectiveError {
                    line,
                    message: message("unknown directive: LINT.", name.as_slice()),
                },
            ),
            i + 1,
        ),
    }
}

/// Reads the directives, and the errors in directive-looking comments, out of
/// a file's comment tokens. A `ThenChange` whose parenthesis stays open is
/// continued with the comments on the following lines.
pub fn parse_directives(tokens: &[CommentToken]) -> (r: (Vec<Directive>, Vec<DirectiveError>))
    ensures
        directives_view(r.0@) == directives_from(tokens_view(tokens@), 0).0,
        errors_view(r.1@) == directives_from(tokens_view(tokens@), 0).1,
{
    let ghost tv = tokens_view(tokens@);
    let mut ds: Vec<Directive> = Vec::new();
    let mut es: Vec<DirectiveError> = Vec::new();
    let mut i: usize = 0;
    while i < tokens.len()
        invariant
            i <= tokens@.len(),
            tv == tokens_view(tokens@),
            directives_from(tv, 0).0 == directives_view(ds@) + directives_from(tv, i as int).0,
            directives_from(tv, 0).1 == errors_view(es@) + directives_from(tv, i as int).1,
        decreases tokens.len() - i,
    {
        proof {
            lemma_collect_from(tv, trim(tv[i as int].body), i + 1);
        }
        let (d, e, next) = step(tokens, i);
        let ghost ds0 = ds@;
        let ghost es0 = es@;
        let ghost (sd, se, snext) = token_step(tv, i as int);
        let ghost rest = directives_from(tv, snext);
        match d {
            Some(x) => {
                ds.push(x);
            },
            None => {},
        }
        match e {
            Some(x) => {
                es.push(x);
            },
            None => {},
        }
        assert(directives_view(ds@) + rest.0 =~= directives_view(ds0) + (opt_seq(sd) + rest.0));
        assert(errors_view(es@) + rest.1 =~= errors_view(es0) + (opt_seq(se) + rest.1));
        i = next;
    }
    assert(directives_view(ds@) + Seq::<DirectiveV>::empty() =~= directives_view(ds@));
    assert(errors_view(es@) + Seq::<DirectiveErrorV>::empty() =~= errors_view(es@));
    (ds, es)
}


// ─── Laws ───

proof fn lemma_rfind_down(t: Seq<char>, p: Seq<char>, lo: int, u: int)
    requires
        lo <= u,
        forall|j: int| lo < j <= u ==> !occurs_at(t, p, j),
    ensures
        rfind_upto(t, p, u) == rfind_upto(t, p, lo),
    decreases u - lo,
{
    if u > lo {
        lemma_rfind_down(t, p, lo, u - 1);
    }
}

/// `file:label` splits at its last `:` into the file and the label when the
/// label has the label format (a letter, then letters, digits, `_`, `-` or
/// `.`), the file is not empty and neither starts with `:` nor with
/// whitespace.
pub proof fn law_target_splits_at_last_colon(f: Seq<char>, l: Seq<char>)
    requires
        f.len() > 0,
        f[0] != ':',
        !crate::text::is_ws(f[0]),
        valid_label(l),
    ensures
        target_spec(f + seq![':'] + l) == Ok::<TargetV, Seq<char>>(
            TargetV { raw: f + seq![':'] + l, file: Some(f), label: Some(l) },
        ),
{
    let t = f + seq![':'] + l;
    assert(is_label_char(l[l.len() - 1]) || l.len() == 1);
    assert(!crate::text::is_ws(t[t.len() - 1])) by {
        assert(t[t.len() - 1] == l[l.len() - 1]);
        if l.len() > 1 {
            assert(is_label_char(l[l.len() - 1]));
        }
    }
    assert(crate::text::skip_ws_from(t, 0) == 0);
    assert(t.subrange(0, t.len() as int) =~= t);
    assert(crate::text::trim_end_from(t, 0, t.len() as int) == t.len());
    assert(trim(t) =~= t);
    let c = f.len() as int;
    assert(occurs_at(t, seq![':'], c)) by {
        assert(t.subrange(c, c + 1) =~= seq![':']);
    }
    assert forall|j: int| c < j <= t.len() - 1 implies !occurs_at(t, seq![':'], j) by {
        assert(t[j] == l[j - c - 1]);
        if j - c - 1 > 0 {
            assert(is_label_char(l[j - c - 1]));
        }
        if occurs_at(t, seq![':'], j) {
            assert(t.subrange(j, j + 1)[0] == t[j]);
        }
    }
    lemma_rfind_down(t, seq![':'], c, t.len() - 1);
    assert(rfind(t, seq![':']) == Some(c));
    assert(t.subrange(c + 1, t.len() as int) =~= l);
    assert(t.subrange(0, c) =~= f);
    assert(!has_separator(l)) by {
        if has_separator(l) {
            let i = choose|i: int| 0 <= i < l.len() && (l[i] == '/' || l[i] == '\\');
            if i > 0 {
                assert(is_label_char(l[i]));
            }
        }
    }
}


proof fn lemma_label_run_exact(t: Seq<char>, start: int, n: int)
    requires
        0 <= start,
        0 <= n,
        start + n < t.len(),
        forall|k: int| start <= k < start + n ==> is_label_char(#[trigger] t[k]),
        !is_label_char(t[start + n]),
    ensures
        label_run(t, start) == n,
    decreases n,
{
    if n > 0 {
        lemma_label_run_exact(t, start + 1, n - 1);
    }
}

proof fn lemma_word_run_exact(t: Seq<char>, start: int, n: int)
    requires
        0 <= start,
        0 <= n,
        start + n < t.len(),
        forall|k: int| start <= k < start + n ==> is_word_char(#[trigger] t[k]),
        !is_word_char(t[start + n]),
    ensures
        word_run(t, start) == n,
    decreases n,
{
    if n > 0 {
        lemma_word_run_exact(t, start + 1, n - 1);
    }
}

/// `LINT.IfChange(label)` keeps every label of the label format (a letter,
/// then letters, digits, `_`, `-` or `.`) whole: the comment is an `IfChange`
/// directive at its line whose label is exactly `label`, and nothing else is
/// reported for it.
pub proof fn law_if_change_keeps_label(l: Seq<char>, line: usize)
    requires
        valid_label(l),
    ensures
        body_kind(if_change_kw() + seq!['('] + l + seq![')']) == BodyKind::IfChange(Some(l)),
        directives_from(seq![TokenV { line, body: if_change_kw() + seq!['('] + l + seq![')'] }], 0)
            == (seq![DirectiveV::IfChange { line, label: Some(l) }], Seq::<DirectiveErrorV>::empty()),
{
    let t = if_change_kw() + seq!['('] + l + seq![')'];
    let n = l.len() as int;
    assert(t.len() == 15 + n);
    assert forall|k: int| 0 <= k < n implies t[14 + k] == l[k] by {}
    assert(t[14 + n] == ')');
    assert(t[13] == '(');
    assert forall|k: int| 14 <= k < 14 + n implies is_label_char(#[trigger] t[k]) by {
        assert(t[k] == l[k - 14]);
        if k > 14 {
            assert(is_label_char(l[k - 14]));
        }
    }
    lemma_label_run_exact(t, 14, n);
    assert forall|k: int| 5 <= k < 13 implies is_word_char(#[trigger] t[k]) by {}
    lemma_word_run_exact(t, 5, 8);
    assert(t.subrange(0, 5) =~= lint_kw());
    assert(t.subrange(5, 13) =~= name_if_change());
    assert(t.subrange(14, 14 + n) =~= l);
    assert(if_change_label(t) == Some(l));
    assert(body_kind(t) == BodyKind::IfChange(Some(l)));
    assert(crate::text::skip_ws_from(t, 0) == 0);
    assert(t.subrange(0, t.len() as int) =~= t);
    assert(crate::text::trim_end_from(t, 0, t.len() as int) == t.len());
    assert(trim(t) =~= t);
    let toks = seq![TokenV { line, body: t }];
    assert(token_step(toks, 0) == (Some(DirectiveV::IfChange { line, label: Some(l) }), None::<DirectiveErrorV>, 1int));
    assert(directives_from(toks, 1) == (Seq::<DirectiveV>::empty(), Seq::<DirectiveErrorV>::empty()));
    assert(opt_seq(Some(DirectiveV::IfChange { line, label: Some(l) })) + Seq::<DirectiveV>::empty()
        =~= seq![DirectiveV::IfChange { line, label: Some(l) }]);
    assert(opt_seq(None::<DirectiveErrorV>) + Seq::<DirectiveErrorV>::empty() =~= Seq::<DirectiveErrorV>::empty());
}


proof fn lemma_close_paren_at(s: Seq<char>, i: int, k: int)
    requires
        0 <= i <= k < s.len(),
        forall|j: int| i <= j < k ==> s[j] != '(' && s[j] != ')',
        s[k] == ')',
    ensures
        close_paren_from(s, i, 0) == Some(k),
    decreases k - i,
{
    if i < k {
        lemma_close_paren_at(s, i + 1, k);
    }
}

proof fn lemma_next_comma_at(s: Seq<char>, i: int, k: int)
    requires
        0 <= i <= k <= s.len(),
        forall|j: int| i <= j < k ==> s[j] != ',',
        k < s.len() ==> s[k] == ',',
    ensures
        next_comma(s, i) == k,
    decreases k - i,
{
    if i < k {
        lemma_next_comma_at(s, i + 1, k);
    }
}

/// `LINT.ThenChange(a, b)` lists its two targets, in order, each read as
/// the target its trimmed text names: the comment is a `ThenChange`
/// directive at its line with exactly those targets, and nothing else is
/// reported for it.
pub proof fn law_then_change_lists_targets(
    a: Seq<char>,
    b: Seq<char>,
    ta: TargetV,
    tb: TargetV,
    line: usize,
)
    requires
        forall|k: int| 0 <= k < a.len() ==> #[trigger] a[k] != ',' && a[k] != '(' && a[k] != ')',
        forall|k: int| 0 <= k < b.len() ==> #[trigger] b[k] != ',' && b[k] != '(' && b[k] != ')',
        trim(a).len() > 0,
        trim(b).len() > 0,
        target_spec(trim(a)) == Ok::<TargetV, Seq<char>>(ta),
        target_spec(trim(b)) == Ok::<TargetV, Seq<char>>(tb),
    ensures
        then_change_form(then_change_kw() + seq!['('] + a + seq![','] + b + seq![')'])
            == ThenChangeForm::Complete(seq![ta, tb]),
        directives_from(
            seq![TokenV { line, body: then_change_kw() + seq!['('] + a + seq![','] + b + seq![')'] }],
            0,
        ) == (seq![DirectiveV::ThenChange { line, targets: seq![ta, tb] }], Seq::<DirectiveErrorV>::empty()),
{
    let t = then_change_kw() + seq!['('] + a + seq![','] + b + seq![')'];
    let na = a.len() as int;
    let nb = b.len() as int;
    let k = 16 + na + 1 + nb;
    assert(t.len() == k + 1);
    assert(t[15] == '(');
    assert(t[k] == ')');
    assert forall|j: int| 16 <= j < k implies t[j] != '(' && t[j] != ')' by {
        if j < 16 + na {
            assert(t[j] == a[j - 16]);
        } else if j > 16 + na {
            assert(t[j] == b[j - 17 - na]);
        }
    }
    lemma_close_paren_at(t, 16, k);
    assert(t.subrange(k + 1, t.len() as int) =~= Seq::<char>::empty());
    assert(crate::text::skip_ws_from(Seq::<char>::empty(), 0) == 0);
    assert(trim(Seq::<char>::empty()).len() == 0);
    let inner = t.subrange(16, k);
    assert(inner =~= a + seq![','] + b);
    assert forall|j: int| 0 <= j < na implies inner[j] != ',' by {
        assert(inner[j] == a[j]);
    }
    lemma_next_comma_at(inner, 0, na);
    assert forall|j: int| na + 1 <= j < inner.len() implies inner[j] != ',' by {
        assert(inner[j] == b[j - na - 1]);
    }
    lemma_next_comma_at(inner, na + 1, inner.len() as int);
    assert(inner.subrange(0, na) =~= a);
    assert(inner.subrange(na + 1, inner.len() as int) =~= b);
    assert(target_list_from(inner, na + 1) == Ok::<Seq<TargetV>, Seq<char>>(seq![tb] + Seq::<TargetV>::empty()));
    assert(seq![tb] + Seq::<TargetV>::empty() =~= seq![tb]);
    assert(target_list_from(inner, 0) == Ok::<Seq<TargetV>, Seq<char>>(seq![ta] + seq![tb]));
    assert(seq![ta] + seq![tb] =~= seq![ta, tb]);
    assert(then_change_form(t) == ThenChangeForm::Complete(seq![ta, tb]));
    assert forall|j: int| 5 <= j < 15 implies is_word_char(#[trigger] t[j]) by {}
    lemma_word_run_exact(t, 5, 10);
    assert(t.subrange(0, 5) =~= lint_kw());
    assert(t.subrange(5, 15) =~= name_then_change());
    assert(body_kind(t) == BodyKind::ThenChange(ThenChangeForm::Complete(seq![ta, tb])));
    assert(crate::text::skip_ws_from(t, 0) == 0);
    assert(t.subrange(0, t.len() as int) =~= t);
    assert(crate::text::trim_end_from(t, 0, t.len() as int) == t.len());
    assert(trim(t) =~= t);
    let toks = seq![TokenV { line, body: t }];
    let d = DirectiveV::ThenChange { line, targets: seq![ta, tb] };
    assert(token_step(toks, 0) == (Some(d), None::<DirectiveErrorV>, 1int));
    assert(directives_from(toks, 1) == (Seq::<DirectiveV>::empty(), Seq::<DirectiveErrorV>::empty()));
    assert(opt_seq(Some(d)) + Seq::<DirectiveV>::empty() =~= seq![d]);
    assert(opt_seq(None::<DirectiveErrorV>) + Seq::<DirectiveErrorV>::empty() =~= Seq::<DirectiveErrorV>::empty());
}

} // verus!
