//! Language definitions: the comment syntax and skip patterns the scanner
//! uses for each kind of file, and detection of a file's language from its name.
use vstd::prelude::*;
use crate::ext::{regex_is_match, regex_is_match_of};
use crate::skip::{
    backtick_open, cpp_raw_open, cs_raw_open, cs_verbatim_open, dollar_quote_open, dq_string_open,
    fenced_code_open, heredoc_open, html_block_open, long_bracket_skip_open, nix_indent_open,
    open_result_is, percent_literal_open, php_heredoc_open, ps_here_string_open, r_raw_open,
    rust_raw_open, sq_string_open, swift_extended_open, BacktickString, CppRaw, CsRaw, CsVerbatim,
    DollarQuote, DqString, FencedCode, Heredoc, HtmlBlock, LongBracket, NixIndent, PercentLiteral,
    PhpHeredoc, PsHereString, RRaw, RustRaw, SkipClose, SkipCloseV, SqString, SwiftExtended,
};
use crate::text::{chars_of, rfind_in};

verus! {

/// A block comment delimiter pair.
#[derive(Debug, Clone)]
pub struct BlockComment {
    pub open: Vec<char>,
    pub close: Vec<char>,
    pub nestable: bool,
}

pub struct BlockCommentV {
    pub open: Seq<char>,
    pub close: Seq<char>,
    pub nestable: bool,
}

impl View for BlockComment {
    type V = BlockCommentV;

    open spec fn view(&self) -> BlockCommentV {
        BlockCommentV { open: self.open@, close: self.close@, nestable: self.nestable }
    }
}

/// A recogniser for a skip region whose closer depends on the opening text.
#[derive(Debug, Clone, Copy, PartialEq, Eq)]
pub enum Opener {
    BacktickString,
    CppRaw,
    CsRaw,
    CsVerbatim,
    DollarQuote,
    FencedCode,
    Heredoc,
    HtmlBlock,
    LongBracket,
    NixIndent,
    PercentLiteral,
    PhpHeredoc,
    PsHereString,
    RRaw,
    RustRaw,
    SwiftExtended,
    DqString,
    SqString,
}

/// How a skip region opens.
#[derive(Debug, Clone)]
pub enum SkipPattern {
    Fixed { open: Vec<char>, close: Vec<char> },
    Dynamic(Opener),
}

pub enum SkipPatternV {
    Fixed(Seq<char>, Seq<char>),
    Dynamic(Opener),
}

impl View for SkipPattern {
    type V = SkipPatternV;

    open spec fn view(&self) -> SkipPatternV {
        match self {
            SkipPattern::Fixed { open, close } => SkipPatternV::Fixed(open@, close@),
            SkipPattern::Dynamic(o) => SkipPatternV::Dynamic(*o),
        }
    }
}

/// The model of an opener: what it recognises at the start of `s`.
pub open spec fn opener_open(o: Opener, s: Seq<char>) -> Option<(SkipCloseV, int)> {
    match o {
        Opener::BacktickString => backtick_open(s),
        Opener::CppRaw => cpp_raw_open(s),
        Opener::CsRaw => cs_raw_open(s),
        Opener::CsVerbatim => cs_verbatim_open(s),
        Opener::DollarQuote => dollar_quote_open(s),
        Opener::FencedCode => fenced_code_open(s),
        Opener::Heredoc => heredoc_open(s),
        Opener::HtmlBlock => html_block_open(s),
        Opener::LongBracket => long_bracket_skip_open(s),
        Opener::NixIndent => nix_indent_open(s),
        Opener::PercentLiteral => percent_literal_open(s),
        Opener::PhpHeredoc => php_heredoc_open(s),
        Opener::PsHereString => ps_here_string_open(s),
        Opener::RRaw => r_raw_open(s),
        Opener::RustRaw => rust_raw_open(s),
        Opener::SwiftExtended => swift_extended_open(s),
        Opener::DqString => dq_string_open(s),
        Opener::SqString => sq_string_open(s),
    }
}

impl Opener {
    /// Tries to open a skip region at the start of `s`.
    pub fn try_open(&self, s: &[char]) -> (r: Option<(SkipClose, usize)>)
        ensures
            open_result_is(r, opener_open(*self, s@)),
    {
        match self {
            Opener::BacktickString => BacktickString::try_open(s),
            Opener::CppRaw => CppRaw::try_open(s),
            Opener::CsRaw => CsRaw::try_open(s),
            Opener::CsVerbatim => CsVerbatim::try_open(s),
            Opener::DollarQuote => DollarQuote::try_open(s),
            Opener::FencedCode => FencedCode::try_open(s),
            Opener::Heredoc => Heredoc::try_open(s),
            Opener::HtmlBlock => HtmlBlock::try_open(s),
            Opener::LongBracket => LongBracket::try_open(s),
            Opener::NixIndent => NixIndent::try_open(s),
            Opener::PercentLiteral => PercentLiteral::try_open(s),
            Opener::PhpHeredoc => PhpHeredoc::try_open(s),
            Opener::PsHereString => PsHereString::try_open(s),
            Opener::RRaw => RRaw::try_open(s),
            Opener::RustRaw => RustRaw::try_open(s),
            Opener::SwiftExtended => SwiftExtended::try_open(s),
            Opener::DqString => DqString::try_open(s),
            Opener::SqString => SqString::try_open(s),
        }
    }
}

/// Comment syntax and skip patterns of one language.
#[derive(Debug, Clone)]
pub struct Language {
    pub name: &'static str,
    /// Matched against the file name, not just the extension.
    pub extensions: &'static str,
    pub line_comments: Vec<Vec<char>>,
    pub block_comments: Vec<BlockComment>,
    pub skip_patterns: Vec<SkipPattern>,
}

pub struct LanguageV {
    pub line_comments: Seq<Seq<char>>,
    pub block_comments: Seq<BlockCommentV>,
    pub skip_patterns: Seq<SkipPatternV>,
}

impl View for Language {
    type V = LanguageV;

    open spec fn view(&self) -> LanguageV {
        LanguageV {
            line_comments: self.line_comments@.map_values(|v: Vec<char>| v@),
            block_comments: self.block_comments@.map_values(|b: BlockComment| b@),
            skip_patterns: self.skip_patterns@.map_values(|p: SkipPattern| p@),
        }
    }
}

/// Every language the scanner knows, in detection order, then the fallback.
#[derive(Debug, Clone, Copy, PartialEq, Eq)]
pub enum LanguageId {
    CCpp,
    CSharp,
    Dart,
    Go,
    Groovy,
    Java,
    JavaScript,
    Kotlin,
    ObjcMatlab,
    Php,
    Protobuf,
    Rust,
    Scala,
    Scss,
    Swift,
    TypeScript,
    CMake,
    Dockerfile,
    Elixir,
    Gn,
    GraphQl,
    Makefile,
    Nix,
    Perl,
    PowerShell,
    Python,
    R,
    Ruby,
    Shell,
    Starlark,
    Terraform,
    Toml,
    Yaml,
    Lisp,
    Haskell,
    Lua,
    Sql,
    Latex,
    Css,
    Html,
    Markdown,
    Xml,
    VueSvelte,
    GoTemplate,
    Unknown,
}

/// Line comment prefix sets.
#[derive(Debug, Clone, Copy, PartialEq, Eq)]
pub enum LineStyle {
    Slash,
    SlashPct,
    Hash,
    HashSlash,
    SlashHash,
    Dash,
    Semi,
    Pct,
    NoLine,
    Fallback,
}

/// Block comment delimiter sets.
#[derive(Debug, Clone, Copy, PartialEq, Eq)]
pub enum BlockStyle {
    Slash,
    SlashNested,
    SlashHtml,
    BraceDashNested,
    Html,
    Ps,
    GoTemplate,
    NoBlock,
}

/// Skip pattern sets.
#[derive(Debug, Clone, Copy, PartialEq, Eq)]
pub enum SkipStyle {
    Str,
    Backtick,
    BacktickFixed,
    CppRaw,
    CsString,
    DollarQuote,
    FencedCode,
    GroovyString,
    Heredoc,
    HeredocPercent,
    HtmlBlock,
    LongBracket,
    NixIndent,
    PhpHeredoc,
    PsHereString,
    RRaw,
    RustRaw,
    SwiftString,
    TripleQuote,
    TripleDouble,
}

pub open spec fn line_style_v(s: LineStyle) -> Seq<Seq<char>> {
    match s {
        LineStyle::Slash => seq![seq!['/', '/']],
        LineStyle::SlashPct => seq![seq!['/', '/'], seq!['%']],
        LineStyle::Hash => seq![seq!['#']],
        LineStyle::HashSlash => seq![seq!['#'], seq!['/', '/']],
        LineStyle::SlashHash => seq![seq!['/', '/'], seq!['#']],
        LineStyle::Dash => seq![seq!['-', '-']],
        LineStyle::Semi => seq![seq![';']],
        LineStyle::Pct => seq![seq!['%']],
        LineStyle::NoLine => Seq::empty(),
        LineStyle::Fallback => seq![seq!['/', '/'], seq!['#']],
    }
}

pub open spec fn block_style_v(s: BlockStyle) -> Seq<BlockCommentV> {
    match s {
        BlockStyle::Slash => seq![BlockCommentV { open: seq!['/', '*'], close: seq!['*', '/'], nestable: false }],
        BlockStyle::SlashNested => seq![BlockCommentV { open: seq!['/', '*'], close: seq!['*', '/'], nestable: true }],
        BlockStyle::SlashHtml => seq![BlockCommentV { open: seq!['/', '*'], close: seq!['*', '/'], nestable: false }, BlockCommentV { open: seq!['<', '!', '-', '-'], close: seq!['-', '-', '>'], nestable: false }],
        BlockStyle::BraceDashNested => seq![BlockCommentV { open: seq!['{', '-'], close: seq!['-', '}'], nestable: true }],
        BlockStyle::Html => seq![BlockCommentV { open: seq!['<', '!', '-', '-'], close: seq!['-', '-', '>'], nestable: false }],
        BlockStyle::Ps => seq![BlockCommentV { open: seq!['<', '#'], close: seq!['#', '>'], nestable: false }],
        BlockStyle::GoTemplate => seq![BlockCommentV { open: seq!['{', '{', '/', '*'], close: seq!['*', '/', '}', '}'], nestable: false }],
        BlockStyle::NoBlock => Seq::empty(),
    }
}

pub open spec fn skip_style_v(s: SkipStyle) -> Seq<SkipPatternV> {
    match s {
        SkipStyle::Str => seq![SkipPatternV::Dynamic(Opener::DqString), SkipPatternV::Dynamic(Opener::SqString)],
        SkipStyle::Backtick => seq![SkipPatternV::Dynamic(Opener::BacktickString), SkipPatternV::Dynamic(Opener::DqString), SkipPatternV::Dynamic(Opener::SqString)],
        SkipStyle::BacktickFixed => seq![SkipPatternV::Fixed(seq!['`'], seq!['`']), SkipPatternV::Dynamic(Opener::DqString), SkipPatternV::Dynamic(Opener::SqString)],
        SkipStyle::CppRaw => seq![SkipPatternV::Dynamic(Opener::CppRaw), SkipPatternV::Dynamic(Opener::DqString), SkipPatternV::Dynamic(Opener::SqString)],
        SkipStyle::CsString => seq![SkipPatternV::Dynamic(Opener::CsVerbatim), SkipPatternV::Dynamic(Opener::CsRaw), SkipPatternV::Dynamic(Opener::DqString), SkipPatternV::Dynamic(Opener::SqString)],
        SkipStyle::DollarQuote => seq![SkipPatternV::Dynamic(Opener::DollarQuote), SkipPatternV::Dynamic(Opener::DqString), SkipPatternV::Dynamic(Opener::SqString)],
        SkipStyle::FencedCode => seq![SkipPatternV::Dynamic(Opener::FencedCode), SkipPatternV::Dynamic(Opener::DqString), SkipPatternV::Dynamic(Opener::SqString)],
        SkipStyle::GroovyString => seq![SkipPatternV::Fixed(seq!['"', '"', '"'], seq!['"', '"', '"']), SkipPatternV::Fixed(seq!['\'', '\'', '\''], seq!['\'', '\'', '\'']), SkipPatternV::Fixed(seq!['$', '/'], seq!['/', '$']), SkipPatternV::Dynamic(Opener::DqString), SkipPatternV::Dynamic(Opener::SqString)],
        SkipStyle::Heredoc => seq![SkipPatternV::Dynamic(Opener::Heredoc), SkipPatternV::Dynamic(Opener::DqString), SkipPatternV::Dynamic(Opener::SqString)],
        SkipStyle::HeredocPercent => seq![SkipPatternV::Dynamic(Opener::Heredoc), SkipPatternV::Dynamic(Opener::PercentLiteral), SkipPatternV::Dynamic(Opener::DqString), SkipPatternV::Dynamic(Opener::SqString)],
        SkipStyle::HtmlBlock => seq![SkipPatternV::Dynamic(Opener::HtmlBlock), SkipPatternV::Dynamic(Opener::DqString), SkipPatternV::Dynamic(Opener::SqString)],
        SkipStyle::LongBracket => seq![SkipPatternV::Dynamic(Opener::LongBracket), SkipPatternV::Dynamic(Opener::DqString), SkipPatternV::Dynamic(Opener::SqString)],
        SkipStyle::NixIndent => seq![SkipPatternV::Dynamic(Opener::NixIndent), SkipPatternV::Dynamic(Opener::DqString), SkipPatternV::Dynamic(Opener::SqString)],
        SkipStyle::PhpHeredoc => seq![SkipPatternV::Dynamic(Opener::PhpHeredoc), SkipPatternV::Dynamic(Opener::DqString), SkipPatternV::Dynamic(Opener::SqString)],
        SkipStyle::PsHereString => seq![SkipPatternV::Dynamic(Opener::PsHereString), SkipPatternV::Dynamic(Opener::DqString), SkipPatternV::Dynamic(Opener::SqString)],
        SkipStyle::RRaw => seq![SkipPatternV::Dynamic(Opener::RRaw), SkipPatternV::Dynamic(Opener::DqString), SkipPatternV::Dynamic(Opener::SqString)],
        SkipStyle::RustRaw => seq![SkipPatternV::Dynamic(Opener::RustRaw), SkipPatternV::Dynamic(Opener::DqString), SkipPatternV::Dynamic(Opener::SqString)],
        SkipStyle::SwiftString => seq![SkipPatternV::Fixed(seq!['"', '"', '"'], seq!['"', '"', '"']), SkipPatternV::Dynamic(Opener::SwiftExtended), SkipPatternV::Dynamic(Opener::DqString), SkipPatternV::Dynamic(Opener::SqString)],
        SkipStyle::TripleQuote => seq![SkipPatternV::Fixed(seq!['"', '"', '"'], seq!['"', '"', '"']), SkipPatternV::Fixed(seq!['\'', '\'', '\''], seq!['\'', '\'', '\'']), SkipPatternV::Dynamic(Opener::DqString), SkipPatternV::Dynamic(Opener::SqString)],
        SkipStyle::TripleDouble => seq![SkipPatternV::Fixed(seq!['"', '"', '"'], seq!['"', '"', '"']), SkipPatternV::Dynamic(Opener::DqString), SkipPatternV::Dynamic(Opener::SqString)],
    }
}

pub fn line_style(s: LineStyle) -> (r: Vec<Vec<char>>)
    ensures
        r@.map_values(|v: Vec<char>| v@) == line_style_v(s),
{
    let r: Vec<Vec<char>> = match s {
        LineStyle::Slash => vec![vec!['/', '/']],
        LineStyle::SlashPct => vec![vec!['/', '/'], vec!['%']],
        LineStyle::Hash => vec![vec!['#']],
        LineStyle::HashSlash => vec![vec!['#'], vec!['/', '/']],
        LineStyle::SlashHash => vec![vec!['/', '/'], vec!['#']],
        LineStyle::Dash => vec![vec!['-', '-']],
        LineStyle::Semi => vec![vec![';']],
        LineStyle::Pct => vec![vec!['%']],
        LineStyle::NoLine => vec![],
        LineStyle::Fallback => vec![vec!['/', '/'], vec!['#']],
    };
    assert(r@.map_values(|v: Vec<char>| v@) =~~= line_style_v(s));
    r
}

fn block(open: Vec<char>, close: Vec<char>, nestable: bool) -> (r: BlockComment)
    ensures
        r@ == (BlockCommentV { open: open@, close: close@, nestable }),
{
    BlockComment { open, close, nestable }
}

pub fn block_style(s: BlockStyle) -> (r: Vec<BlockComment>)
    ensures
        r@.map_values(|b: BlockComment| b@) == block_style_v(s),
{
    let r: Vec<BlockComment> = match s {
        BlockStyle::Slash => vec![block(vec!['/', '*'], vec!['*', '/'], false)],
        BlockStyle::SlashNested => vec![block(vec!['/', '*'], vec!['*', '/'], true)],
        BlockStyle::SlashHtml => vec![block(vec!['/', '*'], vec!['*', '/'], false), block(vec!['<', '!', '-', '-'], vec!['-', '-', '>'], false)],
        BlockStyle::BraceDashNested => vec![block(vec!['{', '-'], vec!['-', '}'], true)],
        BlockStyle::Html => vec![block(vec!['<', '!', '-', '-'], vec!['-', '-', '>'], false)],
        BlockStyle::Ps => vec![block(vec!['<', '#'], vec!['#', '>'], false)],
        BlockStyle::GoTemplate => vec![block(vec!['{', '{', '/', '*'], vec!['*', '/', '}', '}'], false)],
        BlockStyle::NoBlock => vec![],
    };
    assert(r@.map_values(|b: BlockComment| b@) =~= block_style_v(s));
    r
}

fn fixed(open: Vec<char>, close: Vec<char>) -> (r: SkipPattern)
    ensures
        r@ == SkipPatternV::Fixed(open@, close@),
{
    SkipPattern::Fixed { open, close }
}

pub fn skip_style(s: SkipStyle) -> (r: Vec<SkipPattern>)
    ensures
        r@.map_values(|p: SkipPattern| p@) == skip_style_v(s),
{
    match s {
        SkipStyle::Str => {
            let r: Vec<SkipPattern> = vec![SkipPattern::Dynamic(Opener::DqString), SkipPattern::Dynamic(Opener::SqString)];
            assert(r@.map_values(|p: SkipPattern| p@) =~~= skip_style_v(s));
            r
        },
        SkipStyle::Backtick => {
            let r: Vec<SkipPattern> = vec![SkipPattern::Dynamic(Opener::BacktickString), SkipPattern::Dynamic(Opener::DqString), SkipPattern::Dynamic(Opener::SqString)];
            assert(r@.map_values(|p: SkipPattern| p@) =~~= skip_style_v(s));
            r
        },
        SkipStyle::BacktickFixed => {
            let tick = vec!['`'];
            assert(tick@ =~= seq!['`']);
            let r: Vec<SkipPattern> = vec![fixed(tick.clone(), tick), SkipPattern::Dynamic(Opener::DqString), SkipPattern::Dynamic(Opener::SqString)];
            assert(r@.map_values(|p: SkipPattern| p@) =~~= skip_style_v(s));
            r
        },
        SkipStyle::CppRaw => {
            let r: Vec<SkipPattern> = vec![SkipPattern::Dynamic(Opener::CppRaw), SkipPattern::Dynamic(Opener::DqString), SkipPattern::Dynamic(Opener::SqString)];
            assert(r@.map_values(|p: SkipPattern| p@) =~~= skip_style_v(s));
            r
        },
        SkipStyle::CsString => {
            let r: Vec<SkipPattern> = vec![SkipPattern::Dynamic(Opener::CsVerbatim), SkipPattern::Dynamic(Opener::CsRaw), SkipPattern::Dynamic(Opener::DqString), SkipPattern::Dynamic(Opener::SqString)];
            assert(r@.map_values(|p: SkipPattern| p@) =~~= skip_style_v(s));
            r
        },
        SkipStyle::DollarQuote => {
            let r: Vec<SkipPattern> = vec![SkipPattern::Dynamic(Opener::DollarQuote), SkipPattern::Dynamic(Opener::DqString), SkipPattern::Dynamic(Opener::SqString)];
            assert(r@.map_values(|p: SkipPattern| p@) =~~= skip_style_v(s));
            r
        },
        SkipStyle::FencedCode => {
            let r: Vec<SkipPattern> = vec![SkipPattern::Dynamic(Opener::FencedCode), SkipPattern::Dynamic(Opener::DqString), SkipPattern::Dynamic(Opener::SqString)];
            assert(r@.map_values(|p: SkipPattern| p@) =~~= skip_style_v(s));
            r
        },
        SkipStyle::GroovyString => {
            let r: Vec<SkipPattern> = vec![fixed(vec!['"', '"', '"'], vec!['"', '"', '"']), fixed(vec!['\'', '\'', '\''], vec!['\'', '\'', '\'']), fixed(vec!['$', '/'], vec!['/', '$']), SkipPattern::Dynamic(Opener::DqString), SkipPattern::Dynamic(Opener::SqString)];
            assert(r@.map_values(|p: SkipPattern| p@) =~~= skip_style_v(s));
            r
        },
        SkipStyle::Heredoc => {
            let r: Vec<SkipPattern> = vec![SkipPattern::Dynamic(Opener::Heredoc), SkipPattern::Dynamic(Opener::DqString), SkipPattern::Dynamic(Opener::SqString)];
            assert(r@.map_values(|p: SkipPattern| p@) =~~= skip_style_v(s));
            r
        },
        SkipStyle::HeredocPercent => {
            let r: Vec<SkipPattern> = vec![SkipPattern::Dynamic(Opener::Heredoc), SkipPattern::Dynamic(Opener::PercentLiteral), SkipPattern::Dynamic(Opener::DqString), SkipPattern::Dynamic(Opener::SqString)];
            assert(r@.map_values(|p: SkipPattern| p@) =~~= skip_style_v(s));
            r
        },
        SkipStyle::HtmlBlock => {
            let r: Vec<SkipPattern> = vec![SkipPattern::Dynamic(Opener::HtmlBlock), SkipPattern::Dynamic(Opener::DqString), SkipPattern::Dynamic(Opener::SqString)];
            assert(r@.map_values(|p: SkipPattern| p@) =~~= skip_style_v(s));
            r
        },
        SkipStyle::LongBracket => {
            let r: Vec<SkipPattern> = vec![SkipPattern::Dynamic(Opener::LongBracket), SkipPattern::Dynamic(Opener::DqString), SkipPattern::Dynamic(Opener::SqString)];
            assert(r@.map_values(|p: SkipPattern| p@) =~~= skip_style_v(s));
            r
        },
        SkipStyle::NixIndent => {
            let r: Vec<SkipPattern> = vec![SkipPattern::Dynamic(Opener::NixIndent), SkipPattern::Dynamic(Opener::DqString), SkipPattern::Dynamic(Opener::SqString)];
            assert(r@.map_values(|p: SkipPattern| p@) =~~= skip_style_v(s));
            r
        },
        SkipStyle::PhpHeredoc => {
            let r: Vec<SkipPattern> = vec![SkipPattern::Dynamic(Opener::PhpHeredoc), SkipPattern::Dynamic(Opener::DqString), SkipPattern::Dynamic(Opener::SqString)];
            assert(r@.map_values(|p: SkipPattern| p@) =~~= skip_style_v(s));
            r
        },
        SkipStyle::PsHereString => {
            let r: Vec<SkipPattern> = vec![SkipPattern::Dynamic(Opener::PsHereString), SkipPattern::Dynamic(Opener::DqString), SkipPattern::Dynamic(Opener::SqString)];
            assert(r@.map_values(|p: SkipPattern| p@) =~~= skip_style_v(s));
            r
        },
        SkipStyle::RRaw => {
            let r: Vec<SkipPattern> = vec![SkipPattern::Dynamic(Opener::RRaw), SkipPattern::Dynamic(Opener::DqString), SkipPattern::Dynamic(Opener::SqString)];
            assert(r@.map_values(|p: SkipPattern| p@) =~~= skip_style_v(s));
            r
        },
        SkipStyle::RustRaw => {
            let r: Vec<SkipPattern> = vec![SkipPattern::Dynamic(Opener::RustRaw), SkipPattern::Dynamic(Opener::DqString), SkipPattern::Dynamic(Opener::SqString)];
            assert(r@.map_values(|p: SkipPattern| p@) =~~= skip_style_v(s));
            r
        },
        SkipStyle::SwiftString => {
            let r: Vec<SkipPattern> = vec![fixed(vec!['"', '"', '"'], vec!['"', '"', '"']), SkipPattern::Dynamic(Opener::SwiftExtended), SkipPattern::Dynamic(Opener::DqString), SkipPattern::Dynamic(Opener::SqString)];
            assert(r@.map_values(|p: SkipPattern| p@) =~~= skip_style_v(s));
            r
        },
        SkipStyle::TripleQuote => {
            let r: Vec<SkipPattern> = vec![fixed(vec!['"', '"', '"'], vec!['"', '"', '"']), fixed(vec!['\'', '\'', '\''], vec!['\'', '\'', '\'']), SkipPattern::Dynamic(Opener::DqString), SkipPattern::Dynamic(Opener::SqString)];
            assert(r@.map_values(|p: SkipPattern| p@) =~~= skip_style_v(s));
            r
        },
        SkipStyle::TripleDouble => {
            let r: Vec<SkipPattern> = vec![fixed(vec!['"', '"', '"'], vec!['"', '"', '"']), SkipPattern::Dynamic(Opener::DqString), SkipPattern::Dynamic(Opener::SqString)];
            assert(r@.map_values(|p: SkipPattern| p@) =~~= skip_style_v(s));
            r
        },
    }
}

/// The comment and skip-pattern styles of a language.
pub open spec fn styles_of(id: LanguageId) -> (LineStyle, BlockStyle, SkipStyle) {
    match id {
        LanguageId::CCpp => (LineStyle::Slash, BlockStyle::Slash, SkipStyle::CppRaw),
        LanguageId::CSharp => (LineStyle::Slash, BlockStyle::Slash, SkipStyle::CsString),
        LanguageId::Dart => (LineStyle::Slash, BlockStyle::Slash, SkipStyle::TripleQuote),
        LanguageId::Go => (LineStyle::Slash, BlockStyle::Slash, SkipStyle::BacktickFixed),
        LanguageId::Groovy => (LineStyle::Slash, BlockStyle::Slash, SkipStyle::GroovyString),
        LanguageId::Java => (LineStyle::Slash, BlockStyle::Slash, SkipStyle::TripleDouble),
        LanguageId::JavaScript => (LineStyle::Slash, BlockStyle::Slash, SkipStyle::Backtick),
        LanguageId::Kotlin => (LineStyle::Slash, BlockStyle::Slash, SkipStyle::TripleDouble),
        LanguageId::ObjcMatlab => (LineStyle::SlashPct, BlockStyle::Slash, SkipStyle::Str),
        LanguageId::Php => (LineStyle::SlashHash, BlockStyle::Slash, SkipStyle::PhpHeredoc),
        LanguageId::Protobuf => (LineStyle::Slash, BlockStyle::Slash, SkipStyle::Str),
        LanguageId::Rust => (LineStyle::Slash, BlockStyle::SlashNested, SkipStyle::RustRaw),
        LanguageId::Scala => (LineStyle::Slash, BlockStyle::Slash, SkipStyle::TripleDouble),
        LanguageId::Scss => (LineStyle::Slash, BlockStyle::Slash, SkipStyle::Str),
        LanguageId::Swift => (LineStyle::Slash, BlockStyle::Slash, SkipStyle::SwiftString),
        LanguageId::TypeScript => (LineStyle::Slash, BlockStyle::Slash, SkipStyle::Backtick),
        LanguageId::CMake => (LineStyle::Hash, BlockStyle::NoBlock, SkipStyle::LongBracket),
        LanguageId::Dockerfile => (LineStyle::Hash, BlockStyle::NoBlock, SkipStyle::Str),
        LanguageId::Elixir => (LineStyle::Hash, BlockStyle::NoBlock, SkipStyle::TripleQuote),
        LanguageId::Gn => (LineStyle::Hash, BlockStyle::NoBlock, SkipStyle::Str),
        LanguageId::GraphQl => (LineStyle::Hash, BlockStyle::NoBlock, SkipStyle::TripleDouble),
        LanguageId::Makefile => (LineStyle::Hash, BlockStyle::NoBlock, SkipStyle::Str),
        LanguageId::Nix => (LineStyle::Hash, BlockStyle::Slash, SkipStyle::NixIndent),
        LanguageId::Perl => (LineStyle::Hash, BlockStyle::NoBlock, SkipStyle::HeredocPercent),
        LanguageId::PowerShell => (LineStyle::Hash, BlockStyle::Ps, SkipStyle::PsHereString),
        LanguageId::Python => (LineStyle::Hash, BlockStyle::NoBlock, SkipStyle::TripleQuote),
        LanguageId::R => (LineStyle::Hash, BlockStyle::NoBlock, SkipStyle::RRaw),
        LanguageId::Ruby => (LineStyle::Hash, BlockStyle::NoBlock, SkipStyle::HeredocPercent),
        LanguageId::Shell => (LineStyle::Hash, BlockStyle::NoBlock, SkipStyle::Heredoc),
        LanguageId::Starlark => (LineStyle::Hash, BlockStyle::NoBlock, SkipStyle::TripleQuote),
        LanguageId::Terraform => (LineStyle::HashSlash, BlockStyle::Slash, SkipStyle::Heredoc),
        LanguageId::Toml => (LineStyle::Hash, BlockStyle::NoBlock, SkipStyle::TripleQuote),
        LanguageId::Yaml => (LineStyle::Hash, BlockStyle::NoBlock, SkipStyle::Str),
        LanguageId::Lisp => (LineStyle::Semi, BlockStyle::NoBlock, SkipStyle::Str),
        LanguageId::Haskell => (LineStyle::Dash, BlockStyle::BraceDashNested, SkipStyle::Str),
        LanguageId::Lua => (LineStyle::Dash, BlockStyle::NoBlock, SkipStyle::LongBracket),
        LanguageId::Sql => (LineStyle::Dash, BlockStyle::Slash, SkipStyle::DollarQuote),
        LanguageId::Latex => (LineStyle::Pct, BlockStyle::NoBlock, SkipStyle::Str),
        LanguageId::Css => (LineStyle::NoLine, BlockStyle::Slash, SkipStyle::Str),
        LanguageId::Html => (LineStyle::NoLine, BlockStyle::Html, SkipStyle::HtmlBlock),
        LanguageId::Markdown => (LineStyle::NoLine, BlockStyle::Html, SkipStyle::FencedCode),
        LanguageId::Xml => (LineStyle::NoLine, BlockStyle::Html, SkipStyle::HtmlBlock),
        LanguageId::VueSvelte => (LineStyle::Slash, BlockStyle::SlashHtml, SkipStyle::Backtick),
        LanguageId::GoTemplate => (LineStyle::NoLine, BlockStyle::GoTemplate, SkipStyle::Str),
        LanguageId::Unknown => (LineStyle::Fallback, BlockStyle::Slash, SkipStyle::TripleQuote),
    }
}

pub fn styles(id: LanguageId) -> (r: (LineStyle, BlockStyle, SkipStyle))
    ensures
        r == styles_of(id),
{
    match id {
        LanguageId::CCpp => (LineStyle::Slash, BlockStyle::Slash, SkipStyle::CppRaw),
        LanguageId::CSharp => (LineStyle::Slash, BlockStyle::Slash, SkipStyle::CsString),
        LanguageId::Dart => (LineStyle::Slash, BlockStyle::Slash, SkipStyle::TripleQuote),
        LanguageId::Go => (LineStyle::Slash, BlockStyle::Slash, SkipStyle::BacktickFixed),
        LanguageId::Groovy => (LineStyle::Slash, BlockStyle::Slash, SkipStyle::GroovyString),
        LanguageId::Java => (LineStyle::Slash, BlockStyle::Slash, SkipStyle::TripleDouble),
        LanguageId::JavaScript => (LineStyle::Slash, BlockStyle::Slash, SkipStyle::Backtick),
        LanguageId::Kotlin => (LineStyle::Slash, BlockStyle::Slash, SkipStyle::TripleDouble),
        LanguageId::ObjcMatlab => (LineStyle::SlashPct, BlockStyle::Slash, SkipStyle::Str),
        LanguageId::Php => (LineStyle::SlashHash, BlockStyle::Slash, SkipStyle::PhpHeredoc),
        LanguageId::Protobuf => (LineStyle::Slash, BlockStyle::Slash, SkipStyle::Str),
        LanguageId::Rust => (LineStyle::Slash, BlockStyle::SlashNested, SkipStyle::RustRaw),
        LanguageId::Scala => (LineStyle::Slash, BlockStyle::Slash, SkipStyle::TripleDouble),
        LanguageId::Scss => (LineStyle::Slash, BlockStyle::Slash, SkipStyle::Str),
        LanguageId::Swift => (LineStyle::Slash, BlockStyle::Slash, SkipStyle::SwiftString),
        LanguageId::TypeScript => (LineStyle::Slash, BlockStyle::Slash, SkipStyle::Backtick),
        LanguageId::CMake => (LineStyle::Hash, BlockStyle::NoBlock, SkipStyle::LongBracket),
        LanguageId::Dockerfile => (LineStyle::Hash, BlockStyle::NoBlock, SkipStyle::Str),
        LanguageId::Elixir => (LineStyle::Hash, BlockStyle::NoBlock, SkipStyle::TripleQuote),
        LanguageId::Gn => (LineStyle::Hash, BlockStyle::NoBlock, SkipStyle::Str),
        LanguageId::GraphQl => (LineStyle::Hash, BlockStyle::NoBlock, SkipStyle::TripleDouble),
        LanguageId::Makefile => (LineStyle::Hash, BlockStyle::NoBlock, SkipStyle::Str),
        LanguageId::Nix => (LineStyle::Hash, BlockStyle::Slash, SkipStyle::NixIndent),
        LanguageId::Perl => (LineStyle::Hash, BlockStyle::NoBlock, SkipStyle::HeredocPercent),
        LanguageId::PowerShell => (LineStyle::Hash, BlockStyle::Ps, SkipStyle::PsHereString),
        LanguageId::Python => (LineStyle::Hash, BlockStyle::NoBlock, SkipStyle::TripleQuote),
        LanguageId::R => (LineStyle::Hash, BlockStyle::NoBlock, SkipStyle::RRaw),
        LanguageId::Ruby => (LineStyle::Hash, BlockStyle::NoBlock, SkipStyle::HeredocPercent),
        LanguageId::Shell => (LineStyle::Hash, BlockStyle::NoBlock, SkipStyle::Heredoc),
        LanguageId::Starlark => (LineStyle::Hash, BlockStyle::NoBlock, SkipStyle::TripleQuote),
        LanguageId::Terraform => (LineStyle::HashSlash, BlockStyle::Slash, SkipStyle::Heredoc),
        LanguageId::Toml => (LineStyle::Hash, BlockStyle::NoBlock, SkipStyle::TripleQuote),
        LanguageId::Yaml => (LineStyle::Hash, BlockStyle::NoBlock, SkipStyle::Str),
        LanguageId::Lisp => (LineStyle::Semi, BlockStyle::NoBlock, SkipStyle::Str),
        LanguageId::Haskell => (LineStyle::Dash, BlockStyle::BraceDashNested, SkipStyle::Str),
        LanguageId::Lua => (LineStyle::Dash, BlockStyle::NoBlock, SkipStyle::LongBracket),
        LanguageId::Sql => (LineStyle::Dash, BlockStyle::Slash, SkipStyle::DollarQuote),
        LanguageId::Latex => (LineStyle::Pct, BlockStyle::NoBlock, SkipStyle::Str),
        LanguageId::Css => (LineStyle::NoLine, BlockStyle::Slash, SkipStyle::Str),
        LanguageId::Html => (LineStyle::NoLine, BlockStyle::Html, SkipStyle::HtmlBlock),
        LanguageId::Markdown => (LineStyle::NoLine, BlockStyle::Html, SkipStyle::FencedCode),
        LanguageId::Xml => (LineStyle::NoLine, BlockStyle::Html, SkipStyle::HtmlBlock),
        LanguageId::VueSvelte => (LineStyle::Slash, BlockStyle::SlashHtml, SkipStyle::Backtick),
        LanguageId::GoTemplate => (LineStyle::NoLine, BlockStyle::GoTemplate, SkipStyle::Str),
        LanguageId::Unknown => (LineStyle::Fallback, BlockStyle::Slash, SkipStyle::TripleQuote),
    }
}

/// The file-name pattern of a language (the fallback matches nothing on its own).
pub open spec fn pattern_of(id: LanguageId) -> Seq<char> {
    match id {
        LanguageId::CCpp => r"\.(c|h|cpp|cc|cxx|hpp|hxx|hh)$"@,
        LanguageId::CSharp => r"\.cs$"@,
        LanguageId::Dart => r"\.dart$"@,
        LanguageId::Go => r"\.go$"@,
        LanguageId::Groovy => r"\.(groovy|gradle)$"@,
        LanguageId::Java => r"\.java$"@,
        LanguageId::JavaScript => r"\.(jsx?|mjs|cjs)$"@,
        LanguageId::Kotlin => r"\.kts?$"@,
        LanguageId::ObjcMatlab => r"\.mm?$"@,
        LanguageId::Php => r"\.(php|phtml)$"@,
        LanguageId::Protobuf => r"\.proto$"@,
        LanguageId::Rust => r"\.rs$"@,
        LanguageId::Scala => r"\.(scala|sc)$"@,
        LanguageId::Scss => r"\.scss$"@,
        LanguageId::Swift => r"\.swift$"@,
        LanguageId::TypeScript => r"\.(tsx?|mts|cts)$"@,
        LanguageId::CMake => r"(\.cmake$|(^|/)CMakeLists\.txt$)"@,
        LanguageId::Dockerfile => r"((^|/)Dockerfile(\.\w+)?$|\.dockerfile$)"@,
        LanguageId::Elixir => r"\.exs?$"@,
        LanguageId::Gn => r"\.gni?$"@,
        LanguageId::GraphQl => r"\.(graphql|gql)$"@,
        LanguageId::Makefile => r"(\.(mk|mak)$|(^|/)(GNU)?[Mm]akefile$)"@,
        LanguageId::Nix => r"\.nix$"@,
        LanguageId::Perl => r"\.(pl|pm|t)$"@,
        LanguageId::PowerShell => r"\.(ps1|psm1|psd1)$"@,
        LanguageId::Python => r"\.(py|pyi|pyw)$"@,
        LanguageId::R => r"\.[rR]$"@,
        LanguageId::Ruby => r"(\.(rb|rake|gemspec)$|(^|/)(Rakefile|Gemfile)$)"@,
        LanguageId::Shell => r"\.(sh|bash|zsh|ksh)$"@,
        LanguageId::Starlark => r"(\.bzl$|(^|/)(BUILD(\.bazel)?|WORKSPACE)$)"@,
        LanguageId::Terraform => r"\.(tf|hcl|tfvars)$"@,
        LanguageId::Toml => r"\.toml$"@,
        LanguageId::Yaml => r"\.ya?ml$"@,
        LanguageId::Lisp => r"\.(clj[sc]?|edn|lisp|cl|el|scm|rkt)$"@,
        LanguageId::Haskell => r"\.hs$"@,
        LanguageId::Lua => r"\.lua$"@,
        LanguageId::Sql => r"\.sql$"@,
        LanguageId::Latex => r"\.(tex|sty|cls)$"@,
        LanguageId::Css => r"\.css$"@,
        LanguageId::Html => r"\.(html?|xhtml)$"@,
        LanguageId::Markdown => r"\.(mdx?|markdown)$"@,
        LanguageId::Xml => r"\.(xml|xsd|xslt?|svg)$"@,
        LanguageId::VueSvelte => r"\.(vue|svelte)$"@,
        LanguageId::GoTemplate => r"\.(tpl|gotmpl|gohtml|tmpl)$"@,
        LanguageId::Unknown => ""@,
    }
}

pub fn pattern(id: LanguageId) -> (r: &'static str)
    ensures
        r@ == pattern_of(id),
{
    match id {
        LanguageId::CCpp => r"\.(c|h|cpp|cc|cxx|hpp|hxx|hh)$",
        LanguageId::CSharp => r"\.cs$",
        LanguageId::Dart => r"\.dart$",
        LanguageId::Go => r"\.go$",
        LanguageId::Groovy => r"\.(groovy|gradle)$",
        LanguageId::Java => r"\.java$",
        LanguageId::JavaScript => r"\.(jsx?|mjs|cjs)$",
        LanguageId::Kotlin => r"\.kts?$",
        LanguageId::ObjcMatlab => r"\.mm?$",
        LanguageId::Php => r"\.(php|phtml)$",
        LanguageId::Protobuf => r"\.proto$",
        LanguageId::Rust => r"\.rs$",
        LanguageId::Scala => r"\.(scala|sc)$",
        LanguageId::Scss => r"\.scss$",
        LanguageId::Swift => r"\.swift$",
        LanguageId::TypeScript => r"\.(tsx?|mts|cts)$",
        LanguageId::CMake => r"(\.cmake$|(^|/)CMakeLists\.txt$)",
        LanguageId::Dockerfile => r"((^|/)Dockerfile(\.\w+)?$|\.dockerfile$)",
        LanguageId::Elixir => r"\.exs?$",
        LanguageId::Gn => r"\.gni?$",
        LanguageId::GraphQl => r"\.(graphql|gql)$",
        LanguageId::Makefile => r"(\.(mk|mak)$|(^|/)(GNU)?[Mm]akefile$)",
        LanguageId::Nix => r"\.nix$",
        LanguageId::Perl => r"\.(pl|pm|t)$",
        LanguageId::PowerShell => r"\.(ps1|psm1|psd1)$",
        LanguageId::Python => r"\.(py|pyi|pyw)$",
        LanguageId::R => r"\.[rR]$",
        LanguageId::Ruby => r"(\.(rb|rake|gemspec)$|(^|/)(Rakefile|Gemfile)$)",
        LanguageId::Shell => r"\.(sh|bash|zsh|ksh)$",
        LanguageId::Starlark => r"(\.bzl$|(^|/)(BUILD(\.bazel)?|WORKSPACE)$)",
        LanguageId::Terraform => r"\.(tf|hcl|tfvars)$",
        LanguageId::Toml => r"\.toml$",
        LanguageId::Yaml => r"\.ya?ml$",
        LanguageId::Lisp => r"\.(clj[sc]?|edn|lisp|cl|el|scm|rkt)$",
        LanguageId::Haskell => r"\.hs$",
        LanguageId::Lua => r"\.lua$",
        LanguageId::Sql => r"\.sql$",
        LanguageId::Latex => r"\.(tex|sty|cls)$",
        LanguageId::Css => r"\.css$",
        LanguageId::Html => r"\.(html?|xhtml)$",
        LanguageId::Markdown => r"\.(mdx?|markdown)$",
        LanguageId::Xml => r"\.(xml|xsd|xslt?|svg)$",
        LanguageId::VueSvelte => r"\.(vue|svelte)$",
        LanguageId::GoTemplate => r"\.(tpl|gotmpl|gohtml|tmpl)$",
        LanguageId::Unknown => "",
    }
}

/// The display name of a language.
pub open spec fn language_name(id: LanguageId) -> Seq<char> {
    match id {
        LanguageId::CCpp => "C / C++"@,
        LanguageId::CSharp => "C#"@,
        LanguageId::Dart => "Dart"@,
        LanguageId::Go => "Go"@,
        LanguageId::Groovy => "Groovy"@,
        LanguageId::Java => "Java"@,
        LanguageId::JavaScript => "JavaScript"@,
        LanguageId::Kotlin => "Kotlin"@,
        LanguageId::ObjcMatlab => "Objective-C / MATLAB"@,
        LanguageId::Php => "PHP"@,
        LanguageId::Protobuf => "Protobuf"@,
        LanguageId::Rust => "Rust"@,
        LanguageId::Scala => "Scala"@,
        LanguageId::Scss => "SCSS"@,
        LanguageId::Swift => "Swift"@,
        LanguageId::TypeScript => "TypeScript"@,
        LanguageId::CMake => "CMake"@,
        LanguageId::Dockerfile => "Dockerfile"@,
        LanguageId::Elixir => "Elixir"@,
        LanguageId::Gn => "GN"@,
        LanguageId::GraphQl => "GraphQL"@,
        LanguageId::Makefile => "Makefile"@,
        LanguageId::Nix => "Nix"@,
        LanguageId::Perl => "Perl"@,
        LanguageId::PowerShell => "PowerShell"@,
        LanguageId::Python => "Python"@,
        LanguageId::R => "R"@,
        LanguageId::Ruby => "Ruby"@,
        LanguageId::Shell => "Shell"@,
        LanguageId::Starlark => "Starlark / Bazel"@,
        LanguageId::Terraform => "Terraform / HCL"@,
        LanguageId::Toml => "TOML"@,
        LanguageId::Yaml => "YAML"@,
        LanguageId::Lisp => "Lisp / Clojure"@,
        LanguageId::Haskell => "Haskell"@,
        LanguageId::Lua => "Lua"@,
        LanguageId::Sql => "SQL"@,
        LanguageId::Latex => "LaTeX"@,
        LanguageId::Css => "CSS"@,
        LanguageId::Html => "HTML"@,
        LanguageId::Markdown => "Markdown"@,
        LanguageId::Xml => "XML"@,
        LanguageId::VueSvelte => "Vue / Svelte"@,
        LanguageId::GoTemplate => "Go Template / Helm"@,
        LanguageId::Unknown => "Unknown"@,
    }
}

pub fn name(id: LanguageId) -> (r: &'static str)
    ensures
        r@ == language_name(id),
{
    match id {
        LanguageId::CCpp => "C / C++",
        LanguageId::CSharp => "C#",
        LanguageId::Dart => "Dart",
        LanguageId::Go => "Go",
        LanguageId::Groovy => "Groovy",
        LanguageId::Java => "Java",
        LanguageId::JavaScript => "JavaScript",
        LanguageId::Kotlin => "Kotlin",
        LanguageId::ObjcMatlab => "Objective-C / MATLAB",
        LanguageId::Php => "PHP",
        LanguageId::Protobuf => "Protobuf",
        LanguageId::Rust => "Rust",
        LanguageId::Scala => "Scala",
        LanguageId::Scss => "SCSS",
        LanguageId::Swift => "Swift",
        LanguageId::TypeScript => "TypeScript",
        LanguageId::CMake => "CMake",
        LanguageId::Dockerfile => "Dockerfile",
        LanguageId::Elixir => "Elixir",
        LanguageId::Gn => "GN",
        LanguageId::GraphQl => "GraphQL",
        LanguageId::Makefile => "Makefile",
        LanguageId::Nix => "Nix",
        LanguageId::Perl => "Perl",
        LanguageId::PowerShell => "PowerShell",
        LanguageId::Python => "Python",
        LanguageId::R => "R",
        LanguageId::Ruby => "Ruby",
        LanguageId::Shell => "Shell",
        LanguageId::Starlark => "Starlark / Bazel",
        LanguageId::Terraform => "Terraform / HCL",
        LanguageId::Toml => "TOML",
        LanguageId::Yaml => "YAML",
        LanguageId::Lisp => "Lisp / Clojure",
        LanguageId::Haskell => "Haskell",
        LanguageId::Lua => "Lua",
        LanguageId::Sql => "SQL",
        LanguageId::Latex => "LaTeX",
        LanguageId::Css => "CSS",
        LanguageId::Html => "HTML",
        LanguageId::Markdown => "Markdown",
        LanguageId::Xml => "XML",
        LanguageId::VueSvelte => "Vue / Svelte",
        LanguageId::GoTemplate => "Go Template / Helm",
        LanguageId::Unknown => "Unknown",
    }
}

/// The number of languages tried by detection.
pub const NUM_LANGUAGES: usize = 44;

/// The language at a position of the detection order.
pub open spec fn language_at_spec(i: int) -> LanguageId {
    if i == 0 {
        LanguageId::CCpp
    }     else if i == 1 {
        LanguageId::CSharp
    }     else if i == 2 {
        LanguageId::Dart
    }     else if i == 3 {
        LanguageId::Go
    }     else if i == 4 {
        LanguageId::Groovy
    }     else if i == 5 {
        LanguageId::Java
    }     else if i == 6 {
        LanguageId::JavaScript
    }     else if i == 7 {
        LanguageId::Kotlin
    }     else if i == 8 {
        LanguageId::ObjcMatlab
    }     else if i == 9 {
        LanguageId::Php
    }     else if i == 10 {
        LanguageId::Protobuf
    }     else if i == 11 {
        LanguageId::Rust
    }     else if i == 12 {
        LanguageId::Scala
    }     else if i == 13 {
        LanguageId::Scss
    }     else if i == 14 {
        LanguageId::Swift
    }     else if i == 15 {
        LanguageId::TypeScript
    }     else if i == 16 {
        LanguageId::CMake
    }     else if i == 17 {
        LanguageId::Dockerfile
    }     else if i == 18 {
        LanguageId::Elixir
    }     else if i == 19 {
        LanguageId::Gn
    }     else if i == 20 {
        LanguageId::GraphQl
    }     else if i == 21 {
        LanguageId::Makefile
    }     else if i == 22 {
        LanguageId::Nix
    }     else if i == 23 {
        LanguageId::Perl
    }     else if i == 24 {
        LanguageId::PowerShell
    }     else if i == 25 {
        LanguageId::Python
    }     else if i == 26 {
        LanguageId::R
    }     else if i == 27 {
        LanguageId::Ruby
    }     else if i == 28 {
        LanguageId::Shell
    }     else if i == 29 {
        LanguageId::Starlark
    }     else if i == 30 {
        LanguageId::Terraform
    }     else if i == 31 {
        LanguageId::Toml
    }     else if i == 32 {
        LanguageId::Yaml
    }     else if i == 33 {
        LanguageId::Lisp
    }     else if i == 34 {
        LanguageId::Haskell
    }     else if i == 35 {
        LanguageId::Lua
    }     else if i == 36 {
        LanguageId::Sql
    }     else if i == 37 {
        LanguageId::Latex
    }     else if i == 38 {
        LanguageId::Css
    }     else if i == 39 {
        LanguageId::Html
    }     else if i == 40 {
        LanguageId::Markdown
    }     else if i == 41 {
        LanguageId::Xml
    }     else if i == 42 {
        LanguageId::VueSvelte
    }     else if i == 43 {
        LanguageId::GoTemplate
    } else {
        LanguageId::Unknown
    }
}

pub fn language_at(i: usize) -> (r: LanguageId)
    ensures
        r == language_at_spec(i as int),
{
    if i == 0 {
        LanguageId::CCpp
    }     else if i == 1 {
        LanguageId::CSharp
    }     else if i == 2 {
        LanguageId::Dart
    }     else if i == 3 {
        LanguageId::Go
    }     else if i == 4 {
        LanguageId::Groovy
    }     else if i == 5 {
        LanguageId::Java
    }     else if i == 6 {
        LanguageId::JavaScript
    }     else if i == 7 {
        LanguageId::Kotlin
    }     else if i == 8 {
        LanguageId::ObjcMatlab
    }     else if i == 9 {
        LanguageId::Php
    }     else if i == 10 {
        LanguageId::Protobuf
    }     else if i == 11 {
        LanguageId::Rust
    }     else if i == 12 {
        LanguageId::Scala
    }     else if i == 13 {
        LanguageId::Scss
    }     else if i == 14 {
        LanguageId::Swift
    }     else if i == 15 {
        LanguageId::TypeScript
    }     else if i == 16 {
        LanguageId::CMake
    }     else if i == 17 {
        LanguageId::Dockerfile
    }     else if i == 18 {
        LanguageId::Elixir
    }     else if i == 19 {
        LanguageId::Gn
    }     else if i == 20 {
        LanguageId::GraphQl
    }     else if i == 21 {
        LanguageId::Makefile
    }     else if i == 22 {
        LanguageId::Nix
    }     else if i == 23 {
        LanguageId::Perl
    }     else if i == 24 {
        LanguageId::PowerShell
    }     else if i == 25 {
        LanguageId::Python
    }     else if i == 26 {
        LanguageId::R
    }     else if i == 27 {
        LanguageId::Ruby
    }     else if i == 28 {
        LanguageId::Shell
    }     else if i == 29 {
        LanguageId::Starlark
    }     else if i == 30 {
        LanguageId::Terraform
    }     else if i == 31 {
        LanguageId::Toml
    }     else if i == 32 {
        LanguageId::Yaml
    }     else if i == 33 {
        LanguageId::Lisp
    }     else if i == 34 {
        LanguageId::Haskell
    }     else if i == 35 {
        LanguageId::Lua
    }     else if i == 36 {
        LanguageId::Sql
    }     else if i == 37 {
        LanguageId::Latex
    }     else if i == 38 {
        LanguageId::Css
    }     else if i == 39 {
        LanguageId::Html
    }     else if i == 40 {
        LanguageId::Markdown
    }     else if i == 41 {
        LanguageId::Xml
    }     else if i == 42 {
        LanguageId::VueSvelte
    }     else if i == 43 {
        LanguageId::GoTemplate
    } else {
        LanguageId::Unknown
    }
}

/// The model of a language's definition.
pub open spec fn language_v(id: LanguageId) -> LanguageV {
    let (l, b, s) = styles_of(id);
    LanguageV {
        line_comments: line_style_v(l),
        block_comments: block_style_v(b),
        skip_patterns: skip_style_v(s),
    }
}

impl Language {
    /// The definition of a language.
    pub fn of(id: LanguageId) -> (r: Language)
        ensures
            r@ == language_v(id),
    {
        let (l, b, s) = styles(id);
        Language {
            name: name(id),
            extensions: pattern(id),
            line_comments: line_style(l),
            block_comments: block_style(b),
            skip_patterns: skip_style(s),
        }
    }
}

/// The file name: what follows the last `/`, or the whole path.
pub open spec fn file_name(path: Seq<char>) -> Seq<char> {
    match crate::text::rfind(path, seq!['/']) {
        Some(k) => path.subrange(k + 1, path.len() as int),
        None => path,
    }
}

/// The first language, in detection order from `i`, whose pattern matches `name`.
pub open spec fn detect_from(name: Seq<char>, i: int) -> LanguageId
    decreases NUM_LANGUAGES - i,
{
    if i < 0 || i >= NUM_LANGUAGES {
        LanguageId::Unknown
    } else if regex_is_match_of(pattern_of(language_at_spec(i)), name) {
        language_at_spec(i)
    } else {
        detect_from(name, i + 1)
    }
}

/// The language of a file, from its name alone so that directory
/// components like `src/build/` do not match patterns like `BUILD`.
pub open spec fn detect_spec(path: Seq<char>) -> LanguageId {
    detect_from(file_name(path), 0)
}

pub fn detect_id(path: &str) -> (r: LanguageId)
    ensures
        r == detect_spec(path@),
{
    let chars = chars_of(path);
    let slash = vec!['/'];
    let start = match rfind_in(chars.as_slice(), slash.as_slice()) {
        Some(k) => {
            proof {
                crate::text::lemma_rfind_props(chars@, slash@, chars@.len() - slash@.len());
                assert(crate::text::occurs_at(chars@, slash@, k as int));
                assert(chars@.len() == chars.len());
            }
            k + 1
        },
        None => 0,
    };
    let name_chars = crate::text::copy_range(chars.as_slice(), start, chars.len());
    proof {
        assert(slash@ =~= seq!['/']);
        if start == 0 {
            assert(name_chars@ =~= chars@);
        }
    }
    let name = crate::ext::string_of(name_chars.as_slice());
    let mut i: usize = 0;
    while i < NUM_LANGUAGES
        invariant
            i <= NUM_LANGUAGES,
            name@ == file_name(path@),
            detect_spec(path@) == detect_from(name@, i as int),
        decreases NUM_LANGUAGES - i,
    {
        let id = language_at(i);
        if regex_is_match(pattern(id), name.as_str()) {
            return id;
        }
        i = i + 1;
    }
    LanguageId::Unknown
}

/// The language definition for a file path.
pub fn detect(path: &str) -> (r: Language)
    ensures
        r@ == language_v(detect_spec(path@)),
{
    Language::of(detect_id(path))
}

/// A file whose extension names no known language is read with the
/// fallback comment styles: `//` and `#` line comments and `/* */` blocks.
pub proof fn law_unknown_extension_fallback(path: Seq<char>)
    requires
        detect_spec(path) == LanguageId::Unknown,
    ensures
        language_v(detect_spec(path)).line_comments == seq![seq!['/', '/'], seq!['#']],
        language_v(detect_spec(path)).block_comments == seq![
            BlockCommentV { open: seq!['/', '*'], close: seq!['*', '/'], nestable: false },
        ],
{
}


/// Detection picks a language only when that language's file-name pattern
/// matches the file name; otherwise the file is read with the fallback.
pub proof fn law_detected_language_matches_its_pattern(path: Seq<char>)
    ensures
        detect_spec(path) == LanguageId::Unknown || regex_is_match_of(
            pattern_of(detect_spec(path)),
            file_name(path),
        ),
{
    lemma_detect_from_matches(file_name(path), 0);
}

proof fn lemma_detect_from_matches(name: Seq<char>, i: int)
    ensures
        detect_from(name, i) == LanguageId::Unknown || regex_is_match_of(
            pattern_of(detect_from(name, i)),
            name,
        ),
    decreases NUM_LANGUAGES - i,
{
    if 0 <= i < NUM_LANGUAGES && !regex_is_match_of(pattern_of(language_at_spec(i)), name) {
        lemma_detect_from_matches(name, i + 1);
    }
}

/// A Go file (one whose name the Go pattern `\.go$` picked) is read with
/// `//` line comments and non-nesting `/* */` block comments, so the
/// `// LINT.IfChange` and `// LINT.ThenChange(..)` lines of a Go file are
/// comments that carry directives.
pub proof fn law_go_comment_syntax(path: Seq<char>)
    requires
        detect_spec(path) == LanguageId::Go,
    ensures
        pattern_of(LanguageId::Go) == r"\.go$"@,
        regex_is_match_of(r"\.go$"@, file_name(path)),
        language_v(detect_spec(path)).line_comments == seq![seq!['/', '/']],
        language_v(detect_spec(path)).block_comments == seq![
            BlockCommentV { open: seq!['/', '*'], close: seq!['*', '/'], nestable: false },
        ],
{
    law_detected_language_matches_its_pattern(path);
}

/// The comment delimiters of each language family: the C family writes `//`
/// line comments and non-nesting `/* */` blocks, Rust the same with nesting
/// blocks, the shell family `#` line comments, the dash family `--`.
pub proof fn law_comment_syntax_by_language(id: LanguageId)
    ensures
        (id is CCpp || id is CSharp || id is Dart || id is Go || id is Groovy || id is Java
            || id is JavaScript || id is Kotlin || id is Protobuf || id is Scala || id is Scss
            || id is Swift || id is TypeScript) ==> language_v(id).line_comments == seq![
            seq!['/', '/'],
        ] && language_v(id).block_comments == seq![
            BlockCommentV { open: seq!['/', '*'], close: seq!['*', '/'], nestable: false },
        ],
        id is Rust ==> language_v(id).line_comments == seq![seq!['/', '/']]
            && language_v(id).block_comments == seq![
            BlockCommentV { open: seq!['/', '*'], close: seq!['*', '/'], nestable: true },
        ],
        (id is CMake || id is Dockerfile || id is Elixir || id is Gn || id is GraphQl
            || id is Makefile || id is Nix || id is Perl || id is PowerShell || id is Python
            || id is R || id is Ruby || id is Shell || id is Starlark || id is Toml || id is Yaml)
            ==> language_v(id).line_comments == seq![seq!['#']],
        (id is Haskell || id is Lua || id is Sql) ==> language_v(id).line_comments == seq![
            seq!['-', '-'],
        ],
        (id is Css || id is Html || id is Markdown || id is Xml || id is GoTemplate)
            ==> language_v(id).line_comments.len() == 0,
{
}

} // verus!
