//! The scanner: from source text to located tokens.
//!
//! Scanning does not stop at an error. What cannot be read is recorded,
//! skipped, and scanning goes on, so that one pass brings up every lexical
//! error of a source.
//!
//! The scanner recognises number literals but does not compute their
//! doubles. The host reads the numerals (`Lexer::numerals`), converts each,
//! and hands the results to `Lexer::scan`.

use vstd::prelude::*;
use self::token::tokens::{Keyword, Literal, LiteralView, Operator, Punctuation};
use self::token::{Token, TokenValue, TokenValueView, TokenView};
use crate::util::{slice, to_chars, to_text, Location};

pub mod token;

verus! {

/// Why a piece of the source is no token.
#[derive(Debug, Clone, PartialEq)]
pub enum LexError {
    /// A character that begins no token, with the text from the character to
    /// the end of its line.
    UnknownToken(Location, char, String),
    /// A string literal whose line ends before the closing quote; the
    /// location is that of the opening quote.
    UnterminatedString(Location),
    /// A numeral that the host could not convert, with its text.
    UnableToParseNumber(Location, String),
}

/// What a `LexError` holds, as mathematical values.
pub enum LexErrorView {
    UnknownToken(Location, char, Seq<char>),
    UnterminatedString(Location),
    UnableToParseNumber(Location, Seq<char>),
}

impl View for LexError {
    type V = LexErrorView;

    open spec fn view(&self) -> LexErrorView {
        match self {
            LexError::UnknownToken(loc, c, context) => LexErrorView::UnknownToken(
                *loc,
                *c,
                context@,
            ),
            LexError::UnterminatedString(loc) => LexErrorView::UnterminatedString(*loc),
            LexError::UnableToParseNumber(loc, text) => LexErrorView::UnableToParseNumber(
                *loc,
                text@,
            ),
        }
    }
}

impl LexErrorView {
    /// Where the error arose.
    pub open spec fn loc(self) -> Location {
        match self {
            LexErrorView::UnknownToken(loc, _, _) => loc,
            LexErrorView::UnterminatedString(loc) => loc,
            LexErrorView::UnableToParseNumber(loc, _) => loc,
        }
    }
}

impl LexError {
    /// Where the error arose.
    pub fn loc(&self) -> (loc: Location)
        ensures
            loc == self@.loc(),
    {
        match self {
            LexError::UnknownToken(loc, _, _) => *loc,
            LexError::UnterminatedString(loc) => *loc,
            LexError::UnableToParseNumber(loc, _) => *loc,
        }
    }
}

/// A decimal digit.
pub open spec fn is_digit(c: char) -> bool {
    '0' <= c <= '9'
}

/// A character that may begin a name: a letter of the ASCII alphabet or
/// an underscore.
pub open spec fn is_alpha(c: char) -> bool {
    ('a' <= c <= 'z') || ('A' <= c <= 'Z') || c == '_'
}

/// A stretch of characters of one kind.
#[derive(Debug, Clone, Copy, PartialEq, Eq, Structural)]
pub enum Run {
    /// Decimal digits.
    Digits,
    /// What a name is made of: letters, digits and underscores.
    Word,
    /// Whatever is no line break.
    Line,
    /// Whatever is neither a line break nor a double quote.
    Text,
}

impl Run {
    /// Whether `c` belongs to a run of this kind.
    pub open spec fn holds(self, c: char) -> bool {
        match self {
            Run::Digits => is_digit(c),
            Run::Word => is_alpha(c) || is_digit(c),
            Run::Line => c != '\n',
            Run::Text => c != '\n' && c != '"',
        }
    }

    /// Decides `holds`.
    pub fn admits(self, c: char) -> (held: bool)
        ensures
            held == self.holds(c),
    {
        match self {
            Run::Digits => '0' <= c && c <= '9',
            Run::Word => ('a' <= c && c <= 'z') || ('A' <= c && c <= 'Z') || c == '_' || ('0' <= c
                && c <= '9'),
            Run::Line => c != '\n',
            Run::Text => c != '\n' && c != '"',
        }
    }
}

/// Where the run that begins at `i` ends: the first position from `i` on
/// whose character is not of the run, or the end of the source.
pub open spec fn run_end(s: Seq<char>, i: int, run: Run) -> int
    decreases s.len() - i,
{
    if 0 <= i < s.len() && run.holds(s[i]) {
        run_end(s, i + 1, run)
    } else {
        i
    }
}

/// A run ends at or after its beginning and within the source; up to its
/// end every character is of the run, and the character at its end is not.
pub proof fn lemma_run_end(s: Seq<char>, i: int, run: Run)
    requires
        0 <= i <= s.len(),
    ensures
        i <= run_end(s, i, run) <= s.len(),
        forall|j: int| i <= j < run_end(s, i, run) ==> run.holds(#[trigger] s[j]),
        run_end(s, i, run) < s.len() ==> !run.holds(s[run_end(s, i, run)]),
    decreases s.len() - i,
{
    if i < s.len() && run.holds(s[i]) {
        lemma_run_end(s, i + 1, run);
    }
}

/// What stands at a position of the source.
pub enum Lexeme {
    /// A space, a tab or a carriage return.
    Blank,
    /// A line break.
    Newline,
    /// A comment, from `//` to the end of the line.
    Comment,
    /// A token that is complete as it stands.
    Token(TokenValueView),
    /// A number literal: digits, and after them a dot and digits where a
    /// digit follows the dot.
    Numeral,
    /// A string literal that its line does not close.
    Unterminated,
    /// A character that begins no token.
    Unknown,
}

/// The lexeme that begins at `i`, and where it ends. An operator of two
/// characters goes before the operator that its first character spells.
pub open spec fn lexeme(s: Seq<char>, i: int) -> (Lexeme, int) {
    let c = s[i];
    if c == ' ' || c == '\r' || c == '\t' {
        (Lexeme::Blank, i + 1)
    } else if c == '\n' {
        (Lexeme::Newline, i + 1)
    } else if c == '/' && i + 1 < s.len() && s[i + 1] == '/' {
        (Lexeme::Comment, run_end(s, i, Run::Line))
    } else if i + 1 < s.len() && Operator::recognize(s.subrange(i, i + 2)) is Some {
        (
            Lexeme::Token(
                TokenValueView::Operator(Operator::recognize(s.subrange(i, i + 2)).unwrap()),
            ),
            i + 2,
        )
    } else if Operator::recognize(s.subrange(i, i + 1)) is Some {
        (
            Lexeme::Token(
                TokenValueView::Operator(Operator::recognize(s.subrange(i, i + 1)).unwrap()),
            ),
            i + 1,
        )
    } else if Punctuation::recognize(c) is Some {
        (Lexeme::Token(TokenValueView::Punctuation(Punctuation::recognize(c).unwrap())), i + 1)
    } else if c == '"' {
        let end = run_end(s, i + 1, Run::Text);
        if end < s.len() && s[end] == '"' {
            (
                Lexeme::Token(TokenValueView::Literal(LiteralView::String(s.subrange(i + 1, end)))),
                end + 1,
            )
        } else {
            (Lexeme::Unterminated, end)
        }
    } else if is_digit(c) {
        let end = run_end(s, i, Run::Digits);
        if end + 1 < s.len() && s[end] == '.' && is_digit(s[end + 1]) {
            (Lexeme::Numeral, run_end(s, end + 1, Run::Digits))
        } else {
            (Lexeme::Numeral, end)
        }
    } else if is_alpha(c) {
        let end = run_end(s, i, Run::Word);
        let text = s.subrange(i, end);
        match Keyword::recognize(text) {
            Some(keyword) => (Lexeme::Token(TokenValueView::Keyword(keyword)), end),
            None => (Lexeme::Token(TokenValueView::Literal(LiteralView::Identifier(text))), end),
        }
    } else {
        (Lexeme::Unknown, i + 1)
    }
}

/// Every lexeme holds at least one character and ends within the source. A
/// lexeme that is a token is never the end-of-file token.
pub proof fn lemma_lexeme(s: Seq<char>, i: int)
    requires
        0 <= i < s.len(),
    ensures
        i < lexeme(s, i).1 <= s.len(),
        lexeme(s, i).0 != Lexeme::Token(TokenValueView::Eof),
{
    lemma_run_end(s, i, Run::Line);
    lemma_run_end(s, i + 1, Run::Text);
    lemma_run_end(s, i, Run::Digits);
    lemma_run_end(s, i, Run::Word);
    let end = run_end(s, i, Run::Digits);
    if end + 1 < s.len() {
        lemma_run_end(s, end + 1, Run::Digits);
    }
}

/// The character at position `i`.
pub open spec fn char_at(s: Seq<char>, i: int) -> char {
    s[i]
}

/// The location of a line and a column.
pub open spec fn place(line: nat, column: nat) -> Location {
    Location { line: line as usize, column: column as usize }
}

/// What scanning brings out: tokens and errors, each in the order of the
/// source.
pub struct Scanned {
    pub tokens: Seq<TokenView>,
    pub errors: Seq<LexErrorView>,
}

/// The tokens and errors of the source from position `i` on, where `i` is at
/// `line` and `column` and `seen` numerals stand before it. The host made
/// `numbers[k]` of the numeral before which `k` numerals stand; a numeral
/// that it could not convert, or that `numbers` does not reach, is an
/// error.
pub open spec fn scan_from(
    s: Seq<char>,
    numbers: Seq<Option<u64>>,
    i: int,
    line: nat,
    column: nat,
    seen: nat,
) -> Scanned
    decreases s.len() - i,
{
    if 0 <= i < s.len() {
        let (found, end) = lexeme(s, i);
        let here = place(line, column);
        let width = (end - i) as nat;
        proof {
            lemma_lexeme(s, i);
        }
        match found {
            Lexeme::Newline => scan_from(s, numbers, end, line + 1, 1, seen),
            Lexeme::Blank => scan_from(s, numbers, end, line, column + width, seen),
            Lexeme::Comment => scan_from(s, numbers, end, line, column + width, seen),
            Lexeme::Token(value) => {
                let rest = scan_from(s, numbers, end, line, column + width, seen);
                Scanned {
                    tokens: seq![TokenView { value, loc: here }] + rest.tokens,
                    errors: rest.errors,
                }
            },
            Lexeme::Numeral => {
                let rest = scan_from(s, numbers, end, line, column + width, seen + 1);
                if seen < numbers.len() && numbers[seen as int] is Some {
                    let value = TokenValueView::Literal(
                        LiteralView::Number(numbers[seen as int].unwrap()),
                    );
                    Scanned {
                        tokens: seq![TokenView { value, loc: here }] + rest.tokens,
                        errors: rest.errors,
                    }
                } else {
                    Scanned {
                        tokens: rest.tokens,
                        errors: seq![LexErrorView::UnableToParseNumber(here, s.subrange(i, end))]
                            + rest.errors,
                    }
                }
            },
            Lexeme::Unterminated => {
                let rest = scan_from(s, numbers, end, line, column + width, seen);
                Scanned {
                    tokens: rest.tokens,
                    errors: seq![LexErrorView::UnterminatedString(here)] + rest.errors,
                }
            },
            Lexeme::Unknown => {
                let rest = scan_from(s, numbers, end, line, column + width, seen);
                let context = s.subrange(i, run_end(s, i, Run::Line));
                let error = LexErrorView::UnknownToken(here, char_at(s, i), context);
                Scanned { tokens: rest.tokens, errors: seq![error] + rest.errors }
            },
        }
    } else {
        Scanned { tokens: Seq::empty(), errors: Seq::empty() }
    }
}

/// The texts of the numerals of the source from position `i` on.
pub open spec fn numerals_from(s: Seq<char>, i: int) -> Seq<Seq<char>>
    decreases s.len() - i,
{
    if 0 <= i < s.len() {
        let (found, end) = lexeme(s, i);
        proof {
            lemma_lexeme(s, i);
        }
        match found {
            Lexeme::Numeral => seq![s.subrange(i, end)] + numerals_from(s, end),
            _ => numerals_from(s, end),
        }
    } else {
        Seq::empty()
    }
}

/// The text of the line that begins at `i` and ends before `end`, where a
/// line break stands or the source ends. A carriage return in front of the
/// line break belongs to the line break.
pub open spec fn line_text(s: Seq<char>, i: int, end: int) -> Seq<char> {
    if i < end < s.len() && s[end - 1] == '\r' {
        s.subrange(i, end - 1)
    } else {
        s.subrange(i, end)
    }
}

/// The lines of the source from position `i` on, where a line begins. A
/// line ends at a line break or at the end of the source; after the last
/// line break no further line begins unless text follows.
pub open spec fn lines_from(s: Seq<char>, i: int) -> Seq<Seq<char>>
    decreases s.len() - i,
{
    if 0 <= i < s.len() {
        let end = run_end(s, i, Run::Line);
        proof {
            lemma_run_end(s, i, Run::Line);
        }
        if end < s.len() {
            seq![line_text(s, i, end)] + lines_from(s, end + 1)
        } else {
            seq![line_text(s, i, end)]
        }
    } else {
        Seq::empty()
    }
}

/// What a scan returns, as mathematical values.
pub struct ScanResultView {
    pub lines: Seq<Seq<char>>,
    pub tokens: Seq<TokenView>,
    pub errors: Seq<LexErrorView>,
}

/// The result of scanning the source `s` with the numbers that the host
/// made of its numerals: the lines, the tokens with the end-of-file token
/// after them, one line past the last line, and the errors.
pub open spec fn scan(s: Seq<char>, numbers: Seq<Option<u64>>) -> ScanResultView {
    let scanned = scan_from(s, numbers, 0, 1, 1, 0);
    let lines = lines_from(s, 0);
    ScanResultView {
        lines,
        tokens: scanned.tokens.push(
            TokenView { value: TokenValueView::Eof, loc: place(lines.len() + 1, 1) },
        ),
        errors: scanned.errors,
    }
}

/// No token that is scanned from the source itself is the end-of-file
/// token.
pub proof fn lemma_no_eof_within(
    s: Seq<char>,
    numbers: Seq<Option<u64>>,
    i: int,
    line: nat,
    column: nat,
    seen: nat,
)
    ensures
        forall|k: int|
            0 <= k < scan_from(s, numbers, i, line, column, seen).tokens.len() ==> (
            #[trigger] scan_from(s, numbers, i, line, column, seen).tokens[k]).value
                != TokenValueView::Eof,
    decreases s.len() - i,
{
    if 0 <= i < s.len() {
        let (found, end) = lexeme(s, i);
        let width = (end - i) as nat;
        lemma_lexeme(s, i);
        match found {
            Lexeme::Newline => lemma_no_eof_within(s, numbers, end, line + 1, 1, seen),
            Lexeme::Numeral => lemma_no_eof_within(
                s,
                numbers,
                end,
                line,
                column + width,
                seen + 1,
            ),
            _ => lemma_no_eof_within(s, numbers, end, line, column + width, seen),
        }
    }
}

/// There are at most as many lines as characters.
pub proof fn lemma_lines_bound(s: Seq<char>, i: int)
    requires
        0 <= i,
    ensures
        lines_from(s, i).len() <= if i < s.len() {
            s.len() - i
        } else {
            0
        },
    decreases s.len() - i,
{
    if i < s.len() {
        lemma_run_end(s, i, Run::Line);
        if run_end(s, i, Run::Line) < s.len() {
            lemma_lines_bound(s, run_end(s, i, Run::Line) + 1);
        }
    }
}

/// The tokens of every scan end with exactly one end-of-file token, and its
/// line is the number of lines and one more.
pub proof fn lemma_scan_ends_with_eof(s: Seq<char>, numbers: Seq<Option<u64>>)
    requires
        s.len() < usize::MAX,
    ensures
        scan(s, numbers).tokens.len() >= 1,
        scan(s, numbers).tokens.last().value == TokenValueView::Eof,
        scan(s, numbers).tokens.last().loc.line == scan(s, numbers).lines.len() + 1,
        scan(s, numbers).tokens.last().loc.column == 1,
        forall|k: int|
            0 <= k < scan(s, numbers).tokens.len() - 1 ==> (#[trigger] scan(
                s,
                numbers,
            ).tokens[k]).value != TokenValueView::Eof,
{
    lemma_no_eof_within(s, numbers, 0, 1, 1, 0);
    lemma_lines_bound(s, 0);
    let inner = scan_from(s, numbers, 0, 1, 1, 0).tokens;
    assert forall|k: int| 0 <= k < scan(s, numbers).tokens.len() - 1 implies (#[trigger] scan(
        s,
        numbers,
    ).tokens[k]).value != TokenValueView::Eof by {
        assert(scan(s, numbers).tokens[k] == inner[k]);
    }
}

/// A line that holds no line break before `i` and has one at `i` ends at
/// `i`.
proof fn lemma_line_ends(s: Seq<char>, start: int, i: int)
    requires
        0 <= start <= i < s.len(),
        forall|j: int| start <= j < i ==> s[j] != '\n',
        s[i] == '\n',
    ensures
        run_end(s, start, Run::Line) == i,
    decreases i - start,
{
    if start < i {
        lemma_line_ends(s, start + 1, i);
    }
}

/// A lexeme that is no line break holds no line break.
proof fn lemma_lexeme_on_line(s: Seq<char>, i: int)
    requires
        0 <= i < s.len(),
        lexeme(s, i).0 != Lexeme::Newline,
    ensures
        forall|j: int| i <= j < lexeme(s, i).1 ==> s[j] != '\n',
{
    Operator::lemma_spellings();
    lemma_lexeme(s, i);
    lemma_run_end(s, i, Run::Line);
    lemma_run_end(s, i + 1, Run::Text);
    lemma_run_end(s, i, Run::Digits);
    lemma_run_end(s, i, Run::Word);
    let digits = run_end(s, i, Run::Digits);
    if digits + 1 < s.len() {
        lemma_run_end(s, digits + 1, Run::Digits);
    }
    if i + 1 < s.len() {
        assert(s.subrange(i, i + 2)[1] == s[i + 1]);
    }
}

/// Whether every location of `locs` is on a line up to `last`, none is
/// before `from`, and each is before the next.
pub open spec fn ascending(locs: Seq<Location>, from: Location, last: int) -> bool {
    &&& forall|k: int| 0 <= k < locs.len() ==> !(#[trigger] locs[k]).precedes(from) && locs[k].line
        <= last
    &&& forall|j: int, k: int|
        0 <= j < k < locs.len() ==> (#[trigger] locs[j]).precedes(#[trigger] locs[k])
}

/// The locations of tokens.
pub open spec fn token_locs(tokens: Seq<TokenView>) -> Seq<Location> {
    Seq::new(tokens.len(), |k: int| tokens[k].loc)
}

/// The locations of errors.
pub open spec fn error_locs(errors: Seq<LexErrorView>) -> Seq<Location> {
    Seq::new(errors.len(), |k: int| errors[k].loc())
}

/// Locations stay ascending with one more in front that is before the
/// place from which the others ascend.
proof fn lemma_ascending_first(
    first: Location,
    rest: Seq<Location>,
    from: Location,
    next: Location,
    last: int,
)
    requires
        ascending(rest, next, last),
        first.precedes(next),
        !first.precedes(from),
        first.line <= last,
    ensures
        ascending(seq![first] + rest, from, last),
{
    let all = seq![first] + rest;
    assert forall|k: int| 0 <= k < all.len() implies !(#[trigger] all[k]).precedes(from) && all[k].line
        <= last by {
        if k > 0 {
            assert(all[k] == rest[k - 1]);
        }
    }
    assert forall|j: int, k: int| 0 <= j < k < all.len() implies (#[trigger] all[j]).precedes(
        #[trigger] all[k],
    ) by {
        assert(all[k] == rest[k - 1]);
        if j > 0 {
            assert(all[j] == rest[j - 1]);
        }
    }
}

/// Locations that ascend from a place ascend from every place that is not
/// after it.
proof fn lemma_ascending_from(locs: Seq<Location>, from: Location, next: Location, last: int)
    requires
        ascending(locs, next, last),
        !next.precedes(from),
    ensures
        ascending(locs, from, last),
{
}

/// From a position on, where `start` is the beginning of the position's
/// line: tokens and errors stand in the order of the source, each on one
/// of the lines that are left.
proof fn lemma_scan_from_ascending(
    s: Seq<char>,
    numbers: Seq<Option<u64>>,
    start: int,
    i: int,
    line: nat,
    seen: nat,
)
    requires
        s.len() < usize::MAX,
        0 <= start <= i <= s.len(),
        forall|j: int| start <= j < i ==> s[j] != '\n',
        1 <= line <= start + 1,
    ensures
        ascending(
            token_locs(scan_from(s, numbers, i, line, (i - start + 1) as nat, seen).tokens),
            place(line, (i - start + 1) as nat),
            line - 1 + lines_from(s, start).len(),
        ),
        ascending(
            error_locs(scan_from(s, numbers, i, line, (i - start + 1) as nat, seen).errors),
            place(line, (i - start + 1) as nat),
            line - 1 + lines_from(s, start).len(),
        ),
    decreases s.len() - i,
{
    let column = (i - start + 1) as nat;
    let here = place(line, column);
    let last = line - 1 + lines_from(s, start).len();
    let now = scan_from(s, numbers, i, line, column, seen);
    if i < s.len() {
        let (found, end) = lexeme(s, i);
        lemma_lexeme(s, i);
        lemma_run_end(s, start, Run::Line);
        match found {
            Lexeme::Newline => {
                lemma_line_ends(s, start, i);
                lemma_scan_from_ascending(s, numbers, i + 1, i + 1, line + 1, seen);
                let next = place(line + 1, 1);
                lemma_ascending_from(token_locs(now.tokens), here, next, last);
                lemma_ascending_from(error_locs(now.errors), here, next, last);
            },
            _ => {
                lemma_lexeme_on_line(s, i);
                let after = if found is Numeral {
                    seen + 1
                } else {
                    seen
                };
                lemma_scan_from_ascending(s, numbers, start, end, line, after);
                let next = place(line, (end - start + 1) as nat);
                let rest = scan_from(s, numbers, end, line, (end - start + 1) as nat, after);
                assert(rest == scan_from(s, numbers, end, line, column + (end - i) as nat, after));
                if now.tokens.len() == rest.tokens.len() + 1 {
                    lemma_ascending_first(here, token_locs(rest.tokens), here, next, last);
                    assert(token_locs(now.tokens) =~= seq![here] + token_locs(rest.tokens));
                } else {
                    assert(now.tokens == rest.tokens);
                    lemma_ascending_from(token_locs(rest.tokens), here, next, last);
                }
                if now.errors.len() == rest.errors.len() + 1 {
                    lemma_ascending_first(here, error_locs(rest.errors), here, next, last);
                    assert(error_locs(now.errors) =~= seq![here] + error_locs(rest.errors));
                } else {
                    assert(now.errors == rest.errors);
                    lemma_ascending_from(error_locs(rest.errors), here, next, last);
                }
            },
        }
    }
}

/// The tokens of a scan stand in the order of the source and the
/// end-of-file token after them; so do the errors. Every token but the
/// end-of-file token, and every error, stands on one of the lines of the
/// scan.
pub proof fn lemma_scan_ascending(s: Seq<char>, numbers: Seq<Option<u64>>)
    requires
        s.len() < usize::MAX,
    ensures
        ascending(
            token_locs(scan(s, numbers).tokens),
            place(1, 1),
            (scan(s, numbers).lines.len() + 1) as int,
        ),
        ascending(error_locs(scan(s, numbers).errors), place(1, 1), scan(s, numbers).lines.len() as int),
        forall|k: int|
            0 <= k < scan(s, numbers).tokens.len() - 1 ==> 1 <= (#[trigger] scan(
                s,
                numbers,
            ).tokens[k]).loc.line <= scan(s, numbers).lines.len(),
{
    lemma_scan_from_ascending(s, numbers, 0, 0, 1, 0);
    lemma_lines_bound(s, 0);
    let inner = scan_from(s, numbers, 0, 1, 1, 0).tokens;
    let lines = lines_from(s, 0).len();
    let eof = place(lines + 1, 1);
    let all = token_locs(scan(s, numbers).tokens);
    assert(all =~= token_locs(inner).push(eof));
    assert forall|k: int| 0 <= k < inner.len() implies 1 <= (#[trigger] scan(
        s,
        numbers,
    ).tokens[k]).loc.line <= lines by {
        assert(scan(s, numbers).tokens[k] == inner[k]);
        assert(token_locs(inner)[k] == inner[k].loc);
    }
    assert forall|j: int, k: int| 0 <= j < k < all.len() implies (#[trigger] all[j]).precedes(
        #[trigger] all[k],
    ) by {
        assert(all[j] == token_locs(inner)[j]);
        if k < inner.len() {
            assert(all[k] == token_locs(inner)[k]);
        }
    }
    assert forall|k: int| 0 <= k < all.len() implies !(#[trigger] all[k]).precedes(place(1, 1))
        && all[k].line <= lines + 1 by {
        if k < inner.len() {
            assert(all[k] == token_locs(inner)[k]);
        }
    }
}

/// What a scan returns.
#[derive(Debug, PartialEq)]
pub struct ScanResult {
    /// The lines of the source, without their line breaks.
    pub lines: Vec<String>,
    /// The tokens in the order of the source; the last is the end-of-file
    /// token.
    pub tokens: Vec<Token>,
    /// The errors in the order of the source.
    pub errors: Vec<LexError>,
}

/// The views of tokens.
pub open spec fn token_views(tokens: Seq<Token>) -> Seq<TokenView> {
    Seq::new(tokens.len(), |i: int| tokens[i]@)
}

/// The views of errors.
pub open spec fn error_views(errors: Seq<LexError>) -> Seq<LexErrorView> {
    Seq::new(errors.len(), |i: int| errors[i]@)
}

/// The views of texts.
pub open spec fn text_views(texts: Seq<String>) -> Seq<Seq<char>> {
    Seq::new(texts.len(), |i: int| texts[i]@)
}

impl View for ScanResult {
    type V = ScanResultView;

    open spec fn view(&self) -> ScanResultView {
        ScanResultView {
            lines: text_views(self.lines@),
            tokens: token_views(self.tokens@),
            errors: error_views(self.errors@),
        }
    }
}

/// The views of errors with one more error are the views with one more
/// view.
proof fn lemma_error_pushed(errors: Seq<LexError>, error: LexError)
    ensures
        error_views(errors.push(error)) == error_views(errors).push(error@),
{
    assert(error_views(errors.push(error)) =~= error_views(errors).push(error@));
}

/// The views of tokens with one more token are the views with one more
/// view.
proof fn lemma_token_pushed(tokens: Seq<Token>, token: Token)
    ensures
        token_views(tokens.push(token)) == token_views(tokens).push(token@),
{
    assert(token_views(tokens.push(token)) =~= token_views(tokens).push(token@));
}

/// A lexeme as the scanner finds it.
enum Piece {
    Blank,
    Newline,
    Comment,
    Token(TokenValue),
    Numeral,
    Unterminated,
    Unknown,
}

impl View for Piece {
    type V = Lexeme;

    closed spec fn view(&self) -> Lexeme {
        match self {
            Piece::Blank => Lexeme::Blank,
            Piece::Newline => Lexeme::Newline,
            Piece::Comment => Lexeme::Comment,
            Piece::Token(value) => Lexeme::Token(value@),
            Piece::Numeral => Lexeme::Numeral,
            Piece::Unterminated => Lexeme::Unterminated,
            Piece::Unknown => Lexeme::Unknown,
        }
    }
}

/// The operator that the two characters spell together.
fn operator_pair(c: char, d: char) -> (found: Option<Operator>)
    ensures
        found == Operator::recognize(seq![c, d]),
{
    proof {
        Operator::lemma_spellings();
    }
    let found = if d != '=' {
        None
    } else if c == '!' {
        assert(seq![c, d] =~= "!="@);
        Some(Operator::BangEqual)
    } else if c == '=' {
        assert(seq![c, d] =~= "=="@);
        Some(Operator::EqualEqual)
    } else if c == '>' {
        assert(seq![c, d] =~= ">="@);
        Some(Operator::GreaterEqual)
    } else if c == '<' {
        assert(seq![c, d] =~= "<="@);
        Some(Operator::LessEqual)
    } else {
        None
    };
    assert(seq![c, d].len() == 2);
    assert(seq![c, d][0] == c && seq![c, d][1] == d);
    found
}

/// The operator that the character spells by itself.
fn operator_single(c: char) -> (found: Option<Operator>)
    ensures
        found == Operator::recognize(seq![c]),
{
    proof {
        Operator::lemma_spellings();
    }
    assert(seq![c].len() == 1 && seq![c][0] == c);
    if c == '!' {
        assert(seq![c] =~= "!"@);
        Some(Operator::Bang)
    } else if c == '=' {
        assert(seq![c] =~= "="@);
        Some(Operator::Equal)
    } else if c == '>' {
        assert(seq![c] =~= ">"@);
        Some(Operator::Greater)
    } else if c == '<' {
        assert(seq![c] =~= "<"@);
        Some(Operator::Less)
    } else if c == '+' {
        assert(seq![c] =~= "+"@);
        Some(Operator::Plus)
    } else if c == '-' {
        assert(seq![c] =~= "-"@);
        Some(Operator::Minus)
    } else if c == '*' {
        assert(seq![c] =~= "*"@);
        Some(Operator::Star)
    } else if c == '/' {
        assert(seq![c] =~= "/"@);
        Some(Operator::Slash)
    } else {
        None
    }
}

/// A scanner over the characters of one source.
pub struct Lexer {
    chars: Vec<char>,
}

impl View for Lexer {
    type V = Seq<char>;

    closed spec fn view(&self) -> Seq<char> {
        self.chars@
    }
}

impl Lexer {
    #[verifier::type_invariant]
    spec fn bounded(self) -> bool {
        self.chars@.len() < usize::MAX
    }

    /// A scanner over `program`. Lines and columns are counted in `usize`,
    /// so the source has fewer characters than `usize` has values.
    pub fn new(program: &str) -> (lexer: Self)
        requires
            program@.len() < usize::MAX,
        ensures
            lexer@ == program@,
    {
        Lexer { chars: to_chars(program) }
    }

    /// Computes `run_end`.
    fn run_to(&self, i: usize, run: Run) -> (end: usize)
        requires
            i <= self.chars@.len(),
        ensures
            end == run_end(self.chars@, i as int, run),
            i <= end <= self.chars@.len(),
    {
        let mut end: usize = i;
        proof {
            lemma_run_end(self.chars@, i as int, run);
        }
        while end < self.chars.len() && run.admits(self.chars[end])
            invariant
                i <= end <= self.chars@.len(),
                run_end(self.chars@, i as int, run) == run_end(self.chars@, end as int, run),
            decreases self.chars@.len() - end,
        {
            end += 1;
        }
        end
    }

    /// Computes `lexeme`.
    fn lexeme(&self, i: usize) -> (found: (Piece, usize))
        requires
            i < self.chars@.len(),
        ensures
            (found.0@, found.1 as int) == lexeme(self.chars@, i as int),
            i < found.1 <= self.chars@.len(),
    {
        proof {
            use_type_invariant(self);
            lemma_lexeme(self.chars@, i as int);
        }
        let ghost s = self.chars@;
        let n = self.chars.len();
        let c = self.chars[i];
        if c == ' ' || c == '\r' || c == '\t' {
            return (Piece::Blank, i + 1);
        }
        if c == '\n' {
            return (Piece::Newline, i + 1);
        }
        if c == '/' && i + 1 < n && self.chars[i + 1] == '/' {
            return (Piece::Comment, self.run_to(i, Run::Line));
        }
        if i + 1 < n {
            assert(s.subrange(i as int, i + 2) =~= seq![s[i as int], s[i + 1]]);
            if let Some(op) = operator_pair(c, self.chars[i + 1]) {
                return (Piece::Token(TokenValue::Operator(op)), i + 2);
            }
        }
        assert(s.subrange(i as int, i + 1) =~= seq![s[i as int]]);
        if let Some(op) = operator_single(c) {
            return (Piece::Token(TokenValue::Operator(op)), i + 1);
        }
        if let Ok(p) = Punctuation::try_from(c) {
            return (Piece::Token(TokenValue::Punctuation(p)), i + 1);
        }
        if c == '"' {
            let end = self.run_to(i + 1, Run::Text);
            if end < n && self.chars[end] == '"' {
                let text = to_text(&self.chars, i + 1, end);
                return (Piece::Token(TokenValue::Literal(Literal::String(text))), end + 1);
            }
            return (Piece::Unterminated, end);
        }
        if Run::Digits.admits(c) {
            let end = self.run_to(i, Run::Digits);
            if end + 1 < n && self.chars[end] == '.' && Run::Digits.admits(self.chars[end + 1]) {
                return (Piece::Numeral, self.run_to(end + 1, Run::Digits));
            }
            return (Piece::Numeral, end);
        }
        if Run::Word.admits(c) {
            let end = self.run_to(i, Run::Word);
            let word = slice(&self.chars, i, end);
            return match Keyword::lookup(&word) {
                Some(keyword) => (Piece::Token(TokenValue::Keyword(keyword)), end),
                None => (
                    Piece::Token(
                        TokenValue::Literal(Literal::Identifier(to_text(&self.chars, i, end))),
                    ),
                    end,
                ),
            };
        }
        (Piece::Unknown, i + 1)
    }

    /// The lines of the source.
    fn lines(&self) -> (lines: Vec<String>)
        ensures
            text_views(lines@) == lines_from(self.chars@, 0),
    {
        let ghost s = self.chars@;
        let n = self.chars.len();
        let mut lines: Vec<String> = Vec::new();
        let mut i: usize = 0;
        assert(text_views(lines@) =~= Seq::<Seq<char>>::empty());
        while i < n
            invariant
                s == self.chars@,
                n == s.len(),
                i <= n,
                text_views(lines@) + lines_from(s, i as int) == lines_from(s, 0),
            decreases n - i,
        {
            let end = self.run_to(i, Run::Line);
            let stop = if i < end && end < n && self.chars[end - 1] == '\r' {
                end - 1
            } else {
                end
            };
            let ghost before = text_views(lines@);
            let line = to_text(&self.chars, i, stop);
            lines.push(line);
            assert(text_views(lines@) =~= before.push(line_text(s, i as int, end as int)));
            if end < n {
                assert(before + lines_from(s, i as int) =~= text_views(lines@) + lines_from(
                    s,
                    end + 1,
                ));
                i = end + 1;
            } else {
                assert(before + lines_from(s, i as int) =~= text_views(lines@) + lines_from(
                    s,
                    n as int,
                ));
                i = n;
            }
        }
        assert(text_views(lines@) + lines_from(s, i as int) =~= text_views(lines@));
        lines
    }

    /// The texts of the number literals of the source, in its order. The
    /// host converts each to a double and hands the results to `scan`.
    pub fn numerals(&self) -> (numerals: Vec<String>)
        ensures
            text_views(numerals@) == numerals_from(self@, 0),
    {
        let ghost s = self.chars@;
        let n = self.chars.len();
        let mut numerals: Vec<String> = Vec::new();
        let mut i: usize = 0;
        assert(text_views(numerals@) =~= Seq::<Seq<char>>::empty());
        while i < n
            invariant
                s == self.chars@,
                n == s.len(),
                i <= n,
                text_views(numerals@) + numerals_from(s, i as int) == numerals_from(s, 0),
            decreases n - i,
        {
            let (piece, end) = self.lexeme(i);
            let ghost before = text_views(numerals@);
            match piece {
                Piece::Numeral => {
                    let text = to_text(&self.chars, i, end);
                    numerals.push(text);
                    assert(text_views(numerals@) =~= before.push(s.subrange(i as int, end as int)));
                    assert(before + numerals_from(s, i as int) =~= text_views(numerals@)
                        + numerals_from(s, end as int));
                },
                _ => {},
            }
            i = end;
        }
        assert(text_views(numerals@) + numerals_from(s, i as int) =~= text_views(numerals@));
        numerals
    }

    /// Scans the source. `numbers` holds what the host made of the numerals
    /// that `numerals` returns, in the same order: the bits of the double,
    /// or `None` for a numeral that is no double.
    ///
    /// The tokens end with exactly one end-of-file token, which stands in
    /// column 1 of the line after the last line.
    pub fn scan(self, numbers: &Vec<Option<u64>>) -> (result: ScanResult)
        ensures
            result@ == scan(self@, numbers@),
            result@.tokens.len() >= 1,
            result@.tokens.last().value == TokenValueView::Eof,
            result@.tokens.last().loc.line == result@.lines.len() + 1,
            forall|k: int|
                0 <= k < result@.tokens.len() - 1 ==> (#[trigger] result@.tokens[k]).value
                    != TokenValueView::Eof,
    {
        proof {
            use_type_invariant(&self);
            lemma_scan_ends_with_eof(self.chars@, numbers@);
            lemma_lines_bound(self.chars@, 0);
        }
        let ghost s = self.chars@;
        let ghost given = numbers@;
        let ghost total = scan_from(s, given, 0, 1, 1, 0);
        let n = self.chars.len();
        let mut tokens: Vec<Token> = Vec::new();
        let mut errors: Vec<LexError> = Vec::new();
        let mut i: usize = 0;
        let mut line: usize = 1;
        let mut column: usize = 1;
        let mut seen: usize = 0;
        assert(token_views(tokens@) =~= Seq::<TokenView>::empty());
        assert(error_views(errors@) =~= Seq::<LexErrorView>::empty());
        while i < n
            invariant
                s == self.chars@,
                given == numbers@,
                n == s.len(),
                n < usize::MAX,
                i <= n,
                1 <= line <= i + 1,
                1 <= column <= i + 1,
                seen <= i,
                total == scan_from(s, given, 0, 1, 1, 0),
                token_views(tokens@) + scan_from(
                    s,
                    given,
                    i as int,
                    line as nat,
                    column as nat,
                    seen as nat,
                ).tokens == total.tokens,
                error_views(errors@) + scan_from(
                    s,
                    given,
                    i as int,
                    line as nat,
                    column as nat,
                    seen as nat,
                ).errors == total.errors,
            decreases n - i,
        {
            let (piece, end) = self.lexeme(i);
            let loc = Location { line, column };
            let ghost had_tokens = token_views(tokens@);
            let ghost had_errors = error_views(errors@);
            let ghost now = scan_from(s, given, i as int, line as nat, column as nat, seen as nat);
            let ghost width = (end - i) as nat;
            let ghost rest = match piece@ {
                Lexeme::Newline => scan_from(s, given, end as int, (line + 1) as nat, 1, seen as nat),
                Lexeme::Numeral => scan_from(
                    s,
                    given,
                    end as int,
                    line as nat,
                    column as nat + width,
                    (seen + 1) as nat,
                ),
                _ => scan_from(s, given, end as int, line as nat, column as nat + width, seen as nat),
            };
            assert(loc == place(line as nat, column as nat));
            let newline = match piece {
                Piece::Newline => true,
                Piece::Blank => false,
                Piece::Comment => false,
                Piece::Token(value) => {
                    let token = Token { value, loc };
                    proof {
                        lemma_token_pushed(tokens@, token);
                    }
                    tokens.push(token);
                    assert(now.tokens == seq![token@] + rest.tokens);
                    assert(had_tokens + now.tokens =~= token_views(tokens@) + rest.tokens);
                    false
                },
                Piece::Numeral => {
                    let converted = if seen < numbers.len() {
                        numbers[seen]
                    } else {
                        None
                    };
                    match converted {
                        Some(bits) => {
                            let token = Token {
                                value: TokenValue::Literal(Literal::Number(bits)),
                                loc,
                            };
                            proof {
                                lemma_token_pushed(tokens@, token);
                            }
                            tokens.push(token);
                            assert(now.tokens == seq![token@] + rest.tokens);
                            assert(had_tokens + now.tokens =~= token_views(tokens@) + rest.tokens);
                        },
                        None => {
                            let error = LexError::UnableToParseNumber(
                                loc,
                                to_text(&self.chars, i, end),
                            );
                            proof {
                                lemma_error_pushed(errors@, error);
                            }
                            errors.push(error);
                            assert(now.errors == seq![error@] + rest.errors);
                            assert(had_errors + now.errors =~= error_views(errors@) + rest.errors);
                        },
                    }
                    seen += 1;
                    false
                },
                Piece::Unterminated => {
                    let error = LexError::UnterminatedString(loc);
                    proof {
                        lemma_error_pushed(errors@, error);
                    }
                    errors.push(error);
                    assert(now.errors == seq![error@] + rest.errors);
                    assert(had_errors + now.errors =~= error_views(errors@) + rest.errors);
                    false
                },
                Piece::Unknown => {
                    let stop = self.run_to(i, Run::Line);
                    let context = to_text(&self.chars, i, stop);
                    let error = LexError::UnknownToken(loc, self.chars[i], context);
                    proof {
                        lemma_error_pushed(errors@, error);
                    }
                    errors.push(error);
                    assert(now.errors == seq![error@] + rest.errors);
                    assert(had_errors + now.errors =~= error_views(errors@) + rest.errors);
                    false
                },
            };
            if newline {
                line += 1;
                column = 1;
            } else {
                column += end - i;
            }
            i = end;
        }
        let lines = self.lines();
        let ghost inner = token_views(tokens@);
        assert(inner + Seq::<TokenView>::empty() =~= inner);
        assert(error_views(errors@) + Seq::<LexErrorView>::empty() =~= error_views(errors@));
        assert(lines@.len() == text_views(lines@).len());
        let eof = Token {
            value: TokenValue::Eof,
            loc: Location { line: lines.len() + 1, column: 1 },
        };
        tokens.push(eof);
        assert(token_views(tokens@) =~= inner.push(eof@));
        ScanResult { lines, tokens, errors }
    }
}

} // verus!
