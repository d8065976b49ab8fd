//! The scanner: source text to tokens.
//!
//! The scanner reads the text once, from left to right. It never stops at an
//! error: a character that starts no lexeme and a string without its closing
//! quote are recorded, and scanning goes on.
//!
//! A `Number` token leaves the scanner without a payload: its lexeme is the
//! numeral, and giving it a value is floating-point work that the scanner
//! does not do.

use vstd::prelude::*;
use vstd::std_specs::iter::IteratorSpec;
use crate::token::{Literal, LiteralView, Token, TokenKind, TokenView, keyword, keyword_kind, views};

verus! {

/// `String::push` of the standard library appends the character to the
/// string: the string's characters are then the old ones and, after them,
/// the new one.
pub assume_specification[ std::string::String::push ](target: &mut std::string::String, ch: char)
    ensures
        final(target)@ == old(target)@.push(ch),
;

/// What the scanner can find wrong with the text.
#[derive(Clone, Copy, Debug, PartialEq, Eq, Structural)]
pub enum ScanErrorKind {
    UnexpectedCharacter,
    UnterminatedString,
}

/// A fault in the text and the line on which it was found.
#[derive(Clone, Copy, Debug, PartialEq, Eq, Structural)]
pub struct ScanError {
    pub kind: ScanErrorKind,
    pub line: usize,
}

/// What is wrong, in words.
pub open spec fn fault_text(kind: ScanErrorKind) -> Seq<char> {
    match kind {
        ScanErrorKind::UnexpectedCharacter => "Unexpected character"@,
        ScanErrorKind::UnterminatedString => "Unterminated string."@,
    }
}

impl ScanError {
    /// What is wrong, in words.
    pub fn message(&self) -> (text: &'static str)
        ensures
            text@ == fault_text(self.kind),
    {
        match self.kind {
            ScanErrorKind::UnexpectedCharacter => "Unexpected character",
            ScanErrorKind::UnterminatedString => "Unterminated string.",
        }
    }
}

/// The runs of characters that the scanner skips over in one go.
#[derive(Clone, Copy, Debug, PartialEq, Eq, Structural)]
pub enum Run {
    /// Decimal digits.
    Digits,
    /// Letters, digits and underscores.
    Word,
    /// Everything up to the end of the line.
    Comment,
    /// Everything up to the next double quote.
    Quoted,
}

pub open spec fn is_digit(c: char) -> bool {
    '0' <= c && c <= '9'
}

pub open spec fn is_alpha(c: char) -> bool {
    ('a' <= c && c <= 'z') || ('A' <= c && c <= 'Z') || c == '_'
}

pub open spec fn is_alpha_numeric(c: char) -> bool {
    is_alpha(c) || is_digit(c)
}

/// Whether `c` continues a run of the given kind.
pub open spec fn continues(run: Run, c: char) -> bool {
    match run {
        Run::Digits => is_digit(c),
        Run::Word => is_alpha_numeric(c),
        Run::Comment => c != '\n',
        Run::Quoted => c != '"',
    }
}

/// The first position at or after `from` whose character does not continue
/// the run, or the length of the text if there is none.
pub open spec fn run_end(source: Seq<char>, from: int, run: Run) -> int
    decreases source.len() - from,
{
    if 0 <= from < source.len() && continues(run, source[from]) {
        run_end(source, from + 1, run)
    } else {
        from
    }
}

/// The number of line breaks in `source[from..to]`.
pub open spec fn newlines(source: Seq<char>, from: int, to: int) -> int
    decreases to - from,
{
    if from < to && 0 < to <= source.len() {
        newlines(source, from, to - 1) + if source[to - 1] == '\n' {
            1int
        } else {
            0int
        }
    } else {
        0
    }
}

/// What scanning one lexeme yields: at most one token, at most one error,
/// the position after the lexeme and the line reached.
pub struct Step {
    pub token: Option<TokenView>,
    pub error: Option<ScanError>,
    pub next: int,
    pub line: int,
}

/// A step that consumes `source[start..end]` and yields nothing.
pub open spec fn skipped(end: int, line: int) -> Step {
    Step { token: None, error: None, next: end, line }
}

/// A step that yields a token of `kind` for `source[start..end]`, whose
/// payload is the lexeme itself.
pub open spec fn lexeme_token(source: Seq<char>, start: int, end: int, line: int, kind: TokenKind) -> Step {
    Step {
        token: Some(
            TokenView {
                kind,
                lexeme: source.subrange(start, end),
                literal: LiteralView::String(source.subrange(start, end)),
                line: line as usize,
            },
        ),
        error: None,
        next: end,
        line,
    }
}

/// A one-character operator, or the two-character one it forms with a
/// following `=`.
pub open spec fn operator_token(
    source: Seq<char>,
    start: int,
    line: int,
    alone: TokenKind,
    with_equal: TokenKind,
) -> Step {
    if start + 1 < source.len() && source[start + 1] == '=' {
        lexeme_token(source, start, start + 2, line, with_equal)
    } else {
        lexeme_token(source, start, start + 1, line, alone)
    }
}

/// A string literal that opens at `start`: it runs to the next double quote,
/// line breaks included. Without a closing quote the rest of the text is
/// consumed and an error is recorded on the last line.
pub open spec fn string_step(source: Seq<char>, start: int, line: int) -> Step {
    let close = run_end(source, start + 1, Run::Quoted);
    let last_line = line + newlines(source, start + 1, close);
    if close >= source.len() {
        Step {
            token: None,
            error: Some(ScanError { kind: ScanErrorKind::UnterminatedString, line: last_line as usize }),
            next: close,
            line: last_line,
        }
    } else {
        Step {
            token: Some(
                TokenView {
                    kind: TokenKind::String,
                    lexeme: source.subrange(start, close + 1),
                    literal: LiteralView::String(source.subrange(start + 1, close)),
                    line: last_line as usize,
                },
            ),
            error: None,
            next: close + 1,
            line: last_line,
        }
    }
}

/// Where the numeral that starts at `start` ends: after its digits, and after
/// a fraction if a dot and at least one digit follow them.
pub open spec fn numeral_end(source: Seq<char>, start: int) -> int {
    let whole = run_end(source, start + 1, Run::Digits);
    if whole + 1 < source.len() && source[whole] == '.' && is_digit(source[whole + 1]) {
        run_end(source, whole + 1, Run::Digits)
    } else {
        whole
    }
}

/// A numeral: the token has no payload yet.
pub open spec fn number_step(source: Seq<char>, start: int, line: int) -> Step {
    let end = numeral_end(source, start);
    Step {
        token: Some(
            TokenView {
                kind: TokenKind::Number,
                lexeme: source.subrange(start, end),
                literal: LiteralView::Nil,
                line: line as usize,
            },
        ),
        error: None,
        next: end,
        line,
    }
}

/// An identifier or a reserved word.
pub open spec fn word_step(source: Seq<char>, start: int, line: int) -> Step {
    let end = run_end(source, start + 1, Run::Word);
    let kind = match keyword_kind(source.subrange(start, end)) {
        Some(kind) => kind,
        None => TokenKind::Identifier,
    };
    lexeme_token(source, start, end, line, kind)
}

/// The lexeme that starts at `start`, on line `line`.
pub open spec fn scan_one(source: Seq<char>, start: int, line: int) -> Step
    recommends
        0 <= start < source.len(),
{
    let c = source[start];
    if c == '(' {
        lexeme_token(source, start, start + 1, line, TokenKind::LeftParen)
    } else if c == ')' {
        lexeme_token(source, start, start + 1, line, TokenKind::RightParen)
    } else if c == '{' {
        lexeme_token(source, start, start + 1, line, TokenKind::LeftBrace)
    } else if c == '}' {
        lexeme_token(source, start, start + 1, line, TokenKind::RightBrace)
    } else if c == ',' {
        lexeme_token(source, start, start + 1, line, TokenKind::Comma)
    } else if c == '.' {
        lexeme_token(source, start, start + 1, line, TokenKind::Dot)
    } else if c == '-' {
        lexeme_token(source, start, start + 1, line, TokenKind::Minus)
    } else if c == '+' {
        lexeme_token(source, start, start + 1, line, TokenKind::Plus)
    } else if c == ';' {
        lexeme_token(source, start, start + 1, line, TokenKind::Semicolon)
    } else if c == '*' {
        lexeme_token(source, start, start + 1, line, TokenKind::Star)
    } else if c == '!' {
        operator_token(source, start, line, TokenKind::Bang, TokenKind::BangEqual)
    } else if c == '=' {
        operator_token(source, start, line, TokenKind::Equal, TokenKind::EqualEqual)
    } else if c == '<' {
        operator_token(source, start, line, TokenKind::Less, TokenKind::LessEqual)
    } else if c == '>' {
        operator_token(source, start, line, TokenKind::Greater, TokenKind::GreaterEqual)
    } else if c == '/' {
        if start + 1 < source.len() && source[start + 1] == '/' {
            skipped(run_end(source, start + 1, Run::Comment), line)
        } else {
            lexeme_token(source, start, start + 1, line, TokenKind::Slash)
        }
    } else if c == ' ' || c == '\r' || c == '\t' {
        skipped(start + 1, line)
    } else if c == '\n' {
        skipped(start + 1, line + 1)
    } else if c == '"' {
        string_step(source, start, line)
    } else if is_digit(c) {
        number_step(source, start, line)
    } else if is_alpha(c) {
        word_step(source, start, line)
    } else {
        Step {
            token: None,
            error: Some(ScanError { kind: ScanErrorKind::UnexpectedCharacter, line: line as usize }),
            next: start + 1,
            line,
        }
    }
}

/// The sequence that holds `item` if there is one, and nothing otherwise.
pub open spec fn optional<T>(item: Option<T>) -> Seq<T> {
    match item {
        Some(x) => seq![x],
        None => Seq::empty(),
    }
}

/// What scanning a stretch of text yields.
pub struct Scan {
    pub tokens: Seq<TokenView>,
    pub errors: Seq<ScanError>,
    pub line: int,
}

/// The tokens and errors of `source[start..]`, scanning from line `line`, and
/// the line on which the text ends.
pub open spec fn scan_from(source: Seq<char>, start: int, line: int) -> Scan
    decreases source.len() - start,
{
    if 0 <= start < source.len() {
        let step = scan_one(source, start, line);
        if start < step.next <= source.len() {
            let rest = scan_from(source, step.next, step.line);
            Scan {
                tokens: optional(step.token) + rest.tokens,
                errors: optional(step.error) + rest.errors,
                line: rest.line,
            }
        } else {
            Scan { tokens: Seq::empty(), errors: Seq::empty(), line }
        }
    } else {
        Scan { tokens: Seq::empty(), errors: Seq::empty(), line }
    }
}

/// The token that ends every token sequence.
pub open spec fn end_token(line: int) -> TokenView {
    TokenView { kind: TokenKind::Eof, lexeme: Seq::empty(), literal: LiteralView::Nil, line: line as usize }
}

/// The tokens of a text: those of its lexemes, and the end token with the
/// last line.
pub open spec fn scanned(source: Seq<char>) -> Seq<TokenView> {
    scan_from(source, 0, 1).tokens.push(end_token(scan_from(source, 0, 1).line))
}

/// The faults of a text.
pub open spec fn faults(source: Seq<char>) -> Seq<ScanError> {
    scan_from(source, 0, 1).errors
}

/// The numerals among the tokens, in order.
pub open spec fn numerals(tokens: Seq<TokenView>) -> Seq<Seq<char>>
    decreases tokens.len(),
{
    if tokens.len() == 0 {
        Seq::empty()
    } else if tokens.last().kind == TokenKind::Number {
        numerals(tokens.drop_last()).push(tokens.last().lexeme)
    } else {
        numerals(tokens.drop_last())
    }
}

/// The tokens with the values of their numerals: the first number token
/// carries the first of `values`, the second the second, and so on as far
/// as the values go.
pub open spec fn valued(tokens: Seq<TokenView>, values: Seq<u64>) -> Seq<TokenView>
    decreases tokens.len(),
{
    if tokens.len() == 0 {
        Seq::empty()
    } else {
        let last = tokens.last();
        let nth = numerals(tokens.drop_last()).len();
        valued(tokens.drop_last(), values).push(
            if last.kind == TokenKind::Number && nth < values.len() {
                TokenView { literal: LiteralView::Number(values[nth as int]), ..last }
            } else {
                last
            },
        )
    }
}

/// Every lexeme is at least one character long and ends inside the text.
pub proof fn lemma_scan_one_advances(source: Seq<char>, start: int, line: int)
    requires
        0 <= start < source.len(),
    ensures
        start < scan_one(source, start, line).next <= source.len(),
        line <= scan_one(source, start, line).line,
        scan_one(source, start, line).line - line <= scan_one(source, start, line).next - start,
{
    lemma_run_end_bounds(source, start + 1, Run::Comment);
    lemma_run_end_bounds(source, start + 1, Run::Quoted);
    lemma_run_end_bounds(source, start + 1, Run::Word);
    lemma_run_end_bounds(source, start + 1, Run::Digits);
    let whole = run_end(source, start + 1, Run::Digits);
    if whole + 1 <= source.len() {
        lemma_run_end_bounds(source, whole + 1, Run::Digits);
    }
    let close = run_end(source, start + 1, Run::Quoted);
    lemma_newlines_bounds(source, start + 1, close);
}

/// A run ends at or after the place where it starts, inside the text.
pub proof fn lemma_run_end_bounds(source: Seq<char>, from: int, run: Run)
    requires
        0 <= from <= source.len(),
    ensures
        from <= run_end(source, from, run) <= source.len(),
        forall|k: int| from <= k < run_end(source, from, run) ==> continues(run, #[trigger] source[k]),
        run_end(source, from, run) < source.len() ==> !continues(
            run,
            source[run_end(source, from, run)],
        ),
    decreases source.len() - from,
{
    if from < source.len() && continues(run, source[from]) {
        lemma_run_end_bounds(source, from + 1, run);
    }
}

/// A stretch whose characters all continue the run, and which the text's end
/// or another character follows, is the run.
pub proof fn lemma_run_end_is(source: Seq<char>, from: int, end: int, run: Run)
    requires
        0 <= from <= end <= source.len(),
        forall|k: int| from <= k < end ==> continues(run, #[trigger] source[k]),
        end < source.len() ==> !continues(run, source[end]),
    ensures
        run_end(source, from, run) == end,
    decreases end - from,
{
    if from < end {
        lemma_run_end_is(source, from + 1, end, run);
    }
}

/// There are no more line breaks in a stretch than characters.
pub proof fn lemma_newlines_bounds(source: Seq<char>, from: int, to: int)
    requires
        0 <= from <= to <= source.len(),
    ensures
        0 <= newlines(source, from, to) <= to - from,
    decreases to - from,
{
    if from < to {
        lemma_newlines_bounds(source, from, to - 1);
    }
}

/// The scanner's state: the text, the position reached in it, and what has
/// been found so far.
pub struct Scanner {
    source: Vec<char>,
    tokens: Vec<Token>,
    errors: Vec<ScanError>,
    current: usize,
    line: usize,
}

impl Scanner {
    /// The position is inside the text or at its end, and the line counter
    /// has room for every line break that may still come.
    pub closed spec fn wf(&self) -> bool {
        &&& self.current <= self.source@.len() <= usize::MAX
        &&& 1 <= self.line
        &&& self.line + (self.source@.len() - self.current) <= usize::MAX
    }

    /// The text being scanned.
    pub closed spec fn source(&self) -> Seq<char> {
        self.source@
    }

    /// The tokens found so far.
    pub closed spec fn found(&self) -> Seq<TokenView> {
        views(self.tokens@)
    }

    /// The errors found so far.
    pub closed spec fn faults(&self) -> Seq<ScanError> {
        self.errors@
    }

    /// The position that the scanner has reached.
    pub closed spec fn position(&self) -> int {
        self.current as int
    }

    /// The line that the scanner has reached.
    pub closed spec fn line(&self) -> int {
        self.line as int
    }

    /// A scanner at the start of `source`, on line 1, with nothing found.
    pub fn new(source: &str) -> (scanner: Scanner)
        requires
            source@.len() < usize::MAX,
        ensures
            scanner.wf(),
            scanner.source() == source@,
            scanner.found() == Seq::<TokenView>::empty(),
            scanner.faults() == Seq::<ScanError>::empty(),
            scanner.position() == 0,
            scanner.line() == 1,
    {
        let mut chars: Vec<char> = Vec::new();
        let n = source.unicode_len();
        let mut rest = source.chars();
        let mut i: usize = 0;
        while i < n
            invariant
                n == source@.len(),
                i <= n,
                i == chars@.len(),
                chars@ + rest.remaining() == source@,
                rest.obeys_prophetic_iter_laws(),
            decreases n - i,
        {
            match rest.next() {
                Some(c) => {
                    chars.push(c);
                },
                None => {},
            }
            i += 1;
        }
        assert(chars@ =~= source@);
        let scanner = Scanner { source: chars, tokens: Vec::new(), errors: Vec::new(), current: 0, line: 1 };
        assert(views(scanner.tokens@) =~= Seq::<TokenView>::empty());
        scanner
    }

    /// Scans the rest of the text and ends the token sequence: the tokens of
    /// the text from the position reached are added to those found so far,
    /// then the end token with the last line. Errors are added likewise.
    pub fn scan_tokens(&mut self) -> (tokens: &Vec<Token>)
        requires
            old(self).wf(),
        ensures
            final(self).wf(),
            final(self).source() == old(self).source(),
            final(self).position() == old(self).source().len(),
            final(self).found() == old(self).found() + scan_from(
                old(self).source(),
                old(self).position(),
                old(self).line(),
            ).tokens.push(end_token(final(self).line())),
            final(self).faults() == old(self).faults() + scan_from(
                old(self).source(),
                old(self).position(),
                old(self).line(),
            ).errors,
            final(self).line() == scan_from(old(self).source(), old(self).position(), old(self).line()).line,
            views(tokens@) == final(self).found(),
    {
        let ghost whole = scan_from(self.source@, self.current as int, self.line as int);
        let ghost tokens0 = views(self.tokens@);
        let ghost errors0 = self.errors@;
        while !self.is_at_end()
            invariant
                self.wf(),
                self.source == old(self).source,
                views(self.tokens@) + scan_from(self.source@, self.current as int, self.line as int).tokens
                    == tokens0 + whole.tokens,
                self.errors@ + scan_from(self.source@, self.current as int, self.line as int).errors
                    == errors0 + whole.errors,
                scan_from(self.source@, self.current as int, self.line as int).line == whole.line,
            decreases self.source@.len() - self.current,
        {
            let ghost before = *self;
            let ghost step = scan_one(self.source@, self.current as int, self.line as int);
            proof {
                lemma_scan_one_advances(self.source@, self.current as int, self.line as int);
            }
            self.scan_token();
            proof {
                let rest = scan_from(self.source@, self.current as int, self.line as int);
                assert((views(before.tokens@) + optional(step.token)) + rest.tokens =~= views(before.tokens@) + (
                optional(step.token) + rest.tokens));
                assert((before.errors@ + optional(step.error)) + rest.errors =~= before.errors@ + (optional(
                    step.error,
                ) + rest.errors));
            }
        }
        let end = Token { kind: TokenKind::Eof, lexeme: String::new(), literal: Literal::Nil, line: self.line };
        proof {
            assert(end@ == end_token(self.line as int));
            assert(views(self.tokens@.push(end)) =~= views(self.tokens@).push(end@));
            assert(views(self.tokens@).push(end@) =~= tokens0 + whole.tokens.push(end@));
            assert(self.errors@ =~= errors0 + whole.errors);
        }
        self.tokens.push(end);
        &self.tokens
    }

    /// The errors found so far.
    pub fn errors(&self) -> (errors: &Vec<ScanError>)
        ensures
            errors@ == self.faults(),
    {
        &self.errors
    }

    /// Scans the lexeme at the position reached.
    fn scan_token(&mut self)
        requires
            old(self).wf(),
            old(self).current < old(self).source@.len(),
        ensures
            final(self).wf(),
            final(self).source == old(self).source,
            final(self).current == scan_one(old(self).source@, old(self).current as int, old(self).line as int).next,
            final(self).line == scan_one(old(self).source@, old(self).current as int, old(self).line as int).line,
            views(final(self).tokens@) == views(old(self).tokens@) + optional(
                scan_one(old(self).source@, old(self).current as int, old(self).line as int).token,
            ),
            final(self).errors@ == old(self).errors@ + optional(
                scan_one(old(self).source@, old(self).current as int, old(self).line as int).error,
            ),
    {
        let start = self.current;
        proof {
            lemma_scan_one_advances(self.source@, start as int, self.line as int);
            assert(views(self.tokens@) + Seq::<TokenView>::empty() =~= views(self.tokens@));
            assert(self.errors@ + Seq::<ScanError>::empty() =~= self.errors@);
        }
        let c = self.advance();
        match c {
            '(' => self.add_token(start, TokenKind::LeftParen),
            ')' => self.add_token(start, TokenKind::RightParen),
            '{' => self.add_token(start, TokenKind::LeftBrace),
            '}' => self.add_token(start, TokenKind::RightBrace),
            ',' => self.add_token(start, TokenKind::Comma),
            '.' => self.add_token(start, TokenKind::Dot),
            '-' => self.add_token(start, TokenKind::Minus),
            '+' => self.add_token(start, TokenKind::Plus),
            ';' => self.add_token(start, TokenKind::Semicolon),
            '*' => self.add_token(start, TokenKind::Star),
            '!' => {
                let kind = if self.char_match('=') {
                    self.advance();
                    TokenKind::BangEqual
                } else {
                    TokenKind::Bang
                };
                self.add_token(start, kind);
            },
            '=' => {
                let kind = if self.char_match('=') {
                    self.advance();
                    TokenKind::EqualEqual
                } else {
                    TokenKind::Equal
                };
                self.add_token(start, kind);
            },
            '<' => {
                let kind = if self.char_match('=') {
                    self.advance();
                    TokenKind::LessEqual
                } else {
                    TokenKind::Less
                };
                self.add_token(start, kind);
            },
            '>' => {
                let kind = if self.char_match('=') {
                    self.advance();
                    TokenKind::GreaterEqual
                } else {
                    TokenKind::Greater
                };
                self.add_token(start, kind);
            },
            '/' => {
                if self.char_match('/') {
                    self.skip(Run::Comment);
                } else {
                    self.add_token(start, TokenKind::Slash);
                }
            },
            ' ' | '\r' | '\t' => {},
            '\n' => {
                self.line += 1;
            },
            '"' => self.string(start),
            _ => {
                if Self::is_digit(c) {
                    self.number(start);
                } else if Self::is_alpha(c) {
                    self.identifier(start);
                } else {
                    self.errors.push(ScanError { kind: ScanErrorKind::UnexpectedCharacter, line: self.line });
                    proof {
                        let e = ScanError { kind: ScanErrorKind::UnexpectedCharacter, line: old(self).line };
                        assert(old(self).errors@.push(e) =~= old(self).errors@ + seq![e]);
                    }
                }
            },
        }
    }

    /// Consumes the character at the position reached and returns it.
    fn advance(&mut self) -> (c: char)
        requires
            old(self).wf(),
            old(self).current < old(self).source@.len(),
        ensures
            c == old(self).source@[old(self).current as int],
            final(self).current == old(self).current + 1,
            final(self).source == old(self).source,
            final(self).tokens == old(self).tokens,
            final(self).errors == old(self).errors,
            final(self).line == old(self).line,
            final(self).current <= final(self).source@.len(),
    {
        let c = self.source[self.current];
        self.current += 1;
        c
    }

    /// Adds a token of `kind` for the text between `start` and the position
    /// reached, with that text as its payload.
    fn add_token(&mut self, start: usize, kind: TokenKind)
        requires
            start <= old(self).current <= old(self).source@.len(),
        ensures
            final(self).source == old(self).source,
            final(self).current == old(self).current,
            final(self).line == old(self).line,
            final(self).errors == old(self).errors,
            views(final(self).tokens@) == views(old(self).tokens@) + optional(
                lexeme_token(
                    old(self).source@,
                    start as int,
                    old(self).current as int,
                    old(self).line as int,
                    kind,
                ).token,
            ),
    {
        let lexeme = self.text(start, self.current);
        let token = Token { kind, literal: Literal::String(lexeme.clone()), lexeme, line: self.line };
        proof {
            assert(views(self.tokens@.push(token)) =~= views(self.tokens@) + seq![token@]);
        }
        self.tokens.push(token);
    }

    /// The text between two positions.
    fn text(&self, from: usize, to: usize) -> (text: String)
        requires
            from <= to <= self.source@.len(),
        ensures
            text@ == self.source@.subrange(from as int, to as int),
    {
        let mut text = String::new();
        let mut i: usize = from;
        while i < to
            invariant
                from <= i <= to <= self.source@.len(),
                text@ == self.source@.subrange(from as int, i as int),
            decreases to - i,
        {
            text.push(self.source[i]);
            proof {
                assert(self.source@.subrange(from as int, i + 1) =~= self.source@.subrange(
                    from as int,
                    i as int,
                ).push(self.source@[i as int]));
            }
            i += 1;
        }
        text
    }

    fn is_at_end(&self) -> (at_end: bool)
        ensures
            at_end == (self.current >= self.source@.len()),
    {
        self.current >= self.source.len()
    }

    /// Whether the character at the position reached is `expected`.
    fn char_match(&self, expected: char) -> (same: bool)
        ensures
            same == (self.current < self.source@.len() && self.source@[self.current as int] == expected),
    {
        if self.is_at_end() {
            return false;
        }
        self.source[self.current] == expected
    }

    /// The character at the position reached.
    fn peek(&self) -> (c: char)
        requires
            self.current < self.source@.len(),
        ensures
            c == self.source@[self.current as int],
    {
        self.source[self.current]
    }

    /// The character after the one at the position reached, if there is one.
    fn peek_next(&self) -> (c: Option<char>)
        requires
            self.wf(),
            self.current < self.source@.len(),
        ensures
            c == if self.current + 1 < self.source@.len() {
                Some(self.source@[self.current + 1])
            } else {
                None
            },
    {
        if self.current + 1 < self.source.len() {
            Some(self.source[self.current + 1])
        } else {
            None
        }
    }

    /// Consumes the run of the given kind that starts at the position
    /// reached, counting its line breaks.
    fn skip(&mut self, run: Run)
        requires
            old(self).wf(),
        ensures
            final(self).wf(),
            final(self).source == old(self).source,
            final(self).tokens == old(self).tokens,
            final(self).errors == old(self).errors,
            final(self).current == run_end(old(self).source@, old(self).current as int, run),
            final(self).line == old(self).line + newlines(
                old(self).source@,
                old(self).current as int,
                final(self).current as int,
            ),
            run != Run::Quoted ==> final(self).line == old(self).line,
            old(self).current <= final(self).current,
    {
        while !self.is_at_end() && Self::continues(run, self.peek())
            invariant
                self.wf(),
                self.source == old(self).source,
                self.tokens == old(self).tokens,
                self.errors == old(self).errors,
                old(self).current <= self.current,
                forall|k: int| old(self).current <= k < self.current ==> continues(run, #[trigger] self.source@[k]),
                self.line == old(self).line + newlines(self.source@, old(self).current as int, self.current as int),
                run != Run::Quoted ==> self.line == old(self).line,
            decreases self.source@.len() - self.current,
        {
            if self.peek() == '\n' {
                self.line += 1;
            }
            self.current += 1;
        }
        proof {
            lemma_run_end_is(self.source@, old(self).current as int, self.current as int, run);
        }
    }

    /// Scans a string literal whose opening quote, at `start`, has been
    /// consumed.
    fn string(&mut self, start: usize)
        requires
            old(self).wf(),
            old(self).current == start + 1,
        ensures
            final(self).wf(),
            final(self).source == old(self).source,
            final(self).current == string_step(old(self).source@, start as int, old(self).line as int).next,
            final(self).line == string_step(old(self).source@, start as int, old(self).line as int).line,
            views(final(self).tokens@) == views(old(self).tokens@) + optional(
                string_step(old(self).source@, start as int, old(self).line as int).token,
            ),
            final(self).errors@ == old(self).errors@ + optional(
                string_step(old(self).source@, start as int, old(self).line as int).error,
            ),
    {
        self.skip(Run::Quoted);
        proof {
            lemma_newlines_bounds(self.source@, start + 1, self.current as int);
        }
        if self.is_at_end() {
            let error = ScanError { kind: ScanErrorKind::UnterminatedString, line: self.line };
            proof {
                assert(self.errors@.push(error) =~= self.errors@ + seq![error]);
                assert(views(self.tokens@) + Seq::<TokenView>::empty() =~= views(self.tokens@));
            }
            self.errors.push(error);
            return ;
        }
        self.advance();
        let lexeme = self.text(start, self.current);
        let value = self.text(start + 1, self.current - 1);
        let token = Token { kind: TokenKind::String, lexeme, literal: Literal::String(value), line: self.line };
        proof {
            assert(views(self.tokens@.push(token)) =~= views(self.tokens@) + seq![token@]);
            assert(self.errors@ + Seq::<ScanError>::empty() =~= self.errors@);
        }
        self.tokens.push(token);
    }

    fn is_digit(c: char) -> (digit: bool)
        ensures
            digit == is_digit(c),
    {
        '0' <= c && c <= '9'
    }

    fn is_alpha(c: char) -> (alpha: bool)
        ensures
            alpha == is_alpha(c),
    {
        ('a' <= c && c <= 'z') || ('A' <= c && c <= 'Z') || c == '_'
    }

    fn is_alpha_numeric(c: char) -> (either: bool)
        ensures
            either == is_alpha_numeric(c),
    {
        Self::is_alpha(c) || Self::is_digit(c)
    }

    fn continues(run: Run, c: char) -> (more: bool)
        ensures
            more == continues(run, c),
    {
        match run {
            Run::Digits => Self::is_digit(c),
            Run::Word => Self::is_alpha_numeric(c),
            Run::Comment => c != '\n',
            Run::Quoted => c != '"',
        }
    }

    /// Scans a numeral whose first digit, at `start`, has been consumed.
    fn number(&mut self, start: usize)
        requires
            old(self).wf(),
            old(self).current == start + 1,
        ensures
            final(self).wf(),
            final(self).source == old(self).source,
            final(self).current == number_step(old(self).source@, start as int, old(self).line as int).next,
            final(self).line == old(self).line,
            views(final(self).tokens@) == views(old(self).tokens@) + optional(
                number_step(old(self).source@, start as int, old(self).line as int).token,
            ),
            final(self).errors == old(self).errors,
    {
        self.skip(Run::Digits);
        if !self.is_at_end() && self.peek() == '.' {
            let digit_follows = match self.peek_next() {
                Some(c) => Self::is_digit(c),
                None => false,
            };
            if digit_follows {
                self.advance();
                self.skip(Run::Digits);
            }
        }
        let lexeme = self.text(start, self.current);
        let token = Token { kind: TokenKind::Number, lexeme, literal: Literal::Nil, line: self.line };
        proof {
            assert(views(self.tokens@.push(token)) =~= views(self.tokens@) + seq![token@]);
        }
        self.tokens.push(token);
    }

    /// Scans an identifier or a reserved word whose first character, at
    /// `start`, has been consumed.
    fn identifier(&mut self, start: usize)
        requires
            old(self).wf(),
            old(self).current == start + 1,
        ensures
            final(self).wf(),
            final(self).source == old(self).source,
            final(self).current == word_step(old(self).source@, start as int, old(self).line as int).next,
            final(self).line == old(self).line,
            views(final(self).tokens@) == views(old(self).tokens@) + optional(
                word_step(old(self).source@, start as int, old(self).line as int).token,
            ),
            final(self).errors == old(self).errors,
    {
        self.skip(Run::Word);
        let mut word: Vec<char> = Vec::new();
        let mut i: usize = start;
        while i < self.current
            invariant
                start <= i <= self.current <= self.source@.len(),
                word@ == self.source@.subrange(start as int, i as int),
            decreases self.current - i,
        {
            word.push(self.source[i]);
            proof {
                assert(self.source@.subrange(start as int, i + 1) =~= self.source@.subrange(
                    start as int,
                    i as int,
                ).push(self.source@[i as int]));
            }
            i += 1;
        }
        match keyword(&word) {
            Some(kind) => self.add_token(start, kind),
            None => self.add_token(start, TokenKind::Identifier),
        }
    }
}

/// Scans a text from its start to its end.
pub fn scan(source: &str) -> (found: (Vec<Token>, Vec<ScanError>))
    requires
        source@.len() < usize::MAX,
    ensures
        views(found.0@) == scanned(source@),
        found.1@ == faults(source@),
{
    let mut scanner = Scanner::new(source);
    scanner.scan_tokens();
    proof {
        assert(Seq::<TokenView>::empty() + scanned(source@) =~= scanned(source@));
        assert(Seq::<ScanError>::empty() + faults(source@) =~= faults(source@));
    }
    (scanner.tokens, scanner.errors)
}

/// The lexemes of the numerals among the tokens, in order.
pub fn numerals_of(tokens: &Vec<Token>) -> (lexemes: Vec<String>)
    ensures
        lexemes@.len() == numerals(views(tokens@)).len(),
        forall|k: int| 0 <= k < lexemes@.len() ==> (#[trigger] lexemes@[k])@ == numerals(views(tokens@))[k],
{
    let mut lexemes: Vec<String> = Vec::new();
    let mut i: usize = 0;
    assert(views(tokens@).subrange(0, 0) =~= Seq::empty());
    while i < tokens.len()
        invariant
            i <= tokens@.len(),
            lexemes@.len() == numerals(views(tokens@).subrange(0, i as int)).len(),
            forall|k: int|
                0 <= k < lexemes@.len() ==> (#[trigger] lexemes@[k])@ == numerals(
                    views(tokens@).subrange(0, i as int),
                )[k],
        decreases tokens@.len() - i,
    {
        proof {
            let upto = views(tokens@).subrange(0, i + 1);
            assert(upto.drop_last() =~= views(tokens@).subrange(0, i as int));
            assert(upto.last() == tokens@[i as int]@);
        }
        if tokens[i].kind == TokenKind::Number {
            lexemes.push(tokens[i].lexeme.clone());
        }
        i += 1;
    }
    assert(views(tokens@).subrange(0, i as int) =~= views(tokens@));
    lexemes
}

/// Gives the numerals among the tokens their values, the first of `values`
/// to the first and so on, and says whether there was a value for each and
/// none was left over.
pub fn give_values(tokens: &mut Vec<Token>, values: &Vec<u64>) -> (complete: bool)
    ensures
        views(final(tokens)@) == valued(views(old(tokens)@), values@),
        complete == (values@.len() == numerals(views(old(tokens)@)).len()),
{
    let mut i: usize = 0;
    let mut nth: usize = 0;
    assert(views(tokens@).subrange(0, 0) =~= Seq::empty());
    while i < tokens.len()
        invariant
            i <= tokens@.len(),
            tokens@.len() == old(tokens)@.len(),
            nth <= i,
            nth == numerals(views(old(tokens)@).subrange(0, i as int)).len(),
            views(tokens@).subrange(0, i as int) == valued(views(old(tokens)@).subrange(0, i as int), values@),
            forall|k: int| i <= k < tokens@.len() ==> tokens@[k] == old(tokens)@[k],
        decreases tokens@.len() - i,
    {
        let ghost before = views(tokens@);
        proof {
            let upto = views(old(tokens)@).subrange(0, i + 1);
            assert(upto.drop_last() =~= views(old(tokens)@).subrange(0, i as int));
            assert(upto.last() == old(tokens)@[i as int]@);
        }
        if tokens[i].kind == TokenKind::Number {
            if nth < values.len() {
                tokens[i].literal = Literal::Number(values[nth]);
            }
            nth += 1;
        }
        proof {
            assert(views(tokens@).subrange(0, i + 1) =~= before.subrange(0, i as int).push(tokens@[i as int]@));
        }
        i += 1;
    }
    assert(views(tokens@).subrange(0, i as int) =~= views(tokens@));
    assert(views(old(tokens)@).subrange(0, i as int) =~= views(old(tokens)@));
    nth == values.len()
}

} // verus!
