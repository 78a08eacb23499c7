use vstd::prelude::*;
use vstd::string::StringExecFns;
use crate::strutil::chars_to_string;
use crate::strutil::str_to_chars;

verus! {

// ---------------------------------------------------------------------------
// Tokens
// ---------------------------------------------------------------------------

/// A tag-name token, produced by `@name` or `@"name with spaces"`.
#[derive(PartialEq, Debug, Clone)]
pub struct TokenTag {
    pub text: String,
}

/// A free-text token. Multi-line prose is folded onto one line, so the token
/// records where it started, the last line that held non-whitespace content,
/// and where it ended.
#[derive(PartialEq, Debug, Clone)]
pub struct TokenText {
    pub line_no_start: usize,
    pub line_no_end_with_content: usize,
    pub line_no_end: usize,
    pub text: String,
}

/// One lexical token. A numeric literal is held as its canonical decimal
/// text (see `canon_number`).
#[derive(PartialEq, Debug, Clone)]
pub enum Token {
    Tag(TokenTag),
    StringLiteral(String),
    NumberLiteral(String),
    BoolLiteral(bool),
    Text(TokenText),
    Character(char),
    Error(String),
    EndOfFile,
}

/// The mathematical model of a token.
pub enum TokenV {
    Tag { text: Seq<char> },
    StringLiteral { text: Seq<char> },
    NumberLiteral { text: Seq<char> },
    BoolLiteral { value: bool },
    Text { line_start: int, line_content: int, line_end: int, text: Seq<char> },
    Character { c: char },
    Error { msg: Seq<char> },
    EndOfFile,
}

impl View for Token {
    type V = TokenV;

    open spec fn view(&self) -> TokenV {
        match self {
            Token::Tag(t) => TokenV::Tag { text: t.text@ },
            Token::StringLiteral(s) => TokenV::StringLiteral { text: s@ },
            Token::NumberLiteral(s) => TokenV::NumberLiteral { text: s@ },
            Token::BoolLiteral(b) => TokenV::BoolLiteral { value: *b },
            Token::Text(t) => TokenV::Text {
                line_start: t.line_no_start as int,
                line_content: t.line_no_end_with_content as int,
                line_end: t.line_no_end as int,
                text: t.text@,
            },
            Token::Character(c) => TokenV::Character { c: *c },
            Token::Error(m) => TokenV::Error { msg: m@ },
            Token::EndOfFile => TokenV::EndOfFile,
        }
    }
}

impl Token {
    /// Whether the token is a literal value: string, number, or boolean.
    pub open spec fn spec_is_literal(&self) -> bool {
        self@ is StringLiteral || self@ is NumberLiteral || self@ is BoolLiteral
    }

    pub fn is_literal(&self) -> (r: bool)
        ensures
            r == self.spec_is_literal(),
    {
        match self {
            Token::StringLiteral(_) => true,
            Token::NumberLiteral(_) => true,
            Token::BoolLiteral(_) => true,
            _ => false,
        }
    }
}

// ---------------------------------------------------------------------------
// Character classes
// ---------------------------------------------------------------------------

/// ASCII whitespace: the characters skipped between tokens.
pub open spec fn is_ws_char(c: char) -> bool {
    c == ' ' || c == '\t' || c == '\n' || c == '\r' || c == '\u{c}'
}

fn ws_char(c: char) -> (r: bool)
    ensures
        r == is_ws_char(c),
{
    c == ' ' || c == '\t' || c == '\n' || c == '\r' || c == '\u{c}'
}

/// A line-break character.
pub open spec fn is_break_char(c: char) -> bool {
    c == '\n' || c == '\r'
}

/// The punctuation that always forms a one-character token.
pub open spec fn spec_is_special_character(c: char) -> bool {
    c == '@' || c == '{' || c == '}' || c == '(' || c == ')' || c == '='
}

/// Punctuation that always forms a one-character token, in either mode.
pub fn is_special_character(c: char) -> (r: bool)
    ensures
        r == spec_is_special_character(c),
{
    c == '@' || c == '{' || c == '}' || c == '(' || c == ')' || c == '='
}

/// The characters that end a free-text run; in Code mode a space ends it
/// too, so Code-mode bare words are short tokens.
pub open spec fn spec_is_text_block_ending_character(c: char, mode: LexerMode) -> bool {
    c == '@' || c == '{' || c == '}' || c == '=' || (mode == LexerMode::Code && c == ' ')
}

pub fn is_text_block_ending_character(c: char, mode: LexerMode) -> (r: bool)
    ensures
        r == spec_is_text_block_ending_character(c, mode),
{
    c == '@' || c == '{' || c == '}' || c == '=' || (mode == LexerMode::Code && c == ' ')
}

/// An ASCII decimal digit.
pub open spec fn is_digit_char(c: char) -> bool {
    ('0' as u32) <= (c as u32) && (c as u32) <= ('9' as u32)
}

fn digit_char(c: char) -> (r: bool)
    ensures
        r == is_digit_char(c),
{
    let u: u32 = c as u32;
    ('0' as u32) <= u && u <= ('9' as u32)
}

/// A character of a numeric run: a digit or a dot.
pub open spec fn is_num_char(c: char) -> bool {
    is_digit_char(c) || c == '.'
}

/// A character of a bare tag name: alphanumeric or underscore.
pub open spec fn is_ident_char(c: char) -> bool {
    (('a' as u32) <= (c as u32) && (c as u32) <= ('z' as u32)) || (('A' as u32) <= (c as u32) && (c
        as u32) <= ('Z' as u32)) || is_digit_char(c) || c == '_'
}

fn ident_char(c: char) -> (r: bool)
    ensures
        r == is_ident_char(c),
{
    let u: u32 = c as u32;
    (('a' as u32) <= u && u <= ('z' as u32)) || (('A' as u32) <= u && u <= ('Z' as u32))
        || digit_char(c) || c == '_'
}

/// The character an escape sequence stands for: `\n`, `\r` and `\t` are
/// control characters; anything else passes through unchanged.
pub open spec fn unescape_char(c: char) -> char {
    if c == 'n' {
        '\n'
    } else if c == 'r' {
        '\r'
    } else if c == 't' {
        '\t'
    } else {
        c
    }
}

fn unescape(c: char) -> (r: char)
    ensures
        r == unescape_char(c),
{
    match c {
        'n' => '\n',
        'r' => '\r',
        't' => '\t',
        _ => c,
    }
}

// ---------------------------------------------------------------------------
// Lexer modes
// ---------------------------------------------------------------------------

/// Text mode is loose and lets prose flow across spaces; Code mode is strict
/// and splits at whitespace, for attribute lists.
#[derive(Copy, Clone, PartialEq, Eq, Structural, Debug)]
pub enum LexerMode {
    Text,
    Code,
}

// ---------------------------------------------------------------------------
// Line counting
// ---------------------------------------------------------------------------

/// How much the line number grows when the character at `i` is consumed:
/// a `\n`, or a `\r` not followed by `\n`, counts one line; the `\n` of a
/// `\r\n` pair carries the count, so the pair counts once in all.
pub open spec fn line_inc_at(src: Seq<char>, i: int) -> int {
    if src[i] == '\n' || (src[i] == '\r' && (i + 1 >= src.len() || src[i + 1] != '\n')) {
        1
    } else {
        0
    }
}

// ---------------------------------------------------------------------------
// The lexing functions, as mathematics
// ---------------------------------------------------------------------------

/// Cursor and line after skipping ASCII whitespace.
pub open spec fn spec_skip_ws(src: Seq<char>, cursor: int, line: int) -> (int, int)
    decreases src.len() - cursor,
{
    if cursor < 0 || cursor >= src.len() || !is_ws_char(src[cursor]) {
        (cursor, line)
    } else {
        spec_skip_ws(src, cursor + 1, line + line_inc_at(src, cursor))
    }
}

pub proof fn lemma_skip_ws_bounds(src: Seq<char>, cursor: int, line: int)
    requires
        0 <= cursor <= src.len(),
    ensures
        cursor <= spec_skip_ws(src, cursor, line).0 <= src.len(),
        line <= spec_skip_ws(src, cursor, line).1 <= line + (spec_skip_ws(src, cursor, line).0
            - cursor),
        spec_skip_ws(src, cursor, line).0 < src.len() ==> !is_ws_char(
            src[spec_skip_ws(src, cursor, line).0],
        ),
    decreases src.len() - cursor,
{
    if cursor < src.len() && is_ws_char(src[cursor]) {
        lemma_skip_ws_bounds(src, cursor + 1, line + line_inc_at(src, cursor));
    }
}

/// One lexing step: the token, and the cursor and line after it.
pub struct LexStepV {
    pub tok: TokenV,
    pub cursor: int,
    pub line: int,
}

/// A quoted run: its content if the closing quote was found, and the cursor
/// and line after it.
pub struct QuotedV {
    pub content: Option<Seq<char>>,
    pub cursor: int,
    pub line: int,
}

/// The quoted run starting at `cursor` (just past the opening quote):
/// everything up to the closing quote, verbatim; `None` when the source ends
/// first.
pub open spec fn spec_quoted(src: Seq<char>, cursor: int, line: int, acc: Seq<char>) -> QuotedV
    decreases src.len() - cursor,
{
    if cursor < 0 || cursor >= src.len() {
        QuotedV { content: None, cursor, line }
    } else if src[cursor] == '"' {
        QuotedV { content: Some(acc), cursor: cursor + 1, line }
    } else {
        spec_quoted(src, cursor + 1, line + line_inc_at(src, cursor), acc.push(src[cursor]))
    }
}

/// A bare tag name starting at `cursor`: the maximal run of identifier
/// characters, which may simply end with the source.
pub open spec fn spec_bare_name(src: Seq<char>, cursor: int, line: int, acc: Seq<char>) -> LexStepV
    decreases src.len() - cursor,
{
    if cursor < 0 || cursor >= src.len() || !is_ident_char(src[cursor]) {
        LexStepV { tok: TokenV::Tag { text: acc }, cursor, line }
    } else {
        spec_bare_name(src, cursor + 1, line, acc.push(src[cursor]))
    }
}

/// The tag name following an `@` (the cursor is just past the `@`): either a
/// quoted run, which the source must not end inside, or a bare identifier
/// run.
pub open spec fn spec_tag_name(src: Seq<char>, cursor: int, line: int) -> LexStepV {
    if cursor >= src.len() {
        spec_bare_name(src, cursor, line, Seq::empty())
    } else if src[cursor] == '"' {
        let q = spec_quoted(src, cursor + 1, line, Seq::empty());
        match q.content {
            Some(text) => LexStepV { tok: TokenV::Tag { text }, cursor: q.cursor, line: q.line },
            None => LexStepV {
                tok: TokenV::Error { msg: "Unterminated Tag name string"@ },
                cursor: q.cursor,
                line: q.line,
            },
        }
    } else {
        spec_bare_name(src, cursor, line, Seq::empty())
    }
}

/// End of the maximal run of digits and dots starting at `cursor`.
pub open spec fn spec_num_end(src: Seq<char>, cursor: int) -> int
    decreases src.len() - cursor,
{
    if cursor < 0 || cursor >= src.len() || !is_num_char(src[cursor]) {
        cursor
    } else {
        spec_num_end(src, cursor + 1)
    }
}

pub proof fn lemma_num_end_bounds(src: Seq<char>, cursor: int)
    requires
        0 <= cursor <= src.len(),
    ensures
        cursor <= spec_num_end(src, cursor) <= src.len(),
    decreases src.len() - cursor,
{
    if cursor < src.len() && is_num_char(src[cursor]) {
        lemma_num_end_bounds(src, cursor + 1);
    }
}

/// Whether a numeric run holds at least one digit.
pub open spec fn has_digit(s: Seq<char>) -> bool {
    exists|i: int| 0 <= i < s.len() && is_digit_char(s[i])
}

/// Whether a numeric run holds at most one dot.
pub open spec fn at_most_one_dot(s: Seq<char>) -> bool {
    forall|i: int, j: int| 0 <= i < j < s.len() ==> !(s[i] == '.' && s[j] == '.')
}

/// A numeric run denotes a number exactly when it has at least one digit and
/// at most one dot.
pub open spec fn valid_number(s: Seq<char>) -> bool {
    has_digit(s) && at_most_one_dot(s)
}

/// Leading zeros removed.
pub open spec fn strip_leading_zeros(s: Seq<char>) -> Seq<char>
    decreases s.len(),
{
    if s.len() > 0 && s[0] == '0' {
        strip_leading_zeros(s.drop_first())
    } else {
        s
    }
}

/// Trailing zeros removed.
pub open spec fn strip_trailing_zeros(s: Seq<char>) -> Seq<char>
    decreases s.len(),
{
    if s.len() > 0 && s.last() == '0' {
        strip_trailing_zeros(s.drop_last())
    } else {
        s
    }
}

/// Position of the first dot in a numeric run, or the length when none.
pub open spec fn first_dot_from(s: Seq<char>, i: int) -> int
    decreases s.len() - i,
{
    if i < 0 || i >= s.len() {
        s.len() as int
    } else if s[i] == '.' {
        i
    } else {
        first_dot_from(s, i + 1)
    }
}

/// The canonical decimal text of a valid numeric run: the integer part with
/// leading zeros removed ("0" when empty), then the fractional part with
/// trailing zeros removed, omitted when empty.
pub open spec fn canon_number(run: Seq<char>) -> Seq<char> {
    let d = first_dot_from(run, 0);
    let ip = strip_leading_zeros(run.subrange(0, d));
    let ip2: Seq<char> = if ip.len() == 0 {
        seq!['0']
    } else {
        ip
    };
    let fp = if d >= run.len() {
        Seq::<char>::empty()
    } else {
        strip_trailing_zeros(run.subrange(d + 1, run.len() as int))
    };
    if fp.len() == 0 {
        ip2
    } else {
        ip2 + seq!['.'] + fp
    }
}

/// The token a numeric run denotes: its canonical decimal text, or a lexical
/// error for a malformed run.
pub open spec fn spec_num_token(run: Seq<char>) -> TokenV {
    if valid_number(run) {
        TokenV::NumberLiteral { text: canon_number(run) }
    } else {
        TokenV::Error { msg: "invalid float literal"@ }
    }
}

/// Trailing ASCII whitespace removed.
pub open spec fn trim_end_ws(s: Seq<char>) -> Seq<char>
    decreases s.len(),
{
    if s.len() > 0 && is_ws_char(s.last()) {
        trim_end_ws(s.drop_last())
    } else {
        s
    }
}

/// Whether the keyword "true" stands at `i`.
pub open spec fn sees_true(src: Seq<char>, i: int) -> bool {
    i + 4 <= src.len() && src[i] == 't' && src[i + 1] == 'r' && src[i + 2] == 'u' && src[i + 3]
        == 'e'
}

/// Whether the keyword "false" stands at `i`.
pub open spec fn sees_false(src: Seq<char>, i: int) -> bool {
    i + 5 <= src.len() && src[i] == 'f' && src[i + 1] == 'a' && src[i + 2] == 'l' && src[i + 3]
        == 's' && src[i + 4] == 'e'
}

/// A free-text run starting at `cursor`. Escapes are resolved, a line break
/// becomes a single space with the following whitespace dropped, trailing
/// whitespace is trimmed, and a run cut short by the end of the source is an
/// error.
pub open spec fn spec_text_block(
    src: Seq<char>,
    cursor: int,
    line: int,
    mode: LexerMode,
    acc: Seq<char>,
    line_start: int,
    line_content: int,
) -> LexStepV
    decreases src.len() - cursor,
    via spec_text_block_decreases
{
    if cursor < 0 || cursor >= src.len() {
        LexStepV { tok: TokenV::Error { msg: "Unterminated Text Block"@ }, cursor, line }
    } else if spec_is_text_block_ending_character(src[cursor], mode) || src[cursor] == '"' {
        LexStepV {
            tok: TokenV::Text {
                line_start,
                line_content,
                line_end: line,
                text: trim_end_ws(acc),
            },
            cursor,
            line,
        }
    } else if src[cursor] == '\\' {
        if cursor + 1 >= src.len() {
            LexStepV {
                tok: TokenV::Error { msg: "Unterminated Text Block"@ },
                cursor: cursor + 1,
                line,
            }
        } else {
            spec_text_block(
                src,
                cursor + 2,
                line + line_inc_at(src, cursor + 1),
                mode,
                acc.push(unescape_char(src[cursor + 1])),
                line_start,
                line_content,
            )
        }
    } else if is_break_char(src[cursor]) {
        let sw = spec_skip_ws(src, cursor + 1, line + line_inc_at(src, cursor));
        spec_text_block(src, sw.0, sw.1, mode, acc.push(' '), line_start, line_content)
    } else {
        spec_text_block(src, cursor + 1, line, mode, acc.push(src[cursor]), line_start, line)
    }
}

#[via_fn]
proof fn spec_text_block_decreases(
    src: Seq<char>,
    cursor: int,
    line: int,
    mode: LexerMode,
    acc: Seq<char>,
    line_start: int,
    line_content: int,
) {
    if 0 <= cursor && cursor < src.len() {
        lemma_skip_ws_bounds(src, cursor + 1, line + line_inc_at(src, cursor));
    }
}

/// The next token from position `cursor`, and the position after it.
pub open spec fn spec_next_token(src: Seq<char>, cursor: int, line: int, mode: LexerMode) -> LexStepV {
    let sw = spec_skip_ws(src, cursor, line);
    if sw.0 >= src.len() {
        LexStepV { tok: TokenV::EndOfFile, cursor: sw.0, line: sw.1 }
    } else {
        let c = src[sw.0];
        if c == '@' {
            spec_tag_name(src, sw.0 + 1, sw.1)
        } else if c == '"' {
            let q = spec_quoted(src, sw.0 + 1, sw.1, Seq::empty());
            match q.content {
                Some(text) => LexStepV {
                    tok: TokenV::StringLiteral { text },
                    cursor: q.cursor,
                    line: q.line,
                },
                None => LexStepV {
                    tok: TokenV::Error { msg: "Unterminated Tag name string"@ },
                    cursor: q.cursor,
                    line: q.line,
                },
            }
        } else if is_digit_char(c) {
            let e = spec_num_end(src, sw.0);
            LexStepV { tok: spec_num_token(src.subrange(sw.0, e)), cursor: e, line: sw.1 }
        } else if spec_is_special_character(c) || (mode == LexerMode::Code && c == ',') {
            LexStepV { tok: TokenV::Character { c }, cursor: sw.0 + 1, line: sw.1 }
        } else if sees_true(src, sw.0) {
            LexStepV { tok: TokenV::BoolLiteral { value: true }, cursor: sw.0 + 4, line: sw.1 }
        } else if sees_false(src, sw.0) {
            LexStepV { tok: TokenV::BoolLiteral { value: false }, cursor: sw.0 + 5, line: sw.1 }
        } else {
            spec_text_block(src, sw.0, sw.1, mode, Seq::empty(), sw.1, sw.1)
        }
    }
}

// ---------------------------------------------------------------------------
// The lexer
// ---------------------------------------------------------------------------

/// The spec-level state of a lexer.
#[verifier::ext_equal]
pub struct LexerV {
    pub src: Seq<char>,
    pub cursor: int,
    pub line: int,
    pub mode: LexerMode,
    pub stack: Seq<LexerMode>,
}

/// Turns source text into tokens, one at a time, tracking the current line
/// and a stack of tokenization modes.
pub struct Lexer {
    pub source: Vec<char>,
    pub cursor: usize,
    pub line_no: usize,
    pub mode: LexerMode,
    pub mode_stack: Vec<LexerMode>,
}

impl View for Lexer {
    type V = LexerV;

    open spec fn view(&self) -> LexerV {
        LexerV {
            src: self.source@,
            cursor: self.cursor as int,
            line: self.line_no as int,
            mode: self.mode,
            stack: self.mode_stack@,
        }
    }
}

impl Lexer {
    /// The lexer's invariant: the cursor stays inside the source, and the
    /// line number stays 1-based and cannot outrun the characters consumed.
    pub open spec fn wf(&self) -> bool {
        self.cursor <= self.source.len() && 1 <= self.line_no && self.line_no <= 1 + self.cursor
            && self.source.len() < usize::MAX
    }

    /// A fresh lexer over the given source, at line 1, in Text mode.
    pub fn new(src: String) -> (l: Lexer)
        ensures
            l.wf(),
            src@.len() < usize::MAX ==> l@.src == src@,
            l@.cursor == 0,
            l@.line == 1,
            l@.mode == LexerMode::Text,
            l@.stack == Seq::<LexerMode>::empty(),
    {
        let mut source = str_to_chars(src.as_str());
        if source.len() == usize::MAX {
            // keeps line counting clear of integer overflow on an
            // address-space-sized source
            let _ = source.pop();
        }
        Lexer { source, cursor: 0, line_no: 1, mode: LexerMode::Text, mode_stack: Vec::new() }
    }

    /// Enters a tokenization mode, remembering the current one.
    pub fn push_mode(&mut self, mode: LexerMode)
        requires
            old(self).wf(),
        ensures
            final(self).wf(),
            final(self)@ == (LexerV {
                mode,
                stack: old(self)@.stack.push(old(self)@.mode),
                ..old(self)@
            }),
    {
        self.mode_stack.push(self.mode);
        self.mode = mode;
    }

    /// Leaves the current mode, returning to the remembered one.
    pub fn pop_mode(&mut self)
        requires
            old(self).wf(),
            old(self)@.stack.len() > 0,
        ensures
            final(self).wf(),
            final(self)@ == (LexerV {
                mode: old(self)@.stack.last(),
                stack: old(self)@.stack.drop_last(),
                ..old(self)@
            }),
    {
        let m = self.mode_stack.pop();
        match m {
            Some(mode) => {
                self.mode = mode;
            },
            None => {
                // unreachable: the stack is non-empty
            },
        }
    }

    fn is_not_at_end(&self) -> (r: bool)
        ensures
            r == (self@.cursor < self@.src.len()),
    {
        self.cursor < self.source.len()
    }

    fn is_at_end(&self) -> (r: bool)
        ensures
            r == (self@.cursor >= self@.src.len()),
    {
        !self.is_not_at_end()
    }

    fn char_at(&self, index: usize) -> (c: char)
        requires
            index < self@.src.len(),
        ensures
            c == self@.src[index as int],
    {
        self.source[index]
    }

    fn current_char(&self) -> (c: char)
        requires
            self@.cursor < self@.src.len(),
        ensures
            c == self@.src[self@.cursor],
    {
        self.char_at(self.cursor)
    }

    /// Consumes one character; reports whether it was a line break, and
    /// counts lines as `line_inc_at` says.
    fn advance_cursor(&mut self) -> (was_break: bool)
        requires
            old(self).wf(),
            old(self)@.cursor < old(self)@.src.len(),
        ensures
            final(self).wf(),
            final(self)@ == (LexerV {
                cursor: old(self)@.cursor + 1,
                line: old(self)@.line + line_inc_at(old(self)@.src, old(self)@.cursor),
                ..old(self)@
            }),
            was_break == is_break_char(old(self)@.src[old(self)@.cursor]),
    {
        let c = self.source[self.cursor];
        let is_nl = c == '\n';
        let is_cr = c == '\r';
        self.cursor = self.cursor + 1;
        if is_nl || (is_cr && (self.cursor >= self.source.len() || self.source[self.cursor]
            != '\n')) {
            self.line_no = self.line_no + 1;
        }
        is_nl || is_cr
    }

    /// Skips ASCII whitespace, counting lines.
    #[verifier::loop_isolation(false)]
    fn skip_whitespace(&mut self)
        requires
            old(self).wf(),
        ensures
            final(self).wf(),
            final(self)@ == (LexerV {
                cursor: spec_skip_ws(old(self)@.src, old(self)@.cursor, old(self)@.line).0,
                line: spec_skip_ws(old(self)@.src, old(self)@.cursor, old(self)@.line).1,
                ..old(self)@
            }),
            final(self)@.cursor >= old(self)@.cursor,
            final(self)@.line >= old(self)@.line,
    {
        while self.is_not_at_end() && ws_char(self.current_char())
            invariant
                self.wf(),
                self@.src == old(self)@.src,
                self@.mode == old(self)@.mode,
                self@.stack == old(self)@.stack,
                self@.cursor >= old(self)@.cursor,
                self@.line >= old(self)@.line,
                spec_skip_ws(old(self)@.src, old(self)@.cursor, old(self)@.line) == spec_skip_ws(
                    self@.src,
                    self@.cursor,
                    self@.line,
                ),
            decreases self@.src.len() - self@.cursor,
        {
            self.advance_cursor();
        }
    }

    /// A quoted run: consumes the opening quote, the content, and the
    /// closing quote. A run the source ends inside is a lexical error.
    #[verifier::loop_isolation(false)]
    fn parse_quoted_string(&mut self) -> (r: Result<String, Token>)
        requires
            old(self).wf(),
            old(self)@.cursor < old(self)@.src.len(),
            old(self)@.src[old(self)@.cursor] == '"',
        ensures
            final(self).wf(),
            final(self)@.src == old(self)@.src,
            final(self)@.mode == old(self)@.mode,
            final(self)@.stack == old(self)@.stack,
            ({
                let q = spec_quoted(
                    old(self)@.src,
                    old(self)@.cursor + 1,
                    old(self)@.line,
                    Seq::empty(),
                );
                final(self)@.cursor == q.cursor && final(self)@.line == q.line && match r {
                    Ok(s) => q.content == Some(s@),
                    Err(t) => q.content is None && t@ == (TokenV::Error {
                        msg: "Unterminated Tag name string"@,
                    }),
                }
            }),
            final(self)@.cursor > old(self)@.cursor,
            final(self)@.line >= old(self)@.line,
    {
        let ghost src = self@.src;
        let ghost c0 = self@.cursor as int;
        let ghost l0 = self@.line as int;
        let ghost m0 = self@.mode;
        let ghost st0 = self@.stack;
        self.advance_cursor();
        let mut acc: Vec<char> = Vec::new();
        loop
            invariant
                self.wf(),
                self@.src == src,
                self@.mode == m0,
                self@.stack == st0,
                c0 < self@.cursor,
                l0 <= self@.line,
                spec_quoted(src, c0 + 1, l0, Seq::empty()) == spec_quoted(
                    src,
                    self@.cursor,
                    self@.line,
                    acc@,
                ),
            decreases src.len() - self@.cursor,
        {
            if self.is_at_end() {
                return Err(Token::Error(String::from_str("Unterminated Tag name string")));
            }
            let c = self.current_char();
            if c == '"' {
                self.advance_cursor();
                return Ok(chars_to_string(&acc));
            }
            self.advance_cursor();
            acc.push(c);
        }
    }

    /// The tag name following an `@`: a quoted run or a bare identifier run.
    #[verifier::loop_isolation(false)]
    fn parse_tag_name(&mut self) -> (t: Token)
        requires
            old(self).wf(),
            old(self)@.cursor < old(self)@.src.len(),
            old(self)@.src[old(self)@.cursor] == '@',
        ensures
            final(self).wf(),
            final(self)@.src == old(self)@.src,
            final(self)@.mode == old(self)@.mode,
            final(self)@.stack == old(self)@.stack,
            ({
                let st = spec_tag_name(old(self)@.src, old(self)@.cursor + 1, old(self)@.line);
                t@ == st.tok && final(self)@.cursor == st.cursor && final(self)@.line == st.line
            }),
            final(self)@.cursor > old(self)@.cursor,
            final(self)@.line >= old(self)@.line,
            t@ is Tag || t@ is Error,
    {
        let ghost src = self@.src;
        let ghost c0 = self@.cursor as int;
        let ghost l0 = self@.line as int;
        let ghost m0 = self@.mode;
        let ghost st0 = self@.stack;
        self.advance_cursor();
        if self.is_not_at_end() && self.current_char() == '"' {
            match self.parse_quoted_string() {
                Ok(s) => Token::Tag(TokenTag { text: s }),
                Err(e) => e,
            }
        } else {
            let mut acc: Vec<char> = Vec::new();
            loop
                invariant
                    self.wf(),
                    self@.src == src,
                    self@.mode == m0,
                    self@.stack == st0,
                    self@.line == l0,
                    c0 < self@.cursor,
                    spec_bare_name(src, c0 + 1, l0, Seq::empty()) == spec_bare_name(
                        src,
                        self@.cursor,
                        self@.line,
                        acc@,
                    ),
                decreases src.len() - self@.cursor,
            {
                if self.is_at_end() {
                    break;
                }
                let c = self.current_char();
                if !ident_char(c) {
                    break;
                }
                self.advance_cursor();
                acc.push(c);
            }
            Token::Tag(TokenTag { text: chars_to_string(&acc) })
        }
    }

    /// A numeric literal: the maximal run of digits and dots, turned into
    /// its canonical decimal text, or a lexical error for a malformed run.
    #[verifier::loop_isolation(false)]
    fn parse_numeric_literal(&mut self) -> (t: Token)
        requires
            old(self).wf(),
            old(self)@.cursor < old(self)@.src.len(),
            is_digit_char(old(self)@.src[old(self)@.cursor]),
        ensures
            final(self).wf(),
            final(self)@.src == old(self)@.src,
            final(self)@.mode == old(self)@.mode,
            final(self)@.stack == old(self)@.stack,
            final(self)@.line == old(self)@.line,
            ({
                let e = spec_num_end(old(self)@.src, old(self)@.cursor);
                t@ == spec_num_token(old(self)@.src.subrange(old(self)@.cursor, e))
                    && final(self)@.cursor == e
            }),
            final(self)@.cursor > old(self)@.cursor,
            final(self)@.line >= old(self)@.line,
            t@ is NumberLiteral || t@ is Error,
    {
        let ghost src = self@.src;
        let ghost c0 = self@.cursor as int;
        let ghost l0 = self@.line as int;
        let ghost m0 = self@.mode;
        let ghost st0 = self@.stack;
        let mut run: Vec<char> = Vec::new();
        loop
            invariant
                self.wf(),
                self@.src == src,
                self@.mode == m0,
                self@.stack == st0,
                self@.line == l0,
                c0 <= self@.cursor <= src.len(),
                run@ == src.subrange(c0, self@.cursor),
                spec_num_end(src, c0) == spec_num_end(src, self@.cursor),
            decreases src.len() - self@.cursor,
        {
            if self.is_at_end() {
                break;
            }
            let c = self.current_char();
            if !(digit_char(c) || c == '.') {
                break;
            }
            self.advance_cursor();
            run.push(c);
            proof {
                assert(run@ =~= src.subrange(c0, self@.cursor));
            }
        }
        proof {
            assert(spec_num_end(src, c0) == self@.cursor);
            assert(spec_num_end(src, c0) == spec_num_end(src, c0 + 1));
            lemma_num_end_bounds(src, c0 + 1);
            assert(run@.len() >= 1);
            assert(is_digit_char(run@[0]));
            assert(has_digit(run@));
        }
        // a maximal digit-and-dot run denotes a number exactly when it has
        // at most one dot
        let n = run.len();
        let mut seen_dot = false;
        let mut two_dots = false;
        let mut i: usize = 0;
        while i < n
            invariant
                n == run@.len(),
                i <= n,
                seen_dot == (exists|k: int| 0 <= k < i && run@[k] == '.'),
                two_dots == !at_most_one_dot(run@.subrange(0, i as int)),
            decreases n - i,
        {
            let c = run[i];
            proof {
                assert(run@.subrange(0, i + 1) =~= run@.subrange(0, i as int).push(run@[i as int]));
            }
            if c == '.' {
                if seen_dot {
                    two_dots = true;
                    proof {
                        let k = choose|k: int| 0 <= k < i && run@[k] == '.';
                        assert(run@.subrange(0, i + 1)[k] == '.' && run@.subrange(0, i + 1)[i as int]
                            == '.');
                        assert(!at_most_one_dot(run@.subrange(0, i + 1)));
                    }
                } else {
                    seen_dot = true;
                    proof {
                        let p = run@.subrange(0, i + 1);
                        if !two_dots {
                            assert forall|a: int, b: int|
                                0 <= a < b < p.len() implies !(p[a] == '.' && p[b] == '.') by {
                                if b < i as int {
                                    assert(run@.subrange(0, i as int)[a] == p[a]);
                                    assert(run@.subrange(0, i as int)[b] == p[b]);
                                } else {
                                    assert(!(0 <= a < i && run@[a] == '.'));
                                }
                            }
                        }
                    }
                }
            } else {
                proof {
                    let p = run@.subrange(0, i + 1);
                    if !two_dots {
                        assert forall|a: int, b: int|
                            0 <= a < b < p.len() implies !(p[a] == '.' && p[b] == '.') by {
                            if b < i as int {
                                assert(run@.subrange(0, i as int)[a] == p[a]);
                                assert(run@.subrange(0, i as int)[b] == p[b]);
                            } else {
                                assert(p[b] != '.');
                            }
                        }
                    } else {
                        let (a, b) = choose|a: int, b: int|
                            0 <= a < b < i && run@.subrange(0, i as int)[a] == '.' && run@.subrange(
                                0,
                                i as int,
                            )[b] == '.';
                        assert(p[a] == '.' && p[b] == '.');
                    }
                }
            }
            i = i + 1;
        }
        proof {
            assert(run@.subrange(0, n as int) =~= run@);
        }
        if two_dots {
            Token::Error(String::from_str("invalid float literal"))
        } else {
            let out = canonicalize_number(&run);
            Token::NumberLiteral(chars_to_string(&out))
        }
    }

    /// A free-text run: escapes resolved, line breaks folded to one space
    /// with following whitespace dropped, trailing whitespace trimmed. A run
    /// the source ends inside is a lexical error.
    #[verifier::loop_isolation(false)]
    fn parse_text_block(&mut self) -> (t: Token)
        requires
            old(self).wf(),
            old(self)@.cursor < old(self)@.src.len(),
            !spec_is_text_block_ending_character(
                old(self)@.src[old(self)@.cursor],
                old(self)@.mode,
            ),
            old(self)@.src[old(self)@.cursor] != '"',
        ensures
            final(self).wf(),
            final(self)@.src == old(self)@.src,
            final(self)@.mode == old(self)@.mode,
            final(self)@.stack == old(self)@.stack,
            ({
                let st = spec_text_block(
                    old(self)@.src,
                    old(self)@.cursor,
                    old(self)@.line,
                    old(self)@.mode,
                    Seq::empty(),
                    old(self)@.line,
                    old(self)@.line,
                );
                t@ == st.tok && final(self)@.cursor == st.cursor && final(self)@.line == st.line
            }),
            final(self)@.cursor > old(self)@.cursor,
            final(self)@.line >= old(self)@.line,
            t@ is Text || t@ is Error,
    {
        let ghost src = self@.src;
        let ghost c0 = self@.cursor as int;
        let ghost l0 = self@.line as int;
        let ghost m0 = self@.mode;
        let ghost st0 = self@.stack;
        let line_start = self.line_no;
        let mut line_content = self.line_no;
        let mut acc: Vec<char> = Vec::new();
        loop
            invariant
                self.wf(),
                self@.src == src,
                self@.mode == m0,
                self@.stack == st0,
                c0 <= self@.cursor,
                l0 <= self@.line,
                c0 < src.len(),
                !spec_is_text_block_ending_character(src[c0], m0),
                src[c0] != '"',
                line_start as int == l0,
                spec_text_block(src, c0, l0, m0, Seq::empty(), l0, l0) == spec_text_block(
                    src,
                    self@.cursor,
                    self@.line,
                    m0,
                    acc@,
                    line_start as int,
                    line_content as int,
                ),
            decreases src.len() - self@.cursor,
        {
            if self.is_at_end() {
                proof {
                    lemma_text_block_strict(src, c0, l0, m0);
                }
                return Token::Error(String::from_str("Unterminated Text Block"));
            }
            let c = self.current_char();
            if is_text_block_ending_character(c, self.mode) || c == '"' {
                break;
            }
            let was_break = self.advance_cursor();
            if c == '\\' {
                if self.is_at_end() {
                    proof {
                        lemma_text_block_strict(src, c0, l0, m0);
                    }
                    return Token::Error(String::from_str("Unterminated Text Block"));
                }
                let e = self.current_char();
                self.advance_cursor();
                acc.push(unescape(e));
            } else if was_break {
                self.skip_whitespace();
                acc.push(' ');
            } else {
                acc.push(c);
                line_content = self.line_no;
            }
        }
        proof {
            lemma_text_block_strict(src, c0, l0, m0);
        }
        let ghost acc_full = acc@;
        let mut trimmed = acc;
        loop
            invariant
                trim_end_ws(acc_full) == trim_end_ws(trimmed@),
            decreases trimmed@.len(),
        {
            if trimmed.len() == 0 {
                break;
            }
            let c = trimmed[trimmed.len() - 1];
            if !ws_char(c) {
                break;
            }
            proof {
                assert(trimmed@.drop_last() =~= trimmed@.subrange(0, trimmed@.len() - 1));
            }
            let _ = trimmed.pop();
        }
        let text = chars_to_string(&trimmed);
        Token::Text(
            TokenText {
                line_no_start: line_start,
                line_no_end_with_content: line_content,
                line_no_end: self.line_no,
                text,
            },
        )
    }

    /// The next token. Skips whitespace, then dispatches on the first
    /// character: `@` starts a tag name, a quote starts a string literal, a
    /// digit starts a number, punctuation is a one-character token, the
    /// whole keywords "true" and "false" are booleans, and anything else is
    /// a free-text run. The end of the source is `EndOfFile`.
    pub fn get_next_token(&mut self) -> (t: Token)
        requires
            old(self).wf(),
        ensures
            final(self).wf(),
            final(self)@.src == old(self)@.src,
            final(self)@.mode == old(self)@.mode,
            final(self)@.stack == old(self)@.stack,
            ({
                let st = spec_next_token(
                    old(self)@.src,
                    old(self)@.cursor,
                    old(self)@.line,
                    old(self)@.mode,
                );
                t@ == st.tok && final(self)@.cursor == st.cursor && final(self)@.line == st.line
            }),
            old(self)@.cursor <= final(self)@.cursor,
            final(self)@.line >= old(self)@.line,
            !(t@ is EndOfFile) ==> final(self)@.cursor > old(self)@.cursor,
            t@ is EndOfFile ==> final(self)@.cursor == old(self)@.src.len(),
    {
        self.skip_whitespace();
        if self.is_at_end() {
            return Token::EndOfFile;
        }
        let c = self.current_char();
        if c == '@' {
            return self.parse_tag_name();
        }
        if c == '"' {
            return match self.parse_quoted_string() {
                Ok(s) => Token::StringLiteral(s),
                Err(e) => e,
            };
        }
        if digit_char(c) {
            return self.parse_numeric_literal();
        }
        if is_special_character(c) || (c == ',' && self.mode == LexerMode::Code) {
            self.advance_cursor();
            return Token::Character(c);
        }
        if self.sees_keyword_true() {
            self.advance_cursor();
            self.advance_cursor();
            self.advance_cursor();
            self.advance_cursor();
            return Token::BoolLiteral(true);
        }
        if self.sees_keyword_false() {
            self.advance_cursor();
            self.advance_cursor();
            self.advance_cursor();
            self.advance_cursor();
            self.advance_cursor();
            return Token::BoolLiteral(false);
        }
        proof {
            lemma_skip_ws_bounds(old(self)@.src, old(self)@.cursor, old(self)@.line);
        }
        self.parse_text_block()
    }

    /// Whether the whole keyword "true" stands at the cursor.
    fn sees_keyword_true(&self) -> (r: bool)
        requires
            self.wf(),
        ensures
            r == sees_true(self@.src, self@.cursor),
    {
        self.source.len() - self.cursor >= 4 && self.char_at(self.cursor) == 't' && self.char_at(
            self.cursor + 1,
        ) == 'r' && self.char_at(self.cursor + 2) == 'u' && self.char_at(self.cursor + 3) == 'e'
    }

    /// Whether the whole keyword "false" stands at the cursor.
    fn sees_keyword_false(&self) -> (r: bool)
        requires
            self.wf(),
        ensures
            r == sees_false(self@.src, self@.cursor),
    {
        self.source.len() - self.cursor >= 5 && self.char_at(self.cursor) == 'f' && self.char_at(
            self.cursor + 1,
        ) == 'a' && self.char_at(self.cursor + 2) == 'l' && self.char_at(self.cursor + 3) == 's'
            && self.char_at(self.cursor + 4) == 'e'
    }
}

/// A free-text run never moves the cursor backwards, stays inside the
/// source, and moves strictly forward when it starts on an ordinary
/// character.
proof fn lemma_text_block_monotone(
    src: Seq<char>,
    cursor: int,
    line: int,
    mode: LexerMode,
    acc: Seq<char>,
    line_start: int,
    line_content: int,
)
    requires
        0 <= cursor <= src.len(),
    ensures
        ({
            let st = spec_text_block(src, cursor, line, mode, acc, line_start, line_content);
            cursor <= st.cursor <= src.len()
        }),
    decreases src.len() - cursor,
{
    if cursor < src.len() && !(spec_is_text_block_ending_character(src[cursor], mode)
        || src[cursor] == '"') {
        if src[cursor] == '\\' {
            if cursor + 1 < src.len() {
                lemma_text_block_monotone(
                    src,
                    cursor + 2,
                    line + line_inc_at(src, cursor + 1),
                    mode,
                    acc.push(unescape_char(src[cursor + 1])),
                    line_start,
                    line_content,
                );
            }
        } else if is_break_char(src[cursor]) {
            let sw = spec_skip_ws(src, cursor + 1, line + line_inc_at(src, cursor));
            lemma_skip_ws_bounds(src, cursor + 1, line + line_inc_at(src, cursor));
            lemma_text_block_monotone(
                src,
                sw.0,
                sw.1,
                mode,
                acc.push(' '),
                line_start,
                line_content,
            );
        } else {
            lemma_text_block_monotone(
                src,
                cursor + 1,
                line,
                mode,
                acc.push(src[cursor]),
                line_start,
                line,
            );
        }
    }
}

/// A free-text run starting on an ordinary character inside the source
/// consumes at least that character.
proof fn lemma_text_block_strict(src: Seq<char>, cursor: int, line: int, mode: LexerMode)
    requires
        0 <= cursor < src.len(),
        !spec_is_text_block_ending_character(src[cursor], mode),
        src[cursor] != '"',
    ensures
        ({
            let st = spec_text_block(src, cursor, line, mode, Seq::empty(), line, line);
            cursor < st.cursor <= src.len()
        }),
{
    let acc = Seq::<char>::empty();
    if src[cursor] == '\\' {
        if cursor + 1 < src.len() {
            lemma_text_block_monotone(
                src,
                cursor + 2,
                line + line_inc_at(src, cursor + 1),
                mode,
                acc.push(unescape_char(src[cursor + 1])),
                line,
                line,
            );
        }
    } else if is_break_char(src[cursor]) {
        let sw = spec_skip_ws(src, cursor + 1, line + line_inc_at(src, cursor));
        lemma_skip_ws_bounds(src, cursor + 1, line + line_inc_at(src, cursor));
        lemma_text_block_monotone(src, sw.0, sw.1, mode, acc.push(' '), line, line);
    } else {
        lemma_text_block_monotone(
            src,
            cursor + 1,
            line,
            mode,
            acc.push(src[cursor]),
            line,
            line,
        );
    }
}

/// Builds the canonical decimal text of a numeric run.
#[verifier::loop_isolation(false)]
fn canonicalize_number(run: &Vec<char>) -> (out: Vec<char>)
    ensures
        out@ == canon_number(run@),
{
    let n = run.len();
    // find the first dot
    let mut d: usize = 0;
    while d < n && run[d] != '.'
        invariant
            n == run@.len(),
            d <= n,
            first_dot_from(run@, 0) == first_dot_from(run@, d as int),
        decreases n - d,
    {
        d = d + 1;
    }
    proof {
        assert(first_dot_from(run@, 0) == d as int);
    }
    // the integer part, with leading zeros removed
    let mut k: usize = 0;
    while k < d && run[k] == '0'
        invariant
            n == run@.len(),
            k <= d <= n,
            strip_leading_zeros(run@.subrange(0, d as int)) == strip_leading_zeros(
                run@.subrange(k as int, d as int),
            ),
        decreases d - k,
    {
        proof {
            assert(run@.subrange(k as int, d as int).drop_first() =~= run@.subrange(
                k + 1,
                d as int,
            ));
        }
        k = k + 1;
    }
    proof {
        assert(strip_leading_zeros(run@.subrange(0, d as int)) == run@.subrange(
            k as int,
            d as int,
        ));
    }
    // the fractional part, with trailing zeros removed
    let mut j: usize = n;
    if d < n {
        while j > d + 1 && run[j - 1] == '0'
            invariant
                n == run@.len(),
                d < n,
                d + 1 <= j <= n,
                strip_trailing_zeros(run@.subrange(d + 1, n as int)) == strip_trailing_zeros(
                    run@.subrange(d + 1, j as int),
                ),
            decreases j,
        {
            proof {
                assert(run@.subrange(d + 1, j as int).drop_last() =~= run@.subrange(
                    d + 1,
                    j - 1,
                ));
            }
            j = j - 1;
        }
        proof {
            assert(strip_trailing_zeros(run@.subrange(d + 1, n as int)) == run@.subrange(
                d + 1,
                j as int,
            ));
        }
    }
    let mut out: Vec<char> = Vec::new();
    if k == d {
        out.push('0');
    } else {
        let mut t = k;
        while t < d
            invariant
                n == run@.len(),
                k <= t <= d <= n,
                out@ == run@.subrange(k as int, t as int),
            decreases d - t,
        {
            out.push(run[t]);
            proof {
                assert(out@ =~= run@.subrange(k as int, t + 1));
            }
            t = t + 1;
        }
    }
    if d < n && j > d + 1 {
        out.push('.');
        let ghost head = out@;
        let mut t = d + 1;
        while t < j
            invariant
                n == run@.len(),
                d + 1 <= t <= j <= n,
                out@ == head + run@.subrange(d + 1, t as int),
            decreases j - t,
        {
            out.push(run[t]);
            proof {
                assert(out@ =~= head + run@.subrange(d + 1, t + 1));
            }
            t = t + 1;
        }
    }
    proof {
        assert(out@ =~= canon_number(run@));
    }
    out
}

} // verus!
