//! What a failed reading of source text reports.

use vstd::prelude::*;
use crate::javascript::ast::Position;
use crate::javascript::grammar::is_line_terminator;

verus! {

/// What the reader was looking for, or what rule the text broke, where it
/// gave up.
#[derive(Debug, Clone, Copy, PartialEq, Eq, Structural)]
pub enum ParseErrorKind {
    /// No complete comment stands here.
    Comment,
    /// No identifier stands here.
    Identifier,
    /// The name that stands here is a reserved word.
    ReservedWord,
    /// `null`, `true` or `false` was looked for.
    Keyword,
    /// No well-formed number stands here.
    Number,
    /// No string literal stands here, or it is not closed on its line.
    String,
    /// A backslash is followed by something that is no escape sequence.
    Escape,
    /// An escape names a code point that is no character.
    CodePoint,
    /// No well-formed regular expression literal stands here.
    Regex,
    /// No well-formed piece of a template literal stands here.
    Template,
    /// No statement stands here.
    Statement,
    /// A fixed word or sign of a statement is missing.
    Token,
    /// Text is left after the last statement.
    Trailing,
}

/// A failed reading: what went wrong and at which character of the text,
/// counted from zero.
#[derive(Debug, Clone, Copy, PartialEq, Eq, Structural)]
pub struct ParseError {
    pub kind: ParseErrorKind,
    pub position: usize,
}

/// The error of kind `kind` at `position`.
pub open spec fn failure(kind: ParseErrorKind, position: int) -> ParseError {
    ParseError { kind, position: position as usize }
}

impl ParseErrorKind {
    /// The sentence that says what went wrong.
    pub open spec fn describe_text(self) -> Seq<char> {
        match self {
            ParseErrorKind::Comment => "expected a comment"@,
            ParseErrorKind::Identifier => "expected an identifier"@,
            ParseErrorKind::ReservedWord => "reserved word"@,
            ParseErrorKind::Keyword => "expected a literal keyword"@,
            ParseErrorKind::Number => "malformed number"@,
            ParseErrorKind::String => "malformed string literal"@,
            ParseErrorKind::Escape => "malformed escape sequence"@,
            ParseErrorKind::CodePoint => "Code point too large"@,
            ParseErrorKind::Regex => "malformed regular expression"@,
            ParseErrorKind::Template => "malformed template literal"@,
            ParseErrorKind::Statement => "expected a statement"@,
            ParseErrorKind::Token => "unexpected token"@,
            ParseErrorKind::Trailing => "unexpected text after the last statement"@,
        }
    }

    /// A sentence for the reader of an error message.
    pub fn describe(&self) -> (s: &'static str)
        ensures
            s@ == self.describe_text(),
    {
        match self {
            ParseErrorKind::Comment => "expected a comment",
            ParseErrorKind::Identifier => "expected an identifier",
            ParseErrorKind::ReservedWord => "reserved word",
            ParseErrorKind::Keyword => "expected a literal keyword",
            ParseErrorKind::Number => "malformed number",
            ParseErrorKind::String => "malformed string literal",
            ParseErrorKind::Escape => "malformed escape sequence",
            ParseErrorKind::CodePoint => "Code point too large",
            ParseErrorKind::Regex => "malformed regular expression",
            ParseErrorKind::Template => "malformed template literal",
            ParseErrorKind::Statement => "expected a statement",
            ParseErrorKind::Token => "unexpected token",
            ParseErrorKind::Trailing => "unexpected text after the last statement",
        }
    }
}

/// Whether a line ends just before the place `p`: a line terminator stands
/// before it, and not a carriage return with its line feed at `p`.
pub open spec fn line_ends_at(s: Seq<char>, p: int) -> bool {
    1 <= p <= s.len() && is_line_terminator(s[p - 1]) && !(s[p - 1] == '\r' && p < s.len()
        && s[p] == '\n')
}

/// Where the line begins that holds the place `offset`: where the last line
/// before it ends, or at the beginning of the text.
pub open spec fn line_start(s: Seq<char>, offset: int) -> int
    decreases offset,
{
    if offset <= 0 {
        0
    } else if line_ends_at(s, offset) {
        offset
    } else {
        line_start(s, offset - 1)
    }
}

/// How many lines end at or before the place `offset`.
pub open spec fn lines_before(s: Seq<char>, offset: int) -> nat
    decreases offset,
{
    if offset <= 0 {
        0
    } else if line_ends_at(s, offset) {
        lines_before(s, offset - 1) + 1
    } else {
        lines_before(s, offset - 1)
    }
}

/// The line and the column of the place `offset` in the text, both counted
/// from one. A carriage return and the line feed after it end one line.
pub fn position_of(s: &[char], offset: usize) -> (p: Position)
    requires
        offset <= s@.len(),
        offset < usize::MAX,
    ensures
        p.line == lines_before(s@, offset as int) + 1,
        p.column == offset - line_start(s@, offset as int) + 1,
{
    let mut line: usize = 1;
    let mut start: usize = 0;
    let mut i: usize = 0;
    while i < offset
        invariant
            i <= offset <= s@.len(),
            offset < usize::MAX,
            start == line_start(s@, i as int),
            start <= i,
            line == lines_before(s@, i as int) + 1,
            line <= i + 1,
        decreases offset - i,
    {
        let c = s[i];
        let joined = c == '\r' && i + 1 < s.len() && s[i + 1] == '\n';
        i += 1;
        if (c == '\n' || c == '\r' || c == '\u{2028}' || c == '\u{2029}') && !joined {
            start = i;
            line += 1;
        }
    }
    Position { line, column: offset - start + 1 }
}

impl ParseError {
    /// The line and the column of the error in the text that was read;
    /// nothing where the text is shorter than the place of the error.
    pub fn position_in(&self, source: &str) -> (p: Option<Position>)
        ensures
            match p {
                Some(p) => self.position <= source@.len() && p.line == lines_before(
                    source@,
                    self.position as int,
                ) + 1 && p.column == self.position - line_start(source@, self.position as int) + 1,
                None => self.position > source@.len() || self.position == usize::MAX,
            },
    {
        let chars = crate::text::to_chars(source);
        if self.position <= chars.len() && self.position < usize::MAX {
            Some(position_of(&chars, self.position))
        } else {
            None
        }
    }

    /// The message to print for this error.
    pub fn to_string(&self) -> (s: String)
        ensures
            s@ == self.kind.describe_text(),
    {
        self.kind.describe().to_owned()
    }
}

} // verus!
