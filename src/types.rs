use vstd::prelude::*;

verus! {

/// The class of a token.
#[derive(Debug, Clone, Copy, PartialEq, Eq, Structural)]
pub enum TokenType {
    Whitespace,
    Comment,
    Literal,
    Number,
    Comma,
    Colon,
    Identifier,
    Semicolon,
    Equal,
    Todo,
    Unknown,
    /// The end of a physical line.
    EOL,
    /// The end of the source.
    EOS,
}

/// A place in the source: zero-based line, column within that line, and
/// character offset from the start of the source.
#[derive(Debug, Clone, Copy, PartialEq, Eq, Structural)]
pub struct Position {
    pub line: usize,
    pub character: usize,
    pub index: usize,
}

/// The half-open span `[start, end)` of the source.
#[derive(Debug, Clone, Copy, PartialEq, Eq, Structural)]
pub struct Range {
    pub start: Position,
    pub end: Position,
}

/// A classified span of the source; the text itself stays in the source.
#[derive(Debug, Clone, Copy, PartialEq, Eq, Structural)]
pub struct Token {
    pub token_type: TokenType,
    pub range: Range,
}

/// The tokens of one statement, ended by exactly one `EOL`, `EOS` or `;` token
/// that closes it.
#[derive(Debug)]
pub struct LogicalLine {
    pub tokens: Vec<Token>,
}

impl View for LogicalLine {
    type V = Seq<Token>;

    open spec fn view(&self) -> Seq<Token> {
        self.tokens@
    }
}

} // verus!
