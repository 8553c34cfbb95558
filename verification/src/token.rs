//! Positions, spans and tokens.

use vstd::prelude::*;

verus! {

/// A place in a source text. Lines and columns count from zero; a column
/// counts Unicode scalar values from the start of its line, not bytes.
#[derive(Clone, Copy, Debug, PartialEq, Eq, Structural, PartialOrd, Ord, Hash)]
pub struct Position {
    pub line: u32,
    pub column: u32,
}

impl Position {
    /// Whether `self` comes before `other` or is the same place: the order is
    /// by line first, then by column.
    pub open spec fn at_or_before(self, other: Position) -> bool {
        self.line < other.line || (self.line == other.line && self.column <= other.column)
    }

    pub fn new(line: u32, column: u32) -> (p: Position)
        ensures
            p.line == line,
            p.column == column,
    {
        Position { line, column }
    }

    /// The executable form of [`Position::at_or_before`].
    pub fn precedes(&self, other: &Position) -> (r: bool)
        ensures
            r == self.at_or_before(*other),
    {
        self.line < other.line || (self.line == other.line && self.column <= other.column)
    }
}

impl Default for Position {
    fn default() -> (p: Position)
        ensures
            p.line == 0,
            p.column == 0,
    {
        Position { line: 0, column: 0 }
    }
}

/// A half-open span of source text: `end` is the first place past it.
#[derive(Clone, Copy, Debug, PartialEq, Eq, Structural, Hash)]
pub struct Range {
    pub start: Position,
    pub end: Position,
}

impl Range {
    /// A span never ends before it starts.
    pub open spec fn wf(self) -> bool {
        self.start.at_or_before(self.end)
    }

    pub fn new(start: Position, end: Position) -> (r: Range)
        requires
            start.at_or_before(end),
        ensures
            r.start == start,
            r.end == end,
            r.wf(),
    {
        Range { start, end }
    }
}

impl Default for Range {
    fn default() -> (r: Range)
        ensures
            r.start == (Position { line: 0, column: 0 }),
            r.end == (Position { line: 0, column: 0 }),
            r.wf(),
    {
        Range { start: Position { line: 0, column: 0 }, end: Position { line: 0, column: 0 } }
    }
}

/// What a token is. `EOF` and `Invalid` belong to the tokenizer itself; every
/// other kind is one of the grammar's own, carried in `Grammar`.
#[derive(Clone, Copy, Debug, PartialEq, Eq, Hash)]
pub enum TokenKind<K> {
    /// The end of the input.
    EOF,
    /// Text that no rule of the grammar recognizes.
    Invalid,
    /// One of the grammar's kinds.
    Grammar(K),
}

impl<K> Default for TokenKind<K> {
    fn default() -> (k: TokenKind<K>)
        ensures
            k == TokenKind::<K>::EOF,
    {
        TokenKind::EOF
    }
}

/// A classified span of source text.
#[derive(Clone, Copy, Debug, PartialEq, Eq, Hash)]
pub struct Token<K> {
    pub kind: TokenKind<K>,
    pub range: Range,
}

impl<K> Token<K> {
    pub fn new(kind: TokenKind<K>, range: Range) -> (t: Token<K>)
        ensures
            t.kind == kind,
            t.range == range,
    {
        Token { kind, range }
    }

    /// Whether this token marks the end of the input.
    pub fn is_eof(&self) -> (r: bool)
        ensures
            r == (self.kind == TokenKind::<K>::EOF),
    {
        match self.kind {
            TokenKind::EOF => true,
            _ => false,
        }
    }
}

impl<K> Default for Token<K> {
    /// The placeholder that a tokenizer holds before its first scan: an
    /// end-of-input token over the empty span at the origin.
    fn default() -> (t: Token<K>)
        ensures
            t.kind == TokenKind::<K>::EOF,
            t.range.start == (Position { line: 0, column: 0 }),
            t.range.end == (Position { line: 0, column: 0 }),
    {
        Token {
            kind: TokenKind::EOF,
            range: Range { start: Position { line: 0, column: 0 }, end: Position { line: 0, column: 0 } },
        }
    }
}

/// Whether the spans of `tokens` follow one another in the text: each token
/// starts at or after the end of every token before it.
pub open spec fn ordered<K>(tokens: Seq<Token<K>>) -> bool {
    forall|i: int, j: int|
        0 <= i < j < tokens.len() ==> (#[trigger] tokens[i]).range.end.at_or_before(
            (#[trigger] tokens[j]).range.start,
        )
}

/// The order of positions is transitive.
pub proof fn lemma_at_or_before_transitive(a: Position, b: Position, c: Position)
    requires
        a.at_or_before(b),
        b.at_or_before(c),
    ensures
        a.at_or_before(c),
{
}

} // verus!
