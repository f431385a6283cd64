use vstd::prelude::*;

verus! {

/// A single position in the source text: an absolute character index together
/// with the line and column coordinates that index corresponds to.
#[derive(Copy, Clone, PartialEq, Eq, Structural, Debug)]
pub struct SourcePosition {
    pub index: usize,
    pub line: usize,
    pub column: usize,
}

/// Mathematical model of a source position.
pub struct SpecPos {
    pub index: int,
    pub line: int,
    pub column: int,
}

impl View for SourcePosition {
    type V = SpecPos;

    open spec fn view(&self) -> SpecPos {
        SpecPos { index: self.index as int, line: self.line as int, column: self.column as int }
    }
}

/// The position before any character has been consumed.
pub open spec fn origin() -> SpecPos {
    SpecPos { index: 0, line: 0, column: 0 }
}

/// One step of position tracking: consuming a newline advances the line and
/// resets the column; consuming any other character advances the column.
pub open spec fn spec_advance(p: SpecPos, c: char) -> SpecPos {
    if c == '\n' {
        SpecPos { index: p.index + 1, line: p.line + 1, column: 0 }
    } else {
        SpecPos { index: p.index + 1, line: p.line, column: p.column + 1 }
    }
}

/// The position reached after consuming the first `i` characters of `src`.
pub open spec fn pos_of(src: Seq<char>, i: int) -> SpecPos
    decreases i,
{
    if i <= 0 {
        origin()
    } else {
        spec_advance(pos_of(src, i - 1), src[i - 1])
    }
}

/// The index of `pos_of` is the number of characters consumed, and line and
/// column never exceed it.
pub proof fn lemma_pos_of_bounds(src: Seq<char>, i: int)
    requires
        0 <= i,
    ensures
        pos_of(src, i).index == i,
        0 <= pos_of(src, i).line <= i,
        0 <= pos_of(src, i).column <= i,
    decreases i,
{
    if i > 0 {
        lemma_pos_of_bounds(src, i - 1);
    }
}

impl SourcePosition {
    /// The initial position: index, line and column all zero.
    pub fn start() -> (r: Self)
        ensures
            r@ == origin(),
    {
        SourcePosition { index: 0, line: 0, column: 0 }
    }

    /// Advance over a newline character: the line grows, the column resets.
    pub fn advance_ln(&mut self)
        requires
            old(self)@.index < usize::MAX,
            old(self)@.line < usize::MAX,
        ensures
            final(self)@ == spec_advance(old(self)@, '\n'),
    {
        self.index = self.index + 1;
        self.column = 0;
        self.line = self.line + 1;
    }

    /// Advance over a character that is not a newline: the column grows.
    pub fn advance_col(&mut self)
        requires
            old(self)@.index < usize::MAX,
            old(self)@.column < usize::MAX,
        ensures
            final(self)@ == (SpecPos {
                index: old(self)@.index + 1,
                line: old(self)@.line,
                column: old(self)@.column + 1,
            }),
    {
        self.index = self.index + 1;
        self.column = self.column + 1;
    }
}

/// A contiguous range of source characters: a start position plus a length.
#[derive(Copy, Clone, PartialEq, Eq, Structural, Debug)]
pub struct SourceSpan {
    pub start_pos: SourcePosition,
    pub source_len: usize,
}

/// Mathematical model of a source span.
pub struct SpecSpan {
    pub start: SpecPos,
    pub len: int,
}

impl View for SourceSpan {
    type V = SpecSpan;

    open spec fn view(&self) -> SpecSpan {
        SpecSpan { start: self.start_pos@, len: self.source_len as int }
    }
}

impl SourceSpan {
    pub fn new(start_pos: SourcePosition, source_len: usize) -> (r: Self)
        ensures
            r@ == (SpecSpan { start: start_pos@, len: source_len as int }),
    {
        SourceSpan { start_pos, source_len }
    }
}

} // verus!
