//! Positions, spans and a character cursor over source text.

use vstd::prelude::*;

verus! {

/// Sentinel character handed out when a cursor is asked for a character
/// beyond the end of its text.
pub const EOF_CHAR: char = '\0';

/// A half-open range of character offsets into the source text.
#[derive(Clone, Copy, Debug, PartialEq, Eq, Structural, Hash)]
pub struct TextSpan {
    pub start: usize,
    pub end: usize,
}

impl TextSpan {
    /// A span never ends before it starts.
    pub open spec fn wf(self) -> bool {
        self.start <= self.end
    }

    pub fn new(start: usize, end: usize) -> (s: TextSpan)
        requires
            start <= end,
        ensures
            s.start == start,
            s.end == end,
    {
        TextSpan { start, end }
    }

    /// The empty span sitting at `pos`, used for synthesized missing tokens.
    pub fn zero_width(pos: usize) -> (s: TextSpan)
        ensures
            s.start == pos,
            s.end == pos,
    {
        TextSpan { start: pos, end: pos }
    }

    pub fn len(&self) -> (n: usize)
        requires
            self.wf(),
        ensures
            n == self.end - self.start,
    {
        self.end - self.start
    }
}

impl Default for TextSpan {
    fn default() -> (s: Self)
        ensures
            s.start == 0,
            s.end == 0,
    {
        TextSpan { start: 0, end: 0 }
    }
}

/// A line/column pair, both counted from zero.
#[derive(Clone, Copy, Debug, PartialEq, Eq, Structural, Hash)]
pub struct Position {
    pub line: usize,
    pub character: usize,
}

impl Position {
    pub fn new(line: usize, character: usize) -> (p: Position)
        ensures
            p.line == line,
            p.character == character,
    {
        Position { line, character }
    }

    /// Step one character to the right on the current line.
    pub fn advance(&mut self)
        requires
            old(self).character < usize::MAX,
        ensures
            final(self).line == old(self).line,
            final(self).character == old(self).character + 1,
    {
        self.character = self.character + 1;
    }

    /// Step to the start of the next line.
    pub fn advance_line(&mut self)
        requires
            old(self).line < usize::MAX,
        ensures
            final(self).line == old(self).line + 1,
            final(self).character == 0,
    {
        self.line = self.line + 1;
        self.character = 0;
    }
}

impl Default for Position {
    fn default() -> (p: Self)
        ensures
            p.line == 0,
            p.character == 0,
    {
        Position { line: 0, character: 0 }
    }
}

/// A cursor over the characters of one source text, tracking the line/column
/// position of the next character to be read.
pub struct Cursor {
    chars: Vec<char>,
    index: usize,
    pub pos: Position,
}

impl Cursor {
    /// The characters not yet consumed.
    pub closed spec fn remaining(self) -> Seq<char> {
        self.chars@.skip(self.index as int)
    }

    /// The position of the next character to be read.
    pub closed spec fn position(self) -> Position {
        self.pos
    }

    pub closed spec fn wf(self) -> bool {
        self.index <= self.chars@.len()
    }

    /// Build a cursor over the full text, positioned at its first character.
    pub fn with(chars: Vec<char>) -> (c: Cursor)
        ensures
            c.wf(),
            c.remaining() == chars@,
            c.position().line == 0,
            c.position().character == 0,
    {
        let c = Cursor { chars, index: 0, pos: Position { line: 0, character: 0 } };
        proof {
            assert(c.remaining() =~= c.chars@);
        }
        c
    }

    /// Consume and return the next character, if any, advancing the position:
    /// a newline moves to the start of the next line, anything else moves one
    /// column to the right.
    pub fn advance(&mut self) -> (r: Option<char>)
        requires
            old(self).wf(),
            old(self).position().line < usize::MAX,
            old(self).position().character < usize::MAX,
        ensures
            final(self).wf(),
            old(self).remaining().len() == 0 ==> {
                &&& r is None
                &&& *final(self) == *old(self)
            },
            old(self).remaining().len() > 0 ==> {
                &&& r == Some(old(self).remaining()[0])
                &&& final(self).remaining() == old(self).remaining().skip(1)
                &&& (old(self).remaining()[0] == '\n' ==> final(self).position() == (Position {
                    line: (old(self).position().line + 1) as usize,
                    character: 0,
                }))
                &&& (old(self).remaining()[0] != '\n' ==> final(self).position() == (Position {
                    line: old(self).position().line,
                    character: (old(self).position().character + 1) as usize,
                }))
            },
    {
        if self.index < self.chars.len() {
            let next_char = self.chars[self.index];
            self.index = self.index + 1;
            if next_char == '\n' {
                self.pos.advance_line();
            } else {
                self.pos.advance();
            }
            proof {
                assert(final(self).remaining() =~= old(self).remaining().skip(1));
            }
            Some(next_char)
        } else {
            None
        }
    }

    /// How many characters are left to read.
    pub fn source_len(&self) -> (n: usize)
        requires
            self.wf(),
        ensures
            n == self.remaining().len(),
    {
        self.chars.len() - self.index
    }

    /// Peek the character `n` places ahead without consuming anything;
    /// [`EOF_CHAR`] when fewer than `n + 1` characters are left.
    pub fn nth(&self, n: usize) -> (c: char)
        requires
            self.wf(),
        ensures
            n < self.remaining().len() ==> c == self.remaining()[n as int],
            n >= self.remaining().len() ==> c == EOF_CHAR,
    {
        if n < self.chars.len() - self.index {
            self.chars[self.index + n]
        } else {
            EOF_CHAR
        }
    }
}

} // verus!
