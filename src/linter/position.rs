//! Zero-based line / UTF-16 column positions and ranges in source text.
use vstd::prelude::*;
use crate::text::{chars_of, utf16_width, utf8_width};

verus! {

/// A position in a text document: zero-based line, and zero-based offset
/// within the line counted in UTF-16 code units.
#[derive(Debug, Clone, Copy, PartialEq, Eq, Structural)]
pub struct Position {
    pub line: u32,
    pub character: u32,
}

/// A range from `start` (inclusive) to `end` (exclusive).
#[derive(Debug, Clone, Copy, PartialEq, Eq, Structural)]
pub struct Range {
    pub start: Position,
    pub end: Position,
}

/// A place in some file: its URI and a range in it.
#[derive(Debug, Clone)]
pub struct Location {
    pub uri: String,
    pub range: Range,
}

/// Context attached to a diagnostic ("defined here", "used here").
#[derive(Debug, Clone)]
pub struct RelatedInformation {
    pub location: Location,
    pub message: String,
}

/// Rendering hints for a diagnostic.
#[derive(Debug, Clone, Copy, PartialEq, Eq, Structural)]
pub enum DiagnosticTag {
    /// Unused or unnecessary code, usually shown dimmed.
    Unnecessary,
    /// Deprecated code, usually shown struck through.
    Deprecated,
}

/// How many characters of `cs` start before byte `offset`.
pub open spec fn chars_before(cs: Seq<char>, offset: int) -> nat
    decreases cs.len(),
{
    if cs.len() == 0 || offset <= 0 {
        0
    } else {
        1 + chars_before(cs.drop_first(), offset - utf8_width(cs[0]))
    }
}

/// The (line, character) position just after the characters `cs`.
pub open spec fn end_position(cs: Seq<char>) -> (nat, nat)
    decreases cs.len(),
{
    if cs.len() == 0 {
        (0, 0)
    } else {
        let (line, character) = end_position(cs.drop_last());
        if cs.last() == '\n' {
            (line + 1, 0)
        } else {
            (line, character + utf16_width(cs.last()))
        }
    }
}

/// The position of byte `offset` in the text `cs`; an offset past the end
/// gives the position after the last character.
pub open spec fn position_at(cs: Seq<char>, offset: int) -> (nat, nat) {
    end_position(cs.subrange(0, chars_before(cs, offset) as int))
}

/// A text short enough that every position in it fits in `u32`.
pub open spec fn fits_positions(s: Seq<char>) -> bool {
    2 * s.len() <= u32::MAX
}

proof fn lemma_chars_before_step(cs: Seq<char>, offset: int, k: nat, rem: int)
    requires
        k < cs.len(),
        rem > 0,
        chars_before(cs, offset) == k + chars_before(cs.subrange(k as int, cs.len() as int), rem),
    ensures
        chars_before(cs, offset) == k + 1 + chars_before(
            cs.subrange(k + 1int, cs.len() as int),
            rem - utf8_width(cs[k as int]),
        ),
{
    let tail = cs.subrange(k as int, cs.len() as int);
    assert(tail.drop_first() =~= cs.subrange(k + 1int, cs.len() as int));
}

proof fn lemma_end_position_bound(cs: Seq<char>)
    ensures
        end_position(cs).0 <= cs.len(),
        end_position(cs).1 <= 2 * cs.len(),
    decreases cs.len(),
{
    if cs.len() > 0 {
        lemma_end_position_bound(cs.drop_last());
    }
}

impl Position {
    pub fn new(line: u32, character: u32) -> (r: Self)
        ensures
            r.line == line,
            r.character == character,
    {
        Position { line, character }
    }

    /// The position of byte `byte_offset` in `source`: lines advance at each
    /// `\n`, columns count UTF-16 code units; an offset past the end gives
    /// the position after the last character.
    pub fn from_byte_offset(source: &str, byte_offset: usize) -> (r: Self)
        requires
            fits_positions(source@),
        ensures
            (r.line as nat, r.character as nat) == position_at(source@, byte_offset as int),
    {
        let cs = chars_of(source);
        let mut line: u32 = 0;
        let mut character: u32 = 0;
        let mut rem: usize = byte_offset;
        let mut k: usize = 0;
        proof {
            assert(cs@.subrange(0, cs@.len() as int) =~= cs@);
        }
        while k < cs.len() && rem > 0
            invariant
                cs@ == source@,
                fits_positions(source@),
                k <= cs@.len(),
                chars_before(cs@, byte_offset as int) == k + chars_before(
                    cs@.subrange(k as int, cs@.len() as int),
                    rem as int,
                ),
                (line as nat, character as nat) == end_position(cs@.subrange(0, k as int)),
            decreases cs.len() - k,
        {
            let ch = cs[k];
            proof {
                lemma_chars_before_step(cs@, byte_offset as int, k as nat, rem as int);
                let pre = cs@.subrange(0, k + 1);
                assert(pre.drop_last() =~= cs@.subrange(0, k as int));
                lemma_end_position_bound(pre.drop_last());
            }
            if ch == '\n' {
                line = line + 1;
                character = 0;
            } else {
                let w: u32 = if (ch as u32) < 0x10000 { 1 } else { 2 };
                character = character + w;
            }
            let w8: usize = if (ch as u32) < 0x80 {
                1
            } else if (ch as u32) < 0x800 {
                2
            } else if (ch as u32) < 0x10000 {
                3
            } else {
                4
            };
            proof {
                // once the remaining count reaches zero the scan stops either way
                let tail = cs@.subrange(k + 1, cs@.len() as int);
                if rem as int - utf8_width(ch) <= 0 {
                    assert(chars_before(tail, rem as int - utf8_width(ch)) == 0);
                    assert(chars_before(tail, 0) == 0);
                }
            }
            rem = if rem > w8 { rem - w8 } else { 0 };
            k = k + 1;
        }
        proof {
            let tail = cs@.subrange(k as int, cs@.len() as int);
            assert(chars_before(tail, rem as int) == 0);
        }
        Position { line, character }
    }
}

impl Range {
    pub fn new(start: Position, end: Position) -> (r: Self)
        ensures
            r.start == start,
            r.end == end,
    {
        Range { start, end }
    }

    /// The range between two byte offsets of `source`.
    pub fn from_byte_offsets(source: &str, start_offset: usize, end_offset: usize) -> (r: Self)
        requires
            fits_positions(source@),
        ensures
            (r.start.line as nat, r.start.character as nat) == position_at(
                source@,
                start_offset as int,
            ),
            (r.end.line as nat, r.end.character as nat) == position_at(source@, end_offset as int),
    {
        Range {
            start: Position::from_byte_offset(source, start_offset),
            end: Position::from_byte_offset(source, end_offset),
        }
    }

    /// Whether `position` lies in the range: at or after the start, strictly
    /// before the end.
    pub fn contains(&self, position: Position) -> (r: bool)
        ensures
            r == (self.start.line <= position.line <= self.end.line
                && (position.line == self.start.line ==> position.character
                >= self.start.character) && (position.line == self.end.line
                ==> position.character < self.end.character)),
    {
        if position.line < self.start.line || position.line > self.end.line {
            return false;
        }
        if position.line == self.start.line && position.character < self.start.character {
            return false;
        }
        if position.line == self.end.line && position.character >= self.end.character {
            return false;
        }
        true
    }
}

impl Location {
    pub fn new(uri: String, range: Range) -> (r: Self)
        ensures
            r.uri == uri,
            r.range == range,
    {
        Location { uri, range }
    }
}

} // verus!
