use vstd::prelude::*;

verus! {

/// A byte offset into a source file.
#[derive(Clone, Copy, Debug, PartialEq, Eq, Structural)]
pub struct Position {
    pub offset: u32,
}

/// A span of source text, used to point diagnostics at the right place.
#[derive(Clone, Copy, Debug, PartialEq, Eq, Structural)]
pub struct Region {
    pub start: Position,
    pub end: Position,
}

/// A value together with the region of source it came from.
#[derive(Clone, Debug, PartialEq, Eq)]
pub struct Loc<T> {
    pub region: Region,
    pub value: T,
}

impl Position {
    pub fn new(offset: u32) -> (r: Position)
        ensures
            r.offset == offset,
    {
        Position { offset }
    }

    /// The position `count` bytes further on the same line.
    pub fn bump_column(self, count: u16) -> (r: Position)
        requires
            self.offset + count <= u32::MAX,
        ensures
            r.offset == self.offset + count,
    {
        Position { offset: self.offset + count as u32 }
    }
}

impl Region {
    pub fn new(start: Position, end: Position) -> (r: Region)
        ensures
            r.start == start,
            r.end == end,
    {
        Region { start, end }
    }

    pub fn zero() -> (r: Region)
        ensures
            r.start.offset == 0,
            r.end.offset == 0,
    {
        Region { start: Position { offset: 0 }, end: Position { offset: 0 } }
    }
}

impl<T> Loc<T> {
    pub fn at(region: Region, value: T) -> (r: Loc<T>)
        ensures
            r.region == region,
            r.value == value,
    {
        Loc { region, value }
    }
}

} // verus!
