use vstd::prelude::*;
use vstd::slice::slice_subrange;

use crate::region::{Position, Region};

verus! {

/// Whether a parser consumed input before it stopped.
#[derive(Clone, Copy, Debug, PartialEq, Eq, Structural)]
pub enum Progress {
    MadeProgress,
    NoProgress,
}

/// Input that no parser accepts at all.
#[derive(Clone, Copy, Debug, PartialEq, Eq, Structural)]
pub enum BadInputError {
    HasTab,
    LineTooLong,
    TooManyLines,
    BadUtf8,
}

/// A column within the current line.
#[derive(Clone, Copy, Debug, PartialEq, Eq, Structural)]
pub struct JustColumn {
    pub column: u16,
}

/// A parser's position in a source file: the input that is left, how long
/// the whole input was, and the current column and indentation.
#[derive(Clone)]
pub struct State<'a> {
    /// The input not yet consumed; its first byte is the one under
    /// examination.
    bytes: &'a [u8],
    /// The length of the whole input, in bytes.
    input_len: usize,
    pub xyzlcol: JustColumn,
    /// The current indentation, in columns.
    pub indent_column: u16,
}

impl<'a> State<'a> {
    /// The input not yet consumed.
    pub closed spec fn remaining(&self) -> Seq<u8> {
        self.bytes@
    }

    /// The length of the whole input.
    pub closed spec fn input_len(&self) -> nat {
        self.input_len as nat
    }

    /// The current column.
    pub closed spec fn column(&self) -> u16 {
        self.xyzlcol.column
    }

    /// The current indentation.
    pub closed spec fn indent(&self) -> u16 {
        self.indent_column
    }

    /// What is left is never longer than the whole input.
    pub closed spec fn wf(&self) -> bool {
        self.bytes@.len() <= self.input_len
    }

    /// What well-formedness means to a caller: the input left is never
    /// longer than the whole input.
    pub proof fn lemma_wf(&self)
        ensures
            self.wf() <==> self.remaining().len() <= self.input_len(),
    {
    }

    /// The offset of the first byte not yet consumed.
    pub open spec fn offset(&self) -> int {
        self.input_len() - self.remaining().len()
    }

    pub fn new(bytes: &'a [u8]) -> (r: State<'a>)
        ensures
            r.wf(),
            r.remaining() == bytes@,
            r.input_len() == bytes@.len(),
            r.column() == 0,
            r.indent() == 0,
    {
        State { bytes, input_len: bytes.len(), xyzlcol: JustColumn { column: 0 }, indent_column: 0 }
    }

    pub fn bytes(&self) -> (r: &'a [u8])
        ensures
            r@ == self.remaining(),
    {
        self.bytes
    }

    /// The state with `offset` more bytes consumed; column and indentation
    /// stay as they are.
    pub fn advance(&self, offset: usize) -> (r: State<'a>)
        requires
            offset <= self.remaining().len(),
        ensures
            r.remaining() == self.remaining().subrange(offset as int, self.remaining().len() as int),
            r.input_len() == self.input_len(),
            self.wf() ==> r.wf(),
            r.column() == self.column(),
            r.indent() == self.indent(),
    {
        State {
            bytes: slice_subrange(self.bytes, offset, self.bytes.len()),
            input_len: self.input_len,
            xyzlcol: self.xyzlcol,
            indent_column: self.indent_column,
        }
    }

    /// The current position: how many bytes were consumed (truncated to
    /// 32 bits).
    pub fn pos(&self) -> (r: Position)
        requires
            self.wf(),
        ensures
            r.offset == self.offset() as u32,
    {
        Position::new((self.input_len - self.bytes.len()) as u32)
    }

    /// Whether all input is consumed.
    pub fn has_reached_end(&self) -> (r: bool)
        ensures
            r == (self.remaining().len() == 0),
    {
        self.bytes.len() == 0
    }

    /// Consumes `quantity` bytes on the current line, which must not take
    /// the column past `u16::MAX`; the error comes from `to_error` at the
    /// current position, with the state unchanged.
    pub fn advance_without_indenting_ee<TE, E>(self, quantity: usize, to_error: TE) -> (r: Result<
        Self,
        (Progress, E, Self),
    >) where TE: Fn(Position) -> E
        requires
            self.wf(),
            self.column() + quantity <= u16::MAX ==> quantity <= self.remaining().len(),
            forall|p: Position| to_error.requires((p,)),
        ensures
            self.column() + quantity <= u16::MAX <==> r is Ok,
            r matches Ok(s) ==> {
                &&& s.wf()
                &&& s.remaining() == self.remaining().subrange(
                    quantity as int,
                    self.remaining().len() as int,
                )
                &&& s.input_len() == self.input_len()
                &&& s.column() == self.column() + quantity
                &&& s.indent() == self.indent()
            },
            r matches Err((progress, e, s)) ==> {
                &&& progress == Progress::NoProgress
                &&& s == self
                &&& to_error.ensures((Position { offset: self.offset() as u32 },), e)
            },
    {
        match (self.xyzlcol.column as usize).checked_add(quantity) {
            Some(column_usize) => {
                if column_usize <= 0xffff {
                    return Ok(
                        State {
                            bytes: slice_subrange(self.bytes, quantity, self.bytes.len()),
                            input_len: self.input_len,
                            xyzlcol: JustColumn { column: column_usize as u16 },
                            indent_column: self.indent_column,
                        },
                    );
                }
            },
            None => {},
        }
        let p = self.pos();
        let e = to_error(p);
        Err((Progress::NoProgress, e, self))
    }

    /// As `advance_without_indenting_ee`, reporting a line that is too long.
    pub fn advance_without_indenting_e<TE, E>(self, quantity: usize, to_error: TE) -> (r: Result<
        Self,
        (Progress, E, Self),
    >) where TE: Fn(BadInputError, Position) -> E
        requires
            self.wf(),
            self.column() + quantity <= u16::MAX ==> quantity <= self.remaining().len(),
            forall|p: Position| to_error.requires((BadInputError::LineTooLong, p)),
        ensures
            self.column() + quantity <= u16::MAX <==> r is Ok,
            r matches Ok(s) ==> {
                &&& s.wf()
                &&& s.remaining() == self.remaining().subrange(
                    quantity as int,
                    self.remaining().len() as int,
                )
                &&& s.input_len() == self.input_len()
                &&& s.column() == self.column() + quantity
                &&& s.indent() == self.indent()
            },
            r matches Err((progress, e, s)) ==> {
                &&& progress == Progress::NoProgress
                &&& s == self
            },
    {
        self.advance_without_indenting_ee(
            quantity,
            |p: Position| to_error(BadInputError::LineTooLong, p),
        )
    }

    /// The region from the current position to `length` bytes further on
    /// the same line.
    pub fn len_region(&self, length: u16) -> (r: Region)
        requires
            self.wf(),
            (self.offset() as u32) + length <= u32::MAX,
        ensures
            r.start.offset == self.offset() as u32,
            r.end.offset == r.start.offset + length,
    {
        let start = self.pos();
        Region::new(start, start.bump_column(length))
    }
}

} // verus!
