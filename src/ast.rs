use vstd::prelude::*;

use crate::region::{Loc, Position};

verus! {

/// The syntactic context a pattern appears in; it decides which pattern
/// forms are legal there.
#[derive(Clone, Copy, Debug, PartialEq, Eq, Structural)]
pub enum PatternType {
    TopLevelDef,
    DefExpr,
    FunctionArg,
    WhenBranch,
}

/// The base of a non-decimal integer literal.
#[derive(Clone, Copy, Debug, PartialEq, Eq, Structural)]
pub enum Base {
    Octal,
    Binary,
    Hex,
}

/// Why the parser could not read an identifier.
#[derive(Clone, Copy, Debug, PartialEq, Eq, Structural)]
pub enum BadIdent {
    Start(Position),
    Space(Position),
    Underscore(Position),
    QualifiedTag(Position),
    WeirdAccessor(Position),
    WeirdDotAccess(Position),
    WeirdDotQualified(Position),
    StrayDot(Position),
    BadPrivateTag(Position),
}

/// An escape sequence of a string literal.
#[derive(Clone, Copy, Debug, PartialEq, Eq, Structural)]
pub enum EscapedChar {
    Newline,
    Tab,
    Quote,
    Backslash,
    CarriageReturn,
}

/// A surface expression, as far as patterns need one: the default value of
/// an optional record field.
#[derive(Clone, Debug, PartialEq, Eq)]
pub enum Expr {
    Var(String),
    Str(String),
}

/// One segment of a string literal.
#[derive(Clone, Debug, PartialEq, Eq)]
pub enum StrSegment {
    Plaintext(String),
    /// The hex digits of a `\u(...)` escape.
    Unicode(Loc<String>),
    EscapedChar(EscapedChar),
    Interpolated(Loc<Expr>),
}

/// A string literal: one plain line, one line of segments, or a block of
/// lines of segments.
#[derive(Clone, Debug, PartialEq, Eq)]
pub enum StrLiteral {
    PlainLine(String),
    Line(Vec<StrSegment>),
    Block(Vec<Vec<StrSegment>>),
}

/// The constructor a surface `Apply` pattern applies.
#[derive(Clone, Debug, PartialEq, Eq)]
pub enum ApplyHead {
    GlobalTag(String),
    PrivateTag(String),
    OpaqueRef(String),
}

/// One field of a record destructure.
#[derive(Debug)]
pub enum FieldPattern {
    /// `{ x }`: binds the label.
    Identifier(String),
    /// `{ x: guard }`: binds only what the guard binds.
    RequiredField(String, Box<Loc<Pattern>>),
    /// `{ x ? default }`: binds the label, with a default value.
    OptionalField(String, Loc<Expr>),
}

/// A pattern as the parser produces it.
#[derive(Debug)]
pub enum Pattern {
    Identifier(String),
    GlobalTag(String),
    PrivateTag(String),
    OpaqueRef(String),
    Apply(Loc<ApplyHead>, Vec<Loc<Pattern>>),
    RecordDestructure(Vec<Loc<FieldPattern>>),
    NumLiteral(String),
    NonBase10Literal { string: String, base: Base, is_negative: bool },
    FloatLiteral(String),
    StrLiteral(StrLiteral),
    SingleQuote(String),
    Underscore(String),
    SpaceBefore(Box<Pattern>),
    SpaceAfter(Box<Pattern>),
    Malformed(String),
    MalformedIdent(String, BadIdent),
    QualifiedIdentifier { module_name: String, ident: String },
}

} // verus!
