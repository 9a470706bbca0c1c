use vstd::prelude::*;

use crate::ast::{BadIdent, Base, PatternType};
use crate::region::{Loc, Region};

verus! {

/// Why a pattern is not legal where it stands.
#[derive(Clone, Copy, Debug, PartialEq, Eq, Structural)]
pub enum BadPattern {
    /// A literal pattern outside a `when` branch.
    Unsupported(PatternType),
    /// `_` where a definition must bind a name.
    UnderscoreInDef,
    /// An interpolation inside a string literal pattern.
    Interpolation,
    /// A `\u(...)` escape inside a string literal pattern, which patterns do
    /// not decode.
    UnicodeEscape,
}

/// Why a literal or identifier in a pattern could not be read.
#[derive(Clone, Copy, Debug, PartialEq, Eq, Structural)]
pub enum MalformedPatternProblem {
    MalformedInt,
    MalformedFloat,
    MalformedBase(Base),
    Unknown,
    QualifiedIdentifier,
    BadIdent(BadIdent),
    EmptySingleQuote,
    MultipleCharsInSingleQuote,
}

/// A problem that makes the pattern fail if it is reached at run time.
#[derive(Clone, Debug, PartialEq, Eq)]
pub enum RuntimeError {
    Shadowing { original_region: Region, shadow: Loc<String> },
    OpaqueNotApplied(Loc<String>),
    OpaqueNotDefined(Loc<String>),
    OpaqueAppliedToMultipleArgs(Region),
    MalformedPattern(MalformedPatternProblem, Region),
}

/// A diagnostic appended to the module's sink.
#[derive(Clone, Debug, PartialEq, Eq)]
pub enum Problem {
    RuntimeError(RuntimeError),
    UnsupportedPattern(BadPattern, Region),
}

} // verus!
