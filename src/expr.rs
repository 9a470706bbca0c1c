use vstd::prelude::*;

use crate::symbol::Symbol;

verus! {

/// A canonical expression, as far as patterns need one: the default value of
/// an optional record field, with its names resolved.
#[derive(Clone, Debug, PartialEq, Eq)]
pub enum Expr {
    Var(Symbol),
    Str(String),
    /// A name that no binding in scope has.
    LookupNotInScope(String),
}

} // verus!
