use vstd::prelude::*;

use crate::problem::Problem;
use crate::symbol::IdentIds;

verus! {

/// The per-module state canonicalization threads through: the module's id,
/// its identifier table and the append-only diagnostics sink.
#[derive(Debug)]
pub struct Env {
    pub home: u32,
    pub ident_ids: IdentIds,
    pub problems: Vec<Problem>,
}

impl Env {
    pub fn new(home: u32) -> (r: Env)
        ensures
            r.home == home,
            r.ident_ids.names@.len() == 0,
            r.problems@.len() == 0,
    {
        Env { home, ident_ids: IdentIds::new(), problems: Vec::new() }
    }

    /// Appends a diagnostic.
    pub fn problem(&mut self, p: Problem)
        ensures
            final(self).problems@ == old(self).problems@.push(p),
            final(self).home == old(self).home,
            final(self).ident_ids == old(self).ident_ids,
    {
        self.problems.push(p);
    }
}

} // verus!
