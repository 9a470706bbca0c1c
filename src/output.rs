use vstd::prelude::*;
use vstd::seq_lib::seq_to_set_distributes_over_add;

use crate::symbol::Symbol;

verus! {

/// What canonicalization accumulates besides the tree: the symbols bound,
/// the type definitions referenced, the types and the values looked up.
#[derive(Debug)]
pub struct Output {
    pub bound_symbols: Vec<Symbol>,
    pub referenced_type_defs: Vec<Symbol>,
    pub type_lookups: Vec<Symbol>,
    pub value_lookups: Vec<Symbol>,
}

impl Output {
    pub open spec fn bound(&self) -> Set<Symbol> {
        self.bound_symbols@.to_set()
    }

    pub open spec fn type_defs(&self) -> Set<Symbol> {
        self.referenced_type_defs@.to_set()
    }

    pub open spec fn types(&self) -> Set<Symbol> {
        self.type_lookups@.to_set()
    }

    pub open spec fn values(&self) -> Set<Symbol> {
        self.value_lookups@.to_set()
    }

    pub open spec fn is_empty(&self) -> bool {
        &&& self.bound() == Set::<Symbol>::empty()
        &&& self.type_defs() == Set::<Symbol>::empty()
        &&& self.types() == Set::<Symbol>::empty()
        &&& self.values() == Set::<Symbol>::empty()
    }

    pub fn new() -> (r: Output)
        ensures
            r.is_empty(),
    {
        let r = Output {
            bound_symbols: Vec::new(),
            referenced_type_defs: Vec::new(),
            type_lookups: Vec::new(),
            value_lookups: Vec::new(),
        };
        proof {
            assert(r.bound() =~= Set::<Symbol>::empty());
            assert(r.type_defs() =~= Set::<Symbol>::empty());
            assert(r.types() =~= Set::<Symbol>::empty());
            assert(r.values() =~= Set::<Symbol>::empty());
        }
        r
    }

    pub fn insert_bound(&mut self, s: Symbol)
        ensures
            final(self).bound() == old(self).bound().insert(s),
            final(self).type_defs() == old(self).type_defs(),
            final(self).types() == old(self).types(),
            final(self).values() == old(self).values(),
    {
        self.bound_symbols.push(s);
        proof {
            old(self).bound_symbols@.lemma_push_to_set_commute(s);
        }
    }

    /// Records that this site refers to the type definition `s`.
    pub fn insert_type_reference(&mut self, s: Symbol)
        ensures
            final(self).bound() == old(self).bound(),
            final(self).type_defs() == old(self).type_defs().insert(s),
            final(self).types() == old(self).types().insert(s),
            final(self).values() == old(self).values(),
    {
        self.referenced_type_defs.push(s);
        self.type_lookups.push(s);
        proof {
            old(self).referenced_type_defs@.lemma_push_to_set_commute(s);
            old(self).type_lookups@.lemma_push_to_set_commute(s);
        }
    }

    pub fn insert_value_lookup(&mut self, s: Symbol)
        ensures
            final(self).bound() == old(self).bound(),
            final(self).type_defs() == old(self).type_defs(),
            final(self).types() == old(self).types(),
            final(self).values() == old(self).values().insert(s),
    {
        self.value_lookups.push(s);
        proof {
            old(self).value_lookups@.lemma_push_to_set_commute(s);
        }
    }

    /// Merges `other` into `self`: each set becomes the union of the two.
    pub fn union(&mut self, other: Output)
        ensures
            final(self).bound() == old(self).bound().union(other.bound()),
            final(self).type_defs() == old(self).type_defs().union(other.type_defs()),
            final(self).types() == old(self).types().union(other.types()),
            final(self).values() == old(self).values().union(other.values()),
    {
        let mut other = other;
        let ghost o = other;
        self.bound_symbols.append(&mut other.bound_symbols);
        self.referenced_type_defs.append(&mut other.referenced_type_defs);
        self.type_lookups.append(&mut other.type_lookups);
        self.value_lookups.append(&mut other.value_lookups);
        proof {
            seq_to_set_distributes_over_add(old(self).bound_symbols@, o.bound_symbols@);
            seq_to_set_distributes_over_add(old(self).referenced_type_defs@, o.referenced_type_defs@);
            seq_to_set_distributes_over_add(old(self).type_lookups@, o.type_lookups@);
            seq_to_set_distributes_over_add(old(self).value_lookups@, o.value_lookups@);
        }
    }
}

} // verus!
