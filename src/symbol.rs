use vstd::prelude::*;

verus! {

/// A resolved binding identity: the module it belongs to and its index in
/// that module's identifier table.
#[derive(Clone, Copy, Debug, PartialEq, Eq, Structural)]
pub struct Symbol {
    pub module_id: u32,
    pub ident_id: u64,
}

impl Symbol {
    pub fn new(module_id: u32, ident_id: u64) -> (r: Symbol)
        ensures
            r.module_id == module_id,
            r.ident_id == ident_id,
    {
        Symbol { module_id, ident_id }
    }
}

/// A type-variable placeholder, resolved later by type inference.
#[derive(Clone, Copy, Debug, PartialEq, Eq, Structural)]
pub struct Variable {
    pub index: u64,
}

/// The source of fresh type variables: each call of `fresh` hands out the
/// next unused index.
#[derive(Debug)]
pub struct VarStore {
    pub next: u64,
}

impl VarStore {
    pub fn new() -> (r: VarStore)
        ensures
            r.next == 0,
    {
        VarStore { next: 0 }
    }

    pub fn fresh(&mut self) -> (r: Variable)
        requires
            old(self).next < u64::MAX,
        ensures
            r.index == old(self).next,
            final(self).next == old(self).next + 1,
    {
        let v = Variable { index: self.next };
        self.next = self.next + 1;
        v
    }
}

/// The identifier table of one module: an identifier's id is its index here.
/// Adding a name always mints a new id, even for a name already present.
#[derive(Debug)]
pub struct IdentIds {
    pub names: Vec<String>,
}

impl IdentIds {
    pub fn new() -> (r: IdentIds)
        ensures
            r.names@.len() == 0,
    {
        IdentIds { names: Vec::new() }
    }

    pub fn add(&mut self, name: &String) -> (r: u64)
        ensures
            r == old(self).names@.len(),
            final(self).names@ == old(self).names@.push(*name),
    {
        let id = self.names.len() as u64;
        self.names.push(name.clone());
        id
    }

    /// The id of the first entry named `name`, adding the name if it is absent.
    pub fn get_or_insert(&mut self, name: &String) -> (r: u64)
        ensures
            r < final(self).names@.len(),
            final(self).names@[r as int]@ == name@,
            forall|j: int| 0 <= j < r ==> #[trigger] final(self).names@[j]@ != name@,
            (exists|j: int| 0 <= j < old(self).names@.len() && #[trigger] old(self).names@[j]@ == name@)
                ==> final(self).names@ == old(self).names@,
            !(exists|j: int| 0 <= j < old(self).names@.len() && #[trigger] old(self).names@[j]@ == name@)
                ==> final(self).names@ == old(self).names@.push(*name),
    {
        let mut i: usize = 0;
        while i < self.names.len()
            invariant
                i <= self.names@.len(),
                forall|j: int| 0 <= j < i ==> #[trigger] self.names@[j]@ != name@,
            decreases self.names@.len() - i,
        {
            if self.names[i] == *name {
                return i as u64;
            }
            i = i + 1;
        }
        self.add(name)
    }
}

} // verus!
