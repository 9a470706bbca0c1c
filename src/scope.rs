use vstd::prelude::*;

use crate::problem::RuntimeError;
use crate::region::{Loc, Region};
use crate::symbol::{IdentIds, Symbol};

verus! {

/// A name bound in a scope, the symbol it stands for, and where it was bound.
#[derive(Clone, Debug, PartialEq, Eq)]
pub struct Binding {
    pub name: String,
    pub symbol: Symbol,
    pub region: Region,
}

/// An opaque type definition: its symbol, the names of its type parameters
/// and how many lambda-set placeholders its definition holds.
#[derive(Clone, Debug, PartialEq, Eq)]
pub struct OpaqueDef {
    pub name: String,
    pub symbol: Symbol,
    pub type_params: Vec<String>,
    pub lambda_sets: usize,
}

/// The symbols that are members of some ability (read-only here).
#[derive(Clone, Debug, PartialEq, Eq)]
pub struct AbilitiesStore {
    pub members: Vec<Symbol>,
}

/// The name-resolution environment of one module: which names are bound,
/// to which symbol, and where; and which opaque types are visible.
#[derive(Clone, Debug, PartialEq, Eq)]
pub struct Scope {
    pub home: u32,
    pub bindings: Vec<Binding>,
    pub opaques: Vec<OpaqueDef>,
}

/// The result of introducing a name that is already bound: the region of the
/// earlier binding, the new name with its region, and the new symbol.
pub type Shadow = (Region, Loc<String>, Symbol);

impl AbilitiesStore {
    pub open spec fn is_member(&self, s: Symbol) -> bool {
        self.members@.contains(s)
    }

    pub fn is_ability_member_name(&self, s: Symbol) -> (r: bool)
        ensures
            r == self.is_member(s),
    {
        let mut i: usize = 0;
        while i < self.members.len()
            invariant
                i <= self.members@.len(),
                forall|j: int| 0 <= j < i ==> self.members@[j] != s,
            decreases self.members@.len() - i,
        {
            if self.members[i] == s {
                return true;
            }
            i = i + 1;
        }
        false
    }
}

impl Scope {
    /// No name is bound twice.
    pub open spec fn wf(&self) -> bool {
        forall|i: int, j: int|
            0 <= i < j < self.bindings@.len() ==> #[trigger] self.bindings@[i].name@
                != #[trigger] self.bindings@[j].name@
    }

    pub open spec fn is_bound(&self, name: Seq<char>) -> bool {
        exists|i: int| 0 <= i < self.bindings@.len() && #[trigger] self.bindings@[i].name@ == name
    }

    /// `name` is bound to `symbol`, by a binding made at `region`.
    pub open spec fn binds(&self, name: Seq<char>, symbol: Symbol, region: Region) -> bool {
        exists|i: int|
            0 <= i < self.bindings@.len() && #[trigger] self.bindings@[i].name@ == name
                && self.bindings@[i].symbol == symbol && self.bindings@[i].region == region
    }

    pub open spec fn is_opaque(&self, name: Seq<char>) -> bool {
        exists|i: int| 0 <= i < self.opaques@.len() && #[trigger] self.opaques@[i].name@ == name
    }

    /// The symbol of a fresh identifier minted in `ids` for this scope.
    pub open spec fn next_symbol(&self, ids: &IdentIds) -> Symbol {
        Symbol { module_id: self.home, ident_id: ids.names@.len() as u64 }
    }

    pub fn new(home: u32) -> (r: Scope)
        ensures
            r.home == home,
            r.bindings@.len() == 0,
            r.opaques@.len() == 0,
            r.wf(),
    {
        Scope { home, bindings: Vec::new(), opaques: Vec::new() }
    }

    /// The index of the binding of `name`, if there is one.
    pub fn find_binding(&self, name: &String) -> (r: Option<usize>)
        requires
            self.wf(),
        ensures
            r is None <==> !self.is_bound(name@),
            r matches Some(i) ==> i < self.bindings@.len() && self.bindings@[i as int].name@ == name@,
    {
        let mut i: usize = 0;
        while i < self.bindings.len()
            invariant
                i <= self.bindings@.len(),
                forall|j: int| 0 <= j < i ==> #[trigger] self.bindings@[j].name@ != name@,
            decreases self.bindings@.len() - i,
        {
            if self.bindings[i].name == *name {
                return Some(i);
            }
            i = i + 1;
        }
        None
    }

    /// Binds `name` to a new symbol. Where the name is already bound the new
    /// symbol replaces the old one, and the earlier binding's region comes back
    /// as an error.
    pub fn introduce(&mut self, name: &String, ident_ids: &mut IdentIds, region: Region) -> (r:
        Result<Symbol, Shadow>)
        requires
            old(self).wf(),
        ensures
            final(self).wf(),
            final(self).home == old(self).home,
            final(self).opaques == old(self).opaques,
            final(ident_ids).names@ == old(ident_ids).names@.push(*name),
            old(ident_ids).names@.len() <= u64::MAX,
            final(self).binds(name@, old(self).next_symbol(old(ident_ids)), region),
            forall|n: Seq<char>|
                #[trigger] final(self).is_bound(n) <==> (old(self).is_bound(n) || n == name@),
            match r {
                Ok(s) => {
                    &&& !old(self).is_bound(name@)
                    &&& s == old(self).next_symbol(old(ident_ids))
                    &&& final(self).bindings@ == old(self).bindings@.push(
                        Binding { name: *name, symbol: s, region },
                    )
                },
                Err((original, shadow, s)) => {
                    &&& old(self).is_bound(name@)
                    &&& s == old(self).next_symbol(old(ident_ids))
                    &&& shadow.region == region
                    &&& shadow.value@ == name@
                    &&& exists|i: int|
                        0 <= i < old(self).bindings@.len() && #[trigger] old(self).bindings@[i].name@
                            == name@ && old(self).bindings@[i].region == original
                            && final(self).bindings@ == old(self).bindings@.update(
                            i,
                            Binding { name: *name, symbol: s, region },
                        )
                },
            },
    {
        let id = ident_ids.add(name);
        let symbol = Symbol::new(self.home, id);
        let binding = Binding { name: name.clone(), symbol, region };
        match self.find_binding(name) {
            None => {
                self.bindings.push(binding);
                proof {
                    assert(self.bindings@[self.bindings@.len() - 1].name@ == name@);
                    assert forall|n: Seq<char>| #[trigger] self.is_bound(n) <==> (old(self).is_bound(n) || n == name@) by {
                        if old(self).is_bound(n) {
                            let k = choose|k: int| 0 <= k < old(self).bindings@.len() && #[trigger] old(self).bindings@[k].name@ == n;
                            assert(self.bindings@[k].name@ == n);
                        }
                        if self.is_bound(n) && n != name@ {
                            let k = choose|k: int| 0 <= k < self.bindings@.len() && #[trigger] self.bindings@[k].name@ == n;
                            assert(old(self).bindings@[k].name@ == n);
                        }
                    }
                }
                Ok(symbol)
            },
            Some(i) => {
                let original = self.bindings[i].region;
                self.bindings.set(i, binding);
                proof {
                    assert(self.bindings@[i as int].name@ == name@);
                    assert(old(self).bindings@[i as int].name@ == name@);
                    assert forall|n: Seq<char>| #[trigger] self.is_bound(n) <==> (old(self).is_bound(n) || n == name@) by {
                        if old(self).is_bound(n) {
                            let k = choose|k: int| 0 <= k < old(self).bindings@.len() && #[trigger] old(self).bindings@[k].name@ == n;
                            assert(self.bindings@[k].name@ == n);
                        }
                        if self.is_bound(n) {
                            let k = choose|k: int| 0 <= k < self.bindings@.len() && #[trigger] self.bindings@[k].name@ == n;
                            assert(old(self).bindings@[k].name@ == n);
                        }
                    }
                }
                Err((original, Loc { region, value: name.clone() }, symbol))
            },
        }
    }
    /// Like `introduce`, for the name a definition header binds: where the
    /// name is bound to an ability member, the new symbol specializes that
    /// member and the member keeps its binding.
    pub fn introduce_or_shadow_ability_member(
        &mut self,
        name: &String,
        ident_ids: &mut IdentIds,
        region: Region,
        abilities_store: &AbilitiesStore,
    ) -> (r: Result<(Symbol, Option<Symbol>), Shadow>)
        requires
            old(self).wf(),
        ensures
            final(self).wf(),
            final(self).home == old(self).home,
            final(self).opaques == old(self).opaques,
            final(ident_ids).names@ == old(ident_ids).names@.push(*name),
            old(ident_ids).names@.len() <= u64::MAX,

            match r {
                Ok((s, None)) => {
                    &&& !old(self).is_bound(name@)
                    &&& s == old(self).next_symbol(old(ident_ids))
                    &&& final(self).bindings@ == old(self).bindings@.push(
                        Binding { name: *name, symbol: s, region },
                    )
                },
                Ok((s, Some(member))) => {
                    &&& s == old(self).next_symbol(old(ident_ids))
                    &&& abilities_store.is_member(member)
                    &&& final(self).bindings@ == old(self).bindings@
                    &&& exists|i: int|
                        0 <= i < old(self).bindings@.len() && #[trigger] old(self).bindings@[i].name@
                            == name@ && old(self).bindings@[i].symbol == member
                },
                Err((original, shadow, s)) => {
                    &&& s == old(self).next_symbol(old(ident_ids))
                    &&& shadow.region == region
                    &&& shadow.value@ == name@
                    &&& exists|i: int|
                        0 <= i < old(self).bindings@.len() && #[trigger] old(self).bindings@[i].name@
                            == name@ && old(self).bindings@[i].region == original
                            && !abilities_store.is_member(old(self).bindings@[i].symbol)
                            && final(self).bindings@ == old(self).bindings@.update(
                            i,
                            Binding { name: *name, symbol: s, region },
                        )
                },
            },
    {
        let id = ident_ids.add(name);
        let symbol = Symbol::new(self.home, id);
        let binding = Binding { name: name.clone(), symbol, region };
        match self.find_binding(name) {
            None => {
                self.bindings.push(binding);
                proof {
                    assert(self.bindings@[self.bindings@.len() - 1].name@ == name@);
                }
                Ok((symbol, None))
            },
            Some(i) => {
                let original_symbol = self.bindings[i].symbol;
                if abilities_store.is_ability_member_name(original_symbol) {
                    Ok((symbol, Some(original_symbol)))
                } else {
                    let original = self.bindings[i].region;
                    self.bindings.set(i, binding);
                    proof {
                        assert(self.bindings@[i as int].name@ == name@);
                        assert(old(self).bindings@[i as int].name@ == name@);
                    }
                    Err((original, Loc { region, value: name.clone() }, symbol))
                }
            },
        }
    }

    /// Mints a symbol for `name` without binding it.
    pub fn ignore(&self, name: &String, ident_ids: &mut IdentIds) -> (r: Symbol)
        ensures
            r == self.next_symbol(old(ident_ids)),
            final(ident_ids).names@ == old(ident_ids).names@.push(*name),
            old(ident_ids).names@.len() <= u64::MAX,
    {
        let id = ident_ids.add(name);
        Symbol::new(self.home, id)
    }

    /// The index of the opaque type named `name`, or the error that reports it
    /// missing.
    pub fn lookup_opaque_ref(&self, name: &String, region: Region) -> (r: Result<usize, RuntimeError>)
        ensures
            match r {
                Ok(i) => i < self.opaques@.len() && self.opaques@[i as int].name@ == name@,
                Err(e) => !self.is_opaque(name@) && (e matches RuntimeError::OpaqueNotDefined(l)
                    && l.region == region && l.value@ == name@),
            },
    {
        let mut i: usize = 0;
        while i < self.opaques.len()
            invariant
                i <= self.opaques@.len(),
                forall|j: int| 0 <= j < i ==> #[trigger] self.opaques@[j].name@ != name@,
            decreases self.opaques@.len() - i,
        {
            if self.opaques[i].name == *name {
                return Ok(i);
            }
            i = i + 1;
        }
        Err(RuntimeError::OpaqueNotDefined(Loc { region, value: name.clone() }))
    }
}

} // verus!
