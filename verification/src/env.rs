//! Environments: a chain of scopes from the innermost outwards, each a map
//! from binding names to values.

use crate::val::Val;
use vstd::hash_map::StringHashMap;
use vstd::prelude::*;

verus! {

/// One scope: the bindings made in it, by name.
pub type Scope = Map<Seq<char>, Val>;

/// The value that `name` is bound to in a chain of scopes, innermost first:
/// the first scope that has the name decides.
pub open spec fn lookup(scopes: Seq<Scope>, name: Seq<char>) -> Option<Val>
    decreases scopes.len(),
{
    if scopes.len() == 0 {
        None
    } else if scopes[0].contains_key(name) {
        Some(scopes[0][name])
    } else {
        lookup(scopes.skip(1), name)
    }
}

/// The chain after `name` is bound to `val` in its innermost scope.
pub open spec fn store(scopes: Seq<Scope>, name: Seq<char>, val: Val) -> Seq<Scope>
    recommends
        scopes.len() > 0,
{
    scopes.update(0, scopes[0].insert(name, val))
}

/// The chain with a fresh, empty scope in front.
pub open spec fn child(scopes: Seq<Scope>) -> Seq<Scope> {
    seq![Map::<Seq<char>, Val>::empty()] + scopes
}

/// The message for a name that no scope of the chain binds.
pub open spec fn missing_binding(name: Seq<char>) -> Seq<char> {
    "binding with name '"@ + name + "' does not exist"@
}

/// What a lookup by name yields: the value, or the message that names the
/// missing binding.
pub open spec fn binding_value(scopes: Seq<Scope>, name: Seq<char>) -> Result<Val, Seq<char>> {
    match lookup(scopes, name) {
        Some(val) => Ok(val),
        None => Err(missing_binding(name)),
    }
}

/// Shadowing: a binding made in the innermost scope is what its name then
/// stands for, whatever the name was bound to before, there or in an
/// enclosing scope; every other name stands for what it did.
pub proof fn lemma_store_shadows(scopes: Seq<Scope>, name: Seq<char>, val: Val, other: Seq<char>)
    requires
        scopes.len() > 0,
    ensures
        lookup(store(scopes, name, val), name) == Some(val),
        other != name ==> lookup(store(scopes, name, val), other) == lookup(scopes, other),
{
    assert(store(scopes, name, val).skip(1) =~= scopes.skip(1));
}

/// A scope together with a reference to the scope that encloses it.
pub struct Env<'parent> {
    bindings: StringHashMap<Val>,
    parent: Option<&'parent Env<'parent>>,
}

impl<'parent> View for Env<'parent> {
    type V = Seq<Scope>;

    /// The chain of scopes, innermost first. It is never empty.
    closed spec fn view(&self) -> Seq<Scope> {
        self.scopes()
    }
}

impl<'parent> Default for Env<'parent> {
    /// A root environment: one empty scope.
    fn default() -> (env: Self)
        ensures
            env@ == seq![Map::<Seq<char>, Val>::empty()],
    {
        Env { bindings: StringHashMap::new(), parent: None }
    }
}

impl<'parent> Env<'parent> {
    spec fn scopes(&self) -> Seq<Scope>
        decreases self,
    {
        match self.parent {
            Some(parent) => seq![self.bindings@] + parent.scopes(),
            None => seq![self.bindings@],
        }
    }

    /// An environment has at least its own scope.
    pub proof fn lemma_has_scope(&self)
        ensures
            self@.len() > 0,
    {
    }

    /// A new environment with no bindings of its own, enclosed by `self`.
    pub fn create_child(&'parent self) -> (env: Self)
        ensures
            env@ == child(self@),
    {
        Env { bindings: StringHashMap::new(), parent: Some(self) }
    }

    /// Binds `name` to `val` in the innermost scope, replacing what it was
    /// bound to there. Enclosing scopes stay as they are.
    pub fn store_binding(&mut self, name: &str, val: Val)
        ensures
            final(self)@ == store(old(self)@, name@, val),
    {
        self.bindings.insert(name.to_owned(), val);
        assert(self@ =~= store(old(self)@, name@, val));
    }

    /// The value of `name`: looked up in the innermost scope first, then
    /// outwards. Fails with a message naming the binding if no scope has it.
    pub fn get_binding_value(&self, name: &str) -> (res: Result<Val, String>)
        ensures
            match res {
                Ok(val) => binding_value(self@, name@) == Ok::<Val, Seq<char>>(val),
                Err(e) => binding_value(self@, name@) == Err::<Val, Seq<char>>(e@),
            },
    {
        match self.get_binding_value_without_error_msg(name) {
            Some(val) => Ok(val),
            None => Err(
                "binding with name '".to_owned().concat(name).concat("' does not exist"),
            ),
        }
    }

    /// The value of `name` in the nearest scope that binds it, if any does.
    pub fn get_binding_value_without_error_msg(&self, name: &str) -> (res: Option<Val>)
        ensures
            res == lookup(self@, name@),
        decreases self,
    {
        match self.bindings.get(name) {
            Some(val) => Some(*val),
            None => {
                match self.parent {
                    Some(parent) => {
                        assert(self@.skip(1) =~= parent@);
                        parent.get_binding_value_without_error_msg(name)
                    },
                    None => {
                        assert(lookup(self@.skip(1), name@) is None);
                        None
                    },
                }
            },
        }
    }
}

} // verus!
