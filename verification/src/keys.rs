use vstd::prelude::*;
use std::marker::PhantomData;
use crate::fxhash::{fx_hash_two, fx_hash_two_spec, fx_hash_u64_u32_spec};
use crate::ids::{Id, StateId};

verus! {

/// A marker for the kind of node a [`TypedKey`] refers to.
pub trait NodeType: Copy {}

/// A key that can refer to any node.
#[derive(Clone, Copy, Debug)]
pub struct Any {}

/// A key kind for text nodes.
#[derive(Clone, Copy, Debug)]
pub struct TextNodeType {}

/// A key kind for container nodes.
#[derive(Clone, Copy, Debug)]
pub struct Container {}

/// Node kinds that can hold text.
pub trait TextTrait: NodeType {}

/// Node kinds that can have children.
pub trait ParentTrait: NodeType {}

impl NodeType for Any {}
impl TextTrait for Any {}
impl ParentTrait for Any {}

impl NodeType for TextNodeType {}
impl TextTrait for TextNodeType {}

impl NodeType for Container {}
impl ParentTrait for Container {}

/// An unique key that identifies a GUI node, tagged with the kind of node.
#[derive(Copy, Debug)]
pub struct TypedKey<T: NodeType> {
    pub id: Id,
    pub debug_name: &'static str,
    pub nodetype_marker: PhantomData<T>,
}

impl<T: NodeType> Clone for TypedKey<T> {
    fn clone(&self) -> (r: Self)
        ensures
            r == *self,
    {
        *self
    }
}

/// A key that can refer to any node.
pub type NodeKey = TypedKey<Any>;

/// The id of a sibling key: the key's id hashed together with `value`.
pub open spec fn sibling_id_spec(id: u64, value: u64) -> int {
    fx_hash_two_spec(id, value)
}

impl<T: NodeType> TypedKey<T> {
    /// Create a key manually.
    pub fn new(id: Id, debug_name: &'static str) -> (r: Self)
        ensures
            r.id == id,
            r.debug_name == debug_name,
    {
        TypedKey { id, debug_name, nodetype_marker: PhantomData }
    }

    pub fn id(&self) -> (r: Id)
        ensures
            r == self.id,
    {
        self.id
    }

    pub fn debug_name(&self) -> (r: &'static str)
        ensures
            r == self.debug_name,
    {
        self.debug_name
    }

    /// Create a "sibling" of a key dynamically at runtime, based on a value:
    /// the new id is the hash of the key's id and `value`; the debug name is kept.
    pub fn sibling(self, value: u64) -> (r: Self)
        ensures
            r.debug_name == self.debug_name,
            r.id.0 as int == sibling_id_spec(self.id.0, value),
    {
        let new_id = fx_hash_two(self.id.0, value);
        TypedKey { id: Id(new_id), debug_name: self.debug_name, nodetype_marker: PhantomData }
    }
}

/// A key that identifies a piece of component state of type `T`.
#[derive(Copy, Debug)]
pub struct StateKey<T> {
    pub id: StateId,
    pub debug_name: &'static str,
    pub state_type: PhantomData<T>,
}

impl<T> Clone for StateKey<T> {
    fn clone(&self) -> (r: Self)
        ensures
            r == *self,
    {
        StateKey { id: self.id, debug_name: self.debug_name, state_type: PhantomData }
    }
}

impl<T> StateKey<T> {
    /// Create a key manually.
    pub fn new(id: StateId, debug_name: &'static str) -> (r: Self)
        ensures
            r.id == id,
            r.debug_name == debug_name,
    {
        StateKey { id, debug_name, state_type: PhantomData }
    }

    pub fn debug_name(&self) -> (r: &'static str)
        ensures
            r == self.debug_name,
    {
        self.debug_name
    }

    /// Create a sibling state key: the new id is the hash of the key's id and `value`.
    pub fn sibling(self, value: u64) -> (r: Self)
        ensures
            r.debug_name == self.debug_name,
            r.id.0 as int == sibling_id_spec(self.id.0, value),
    {
        let new_id = fx_hash_two(self.id.0, value);
        StateKey { id: StateId(new_id), debug_name: self.debug_name, state_type: PhantomData }
    }
}

/// The id a key resolves to inside a key scope: with no enclosing scope it is
/// the key's own id, otherwise the hash of the innermost scope's id and the key's id.
pub open spec fn scoped_id_spec(scopes: Seq<Id>, key_id: Id) -> Option<int> {
    if scopes.len() == 0 {
        Some(key_id.0 as int)
    } else {
        Some(fx_hash_two_spec(scopes.last().0, key_id.0))
    }
}

/// The id a key id resolves to inside the key scopes `scopes`.
pub open spec fn resolved_id(scopes: Seq<Id>, key_id: Id) -> Id {
    if scopes.len() == 0 { key_id } else { Id(scoped_id_spec(scopes, key_id).unwrap() as u64) }
}

/// The id of the `n`-th twin of a key with id `key_id`, inside the key scopes
/// `scopes`: the key's sibling for the value `n`, resolved in the scopes.
pub open spec fn twin_id_spec(scopes: Seq<Id>, key_id: Id, n: u32) -> Id {
    resolved_id(scopes, Id(fx_hash_u64_u32_spec(key_id.0, n) as u64))
}

/// The stack of key scopes that are currently open, innermost last.
pub struct KeyScopes {
    pub stack: Vec<Id>,
}

impl KeyScopes {
    pub fn new() -> (r: Self)
        ensures
            r.stack@ == Seq::<Id>::empty(),
    {
        KeyScopes { stack: Vec::new() }
    }

    /// The innermost open scope, if any.
    pub fn last_scope(&self) -> (r: Option<Id>)
        ensures
            self.stack@.len() == 0 ==> r == None::<Id>,
            self.stack@.len() > 0 ==> r == Some(self.stack@.last()),
    {
        let n = self.stack.len();
        if n == 0 {
            None
        } else {
            Some(self.stack[n - 1])
        }
    }

    /// Resolves a key's id inside the current key scope.
    pub fn id_with_key_scope(&self, key_id: Id) -> (r: Id)
        ensures
            self.stack@.len() == 0 ==> r == key_id,
            Some(r.0 as int) == scoped_id_spec(self.stack@, key_id),
            r == resolved_id(self.stack@, key_id),
    {
        match self.last_scope() {
            Some(scope) => Id(fx_hash_two(scope.0, key_id.0)),
            None => key_id,
        }
    }

    /// A copy of the open scopes.
    pub fn snapshot(&self) -> (r: Self)
        ensures
            r.stack@ == self.stack@,
    {
        let mut stack: Vec<Id> = Vec::new();
        let mut i: usize = 0;
        while i < self.stack.len()
            invariant
                i <= self.stack@.len(),
                stack@ == self.stack@.take(i as int),
            decreases self.stack@.len() - i,
        {
            stack.push(self.stack[i]);
            proof {
                assert(self.stack@.take(i + 1) == self.stack@.take(i as int).push(self.stack@[i as int]));
            }
            i = i + 1;
        }
        proof {
            assert(self.stack@.take(self.stack@.len() as int) == self.stack@);
        }
        KeyScopes { stack }
    }

    pub fn push(&mut self, scope: Id)
        ensures
            final(self).stack@ == old(self).stack@.push(scope),
    {
        self.stack.push(scope);
    }

    /// Closes the innermost scope; does nothing if none is open.
    pub fn pop(&mut self)
        ensures
            old(self).stack@.len() == 0 ==> final(self).stack@ == old(self).stack@,
            old(self).stack@.len() > 0 ==> final(self).stack@ == old(self).stack@.drop_last(),
    {
        if self.stack.len() > 0 {
            let _ = self.stack.pop();
        }
    }
}

/// Opening a scope and closing it again leaves the scope stack as it was.
pub proof fn lemma_push_pop_restores(stack: Seq<Id>, scope: Id)
    ensures
        stack.push(scope).drop_last() == stack,
{
    assert(stack.push(scope).drop_last() =~= stack);
}


/// Re-entering a scope with the same id (a named key scope started again with
/// the same key) resolves every key to the same id as before, however deep
/// the scopes around it are.
pub proof fn lemma_same_scope_same_ids(outer1: Seq<Id>, outer2: Seq<Id>, scope: Id, key_id: Id)
    ensures
        scoped_id_spec(outer1.push(scope), key_id) == scoped_id_spec(outer2.push(scope), key_id),
{
}

} // verus!
