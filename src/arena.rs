use vstd::prelude::*;
use std::collections::HashMap;
use crate::handle::HandleIndex;

verus! {

broadcast use vstd::std_specs::hash::group_hash_axioms;

/// Relies on `HashMap::get_mut`: a mutable reference to the value stored
/// under `key`, if there is one; writes through it land in the map.
#[verifier::external_body]
fn hash_map_get_mut<T>(m: &mut HashMap<HandleIndex, T>, key: HandleIndex) -> (r: Option<&mut T>)
    ensures
        r.is_some() == old(m)@.contains_key(key),
        r.is_some() ==> *r.unwrap() == old(m)@[key] && final(m)@ == old(m)@.insert(
            key,
            *final(r.unwrap()),
        ),
        r.is_none() ==> final(m)@ == old(m)@,
{
    m.get_mut(&key)
}

/// How a component type's values are stored.
#[derive(Debug, Clone, Copy, PartialEq, Eq, Structural)]
pub enum ArenaKind {
    /// One slot per entity index: fast, sized by the largest index.
    Dense,
    /// A hash map from entity index to value: compact for rare components.
    Sparse,
}

/// Component values in a sequence addressed by entity index.
pub struct VecArena<T> {
    values: Vec<Option<T>>,
}

/// Component values in a hash map keyed by entity index.
pub struct HashMapArena<T> {
    values: HashMap<HandleIndex, T>,
}

/// The storage of one component type, in either layout.
pub enum Arena<T> {
    Dense(VecArena<T>),
    Sparse(HashMapArena<T>),
}

impl<T> VecArena<T> {
    /// The value stored for each entity index.
    pub closed spec fn view(&self) -> Map<HandleIndex, T> {
        Map::new(
            |i: HandleIndex| i < self.values@.len() && self.values@[i as int].is_some(),
            |i: HandleIndex| self.values@[i as int]->Some_0,
        )
    }

    /// Constructs an empty arena.
    pub fn new() -> (r: Self)
        ensures
            r@ == Map::<HandleIndex, T>::empty(),
    {
        let r = VecArena { values: Vec::new() };
        assert(r@ =~= Map::<HandleIndex, T>::empty());
        r
    }

    /// Returns the value stored for `index`.
    pub fn get(&self, index: HandleIndex) -> (r: Option<&T>)
        ensures
            r.is_some() == self@.contains_key(index),
            r.is_some() ==> *r.unwrap() == self@[index],
    {
        let i = index as usize;
        if i < self.values.len() {
            self.values[i].as_ref()
        } else {
            None
        }
    }

    /// Returns a mutable reference to the value stored for `index`.
    pub fn get_mut(&mut self, index: HandleIndex) -> (r: Option<&mut T>)
        ensures
            r.is_some() == old(self)@.contains_key(index),
            r.is_some() ==> *r.unwrap() == old(self)@[index] && final(self)@ == old(self)@.insert(
                index,
                *final(r.unwrap()),
            ),
            r.is_none() ==> final(self)@ == old(self)@,
    {
        let i = index as usize;
        if i < self.values.len() {
            let slot = &mut self.values[i];
            slot.as_mut()
        } else {
            None
        }
    }

    /// Stores `value` for `index`, growing the sequence as needed, and returns
    /// the value it replaces.
    pub fn insert(&mut self, index: HandleIndex, value: T) -> (r: Option<T>)
        ensures
            final(self)@ == old(self)@.insert(index, value),
            r.is_some() == old(self)@.contains_key(index),
            r.is_some() ==> r.unwrap() == old(self)@[index],
    {
        let i = index as usize;
        while self.values.len() <= i
            invariant
                self@ == old(self)@,
            decreases i + 1 - self.values.len(),
        {
            self.values.push(None);
            assert(self@ =~= old(self)@);
        }
        let previous = self.values[i].take();
        self.values.set(i, Some(value));
        assert(self@ =~= old(self)@.insert(index, value));
        previous
    }

    /// Takes out the value stored for `index`, leaving the slot empty.
    pub fn remove(&mut self, index: HandleIndex) -> (r: Option<T>)
        ensures
            final(self)@ == old(self)@.remove(index),
            r.is_some() == old(self)@.contains_key(index),
            r.is_some() ==> r.unwrap() == old(self)@[index],
    {
        let i = index as usize;
        if i < self.values.len() {
            let previous = self.values[i].take();
            assert(self@ =~= old(self)@.remove(index));
            previous
        } else {
            assert(old(self)@.remove(index) =~= old(self)@);
            None
        }
    }
}

impl<T> HashMapArena<T> {
    /// The value stored for each entity index.
    pub closed spec fn view(&self) -> Map<HandleIndex, T> {
        self.values@
    }

    /// Constructs an empty arena.
    pub fn new() -> (r: Self)
        ensures
            r@ == Map::<HandleIndex, T>::empty(),
    {
        HashMapArena { values: HashMap::new() }
    }

    /// Returns the value stored for `index`.
    pub fn get(&self, index: HandleIndex) -> (r: Option<&T>)
        ensures
            r.is_some() == self@.contains_key(index),
            r.is_some() ==> *r.unwrap() == self@[index],
    {
        self.values.get(&index)
    }

    /// Returns a mutable reference to the value stored for `index`.
    pub fn get_mut(&mut self, index: HandleIndex) -> (r: Option<&mut T>)
        ensures
            r.is_some() == old(self)@.contains_key(index),
            r.is_some() ==> *r.unwrap() == old(self)@[index] && final(self)@ == old(self)@.insert(
                index,
                *final(r.unwrap()),
            ),
            r.is_none() ==> final(self)@ == old(self)@,
    {
        hash_map_get_mut(&mut self.values, index)
    }

    /// Stores `value` for `index` and returns the value it replaces.
    pub fn insert(&mut self, index: HandleIndex, value: T) -> (r: Option<T>)
        ensures
            final(self)@ == old(self)@.insert(index, value),
            r.is_some() == old(self)@.contains_key(index),
            r.is_some() ==> r.unwrap() == old(self)@[index],
    {
        self.values.insert(index, value)
    }

    /// Takes out the value stored for `index`.
    pub fn remove(&mut self, index: HandleIndex) -> (r: Option<T>)
        ensures
            final(self)@ == old(self)@.remove(index),
            r.is_some() == old(self)@.contains_key(index),
            r.is_some() ==> r.unwrap() == old(self)@[index],
    {
        self.values.remove(&index)
    }
}

impl<T> Arena<T> {
    /// The value stored for each entity index.
    pub open spec fn view(&self) -> Map<HandleIndex, T> {
        match self {
            Arena::Dense(a) => a@,
            Arena::Sparse(a) => a@,
        }
    }

    /// Constructs an empty arena of the given layout.
    pub fn new(kind: ArenaKind) -> (r: Self)
        ensures
            r@ == Map::<HandleIndex, T>::empty(),
    {
        match kind {
            ArenaKind::Dense => Arena::Dense(VecArena::new()),
            ArenaKind::Sparse => Arena::Sparse(HashMapArena::new()),
        }
    }

    /// Returns the value stored for `index`.
    pub fn get(&self, index: HandleIndex) -> (r: Option<&T>)
        ensures
            r.is_some() == self@.contains_key(index),
            r.is_some() ==> *r.unwrap() == self@[index],
    {
        match self {
            Arena::Dense(a) => a.get(index),
            Arena::Sparse(a) => a.get(index),
        }
    }

    /// Returns a mutable reference to the value stored for `index`.
    pub fn get_mut(&mut self, index: HandleIndex) -> (r: Option<&mut T>)
        ensures
            r.is_some() == old(self)@.contains_key(index),
            r.is_some() ==> *r.unwrap() == old(self)@[index] && final(self)@ == old(self)@.insert(
                index,
                *final(r.unwrap()),
            ),
            r.is_none() ==> final(self)@ == old(self)@,
    {
        match self {
            Arena::Dense(a) => a.get_mut(index),
            Arena::Sparse(a) => a.get_mut(index),
        }
    }

    /// Stores `value` for `index` and returns the value it replaces.
    pub fn insert(&mut self, index: HandleIndex, value: T) -> (r: Option<T>)
        ensures
            final(self)@ == old(self)@.insert(index, value),
            r.is_some() == old(self)@.contains_key(index),
            r.is_some() ==> r.unwrap() == old(self)@[index],
    {
        match self {
            Arena::Dense(a) => a.insert(index, value),
            Arena::Sparse(a) => a.insert(index, value),
        }
    }

    /// Takes out the value stored for `index`.
    pub fn remove(&mut self, index: HandleIndex) -> (r: Option<T>)
        ensures
            final(self)@ == old(self)@.remove(index),
            r.is_some() == old(self)@.contains_key(index),
            r.is_some() ==> r.unwrap() == old(self)@[index],
    {
        match self {
            Arena::Dense(a) => a.remove(index),
            Arena::Sparse(a) => a.remove(index),
        }
    }
}

} // verus!
