//! Entity-indexed storage for one kind of component.

use vstd::prelude::*;
use crate::entity::Entity;
use crate::entity::ascending;

verus! {

/// The values of one component type, keyed by entity.
///
/// A store holds at most one value per entity: its view is a map.
pub struct Store<T> {
    slots: Vec<Option<T>>,
}

impl<T> View for Store<T> {
    type V = Map<Entity, T>;

    closed spec fn view(&self) -> Map<Entity, T> {
        Map::new(
            |e: Entity| e.index < self.slots@.len() && self.slots@[e.index as int].is_some(),
            |e: Entity| self.slots@[e.index as int].unwrap(),
        )
    }
}

impl<T> Store<T> {
    /// The empty store.
    pub fn new() -> (s: Store<T>)
        ensures
            s@ == Map::<Entity, T>::empty(),
    {
        let s = Store { slots: Vec::new() };
        assert(s@ =~= Map::<Entity, T>::empty());
        s
    }

    /// Attaches `value` to `entity`, in place of any value it held.
    pub fn insert(&mut self, entity: Entity, value: T)
        ensures
            final(self)@ == old(self)@.insert(entity, value),
    {
        while self.slots.len() <= entity.index
            invariant
                self@ == old(self)@,
            decreases entity.index + 1 - self.slots.len(),
        {
            let ghost before = self@;
            self.slots.push(None);
            assert(self@ =~= before);
        }
        let ghost before = self@;
        self.slots.set(entity.index, Some(value));
        assert(self@ =~= before.insert(entity, value));
    }

    /// Takes the value of `entity` out of the store, if it holds one.
    pub fn remove(&mut self, entity: Entity) -> (r: Option<T>)
        ensures
            final(self)@ == old(self)@.remove(entity),
            r.is_some() == old(self)@.contains_key(entity),
            r.is_some() ==> r.unwrap() == old(self)@[entity],
    {
        if entity.index < self.slots.len() {
            let ghost before = self@;
            let mut taken: Option<T> = None;
            self.slots.set_and_swap(entity.index, &mut taken);
            assert(self@ =~= before.remove(entity));
            taken
        } else {
            assert(self@ =~= self@.remove(entity));
            None
        }
    }

    /// Whether `entity` holds a value in this store.
    pub fn contains(&self, entity: Entity) -> (b: bool)
        ensures
            b == self@.contains_key(entity),
    {
        entity.index < self.slots.len() && self.slots[entity.index].is_some()
    }

    /// The value of `entity`, if it holds one.
    pub fn get(&self, entity: Entity) -> (r: Option<&T>)
        ensures
            r.is_some() == self@.contains_key(entity),
            r.is_some() ==> *r.unwrap() == self@[entity],
    {
        if entity.index < self.slots.len() {
            self.slots[entity.index].as_ref()
        } else {
            None
        }
    }

    /// Exclusive access to the value of `entity`, if it holds one. What the
    /// caller writes through the reference becomes the entity's value; no
    /// other entity is touched.
    pub fn get_mut(&mut self, entity: Entity) -> (r: Option<&mut T>)
        ensures
            r.is_some() == old(self)@.contains_key(entity),
            r.is_some() ==> *r.unwrap() == old(self)@[entity],
            r.is_some() ==> final(self)@ == old(self)@.insert(entity, *final(r.unwrap())),
            r.is_none() ==> final(self)@ == old(self)@,
    {
        if entity.index < self.slots.len() {
            self.slots[entity.index].as_mut()
        } else {
            None
        }
    }

    /// The entities that hold a value here, in increasing order of index.
    pub fn entities(&self) -> (r: Vec<Entity>)
        ensures
            ascending(r@),
            forall|e: Entity| r@.contains(e) <==> self@.contains_key(e),
    {
        let mut out: Vec<Entity> = Vec::new();
        let mut i: usize = 0;
        while i < self.slots.len()
            invariant
                i <= self.slots.len(),
                ascending(out@),
                forall|k: int|
                    0 <= k < out@.len() ==> (#[trigger] out@[k]).index < i && self@.contains_key(
                        out@[k],
                    ),
                forall|e: Entity| #[trigger]
                    self@.contains_key(e) && e.index < i ==> out@.contains(e),
            decreases self.slots.len() - i,
        {
            if self.slots[i].is_some() {
                let ghost prev = out@;
                out.push(Entity { index: i });
                assert forall|e: Entity| #[trigger]
                    self@.contains_key(e) && e.index < i + 1 implies out@.contains(e) by {
                    if e.index < i {
                        assert(prev.contains(e));
                        let k = choose|k: int| 0 <= k < prev.len() && prev[k] == e;
                        assert(out@[k] == e);
                    } else {
                        assert(out@[prev.len() as int] == e);
                    }
                }
            }
            i += 1;
        }
        out
    }

    /// Shared access to every value of the store: one pair for each entity
    /// that holds a value, in increasing order of index.
    pub fn get_shared(&self) -> (r: Vec<(Entity, &T)>)
        ensures
            ascending(pair_keys(r@)),
            forall|k: int|
                0 <= k < r@.len() ==> self@.contains_key((#[trigger] r@[k]).0) && *r@[k].1
                    == self@[r@[k].0],
            forall|e: Entity| self@.contains_key(e) <==> pair_keys(r@).contains(e),
    {
        let mut out: Vec<(Entity, &T)> = Vec::new();
        let mut i: usize = 0;
        while i < self.slots.len()
            invariant
                i <= self.slots.len(),
                forall|j: int, k: int|
                    0 <= j < k < out@.len() ==> (#[trigger] out@[j]).0.index < (
                    #[trigger] out@[k]).0.index,
                forall|k: int|
                    0 <= k < out@.len() ==> (#[trigger] out@[k]).0.index < i
                        && self@.contains_key(out@[k].0) && *out@[k].1 == self@[out@[k].0],
                forall|e: Entity| #[trigger]
                    self@.contains_key(e) && e.index < i ==> exists|k: int|
                        0 <= k < out@.len() && (#[trigger] out@[k]).0 == e,
            decreases self.slots.len() - i,
        {
            match &self.slots[i] {
                Some(value) => {
                    let ghost prev = out@;
                    out.push((Entity { index: i }, value));
                    assert forall|e: Entity| #[trigger]
                        self@.contains_key(e) && e.index < i + 1 implies exists|k: int|
                        0 <= k < out@.len() && (#[trigger] out@[k]).0 == e by {
                        if e.index < i {
                            let k = choose|k: int| 0 <= k < prev.len() && (#[trigger] prev[k]).0 == e;
                            assert(out@[k].0 == e);
                        } else {
                            assert(out@[prev.len() as int].0 == e);
                        }
                    }
                },
                None => {},
            }
            i += 1;
        }
        proof {
            let keys = pair_keys(out@);
            assert forall|e: Entity| self@.contains_key(e) <==> keys.contains(e) by {
                if keys.contains(e) {
                    let k = choose|k: int| 0 <= k < keys.len() && keys[k] == e;
                    assert(out@[k].0 == e);
                }
                if self@.contains_key(e) {
                    let k = choose|k: int| 0 <= k < out@.len() && (#[trigger] out@[k]).0 == e;
                    assert(keys[k] == e);
                }
            }
            assert forall|j: int, k: int| 0 <= j < k < keys.len() implies keys[j].index
                < keys[k].index by {
                assert(out@[j].0 == keys[j]);
                assert(out@[k].0 == keys[k]);
            }
        }
        out
    }
}

/// The entities of a sequence of (entity, value) pairs, in the same order.
pub open spec fn pair_keys<V>(s: Seq<(Entity, V)>) -> Seq<Entity> {
    Seq::new(s.len(), |i: int| s[i].0)
}

} // verus!
