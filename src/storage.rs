use vstd::prelude::*;

use crate::entity::Entity;

verus! {

/// Sparse, entity-indexed storage for one component type. Each slot remembers
/// the generation of the entity that filled it, so a value left behind by a
/// destroyed entity is never seen through a newer identifier of that slot.
pub struct ComponentStorage<T> {
    slots: Vec<Option<(u64, T)>>,
}

impl<T> ComponentStorage<T> {
    pub closed spec fn slots(&self) -> Seq<Option<(u64, T)>> {
        self.slots@
    }

    /// The component held for `e`, if any.
    pub open spec fn lookup(&self, e: Entity) -> Option<T> {
        if e.index < self.slots().len() {
            match self.slots()[e.index as int] {
                Some(slot) => if slot.0 == e.generation {
                    Some(slot.1)
                } else {
                    None
                },
                None => None,
            }
        } else {
            None
        }
    }

    /// `after` is `before` with `value` stored for `e`, which displaces any
    /// value an older or newer identifier of the same slot held.
    pub open spec fn stored(before: Self, after: Self, e: Entity, value: T) -> bool {
        &&& after.lookup(e) == Some(value)
        &&& forall|k: Entity|
            k.index != e.index ==> #[trigger] after.lookup(k) == before.lookup(k)
        &&& forall|k: Entity|
            k.index == e.index && k.generation != e.generation ==> #[trigger] after.lookup(k) is None
    }

    /// `after` is `before` with `e`'s component taken out and nothing else changed.
    pub open spec fn detached(before: Self, after: Self, e: Entity) -> bool {
        &&& after.lookup(e) is None
        &&& forall|k: Entity| k != e ==> #[trigger] after.lookup(k) == before.lookup(k)
    }

    pub fn new() -> (r: Self)
        ensures
            forall|e: Entity| r.lookup(e) is None,
    {
        ComponentStorage { slots: Vec::new() }
    }

    /// Associates `value` with `e`, returning the value `e` held before.
    pub fn insert(&mut self, e: Entity, value: T) -> (r: Option<T>)
        ensures
            r == old(self).lookup(e),
            Self::stored(*old(self), *final(self), e, value),
    {
        let ghost before = self.slots@;
        while self.slots.len() <= e.index
            invariant
                self.slots@.len() >= before.len(),
                forall|i: int| 0 <= i < before.len() ==> self.slots@[i] == before[i],
                forall|i: int| before.len() <= i < self.slots@.len() ==> self.slots@[i] is None,
            decreases e.index + 1 - self.slots@.len(),
        {
            self.slots.push(None);
        }
        assert forall|k: Entity| #[trigger] old(self).lookup(k) == self.lookup(k) by {}
        self.slots.push(Some((e.generation, value)));
        let previous = self.slots.swap_remove(e.index);
        match previous {
            Some(slot) => if slot.0 == e.generation {
                Some(slot.1)
            } else {
                None
            },
            None => None,
        }
    }

    /// Detaches and returns `e`'s component; absence is reported as `None`.
    pub fn remove(&mut self, e: Entity) -> (r: Option<T>)
        ensures
            r == old(self).lookup(e),
            Self::detached(*old(self), *final(self), e),
    {
        if e.index >= self.slots.len() {
            return None;
        }
        let held = match &self.slots[e.index] {
            Some(slot) => slot.0 == e.generation,
            None => false,
        };
        if !held {
            return None;
        }
        self.slots.push(None);
        let previous = self.slots.swap_remove(e.index);
        match previous {
            Some(slot) => Some(slot.1),
            None => None,
        }
    }

    /// A view of `e`'s component, if it has one.
    pub fn get(&self, e: Entity) -> (r: Option<&T>)
        ensures
            match r {
                Some(v) => self.lookup(e) == Some(*v),
                None => self.lookup(e) is None,
            },
    {
        if e.index >= self.slots.len() {
            return None;
        }
        match &self.slots[e.index] {
            Some(slot) => if slot.0 == e.generation {
                Some(&slot.1)
            } else {
                None
            },
            None => None,
        }
    }

    /// A mutable view of `e`'s component, if it has one. Whatever is written
    /// through it becomes `e`'s component; nothing else changes.
    pub fn get_mut(&mut self, e: Entity) -> (r: Option<&mut T>)
        ensures
            r is None <==> old(self).lookup(e) is None,
            r is None ==> *final(self) == *old(self),
            r matches Some(v) ==> {
                &&& old(self).lookup(e) == Some(*v)
                &&& final(self).lookup(e) == Some(*final(v))
                &&& forall|k: Entity| k != e ==> #[trigger] final(self).lookup(k) == old(self).lookup(k)
            },
    {
        if e.index >= self.slots.len() {
            return None;
        }
        let held = match &self.slots[e.index] {
            Some(slot) => slot.0 == e.generation,
            None => false,
        };
        if !held {
            return None;
        }
        match &mut self.slots[e.index] {
            Some(slot) => Some(&mut slot.1),
            None => None,
        }
    }

    /// The entities that hold a component here, in slot order.
    pub fn entities(&self) -> (r: Vec<Entity>)
        ensures
            forall|e: Entity| r@.contains(e) <==> self.lookup(e) is Some,
            forall|a: int, b: int| 0 <= a < b < r@.len() ==> r@[a].index < r@[b].index,
    {
        let mut out: Vec<Entity> = Vec::new();
        let mut i: usize = 0;
        while i < self.slots.len()
            invariant
                i <= self.slots@.len(),
                forall|e: Entity| out@.contains(e) <==> (e.index < i && self.lookup(e) is Some),
                forall|a: int, b: int| 0 <= a < b < out@.len() ==> out@[a].index < out@[b].index,
                forall|a: int| 0 <= a < out@.len() ==> out@[a].index < i,
            decreases self.slots@.len() - i,
        {
            let ghost prev = out@;
            match &self.slots[i] {
                Some(slot) => {
                    let e = Entity { index: i, generation: slot.0 };
                    out.push(e);
                    assert(out@ == prev.push(e));
                    assert forall|x: Entity| out@.contains(x) <==> (x.index < i + 1 && self.lookup(x) is Some) by {
                        if out@.contains(x) && x != e {
                            let k = choose|k: int| 0 <= k < out@.len() && out@[k] == x;
                            assert(prev[k] == x);
                            assert(prev.contains(x));
                        }
                        if x.index == i && self.lookup(x) is Some {
                            assert(x == e);
                            assert(out@[prev.len() as int] == e);
                        }
                        if x.index < i && self.lookup(x) is Some {
                            assert(prev.contains(x));
                            let k = choose|k: int| 0 <= k < prev.len() && prev[k] == x;
                            assert(out@[k] == x);
                        }
                    }
                },
                None => {},
            }
            i += 1;
        }
        out
    }
}

/// A read right after `insert(e, v)` yields `v`; a read right after
/// `remove(e)` yields nothing.
pub proof fn lemma_read_after_write<T>(
    before: ComponentStorage<T>,
    written: ComponentStorage<T>,
    removed: ComponentStorage<T>,
    e: Entity,
    v: T,
)
    requires
        ComponentStorage::stored(before, written, e, v),
        ComponentStorage::detached(written, removed, e),
    ensures
        written.lookup(e) == Some(v),
        removed.lookup(e) is None,
{
}

} // verus!
