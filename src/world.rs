use vstd::prelude::*;

use crate::entity::{Entity, EntityAllocator, StaleEntityError};
use crate::storage::ComponentStorage;

verus! {

/// The shared context that systems run against: the entity registry and the
/// set of resource tags (component storages, event channels) registered so far.
///
/// Typed storages and channels are owned by the caller next to the world and
/// reached through it, so that every access first confirms that the entity is live.
pub struct World {
    entities: EntityAllocator,
    registered: Vec<u64>,
}

impl World {
    pub closed spec fn entities(&self) -> EntityAllocator {
        self.entities
    }

    pub closed spec fn registered(&self) -> Set<u64> {
        self.registered@.to_set()
    }

    pub open spec fn is_live(&self, e: Entity) -> bool {
        self.entities().is_live(e)
    }

    pub closed spec fn wf(&self) -> bool {
        self.entities.wf()
    }

    pub fn new() -> (r: Self)
        ensures
            r.wf(),
            r.registered() == Set::<u64>::empty(),
            forall|e: Entity| !r.is_live(e),
            r.entities().issued() == Set::<Entity>::empty(),
    {
        let r = World { entities: EntityAllocator::new(), registered: Vec::new() };
        assert(r.registered@.to_set() =~= Set::<u64>::empty());
        r
    }

    /// Registers a resource tag; registering it again changes nothing.
    pub fn register(&mut self, tag: u64)
        requires
            old(self).wf(),
        ensures
            final(self).wf(),
            final(self).registered() == old(self).registered().insert(tag),
            final(self).entities() == old(self).entities(),
    {
        if !self.is_registered(tag) {
            let ghost before = self.registered@;
            self.registered.push(tag);
            proof {
                before.lemma_push_to_set_commute(tag);
            }
        } else {
            assert(self.registered@.to_set().insert(tag) =~= self.registered@.to_set());
        }
        assert(self.registered@.to_set() =~= old(self).registered@.to_set().insert(tag));
    }

    pub fn is_registered(&self, tag: u64) -> (r: bool)
        ensures
            r == self.registered().contains(tag),
    {
        let mut i: usize = 0;
        while i < self.registered.len()
            invariant
                i <= self.registered@.len(),
                forall|k: int| 0 <= k < i ==> self.registered@[k] != tag,
            decreases self.registered@.len() - i,
        {
            if self.registered[i] == tag {
                assert(self.registered@.to_set().contains(self.registered@[i as int]));
                return true;
            }
            i += 1;
        }
        proof {
            if self.registered@.to_set().contains(tag) {
                let k = choose|k: int| 0 <= k < self.registered@.len() && self.registered@[k] == tag;
            }
        }
        false
    }

    pub fn create_entity(&mut self) -> (e: Entity)
        requires
            old(self).wf(),
        ensures
            final(self).wf(),
            final(self).is_live(e),
            !old(self).entities().issued().contains(e),
            final(self).entities().issued() == old(self).entities().issued().insert(e),
            forall|x: Entity| x != e ==> (final(self).is_live(x) == old(self).is_live(x)),
            final(self).registered() == old(self).registered(),
    {
        self.entities.create()
    }

    /// Destroys `e`: from now on every access through the world with `e`
    /// reports it stale, and no newer identifier of its slot sees what it held.
    /// The storages belong to the caller: `detach` takes `e`'s component out of
    /// each, and `live_entities` lists only the live holders of a storage.
    pub fn destroy_entity(&mut self, e: Entity) -> (r: Result<(), StaleEntityError>)
        requires
            old(self).wf(),
        ensures
            final(self).wf(),
            r is Err <==> !old(self).is_live(e),
            r matches Err(err) ==> err.entity == e,
            !final(self).is_live(e),
            forall|x: Entity| x != e ==> (final(self).is_live(x) == old(self).is_live(x)),
            final(self).entities().issued() == old(self).entities().issued(),
            final(self).registered() == old(self).registered(),
    {
        self.entities.destroy(e)
    }

    pub fn is_alive(&self, e: Entity) -> (r: bool)
        requires
            self.wf(),
        ensures
            r == self.is_live(e),
    {
        self.entities.is_alive(e)
    }

    /// Takes `e`'s component out of `storage` whether or not `e` is still
    /// live: the step that clears a destroyed entity from each storage.
    pub fn detach<T>(&self, storage: &mut ComponentStorage<T>, e: Entity) -> (r: Option<T>)
        ensures
            r == old(storage).lookup(e),
            ComponentStorage::detached(*old(storage), *final(storage), e),
    {
        storage.remove(e)
    }

    /// The live entities that hold a component in `storage`, in slot order.
    pub fn live_entities<T>(&self, storage: &ComponentStorage<T>) -> (r: Vec<Entity>)
        requires
            self.wf(),
        ensures
            forall|e: Entity| r@.contains(e) <==> (storage.lookup(e) is Some && self.is_live(e)),
            forall|a: int, b: int| 0 <= a < b < r@.len() ==> r@[a].index < r@[b].index,
    {
        let all = storage.entities();
        let mut out: Vec<Entity> = Vec::new();
        let mut i: usize = 0;
        while i < all.len()
            invariant
                self.wf(),
                i <= all@.len(),
                forall|e: Entity| all@.contains(e) <==> storage.lookup(e) is Some,
                forall|a: int, b: int| 0 <= a < b < all@.len() ==> all@[a].index < all@[b].index,
                forall|e: Entity|
                    out@.contains(e) <==> (exists|k: int|
                        0 <= k < i && all@[k] == e && self.is_live(e)),
                forall|a: int, b: int| 0 <= a < b < out@.len() ==> out@[a].index < out@[b].index,
                forall|a: int|
                    #![trigger out@[a]]
                    0 <= a < out@.len() ==> exists|k: int| 0 <= k < i && all@[k] == out@[a],
            decreases all@.len() - i,
        {
            let e = all[i];
            if self.entities.is_alive(e) {
                let ghost prev = out@;
                out.push(e);
                assert forall|x: Entity|
                    out@.contains(x) <==> (exists|k: int|
                        0 <= k < i + 1 && all@[k] == x && self.is_live(x)) by {
                    if out@.contains(x) && x != e {
                        let m = choose|m: int| 0 <= m < out@.len() && out@[m] == x;
                        assert(prev[m] == x);
                        assert(prev.contains(x));
                    }
                    if (exists|k: int| 0 <= k < i && all@[k] == x && self.is_live(x)) {
                        assert(prev.contains(x));
                        let m = choose|m: int| 0 <= m < prev.len() && prev[m] == x;
                        assert(out@[m] == x);
                    }
                    if x == e {
                        assert(out@[prev.len() as int] == e);
                    }
                }
                assert forall|a: int, b: int| 0 <= a < b < out@.len() implies out@[a].index
                    < out@[b].index by {
                    if b == prev.len() {
                        let k = choose|k: int| 0 <= k < i && all@[k] == prev[a];
                        assert(all@[k].index < all@[i as int].index);
                    } else {
                        assert(prev[a].index < prev[b].index);
                    }
                }
                assert forall|a: int| #![trigger out@[a]] 0 <= a < out@.len() implies exists|k: int|
                    0 <= k < i + 1 && all@[k] == out@[a] by {
                    if a < prev.len() {
                        let k = choose|k: int| 0 <= k < i && all@[k] == prev[a];
                        assert(all@[k] == out@[a]);
                    } else {
                        assert(all@[i as int] == out@[a]);
                    }
                }
            }
            i += 1;
        }
        proof {
            assert forall|e: Entity|
                out@.contains(e) <==> (storage.lookup(e) is Some && self.is_live(e)) by {
                if storage.lookup(e) is Some && self.is_live(e) {
                    assert(all@.contains(e));
                    let k = choose|k: int| 0 <= k < all@.len() && all@[k] == e;
                }
                if out@.contains(e) {
                    let k = choose|k: int| 0 <= k < all@.len() && all@[k] == e && self.is_live(e);
                    assert(all@.contains(e));
                }
            }
        }
        out
    }

    /// `e`'s component in `storage`; a destroyed entity is reported stale.
    pub fn read<'a, T>(&self, storage: &'a ComponentStorage<T>, e: Entity) -> (r: Result<
        Option<&'a T>,
        StaleEntityError,
    >)
        requires
            self.wf(),
        ensures
            r is Err <==> !self.is_live(e),
            r matches Err(err) ==> err.entity == e,
            r matches Ok(Some(v)) ==> storage.lookup(e) == Some(*v),
            r matches Ok(None) ==> storage.lookup(e) is None,
    {
        if !self.entities.is_alive(e) {
            return Err(StaleEntityError { entity: e });
        }
        Ok(storage.get(e))
    }

    /// A mutable view of `e`'s component in `storage`; a destroyed entity is
    /// reported stale and the storage is left as it was.
    pub fn get_mut<'a, T>(&self, storage: &'a mut ComponentStorage<T>, e: Entity) -> (r: Result<
        Option<&'a mut T>,
        StaleEntityError,
    >)
        requires
            self.wf(),
        ensures
            r is Err <==> !self.is_live(e),
            r matches Err(err) ==> err.entity == e && *final(storage) == *old(storage),
            r matches Ok(None) ==> old(storage).lookup(e) is None && *final(storage) == *old(storage),
            r matches Ok(Some(v)) ==> {
                &&& old(storage).lookup(e) == Some(*v)
                &&& final(storage).lookup(e) == Some(*final(v))
                &&& forall|k: Entity|
                    k != e ==> #[trigger] final(storage).lookup(k) == old(storage).lookup(k)
            },
    {
        if !self.entities.is_alive(e) {
            return Err(StaleEntityError { entity: e });
        }
        Ok(storage.get_mut(e))
    }

    /// Stores `value` for `e`, returning what `e` held; a destroyed entity is
    /// reported stale and the storage is left as it was.
    pub fn write<T>(&self, storage: &mut ComponentStorage<T>, e: Entity, value: T) -> (r: Result<
        Option<T>,
        StaleEntityError,
    >)
        requires
            self.wf(),
        ensures
            r is Err <==> !self.is_live(e),
            r matches Err(err) ==> err.entity == e && *final(storage) == *old(storage),
            r matches Ok(prev) ==> prev == old(storage).lookup(e) && ComponentStorage::stored(
                *old(storage),
                *final(storage),
                e,
                value,
            ),
    {
        if !self.entities.is_alive(e) {
            return Err(StaleEntityError { entity: e });
        }
        Ok(storage.insert(e, value))
    }

    /// Takes `e`'s component out of `storage`; a destroyed entity is reported
    /// stale and the storage is left as it was.
    pub fn remove<T>(&self, storage: &mut ComponentStorage<T>, e: Entity) -> (r: Result<
        Option<T>,
        StaleEntityError,
    >)
        requires
            self.wf(),
        ensures
            r is Err <==> !self.is_live(e),
            r matches Err(err) ==> err.entity == e && *final(storage) == *old(storage),
            r matches Ok(prev) ==> prev == old(storage).lookup(e) && ComponentStorage::detached(
                *old(storage),
                *final(storage),
                e,
            ),
    {
        if !self.entities.is_alive(e) {
            return Err(StaleEntityError { entity: e });
        }
        Ok(storage.remove(e))
    }
}

} // verus!
