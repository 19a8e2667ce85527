use vstd::prelude::*;

verus! {

/// An identifier for one simulation object: a slot index plus the generation
/// that slot had when the identifier was handed out.
#[derive(Clone, Copy, Debug, PartialEq, Eq, Structural)]
pub struct Entity {
    pub index: usize,
    pub generation: u64,
}

/// Raised when an operation names an entity that has been destroyed.
#[derive(Clone, Copy, Debug, PartialEq, Eq, Structural)]
pub struct StaleEntityError {
    pub entity: Entity,
}

/// Hands out entity identifiers and recycles freed slots under a new generation.
pub struct EntityAllocator {
    generations: Vec<u64>,
    alive: Vec<bool>,
    free: Vec<usize>,
    /// Every identifier this allocator has ever handed out.
    issued: Ghost<Set<Entity>>,
}

impl EntityAllocator {
    pub closed spec fn issued(&self) -> Set<Entity> {
        self.issued@
    }

    pub closed spec fn slot_count(&self) -> nat {
        self.generations@.len()
    }

    /// `e` names a slot that is in use under exactly `e`'s generation.
    pub closed spec fn is_live(&self, e: Entity) -> bool {
        &&& e.index < self.generations@.len()
        &&& self.alive@[e.index as int]
        &&& self.generations@[e.index as int] == e.generation
    }

    pub closed spec fn wf(&self) -> bool {
        &&& self.alive@.len() == self.generations@.len()
        &&& self.free@.no_duplicates()
        &&& forall|k: int|
            0 <= k < self.free@.len() ==> {
                &&& #[trigger] self.free@[k] < self.generations@.len()
                &&& !self.alive@[self.free@[k] as int]
            }
        &&& forall|e: Entity|
            #[trigger] self.issued@.contains(e) ==> {
                &&& e.index < self.generations@.len()
                &&& e.generation <= self.generations@[e.index as int]
                &&& (e.generation == self.generations@[e.index as int]
                    && !self.alive@[e.index as int]) ==> !self.free@.contains(e.index)
            }
        &&& forall|i: int|
            0 <= i < self.alive@.len() && #[trigger] self.alive@[i] ==> self.issued@.contains(
                Entity { index: i as usize, generation: self.generations@[i] },
            )
    }

    pub fn new() -> (r: Self)
        ensures
            r.wf(),
            r.issued() == Set::<Entity>::empty(),
            forall|e: Entity| !r.is_live(e),
    {
        EntityAllocator {
            generations: Vec::new(),
            alive: Vec::new(),
            free: Vec::new(),
            issued: Ghost(Set::empty()),
        }
    }

    pub fn is_alive(&self, e: Entity) -> (r: bool)
        requires
            self.wf(),
        ensures
            r == self.is_live(e),
    {
        e.index < self.generations.len() && self.alive[e.index]
            && self.generations[e.index] == e.generation
    }

    /// Allocates a fresh identifier, reusing a freed slot under its new
    /// generation when one is available.
    pub fn create(&mut self) -> (e: Entity)
        requires
            old(self).wf(),
        ensures
            final(self).wf(),
            final(self).is_live(e),
            !old(self).issued().contains(e),
            final(self).issued() == old(self).issued().insert(e),
            forall|x: Entity| x != e ==> (final(self).is_live(x) == old(self).is_live(x)),
    {
        if self.free.len() > 0 {
            let ghost free0 = self.free@;
            let i = self.free.pop().unwrap();
            assert(free0 == self.free@.push(i));
            assert(free0[free0.len() - 1] == i);
            assert forall|k: int| 0 <= k < self.free@.len() implies self.free@[k] != i by {
                assert(free0[k] == self.free@[k]);
            }
            let g = self.generations[i];
            let e = Entity { index: i, generation: g };
            self.alive.set(i, true);
            proof {
                self.issued@ = self.issued@.insert(e);
                assert forall|k: int| 0 <= k < self.free@.len() implies {
                    &&& #[trigger] self.free@[k] < self.generations@.len()
                    &&& !self.alive@[self.free@[k] as int]
                } by {
                    assert(free0[k] == self.free@[k]);
                }
                assert forall|x: Entity| #[trigger] self.issued@.contains(x) implies {
                    &&& x.index < self.generations@.len()
                    &&& x.generation <= self.generations@[x.index as int]
                    &&& (x.generation == self.generations@[x.index as int]
                        && !self.alive@[x.index as int]) ==> !self.free@.contains(x.index)
                } by {
                    if x.generation == self.generations@[x.index as int]
                        && !self.alive@[x.index as int] && self.free@.contains(x.index) {
                        let k = choose|k: int| 0 <= k < self.free@.len() && self.free@[k] == x.index;
                        assert(free0[k] == self.free@[k]);
                    }
                }
                assert(free0.contains(i));
            }
            e
        } else {
            let i = self.generations.len();
            let e = Entity { index: i, generation: 0 };
            self.generations.push(0);
            self.alive.push(true);
            proof {
                self.issued@ = self.issued@.insert(e);
                assert forall|x: Entity| #[trigger] self.issued@.contains(x) implies {
                    &&& x.index < self.generations@.len()
                    &&& x.generation <= self.generations@[x.index as int]
                    &&& (x.generation == self.generations@[x.index as int]
                        && !self.alive@[x.index as int]) ==> !self.free@.contains(x.index)
                } by {}
            }
            e
        }
    }

    /// Frees `e`'s slot and moves it to a new generation, so that `e` and every
    /// copy of it become stale. A slot whose generation cannot grow any further
    /// is retired instead of recycled.
    pub fn destroy(&mut self, e: Entity) -> (r: Result<(), StaleEntityError>)
        requires
            old(self).wf(),
        ensures
            final(self).wf(),
            final(self).issued() == old(self).issued(),
            r is Err <==> !old(self).is_live(e),
            r matches Err(err) ==> err.entity == e,
            !final(self).is_live(e),
            forall|x: Entity| x != e ==> (final(self).is_live(x) == old(self).is_live(x)),
    {
        if !self.is_alive(e) {
            return Err(StaleEntityError { entity: e });
        }
        let i = e.index;
        self.alive.set(i, false);
        if e.generation < u64::MAX {
            self.generations.set(i, e.generation + 1);
            proof {
                assert(!self.free@.contains(i)) by {
                    if self.free@.contains(i) {
                        let k = choose|k: int| 0 <= k < self.free@.len() && self.free@[k] == i;
                        assert(!old(self).alive@[self.free@[k] as int]);
                    }
                }
            }
            let ghost free0 = self.free@;
            self.free.push(i);
            proof {
                assert(self.free@ == free0.push(i));
                assert forall|k: int| 0 <= k < self.free@.len() implies {
                    &&& #[trigger] self.free@[k] < self.generations@.len()
                    &&& !self.alive@[self.free@[k] as int]
                } by {
                    if k < free0.len() {
                        assert(free0[k] == self.free@[k]);
                    }
                }
                assert forall|x: Entity| #[trigger] self.issued@.contains(x) implies {
                    &&& x.index < self.generations@.len()
                    &&& x.generation <= self.generations@[x.index as int]
                    &&& (x.generation == self.generations@[x.index as int]
                        && !self.alive@[x.index as int]) ==> !self.free@.contains(x.index)
                } by {
                    if x.index != i && x.generation == self.generations@[x.index as int]
                        && !self.alive@[x.index as int] && self.free@.contains(x.index) {
                        let k = choose|k: int| 0 <= k < self.free@.len() && self.free@[k] == x.index;
                        if k < free0.len() {
                            assert(free0[k] == self.free@[k]);
                            assert(free0.contains(x.index));
                        }
                    }
                }
            }
        } else {
            proof {
                assert forall|x: Entity| #[trigger] self.issued@.contains(x) implies {
                    &&& x.index < self.generations@.len()
                    &&& x.generation <= self.generations@[x.index as int]
                    &&& (x.generation == self.generations@[x.index as int]
                        && !self.alive@[x.index as int]) ==> !self.free@.contains(x.index)
                } by {
                    if x.index == i && self.free@.contains(x.index) {
                        let k = choose|k: int| 0 <= k < self.free@.len() && self.free@[k] == i;
                        assert(!old(self).alive@[self.free@[k] as int]);
                    }
                }
            }
        }
        Ok(())
    }
}

/// An identifier handed out before some later allocation never equals the
/// identifier that allocation returns, even when the later one reuses the
/// earlier one's slot after it was destroyed.
pub proof fn lemma_identifiers_never_repeat(
    earlier: EntityAllocator,
    later: EntityAllocator,
    e1: Entity,
    e2: Entity,
)
    requires
        earlier.issued().contains(e1),
        earlier.issued().subset_of(later.issued()),
        !later.issued().contains(e2),
    ensures
        e1 != e2,
{
}

} // verus!
