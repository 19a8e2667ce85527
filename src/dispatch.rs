use vstd::prelude::*;

use crate::world::World;

verus! {

#[derive(Clone, Copy, Debug, PartialEq, Eq, Structural)]
pub enum Mode {
    Read,
    Write,
}

/// One entry of a system's access descriptor: a resource tag and how it is used.
#[derive(Clone, Copy, Debug, PartialEq, Eq, Structural)]
pub struct Access {
    pub resource: u64,
    pub mode: Mode,
}

#[derive(Clone, Copy, Debug, PartialEq, Eq, Structural)]
pub enum DispatchError {
    /// A system was registered under a name already in use.
    DuplicateName,
    /// A dependency names no previously registered system.
    UnknownDependency,
    /// A system accesses a resource that the world never registered.
    UnregisteredResource(u64),
    /// A tick was requested before `setup`.
    NotSetUp,
    /// A tick was started, or setup attempted, while a tick is running.
    TickInProgress,
    /// A stage was reported finished while no tick is running.
    NoTickInProgress,
    /// The system at this index failed; the tick was abandoned.
    SystemFailure(usize),
}

/// Two accesses clash when they name one resource and at least one writes it.
pub open spec fn clash(a: Access, b: Access) -> bool {
    a.resource == b.resource && (a.mode == Mode::Write || b.mode == Mode::Write)
}

pub open spec fn conflicts(a: Seq<Access>, b: Seq<Access>) -> bool {
    exists|x: int, y: int| 0 <= x < a.len() && 0 <= y < b.len() && #[trigger] clash(a[x], b[y])
}

/// A unit of per-tick work, as the dispatcher sees it: the resources it
/// touches and how. The work itself is run by whoever drives the ticks.
pub trait System {
    /// The declared access descriptor.
    spec fn access_set(&self) -> Seq<Access>;

    fn accesses(&self) -> (r: Vec<Access>)
        ensures
            r@ == self.access_set(),
    ;
}

/// A registered system: its unique name, its access descriptor, and the
/// indices of the earlier systems it must run after.
pub struct SystemEntry {
    pub name: String,
    pub accesses: Vec<Access>,
    pub after: Vec<usize>,
}

/// System `j` has to finish before system `i` starts: `j` came first and the
/// two conflict, or `i` declared that it runs after `j`.
pub open spec fn must_precede(sys: Seq<SystemEntry>, j: int, i: int) -> bool {
    &&& 0 <= j < i < sys.len()
    &&& (conflicts(sys[j].accesses@, sys[i].accesses@) || sys[i].after@.contains(j as usize))
}

/// `stages` puts each system one stage after the latest system that must
/// precede it, and in stage 0 when there is none.
pub open spec fn is_layering(sys: Seq<SystemEntry>, stages: Seq<usize>) -> bool {
    &&& stages.len() == sys.len()
    &&& forall|j: int, i: int| #[trigger] must_precede(sys, j, i) ==> stages[j] < stages[i]
    &&& forall|i: int|
        0 <= i < sys.len() ==> (#[trigger] stages[i] == 0 || exists|j: int|
            #[trigger] must_precede(sys, j, i) && stages[j] + 1 == stages[i])
}

pub open spec fn names_unique(sys: Seq<SystemEntry>) -> bool {
    forall|a: int, b: int| 0 <= a < b < sys.len() ==> sys[a].name@ != sys[b].name@
}

pub open spec fn has_name(sys: Seq<SystemEntry>, name: Seq<char>) -> bool {
    exists|i: int| 0 <= i < sys.len() && #[trigger] sys[i].name@ == name
}

/// Index of the system called `name`, if any.
fn position_of(systems: &Vec<SystemEntry>, name: &String) -> (r: Option<usize>)
    ensures
        r is None <==> !has_name(systems@, name@),
        r matches Some(i) ==> i < systems@.len() && systems@[i as int].name@ == name@,
{
    let mut i: usize = 0;
    while i < systems.len()
        invariant
            i <= systems@.len(),
            forall|k: int| 0 <= k < i ==> systems@[k].name@ != name@,
        decreases systems@.len() - i,
    {
        if systems[i].name == *name {
            return Some(i);
        }
        i += 1;
    }
    None
}

fn conflicting(a: &Vec<Access>, b: &Vec<Access>) -> (r: bool)
    ensures
        r == conflicts(a@, b@),
{
    let mut x: usize = 0;
    while x < a.len()
        invariant
            x <= a@.len(),
            forall|p: int, q: int| 0 <= p < x && 0 <= q < b@.len() ==> !clash(a@[p], b@[q]),
        decreases a@.len() - x,
    {
        let mut y: usize = 0;
        while y < b.len()
            invariant
                x < a@.len(),
                y <= b@.len(),
                forall|p: int, q: int| 0 <= p < x && 0 <= q < b@.len() ==> !clash(a@[p], b@[q]),
                forall|q: int| 0 <= q < y ==> !clash(a@[x as int], b@[q]),
            decreases b@.len() - y,
        {
            let u = a[x];
            let v = b[y];
            if u.resource == v.resource && (u.mode == Mode::Write || v.mode == Mode::Write) {
                assert(clash(a@[x as int], b@[y as int]));
                return true;
            }
            y += 1;
        }
        x += 1;
    }
    false
}

fn lists(after: &Vec<usize>, j: usize) -> (r: bool)
    ensures
        r == after@.contains(j),
{
    let mut k: usize = 0;
    while k < after.len()
        invariant
            k <= after@.len(),
            forall|m: int| 0 <= m < k ==> after@[m] != j,
        decreases after@.len() - k,
    {
        if after[k] == j {
            assert(after@[k as int] == j);
            return true;
        }
        k += 1;
    }
    false
}

/// The outcome of registering a system with `accesses` under `name`, to run
/// after the systems named in `dependencies`: a taken name or an unknown
/// dependency is refused and changes nothing; otherwise the system is appended
/// with its dependencies resolved to the indices of the systems so named.
pub open spec fn registered(
    before: Seq<SystemEntry>,
    after: Seq<SystemEntry>,
    accesses: Seq<Access>,
    name: Seq<char>,
    dependencies: Seq<String>,
    r: Result<(), DispatchError>,
) -> bool {
    &&& (r == Err::<(), DispatchError>(DispatchError::DuplicateName) <==> has_name(before, name))
    &&& (r == Err::<(), DispatchError>(DispatchError::UnknownDependency) <==> !has_name(before, name)
        && exists|k: int|
        0 <= k < dependencies.len() && !has_name(before, #[trigger] dependencies[k]@))
    &&& (r is Ok <==> !has_name(before, name) && forall|k: int|
        0 <= k < dependencies.len() ==> has_name(before, #[trigger] dependencies[k]@))
    &&& (r is Err ==> after == before)
    &&& (r is Ok ==> {
        let n = before.len();
        let added = after[n as int];
        &&& after.len() == n + 1
        &&& after.subrange(0, n as int) == before
        &&& added.name@ == name
        &&& added.accesses@ == accesses
        &&& added.after@.len() == dependencies.len()
        &&& forall|k: int|
            0 <= k < dependencies.len() ==> {
                &&& #[trigger] added.after@[k] < n
                &&& before[added.after@[k] as int].name@ == dependencies[k]@
            }
    })
}

/// Collects systems with their access descriptors and ordering constraints.
pub struct DispatcherBuilder {
    systems: Vec<SystemEntry>,
}

impl DispatcherBuilder {
    pub closed spec fn systems(&self) -> Seq<SystemEntry> {
        self.systems@
    }

    pub closed spec fn wf(&self) -> bool {
        names_unique(self.systems@)
    }

    pub fn new() -> (r: Self)
        ensures
            r.wf(),
            r.systems().len() == 0,
    {
        DispatcherBuilder { systems: Vec::new() }
    }

    /// Registers a system under `name`, to run after each system named in
    /// `dependencies`, all of which must already be registered.
    pub fn with(&mut self, accesses: Vec<Access>, name: String, dependencies: Vec<String>) -> (r:
        Result<(), DispatchError>)
        requires
            old(self).wf(),
        ensures
            final(self).wf(),
            registered(old(self).systems(), final(self).systems(), accesses@, name@, dependencies@, r),
    {
        if position_of(&self.systems, &name).is_some() {
            return Err(DispatchError::DuplicateName);
        }
        let mut after: Vec<usize> = Vec::new();
        let mut k: usize = 0;
        while k < dependencies.len()
            invariant
                self.wf(),
                self.systems@ == old(self).systems@,
                k <= dependencies@.len(),
                after@.len() == k,
                !has_name(self.systems@, name@),
                forall|m: int|
                    0 <= m < k ==> {
                        &&& #[trigger] after@[m] < self.systems@.len()
                        &&& self.systems@[after@[m] as int].name@ == dependencies@[m]@
                    },
            decreases dependencies@.len() - k,
        {
            match position_of(&self.systems, &dependencies[k]) {
                Some(j) => {
                    after.push(j);
                },
                None => {
                    return Err(DispatchError::UnknownDependency);
                },
            }
            k += 1;
        }
        proof {
            assert forall|m: int| 0 <= m < dependencies@.len() implies has_name(
                self.systems@,
                #[trigger] dependencies@[m]@,
            ) by {
                assert(self.systems@[after@[m] as int].name@ == dependencies@[m]@);
            }
        }
        let ghost before = self.systems@;
        self.systems.push(SystemEntry { name, accesses, after });
        assert(self.systems@.subrange(0, before.len() as int) =~= before);
        assert forall|a: int, b: int| 0 <= a < b < self.systems@.len() implies self.systems@[a].name@
            != self.systems@[b].name@ by {
            if b == before.len() {
                assert(before[a].name@ != name@);
            }
        }
        Ok(())
    }

    /// Registers `system` by its declared access descriptor, as `with` does.
    pub fn with_system<S: System>(&mut self, system: &S, name: String, dependencies: Vec<String>) -> (r:
        Result<(), DispatchError>)
        requires
            old(self).wf(),
        ensures
            final(self).wf(),
            registered(
                old(self).systems(),
                final(self).systems(),
                system.access_set(),
                name@,
                dependencies@,
                r,
            ),
    {
        let accesses = system.accesses();
        self.with(accesses, name, dependencies)
    }

    /// Freezes the system set and computes its stages.
    pub fn build(self) -> (d: Dispatcher)
        requires
            self.wf(),
        ensures
            d.wf(),
            d.systems() == self.systems(),
            !d.is_set_up(),
            !d.in_tick(),
    {
        let n = self.systems.len();
        let mut stages: Vec<usize> = Vec::new();
        let mut count: usize = 0;
        let ghost mut top: int = 0;
        let mut i: usize = 0;
        while i < n
            invariant
                n == self.systems@.len(),
                i <= n,
                stages@.len() == i,
                forall|k: int| 0 <= k < i ==> stages@[k] <= k,
                forall|j: int, k: int|
                    #[trigger] must_precede(self.systems@, j, k) && k < i ==> stages@[j] < stages@[k],
                forall|k: int|
                    0 <= k < i ==> (#[trigger] stages@[k] == 0 || exists|j: int|
                        #[trigger] must_precede(self.systems@, j, k) && stages@[j] + 1 == stages@[k]),
                forall|k: int| 0 <= k < i ==> stages@[k] < count,
                i == 0 ==> count == 0,
                i > 0 ==> 0 <= top < i && stages@[top] + 1 == count,
            decreases n - i,
        {
            let mut s: usize = 0;
            let mut j: usize = 0;
            while j < i
                invariant
                    n == self.systems@.len(),
                    i < n,
                    j <= i,
                    stages@.len() == i,
                    forall|k: int| 0 <= k < i ==> stages@[k] <= k,
                    s <= j,
                    forall|m: int|
                        0 <= m < j && #[trigger] must_precede(self.systems@, m, i as int)
                            ==> stages@[m] < s,
                    s == 0 || exists|m: int|
                        #[trigger] must_precede(self.systems@, m, i as int) && stages@[m] + 1 == s,
                decreases i - j,
            {
                let before_i = conflicting(&self.systems[j].accesses, &self.systems[i].accesses)
                    || lists(&self.systems[i].after, j);
                assert(before_i == must_precede(self.systems@, j as int, i as int));
                if before_i && stages[j] + 1 > s {
                    s = stages[j] + 1;
                }
                j += 1;
            }
            let ghost prev = stages@;
            stages.push(s);
            assert forall|j2: int, k: int|
                #[trigger] must_precede(self.systems@, j2, k) && k < i + 1 implies stages@[j2]
                < stages@[k] by {
                if k < i {
                    assert(prev[j2] < prev[k]);
                }
            }
            assert forall|k: int|
                0 <= k < i + 1 implies (#[trigger] stages@[k] == 0 || exists|j2: int|
                #[trigger] must_precede(self.systems@, j2, k) && stages@[j2] + 1 == stages@[k]) by {
                if k < i && prev[k] != 0 {
                    let j2 = choose|j2: int|
                        #[trigger] must_precede(self.systems@, j2, k) && prev[j2] + 1 == prev[k];
                    assert(must_precede(self.systems@, j2, k) && stages@[j2] + 1 == stages@[k]);
                }
                if k == i && s != 0 {
                    let j2 = choose|j2: int|
                        #[trigger] must_precede(self.systems@, j2, i as int) && prev[j2] + 1 == s;
                    assert(must_precede(self.systems@, j2, k) && stages@[j2] + 1 == stages@[k]);
                }
            }
            if s + 1 > count {
                count = s + 1;
                proof {
                    top = i as int;
                }
            }
            assert(stages@[top] == prev[top] || top == i);
            i += 1;
        }
        proof {
            if n > 0 {
                assert(0 <= top < stages@.len() && stages@[top] + 1 == count);
            }
        }
        Dispatcher {
            systems: self.systems,
            stages,
            count,
            set_up: false,
            in_tick: false,
            current: 0,
        }
    }
}

/// The frozen execution plan and the per-tick state machine that walks it:
/// ready (between ticks) or dispatching one stage of a tick.
pub struct Dispatcher {
    systems: Vec<SystemEntry>,
    stages: Vec<usize>,
    count: usize,
    set_up: bool,
    in_tick: bool,
    current: usize,
}

impl Dispatcher {
    pub closed spec fn systems(&self) -> Seq<SystemEntry> {
        self.systems@
    }

    /// The stage of each system, by registration index.
    pub closed spec fn stages(&self) -> Seq<usize> {
        self.stages@
    }

    pub closed spec fn stage_count(&self) -> nat {
        self.count as nat
    }

    pub closed spec fn is_set_up(&self) -> bool {
        self.set_up
    }

    pub closed spec fn in_tick(&self) -> bool {
        self.in_tick
    }

    /// The stage now running, while a tick is in progress.
    pub closed spec fn current_stage(&self) -> nat {
        self.current as nat
    }

    pub closed spec fn wf(&self) -> bool {
        &&& names_unique(self.systems@)
        &&& is_layering(self.systems@, self.stages@)
        &&& forall|k: int| 0 <= k < self.stages@.len() ==> self.stages@[k] < self.count
        &&& self.stages@.len() == 0 ==> self.count == 0
        &&& self.stages@.len() > 0 ==> exists|k: int|
            0 <= k < self.stages@.len() && self.stages@[k] + 1 == self.count
        &&& self.in_tick ==> self.set_up && (self.current < self.count || (self.count == 0
            && self.current == 0))
    }

    /// The plan's properties, available to callers.
    pub proof fn lemma_plan(&self)
        requires
            self.wf(),
        ensures
            is_layering(self.systems(), self.stages()),
            forall|k: int| 0 <= k < self.stages().len() ==> self.stages()[k] < self.stage_count(),
            self.stages().len() == 0 ==> self.stage_count() == 0,
            self.stages().len() > 0 ==> exists|k: int|
                0 <= k < self.stages().len() && self.stages()[k] + 1 == self.stage_count(),
            names_unique(self.systems()),
    {
    }

    pub fn num_stages(&self) -> (r: usize)
        ensures
            r == self.stage_count(),
    {
        self.count
    }

    pub fn num_systems(&self) -> (r: usize)
        ensures
            r == self.systems().len(),
    {
        self.systems.len()
    }

    /// The indices of the systems in stage `k`, in registration order.
    pub fn stage(&self, k: usize) -> (r: Vec<usize>)
        requires
            self.wf(),
        ensures
            forall|x: usize| r@.contains(x) <==> (x < self.stages().len() && self.stages()[x as int] == k),
            forall|a: int, b: int| 0 <= a < b < r@.len() ==> r@[a] < r@[b],
    {
        let mut out: Vec<usize> = Vec::new();
        let mut i: usize = 0;
        while i < self.stages.len()
            invariant
                i <= self.stages@.len(),
                forall|x: usize| out@.contains(x) <==> (x < i && self.stages@[x as int] == k),
                forall|a: int, b: int| 0 <= a < b < out@.len() ==> out@[a] < out@[b],
                forall|a: int| 0 <= a < out@.len() ==> out@[a] < i,
            decreases self.stages@.len() - i,
        {
            if self.stages[i] == k {
                let ghost prev = out@;
                out.push(i);
                assert forall|x: usize| out@.contains(x) <==> (x < i + 1 && self.stages@[x as int] == k) by {
                    if out@.contains(x) && x != i {
                        let m = choose|m: int| 0 <= m < out@.len() && out@[m] == x;
                        assert(prev[m] == x);
                        assert(prev.contains(x));
                    }
                    if x < i && self.stages@[x as int] == k {
                        assert(prev.contains(x));
                        let m = choose|m: int| 0 <= m < prev.len() && prev[m] == x;
                        assert(out@[m] == x);
                    }
                    if x == i {
                        assert(out@[prev.len() as int] == i);
                    }
                }
            }
            i += 1;
        }
        out
    }

    /// Validates every declared access against the world's registry; on success
    /// the dispatcher may start ticks.
    pub fn setup(&mut self, world: &World) -> (r: Result<(), DispatchError>)
        requires
            old(self).wf(),
        ensures
            final(self).wf(),
            final(self).systems() == old(self).systems(),
            final(self).stages() == old(self).stages(),
            final(self).stage_count() == old(self).stage_count(),
            final(self).in_tick() == old(self).in_tick(),
            final(self).current_stage() == old(self).current_stage(),
            r == Err::<(), DispatchError>(DispatchError::TickInProgress) <==> old(self).in_tick(),
            r is Ok <==> !old(self).in_tick() && forall|i: int, a: int|
                0 <= i < old(self).systems().len() && 0 <= a < old(self).systems()[i].accesses@.len()
                    ==> world.registered().contains(
                    #[trigger] old(self).systems()[i].accesses@[a].resource,
                ),
            r matches Err(DispatchError::UnregisteredResource(t)) ==> !world.registered().contains(t)
                && exists|i: int, a: int|
                0 <= i < old(self).systems().len() && 0 <= a < old(self).systems()[i].accesses@.len()
                    && #[trigger] old(self).systems()[i].accesses@[a].resource == t,
            r is Ok ==> final(self).is_set_up(),
            r is Err ==> final(self).is_set_up() == old(self).is_set_up(),
    {
        if self.in_tick {
            return Err(DispatchError::TickInProgress);
        }
        let mut i: usize = 0;
        while i < self.systems.len()
            invariant
                self.wf(),
                !self.in_tick,
                i <= self.systems@.len(),
                forall|p: int, a: int|
                    0 <= p < i && 0 <= a < self.systems@[p].accesses@.len()
                        ==> world.registered().contains(#[trigger] self.systems@[p].accesses@[a].resource),
            decreases self.systems@.len() - i,
        {
            let mut a: usize = 0;
            while a < self.systems[i].accesses.len()
                invariant
                    self.wf(),
                    !self.in_tick,
                    i < self.systems@.len(),
                    a <= self.systems@[i as int].accesses@.len(),
                    forall|p: int, b: int|
                        0 <= p < i && 0 <= b < self.systems@[p].accesses@.len()
                            ==> world.registered().contains(#[trigger] self.systems@[p].accesses@[b].resource),
                    forall|b: int|
                        0 <= b < a ==> world.registered().contains(
                            #[trigger] self.systems@[i as int].accesses@[b].resource,
                        ),
                decreases self.systems@[i as int].accesses@.len() - a,
            {
                let t = self.systems[i].accesses[a].resource;
                if !world.is_registered(t) {
                    assert(self.systems@[i as int].accesses@[a as int].resource == t);
                    return Err(DispatchError::UnregisteredResource(t));
                }
                a += 1;
            }
            i += 1;
        }
        self.set_up = true;
        Ok(())
    }

    /// Starts a tick at its first stage.
    pub fn begin_tick(&mut self) -> (r: Result<(), DispatchError>)
        requires
            old(self).wf(),
        ensures
            final(self).wf(),
            final(self).systems() == old(self).systems(),
            final(self).stages() == old(self).stages(),
            final(self).stage_count() == old(self).stage_count(),
            final(self).is_set_up() == old(self).is_set_up(),
            r == Err::<(), DispatchError>(DispatchError::NotSetUp) <==> !old(self).is_set_up(),
            r == Err::<(), DispatchError>(DispatchError::TickInProgress) <==> old(self).is_set_up()
                && old(self).in_tick(),
            r is Ok <==> old(self).is_set_up() && !old(self).in_tick(),
            r is Ok ==> final(self).in_tick() && final(self).current_stage() == 0,
            r is Err ==> final(self).in_tick() == old(self).in_tick() && final(self).current_stage()
                == old(self).current_stage(),
    {
        if !self.set_up {
            return Err(DispatchError::NotSetUp);
        }
        if self.in_tick {
            return Err(DispatchError::TickInProgress);
        }
        self.in_tick = true;
        self.current = 0;
        Ok(())
    }

    /// The systems to run now: those of the current stage.
    pub fn running_systems(&self) -> (r: Vec<usize>)
        requires
            self.wf(),
            self.in_tick(),
        ensures
            forall|x: usize|
                r@.contains(x) <==> (x < self.stages().len() && self.stages()[x as int]
                    == self.current_stage()),
            forall|a: int, b: int| 0 <= a < b < r@.len() ==> r@[a] < r@[b],
    {
        self.stage(self.current)
    }

    /// Reports that every system of the current stage returned. `failure`
    /// names a system that failed, which abandons the rest of the tick.
    /// `Ok(true)` means the tick is complete; `Ok(false)` that the next stage
    /// is now current.
    pub fn finish_stage(&mut self, failure: Option<usize>) -> (r: Result<bool, DispatchError>)
        requires
            old(self).wf(),
        ensures
            final(self).wf(),
            final(self).systems() == old(self).systems(),
            final(self).stages() == old(self).stages(),
            final(self).stage_count() == old(self).stage_count(),
            final(self).is_set_up() == old(self).is_set_up(),
            !old(self).in_tick() ==> r == Err::<bool, DispatchError>(DispatchError::NoTickInProgress)
                && !final(self).in_tick(),
            old(self).in_tick() ==> match failure {
                Some(f) => r == Err::<bool, DispatchError>(DispatchError::SystemFailure(f))
                    && !final(self).in_tick(),
                None => if old(self).current_stage() + 1 >= old(self).stage_count() {
                    r == Ok::<bool, DispatchError>(true) && !final(self).in_tick()
                } else {
                    r == Ok::<bool, DispatchError>(false) && final(self).in_tick()
                        && final(self).current_stage() == old(self).current_stage() + 1
                },
            },
    {
        if !self.in_tick {
            return Err(DispatchError::NoTickInProgress);
        }
        match failure {
            Some(f) => {
                self.in_tick = false;
                Err(DispatchError::SystemFailure(f))
            },
            None => {
                if self.current + 1 >= self.count {
                    self.in_tick = false;
                    Ok(true)
                } else {
                    self.current = self.current + 1;
                    Ok(false)
                }
            },
        }
    }
}

/// Two conflicting systems (one writes a resource the other reads or writes)
/// are never placed in the same stage.
pub proof fn lemma_conflicts_never_share_a_stage(
    sys: Seq<SystemEntry>,
    stages: Seq<usize>,
    i: int,
    j: int,
)
    requires
        is_layering(sys, stages),
        0 <= i < sys.len(),
        0 <= j < sys.len(),
        i != j,
        conflicts(sys[i].accesses@, sys[j].accesses@),
    ensures
        stages[i] != stages[j],
{
    if j < i {
        let (x, y) = choose|x: int, y: int|
            0 <= x < sys[i].accesses@.len() && 0 <= y < sys[j].accesses@.len() && #[trigger] clash(
                sys[i].accesses@[x],
                sys[j].accesses@[y],
            );
        assert(clash(sys[j].accesses@[y], sys[i].accesses@[x]));
        assert(must_precede(sys, j, i));
    } else {
        assert(must_precede(sys, i, j));
    }
}

/// A system that declares it runs after another is placed in a strictly later
/// stage, whether or not the two share a resource.
pub proof fn lemma_dependencies_run_earlier(sys: Seq<SystemEntry>, stages: Seq<usize>, i: int, k: int)
    requires
        is_layering(sys, stages),
        0 <= i < sys.len(),
        0 <= k < sys[i].after@.len(),
        sys[i].after@[k] < i,
    ensures
        stages[sys[i].after@[k] as int] < stages[i],
{
    assert(must_precede(sys, sys[i].after@[k] as int, i));
}

} // verus!
