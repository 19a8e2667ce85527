use vstd::prelude::*;

verus! {

/// A cursor into one event channel. It is not `Clone`: each consumer owns its own.
#[derive(Debug)]
pub struct ReaderId {
    channel: u64,
    id: usize,
}

impl ReaderId {
    pub closed spec fn id(&self) -> nat {
        self.id as nat
    }

    /// The tag of the channel that issued this cursor.
    pub closed spec fn channel(&self) -> u64 {
        self.channel
    }
}

/// An append-only broadcast log of events with independent reader cursors.
///
/// Positions are counted from the first event ever written. Only the suffix
/// that some live cursor has not yet passed is kept in memory; with no live
/// cursor nothing is kept.
pub struct EventChannel<T> {
    tag: u64,
    events: Vec<T>,
    first: usize,
    cursors: Vec<Option<usize>>,
    history: Ghost<Seq<T>>,
}

impl<T: Copy> EventChannel<T> {
    /// Every event written so far, in order.
    pub closed spec fn history(&self) -> Seq<T> {
        self.history@
    }

    /// The position of each reader slot; `None` for a dropped reader.
    pub closed spec fn cursors(&self) -> Seq<Option<usize>> {
        self.cursors@
    }

    /// Position of the oldest event still held in memory.
    pub closed spec fn retained_from(&self) -> nat {
        self.first as nat
    }

    /// The resource tag this channel was created with; its cursors carry it.
    pub closed spec fn tag(&self) -> u64 {
        self.tag
    }

    pub open spec fn is_registered(&self, r: &ReaderId) -> bool {
        r.channel() == self.tag() && r.id() < self.cursors().len() && self.cursors()[r.id() as int] is Some
    }

    pub open spec fn position(&self, r: &ReaderId) -> nat {
        self.cursors()[r.id() as int]->Some_0 as nat
    }

    pub closed spec fn wf(&self) -> bool {
        &&& self.first + self.events@.len() == self.history@.len()
        &&& self.history@.len() <= usize::MAX
        &&& self.events@ == self.history@.subrange(self.first as int, self.history@.len() as int)
        &&& forall|k: int|
            0 <= k < self.cursors@.len() && #[trigger] self.cursors@[k] is Some ==> {
                &&& self.first <= self.cursors@[k]->Some_0
                &&& self.cursors@[k]->Some_0 <= self.history@.len()
            }
    }

    /// A registered cursor's unread events are never discarded.
    pub proof fn lemma_unread_is_retained(&self, r: &ReaderId)
        requires
            self.wf(),
            self.is_registered(r),
        ensures
            self.retained_from() <= self.position(r) <= self.history().len(),
    {
        assert(self.cursors@[r.id() as int] is Some);
    }

    pub fn new(tag: u64) -> (r: Self)
        ensures
            r.wf(),
            r.tag() == tag,
            r.history() == Seq::<T>::empty(),
            r.cursors() == Seq::<Option<usize>>::empty(),
    {
        let r = EventChannel {
            tag,
            events: Vec::new(),
            first: 0,
            cursors: Vec::new(),
            history: Ghost(Seq::empty()),
        };
        assert(r.events@ =~= r.history@.subrange(0, 0));
        r
    }

    /// The smallest position of a live cursor, or `None` when there is none.
    fn slowest_cursor(&self) -> (r: Option<usize>)
        requires
            self.wf(),
        ensures
            r is None <==> forall|k: int| 0 <= k < self.cursors@.len() ==> self.cursors@[k] is None,
            r matches Some(m) ==> {
                &&& self.first <= m <= self.history@.len()
                &&& forall|k: int|
                    0 <= k < self.cursors@.len() && #[trigger] self.cursors@[k] is Some
                        ==> m <= self.cursors@[k]->Some_0
            },
    {
        let mut best: Option<usize> = None;
        let mut i: usize = 0;
        while i < self.cursors.len()
            invariant
                self.wf(),
                i <= self.cursors@.len(),
                best is None <==> forall|k: int| 0 <= k < i ==> self.cursors@[k] is None,
                best matches Some(m) ==> {
                    &&& self.first <= m <= self.history@.len()
                    &&& forall|k: int|
                        0 <= k < i && #[trigger] self.cursors@[k] is Some
                            ==> m <= self.cursors@[k]->Some_0
                },
            decreases self.cursors@.len() - i,
        {
            if let Some(c) = self.cursors[i] {
                match best {
                    Some(m) => {
                        if c < m {
                            best = Some(c);
                        }
                    },
                    None => {
                        best = Some(c);
                    },
                }
            }
            i += 1;
        }
        best
    }

    /// Drops every retained event that all live cursors have passed.
    fn compact(&mut self)
        requires
            old(self).wf(),
        ensures
            final(self).wf(),
            final(self).history() == old(self).history(),
            final(self).cursors() == old(self).cursors(),
            final(self).tag() == old(self).tag(),
            (forall|k: int| 0 <= k < old(self).cursors().len() ==> old(self).cursors()[k] is None)
                ==> final(self).retained_from() == old(self).history().len(),
    {
        let slowest = self.slowest_cursor();
        let target = match slowest {
            Some(m) => m,
            None => self.first + self.events.len(),
        };
        assert((forall|k: int| 0 <= k < self.cursors@.len() ==> self.cursors@[k] is None) ==> slowest is None);
        assert(slowest is None ==> target == self.history@.len());
        if target == self.first {
            return;
        }
        let skip = target - self.first;
        let mut kept: Vec<T> = Vec::new();
        let mut i: usize = skip;
        while i < self.events.len()
            invariant
                self.wf(),
                skip <= i <= self.events@.len(),
                kept@ == self.events@.subrange(skip as int, i as int),
            decreases self.events@.len() - i,
        {
            kept.push(self.events[i]);
            i += 1;
            assert(kept@ =~= self.events@.subrange(skip as int, i as int));
        }
        let ghost h = self.history@;
        assert(kept@ =~= h.subrange(target as int, h.len() as int));
        self.events = kept;
        self.first = target;
    }

    /// `after` is `before` once `r` has read `out`: every event written since
    /// `r`'s last read, in order, with `r` moved to the write head and the log
    /// and every other cursor unchanged.
    pub open spec fn read_step(before: Self, after: Self, r: &ReaderId, out: Seq<T>) -> bool {
        &&& before.is_registered(r)
        &&& before.position(r) <= before.history().len()
        &&& after.history() == before.history()
        &&& out == before.history().subrange(before.position(r) as int, before.history().len() as int)
        &&& after.cursors() == before.cursors().update(r.id() as int, Some(before.history().len() as usize))
        &&& after.is_registered(r)
        &&& after.position(r) == after.history().len()
    }

    /// How many events are held in memory: those some live cursor has not read.
    pub fn retained_len(&self) -> (r: usize)
        requires
            self.wf(),
        ensures
            r + self.retained_from() == self.history().len(),
    {
        self.events.len()
    }

    /// Creates a cursor at the current write head: it sees only events written
    /// after this call.
    pub fn register_reader(&mut self) -> (r: ReaderId)
        requires
            old(self).wf(),
        ensures
            final(self).wf(),
            final(self).history() == old(self).history(),
            final(self).tag() == old(self).tag(),
            r.channel() == old(self).tag(),
            r.id() == old(self).cursors().len(),
            final(self).cursors() == old(self).cursors().push(Some(old(self).history().len() as usize)),
            final(self).is_registered(&r),
            final(self).position(&r) == final(self).history().len(),
    {
        let id = self.cursors.len();
        let head = self.first + self.events.len();
        self.cursors.push(Some(head));
        let r = ReaderId { channel: self.tag, id };
        assert(self.cursors@[r.id() as int] == Some(head));
        r
    }

    /// Releases a cursor, so that the channel no longer keeps events for it.
    pub fn drop_reader(&mut self, r: ReaderId)
        requires
            old(self).wf(),
            old(self).is_registered(&r),
        ensures
            final(self).wf(),
            final(self).history() == old(self).history(),
            final(self).tag() == old(self).tag(),
            final(self).cursors() == old(self).cursors().update(r.id() as int, None),
            (forall|k: int| 0 <= k < final(self).cursors().len() ==> final(self).cursors()[k] is None)
                ==> final(self).retained_from() == final(self).history().len(),
    {
        self.cursors.set(r.id, None);
        self.compact();
    }

    /// Appends one event. With no live cursor the event is not kept.
    pub fn single_write(&mut self, event: T)
        requires
            old(self).wf(),
            old(self).history().len() < usize::MAX,
        ensures
            final(self).wf(),
            final(self).tag() == old(self).tag(),
            final(self).history() == old(self).history().push(event),
            final(self).cursors() == old(self).cursors(),
            (forall|k: int| 0 <= k < final(self).cursors().len() ==> final(self).cursors()[k] is None)
                ==> final(self).retained_from() == final(self).history().len(),
    {
        self.events.push(event);
        proof {
            self.history@ = self.history@.push(event);
            assert(self.events@ =~= self.history@.subrange(self.first as int, self.history@.len() as int));
        }
        self.compact();
    }

    /// Returns every event written since `r`'s last read (or its registration)
    /// and moves `r` to the write head.
    pub fn read(&mut self, r: &ReaderId) -> (out: Vec<T>)
        requires
            old(self).wf(),
            old(self).is_registered(r),
        ensures
            final(self).wf(),
            final(self).tag() == old(self).tag(),
            Self::read_step(*old(self), *final(self), r, out@),
    {
        let start = match self.cursors[r.id] {
            Some(c) => c,
            None => 0,
        };
        let mut out: Vec<T> = Vec::new();
        let mut i: usize = start - self.first;
        while i < self.events.len()
            invariant
                self.wf(),
                self.first <= start <= self.history@.len(),
                start - self.first <= i <= self.events@.len(),
                out@ == self.events@.subrange(start - self.first, i as int),
            decreases self.events@.len() - i,
        {
            out.push(self.events[i]);
            i += 1;
            assert(out@ =~= self.events@.subrange(start - self.first, i as int));
        }
        let ghost h = self.history@;
        assert(out@ =~= h.subrange(start as int, h.len() as int));
        let head = self.first + self.events.len();
        self.cursors.set(r.id, Some(head));
        self.compact();
        out
    }
}

proof fn lemma_subranges_join<T>(at_first_read: Seq<T>, at_second_read: Seq<T>, registered_at: int)
    requires
        0 <= registered_at <= at_first_read.len(),
        at_first_read.is_prefix_of(at_second_read),
    ensures
        at_first_read.subrange(registered_at, at_first_read.len() as int) + at_second_read.subrange(
            at_first_read.len() as int,
            at_second_read.len() as int,
        ) == at_second_read.subrange(registered_at, at_second_read.len() as int),
{
    assert(at_first_read.subrange(registered_at, at_first_read.len() as int) + at_second_read.subrange(
        at_first_read.len() as int,
        at_second_read.len() as int,
    ) =~= at_second_read.subrange(registered_at, at_second_read.len() as int));
}

/// Two successive reads of one cursor, with any writes (and any other
/// cursors' activity) in between, together yield exactly the events written
/// from the first read's starting point on: nothing twice, nothing skipped.
pub proof fn lemma_successive_reads<T: Copy>(
    before_first: EventChannel<T>,
    after_first: EventChannel<T>,
    before_second: EventChannel<T>,
    after_second: EventChannel<T>,
    r: &ReaderId,
    first: Seq<T>,
    second: Seq<T>,
)
    requires
        EventChannel::read_step(before_first, after_first, r, first),
        after_first.history().is_prefix_of(before_second.history()),
        before_second.is_registered(r),
        before_second.position(r) == after_first.position(r),
        EventChannel::read_step(before_second, after_second, r, second),
    ensures
        first + second == after_second.history().subrange(
            before_first.position(r) as int,
            after_second.history().len() as int,
        ),
{
    lemma_subranges_join(before_first.history(), before_second.history(), before_first.position(r) as int);
}

} // verus!
