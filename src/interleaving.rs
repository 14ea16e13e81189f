use crate::protocol::{pull_step_spec, PullStep};
use crate::write_permit::{permit_for_many, WritePermit};
use vstd::prelude::*;

verus! {

/// The three cursors with every writer and reader in flight, as threads that
/// share a queue see them between two atomic steps.
///
/// * a writer holds the reserved range `writers[w] = (begin, end)` until it
///   publishes it; `wrote` holds the writers whose values are in place,
/// * a reader holds the claimed range `readers[r] = (begin, end)` until it
///   takes it or gives it back,
/// * `filled` holds the slots whose value is in place, `taken` those handed
///   to a reader.
pub struct Cursors {
    pub written: int,
    pub reserved: int,
    pub popped: int,
    pub capacity: int,
    pub max_capacity: int,
    pub writers: Map<int, (int, int)>,
    pub wrote: Set<int>,
    pub readers: Map<int, (int, int)>,
    pub filled: Set<int>,
    pub taken: Set<int>,
}

/// Whether the ranges `a` and `b` share no index.
pub open spec fn disjoint(a: (int, int), b: (int, int)) -> bool {
    a.1 <= b.0 || b.1 <= a.0
}

/// Whether `i` lies in the range `a`.
pub open spec fn within(i: int, a: (int, int)) -> bool {
    a.0 <= i < a.1
}

impl Cursors {
    /// What holds between any two atomic steps.
    pub open spec fn inv(self) -> bool {
        &&& 0 <= self.written <= self.reserved <= self.max_capacity
        &&& 0 <= self.popped
        &&& 0 <= self.capacity <= self.max_capacity
        // writers hold disjoint ranges that tile the unpublished reservations
        &&& forall|w: int|
            #[trigger] self.writers.contains_key(w) ==> self.written <= self.writers[w].0
                < self.writers[w].1 <= self.reserved
        &&& forall|w: int, v: int|
            #[trigger] self.writers.contains_key(w) && #[trigger] self.writers.contains_key(v)
                && w != v ==> disjoint(self.writers[w], self.writers[v])
        &&& forall|i: int| self.written <= i < self.reserved ==> #[trigger] self.writer_holds(i)
        // what a writer wrote is in place, and so is everything published
        &&& forall|w: int|
            #[trigger] self.wrote.contains(w) ==> self.writers.contains_key(w) && forall|i: int|
                within(i, self.writers[w]) ==> #[trigger] self.filled.contains(i)
        &&& forall|i: int| 0 <= i < self.written ==> #[trigger] self.filled.contains(i)
        // readers hold disjoint claimed ranges below `popped`
        &&& forall|r: int|
            #[trigger] self.readers.contains_key(r) ==> 0 <= self.readers[r].0
                < self.readers[r].1 <= self.popped
        &&& forall|r: int, q: int|
            #[trigger] self.readers.contains_key(r) && #[trigger] self.readers.contains_key(q)
                && r != q ==> disjoint(self.readers[r], self.readers[q])
        // what was handed out was published, lies below `popped`, and is no
        // longer claimed; everything below `popped` is handed out or claimed
        &&& forall|i: int|
            #[trigger] self.taken.contains(i) ==> 0 <= i < self.written && i < self.popped
        &&& forall|i: int, r: int|
            #[trigger] self.taken.contains(i) && #[trigger] self.readers.contains_key(r)
                ==> !within(i, self.readers[r])
        &&& forall|i: int| 0 <= i < self.popped ==> #[trigger] self.accounted(i)
    }

    /// Some writer in flight holds slot `i`.
    pub open spec fn writer_holds(self, i: int) -> bool {
        exists|w: int| #[trigger] self.writers.contains_key(w) && within(i, self.writers[w])
    }

    /// Some reader in flight holds slot `i`.
    pub open spec fn reader_holds(self, i: int) -> bool {
        exists|r: int| #[trigger] self.readers.contains_key(r) && within(i, self.readers[r])
    }

    /// Slot `i` was handed out or is claimed.
    pub open spec fn accounted(self, i: int) -> bool {
        self.taken.contains(i) || self.reader_holds(i)
    }

    /// A queue seeded with `len` published elements, nothing in flight.
    pub open spec fn seeded(len: int, capacity: int, max_capacity: int) -> Cursors {
        Cursors {
            written: len,
            reserved: len,
            popped: 0,
            capacity,
            max_capacity,
            writers: Map::empty(),
            wrote: Set::empty(),
            readers: Map::empty(),
            filled: Set::new(|i: int| 0 <= i < len),
            taken: Set::empty(),
        }
    }

    /// Writer `w` reserves `n` slots: `write_reserved` moves from `begin` to
    /// `begin + n`. Enabled when the last of them lies below the maximum
    /// capacity.
    pub open spec fn reserve_write_enabled(self, w: int, n: int) -> bool {
        &&& n > 0
        &&& !self.writers.contains_key(w)
        &&& self.reserved + n - 1 < self.max_capacity
    }

    pub open spec fn reserve_write(self, w: int, n: int) -> Cursors {
        Cursors {
            reserved: self.reserved + n,
            writers: self.writers.insert(w, (self.reserved, self.reserved + n)),
            ..self
        }
    }

    /// The permit of writer `w` against the current capacity.
    pub open spec fn permit(self, w: int) -> WritePermit {
        permit_for_many(self.capacity, self.writers[w].0, self.writers[w].1 - 1)
    }

    /// Writer `w`, holding `GrowThenWrite`, grows the store to its end; the
    /// store never shrinks and never passes the maximum capacity.
    pub open spec fn grow_enabled(self, w: int, new_capacity: int) -> bool {
        &&& self.writers.contains_key(w)
        &&& self.permit(w) == WritePermit::GrowThenWrite
        &&& self.writers[w].1 <= new_capacity <= self.max_capacity
    }

    pub open spec fn grow(self, new_capacity: int) -> Cursors {
        Cursors { capacity: new_capacity, ..self }
    }

    /// Writer `w`, holding `JustWrite`, writes its values.
    pub open spec fn write_enabled(self, w: int) -> bool {
        &&& self.writers.contains_key(w)
        &&& self.permit(w) == WritePermit::JustWrite
    }

    pub open spec fn write(self, w: int) -> Cursors {
        Cursors {
            wrote: self.wrote.insert(w),
            filled: self.filled + Set::new(|i: int| within(i, self.writers[w])),
            ..self
        }
    }

    /// Writer `w` publishes: its compare-and-exchange of `written` from its
    /// `begin` to its `end` succeeds only once every earlier slot is
    /// published.
    pub open spec fn publish_enabled(self, w: int) -> bool {
        &&& self.wrote.contains(w)
        &&& self.written == self.writers[w].0
    }

    pub open spec fn publish(self, w: int) -> Cursors {
        Cursors {
            written: self.writers[w].1,
            writers: self.writers.remove(w),
            wrote: self.wrote.remove(w),
            ..self
        }
    }

    /// Reader `r` claims `n` slots: `popped` moves from `begin` to
    /// `begin + n`.
    pub open spec fn claim_enabled(self, r: int, n: int) -> bool {
        &&& n > 0
        &&& !self.readers.contains_key(r)
    }

    pub open spec fn claim(self, r: int, n: int) -> Cursors {
        Cursors {
            popped: self.popped + n,
            readers: self.readers.insert(r, (self.popped, self.popped + n)),
            ..self
        }
    }

    /// The step reader `r` takes against the published prefix.
    pub open spec fn step_of(self, r: int) -> PullStep {
        pull_step_spec(
            self.readers[r].0,
            self.readers[r].1 - self.readers[r].0,
            self.written,
        )
    }

    /// Reader `r` sees nothing published and gives its claim back: the
    /// compare-and-exchange of `popped` from its `end` to its `begin`
    /// succeeds only while no later claim was made.
    pub open spec fn give_back_enabled(self, r: int) -> bool {
        &&& self.readers.contains_key(r)
        &&& self.step_of(r) == PullStep::Undo
        &&& self.popped == self.readers[r].1
    }

    pub open spec fn give_back(self, r: int) -> Cursors {
        Cursors { popped: self.readers[r].0, readers: self.readers.remove(r), ..self }
    }

    /// Reader `r` sees part of its claim published and shrinks it to the
    /// published prefix: `popped` from its `end` to `written`, which succeeds
    /// only while no later claim was made.
    pub open spec fn shrink_enabled(self, r: int) -> bool {
        &&& self.readers.contains_key(r)
        &&& self.step_of(r) is Partial
        &&& self.popped == self.readers[r].1
    }

    pub open spec fn shrink(self, r: int) -> Cursors {
        Cursors {
            popped: self.written,
            readers: self.readers.insert(r, (self.readers[r].0, self.written)),
            ..self
        }
    }

    /// Reader `r` sees its whole claim published and takes it.
    pub open spec fn take_enabled(self, r: int) -> bool {
        &&& self.readers.contains_key(r)
        &&& self.step_of(r) is Whole
    }

    pub open spec fn take(self, r: int) -> Cursors {
        Cursors {
            readers: self.readers.remove(r),
            taken: self.taken + Set::new(|i: int| within(i, self.readers[r])),
            ..self
        }
    }

    /// A whole writer's run: reserve `n` slots, grow the store to
    /// `new_capacity` when elected to, write, publish.
    pub open spec fn write_run(self, w: int, n: int, new_capacity: int) -> Cursors {
        let a = self.reserve_write(w, n);
        let b = if a.permit(w) == WritePermit::GrowThenWrite {
            a.grow(new_capacity)
        } else {
            a
        };
        b.write(w).publish(w)
    }

    /// Whether every step of `write_run` is enabled when it is taken.
    pub open spec fn write_run_enabled(self, w: int, n: int, new_capacity: int) -> bool {
        let a = self.reserve_write(w, n);
        let b = if a.permit(w) == WritePermit::GrowThenWrite {
            a.grow(new_capacity)
        } else {
            a
        };
        &&& self.reserve_write_enabled(w, n)
        &&& a.permit(w) == WritePermit::GrowThenWrite ==> a.grow_enabled(w, new_capacity)
        &&& b.write_enabled(w)
        &&& b.write(w).publish_enabled(w)
    }

    /// A whole reader's run: claim `n` slots, then give the claim back, take
    /// it, or shrink it and take it, as the published prefix decides.
    pub open spec fn read_run(self, r: int, n: int) -> Cursors {
        let a = self.claim(r, n);
        match a.step_of(r) {
            PullStep::Undo => a.give_back(r),
            PullStep::Whole { .. } => a.take(r),
            PullStep::Partial { .. } => a.shrink(r).take(r),
        }
    }

    /// Whether every step of `read_run` is enabled when it is taken.
    pub open spec fn read_run_enabled(self, r: int, n: int) -> bool {
        let a = self.claim(r, n);
        &&& self.claim_enabled(r, n)
        &&& match a.step_of(r) {
            PullStep::Undo => a.give_back_enabled(r),
            PullStep::Whole { .. } => a.take_enabled(r),
            PullStep::Partial { .. } => a.shrink_enabled(r) && a.shrink(r).take_enabled(r),
        }
    }

    /// Nothing is in flight.
    pub open spec fn quiescent(self) -> bool {
        &&& self.writers.dom() =~= Set::empty()
        &&& self.readers.dom() =~= Set::empty()
    }
}

/// A seeded queue satisfies the invariant.
pub proof fn lemma_seeded(len: int, capacity: int, max_capacity: int)
    requires
        0 <= len <= max_capacity,
        0 <= capacity <= max_capacity,
    ensures
        Cursors::seeded(len, capacity, max_capacity).inv(),
{
}

/// A writer's reservation keeps the invariant.
pub proof fn lemma_reserve_write(s: Cursors, w: int, n: int)
    requires
        s.inv(),
        s.reserve_write_enabled(w, n),
    ensures
        s.reserve_write(w, n).inv(),
{
    let t = s.reserve_write(w, n);
    assert forall|i: int| t.written <= i < t.reserved implies #[trigger] t.writer_holds(i) by {
        if i < s.reserved {
            assert(s.writer_holds(i));
            let v = choose|v: int| #[trigger] s.writers.contains_key(v) && within(i, s.writers[v]);
            assert(t.writers.contains_key(v) && within(i, t.writers[v]));
        } else {
            assert(t.writers.contains_key(w) && within(i, t.writers[w]));
        }
    }
    assert forall|i: int| 0 <= i < t.popped implies #[trigger] t.accounted(i) by {
        assert(s.accounted(i));
        if !s.taken.contains(i) {
            let q = choose|q: int| #[trigger] s.readers.contains_key(q) && within(i, s.readers[q]);
            assert(t.readers.contains_key(q) && within(i, t.readers[q]));
        }
    }
}

/// A reader's claim keeps the invariant.
pub proof fn lemma_claim(s: Cursors, r: int, n: int)
    requires
        s.inv(),
        s.claim_enabled(r, n),
    ensures
        s.claim(r, n).inv(),
{
    let t = s.claim(r, n);
    assert forall|i: int| t.written <= i < t.reserved implies #[trigger] t.writer_holds(i) by {
        assert(s.writer_holds(i));
        let v = choose|v: int| #[trigger] s.writers.contains_key(v) && within(i, s.writers[v]);
        assert(t.writers.contains_key(v) && within(i, t.writers[v]));
    }
    assert forall|i: int| 0 <= i < t.popped implies #[trigger] t.accounted(i) by {
        if i < s.popped {
            assert(s.accounted(i));
            if !s.taken.contains(i) {
                let q = choose|q: int| #[trigger] s.readers.contains_key(q) && within(i, s.readers[q]);
                assert(t.readers.contains_key(q) && within(i, t.readers[q]));
            }
        } else {
            assert(t.readers.contains_key(r) && within(i, t.readers[r]));
        }
    }
}

proof fn lemma_writers_frame(s: Cursors, t: Cursors)
    requires
        s.writers == t.writers,
    ensures
        forall|i: int| #[trigger] t.writer_holds(i) == s.writer_holds(i),
{
    assert forall|i: int| #[trigger] t.writer_holds(i) == s.writer_holds(i) by {
        if s.writer_holds(i) {
            let v = choose|v: int| #[trigger] s.writers.contains_key(v) && within(i, s.writers[v]);
            assert(t.writers.contains_key(v) && within(i, t.writers[v]));
        }
        if t.writer_holds(i) {
            let v = choose|v: int| #[trigger] t.writers.contains_key(v) && within(i, t.writers[v]);
            assert(s.writers.contains_key(v) && within(i, s.writers[v]));
        }
    }
}

proof fn lemma_readers_frame(s: Cursors, t: Cursors)
    requires
        s.readers == t.readers,
        s.taken == t.taken,
    ensures
        forall|i: int| #[trigger] t.accounted(i) == s.accounted(i),
{
    assert forall|i: int| #[trigger] t.accounted(i) == s.accounted(i) by {
        if s.reader_holds(i) {
            let q = choose|q: int| #[trigger] s.readers.contains_key(q) && within(i, s.readers[q]);
            assert(t.readers.contains_key(q) && within(i, t.readers[q]));
        }
        if t.reader_holds(i) {
            let q = choose|q: int| #[trigger] t.readers.contains_key(q) && within(i, t.readers[q]);
            assert(s.readers.contains_key(q) && within(i, s.readers[q]));
        }
    }
}

/// A growth by the writer that holds `GrowThenWrite` keeps the invariant,
/// after which that writer holds `JustWrite`.
pub proof fn lemma_grow(s: Cursors, w: int, new_capacity: int)
    requires
        s.inv(),
        s.grow_enabled(w, new_capacity),
    ensures
        s.grow(new_capacity).inv(),
        s.grow(new_capacity).permit(w) == WritePermit::JustWrite,
        s.grow(new_capacity).capacity > s.capacity,
{
    let t = s.grow(new_capacity);
    lemma_writers_frame(s, t);
    lemma_readers_frame(s, t);
}

/// A write by a writer that holds `JustWrite` keeps the invariant.
pub proof fn lemma_write(s: Cursors, w: int)
    requires
        s.inv(),
        s.write_enabled(w),
    ensures
        s.write(w).inv(),
        s.write(w).capacity >= s.writers[w].1,
{
    let t = s.write(w);
    lemma_writers_frame(s, t);
    lemma_readers_frame(s, t);
}

/// Publication keeps the invariant: `written` only ever covers slots whose
/// values are in place.
pub proof fn lemma_publish(s: Cursors, w: int)
    requires
        s.inv(),
        s.publish_enabled(w),
    ensures
        s.publish(w).inv(),
        s.publish(w).written > s.written,
{
    let t = s.publish(w);
    let (b, e) = s.writers[w];
    assert forall|v: int| #[trigger] t.writers.contains_key(v) implies t.written <= t.writers[v].0
        < t.writers[v].1 <= t.reserved by {
        assert(s.writers.contains_key(v) && v != w);
        assert(disjoint(s.writers[w], s.writers[v]));
    }
    assert forall|i: int| t.written <= i < t.reserved implies #[trigger] t.writer_holds(i) by {
        assert(s.writer_holds(i));
        let v = choose|v: int| #[trigger] s.writers.contains_key(v) && within(i, s.writers[v]);
        assert(v != w);
        assert(t.writers.contains_key(v) && within(i, t.writers[v]));
    }
    assert forall|i: int| 0 <= i < t.written implies #[trigger] t.filled.contains(i) by {
        if i >= b {
            assert(within(i, s.writers[w]));
        }
    }
    lemma_readers_frame(s, t);
}

/// Taking a wholly published claim keeps the invariant.
pub proof fn lemma_take(s: Cursors, r: int)
    requires
        s.inv(),
        s.take_enabled(r),
    ensures
        s.take(r).inv(),
{
    let t = s.take(r);
    let (b, e) = s.readers[r];
    assert(e <= s.written);
    lemma_writers_frame(s, t);
    assert forall|i: int, q: int|
        #[trigger] t.taken.contains(i) && #[trigger] t.readers.contains_key(q) implies !within(
        i,
        t.readers[q],
    ) by {
        assert(q != r && s.readers.contains_key(q));
        if within(i, s.readers[r]) {
            assert(disjoint(s.readers[r], s.readers[q]));
        }
    }
    assert forall|i: int| 0 <= i < t.popped implies #[trigger] t.accounted(i) by {
        assert(s.accounted(i));
        if !s.taken.contains(i) {
            let q = choose|q: int| #[trigger] s.readers.contains_key(q) && within(i, s.readers[q]);
            if q == r {
                assert(t.taken.contains(i));
            } else {
                assert(t.readers.contains_key(q) && within(i, t.readers[q]));
            }
        }
    }
}

/// Giving back a claim of which nothing is published keeps the invariant.
pub proof fn lemma_give_back(s: Cursors, r: int)
    requires
        s.inv(),
        s.give_back_enabled(r),
    ensures
        s.give_back(r).inv(),
{
    let t = s.give_back(r);
    let (b, e) = s.readers[r];
    assert(b >= s.written);
    lemma_writers_frame(s, t);
    assert forall|q: int| #[trigger] t.readers.contains_key(q) implies 0 <= t.readers[q].0
        < t.readers[q].1 <= t.popped by {
        assert(q != r && s.readers.contains_key(q));
        assert(disjoint(s.readers[r], s.readers[q]));
    }
    assert forall|i: int| 0 <= i < t.popped implies #[trigger] t.accounted(i) by {
        assert(s.accounted(i));
        if !s.taken.contains(i) {
            let q = choose|q: int| #[trigger] s.readers.contains_key(q) && within(i, s.readers[q]);
            assert(q != r);
            assert(t.readers.contains_key(q) && within(i, t.readers[q]));
        }
    }
}

/// Shrinking a partly published claim to the published prefix keeps the
/// invariant.
pub proof fn lemma_shrink(s: Cursors, r: int)
    requires
        s.inv(),
        s.shrink_enabled(r),
    ensures
        s.shrink(r).inv(),
        s.shrink(r).take_enabled(r),
{
    let t = s.shrink(r);
    let (b, e) = s.readers[r];
    assert(b < s.written < e);
    lemma_writers_frame(s, t);
    assert forall|q: int| #[trigger] t.readers.contains_key(q) && q != r implies t.readers[q].1
        <= b by {
        assert(s.readers.contains_key(q));
        assert(disjoint(s.readers[r], s.readers[q]));
    }
    assert forall|i: int, q: int|
        #[trigger] t.taken.contains(i) && #[trigger] t.readers.contains_key(q) implies !within(
        i,
        t.readers[q],
    ) by {
        assert(s.readers.contains_key(q));
        assert(!within(i, s.readers[q]));
    }
    assert forall|i: int| 0 <= i < t.popped implies #[trigger] t.accounted(i) by {
        assert(s.accounted(i));
        if !s.taken.contains(i) {
            let q = choose|q: int| #[trigger] s.readers.contains_key(q) && within(i, s.readers[q]);
            assert(t.readers.contains_key(q) && within(i, t.readers[q]));
        }
    }
}

/// A reader only ever takes slots that are published, whose values are in
/// place, and that no reader took before: no value is handed out twice and
/// none is read half-written.
pub proof fn law_take_is_fresh_and_published(s: Cursors, r: int)
    requires
        s.inv(),
        s.take_enabled(r),
    ensures
        forall|i: int|
            within(i, s.readers[r]) ==> i < s.written && #[trigger] s.filled.contains(i)
                && !s.taken.contains(i),
{
    assert forall|i: int| within(i, s.readers[r]) implies i < s.written && #[trigger] s.filled.contains(
        i,
    ) && !s.taken.contains(i) by {
        assert(s.readers.contains_key(r));
    }
}

/// Publication is in order: a writer can publish only once every writer
/// that reserved earlier slots has published, so `written` always covers a
/// prefix of completed writes.
pub proof fn law_publication_in_order(s: Cursors, w: int)
    requires
        s.inv(),
        s.writers.contains_key(w),
        s.publish_enabled(w),
    ensures
        forall|v: int|
            #[trigger] s.writers.contains_key(v) && v != w ==> s.writers[w].1 <= s.writers[v].0,
{
    assert forall|v: int| #[trigger] s.writers.contains_key(v) && v != w implies s.writers[w].1
        <= s.writers[v].0 by {
        assert(disjoint(s.writers[w], s.writers[v]));
    }
}

/// At most one writer in flight is elected to grow the store: the one whose
/// reservation holds the capacity boundary.
pub proof fn law_single_grower(s: Cursors, w: int, v: int)
    requires
        s.inv(),
        s.writers.contains_key(w),
        s.writers.contains_key(v),
        w != v,
        s.permit(w) == WritePermit::GrowThenWrite,
    ensures
        s.permit(v) != WritePermit::GrowThenWrite,
{
    assert(disjoint(s.writers[w], s.writers[v]));
}

/// Once nothing is in flight, `popped <= written == write_reserved`, the
/// slots handed out are exactly `0..popped`, each once, and the queue holds
/// the `written - popped` slots `popped..written`.
pub proof fn law_quiescent(s: Cursors)
    requires
        s.inv(),
        s.quiescent(),
    ensures
        s.popped <= s.written == s.reserved,
        s.taken =~= Set::new(|i: int| 0 <= i < s.popped),
{
    if s.written < s.reserved {
        assert(s.writer_holds(s.written));
        let v = choose|v: int| #[trigger] s.writers.contains_key(v) && within(s.written, s.writers[v]);
        assert(s.writers.dom().contains(v));
    }
    assert forall|i: int| 0 <= i < s.popped implies #[trigger] s.taken.contains(i) by {
        assert(s.accounted(i));
        if !s.taken.contains(i) {
            let q = choose|q: int| #[trigger] s.readers.contains_key(q) && within(i, s.readers[q]);
            assert(s.readers.dom().contains(q));
        }
    }
    if s.popped > s.written {
        assert(s.taken.contains(s.written));
    }
}

/// A writer's run of enabled steps keeps the invariant.
pub proof fn lemma_write_run(s: Cursors, w: int, n: int, new_capacity: int)
    requires
        s.inv(),
        s.write_run_enabled(w, n, new_capacity),
    ensures
        s.write_run(w, n, new_capacity).inv(),
{
    let a = s.reserve_write(w, n);
    lemma_reserve_write(s, w, n);
    let b = if a.permit(w) == WritePermit::GrowThenWrite {
        lemma_grow(a, w, new_capacity);
        a.grow(new_capacity)
    } else {
        a
    };
    lemma_write(b, w);
    lemma_publish(b.write(w), w);
}

/// A reader's run of enabled steps keeps the invariant.
pub proof fn lemma_read_run(s: Cursors, r: int, n: int)
    requires
        s.inv(),
        s.read_run_enabled(r, n),
    ensures
        s.read_run(r, n).inv(),
{
    let a = s.claim(r, n);
    lemma_claim(s, r, n);
    match a.step_of(r) {
        PullStep::Undo => lemma_give_back(a, r),
        PullStep::Whole { .. } => lemma_take(a, r),
        PullStep::Partial { .. } => {
            lemma_shrink(a, r);
            lemma_take(a.shrink(r), r);
        },
    }
}

} // verus!
