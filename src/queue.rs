use crate::interleaving::Cursors;
use crate::protocol::{
    pop_step, pull_step, reserve_range, PopStep, PullStep, QueueError,
};
use crate::trace::{step, QueueOp};
use crate::write_permit::{permit_for_many, WritePermit};
use orx_split_vec::{Doubling, GrowthWithConstantTimeAccess};
use vstd::arithmetic::power2::pow2;
use vstd::prelude::*;

verus! {

/// The number of fragments whose doubling capacity is looked up; past them
/// the store grows by exactly what a reservation needs.
pub const DOUBLING_FRAGMENTS: usize = 29;

/// Relies on `GrowthWithConstantTimeAccess::fragment_capacity_of` of
/// orx_split_vec's `Doubling` growth: its fragment `f` holds `2^(f + 2)`
/// slots (its table has at least 29 entries on every target).
#[verifier::external_body]
fn doubling_fragment_capacity(f: usize) -> (r: usize)
    requires
        f < DOUBLING_FRAGMENTS,
    ensures
        r == pow2((f + 2) as nat),
{
    Doubling.fragment_capacity_of(f)
}

/// A FIFO queue over a growable store of slots, run by three cursors.
///
/// * `write_reserved` counts the slots claimed for writing,
/// * `written` counts the slots published to readers (a prefix of the claims),
/// * `popped` counts the slots claimed for reading.
///
/// The live elements are those of the slots `popped..written`, front first.
/// A writer first reserves its slots, grows the store when its reservation
/// reaches the capacity boundary, writes, and then publishes by moving
/// `written`. A reader reserves by moving `popped` and either takes the
/// published elements or returns its reservation.
///
/// The store grows as orx_split_vec's doubling split vector does: by
/// fragments of 4, 8, 16, ... slots, never past the maximum capacity.
///
/// Every operation here holds the queue exclusively, so between two of them
/// no reservation is in flight: `written == write_reserved`.
pub struct ConcurrentQueue<T> {
    slots: Vec<Option<T>>,
    fragments: usize,
    max_capacity: usize,
    written: usize,
    write_reserved: usize,
    popped: usize,
}

impl<T> View for ConcurrentQueue<T> {
    type V = Seq<T>;

    /// The live elements, front first.
    closed spec fn view(&self) -> Seq<T> {
        Seq::new(
            (self.written - self.popped) as nat,
            |i: int| self.slots@[self.popped + i]->Some_0,
        )
    }
}

impl<T> ConcurrentQueue<T> {
    /// The number of slots claimed for reading so far.
    pub closed spec fn popped_count(&self) -> nat {
        self.popped as nat
    }

    /// The number of slots published so far.
    pub closed spec fn written_count(&self) -> nat {
        self.written as nat
    }

    /// The number of slots claimed for writing so far.
    pub closed spec fn reserved_count(&self) -> nat {
        self.write_reserved as nat
    }

    /// The number of slots the store can currently address.
    pub closed spec fn capacity_spec(&self) -> nat {
        self.slots@.len()
    }

    /// The capacity the store can never grow past.
    pub closed spec fn max_capacity_spec(&self) -> nat {
        self.max_capacity as nat
    }

    /// The cursor invariant: `popped <= written == write_reserved <= capacity
    /// <= max_capacity`, and every slot of `popped..written` holds an element.
    pub closed spec fn wf(&self) -> bool {
        &&& self.popped <= self.written
        &&& self.written == self.write_reserved
        &&& self.written <= self.slots@.len()
        &&& self.slots@.len() <= self.max_capacity
        &&& forall|i: int| self.popped <= i < self.written ==> (#[trigger] self.slots@[i]) is Some
    }

    /// The cursors as the interleaving model sees them. Between two
    /// operations nothing is in flight; the slots below `written` were
    /// filled and those below `popped` handed out.
    pub closed spec fn cursors(&self) -> Cursors {
        Cursors {
            written: self.written as int,
            reserved: self.write_reserved as int,
            popped: self.popped as int,
            capacity: self.slots@.len() as int,
            max_capacity: self.max_capacity as int,
            writers: Map::empty(),
            wrote: Set::empty(),
            readers: Map::empty(),
            filled: Set::new(|i: int| 0 <= i < self.written),
            taken: Set::new(|i: int| 0 <= i < self.popped),
        }
    }

    /// Between two operations the cursors keep the interleaving invariant
    /// with nothing in flight.
    pub proof fn lemma_cursors(&self)
        requires
            self.wf(),
        ensures
            self.cursors().inv(),
            self.cursors().quiescent(),
            self.cursors().written == self.written_count(),
            self.cursors().reserved == self.reserved_count(),
            self.cursors().popped == self.popped_count(),
    {
        let c = self.cursors();
        assert forall|i: int| c.written <= i < c.reserved implies #[trigger] c.writer_holds(i) by {}
        assert forall|i: int| 0 <= i < c.popped implies #[trigger] c.accounted(i) by {
            assert(c.taken.contains(i));
        }
    }

    /// A writer's operation that published `n` slots is one writer's run of
    /// enabled steps in the interleaving model.
    proof fn lemma_writer_run(q0: &Self, q1: &Self, n: int)
        requires
            q0.wf(),
            q1.wf(),
            n > 0,
            q1.written == q0.written + n,
            q1.popped == q0.popped,
            q1.max_capacity == q0.max_capacity,
            q0.written + n - 1 < q0.max_capacity,
            q1.slots@.len() >= q0.written + n,
            permit_for_many(q0.slots@.len() as int, q0.written as int, q0.written + n - 1)
                != WritePermit::GrowThenWrite ==> q1.slots@.len() == q0.slots@.len(),
        ensures
            q0.cursors().write_run_enabled(0, n, q1.slots@.len() as int),
            q1.cursors() == q0.cursors().write_run(0, n, q1.slots@.len() as int),
    {
        let s = q0.cursors();
        let t = q1.cursors();
        let a = s.reserve_write(0, n);
        let b = if a.permit(0) == WritePermit::GrowThenWrite {
            a.grow(q1.slots@.len() as int)
        } else {
            a
        };
        let u = b.write(0).publish(0);
        assert(u.writers =~= t.writers);
        assert(u.wrote =~= t.wrote);
        assert(u.filled =~= t.filled);
        assert(u.taken =~= t.taken);
        assert(u.readers =~= t.readers);
    }

    /// A reader's operation with `n` requested slots is one reader's run of
    /// enabled steps in the interleaving model.
    proof fn lemma_reader_run(q0: &Self, q1: &Self, n: int)
        requires
            q0.wf(),
            q1.wf(),
            n > 0,
            q1.written == q0.written,
            q1.write_reserved == q0.write_reserved,
            q1.max_capacity == q0.max_capacity,
            q1.slots@.len() == q0.slots@.len(),
            q1.popped == q0.popped + if n < q0.written - q0.popped {
                n
            } else {
                q0.written - q0.popped
            },
        ensures
            q0.cursors().read_run_enabled(0, n),
            q1.cursors() == q0.cursors().read_run(0, n),
    {
        let s = q0.cursors();
        let t = q1.cursors();
        let a = s.claim(0, n);
        let u = s.read_run(0, n);
        match a.step_of(0) {
            PullStep::Undo => {},
            PullStep::Whole { .. } => {},
            PullStep::Partial { .. } => {
                assert(a.shrink(0).readers[0] == (q0.popped as int, q0.written as int));
            },
        }
        assert(u.readers =~= t.readers);
        assert(u.taken =~= t.taken);
    }

    /// The live elements are exactly `written - popped` many.
    pub proof fn lemma_len(&self)
        requires
            self.wf(),
        ensures
            self@.len() == self.written_count() - self.popped_count(),
            self.popped_count() <= self.written_count(),
            self.written_count() == self.reserved_count(),
            self.reserved_count() <= self.capacity_spec() <= self.max_capacity_spec(),
    {
    }

    /// Creates an empty queue whose store may grow up to `max_capacity` slots.
    pub fn with_max_capacity(max_capacity: usize) -> (q: Self)
        ensures
            q.wf(),
            q@ == Seq::<T>::empty(),
            q.popped_count() == 0,
            q.reserved_count() == 0,
            q.max_capacity_spec() == max_capacity,
    {
        let q = ConcurrentQueue {
            slots: Vec::new(),
            fragments: 0,
            max_capacity,
            written: 0,
            write_reserved: 0,
            popped: 0,
        };
        assert(q@ =~= Seq::<T>::empty());
        q
    }

    /// Creates an empty queue whose store may grow up to `usize::MAX` slots.
    pub fn new() -> (q: Self)
        ensures
            q.wf(),
            q@ == Seq::<T>::empty(),
            q.popped_count() == 0,
            q.reserved_count() == 0,
            q.max_capacity_spec() == usize::MAX,
    {
        Self::with_max_capacity(usize::MAX)
    }

    /// Creates a queue seeded with `values`, front first: `written` and
    /// `write_reserved` start at their number, `popped` at zero.
    pub fn from_vec(values: Vec<T>) -> (q: Self)
        ensures
            q.wf(),
            q@ == values@,
            q.popped_count() == 0,
            q.written_count() == values@.len(),
            q.max_capacity_spec() == usize::MAX,
    {
        let n = values.len();
        let mut values = values;
        let ghost given = values@;
        // the slots are filled from the back, so the values are taken with `pop`
        let mut slots: Vec<Option<T>> = Vec::new();
        let mut k: usize = 0;
        while k < n
            invariant
                0 <= k <= n,
                n == given.len(),
                values@ == given.subrange(0, (n - k) as int),
                slots@.len() == k,
                forall|j: int|
                    0 <= j < k ==> #[trigger] slots@[j] == Some(given[n - 1 - j]),
            decreases n - k,
        {
            let v = values.pop().unwrap();
            slots.push(Some(v));
            k = k + 1;
        }
        // reverse the slots into front-first order
        let mut ordered: Vec<Option<T>> = Vec::new();
        let mut m: usize = 0;
        while m < n
            invariant
                0 <= m <= n,
                n == given.len(),
                slots@.len() == n - m,
                forall|j: int|
                    0 <= j < n - m ==> #[trigger] slots@[j] == Some(given[n - 1 - j]),
                ordered@.len() == m,
                forall|j: int| 0 <= j < m ==> #[trigger] ordered@[j] == Some(given[j]),
            decreases n - m,
        {
            let s = slots.pop().unwrap();
            ordered.push(s);
            m = m + 1;
        }
        let q = ConcurrentQueue {
            slots: ordered,
            fragments: 0,
            max_capacity: usize::MAX,
            written: n,
            write_reserved: n,
            popped: 0,
        };
        assert(q@ =~= given);
        q
    }

    /// The number of elements in the queue: `written - popped`.
    pub fn len(&self) -> (r: usize)
        requires
            self.wf(),
        ensures
            r == self@.len(),
    {
        self.written - self.popped
    }

    /// Whether the queue holds no element: `written == popped`.
    pub fn is_empty(&self) -> (r: bool)
        requires
            self.wf(),
        ensures
            r == (self@.len() == 0),
    {
        self.written == self.popped
    }

    /// The number of slots claimed for writing so far.
    pub fn write_reserved(&self) -> (r: usize)
        ensures
            r == self.reserved_count(),
    {
        self.write_reserved
    }

    /// The number of slots the store can currently address.
    pub fn capacity(&self) -> (r: usize)
        ensures
            r == self.capacity_spec(),
    {
        self.slots.len()
    }

    /// The capacity the store can never grow past.
    pub fn max_capacity(&self) -> (r: usize)
        ensures
            r == self.max_capacity_spec(),
    {
        self.max_capacity
    }

    /// Grows the store so that it addresses at least `new_capacity` slots,
    /// leaving every existing slot where it is: fragment after fragment of
    /// doubling capacity, the last one cut at the maximum capacity.
    fn grow_to(&mut self, new_capacity: usize)
        requires
            new_capacity <= old(self).max_capacity,
            old(self).slots@.len() <= old(self).max_capacity,
        ensures
            final(self).slots@.len() >= new_capacity,
            final(self).slots@.len() >= old(self).slots@.len(),
            final(self).slots@.len() <= final(self).max_capacity,
            forall|i: int|
                0 <= i < old(self).slots@.len() ==> #[trigger] final(self).slots@[i]
                    == old(self).slots@[i],
            forall|i: int|
                old(self).slots@.len() <= i < final(self).slots@.len() ==> #[trigger] final(self).slots@[i] is None,
            final(self).max_capacity == old(self).max_capacity,
            final(self).written == old(self).written,
            final(self).write_reserved == old(self).write_reserved,
            final(self).popped == old(self).popped,
    {
        while self.slots.len() < new_capacity
            invariant
                self.slots@.len() <= self.max_capacity,
                self.slots@.len() >= old(self).slots@.len(),
                new_capacity <= self.max_capacity,
                forall|i: int|
                    0 <= i < old(self).slots@.len() ==> #[trigger] self.slots@[i]
                        == old(self).slots@[i],
                forall|i: int|
                    old(self).slots@.len() <= i < self.slots@.len() ==> #[trigger] self.slots@[i]
                        is None,
                self.max_capacity == old(self).max_capacity,
                self.written == old(self).written,
                self.write_reserved == old(self).write_reserved,
                self.popped == old(self).popped,
            decreases self.max_capacity - self.slots@.len(),
        {
            let len = self.slots.len();
            let fragment = if self.fragments < DOUBLING_FRAGMENTS {
                let c = doubling_fragment_capacity(self.fragments);
                proof {
                    vstd::arithmetic::power2::lemma_pow2_pos((self.fragments + 2) as nat);
                }
                c
            } else {
                new_capacity - len
            };
            let target = if fragment <= self.max_capacity - len {
                len + fragment
            } else {
                self.max_capacity
            };
            while self.slots.len() < target
                invariant
                    len < target <= self.max_capacity,
                    len <= self.slots@.len() <= target,
                    self.slots@.len() >= old(self).slots@.len(),
                    old(self).slots@.len() <= len,
                    forall|i: int|
                        0 <= i < old(self).slots@.len() ==> #[trigger] self.slots@[i]
                            == old(self).slots@[i],
                    forall|i: int|
                        old(self).slots@.len() <= i < self.slots@.len() ==> #[trigger] self.slots@[i]
                            is None,
                    self.max_capacity == old(self).max_capacity,
                    self.written == old(self).written,
                    self.write_reserved == old(self).write_reserved,
                    self.popped == old(self).popped,
                decreases target - self.slots@.len(),
            {
                self.slots.push(None);
            }
            if self.fragments < DOUBLING_FRAGMENTS {
                self.fragments = self.fragments + 1;
            }
        }
    }

    /// Moves the element out of slot `idx`, leaving the slot empty.
    fn take_slot(&mut self, idx: usize) -> (v: T)
        requires
            idx < old(self).slots@.len(),
            old(self).slots@[idx as int] is Some,
        ensures
            v == old(self).slots@[idx as int]->Some_0,
            final(self).slots@ == old(self).slots@.update(idx as int, None),
            final(self).max_capacity == old(self).max_capacity,
            final(self).written == old(self).written,
            final(self).write_reserved == old(self).write_reserved,
            final(self).popped == old(self).popped,
    {
        self.slots.push(None);
        let taken = self.slots.swap_remove(idx);
        proof {
            assert(self.slots@ =~= old(self).slots@.update(idx as int, None));
        }
        taken.unwrap()
    }

    /// Pushes `value` to the back of the queue.
    ///
    /// The writer reserves the slot `write_reserved`; when that index is not
    /// below the maximum capacity the reservation is returned and the call
    /// fails with `OutOfCapacity`, leaving the queue as it was. Otherwise the
    /// store grows if the index sits on the capacity boundary, the value is
    /// written, and the slot is published.
    pub fn push(&mut self, value: T) -> (r: Result<(), QueueError>)
        requires
            old(self).wf(),
        ensures
            final(self).wf(),
            final(self).max_capacity_spec() == old(self).max_capacity_spec(),
            final(self).popped_count() == old(self).popped_count(),
            r is Err <==> old(self).reserved_count() >= old(self).max_capacity_spec(),
            r is Err ==> r == Err::<(), QueueError>(QueueError::OutOfCapacity) && final(self)@
                == old(self)@ && final(self).reserved_count() == old(self).reserved_count(),
            r is Ok ==> final(self)@ == old(self)@.push(value) && final(self).reserved_count()
                == old(self).reserved_count() + 1,
            r is Ok ==> final(self)@ == step(old(self)@, QueueOp::Push(value)).1,
            r is Ok ==> old(self).cursors().write_run_enabled(0, 1, final(self).capacity_spec() as int)
                && final(self).cursors() == old(self).cursors().write_run(
                0,
                1,
                final(self).capacity_spec() as int,
            ),
    {
        let idx = self.write_reserved;
        let end = match reserve_range(idx, 1, self.max_capacity) {
            Err(e) => {
                return Err(e);
            },
            Ok(end) => end,
        };
        self.write_reserved = end;
        let permit = WritePermit::for_one(self.slots.len(), idx);
        match permit {
            WritePermit::GrowThenWrite => {
                self.grow_to(idx + 1);
            },
            _ => {
                // a lone writer's index never lies past the boundary
                assert(permit == WritePermit::JustWrite);
            },
        }
        self.slots.set(idx, Some(value));
        self.written = idx + 1;
        proof {
            assert(self@ =~= old(self)@.push(value));
            Self::lemma_writer_run(old(self), self, 1);
        }
        Ok(())
    }

    /// Pushes all of `values` to the back of the queue, front first, as one
    /// reservation of `values.len()` slots that is published at once.
    ///
    /// No slot is reserved for an empty `values`. When the last index of the
    /// reservation is not below the maximum capacity the call fails with
    /// `OutOfCapacity` and the queue is left as it was.
    pub fn extend(&mut self, values: Vec<T>) -> (r: Result<(), QueueError>)
        requires
            old(self).wf(),
        ensures
            final(self).wf(),
            final(self).max_capacity_spec() == old(self).max_capacity_spec(),
            final(self).popped_count() == old(self).popped_count(),
            r is Err <==> values@.len() > 0 && old(self).reserved_count() + values@.len()
                > old(self).max_capacity_spec(),
            r is Err ==> r == Err::<(), QueueError>(QueueError::OutOfCapacity) && final(self)@
                == old(self)@ && final(self).reserved_count() == old(self).reserved_count(),
            r is Ok ==> final(self)@ == old(self)@ + values@ && final(self).reserved_count()
                == old(self).reserved_count() + values@.len(),
            r is Ok ==> final(self)@ == step(old(self)@, QueueOp::Extend(values@)).1,
            r is Ok && values@.len() > 0 ==> old(self).cursors().write_run_enabled(
                0,
                values@.len() as int,
                final(self).capacity_spec() as int,
            ) && final(self).cursors() == old(self).cursors().write_run(
                0,
                values@.len() as int,
                final(self).capacity_spec() as int,
            ),
    {
        let n = values.len();
        if n == 0 {
            assert(self@ =~= old(self)@ + values@);
            return Ok(());
        }
        let begin = self.write_reserved;
        let range = reserve_range(begin, n, self.max_capacity);
        let end = match range {
            Err(e) => {
                return Err(e);
            },
            Ok(end) => end,
        };
        let last = end - 1;
        self.write_reserved = end;
        let permit = WritePermit::for_many(self.slots.len(), begin, last);
        match permit {
            WritePermit::GrowThenWrite => {
                self.grow_to(end);
            },
            _ => {
                // a lone writer's range never starts past the boundary
                assert(permit == WritePermit::JustWrite);
            },
        }
        // the values are moved out from the back; each lands on its own slot
        let mut values = values;
        let ghost given = values@;
        let ghost before = self.slots@;
        let mut k: usize = n;
        while k > 0
            invariant
                0 <= k <= n,
                n == given.len(),
                end == begin + n,
                end <= self.slots@.len(),
                self.slots@.len() == before.len(),
                values@ == given.subrange(0, k as int),
                forall|i: int|
                    0 <= i < begin + k ==> #[trigger] self.slots@[i] == before[i],
                forall|i: int|
                    begin + k <= i < end ==> #[trigger] self.slots@[i] == Some(
                        given[i - begin],
                    ),
                self.max_capacity == old(self).max_capacity,
                self.popped == old(self).popped,
                self.written == old(self).written,
                self.write_reserved == end,
            decreases k,
        {
            let v = values.pop().unwrap();
            k = k - 1;
            self.slots.set(begin + k, Some(v));
        }
        self.written = end;
        proof {
            assert(self@ =~= old(self)@ + given);
            Self::lemma_writer_run(old(self), self, n as int);
        }
        Ok(())
    }

    /// Pops the element at the front of the queue, or returns `None` when the
    /// queue is empty.
    ///
    /// The reader reserves the slot `popped`; if it is published the element
    /// is moved out, else the reservation is returned.
    pub fn pop(&mut self) -> (r: Option<T>)
        requires
            old(self).wf(),
        ensures
            final(self).wf(),
            final(self).max_capacity_spec() == old(self).max_capacity_spec(),
            final(self).reserved_count() == old(self).reserved_count(),
            old(self)@.len() == 0 ==> r is None && final(self)@ == old(self)@
                && final(self).popped_count() == old(self).popped_count(),
            old(self)@.len() > 0 ==> r == Some(old(self)@[0]) && final(self)@ == old(
                self)@.drop_first() && final(self).popped_count() == old(self).popped_count() + 1,
            final(self)@ == step(old(self)@, QueueOp::Pop).1,
            r is None ==> step(old(self)@, QueueOp::Pop).0 == Seq::<T>::empty(),
            r is Some ==> step(old(self)@, QueueOp::Pop).0 == seq![r->Some_0],
            old(self).cursors().read_run_enabled(0, 1) && final(self).cursors() == old(
                self).cursors().read_run(0, 1),
    {
        match self.pop_with_idx() {
            Some((_idx, v)) => Some(v),
            None => None,
        }
    }

    /// As `pop`, also returning the index of the popped slot, which is the
    /// number of slots claimed for reading before the call.
    pub fn pop_with_idx(&mut self) -> (r: Option<(usize, T)>)
        requires
            old(self).wf(),
        ensures
            final(self).wf(),
            final(self).max_capacity_spec() == old(self).max_capacity_spec(),
            final(self).reserved_count() == old(self).reserved_count(),
            old(self)@.len() == 0 ==> r is None && final(self)@ == old(self)@
                && final(self).popped_count() == old(self).popped_count(),
            old(self)@.len() > 0 ==> r == Some((old(self).popped_count() as usize, old(self)@[0]))
                && final(self)@ == old(self)@.drop_first() && final(self).popped_count()
                == old(self).popped_count() + 1,
            old(self).cursors().read_run_enabled(0, 1) && final(self).cursors() == old(
                self).cursors().read_run(0, 1),
    {
        let idx = self.popped;
        match pop_step(idx, self.written) {
            PopStep::Take => {
                // the reservation of slot `idx`
                self.popped = idx + 1;
                let v = self.take_slot(idx);
                proof {
                    assert(self@ =~= old(self)@.drop_first());
                    Self::lemma_reader_run(old(self), self, 1);
                }
                Some((idx, v))
            },
            PopStep::Undo => {
                // the reservation would be returned at once: the cursors stay
                proof {
                    assert(self@ =~= old(self)@);
                    Self::lemma_reader_run(old(self), self, 1);
                }
                None
            },
        }
    }

    /// Pulls up to `chunk_size` consecutive elements from the front of the
    /// queue.
    ///
    /// Returns `None` when `chunk_size` is zero or the queue is empty;
    /// otherwise the first `min(chunk_size, len)` elements, front first.
    pub fn pull(&mut self, chunk_size: usize) -> (r: Option<Vec<T>>)
        requires
            old(self).wf(),
        ensures
            final(self).wf(),
            final(self).max_capacity_spec() == old(self).max_capacity_spec(),
            final(self).reserved_count() == old(self).reserved_count(),
            (chunk_size == 0 || old(self)@.len() == 0) ==> r is None && final(self)@ == old(self)@ && final(self).popped_count() == old(self).popped_count(),
            (chunk_size > 0 && old(self)@.len() > 0) ==> ({
                let k = if chunk_size < old(self)@.len() {
                    chunk_size as int
                } else {
                    old(self)@.len() as int
                };
                &&& r is Some
                &&& r->Some_0@ == old(self)@.take(k)
                &&& final(self)@ == old(self)@.skip(k)
                &&& final(self).popped_count() == old(self).popped_count() + k
            }),
            final(self)@ == step(old(self)@, QueueOp::Pull(chunk_size as nat)).1,
            r is None ==> step(old(self)@, QueueOp::Pull(chunk_size as nat)).0 == Seq::<T>::empty(),
            r is Some ==> step(old(self)@, QueueOp::Pull(chunk_size as nat)).0 == r->Some_0@,
            chunk_size == 0 ==> final(self).cursors() == old(self).cursors(),
            chunk_size > 0 ==> old(self).cursors().read_run_enabled(0, chunk_size as int)
                && final(self).cursors() == old(self).cursors().read_run(0, chunk_size as int),
    {
        if chunk_size == 0 {
            return None;
        }
        let begin = self.popped;
        let written = self.written;
        let step = pull_step(begin, chunk_size, written);
        match step {
            PullStep::Undo => {
                proof {
                    assert(self@ =~= old(self)@);
                    Self::lemma_reader_run(old(self), self, chunk_size as int);
                }
                None
            },
            PullStep::Whole { end } => {
                let chunk = self.take_range(end);
                proof {
                    Self::lemma_reader_run(old(self), self, chunk_size as int);
                }
                Some(chunk)
            },
            PullStep::Partial { end } => {
                let chunk = self.take_range(end);
                proof {
                    Self::lemma_reader_run(old(self), self, chunk_size as int);
                }
                Some(chunk)
            },
        }
    }

    /// Claims the published slots `popped..end` for reading and moves their
    /// elements out, front first.
    fn take_range(&mut self, end: usize) -> (chunk: Vec<T>)
        requires
            old(self).wf(),
            old(self).popped < end <= old(self).written,
        ensures
            final(self).wf(),
            chunk@ == old(self)@.take(end - old(self).popped),
            final(self)@ == old(self)@.skip(end - old(self).popped),
            final(self).popped == end,
            final(self).written == old(self).written,
            final(self).write_reserved == old(self).write_reserved,
            final(self).max_capacity == old(self).max_capacity,
            final(self).slots@.len() == old(self).slots@.len(),
    {
        let begin = self.popped;
        self.popped = end;
        let ghost before = self.slots@;
        let mut chunk: Vec<T> = Vec::new();
        let mut i: usize = begin;
        while i < end
            invariant
                begin <= i <= end,
                end <= self.written,
                self.written == old(self).written,
                self.write_reserved == old(self).write_reserved,
                self.max_capacity == old(self).max_capacity,
                self.popped == end,
                old(self).popped == begin,
                old(self).wf(),
                before == old(self).slots@,
                self.slots@.len() == before.len(),
                forall|j: int| i <= j < before.len() ==> #[trigger] self.slots@[j] == before[j],
                chunk@.len() == i - begin,
                forall|j: int|
                    0 <= j < i - begin ==> #[trigger] chunk@[j] == before[begin + j]->Some_0,
            decreases end - i,
        {
            let v = self.take_slot(i);
            chunk.push(v);
            i = i + 1;
        }
        proof {
            let k = end - begin;
            assert(chunk@ =~= old(self)@.take(k as int));
            assert(self@ =~= old(self)@.skip(k as int));
        }
        chunk
    }

    /// References to the live elements, front first. Every operation that
    /// changes the queue takes it exclusively, so none can run while the
    /// references live.
    pub fn iter(&self) -> (r: Vec<&T>)
        requires
            self.wf(),
        ensures
            r@.len() == self@.len(),
            forall|i: int| 0 <= i < r@.len() ==> *#[trigger] r@[i] == self@[i],
    {
        let this: &Self = self;
        let mut out: Vec<&T> = Vec::new();
        let mut i: usize = this.popped;
        while i < this.written
            invariant
                this.wf(),
                this.popped <= i <= this.written,
                out@.len() == i - this.popped,
                forall|j: int| 0 <= j < out@.len() ==> *#[trigger] out@[j] == this@[j],
            decreases this.written - i,
        {
            let v = this.slots[i].as_ref().unwrap();
            out.push(v);
            i = i + 1;
        }
        out
    }

    /// Consumes the queue and returns its live elements, front first.
    pub fn into_inner(self) -> (r: Vec<T>)
        requires
            self.wf(),
        ensures
            r@ == self@,
    {
        let mut q = self;
        let a = q.popped;
        let b = q.written;
        let mut out: Vec<T> = Vec::new();
        let mut i: usize = a;
        while i < b
            invariant
                a <= i <= b,
                a == self.popped,
                b == self.written,
                self.wf(),
                q.slots@.len() == self.slots@.len(),
                forall|j: int| i <= j < q.slots@.len() ==> #[trigger] q.slots@[j] == self.slots@[j],
                out@.len() == i - a,
                forall|j: int| 0 <= j < i - a ==> #[trigger] out@[j] == self@[j],
            decreases b - i,
        {
            let v = q.take_slot(i);
            out.push(v);
            i = i + 1;
        }
        assert(out@ =~= self@);
        out
    }
}

impl<T> Default for ConcurrentQueue<T> {
    fn default() -> (q: Self)
        ensures
            q.wf(),
            q@ == Seq::<T>::empty(),
            q.max_capacity_spec() == usize::MAX,
    {
        Self::new()
    }
}

} // verus!
