use std::sync::atomic::{AtomicIsize, AtomicUsize, Ordering};
use vstd::prelude::*;

verus! {

/// How many of `chunk_size` requested elements a reader gets when `previous`
/// elements were available: none when `previous <= 0`, all of them when at
/// least `chunk_size` were, else `previous`.
pub open spec fn granted_spec(previous: int, chunk_size: int) -> int {
    if previous <= 0 {
        0
    } else if previous < chunk_size {
        previous
    } else {
        chunk_size
    }
}

/// Decides how many of `chunk_size` requested elements are granted when the
/// length counter stood at `previous`.
pub fn granted(previous: isize, chunk_size: usize) -> (r: usize)
    requires
        chunk_size <= isize::MAX,
    ensures
        r == granted_spec(previous as int, chunk_size as int),
        r <= chunk_size,
{
    if previous <= 0 {
        0
    } else if previous < chunk_size as isize {
        previous as usize
    } else {
        chunk_size
    }
}

/// Counters of a queue whose readers decrement a signed length before they
/// take indices.
///
/// `len` is the number of elements available to readers (it may dip below
/// zero while readers give back what they over-claimed), `pushed` counts the
/// indices handed to writers and `popped` those handed to readers.
pub struct State {
    len: AtomicIsize,
    pushed: AtomicUsize,
    popped: AtomicUsize,
}

impl State {
    /// The counters of a queue seeded with `len` elements.
    pub fn new_for_vec(len: usize) -> Self
        requires
            len <= isize::MAX,
    {
        State {
            len: AtomicIsize::new(len as isize),
            pushed: AtomicUsize::new(len),
            popped: AtomicUsize::new(0),
        }
    }

    /// Claims one element for reading and returns its index, or `None` when
    /// no element was available; in that case the claim on `len` is given
    /// back.
    pub fn pop_idx(&self) -> Option<usize> {
        let previous = self.len.fetch_sub(1, Ordering::Acquire);
        if previous <= 0 {
            // no element to pop: give the claim back
            let _ = self.len.fetch_add(1, Ordering::Acquire);
            None
        } else {
            let idx = self.popped.fetch_add(1, Ordering::Acquire);
            Some(idx)
        }
    }

    /// Claims up to `chunk_size` consecutive elements for reading and returns
    /// the first index and how many were claimed, or `None` when no element
    /// was available. What was claimed beyond the available elements is
    /// given back.
    pub fn pull_idx_and_len(&self, chunk_size: usize) -> (r: Option<(usize, usize)>)
        requires
            chunk_size <= isize::MAX,
        ensures
            r is Some ==> 0 < r->Some_0.1 <= chunk_size,
    {
        let chunk_size_i = chunk_size as isize;
        let previous = self.len.fetch_sub(chunk_size_i, Ordering::Acquire);
        let n = granted(previous, chunk_size);
        if n == 0 {
            // there are no elements: give the whole claim back
            let _ = self.len.fetch_add(chunk_size_i, Ordering::Acquire);
            None
        } else {
            if n < chunk_size {
                // fewer than `chunk_size` elements: give the excess back
                let _ = self.len.fetch_add((chunk_size - n) as isize, Ordering::Acquire);
            }
            let idx = self.popped.fetch_add(n, Ordering::Acquire);
            Some((idx, n))
        }
    }

    /// Reserves `num_items` indices for writing. Returns the handle that
    /// publishes them and the first reserved index.
    pub fn grow_handle(&self, num_items: usize) -> (r: (GrowHandle<'_>, usize))
        requires
            num_items <= isize::MAX,
        ensures
            r.0.num_items() == num_items,
    {
        GrowHandle::create(self, num_items)
    }
}

/// The right to publish a writer's reserved indices; `release` makes them
/// available to readers.
pub struct GrowHandle<'a> {
    state: &'a State,
    num_items: usize,
}

impl<'a> GrowHandle<'a> {
    /// The number of reserved indices this handle publishes.
    pub closed spec fn num_items(&self) -> nat {
        self.num_items as nat
    }

    fn create(state: &'a State, num_items: usize) -> (r: (Self, usize))
        requires
            num_items <= isize::MAX,
        ensures
            r.0.num_items() == num_items,
    {
        let idx = state.pushed.fetch_add(num_items, Ordering::Acquire);
        let handle = GrowHandle { state, num_items };
        (handle, idx)
    }

    /// Publishes the reserved indices: `len` grows by their number.
    pub fn release(self)
        requires
            self.num_items() <= isize::MAX,
    {
        let _ = self.state.len.fetch_add(self.num_items as isize, Ordering::Release);
    }
}

} // verus!
