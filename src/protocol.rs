use vstd::prelude::*;

verus! {

/// Why a write could not take place.
#[derive(Debug, Clone, Copy, PartialEq, Eq, Structural)]
pub enum QueueError {
    /// The reservation reaches past the store's maximum capacity, which it can
    /// never grow beyond without moving the slots already handed out.
    OutOfCapacity,
}

/// What a reader that reserved slot `idx` does next.
#[derive(Debug, Clone, Copy, PartialEq, Eq, Structural)]
pub enum PopStep {
    /// The slot is published: move its element out.
    Take,
    /// The slot is not published: return the reservation (`popped` from
    /// `idx + 1` back to `idx`).
    Undo,
}

/// What a reader that reserved the slots `begin..begin + chunk_size` does next.
#[derive(Debug, Clone, Copy, PartialEq, Eq, Structural)]
pub enum PullStep {
    /// Nothing of the range is published: return the whole reservation.
    Undo,
    /// The whole range is published: take `begin..end`.
    Whole { end: usize },
    /// Only `begin..end` is published: shrink the reservation to `end`, then
    /// take `begin..end`.
    Partial { end: usize },
}

/// The decision of a reader holding slot `idx` when `written` slots are
/// published.
pub open spec fn pop_step_spec(idx: int, written: int) -> PopStep {
    if idx < written {
        PopStep::Take
    } else {
        PopStep::Undo
    }
}

/// The decision of a reader holding `begin..begin + chunk_size` when `written`
/// slots are published.
pub open spec fn pull_step_spec(begin: int, chunk_size: int, written: int) -> PullStep {
    if begin >= written {
        PullStep::Undo
    } else if begin + chunk_size <= written {
        PullStep::Whole { end: (begin + chunk_size) as usize }
    } else {
        PullStep::Partial { end: written as usize }
    }
}

/// The end of the range a pull takes, for the steps that take one.
pub open spec fn pull_end(step: PullStep) -> int {
    match step {
        PullStep::Undo => 0,
        PullStep::Whole { end } => end as int,
        PullStep::Partial { end } => end as int,
    }
}

/// Decides a reader's next step for the reserved slot `idx`.
pub fn pop_step(idx: usize, written: usize) -> (r: PopStep)
    ensures
        r == pop_step_spec(idx as int, written as int),
{
    if idx < written {
        PopStep::Take
    } else {
        PopStep::Undo
    }
}

/// Decides a reader's next step for the reserved slots
/// `begin..begin + chunk_size`.
pub fn pull_step(begin: usize, chunk_size: usize, written: usize) -> (r: PullStep)
    requires
        chunk_size > 0,
    ensures
        r == pull_step_spec(begin as int, chunk_size as int, written as int),
        r !is Undo ==> begin < pull_end(r) <= written && pull_end(r) <= begin + chunk_size,
{
    if begin >= written {
        PullStep::Undo
    } else if chunk_size <= written - begin {
        PullStep::Whole { end: begin + chunk_size }
    } else {
        PullStep::Partial { end: written }
    }
}

/// Checks the reservation of `num_items` slots starting at `begin` against
/// `max_capacity`, and returns its end `begin + num_items`.
///
/// Fails exactly when the last reserved index `begin + num_items - 1` is not
/// below `max_capacity`.
pub fn reserve_range(begin: usize, num_items: usize, max_capacity: usize) -> (r: Result<
    usize,
    QueueError,
>)
    requires
        num_items > 0,
    ensures
        r is Err <==> begin + num_items - 1 >= max_capacity,
        r is Err ==> r == Err::<usize, QueueError>(QueueError::OutOfCapacity),
        r is Ok ==> r == Ok::<usize, QueueError>((begin + num_items) as usize),
{
    if begin >= max_capacity || num_items > max_capacity - begin {
        Err(QueueError::OutOfCapacity)
    } else {
        Ok(begin + num_items)
    }
}

} // verus!
