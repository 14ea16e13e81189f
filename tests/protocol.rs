use orx_concurrent_queue::{
    comp_exch, comp_exch_weak, granted, pop_step, pull_step, reserve_range, PopStep, PullStep,
    QueueError, State, WritePermit,
};
use std::sync::atomic::{AtomicUsize, Ordering};

#[test]
fn queue_abc() {
    let a = AtomicUsize::new(2);
    let mut seen = Vec::new();
    for _ in 0..6 {
        seen.push(a.fetch_sub(1, Ordering::SeqCst));
    }
    // an unsigned counter wraps once it is decremented below zero
    let x = *seen.last().unwrap();
    assert_eq!(x, usize::MAX - 2);
    assert_eq!(seen, vec![2, 1, 0, usize::MAX, usize::MAX - 1, usize::MAX - 2]);

    // the signed length of `State` gives back what readers over-claim
    let s = State::new_for_vec(2);
    let mut pops = Vec::new();
    for _ in 0..6 {
        pops.push(s.pop_idx());
    }
    assert_eq!(pops, vec![Some(0), Some(1), None, None, None, None]);
}

#[test]
fn write_permit_for_one() {
    assert_eq!(WritePermit::for_one(4, 3), WritePermit::JustWrite);
    assert_eq!(WritePermit::for_one(4, 4), WritePermit::GrowThenWrite);
    assert_eq!(WritePermit::for_one(4, 5), WritePermit::Spin);
    assert_eq!(WritePermit::for_one(0, 0), WritePermit::GrowThenWrite);
    assert_eq!(WritePermit::new(4, 2), WritePermit::JustWrite);
    assert_eq!(WritePermit::new(4, 9), WritePermit::Spin);
}

#[test]
fn write_permit_for_many() {
    assert_eq!(WritePermit::for_many(8, 2, 7), WritePermit::JustWrite);
    assert_eq!(WritePermit::for_many(8, 5, 8), WritePermit::GrowThenWrite);
    assert_eq!(WritePermit::for_many(8, 8, 10), WritePermit::GrowThenWrite);
    assert_eq!(WritePermit::for_many(8, 9, 10), WritePermit::Spin);
}

#[test]
fn reader_steps() {
    assert_eq!(pop_step(3, 4), PopStep::Take);
    assert_eq!(pop_step(4, 4), PopStep::Undo);
    assert_eq!(pull_step(4, 3, 4), PullStep::Undo);
    assert_eq!(pull_step(2, 3, 10), PullStep::Whole { end: 5 });
    assert_eq!(pull_step(2, 3, 5), PullStep::Whole { end: 5 });
    assert_eq!(pull_step(2, 7, 5), PullStep::Partial { end: 5 });
}

#[test]
fn reservation_against_max_capacity() {
    assert_eq!(reserve_range(0, 3, 3), Ok(3));
    assert_eq!(reserve_range(1, 3, 3), Err(QueueError::OutOfCapacity));
    assert_eq!(reserve_range(3, 1, 3), Err(QueueError::OutOfCapacity));
    assert_eq!(reserve_range(usize::MAX, 1, usize::MAX), Err(QueueError::OutOfCapacity));
}

#[test]
fn granted_counts() {
    assert_eq!(granted(0, 4), 0);
    assert_eq!(granted(-3, 4), 0);
    assert_eq!(granted(2, 4), 2);
    assert_eq!(granted(9, 4), 4);
}

#[test]
fn state_pull_and_publish() {
    let s = State::new_for_vec(5);
    assert_eq!(s.pull_idx_and_len(3), Some((0, 3)));
    assert_eq!(s.pull_idx_and_len(3), Some((3, 2)));
    assert_eq!(s.pull_idx_and_len(3), None);
    let (handle, idx) = s.grow_handle(4);
    assert_eq!(idx, 5);
    assert_eq!(s.pop_idx(), None);
    handle.release();
    assert_eq!(s.pull_idx_and_len(10), Some((5, 4)));
    assert_eq!(s.pop_idx(), None);
}

#[test]
fn compare_exchange_helpers() {
    let a = AtomicUsize::new(7);
    assert_eq!(comp_exch(&a, 7, 8), Ok(7));
    assert_eq!(comp_exch(&a, 7, 9), Err(8));
    let mut r = comp_exch_weak(&a, 8, 10);
    while r.is_err() {
        r = comp_exch_weak(&a, 8, 10);
    }
    assert_eq!(r, Ok(8));
    assert_eq!(a.load(Ordering::SeqCst), 10);
}

#[test]
fn handed_out_then_left_is_all_put_in() {
    let mut q = orx_concurrent_queue::ConcurrentQueue::from_vec(vec![1, 2]);
    assert_eq!(q.push(3), Ok(()));
    let mut out = Vec::new();
    out.extend(q.pull(2).unwrap());
    assert_eq!(q.extend(vec![4, 5]), Ok(()));
    out.push(q.pop().unwrap());
    let mut all = out.clone();
    all.extend(q.into_inner());
    assert_eq!(out, vec![1, 2, 3]);
    assert_eq!(all, vec![1, 2, 3, 4, 5]);
}
