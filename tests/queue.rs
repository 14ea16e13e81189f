use orx_concurrent_queue::{ConcurrentQueue, QueueError};

fn strings(xs: &[&str]) -> Vec<String> {
    xs.iter().map(|x| x.to_string()).collect()
}

#[test]
fn seeded_pops_in_order_then_none() {
    let mut q = ConcurrentQueue::from_vec(strings(&["1", "2", "3"]));
    assert_eq!(q.pop(), Some("1".to_string()));
    assert_eq!(q.pop(), Some("2".to_string()));
    assert_eq!(q.pop(), Some("3".to_string()));
    assert_eq!(q.pop(), None);
}

#[test]
fn push_pop_extend_pull_into_inner() {
    let mut q = ConcurrentQueue::new();
    assert_eq!(q.push(0), Ok(()));
    assert_eq!(q.push(1), Ok(()));
    assert_eq!(q.pop(), Some(0));
    assert_eq!(q.extend((2..7).collect()), Ok(()));
    assert_eq!(q.pull(4), Some(vec![1, 2, 3, 4]));
    assert_eq!(q.len(), 2);
    assert_eq!(q.into_inner(), vec![5, 6]);
}

#[test]
fn tree_expansion_pop_then_extend() {
    let mut q = ConcurrentQueue::from_vec(strings(&["1", "2", "3"]));
    let mut seen = Vec::new();
    while let Some(x) = q.pop() {
        let n: usize = x.parse().unwrap();
        let children: Vec<String> = (0..n).map(|c| c.to_string()).collect();
        assert_eq!(q.extend(children), Ok(()));
        seen.push(x);
    }
    let expected = strings(&[
        "1", "2", "3", "0", "0", "1", "0", "1", "2", "0", "0", "0", "1", "0",
    ]);
    assert_eq!(seen.len(), 14);
    assert_eq!(seen, expected);
}

#[test]
fn empty_queue_yields_nothing() {
    let mut q: ConcurrentQueue<u32> = ConcurrentQueue::new();
    assert!(q.is_empty());
    assert_eq!(q.len(), 0);
    assert_eq!(q.pop(), None);
    assert_eq!(q.pop_with_idx(), None);
    assert_eq!(q.pull(3), None);
    assert_eq!(q.into_inner(), Vec::<u32>::new());
}

#[test]
fn full_queue_refuses_push_and_extend() {
    let mut q = ConcurrentQueue::with_max_capacity(3);
    assert_eq!(q.push(10), Ok(()));
    assert_eq!(q.extend(vec![11, 12]), Ok(()));
    assert_eq!(q.write_reserved(), 3);
    assert_eq!(q.push(13), Err(QueueError::OutOfCapacity));
    assert_eq!(q.extend(vec![14]), Err(QueueError::OutOfCapacity));
    // an empty extension reserves nothing and cannot fail
    assert_eq!(q.extend(vec![]), Ok(()));
    // popping frees no capacity: indices are never reused
    assert_eq!(q.pop(), Some(10));
    assert_eq!(q.push(15), Err(QueueError::OutOfCapacity));
    assert_eq!(q.write_reserved(), 3);
    assert_eq!(q.into_inner(), vec![11, 12]);
}

#[test]
fn extend_that_straddles_max_capacity_fails_whole() {
    let mut q = ConcurrentQueue::with_max_capacity(4);
    assert_eq!(q.extend(vec![1, 2]), Ok(()));
    assert_eq!(q.extend(vec![3, 4, 5]), Err(QueueError::OutOfCapacity));
    assert_eq!(q.len(), 2);
    assert_eq!(q.extend(vec![3, 4]), Ok(()));
    assert_eq!(q.into_inner(), vec![1, 2, 3, 4]);
}

#[test]
fn pull_larger_than_available_is_partial() {
    let mut q = ConcurrentQueue::new();
    assert_eq!(q.extend((1..6).collect()), Ok(()));
    assert_eq!(q.pull(2), Some(vec![1, 2]));
    assert_eq!(q.pull(7), Some(vec![3, 4, 5]));
    assert_eq!(q.pull(1), None);
    assert!(q.is_empty());
}

#[test]
fn pull_zero_is_none() {
    let mut q = ConcurrentQueue::from_vec(vec![1, 2, 3]);
    assert_eq!(q.pull(0), None);
    assert_eq!(q.len(), 3);
    assert_eq!(q.into_inner(), vec![1, 2, 3]);
}

#[test]
fn seed_round_trip() {
    let q = ConcurrentQueue::from_vec(strings(&["a", "b", "c"]));
    assert_eq!(q.into_inner(), strings(&["a", "b", "c"]));
}

#[test]
fn pop_with_idx_counts_claimed_slots() {
    let mut q = ConcurrentQueue::from_vec(vec!['x', 'y']);
    assert_eq!(q.pop_with_idx(), Some((0, 'x')));
    assert_eq!(q.push('z'), Ok(()));
    assert_eq!(q.pop_with_idx(), Some((1, 'y')));
    assert_eq!(q.pop_with_idx(), Some((2, 'z')));
    assert_eq!(q.pop_with_idx(), None);
    assert_eq!(q.push('w'), Ok(()));
    assert_eq!(q.pop_with_idx(), Some((3, 'w')));
}

#[test]
fn len_is_written_minus_popped() {
    let mut q = ConcurrentQueue::new();
    assert_eq!(q.push(1), Ok(()));
    assert_eq!(q.push(2), Ok(()));
    assert_eq!(q.len(), 2);
    assert_eq!(q.extend(vec![3, 4, 5, 6]), Ok(()));
    assert_eq!(q.len(), 6);
    let _ = q.pop();
    assert_eq!(q.len(), 5);
    let _ = q.pull(4);
    assert_eq!(q.len(), 1);
    assert_eq!(q.write_reserved(), 6);
}

#[test]
fn store_grows_but_keeps_elements() {
    let mut q = ConcurrentQueue::new();
    assert_eq!(q.capacity(), 0);
    for i in 0..100u64 {
        assert_eq!(q.push(i), Ok(()));
    }
    // fragments of 4, 8, 16, 32 and 64 slots
    assert_eq!(q.capacity(), 124);
    assert_eq!(q.max_capacity(), usize::MAX);
    assert_eq!(q.pull(50), Some((0..50).collect::<Vec<u64>>()));
    assert_eq!(q.into_inner(), (50..100).collect::<Vec<u64>>());
}

#[test]
fn default_is_empty() {
    let q: ConcurrentQueue<i32> = ConcurrentQueue::default();
    assert!(q.is_empty());
    assert_eq!(q.max_capacity(), usize::MAX);
}

#[test]
fn iter_borrows_live_elements_in_order() {
    let mut q = ConcurrentQueue::new();
    assert_eq!(q.push(1), Ok(()));
    assert_eq!(q.push(2), Ok(()));
    assert_eq!(q.push(3), Ok(()));
    assert_eq!(q.pop(), Some(1));
    let refs = q.iter();
    assert_eq!(refs, vec![&2, &3]);
    let sum: i32 = q.iter().into_iter().sum();
    assert_eq!(sum, 5);
}

#[test]
fn store_grows_by_doubling_fragments() {
    let mut q = ConcurrentQueue::new();
    assert_eq!(q.push('a'), Ok(()));
    assert_eq!(q.capacity(), 4);
    assert_eq!(q.extend(vec!['b', 'c', 'd']), Ok(()));
    assert_eq!(q.capacity(), 4);
    assert_eq!(q.push('e'), Ok(()));
    assert_eq!(q.capacity(), 12);
    assert_eq!(q.extend(vec!['x'; 20]), Ok(()));
    assert_eq!(q.capacity(), 28);
    assert_eq!(q.len(), 25);
}

#[test]
fn bounded_store_stops_at_max_capacity() {
    let mut q = ConcurrentQueue::with_max_capacity(6);
    assert_eq!(q.push(1), Ok(()));
    assert_eq!(q.capacity(), 4);
    assert_eq!(q.extend(vec![2, 3, 4, 5]), Ok(()));
    assert_eq!(q.capacity(), 6);
    assert_eq!(q.push(6), Ok(()));
    assert_eq!(q.push(7), Err(QueueError::OutOfCapacity));
    assert_eq!(q.capacity(), 6);
}
