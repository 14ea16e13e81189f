use std::sync::atomic::{AtomicUsize, Ordering};
use vstd::prelude::*;

verus! {

/// A weak compare-and-exchange of `atom` from `current` to `new`: `Release`
/// on success, `Relaxed` on failure. It may fail spuriously.
pub fn comp_exch_weak(atom: &AtomicUsize, current: usize, new: usize) -> Result<usize, usize> {
    atom.compare_exchange_weak(current, new, Ordering::Release, Ordering::Relaxed)
}

/// A strong compare-and-exchange of `atom` from `current` to `new`: `Release`
/// on success, `Relaxed` on failure.
pub fn comp_exch(atom: &AtomicUsize, current: usize, new: usize) -> Result<usize, usize> {
    atom.compare_exchange(current, new, Ordering::Release, Ordering::Relaxed)
}

} // verus!
