//! The standard deviation as two threads share it: the host's control
//! surface writes it at any time, the audio callback reads it on every
//! note. It is one atomic scalar, so neither side ever waits for the
//! other.

use vstd::prelude::*;
use core::sync::atomic::{AtomicU64, Ordering};
use crate::variance::{VarianceParameter, DEFAULT_VARIANCE, VARIANCE_FLOOR};

verus! {

/// A standard deviation in nanoseconds that can be read and written
/// through a shared reference.
pub struct SharedVariance {
    cell: AtomicU64,
}

impl SharedVariance {
    /// A shared parameter that starts at the default standard deviation.
    pub fn new() -> (shared: SharedVariance) {
        SharedVariance { cell: AtomicU64::new(DEFAULT_VARIANCE) }
    }

    /// The standard deviation as some writer left it. Which write is seen
    /// depends on the other threads; whichever it is, the value is at or
    /// above the floor, so it is never zero.
    pub fn get(&self) -> (param: VarianceParameter)
        ensures
            param@ >= VARIANCE_FLOOR,
    {
        let stored: u64 = self.cell.load(Ordering::Relaxed);
        VarianceParameter::from_stored(stored)
    }

    /// Publishes `value`, raised to the floor where it is zero or
    /// negative. Readers on other threads see it eventually.
    pub fn set(&self, value: i64) {
        let mut param = VarianceParameter::new();
        param.set(value);
        self.cell.store(param.get(), Ordering::Relaxed);
    }
}

} // verus!
