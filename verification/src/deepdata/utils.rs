//! A price cell shared between tasks, held as the bits of a float.
use vstd::prelude::*;

use std::sync::atomic::{AtomicU64, Ordering};

verus! {

/// A float shared between tasks, stored as its bit pattern in an atomic.
pub struct AtomicF64 {
    storage: AtomicU64,
}

impl AtomicF64 {
    /// A cell holding the float whose bit pattern is `bits`.
    pub fn from_bits(bits: u64) -> (c: Self) {
        AtomicF64 { storage: AtomicU64::new(bits) }
    }

    /// Stores the float whose bit pattern is `bits`.
    pub fn store_bits(&self, bits: u64, ordering: Ordering) {
        self.storage.store(bits, ordering)
    }

    /// The bit pattern of the float held.
    pub fn load_bits(&self, ordering: Ordering) -> (bits: u64) {
        self.storage.load(ordering)
    }
}

} // verus!
