//! The timestamp watermark: a monotonic floor below which receipts are
//! rejected. It starts at the manager's start time and advances to each
//! stored voucher's timestamp ceiling.

use vstd::prelude::*;

verus! {

/// A monotonic `u64` nanosecond floor.
#[derive(Clone, Copy, Debug)]
pub struct TimestampWatermark {
    value: u64,
}

impl TimestampWatermark {
    /// The current floor.
    pub closed spec fn spec_value(&self) -> u64 {
        self.value
    }

    /// A watermark starting at the given time.
    pub fn new(starting_value: u64) -> (r: TimestampWatermark)
        ensures
            r.spec_value() == starting_value,
    {
        TimestampWatermark { value: starting_value }
    }

    /// Reads the current floor.
    pub fn get(&self) -> (r: u64)
        ensures
            r == self.spec_value(),
    {
        self.value
    }

    /// Raises the floor to `new` if that is higher: the watermark becomes
    /// the maximum of the two and never decreases.
    pub fn update(&mut self, new: u64)
        ensures
            final(self).spec_value() == if new > old(self).spec_value() {
                new
            } else {
                old(self).spec_value()
            },
            final(self).spec_value() >= old(self).spec_value(),
            final(self).spec_value() >= new,
    {
        if new > self.value {
            self.value = new;
        }
    }
}

} // verus!
