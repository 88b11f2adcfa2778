//! Slots: positions in the multi-threaded block grid.
use vstd::prelude::*;

verus! {

/// A position `(period, thread)` in the multi-threaded block grid.
/// Slots are totally ordered, first by period, then by thread number.
#[derive(Clone, Copy, PartialEq, Eq, Structural, Debug, Hash)]
pub struct Slot {
    /// Index of the time period the slot belongs to.
    pub period: u64,
    /// Index of the thread the slot belongs to.
    pub thread: u8,
}

impl DeepView for Slot {
    type V = Slot;

    open spec fn deep_view(&self) -> Slot {
        *self
    }
}

/// Strict total order on slots: lexicographic on `(period, thread)`.
pub open spec fn slot_lt(a: Slot, b: Slot) -> bool {
    a.period < b.period || (a.period == b.period && a.thread < b.thread)
}

/// Non-strict order on slots.
pub open spec fn slot_le(a: Slot, b: Slot) -> bool {
    slot_lt(a, b) || a == b
}

impl Slot {
    /// Builds the slot `(period, thread)`.
    pub fn new(period: u64, thread: u8) -> (r: Slot)
        ensures
            r.period == period,
            r.thread == thread,
    {
        Slot { period, thread }
    }

    /// True iff `self` comes strictly before `other` in slot order.
    pub fn precedes(&self, other: &Slot) -> (r: bool)
        ensures
            r == slot_lt(*self, *other),
    {
        self.period < other.period || (self.period == other.period && self.thread < other.thread)
    }

    /// True iff `self` comes before `other` or equals it.
    pub fn precedes_or_eq(&self, other: &Slot) -> (r: bool)
        ensures
            r == slot_le(*self, *other),
    {
        self.period < other.period || (self.period == other.period && self.thread <= other.thread)
    }
}

} // verus!
