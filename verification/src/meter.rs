use crate::sealed::Sealed;
use vstd::prelude::*;

verus! {

/// The maximum number of counters that the shared per-CPU counter table
/// holds.
pub const BPF_COUNTERS_MAX_ENTRIES: usize = 64;

/// The kind of [`Meter`].
///
/// Currently only [`MeterKind::Counter`] is supported, but other meters
/// could be added.
pub enum MeterKind {
    /// Counters monitor monotonically increasing values.  Counters may
    /// never be reset to a lesser value.
    Counter,
}

impl MeterKind {
    /// The name of the counter table for this kind of [`Meter`].
    pub fn map_name(&self) -> (r: &str)
        ensures
            r@ == "COUNTERS"@,
    {
        match self {
            MeterKind::Counter => "COUNTERS",
        }
    }
}

/// A base trait for all kinds of meters.
///
/// It is expected to be used on an enum representing a set of meters of the
/// same kind in the same counter table.
pub trait Meter: Copy + Sealed {
    /// The kind of meter.
    fn kind() -> MeterKind;

    /// The index of the meter in the counter table.
    fn index(&self) -> u32;

    /// The name of the meter.
    fn name(self) -> String;

    /// The description of the meter.
    fn description(self) -> String;
}

/// A trait which should be implemented over an enumeration defining the
/// counters in the same counter table.
///
/// Counters monitor monotonically increasing values and never reset to a
/// lesser value.  Each enumeration variant represents an index into the
/// counter table.
pub trait Counter: Meter {
    /// The index of the counter in the counter table.
    fn index(&self) -> u32;

    /// The name of the counter.
    fn name(self) -> String;

    /// The description of the counter.
    ///
    /// Implementing this is optional and by default will return an empty
    /// string.
    fn description(self) -> String {
        String::new()
    }
}

impl<T: Counter> Sealed for T {
}

/// Blanket implementation for all [`Counter`]s.
impl<T: Counter> Meter for T {
    fn kind() -> MeterKind {
        MeterKind::Counter
    }

    fn index(&self) -> u32 {
        Counter::index(self)
    }

    fn name(self) -> String {
        Counter::name(self)
    }

    fn description(self) -> String {
        Counter::description(self)
    }
}

} // verus!
