use vstd::prelude::*;
use vstd::string::StringExecFns;

verus! {

/// Errors occurring while reading the counter table.
///
/// These mirror the failure conditions of the per-CPU counter storage: a
/// table that cannot be bound by name at construction time, and a read of
/// an index beyond the configured table size.
#[derive(Debug, PartialEq, Eq)]
pub enum MapError {
    /// The counter table with the given name does not exist.
    InvalidName {
        /// The requested table name.
        name: String,
    },
    /// The requested index lies beyond the configured table size.
    OutOfBounds {
        /// The requested index.
        index: u32,
        /// The configured table size.
        max_entries: u32,
    },
    /// The requested key is missing from the table.
    KeyNotFound,
}

/// Errors occurring while emitting metrics.
///
/// Every fatal condition is surfaced verbatim to the caller: there are no
/// internal retries anywhere in the engine.
#[derive(Debug, PartialEq, Eq)]
pub enum Error {
    /// Errors occurring while reading the counter table.
    MapError(MapError),
    /// Errors occurring while listing possible CPUs.
    InvalidPossibleCpu(String),
    /// Errors occurring while listing online CPUs.
    InvalidOnlineCpu(String),
}

impl Error {
    /// A short description of the error condition.
    pub fn message(&self) -> (r: String)
        ensures
            self is MapError ==> r@ == "error opening metric array"@,
            self is InvalidPossibleCpu ==> r@ == "invalid possible cpu format"@,
            self is InvalidOnlineCpu ==> r@ == "invalid online cpu format"@,
    {
        match self {
            Error::MapError(_) => String::from_str("error opening metric array"),
            Error::InvalidPossibleCpu(_) => String::from_str("invalid possible cpu format"),
            Error::InvalidOnlineCpu(_) => String::from_str("invalid online cpu format"),
        }
    }
}

} // verus!
