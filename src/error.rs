//! Failures of the driver's operations.
use vstd::prelude::*;

verus! {

/// Why an operation failed.
#[derive(Debug, Clone, Copy, PartialEq, Eq, Structural)]
pub enum DriverError {
    /// A path or listing shape this driver does not handle.
    Unimplemented,
    /// The path is neither a known directory nor an object of the store.
    NotFound,
    /// A chunk of a ranged read does not fit the requested window.
    BadChunk,
    /// A ranged read delivered other than the requested number of bytes.
    ShortRead,
    /// The requested window does not fit in 64-bit offsets.
    RangeOverflow,
}

} // verus!
