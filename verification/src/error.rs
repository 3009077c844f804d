//! The ways in which a routing request can fail.

use vstd::prelude::*;

verus! {

/// Why a request could not be resolved to a physical table name.
#[derive(Clone, Copy, Debug, PartialEq, Eq, Structural)]
pub enum ShardError {
    /// A length prefix, or the segment it announces, lies past the end of the
    /// payload.
    TruncatedBuffer,
    /// The condition segment is not well-formed UTF-8.
    InvalidUtf8,
    /// The condition segment has fewer than three comma-separated fields.
    MissingField,
    /// The column-value field is not a decimal number in `0..=255`.
    InvalidColumnValue,
    /// The physical table name does not fit behind the payload.
    BufferOverflow,
}

} // verus!
