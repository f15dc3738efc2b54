use vstd::prelude::*;

verus! {

/// Why a multiplication, a dot product or a worker reply failed.
#[derive(Debug, Clone, Copy, PartialEq, Eq, Structural)]
pub enum MatrixError {
    /// The operands' shapes do not fit: `a.col != b.row`, or two vectors of
    /// different lengths.
    DimensionMismatch,
    /// A reply channel closed before its worker delivered a value.
    ChannelClosed,
    /// The replies did not come back one per cell, in submission order.
    ReplyMismatch,
}

/// Why a counter could not be incremented.
#[derive(Debug, Clone, Copy, PartialEq, Eq, Structural)]
pub enum MetricsError {
    /// The name is not one of the counters registered at construction.
    KeyNotFound,
}

} // verus!
