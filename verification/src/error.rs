//! The faults that a square-set operation can report.

use vstd::prelude::*;

verus! {

/// A caller's mistake, reported together with the index that was passed.
#[derive(Debug, Clone, Copy, PartialEq, Eq, Structural)]
pub enum ChessError {
    /// The index addresses no square: it is greater than 63.
    InvalidIndex(u8),
    /// The square at the index was asked to be cleared but is not in the set.
    UnsetNonSetBit(u8),
}

} // verus!
