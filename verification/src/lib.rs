//! A minimal supervised nearest-neighbor classifier over a typed columnar
//! table.
//!
//! The `reader` module holds the columnar data store: a table of typed cells
//! addressed by column name, from which numeric feature rows and boolean
//! label columns are extracted.  The `knn` module holds the classification
//! core: neighbor search under a distance ordering, majority voting, and
//! accuracy scoring.
//!
//! Distances never appear here as floating-point values.  Every function
//! that ranks neighbors takes *distance keys*: unsigned integers whose
//! numeric order agrees with the order of the real distances.  For
//! distances computed as non-negative IEEE-754 doubles, the bit pattern
//! (`f64::to_bits`) is such a key, so a caller that computes Euclidean
//! distances in floating point hands their bit patterns to this crate and
//! gets exactly the ranking, tie-breaking included, that sorting the
//! doubles would give.

use vstd::prelude::*;

pub mod knn;
pub mod reader;

verus! {

/// The errors surfaced by the classifier core and the columnar table.
///
/// All are deterministic input-validation failures, returned to the
/// immediate caller; none is recoverable by retrying.
#[derive(Clone, Copy, Debug, PartialEq, Eq, Structural)]
pub enum KnnError {
    /// Two vectors of unequal length were compared.
    DimensionMismatch,
    /// More neighbors were requested than training rows exist.
    InsufficientNeighbors,
    /// A classification run was asked for with zero test rows.
    EmptyTestSet,
    /// A non-numeric (or non-flag) cell reached a typed extraction.
    UnsupportedCellVariant,
    /// A column restriction named a column the table does not have.
    UnknownColumn,
    /// A column restriction named the same column twice.
    DuplicateColumn,
}

} // verus!
