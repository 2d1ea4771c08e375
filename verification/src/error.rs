//! The one error channel of the crate.

use vstd::prelude::*;

verus! {

/// Why a cell could not be produced.
///
/// Every fallible operation of the crate reports one of these. This crate
/// raises [`Error::CellOverflow`] and, at the limit of what it can count,
/// [`Error::DepthOverflow`]; whatever a
/// [`CellContext`](crate::cell::CellContext) raises or a promise delivers is
/// handed on unchanged.
#[derive(Clone, Copy, Debug, PartialEq, Eq, Hash)]
pub enum Error {
    /// More references than one cell can hold.
    CellOverflow,
    /// The parts do not describe a valid cell.
    InvalidCell,
    /// The raw data of the cell is malformed.
    InvalidData,
    /// The tree is deeper than the context allows, or than a resolution can
    /// follow.
    DepthOverflow,
}

} // verus!
