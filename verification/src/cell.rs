//! The boundary to the cell representation.
//!
//! This crate never looks inside a cell. It moves finalized cells around by
//! their content address, gathers them into reference lists, and asks a
//! [`CellContext`] to finalize new ones.

use vstd::prelude::*;

use crate::error::Error;

verus! {

/// The largest number of references that one cell can hold.
pub const MAX_REF_COUNT: usize = 4;

/// A finalized cell, named by its content address.
///
/// Two handles are equal exactly when they name the same content.
#[derive(Clone, Copy, Debug, PartialEq, Eq, Hash)]
pub struct Cell {
    repr_hash: [u8; 32],
}

impl Cell {
    /// The content address of this cell, as a sequence of 32 bytes.
    pub closed spec fn spec_repr_hash(&self) -> Seq<u8> {
        self.repr_hash@
    }

    /// The handle of the cell with the given content address.
    pub fn from_repr_hash(repr_hash: [u8; 32]) -> (cell: Cell)
        ensures
            cell.spec_repr_hash() == repr_hash@,
    {
        Cell { repr_hash }
    }

    /// The content address of this cell.
    pub fn repr_hash(&self) -> (repr_hash: &[u8; 32])
        ensures
            repr_hash@ == self.spec_repr_hash(),
    {
        &self.repr_hash
    }
}

/// The raw payload of a cell that is not finalized yet.
#[derive(Clone, Debug, PartialEq, Eq)]
pub struct CellDataBuilder {
    /// The payload, padded to whole bytes.
    pub data: Vec<u8>,
    /// The number of bits of `data` that belong to the payload.
    pub bit_len: u16,
}

/// An ordered list of at most [`MAX_REF_COUNT`] finalized cells.
pub struct CellRefsBuilder {
    refs: Vec<Cell>,
}

impl View for CellRefsBuilder {
    type V = Seq<Cell>;

    closed spec fn view(&self) -> Seq<Cell> {
        self.refs@
    }
}

impl CellRefsBuilder {
    #[verifier::type_invariant]
    spec fn within_limit(&self) -> bool {
        self.refs@.len() <= MAX_REF_COUNT
    }

    /// An empty list.
    pub fn new() -> (refs: CellRefsBuilder)
        ensures
            refs@ == Seq::<Cell>::empty(),
    {
        CellRefsBuilder { refs: Vec::new() }
    }

    /// The number of cells in the list.
    pub fn len(&self) -> (len: usize)
        ensures
            len == self@.len(),
            len <= MAX_REF_COUNT,
    {
        proof {
            use_type_invariant(self);
        }
        self.refs.len()
    }

    /// The cell at `index`, if there is one.
    pub fn get(&self, index: usize) -> (cell: Option<Cell>)
        ensures
            cell == (if index < self@.len() {
                Some(self@[index as int])
            } else {
                None
            }),
    {
        if index < self.refs.len() {
            Some(self.refs[index])
        } else {
            None
        }
    }

    /// Appends `cell`, unless the list is full.
    ///
    /// A full list is left as it was, and the call fails with
    /// [`Error::CellOverflow`].
    pub fn store_reference(&mut self, cell: Cell) -> (stored: Result<(), Error>)
        ensures
            old(self)@.len() < MAX_REF_COUNT ==> stored == Ok::<(), Error>(()) && final(self)@
                == old(self)@.push(cell),
            old(self)@.len() >= MAX_REF_COUNT ==> stored == Err::<(), Error>(Error::CellOverflow)
                && final(self)@ == old(self)@,
    {
        proof {
            use_type_invariant(&*self);
        }
        if self.refs.len() < MAX_REF_COUNT {
            let mut refs: Vec<Cell> = Vec::new();
            core::mem::swap(&mut self.refs, &mut refs);
            refs.push(cell);
            core::mem::swap(&mut self.refs, &mut refs);
            Ok(())
        } else {
            Err(Error::CellOverflow)
        }
    }
}

impl Default for CellRefsBuilder {
    fn default() -> (refs: CellRefsBuilder)
        ensures
            refs@ == Seq::<Cell>::empty(),
    {
        CellRefsBuilder::new()
    }
}

/// The capability that finalizes cells.
///
/// A context may keep books, enforce limits or consult storage, so what it
/// answers is not a function of what it is asked. What an implementation
/// guarantees of its answers it states as the `ensures` of its own
/// `finalize_cell`, which is what [`finalizes`] stands for.
pub trait CellContext {
    /// Finalizes the cell with the given flag, payload and references, in
    /// that order, or says why it cannot.
    fn finalize_cell(
        &self,
        is_exotic: bool,
        data: &CellDataBuilder,
        refs: &CellRefsBuilder,
    ) -> Result<Cell, Error>;
}

/// Whether `out` is an answer that `context` may give when asked to finalize
/// a cell with this flag, this payload and these references.
pub open spec fn finalizes<C: CellContext + ?Sized>(
    context: &C,
    is_exotic: bool,
    data: CellDataBuilder,
    refs: Seq<Cell>,
    out: Result<Cell, Error>,
) -> bool {
    exists|list: CellRefsBuilder|
        #![trigger list@]
        list@ == refs && call_ensures(C::finalize_cell, (context, is_exotic, &data, &list), out)
}

} // verus!
