//! The list of children of a cell under assembly.

use vstd::prelude::*;

use crate::cell::{Cell, CellRefsBuilder, MAX_REF_COUNT};
use crate::error::Error;
use crate::ext_cell::ExtCell;

verus! {

/// The children gathered so far for a cell.
///
/// A builder starts out `Ordinary`, as a plain list of finalized cells. The
/// first child that is not finalized turns it into an `Extended` one, which
/// it then stays.
pub enum ChildrenBuilder {
    /// Finalized cells only.
    Ordinary(CellRefsBuilder),
    /// Cells of any state.
    Extended(Vec<ExtCell>),
}

impl View for ChildrenBuilder {
    type V = Seq<ExtCell>;

    /// The children in the order in which they were stored, a finalized
    /// cell standing as an ordinary [`ExtCell`].
    open spec fn view(&self) -> Seq<ExtCell> {
        match self {
            ChildrenBuilder::Ordinary(refs) => refs@.map_values(
                |cell: Cell| ExtCell::Ordinary(cell),
            ),
            ChildrenBuilder::Extended(cells) => cells@,
        }
    }
}

impl ChildrenBuilder {
    /// Whether this builder has room for `cell`.
    ///
    /// Only a plain list can be full, and only a finalized cell is stored in
    /// one.
    pub open spec fn accepts(&self, cell: ExtCell) -> bool {
        self is Extended || !(cell is Ordinary) || self@.len() < MAX_REF_COUNT
    }

    /// Whether `after` is this builder once `cell` was offered to it.
    pub open spec fn steps_to(&self, cell: ExtCell, after: ChildrenBuilder) -> bool {
        &&& after is Extended <==> self is Extended || !(cell is Ordinary)
        &&& after@ == if self.accepts(cell) {
            self@.push(cell)
        } else {
            self@
        }
    }

    /// Appends `cell` to the children.
    ///
    /// An `Ordinary` builder hands a finalized cell to its plain list, and
    /// fails as that list does when it is full. Given any other cell it
    /// becomes `Extended`, keeping what it held in the same order. An
    /// `Extended` builder takes every cell.
    pub fn store_reference(&mut self, cell: ExtCell) -> (stored: Result<(), Error>)
        ensures
            old(self).steps_to(cell, *final(self)),
            old(self).accepts(cell) ==> stored == Ok::<(), Error>(()),
            !old(self).accepts(cell) ==> stored == Err::<(), Error>(Error::CellOverflow),
    {
        let mut current = ChildrenBuilder::Extended(Vec::new());
        core::mem::swap(self, &mut current);
        match current {
            ChildrenBuilder::Ordinary(mut refs) => {
                match cell {
                    ExtCell::Ordinary(plain) => {
                        let ghost before = refs@;
                        let stored = refs.store_reference(plain);
                        let ghost held = before.map_values(|cell: Cell| ExtCell::Ordinary(cell));
                        assert(refs@.map_values(|cell: Cell| ExtCell::Ordinary(cell)) == (
                        if before.len() < MAX_REF_COUNT {
                            held.push(cell)
                        } else {
                            held
                        }));
                        *self = ChildrenBuilder::Ordinary(refs);
                        stored
                    },
                    other => {
                        let count = refs.len();
                        let mut extended: Vec<ExtCell> = Vec::with_capacity(count + 1);
                        let mut index: usize = 0;
                        while index < count
                            invariant
                                count == refs@.len(),
                                index <= count,
                                extended@ == refs@.subrange(0, index as int).map_values(
                                    |cell: Cell| ExtCell::Ordinary(cell),
                                ),
                            decreases count - index,
                        {
                            if let Some(plain) = refs.get(index) {
                                extended.push(ExtCell::Ordinary(plain));
                            }
                            index = index + 1;
                        }
                        assert(refs@.subrange(0, count as int) == refs@);
                        extended.push(other);
                        *self = ChildrenBuilder::Extended(extended);
                        Ok(())
                    },
                }
            },
            ChildrenBuilder::Extended(mut cells) => {
                cells.push(cell);
                *self = ChildrenBuilder::Extended(cells);
                Ok(())
            },
        }
    }
}

/// Whether `states` are the states of one builder before and after each of
/// `cells` was offered to it, in turn.
pub open spec fn is_run(states: Seq<ChildrenBuilder>, cells: Seq<ExtCell>) -> bool {
    &&& states.len() == cells.len() + 1
    &&& forall|i: int|
        0 <= i < cells.len() ==> (#[trigger] states[i]).steps_to(cells[i], states[i + 1])
}

/// A builder that starts out `Ordinary` and is given finalized cells only
/// stays `Ordinary` throughout.
pub proof fn lemma_ordinary_cells_keep_it_ordinary(
    states: Seq<ChildrenBuilder>,
    cells: Seq<ExtCell>,
    at: int,
)
    requires
        is_run(states, cells),
        states[0] is Ordinary,
        forall|i: int| 0 <= i < cells.len() ==> (#[trigger] cells[i]) is Ordinary,
        0 <= at < states.len(),
    ensures
        states[at] is Ordinary,
    decreases at,
{
    if at > 0 {
        lemma_ordinary_cells_keep_it_ordinary(states, cells, at - 1);
        assert(states[at - 1].steps_to(cells[at - 1], states[at]));
    }
}

/// A builder that is `Extended` stays so, whatever it is given.
pub proof fn lemma_extended_stays_extended(
    states: Seq<ChildrenBuilder>,
    cells: Seq<ExtCell>,
    from: int,
    to: int,
)
    requires
        is_run(states, cells),
        0 <= from <= to < states.len(),
        states[from] is Extended,
    ensures
        states[to] is Extended,
    decreases to - from,
{
    if from < to {
        lemma_extended_stays_extended(states, cells, from, to - 1);
        assert(states[to - 1].steps_to(cells[to - 1], states[to]));
    }
}

/// A builder turns `Extended` with the first cell that is not finalized.
pub proof fn lemma_first_other_cell_extends_it(
    states: Seq<ChildrenBuilder>,
    cells: Seq<ExtCell>,
    first: int,
)
    requires
        is_run(states, cells),
        states[0] is Ordinary,
        0 <= first < cells.len(),
        !(cells[first] is Ordinary),
        forall|i: int| 0 <= i < first ==> (#[trigger] cells[i]) is Ordinary,
    ensures
        states[first] is Ordinary,
        states[first + 1] is Extended,
{
    lemma_ordinary_cells_keep_it_ordinary(
        states.subrange(0, first + 1),
        cells.subrange(0, first),
        first,
    );
    assert(states[first].steps_to(cells[first], states[first + 1]));
}

/// While a builder has room for what it is given, it holds what it held at
/// first, then the cells it was given, in the order in which they came.
pub proof fn lemma_stored_cells_keep_their_order(
    states: Seq<ChildrenBuilder>,
    cells: Seq<ExtCell>,
    at: int,
)
    requires
        is_run(states, cells),
        forall|i: int| 0 <= i < cells.len() ==> (#[trigger] states[i]).accepts(cells[i]),
        0 <= at < states.len(),
    ensures
        states[at]@ == states[0]@ + cells.subrange(0, at),
    decreases at,
{
    if at > 0 {
        lemma_stored_cells_keep_their_order(states, cells, at - 1);
        assert(states[at - 1].steps_to(cells[at - 1], states[at]));
        assert(cells.subrange(0, at) == cells.subrange(0, at - 1).push(cells[at - 1]));
    }
}

} // verus!
