//! Cells that may not exist yet, and their resolution.

use vstd::prelude::*;

use std::sync::Arc;

use crate::cell::{finalizes, Cell, CellContext, CellDataBuilder, CellRefsBuilder, MAX_REF_COUNT};
use crate::error::Error;
use crate::promise::{share, Promise};

verus! {

/// A cell, or what it takes to produce one.
pub enum ExtCell {
    /// A finalized cell.
    Ordinary(Cell),
    /// The data of a cell, with children that may not be finalized yet.
    Partial(Arc<ExtCellParts>),
    /// A promise of the state that will take this one's place.
    Deferred(CellPromise),
}

/// The parts of a cell that is not finalized yet.
#[derive(Clone)]
pub struct ExtCellParts {
    /// The payload of the cell.
    pub data: CellDataBuilder,
    /// Whether the cell is exotic.
    pub is_exotic: bool,
    /// The children, in the order in which the cell refers to them.
    pub refs: Vec<ExtCell>,
}

/// A shared handle to the promise of the next state of a cell, or of the
/// reason why there is none.
///
/// Verus looks no further than this handle: a promise keeps its value under a
/// lock, and an [`ExtCell`] that held one openly would refer to itself in a
/// position where Verus accepts no recursion. [`promised`] names the promise
/// behind a handle; of what that promise will hold nothing is said anywhere.
#[verifier::external_body]
pub struct CellPromise {
    shared: Arc<Promise<Result<ExtCell, Error>>>,
}

/// The promise behind `handle`.
pub uninterp spec fn promised(handle: CellPromise) -> Promise<Result<ExtCell, Error>>;

impl CellPromise {
    /// `Arc::new`: the handle holds `promise`, unchanged.
    #[verifier::external_body]
    fn seal(promise: Promise<Result<ExtCell, Error>>) -> (handle: CellPromise)
        ensures
            promised(handle) == promise,
    {
        CellPromise { shared: Arc::new(promise) }
    }

    /// `Arc::as_ref`: borrows the promise that the handle holds.
    #[verifier::external_body]
    fn unseal(&self) -> (promise: &Promise<Result<ExtCell, Error>>)
        ensures
            *promise == promised(*self),
    {
        self.shared.as_ref()
    }

    /// `Arc::clone`: the result points to the same promise, and nothing
    /// tells it from this handle.
    #[verifier::external_body]
    fn share(&self) -> (other: CellPromise)
        ensures
            other == *self,
    {
        CellPromise { shared: Arc::clone(&self.shared) }
    }

    /// The handle of `promise`.
    pub fn new(promise: Promise<Result<ExtCell, Error>>) -> (handle: CellPromise)
        ensures
            promised(handle) == promise,
    {
        CellPromise::seal(promise)
    }

    /// The promise behind this handle.
    pub fn promise(&self) -> (promise: &Promise<Result<ExtCell, Error>>)
        ensures
            *promise == promised(*self),
    {
        self.unseal()
    }
}

impl Clone for CellPromise {
    /// Another handle of the same promise.
    fn clone(&self) -> (other: CellPromise)
        ensures
            other == *self,
    {
        self.share()
    }
}

impl Clone for ExtCell {
    /// A copy that shares its parts and its promise with this cell.
    fn clone(&self) -> (other: ExtCell)
        ensures
            other == *self,
    {
        match self {
            ExtCell::Ordinary(cell) => ExtCell::Ordinary(*cell),
            ExtCell::Partial(parts) => ExtCell::Partial(share(parts)),
            ExtCell::Deferred(handle) => ExtCell::Deferred(handle.clone()),
        }
    }
}

/// `Result::clone`: an `Ok` is cloned to an `Ok` and an `Err` to an `Err`,
/// each holding a clone of what the other holds.
pub assume_specification<T: Clone, E: Clone>[ <Result<T, E> as Clone>::clone ](
    result: &Result<T, E>,
) -> (other: Result<T, E>)
    ensures
        match (*result, other) {
            (Ok(value), Ok(copy)) => cloned::<T>(value, copy),
            (Err(error), Err(copy)) => cloned::<E>(error, copy),
            _ => false,
        },
;

/// Where the values that a resolution awaits come from: a list given
/// beforehand, of which `to - from` values were taken from index `from` on,
/// or the promises themselves.
spec fn taken_from(
    given: Option<&Vec<Result<ExtCell, Error>>>,
    from: u64,
    to: u64,
    awaited: Seq<Result<ExtCell, Error>>,
) -> bool {
    &&& from <= to
    &&& awaited.len() == to - from
    &&& given matches Some(list) ==> to <= list@.len() && awaited == list@.subrange(
        from as int,
        to as int,
    )
}

/// Whether nothing more can be awaited: the given list is used up, or,
/// where the promises are waited for, the count of awaited values is at its
/// limit.
spec fn used_up(given: Option<&Vec<Result<ExtCell, Error>>>, to: u64) -> bool {
    match given {
        Some(list) => to == list@.len(),
        None => to == u64::MAX,
    }
}

impl ExtCellParts {
    /// Whether a resolution of these parts, in which the waits return
    /// exactly `awaited`, in this order, resolves the first `cells.len()`
    /// children to `cells` and ends with `out`, the children up to `i`
    /// having awaited the first `cuts[i]` values.
    ///
    /// The children are resolved from left to right and each cell is stored
    /// before the next child is looked at. So either all children resolved
    /// and `out` is the context's answer for exactly these cells; or the
    /// child after `cells` did not resolve and `out` is how it ended; or the
    /// last of `cells` was one more than a cell holds.
    pub open spec fn builds_given<C: CellContext + ?Sized>(
        self,
        context: &C,
        awaited: Seq<Result<ExtCell, Error>>,
        cells: Seq<Cell>,
        cuts: Seq<int>,
        out: Option<Result<Cell, Error>>,
    ) -> bool
        decreases awaited.len(), self,
    {
        &&& cells.len() <= self.refs@.len()
        &&& cuts.len() == cells.len() + 1
        &&& cuts[0] == 0
        &&& 0 <= cuts[cells.len() as int] <= awaited.len()
        &&& forall|i: int|
            0 <= i < cells.len() ==> 0 <= #[trigger] cuts[i] <= cuts[i + 1] <= awaited.len()
        &&& forall|i: int|
            0 <= i < cells.len() && 0 <= cuts[i] <= cuts[i + 1] <= awaited.len() ==> (
            #[trigger] self.refs@[i]).resolves_given(
                context,
                awaited.subrange(cuts[i], cuts[i + 1]),
                Some(Ok(cells[i])),
            )
        &&& if cells.len() > MAX_REF_COUNT {
            &&& cells.len() == MAX_REF_COUNT + 1
            &&& cuts[cells.len() as int] == awaited.len()
            &&& out == Some(Err::<Cell, Error>(Error::CellOverflow))
        } else if cells.len() < self.refs@.len() {
            &&& !(out matches Some(Ok(_)))
            &&& self.refs@[cells.len() as int].resolves_given(
                context,
                awaited.subrange(cuts[cells.len() as int], awaited.len() as int),
                out,
            )
        } else {
            &&& cuts[cells.len() as int] == awaited.len()
            &&& out matches Some(answer)
            &&& finalizes(context, self.is_exotic, self.data, cells, answer)
        }
    }
}

impl ExtCell {
    /// Whether a resolution of this cell against `context`, in which the
    /// waits return exactly `awaited`, in this order, ends with `out`.
    ///
    /// `None` stands for a resolution that would have to wait once more.
    pub open spec fn resolves_given<C: CellContext + ?Sized>(
        self,
        context: &C,
        awaited: Seq<Result<ExtCell, Error>>,
        out: Option<Result<Cell, Error>>,
    ) -> bool
        decreases awaited.len(), self,
    {
        match self {
            ExtCell::Ordinary(cell) => awaited.len() == 0 && out == Some(Ok::<Cell, Error>(cell)),
            ExtCell::Partial(parts) => exists|cells: Seq<Cell>, cuts: Seq<int>|
                #![trigger cells.len(), cuts.len()]
                cuts.len() == cells.len() + 1 && parts.builds_given(
                    context,
                    awaited,
                    cells,
                    cuts,
                    out,
                ),
            ExtCell::Deferred(_) => if awaited.len() == 0 {
                out is None
            } else {
                match awaited[0] {
                    Ok(next) => next.resolves_given(context, awaited.skip(1), out),
                    Err(error) => awaited.len() == 1 && out == Some(Err::<Cell, Error>(error)),
                }
            },
        }
    }

    /// Whether a resolution of this cell that awaits nothing ends with `out`.
    pub open spec fn resolves_to<C: CellContext + ?Sized>(
        self,
        context: &C,
        out: Result<Cell, Error>,
    ) -> bool {
        self.resolves_given(context, Seq::empty(), Some(out))
    }

    /// Whether no promise stands in this cell or below it.
    pub open spec fn promise_free(self) -> bool
        decreases self,
    {
        match self {
            ExtCell::Ordinary(_) => true,
            ExtCell::Partial(parts) => forall|i: int|
                0 <= i < parts.refs@.len() ==> (#[trigger] parts.refs@[i]).promise_free(),
            ExtCell::Deferred(_) => false,
        }
    }
}

impl ExtCellParts {
    /// Resolves the children from left to right, gathers their cells and
    /// asks `context` for the cell that these parts describe.
    fn build_from<C: CellContext + ?Sized>(
        &self,
        context: &C,
        given: Option<&Vec<Result<ExtCell, Error>>>,
        from: u64,
    ) -> (end: (Option<Result<Cell, Error>>, u64, Ghost<Seq<Result<ExtCell, Error>>>))
        requires
            given matches Some(list) ==> from <= list@.len(),
        ensures
            taken_from(given, from, end.1, end.2@),
            end.0 is None ==> used_up(given, end.1),
            exists|cells: Seq<Cell>, cuts: Seq<int>|
                #![trigger cells.len(), cuts.len()]
                cuts.len() == cells.len() + 1 && self.builds_given(
                    context,
                    end.2@,
                    cells,
                    cuts,
                    end.0,
                ),
        decreases u64::MAX - from, self,
    {
        let mut refs = CellRefsBuilder::new();
        let mut index: usize = 0;
        let mut to: u64 = from;
        let ghost mut awaited: Seq<Result<ExtCell, Error>> = Seq::empty();
        let ghost mut cuts: Seq<int> = seq![0int];
        proof {
            if let Some(list) = given {
                assert(awaited == list@.subrange(from as int, from as int));
            }
        }
        while index < self.refs.len()
            invariant
                index <= self.refs@.len(),
                refs@.len() == index,
                index <= MAX_REF_COUNT,
                taken_from(given, from, to, awaited),
                cuts.len() == index + 1,
                cuts[0] == 0,
                cuts[index as int] == awaited.len(),
                forall|i: int|
                    0 <= i < index ==> 0 <= #[trigger] cuts[i] <= cuts[i + 1] <= awaited.len(),
                forall|i: int|
                    0 <= i < index ==> (#[trigger] self.refs@[i]).resolves_given(
                        context,
                        awaited.subrange(cuts[i], cuts[i + 1]),
                        Some(Ok(refs@[i])),
                    ),
            decreases self.refs@.len() - index,
        {
            let child = self.refs[index].clone();
            let (ended, next, Ghost(more)) = child.resolve_from(context, given, to);
            let ghost before = awaited;
            proof {
                awaited = before + more;
                assert(awaited.subrange(before.len() as int, awaited.len() as int) == more);
                assert forall|i: int| 0 <= i < index implies (#[trigger] self.refs@[i])
                    .resolves_given(
                    context,
                    awaited.subrange(cuts[i], cuts[i + 1]),
                    Some(Ok(refs@[i])),
                ) by {
                    assert(self.refs@[i].resolves_given(
                        context,
                        before.subrange(cuts[i], cuts[i + 1]),
                        Some(Ok(refs@[i])),
                    ));
                    assert(before.subrange(cuts[i], cuts[i + 1]) == awaited.subrange(
                        cuts[i],
                        cuts[i + 1],
                    ));
                }
                if let Some(list) = given {
                    assert(awaited == list@.subrange(from as int, next as int));
                }
            }
            to = next;
            let cell = match ended {
                Some(Ok(cell)) => cell,
                _ => {
                    assert(self.builds_given(context, awaited, refs@, cuts, ended));
                    return (ended, to, Ghost(awaited));
                },
            };
            let ghost stored = refs@;
            proof {
                cuts = cuts.push(awaited.len() as int);
            }
            match refs.store_reference(cell) {
                Ok(()) => {},
                Err(error) => {
                    assert(self.builds_given(
                        context,
                        awaited,
                        stored.push(cell),
                        cuts,
                        Some(Err(error)),
                    ));
                    return (Some(Err(error)), to, Ghost(awaited));
                },
            }
            index = index + 1;
        }
        let answer = context.finalize_cell(self.is_exotic, &self.data, &refs);
        assert(self.builds_given(context, awaited, refs@, cuts, Some(answer)));
        (Some(answer), to, Ghost(awaited))
    }
}

impl ExtCell {
    /// Resolves this cell. What a wait would return is taken from `given`,
    /// from index `from` on, where there is such a list, and from the
    /// promises where there is none. The result comes with the count of
    /// awaited values that `from` has grown to, and with those values.
    fn resolve_from<C: CellContext + ?Sized>(
        self,
        context: &C,
        given: Option<&Vec<Result<ExtCell, Error>>>,
        from: u64,
    ) -> (end: (Option<Result<Cell, Error>>, u64, Ghost<Seq<Result<ExtCell, Error>>>))
        requires
            given matches Some(list) ==> from <= list@.len(),
        ensures
            taken_from(given, from, end.1, end.2@),
            end.0 is None ==> used_up(given, end.1),
            self.resolves_given(context, end.2@, end.0),
        decreases u64::MAX - from, self,
    {
        let ghost start = self;
        let ghost mut awaited: Seq<Result<ExtCell, Error>> = Seq::empty();
        let mut to: u64 = from;
        let mut current = self;
        proof {
            if let Some(list) = given {
                assert(awaited == list@.subrange(from as int, from as int));
            }
            assert forall|rest: Seq<Result<ExtCell, Error>>| awaited + rest == rest by {}
        }
        loop
            invariant
                start == self,
                taken_from(given, from, to, awaited),
                to == from ==> current == start,
                forall|rest: Seq<Result<ExtCell, Error>>, out: Option<Result<Cell, Error>>|
                    #![trigger current.resolves_given(context, rest, out)]
                    current.resolves_given(context, rest, out) ==> start.resolves_given(
                        context,
                        awaited + rest,
                        out,
                    ),
            decreases u64::MAX - to,
        {
            let ghost now = current;
            match current {
                ExtCell::Ordinary(cell) => {
                    assert(now.resolves_given(context, Seq::empty(), Some(Ok(cell))));
                    assert(awaited + Seq::<Result<ExtCell, Error>>::empty() == awaited);
                    return (Some(Ok(cell)), to, Ghost(awaited));
                },
                ExtCell::Partial(parts) => {
                    let (ended, next, Ghost(more)) = parts.build_from(context, given, to);
                    proof {
                        assert(now.resolves_given(context, more, ended));
                        if let Some(list) = given {
                            assert(awaited + more == list@.subrange(from as int, next as int));
                        }
                    }
                    return (ended, next, Ghost(awaited + more));
                },
                ExtCell::Deferred(handle) => {
                    let more = match given {
                        Some(list) => to < list.len() as u64,
                        None => to < u64::MAX,
                    };
                    if !more {
                        assert(now.resolves_given(context, Seq::empty(), None));
                        assert(awaited + Seq::<Result<ExtCell, Error>>::empty() == awaited);
                        return (None, to, Ghost(awaited));
                    }
                    let value = match given {
                        Some(list) => {
                            let at: usize = to as usize;
                            list[at].clone()
                        },
                        None => handle.promise().wait_cloned(),
                    };
                    let ghost before = awaited;
                    proof {
                        awaited = before.push(value);
                        if let Some(list) = given {
                            assert(awaited == list@.subrange(from as int, to + 1));
                        }
                    }
                    to = to + 1;
                    match value {
                        Ok(cell) => {
                            proof {
                                assert forall|
                                    rest: Seq<Result<ExtCell, Error>>,
                                    out: Option<Result<Cell, Error>>,
                                | #[trigger]
                                    cell.resolves_given(
                                        context,
                                        rest,
                                        out,
                                    ) implies start.resolves_given(
                                    context,
                                    awaited + rest,
                                    out,
                                ) by {
                                    let whole = seq![value] + rest;
                                    assert(whole.skip(1) == rest);
                                    assert(now.resolves_given(context, whole, out));
                                    assert(before + whole == awaited + rest);
                                }
                            }
                            current = cell;
                        },
                        Err(error) => {
                            assert(now.resolves_given(context, seq![value], Some(Err(error))));
                            assert(before + seq![value] == awaited);
                            return (Some(Err(error)), to, Ghost(awaited));
                        },
                    }
                },
            }
        }
    }
}

impl ExtCell {
    /// Turns this cell into a finalized one.
    ///
    /// A finalized cell is returned as it is. A partial cell has its children
    /// resolved from left to right against the same `context`, which is then
    /// asked for the cell of the parts with the resolved children, in their
    /// order; the first child that fails, or the first that is one too many,
    /// ends the resolution with that failure. A promise is waited for and
    /// its value takes the place of this cell, or ends the resolution if it
    /// is a failure.
    ///
    /// The call blocks while a promise on its way is not set. What it
    /// returns is what [`ExtCell::resolve_given`] returns for the values
    /// that the waits returned. A resolution that has awaited `u64::MAX`
    /// values and comes upon one more promise fails with
    /// [`Error::DepthOverflow`].
    pub fn resolve<C: CellContext + ?Sized>(self, context: &C) -> (out: Result<Cell, Error>)
        ensures
            self matches ExtCell::Ordinary(cell) ==> out == Ok::<Cell, Error>(cell),
            self.promise_free() ==> self.resolves_to(context, out),
            exists|awaited: Seq<Result<ExtCell, Error>>|
                #![trigger awaited.len()]
                self.resolves_given(context, awaited, Some(out)) || (awaited.len() == u64::MAX
                    && self.resolves_given(context, awaited, None) && out == Err::<Cell, Error>(
                    Error::DepthOverflow,
                )),
    {
        let ghost start = self;
        let (ended, _, Ghost(awaited)) = self.resolve_from(context, None, 0);
        proof {
            if start.promise_free() {
                crate::resolve_laws::lemma_promise_free_awaits_nothing(
                    start,
                    context,
                    awaited,
                    ended,
                );
                assert(awaited == Seq::<Result<ExtCell, Error>>::empty());
            }
            assert(awaited.len() >= 0);
        }
        match ended {
            Some(out) => out,
            None => Err(Error::DepthOverflow),
        }
    }

    /// Resolves this cell as [`ExtCell::resolve`] does, but takes what each
    /// wait would return from `awaited`, in turn, and waits for nothing.
    ///
    /// The result is `None` where the resolution comes upon a promise and
    /// `awaited` has no value left for it. Values that the resolution does
    /// not get to are left alone.
    pub fn resolve_given<C: CellContext + ?Sized>(
        self,
        context: &C,
        awaited: &Vec<Result<ExtCell, Error>>,
    ) -> (out: Option<Result<Cell, Error>>)
        ensures
            exists|taken: int|
                0 <= taken <= awaited@.len() && self.resolves_given(
                    context,
                    #[trigger] awaited@.take(taken),
                    out,
                ) && (out is None ==> taken == awaited@.len()),
    {
        let ghost start = self;
        let (ended, to, Ghost(used)) = self.resolve_from(context, Some(awaited), 0);
        proof {
            assert(used == awaited@.take(to as int));
            assert(start.resolves_given(context, awaited@.take(to as int), ended));
        }
        ended
    }
}

} // verus!
