//! What holds of every resolution.

use vstd::prelude::*;

use std::sync::Arc;

use crate::cell::{finalizes, Cell, CellContext, CellDataBuilder, MAX_REF_COUNT};
use crate::error::Error;
use crate::ext_cell::{CellPromise, ExtCell, ExtCellParts};

verus! {

/// A finalized cell awaits nothing and resolves to itself.
pub proof fn lemma_ordinary_resolves_to_itself<C: CellContext + ?Sized>(
    cell: Cell,
    context: &C,
    awaited: Seq<Result<ExtCell, Error>>,
    out: Option<Result<Cell, Error>>,
)
    ensures
        ExtCell::Ordinary(cell).resolves_given(context, awaited, out) <==> awaited.len() == 0 && out
            == Some(Ok::<Cell, Error>(cell)),
{
}

/// A promised cell that is given no value to await does not end.
pub proof fn lemma_deferred_awaits_a_value<C: CellContext + ?Sized>(
    handle: CellPromise,
    context: &C,
    out: Option<Result<Cell, Error>>,
)
    ensures
        ExtCell::Deferred(handle).resolves_given(context, Seq::empty(), out) <==> out is None,
{
}

/// A promised cell whose wait returns a cell resolves as that cell does,
/// given the values that are awaited after it.
pub proof fn lemma_deferred_resolves_as_its_value<C: CellContext + ?Sized>(
    handle: CellPromise,
    context: &C,
    next: ExtCell,
    rest: Seq<Result<ExtCell, Error>>,
    out: Option<Result<Cell, Error>>,
)
    ensures
        ExtCell::Deferred(handle).resolves_given(
            context,
            seq![Ok::<ExtCell, Error>(next)] + rest,
            out,
        ) <==> next.resolves_given(context, rest, out),
{
    let awaited = seq![Ok::<ExtCell, Error>(next)] + rest;
    assert(awaited.skip(1) == rest);
    assert(awaited[0] == Ok::<ExtCell, Error>(next));
}

/// A promised cell whose wait returns a failure fails with it, and awaits
/// nothing more.
pub proof fn lemma_deferred_fails_as_its_value<C: CellContext + ?Sized>(
    handle: CellPromise,
    context: &C,
    error: Error,
    rest: Seq<Result<ExtCell, Error>>,
    out: Option<Result<Cell, Error>>,
)
    ensures
        ExtCell::Deferred(handle).resolves_given(
            context,
            seq![Err::<ExtCell, Error>(error)] + rest,
            out,
        ) <==> rest.len() == 0 && out == Some(Err::<Cell, Error>(error)),
{
    let awaited = seq![Err::<ExtCell, Error>(error)] + rest;
    assert(awaited[0] == Err::<ExtCell, Error>(error));
}

impl ExtCell {
    /// Whether `hops` promises lead from this cell to `target`, when the
    /// waits return `awaited`: whether each of the first `hops` values is
    /// the promised cell that awaits the next, and the last is `target`.
    pub open spec fn leads_to(
        self,
        awaited: Seq<Result<ExtCell, Error>>,
        hops: nat,
        target: ExtCell,
    ) -> bool
        decreases hops,
    {
        if hops == 0 {
            self == target
        } else {
            &&& self is Deferred
            &&& awaited.len() > 0
            &&& awaited[0] matches Ok(next)
            &&& next.leads_to(awaited.skip(1), (hops - 1) as nat, target)
        }
    }
}

/// A chain of promises that redirect to one another resolves as the cell at
/// its end does, however long the chain is.
pub proof fn lemma_chain_resolves_as_its_end<C: CellContext + ?Sized>(
    cell: ExtCell,
    awaited: Seq<Result<ExtCell, Error>>,
    hops: nat,
    target: ExtCell,
    context: &C,
    out: Option<Result<Cell, Error>>,
)
    requires
        cell.leads_to(awaited, hops, target),
    ensures
        hops <= awaited.len(),
        cell.resolves_given(context, awaited, out) <==> target.resolves_given(
            context,
            awaited.skip(hops as int),
            out,
        ),
    decreases hops,
{
    if hops == 0 {
        assert(awaited.skip(0) == awaited);
    } else {
        let next = awaited[0]->Ok_0;
        lemma_chain_resolves_as_its_end(
            next,
            awaited.skip(1),
            (hops - 1) as nat,
            target,
            context,
            out,
        );
        assert(awaited.skip(1).skip(hops - 1) == awaited.skip(hops as int));
    }
}

/// The cell that a partial cell resolves to is the context's answer for the
/// cells that its children resolved to, in the order of the children.
pub proof fn lemma_partial_keeps_order<C: CellContext + ?Sized>(
    parts: Arc<ExtCellParts>,
    context: &C,
    awaited: Seq<Result<ExtCell, Error>>,
    cell: Cell,
)
    requires
        ExtCell::Partial(parts).resolves_given(context, awaited, Some(Ok(cell))),
    ensures
        exists|cells: Seq<Cell>, cuts: Seq<int>|
            #![trigger cells.len(), cuts.len()]
            {
                &&& parts.builds_given(context, awaited, cells, cuts, Some(Ok(cell)))
                &&& cells.len() == parts.refs@.len()
                &&& finalizes(context, parts.is_exotic, parts.data, cells, Ok(cell))
            },
{
    let (cells, cuts) = choose|cells: Seq<Cell>, cuts: Seq<int>|
        #![trigger cells.len(), cuts.len()]
        cuts.len() == cells.len() + 1 && parts.builds_given(
            context,
            awaited,
            cells,
            cuts,
            Some(Ok(cell)),
        );
    assert(cells.len() == parts.refs@.len() && cuts.len() == cells.len() + 1);
}

/// Whether the children that come first resolve to `cells`, one after the
/// other, the children up to `i` awaiting the first `cuts[i]` of `awaited`.
pub open spec fn children_resolve<C: CellContext + ?Sized>(
    refs: Seq<ExtCell>,
    context: &C,
    awaited: Seq<Result<ExtCell, Error>>,
    cells: Seq<Cell>,
    cuts: Seq<int>,
) -> bool {
    &&& cells.len() <= refs.len()
    &&& cuts.len() == cells.len() + 1
    &&& cuts[0] == 0
    &&& cuts[cells.len() as int] <= awaited.len()
    &&& forall|i: int| 0 <= i < cells.len() ==> 0 <= #[trigger] cuts[i] <= cuts[i + 1]
    &&& forall|i: int|
        0 <= i < cells.len() ==> (#[trigger] refs[i]).resolves_given(
            context,
            awaited.subrange(cuts[i], cuts[i + 1]),
            Some(Ok(cells[i])),
        )
}

/// A partial cell whose children all resolve, and are no more than a cell
/// holds, resolves to the context's answer for their cells, as it is.
pub proof fn lemma_children_resolve_the_parent<C: CellContext + ?Sized>(
    parts: Arc<ExtCellParts>,
    context: &C,
    awaited: Seq<Result<ExtCell, Error>>,
    cells: Seq<Cell>,
    cuts: Seq<int>,
    answer: Result<Cell, Error>,
)
    requires
        children_resolve(parts.refs@, context, awaited, cells, cuts),
        cells.len() == parts.refs@.len(),
        cells.len() <= MAX_REF_COUNT,
        cuts[cells.len() as int] == awaited.len(),
        finalizes(context, parts.is_exotic, parts.data, cells, answer),
    ensures
        ExtCell::Partial(parts).resolves_given(context, awaited, Some(answer)),
{
    lemma_cuts_rise(cuts, cells.len() as int);
    assert(parts.builds_given(context, awaited, cells, cuts, Some(answer)));
}

/// A partial cell fails as the first of its children that fails, when the
/// children before that one are no more than a cell holds.
pub proof fn lemma_failing_child_fails_the_parent<C: CellContext + ?Sized>(
    parts: Arc<ExtCellParts>,
    context: &C,
    awaited: Seq<Result<ExtCell, Error>>,
    cells: Seq<Cell>,
    cuts: Seq<int>,
    error: Error,
)
    requires
        children_resolve(parts.refs@, context, awaited, cells, cuts),
        cells.len() < parts.refs@.len(),
        cells.len() <= MAX_REF_COUNT,
        parts.refs@[cells.len() as int].resolves_given(
            context,
            awaited.subrange(cuts[cells.len() as int], awaited.len() as int),
            Some(Err(error)),
        ),
    ensures
        ExtCell::Partial(parts).resolves_given(context, awaited, Some(Err(error))),
{
    lemma_cuts_rise(cuts, cells.len() as int);
    assert(parts.builds_given(context, awaited, cells, cuts, Some(Err(error))));
}

/// A partial cell overflows once the first child too many has resolved.
pub proof fn lemma_child_too_many_overflows<C: CellContext + ?Sized>(
    parts: Arc<ExtCellParts>,
    context: &C,
    awaited: Seq<Result<ExtCell, Error>>,
    cells: Seq<Cell>,
    cuts: Seq<int>,
)
    requires
        children_resolve(parts.refs@, context, awaited, cells, cuts),
        cells.len() == MAX_REF_COUNT + 1,
        cuts[cells.len() as int] == awaited.len(),
    ensures
        ExtCell::Partial(parts).resolves_given(context, awaited, Some(Err(Error::CellOverflow))),
{
    lemma_cuts_rise(cuts, cells.len() as int);
    assert(parts.builds_given(context, awaited, cells, cuts, Some(Err(Error::CellOverflow))));
}

/// Cuts that rise step by step rise from any one to the last.
proof fn lemma_cuts_rise(cuts: Seq<int>, last: int)
    requires
        cuts.len() == last + 1,
        last >= 0,
        forall|i: int| 0 <= i < last ==> 0 <= #[trigger] cuts[i] <= cuts[i + 1],
        cuts[0] == 0,
    ensures
        forall|i: int| 0 <= i <= last ==> 0 <= #[trigger] cuts[i] <= cuts[last],
    decreases last,
{
    if last > 0 {
        lemma_cuts_rise(cuts.drop_last(), last - 1);
        assert forall|i: int| 0 <= i <= last implies 0 <= #[trigger] cuts[i] <= cuts[last] by {
            assert(cuts[last - 1] <= cuts[last - 1 + 1]);
            if i < last {
                assert(cuts.drop_last()[i] == cuts[i]);
                assert(cuts.drop_last()[last - 1] == cuts[last - 1]);
            }
        }
    }
}

/// The children of promise-free parts await nothing.
proof fn lemma_promise_free_children_await_nothing<C: CellContext + ?Sized>(
    parts: Arc<ExtCellParts>,
    context: &C,
    awaited: Seq<Result<ExtCell, Error>>,
    cells: Seq<Cell>,
    cuts: Seq<int>,
    out: Option<Result<Cell, Error>>,
    upto: int,
)
    requires
        forall|i: int| 0 <= i < parts.refs@.len() ==> (#[trigger] parts.refs@[i]).promise_free(),
        parts.builds_given(context, awaited, cells, cuts, out),
        0 <= upto <= cells.len(),
    ensures
        cuts[upto] == 0,
    decreases parts, upto,
{
    if upto > 0 {
        lemma_promise_free_children_await_nothing(
            parts,
            context,
            awaited,
            cells,
            cuts,
            out,
            upto - 1,
        );
        let child = parts.refs@[upto - 1];
        assert(0 <= cuts[upto - 1] <= cuts[upto - 1 + 1] <= awaited.len());
        lemma_promise_free_awaits_nothing(
            child,
            context,
            awaited.subrange(cuts[upto - 1], cuts[upto]),
            Some(Ok(cells[upto - 1])),
        );
    }
}

/// A cell without promises awaits nothing, and its resolution ends.
pub proof fn lemma_promise_free_awaits_nothing<C: CellContext + ?Sized>(
    cell: ExtCell,
    context: &C,
    awaited: Seq<Result<ExtCell, Error>>,
    out: Option<Result<Cell, Error>>,
)
    requires
        cell.promise_free(),
        cell.resolves_given(context, awaited, out),
    ensures
        awaited.len() == 0,
        out is Some,
    decreases cell, 0int,
{
    match cell {
        ExtCell::Ordinary(_) => {},
        ExtCell::Partial(parts) => {
            let (cells, cuts) = choose|cells: Seq<Cell>, cuts: Seq<int>|
                #![trigger cells.len(), cuts.len()]
                cuts.len() == cells.len() + 1 && parts.builds_given(
                    context,
                    awaited,
                    cells,
                    cuts,
                    out,
                );
            lemma_promise_free_children_await_nothing(
                parts,
                context,
                awaited,
                cells,
                cuts,
                out,
                cells.len() as int,
            );
            if cells.len() <= MAX_REF_COUNT && cells.len() < parts.refs@.len() {
                lemma_promise_free_awaits_nothing(
                    parts.refs@[cells.len() as int],
                    context,
                    awaited.subrange(0, awaited.len() as int),
                    out,
                );
            }
        },
        ExtCell::Deferred(_) => {},
    }
}

/// The cells of children that are all finalized, in their order.
pub open spec fn finalized_cells(refs: Seq<ExtCell>) -> Seq<Cell> {
    refs.map_values(|child: ExtCell| child->Ordinary_0)
}

/// A partial cell whose children are all finalized, and no more than a cell
/// holds, resolves to the context's answer for exactly these children, and
/// to nothing else.
pub proof fn lemma_finalized_children_leave_it_to_the_context<C: CellContext + ?Sized>(
    parts: Arc<ExtCellParts>,
    context: &C,
    out: Result<Cell, Error>,
)
    requires
        parts.refs@.len() <= MAX_REF_COUNT,
        forall|i: int| 0 <= i < parts.refs@.len() ==> (#[trigger] parts.refs@[i]) is Ordinary,
    ensures
        ExtCell::Partial(parts).resolves_to(context, out) <==> finalizes(
            context,
            parts.is_exotic,
            parts.data,
            finalized_cells(parts.refs@),
            out,
        ),
{
    let finalized = finalized_cells(parts.refs@);
    let nothing = Seq::<Result<ExtCell, Error>>::empty();
    if ExtCell::Partial(parts).resolves_to(context, out) {
        let (cells, cuts) = choose|cells: Seq<Cell>, cuts: Seq<int>|
            #![trigger cells.len(), cuts.len()]
            cuts.len() == cells.len() + 1 && parts.builds_given(
                context,
                nothing,
                cells,
                cuts,
                Some(out),
            );
        assert forall|i: int| 0 <= i < cells.len() implies cells[i] == finalized[i] by {
            assert(0 <= cuts[i] <= cuts[i + 1] <= nothing.len());
            assert(parts.refs@[i].resolves_given(
                context,
                nothing.subrange(cuts[i], cuts[i + 1]),
                Some(Ok(cells[i])),
            ));
        }
        assert(cells == finalized);
    }
    assert(finalizes(context, parts.is_exotic, parts.data, finalized, out) ==> ExtCell::Partial(
        parts,
    ).resolves_to(context, out)) by {
        let cuts = Seq::new(finalized.len() + 1, |i: int| 0int);
        assert(nothing.subrange(0, 0) == nothing);
        assert(children_resolve(parts.refs@, context, nothing, finalized, cuts));
        if finalizes(context, parts.is_exotic, parts.data, finalized, out) {
            lemma_children_resolve_the_parent(parts, context, nothing, finalized, cuts, out);
        }
    }
}

/// A partial cell whose first children are finalized, and one more than a
/// cell holds, overflows, and does nothing else.
pub proof fn lemma_too_many_finalized_children_overflow<C: CellContext + ?Sized>(
    parts: Arc<ExtCellParts>,
    context: &C,
    out: Result<Cell, Error>,
)
    requires
        parts.refs@.len() > MAX_REF_COUNT,
        forall|i: int| 0 <= i <= MAX_REF_COUNT ==> (#[trigger] parts.refs@[i]) is Ordinary,
    ensures
        ExtCell::Partial(parts).resolves_to(context, out) <==> out == Err::<Cell, Error>(
            Error::CellOverflow,
        ),
{
    let nothing = Seq::<Result<ExtCell, Error>>::empty();
    if ExtCell::Partial(parts).resolves_to(context, out) {
        let (cells, cuts) = choose|cells: Seq<Cell>, cuts: Seq<int>|
            #![trigger cells.len(), cuts.len()]
            cuts.len() == cells.len() + 1 && parts.builds_given(
                context,
                nothing,
                cells,
                cuts,
                Some(out),
            );
        if cells.len() <= MAX_REF_COUNT {
            assert(parts.refs@[cells.len() as int] is Ordinary);
        }
    }
    if out == Err::<Cell, Error>(Error::CellOverflow) {
        let first = finalized_cells(parts.refs@.subrange(0, MAX_REF_COUNT + 1));
        let cuts = Seq::new(first.len() + 1, |i: int| 0int);
        assert(nothing.subrange(0, 0) == nothing);
        assert forall|i: int| 0 <= i < first.len() implies (#[trigger] parts.refs@[i])
            .resolves_given(
            context,
            nothing.subrange(cuts[i], cuts[i + 1]),
            Some(Ok(first[i])),
        ) by {
            assert(parts.refs@.subrange(0, MAX_REF_COUNT + 1)[i] == parts.refs@[i]);
        }
        assert(children_resolve(parts.refs@, context, nothing, first, cuts));
        lemma_child_too_many_overflows(parts, context, nothing, first, cuts);
    }
}

/// Whether `context` has one answer to each request.
pub open spec fn single_valued<C: CellContext + ?Sized>(context: &C) -> bool {
    forall|
        is_exotic: bool,
        data: CellDataBuilder,
        refs: Seq<Cell>,
        first: Result<Cell, Error>,
        second: Result<Cell, Error>,
    |
        #![trigger
            finalizes(context, is_exotic, data, refs, first),
            finalizes(context, is_exotic, data, refs, second),
        ]
        finalizes(context, is_exotic, data, refs, first) && finalizes(
            context,
            is_exotic,
            data,
            refs,
            second,
        ) ==> first == second
}

/// Whether two sequences of awaited values hold the same value wherever
/// both hold one.
pub open spec fn agree(
    first: Seq<Result<ExtCell, Error>>,
    second: Seq<Result<ExtCell, Error>>,
) -> bool {
    forall|i: int| 0 <= i < first.len() && i < second.len() ==> first[i] == second[i]
}

/// Two resolutions of the same parts, in which the waits return the same
/// values, resolve the children that both get to alike.
proof fn lemma_same_children<C: CellContext + ?Sized>(
    parts: Arc<ExtCellParts>,
    context: &C,
    first: Seq<Result<ExtCell, Error>>,
    cells1: Seq<Cell>,
    cuts1: Seq<int>,
    out1: Option<Result<Cell, Error>>,
    second: Seq<Result<ExtCell, Error>>,
    cells2: Seq<Cell>,
    cuts2: Seq<int>,
    out2: Option<Result<Cell, Error>>,
    upto: int,
)
    requires
        single_valued(context),
        agree(first, second),
        parts.builds_given(context, first, cells1, cuts1, out1),
        parts.builds_given(context, second, cells2, cuts2, out2),
        0 <= upto <= cells1.len(),
        upto <= cells2.len(),
    ensures
        cuts1[upto] == cuts2[upto],
        forall|i: int| 0 <= i < upto ==> cells1[i] == cells2[i],
    decreases first.len() + second.len(), parts, upto,
{
    if upto > 0 {
        let i = upto - 1;
        lemma_same_children(
            parts,
            context,
            first,
            cells1,
            cuts1,
            out1,
            second,
            cells2,
            cuts2,
            out2,
            i,
        );
        assert(0 <= cuts1[i] <= cuts1[i + 1] <= first.len());
        assert(0 <= cuts2[i] <= cuts2[i + 1] <= second.len());
        let s1 = first.subrange(cuts1[i], cuts1[i + 1]);
        let s2 = second.subrange(cuts2[i], cuts2[i + 1]);
        let child = parts.refs@[i];
        assert(child.resolves_given(context, s1, Some(Ok(cells1[i]))));
        assert(child.resolves_given(context, s2, Some(Ok(cells2[i]))));
        assert(agree(s1, s2));
        lemma_one_outcome(child, context, s1, Some(Ok(cells1[i])), s2, Some(Ok(cells2[i])));
        assert(s1.len() == s2.len());
    }
}

/// A cell has one outcome when the context has one answer to each request
/// and each wait one value: two resolutions that end, and in which the waits
/// return the same values, await equally many and end alike.
pub proof fn lemma_one_outcome<C: CellContext + ?Sized>(
    cell: ExtCell,
    context: &C,
    first: Seq<Result<ExtCell, Error>>,
    out1: Option<Result<Cell, Error>>,
    second: Seq<Result<ExtCell, Error>>,
    out2: Option<Result<Cell, Error>>,
)
    requires
        single_valued(context),
        agree(first, second),
        cell.resolves_given(context, first, out1),
        cell.resolves_given(context, second, out2),
        out1 is Some,
        out2 is Some,
    ensures
        first == second,
        out1 == out2,
    decreases first.len() + second.len(), cell, 0int,
{
    match cell {
        ExtCell::Ordinary(_) => {
            assert(first == second);
        },
        ExtCell::Deferred(_) => {
            assert(first[0] == second[0]);
            match first[0] {
                Ok(next) => {
                    let rest1 = first.skip(1);
                    let rest2 = second.skip(1);
                    assert(agree(rest1, rest2)) by {
                        assert forall|i: int|
                            0 <= i < rest1.len() && i < rest2.len() implies rest1[i] == rest2[i] by {
                            assert(first[i + 1] == second[i + 1]);
                        }
                    }
                    lemma_one_outcome(next, context, rest1, out1, rest2, out2);
                    assert(first.len() == second.len()) by {
                        assert(rest1.len() == rest2.len());
                    }
                    assert(first == second);
                },
                Err(_) => {
                    assert(first == second);
                },
            }
        },
        ExtCell::Partial(parts) => {
            let (cells1, cuts1) = choose|cells: Seq<Cell>, cuts: Seq<int>|
                #![trigger cells.len(), cuts.len()]
                cuts.len() == cells.len() + 1 && parts.builds_given(
                    context,
                    first,
                    cells,
                    cuts,
                    out1,
                );
            let (cells2, cuts2) = choose|cells: Seq<Cell>, cuts: Seq<int>|
                #![trigger cells.len(), cuts.len()]
                cuts.len() == cells.len() + 1 && parts.builds_given(
                    context,
                    second,
                    cells,
                    cuts,
                    out2,
                );
            let k1 = cells1.len() as int;
            let k2 = cells2.len() as int;
            let both = if k1 <= k2 {
                k1
            } else {
                k2
            };
            lemma_same_children(
                parts,
                context,
                first,
                cells1,
                cuts1,
                out1,
                second,
                cells2,
                cuts2,
                out2,
                both,
            );
            let child = parts.refs@[both];
            if k1 < k2 {
                assert(0 <= cuts2[k1] <= cuts2[k1 + 1] <= second.len());
                let t1 = first.subrange(cuts1[k1], first.len() as int);
                let s2 = second.subrange(cuts2[k1], cuts2[k1 + 1]);
                assert(child.resolves_given(context, s2, Some(Ok(cells2[k1]))));
                assert(agree(t1, s2));
                lemma_one_outcome(child, context, t1, out1, s2, Some(Ok(cells2[k1])));
            } else if k2 < k1 {
                assert(0 <= cuts1[k2] <= cuts1[k2 + 1] <= first.len());
                let s1 = first.subrange(cuts1[k2], cuts1[k2 + 1]);
                let t2 = second.subrange(cuts2[k2], second.len() as int);
                assert(child.resolves_given(context, s1, Some(Ok(cells1[k2]))));
                assert(agree(s1, t2));
                lemma_one_outcome(child, context, s1, Some(Ok(cells1[k2])), t2, out2);
            } else if k1 <= MAX_REF_COUNT && k1 < parts.refs@.len() {
                let t1 = first.subrange(cuts1[k1], first.len() as int);
                let t2 = second.subrange(cuts2[k1], second.len() as int);
                assert(agree(t1, t2));
                lemma_one_outcome(child, context, t1, out1, t2, out2);
                assert(t1.len() == t2.len());
                assert(first == second);
            } else {
                assert(first == second);
                assert(cells1 == cells2);
            }
        },
    }
}

} // verus!
