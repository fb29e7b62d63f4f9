//! Walking a notmuch cursor (of threads, messages or tags): the decisions
//! between the calls that ask the cursor whether it is valid, fetch its
//! current item, and move it on.
use vstd::prelude::*;

verus! {

/// What the cursor reported.
#[derive(Debug, Clone, Copy, PartialEq, Eq, Structural)]
pub enum CursorEvent {
    /// The answer to "is the cursor at a valid item?".
    Validity(bool),
    /// The address of the current item (0 for a null pointer).
    Current(usize),
}

/// What the walk does next.
#[derive(Debug, Clone, Copy, PartialEq, Eq, Structural)]
pub enum CursorAction {
    /// Fetch the current item.
    FetchCurrent,
    /// Move the cursor on, then hand out the item at this address.
    AdvanceAndYield(usize),
    /// Hand out nothing; the cursor is left where it is.
    Finish,
}

/// The walk's decision on each report: a valid cursor has its current item
/// fetched; an invalid one, or a null current item, ends the walk without
/// moving the cursor; a non-null item is handed out after the cursor moves on.
pub open spec fn cursor_action(event: CursorEvent) -> CursorAction {
    match event {
        CursorEvent::Validity(true) => CursorAction::FetchCurrent,
        CursorEvent::Validity(false) => CursorAction::Finish,
        CursorEvent::Current(0) => CursorAction::Finish,
        CursorEvent::Current(item) => CursorAction::AdvanceAndYield(item),
    }
}

/// Decides what the walk does after the cursor reported `event`.
pub fn cursor_step(event: CursorEvent) -> (action: CursorAction)
    ensures
        action == cursor_action(event),
{
    match event {
        CursorEvent::Validity(valid) => if valid {
            CursorAction::FetchCurrent
        } else {
            CursorAction::Finish
        },
        CursorEvent::Current(item) => if item == 0 {
            CursorAction::Finish
        } else {
            CursorAction::AdvanceAndYield(item)
        },
    }
}

/// One request for the next item of a cursor that will present `slots` in
/// order (0 for a null item) and stands at `pos`, valid while `pos` is inside
/// `slots`: the item handed out, if any, and the cursor's new position.
pub open spec fn next_item(slots: Seq<usize>, pos: nat) -> (Option<usize>, nat) {
    match cursor_action(CursorEvent::Validity(pos < slots.len())) {
        CursorAction::FetchCurrent => match cursor_action(CursorEvent::Current(slots[pos as int])) {
            CursorAction::AdvanceAndYield(item) => (Some(item), pos + 1),
            _ => (None, pos),
        },
        _ => (None, pos),
    }
}

/// The items handed out by `steps` requests, starting at `pos`.
pub open spec fn walk(slots: Seq<usize>, pos: nat, steps: nat) -> Seq<usize>
    decreases steps,
{
    if steps == 0 {
        Seq::empty()
    } else {
        match next_item(slots, pos).0 {
            Some(item) => seq![item] + walk(slots, next_item(slots, pos).1, (steps - 1) as nat),
            None => Seq::empty(),
        }
    }
}

/// The length of the run of non-null items at the front of `slots`.
pub open spec fn leading_items(slots: Seq<usize>) -> nat
    decreases slots.len(),
{
    if slots.len() == 0 || slots[0] == 0 {
        0
    } else {
        1 + leading_items(slots.drop_first())
    }
}

/// Once a request hands out nothing, the cursor has not moved, so every later
/// request hands out nothing too.
pub proof fn lemma_finished_walk_stays_finished(slots: Seq<usize>, pos: nat)
    ensures
        next_item(slots, pos).0 is None ==> next_item(slots, pos).1 == pos,
        next_item(slots, pos).0 is Some ==> next_item(slots, pos).1 == pos + 1,
{
}

/// Walking a cursor from its start hands out exactly the items before its
/// first null item (all of them when there is none), in order; requests past
/// that hand out nothing more.
pub proof fn lemma_walk_yields_leading_items(slots: Seq<usize>, steps: nat)
    ensures
        walk(slots, 0, steps) == slots.take(
            if steps < leading_items(slots) { steps as int } else { leading_items(slots) as int },
        ),
{
    lemma_walk_from(slots, 0, steps);
}

proof fn lemma_leading_items_bound(slots: Seq<usize>)
    ensures
        leading_items(slots) <= slots.len(),
        forall|i: int| 0 <= i < leading_items(slots) ==> slots[i] != 0,
        leading_items(slots) < slots.len() ==> slots[leading_items(slots) as int] == 0,
    decreases slots.len(),
{
    if slots.len() > 0 && slots[0] != 0 {
        let rest = slots.drop_first();
        lemma_leading_items_bound(rest);
        assert forall|i: int| 0 <= i < leading_items(slots) implies slots[i] != 0 by {
            if i > 0 {
                assert(slots[i] == rest[i - 1]);
            }
        }
    }
}

proof fn lemma_walk_from(slots: Seq<usize>, pos: nat, steps: nat)
    requires
        pos <= leading_items(slots),
    ensures
        walk(slots, pos, steps) == slots.subrange(
            pos as int,
            if pos + steps < leading_items(slots) { (pos + steps) as int } else { leading_items(slots) as int },
        ),
    decreases steps,
{
    lemma_leading_items_bound(slots);
    let lead = leading_items(slots);
    if steps == 0 {
        assert(slots.subrange(pos as int, pos as int) =~= Seq::<usize>::empty());
    } else if pos == lead {
        assert(next_item(slots, pos).0 is None);
        assert(slots.subrange(pos as int, pos as int) =~= Seq::<usize>::empty());
    } else {
        assert(slots[pos as int] != 0);
        assert(next_item(slots, pos) == (Some(slots[pos as int]), pos + 1));
        lemma_walk_from(slots, pos + 1, (steps - 1) as nat);
        let end = if pos + steps < lead { (pos + steps) as int } else { lead as int };
        assert(slots.subrange(pos as int, end) =~= seq![slots[pos as int]] + slots.subrange(
            pos + 1 as int,
            end,
        ));
    }
}

} // verus!
