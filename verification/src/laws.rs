//! What holds of every configuration, whatever the user does.

use vstd::prelude::*;

use crate::candidates::{chosen, rebased, x_candidates};
use crate::catalog::Entry;
use crate::field::Slot;
use crate::menu::MenuModel;
use crate::engine::CurveModel;
use crate::model::{is_composite, rebased_slot, GraphModel};

verus! {

/// One move of the selection: so many slots, forward or back.
pub struct Move {
    pub step: nat,
    pub forward: bool,
}

/// The configuration after a sequence of moves of the selection.
pub open spec fn after_moves(start: GraphModel, moves: Seq<Move>) -> GraphModel
    decreases moves.len(),
{
    if moves.len() == 0 {
        start
    } else {
        after_moves(start, moves.drop_last()).moved(moves.last().step as int, moves.last().forward)
    }
}

/// However the selection is moved, forward and back and by whatever steps,
/// it stays a selection and never comes to stand on a hidden slot.
pub proof fn lemma_selection_never_hidden(start: GraphModel, moves: Seq<Move>)
    requires
        start.wf(),
        start.selected is Some,
    ensures
        after_moves(start, moves).wf(),
        after_moves(start, moves).selected is Some,
        !(after_moves(start, moves).current() is Hidden),
    decreases moves.len(),
{
    if moves.len() > 0 {
        lemma_selection_never_hidden(start, moves.drop_last());
        after_moves(start, moves.drop_last()).lemma_moved(
            moves.last().step as int,
            moves.last().forward,
        );
    }
}

/// A choice that is carried over to a new list points at the first place of
/// its entry in the new list where the new list holds that entry, and is
/// dropped where it does not.
pub proof fn lemma_rebasing(old_list: Seq<Seq<char>>, new_list: Seq<Seq<char>>, choice: usize)
    requires
        choice < old_list.len(),
        new_list.len() <= usize::MAX,
    ensures
        new_list.contains(old_list[choice as int]) ==> rebased(old_list, new_list, Some(choice))
            is Some && new_list.index_of_first(old_list[choice as int]) == Some(
            rebased(old_list, new_list, Some(choice))->0 as int,
        ) && new_list[rebased(old_list, new_list, Some(choice))->0 as int]
            == old_list[choice as int],
        !new_list.contains(old_list[choice as int]) ==> rebased(old_list, new_list, Some(choice))
            is None,
{
    new_list.index_of_first_ensures(old_list[choice as int]);
}

/// When the catalog is replaced, the data choice of X and of every curve is
/// carried over to the list that was made anew.
pub proof fn lemma_refresh_rebases(start: GraphModel, fields: Seq<Entry>, serials: Seq<Entry>)
    requires
        start.wf(),
    ensures
        start.refreshed(fields, serials).wf(),
        start.refreshed(fields, serials).x_fields == x_candidates(fields),
        start.refreshed(fields, serials).x[0] == rebased_slot(
            start.x[0],
            start.x_fields,
            x_candidates(fields),
        ),
        start.refreshed(fields, serials).ys.len() == start.ys.len(),
        forall|k: int|
            0 <= k < start.ys.len() ==> (#[trigger] start.refreshed(fields, serials).ys[k])[0]
                == rebased_slot(
                start.ys[k][0],
                start.y_fields,
                start.refreshed(fields, serials).y_fields,
            ),
{
    start.lemma_refreshed(fields, serials);
}

/// Running the cascade for a slot a second time, with nothing done in
/// between, changes nothing: one pass reaches the fixed point.
pub proof fn lemma_cascade_idempotent(start: GraphModel, index: int)
    requires
        start.wf(),
    ensures
        start.cascaded(index).wf(),
        start.cascaded(index).cascaded(index) == start.cascaded(index),
{
    if index == 0 {
        start.lemma_after_x_commit();
    } else if index % 4 == 0 && 0 < index < start.total() {
        start.lemma_after_y_commit(index / 4 - 1);
    }
}

/// A menu that is committed and opened again shows the committed line
/// highlighted.
pub proof fn lemma_commit_then_reopen(start: GraphModel, line: usize)
    requires
        start.wf(),
        start.selected is Some,
        start.current() matches Slot::Menu(m) && m.highlighted == Some(line),
        line < start.candidates(start.selected->0 as int).len(),
    ensures
        start.committed().wf(),
        start.committed().selected == start.selected,
        start.committed().opened().current() == Slot::Menu(
            MenuModel { selected: Some(line), highlighted: Some(line) },
        ),
        chosen(
            start.committed().candidates(start.selected->0 as int),
            start.committed().current().choice(),
        ) == Some(start.candidates(start.selected->0 as int)[line as int]),
{
    start.lemma_committed();
    let i = start.selected->0 as int;
    let m = start.current()->Menu_0;
    let mid = GraphModel { was_edited: true, ..start.with_slot(i, Slot::Menu(m.committed())) };
    let r = i / 4;
    if r > 0 {
        assert(start.y_row_wf(start.ys[r - 1]));
    }
    let out = start.committed();
    assert(out == mid.cascaded(i));
    let shown = Slot::Menu(m.committed());
    if i % 4 != 0 {
        assert(out == mid);
        assert(out.slot(i) == shown);
    } else if i == 0 {
        assert(out.slot(i) == shown);
    } else {
        assert(out.slot(i) == shown);
    }
    assert(out.selected == start.selected);
    out.lemma_rows();
    out.lemma_with_slot(i, shown.opened());
}

/// A curve that is planned as a derived one has chosen the derived field:
/// the formula to apply is never in doubt.
pub proof fn lemma_composite_is_known(
    start: GraphModel,
    k: int,
    x_field: Seq<char>,
    x_serial: Option<Seq<char>>,
    range: Seq<char>,
)
    requires
        start.wf(),
        0 <= k < start.ys.len(),
        start.curve_planned(start.ys[k], x_field, x_serial, range) matches CurveModel::Query {
            composite,
            ..
        } && composite,
    ensures
        is_composite(start.y_value(start.ys[k])),
{
    assert(start.y_row_wf(start.ys[k]));
}

/// Removing the last curve of a plot with a single curve changes nothing.
pub proof fn lemma_single_curve_stays(start: GraphModel)
    requires
        start.wf(),
        start.ys.len() == 1,
    ensures
        start.without_curve() == start,
        start.without_curve().ys.len() == 1,
{
}

} // verus!
