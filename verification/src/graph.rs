//! The state of one plot tab: the catalog snapshot, the candidate lists, the
//! slots of the X row and of every curve, and the selection.

use vstd::arithmetic::div_mod::{lemma_mod_bound, lemma_small_mod};
use vstd::prelude::*;

use crate::candidates::{
    build_x_fields, build_y_fields, chosen, composite_entry, qualified_entry, raw_fields, rebase,
    sensor_name, x_candidates, y_candidates,
};
use crate::catalog::{Entry, SensorLists};
use crate::field::{GraphFieldState, Slot};
use crate::input::{InputEdit, InputState};
use crate::keys::{Key, Mode, TabAction};
use crate::menu::{lemma_cyclic_steps, MenuState};
use crate::model::{
    default_row, raw_list, rebased_slot, serial_list, y_row_after_commit, y_row_after_x,
    y_row_refreshed, GraphModel,
};
use crate::text::{copy_texts, texts};

verus! {

/// The four slots of a row, as the contracts see them.
pub open spec fn row_view(row: [GraphFieldState; 4]) -> Seq<Slot> {
    seq![row[0]@, row[1]@, row[2]@, row[3]@]
}

/// The rows of all curves, as the contracts see them.
pub open spec fn rows_view(rows: Seq<[GraphFieldState; 4]>) -> Seq<Seq<Slot>> {
    Seq::new(rows.len(), |k: int| row_view(rows[k]))
}

/// The view of a string that may be missing.
pub open spec fn text_of(value: Option<&str>) -> Option<Seq<char>> {
    match value {
        Some(v) => Some(v@),
        None => None,
    }
}

/// The serial numbers that `serials` lists for the sensor of `value`.
pub fn serial_candidates(serials: &SensorLists, value: Option<&str>) -> (out: Vec<String>)
    ensures
        texts(out@) == serial_list(serials@, text_of(value)),
{
    let known: Option<&Vec<String>> = match value {
        Some(v) => {
            if qualified_entry(v) {
                let sensor = sensor_name(v);
                serials.get(sensor.as_str())
            } else {
                None
            }
        },
        None => None,
    };
    match known {
        Some(list) => copy_texts(list),
        None => {
            let out: Vec<String> = Vec::new();
            assert(texts(out@) =~= Seq::<Seq<char>>::empty());
            out
        },
    }
}

/// The measured fields that `fields` lists for the sensor of `value`, as
/// menu entries.
pub fn raw_candidates(fields: &SensorLists, value: Option<&str>) -> (out: Vec<String>)
    ensures
        texts(out@) == raw_list(fields@, text_of(value)),
{
    let sensor: Option<String> = match value {
        Some(v) => {
            if qualified_entry(v) {
                Some(sensor_name(v))
            } else {
                None
            }
        },
        None => None,
    };
    match sensor {
        Some(sensor) => raw_fields(fields, sensor.as_str()),
        None => {
            let out: Vec<String> = Vec::new();
            assert(texts(out@) =~= Seq::<Seq<char>>::empty());
            out
        },
    }
}

/// Carries the choice of a menu slot over from `old_list` to `new_list`;
/// any other slot stays as it is.
pub fn rebase_slot(slot: &mut GraphFieldState, old_list: &Vec<String>, new_list: &Vec<String>)
    ensures
        final(slot)@ == rebased_slot(old(slot)@, texts(old_list@), texts(new_list@)),
{
    match slot {
        GraphFieldState::Menu(menu) => {
            let carried = rebase(old_list, new_list, menu.selected());
            menu.set_select(carried);
        },
        _ => {},
    }
}

/// The configuration of a plot that was just opened over a catalog: nothing
/// chosen, one curve, no selection.
pub open spec fn initial(fields: Seq<Entry>, serials: Seq<Entry>) -> GraphModel {
    GraphModel {
        fields,
        serials,
        x_fields: x_candidates(fields),
        y_fields: y_candidates(x_candidates(fields), None),
        x: default_row(),
        ys: seq![default_row()],
        was_edited: false,
        selected: None,
    }
}

/// State of one plot tab. Every state that this type hands out meets
/// [`GraphModel::wf`], and every method keeps it so.
#[derive(Debug)]
pub struct GraphState {
    sensor_fields: SensorLists,
    serial_fields: SensorLists,
    x_data_fields: Vec<String>,
    y_data_fields: Vec<String>,
    x_states: [GraphFieldState; 4],
    ys_states: Vec<[GraphFieldState; 4]>,
    was_edited: bool,
    selected: Option<usize>,
}

impl View for GraphState {
    type V = GraphModel;

    closed spec fn view(&self) -> GraphModel {
        GraphModel {
            fields: self.sensor_fields@,
            serials: self.serial_fields@,
            x_fields: texts(self.x_data_fields@),
            y_fields: texts(self.y_data_fields@),
            x: row_view(self.x_states),
            ys: rows_view(self.ys_states@),
            was_edited: self.was_edited,
            selected: self.selected,
        }
    }
}

impl GraphState {
    /// The invariant of the state.
    pub open spec fn wf(&self) -> bool {
        self@.wf()
    }

    /// The slots of a row without choices: a closed, empty data menu and
    /// three hidden slots.
    pub fn default_graph() -> (r: [GraphFieldState; 4])
        ensures
            row_view(r) == default_row(),
    {
        let r = [
            GraphFieldState::new_menu(),
            GraphFieldState::Hidden,
            GraphFieldState::Hidden,
            GraphFieldState::Hidden,
        ];
        assert(row_view(r) =~= default_row());
        r
    }

    /// The state of a plot tab that was just opened over the catalog.
    pub fn new(sensor_fields: &SensorLists, sensor_serials: &SensorLists) -> (r: Self)
        ensures
            r@ == initial(sensor_fields@, sensor_serials@),
            r.wf(),
    {
        let x_data_fields = build_x_fields(sensor_fields);
        let y_data_fields = build_y_fields(&x_data_fields, None);
        let mut ys_states: Vec<[GraphFieldState; 4]> = Vec::new();
        ys_states.push(Self::default_graph());
        let r = GraphState {
            sensor_fields: sensor_fields.clone(),
            serial_fields: sensor_serials.clone(),
            x_data_fields,
            y_data_fields,
            x_states: Self::default_graph(),
            ys_states,
            was_edited: false,
            selected: None,
        };
        proof {
            assert(r@.ys =~= seq![default_row()]);
            assert(r@ == initial(sensor_fields@, sensor_serials@));
            assert(r@.y_row_wf(r@.ys[0]));
        }
        r
    }

    /// The catalog of fields that the lists were made from.
    pub fn sensor_fields(&self) -> (r: &SensorLists)
        ensures
            r@ == self@.fields,
    {
        &self.sensor_fields
    }

    /// The catalog of serial numbers that the serial menus show.
    pub fn serial_fields(&self) -> (r: &SensorLists)
        ensures
            r@ == self@.serials,
    {
        &self.serial_fields
    }

    /// The candidate list of the X data slot.
    pub fn x_data_fields(&self) -> (r: &Vec<String>)
        ensures
            texts(r@) == self@.x_fields,
    {
        &self.x_data_fields
    }

    /// The candidate list of the Y data slots.
    pub fn y_data_fields(&self) -> (r: &Vec<String>)
        ensures
            texts(r@) == self@.y_fields,
    {
        &self.y_data_fields
    }

    /// The slots of the X row.
    pub fn x_states(&self) -> (r: &[GraphFieldState; 4])
        ensures
            row_view(*r) == self@.x,
    {
        &self.x_states
    }

    /// The slots of every curve.
    pub fn ys_states(&self) -> (r: &Vec<[GraphFieldState; 4]>)
        ensures
            rows_view(r@) == self@.ys,
    {
        &self.ys_states
    }

    /// Whether something was committed since the datasets were last planned.
    pub fn was_edited(&self) -> (r: bool)
        ensures
            r == self@.was_edited,
    {
        self.was_edited
    }

    /// Flat index of the slot that the user stands on, while editing.
    pub fn selected(&self) -> (r: Option<usize>)
        ensures
            r == self@.selected,
    {
        self.selected
    }

    /// Number of slots, hidden ones included.
    pub fn slot_count(&self) -> (r: usize)
        requires
            self.wf(),
        ensures
            r == self@.total(),
    {
        (self.ys_states.len() + 1) * 4
    }

    /// The slot at flat index `index`.
    pub fn field_state(&self, index: usize) -> (r: &GraphFieldState)
        requires
            self.wf(),
            index < self@.total(),
        ensures
            r@ == self@.slot(index as int),
    {
        if index < 4 {
            &self.x_states[index]
        } else {
            let row = &self.ys_states[index / 4 - 1];
            assert(self@.ys[index / 4 - 1] == row_view(*row));
            &row[index % 4]
        }
    }

    /// The slot that the user stands on.
    pub fn selected_field_state(&self) -> (r: &GraphFieldState)
        requires
            self.wf(),
            self@.selected is Some,
        ensures
            r@ == self@.slot(self@.selected->0 as int),
            !(r@ is Hidden),
    {
        match self.selected {
            Some(i) => self.field_state(i),
            None => self.field_state(0),
        }
    }

    /// The input that the user stands on.
    pub fn selected_input_state(&self) -> (r: &InputState)
        requires
            self.wf(),
            self@.current() is Input,
        ensures
            self@.current() == Slot::Input(r@),
    {
        match self.selected {
            Some(i) => match self.field_state(i) {
                GraphFieldState::Input(input) => input,
                _ => vstd::pervasive::unreached(),
            },
            None => vstd::pervasive::unreached(),
        }
    }

    /// The menu that the user stands on.
    pub fn selected_menu_state(&self) -> (r: &MenuState)
        requires
            self.wf(),
            self@.current() is Menu,
        ensures
            self@.current() == Slot::Menu(r@),
    {
        match self.selected {
            Some(i) => match self.field_state(i) {
                GraphFieldState::Menu(menu) => menu,
                _ => vstd::pervasive::unreached(),
            },
            None => vstd::pervasive::unreached(),
        }
    }

    /// Moves the selection `step` slots on, and from there on to the first
    /// slot that is shown. Without a selection nothing moves.
    pub fn select_next(&mut self, step: usize)
        requires
            old(self).wf(),
        ensures
            final(self)@ == old(self)@.moved(step as int, true),
            final(self).wf(),
            old(self)@.selected is Some ==> final(self)@.selected is Some && !(final(self)@.slot(
                final(self)@.selected->0 as int,
            ) is Hidden),
    {
        proof {
            self@.lemma_moved(step as int, true);
            self@.lemma_rows();
        }
        if let Some(i) = self.selected {
            let total = self.slot_count();
            let rest: usize = step % total;
            let start: usize = if rest >= total - i {
                rest - (total - i)
            } else {
                i + rest
            };
            proof {
                lemma_reduced_sum(i as int, step as int, total as int, true);
            }
            let mut at: usize = start;
            let ghost mut fuel: nat = total as nat;
            while self.hidden_at(at)
                invariant
                    self.wf(),
                    self@.rows_wf(),
                    self@ == old(self)@,
                    total == self@.total(),
                    at < total,
                    fuel >= GraphModel::distance(at as int, true),
                    self@.seek(start as int, true, total as nat) == self@.seek(
                        at as int,
                        true,
                        fuel,
                    ),
                decreases fuel,
            {
                proof {
                    lemma_cyclic_steps(at as int, total as int);
                    lemma_small_mod(at as nat, total as nat);
                    if at % 4 == 0 && at / 4 > 0 {
                        assert(self@.ys[at / 4 - 1][0] is Menu);
                    }
                    fuel = (fuel - 1) as nat;
                }
                at = if at + 1 == total {
                    0
                } else {
                    at + 1
                };
            }
            self.selected = Some(at);
        }
    }

    /// Moves the selection `step` slots back, and from there back to the
    /// first slot that is shown. Without a selection nothing moves.
    pub fn select_prev(&mut self, step: usize)
        requires
            old(self).wf(),
        ensures
            final(self)@ == old(self)@.moved(step as int, false),
            final(self).wf(),
            old(self)@.selected is Some ==> final(self)@.selected is Some && !(final(self)@.slot(
                final(self)@.selected->0 as int,
            ) is Hidden),
    {
        proof {
            self@.lemma_moved(step as int, false);
            self@.lemma_rows();
        }
        if let Some(i) = self.selected {
            let total = self.slot_count();
            let rest: usize = step % total;
            let start: usize = if rest <= i {
                i - rest
            } else {
                i + (total - rest)
            };
            proof {
                lemma_reduced_sum(i as int, step as int, total as int, false);
            }
            let mut at: usize = start;
            let ghost mut fuel: nat = total as nat;
            while self.hidden_at(at)
                invariant
                    self.wf(),
                    self@.rows_wf(),
                    self@ == old(self)@,
                    total == self@.total(),
                    at < total,
                    fuel >= GraphModel::distance(at as int, false),
                    self@.seek(start as int, false, total as nat) == self@.seek(
                        at as int,
                        false,
                        fuel,
                    ),
                decreases fuel,
            {
                proof {
                    lemma_cyclic_steps(at as int, total as int);
                    lemma_small_mod(at as nat, total as nat);
                    if at % 4 == 0 && at / 4 > 0 {
                        assert(self@.ys[at / 4 - 1][0] is Menu);
                    }
                    fuel = (fuel - 1) as nat;
                }
                at = if at == 0 {
                    total - 1
                } else {
                    at - 1
                };
            }
            self.selected = Some(at);
        }
    }

    /// Whether the slot at `index` is hidden.
    fn hidden_at(&self, index: usize) -> (r: bool)
        requires
            self.wf(),
            index < self@.total(),
        ensures
            r == self@.slot(index as int) is Hidden,
    {
        match self.field_state(index) {
            GraphFieldState::Hidden => true,
            _ => false,
        }
    }

    /// Adds a curve with nothing chosen behind the last one.
    pub fn add_curve(&mut self)
        requires
            old(self).wf(),
        ensures
            final(self)@ == old(self)@.with_curve(),
            final(self).wf(),
    {
        proof {
            self@.lemma_with_curve();
        }
        if self.ys_states.len() < usize::MAX / 4 - 1 {
            self.ys_states.push(Self::default_graph());
            assert(self@.ys =~= old(self)@.ys.push(default_row()));
        }
    }

    /// Removes the last curve, unless it is the only one. A selection that
    /// stood on it moves to the data slot of the curve before it.
    pub fn remove_curve(&mut self)
        requires
            old(self).wf(),
        ensures
            final(self)@ == old(self)@.without_curve(),
            final(self).wf(),
            final(self)@.ys.len() >= 1,
            old(self)@.ys.len() == 1 ==> final(self)@ == old(self)@,
    {
        proof {
            self@.lemma_without_curve();
        }
        if self.ys_states.len() > 1 {
            self.ys_states.pop();
            assert(self@.ys =~= old(self)@.ys.drop_last());
            self.settle();
        }
    }

    /// The entry that X has chosen.
    pub fn x_value(&self) -> (r: Option<&str>)
        requires
            self@.x[0] is Menu,
        ensures
            r is Some <==> self@.x_value() is Some,
            r matches Some(v) ==> self@.x_value() == Some(v@),
    {
        match &self.x_states[0] {
            GraphFieldState::Menu(menu) => match menu.selected() {
                Some(i) => {
                    if i < self.x_data_fields.len() {
                        Some(self.x_data_fields[i].as_str())
                    } else {
                        None
                    }
                },
                None => None,
            },
            _ => None,
        }
    }

    /// The entry that curve `k` has chosen.
    pub fn y_value(&self, k: usize) -> (r: Option<&str>)
        requires
            k < self@.ys.len(),
        ensures
            r is Some <==> self@.y_value(self@.ys[k as int]) is Some,
            r matches Some(v) ==> self@.y_value(self@.ys[k as int]) == Some(v@),
    {
        let row = &self.ys_states[k];
        assert(self@.ys[k as int] == row_view(*row));
        match &row[0] {
            GraphFieldState::Menu(menu) => match menu.selected() {
                Some(i) => {
                    if i < self.y_data_fields.len() {
                        Some(self.y_data_fields[i].as_str())
                    } else {
                        None
                    }
                },
                None => None,
            },
            _ => None,
        }
    }

    /// The entry chosen in the data slot of the row that holds the slot at
    /// flat index `index`.
    pub fn row_value(&self, index: usize) -> (r: Option<&str>)
        requires
            self.wf(),
            index < self@.total(),
        ensures
            text_of(r) == self@.row_value(index as int / 4),
    {
        if index < 4 {
            self.x_value()
        } else {
            self.y_value(index / 4 - 1)
        }
    }

    /// The candidate list of the menu at flat index `index`.
    pub fn candidates(&self, index: usize) -> (r: Vec<String>)
        requires
            self.wf(),
            index < self@.total(),
        ensures
            texts(r@) == self@.candidates(index as int),
    {
        let column = index % 4;
        if column == 0 {
            if index == 0 {
                copy_texts(&self.x_data_fields)
            } else {
                copy_texts(&self.y_data_fields)
            }
        } else if column == 1 {
            serial_candidates(&self.serial_fields, self.row_value(index))
        } else if index < 4 {
            let out: Vec<String> = Vec::new();
            assert(texts(out@) =~= Seq::<Seq<char>>::empty());
            out
        } else {
            raw_candidates(&self.sensor_fields, self.row_value(index))
        }
    }

    /// The serial numbers on offer in the row that holds the slot at flat
    /// index `field_index`.
    pub fn get_serial_fields_for_sensor(&self, field_index: usize) -> (r: Vec<String>)
        requires
            self.wf(),
            field_index < self@.total(),
        ensures
            texts(r@) == serial_list(self@.serials, self@.row_value(field_index as int / 4)),
    {
        serial_candidates(&self.serial_fields, self.row_value(field_index))
    }

    /// Takes a new catalog: makes every candidate list anew and carries
    /// every choice over to its new list by the entry it points at. A row
    /// whose data choice is gone from the list loses its dependent slots.
    #[verifier::loop_isolation(false)]
    pub fn update_sensor_data(&mut self, sensor_fields: &SensorLists, sensor_serials: &SensorLists)
        requires
            old(self).wf(),
        ensures
            final(self)@ == old(self)@.refreshed(sensor_fields@, sensor_serials@),
            final(self).wf(),
    {
        let ghost before = self@;
        let ghost fields = sensor_fields@;
        let ghost serials = sensor_serials@;
        let new_x = build_x_fields(sensor_fields);
        rebase_slot(&mut self.x_states[0], &self.x_data_fields, &new_x);
        let carried = match &self.x_states[0] {
            GraphFieldState::Menu(menu) => menu.selected(),
            _ => None,
        };
        proof {
            crate::model::lemma_rebased_slot(before.x[0], before.x_fields, texts(new_x@));
        }
        let value: Option<String> = match carried {
            Some(i) => Some(new_x[i].clone()),
            None => None,
        };
        let ghost new_value = chosen(texts(new_x@), carried);
        let borrowed: Option<&str> = match &value {
            Some(v) => Some(v.as_str()),
            None => None,
        };
        assert(text_of(borrowed) == new_value);
        let pinned: bool = match borrowed {
            Some(v) => qualified_entry(v),
            None => false,
        };
        let new_y = build_y_fields(&new_x, borrowed);
        let ghost new_list = texts(new_y@);
        if pinned {
            let old_serials = serial_candidates(&self.serial_fields, borrowed);
            let new_serials = serial_candidates(sensor_serials, borrowed);
            rebase_slot(&mut self.x_states[1], &old_serials, &new_serials);
        } else {
            self.x_states[1] = GraphFieldState::Hidden;
        }
        let ghost x_done = row_view(self.x_states);
        let mut k: usize = 0;
        while k < self.ys_states.len()
            invariant
                k <= self.ys_states.len(),
                self.ys_states.len() == before.ys.len(),
                self@.x_fields == before.x_fields,
                self@.y_fields == before.y_fields,
                self@.fields == before.fields,
                self@.serials == before.serials,
                self@.was_edited == before.was_edited,
                self@.selected == before.selected,
                self@.x == x_done,
                forall|j: int|
                    0 <= j < k ==> #[trigger] self@.ys[j] == y_row_refreshed(
                        before.ys[j],
                        before.y_fields,
                        new_list,
                        before.fields,
                        fields,
                        before.serials,
                        serials,
                    ),
                forall|j: int| k <= j < before.ys.len() ==> #[trigger] self@.ys[j] == before.ys[j],
            decreases self.ys_states.len() - k,
        {
            let ghost rows = self@.ys;
            assert(before.y_row_wf(before.ys[k as int]));
            assert(rows[k as int] == row_view(self.ys_states@[k as int]));
            rebase_slot(&mut self.ys_states[k][0], &self.y_data_fields, &new_y);
            let kept = match &self.ys_states[k][0] {
                GraphFieldState::Menu(menu) => menu.selected(),
                _ => None,
            };
            proof {
                crate::model::lemma_rebased_slot(before.ys[k as int][0], before.y_fields, new_list);
            }
            match kept {
                Some(j) => {
                    let v: Option<&str> = Some(new_y[j].as_str());
                    let old_serials = serial_candidates(&self.serial_fields, v);
                    let new_serials = serial_candidates(sensor_serials, v);
                    rebase_slot(&mut self.ys_states[k][1], &old_serials, &new_serials);
                    let old_raw = raw_candidates(&self.sensor_fields, v);
                    let new_raw = raw_candidates(sensor_fields, v);
                    rebase_slot(&mut self.ys_states[k][2], &old_raw, &new_raw);
                    rebase_slot(&mut self.ys_states[k][3], &old_raw, &new_raw);
                },
                None => {
                    self.ys_states[k][1] = GraphFieldState::Hidden;
                    self.ys_states[k][2] = GraphFieldState::Hidden;
                    self.ys_states[k][3] = GraphFieldState::Hidden;
                },
            }
            proof {
                let now = self@.ys;
                assert(now[k as int] == row_view(self.ys_states@[k as int]));
                assert(now[k as int] =~= y_row_refreshed(
                    before.ys[k as int],
                    before.y_fields,
                    new_list,
                    before.fields,
                    fields,
                    before.serials,
                    serials,
                ));
                assert forall|j: int| 0 <= j < before.ys.len() && j != k implies now[j]
                    == rows[j] by {
                    assert(now[j] == row_view(self.ys_states@[j]));
                    assert(rows[j] == row_view(self.ys_states@[j]));
                }
            }
            k += 1;
        }
        let ghost done = self@.ys;
        self.sensor_fields = sensor_fields.clone();
        self.serial_fields = sensor_serials.clone();
        self.x_data_fields = new_x;
        self.y_data_fields = new_y;
        proof {
            assert(self@.ys == done);
            assert(done.len() == before.ys.len());
            assert forall|j: int| 0 <= j < done.len() implies done[j] == y_row_refreshed(
                before.ys[j],
                before.y_fields,
                new_list,
                before.fields,
                fields,
                before.serials,
                serials,
            ) by {}
            before.lemma_refreshed(fields, serials);
            let mid = GraphModel {
                fields,
                serials,
                x_fields: texts(self.x_data_fields@),
                y_fields: new_list,
                x: x_done,
                ys: Seq::new(
                    before.ys.len(),
                    |k: int|
                        y_row_refreshed(
                            before.ys[k],
                            before.y_fields,
                            new_list,
                            before.fields,
                            fields,
                            before.serials,
                            serials,
                        ),
                ),
                ..before
            };
            assert(self@.ys =~= mid.ys);
            assert(self@ == mid);
            let data = rebased_slot(before.x[0], before.x_fields, mid.x_fields);
            assert(x_done =~= seq![
                data,
                if pinned {
                    rebased_slot(
                        before.x[1],
                        serial_list(before.serials, new_value),
                        serial_list(serials, new_value),
                    )
                } else {
                    Slot::Hidden
                },
                before.x[2],
                before.x[3],
            ]);
            assert forall|j: int| 0 <= j < mid.ys.len() implies (#[trigger] mid.ys[j]).len() == 4
                && mid.ys[j][0] is Menu by {
                assert(before.y_row_wf(before.ys[j]));
                crate::model::lemma_rebased_slot(before.ys[j][0], before.y_fields, new_list);
            }
        }
        self.settle();
    }

    /// Takes a new catalog of fields and keeps the serial numbers.
    pub fn update_sensor_fields(&mut self, sensor_fields: &SensorLists)
        requires
            old(self).wf(),
        ensures
            final(self)@ == old(self)@.refreshed(sensor_fields@, old(self)@.serials),
            final(self).wf(),
    {
        let serials = self.serial_fields.clone();
        self.update_sensor_data(sensor_fields, &serials);
    }

    /// Takes a new catalog of serial numbers and keeps the fields.
    pub fn update_sensor_serials(&mut self, sensor_serials: &SensorLists)
        requires
            old(self).wf(),
        ensures
            final(self)@ == old(self)@.refreshed(old(self)@.fields, sensor_serials@),
            final(self).wf(),
    {
        let fields = self.sensor_fields.clone();
        self.update_sensor_data(&fields, sensor_serials);
    }

    /// Makes the Y list anew from the X list and the entry that X has
    /// chosen, and carries the choice of every curve over to it.
    pub fn update_y_data_fields(&mut self)
        requires
            old(self).wf(),
        ensures
            final(self)@ == old(self)@.refreshed(old(self)@.fields, old(self)@.serials),
            final(self).wf(),
    {
        let fields = self.sensor_fields.clone();
        let serials = self.serial_fields.clone();
        self.update_sensor_data(&fields, &serials);
    }

    /// Runs the cascade for the slot at flat index `index`: brings every slot
    /// and list that depends on it in line with what it has chosen. Only the
    /// data slots have dependants; for any other index nothing changes.
    pub fn update_graph_field(&mut self, index: usize)
        requires
            old(self).wf(),
        ensures
            final(self)@ == old(self)@.cascaded(index as int),
            final(self).wf(),
    {
        if index == 0 {
            self.cascade_x();
        } else if index % 4 == 0 && index / 4 - 1 < self.ys_states.len() {
            self.cascade_y(index / 4 - 1);
        }
    }

    /// The cascade that follows a commit of the X data slot.
    #[verifier::loop_isolation(false)]
    fn cascade_x(&mut self)
        requires
            old(self)@.wf_before_x(),
        ensures
            final(self)@ == old(self)@.after_x_commit(),
            final(self).wf(),
    {
        let pinned: bool = match self.x_value() {
            Some(v) => qualified_entry(v),
            None => false,
        };
        let new_y = build_y_fields(&self.x_data_fields, self.x_value());
        let ghost before = self@;
        let ghost new_list = texts(new_y@);
        assert(new_list == y_candidates(before.x_fields, before.x_value()));
        self.x_states[1] = if pinned {
            GraphFieldState::new_menu()
        } else {
            GraphFieldState::Hidden
        };
        self.x_states[2] = GraphFieldState::new_input();
        self.x_states[3] = GraphFieldState::new_input();
        let mut k: usize = 0;
        while k < self.ys_states.len()
            invariant
                k <= self.ys_states.len(),
                self.ys_states.len() == before.ys.len(),
                self@.x_fields == before.x_fields,
                self@.y_fields == before.y_fields,
                self@.fields == before.fields,
                self@.serials == before.serials,
                self@.was_edited == before.was_edited,
                self@.selected == before.selected,
                self.x_states[0] == old(self).x_states[0],
                self.x_states[1]@ == (if pinned {
                    Slot::fresh_menu()
                } else {
                    Slot::Hidden
                }),
                self.x_states[2]@ == Slot::fresh_input(),
                self.x_states[3]@ == Slot::fresh_input(),
                forall|j: int|
                    0 <= j < k ==> #[trigger] self@.ys[j] == y_row_after_x(
                        before.ys[j],
                        before.y_fields,
                        new_list,
                        pinned,
                    ),
                forall|j: int| k <= j < before.ys.len() ==> #[trigger] self@.ys[j] == before.ys[j],
            decreases self.ys_states.len() - k,
        {
            let ghost rows = self@.ys;
            assert(before.y_row_wf(before.ys[k as int]));
            assert(rows[k as int] == row_view(self.ys_states@[k as int]));
            let choice = match &self.ys_states[k][0] {
                GraphFieldState::Menu(menu) => menu.selected(),
                _ => None,
            };
            let carried = rebase(&self.y_data_fields, &new_y, choice);
            match &mut self.ys_states[k][0] {
                GraphFieldState::Menu(menu) => {
                    menu.set_select(carried);
                },
                _ => {},
            }
            if carried.is_none() {
                self.ys_states[k][1] = GraphFieldState::Hidden;
                self.ys_states[k][2] = GraphFieldState::Hidden;
                self.ys_states[k][3] = GraphFieldState::Hidden;
            } else {
                self.ys_states[k][1] = if pinned {
                    GraphFieldState::Hidden
                } else {
                    GraphFieldState::new_menu()
                };
            }
            proof {
                let now = self@.ys;
                assert(now[k as int] == row_view(self.ys_states@[k as int]));
                assert(now[k as int] =~= y_row_after_x(
                    before.ys[k as int],
                    before.y_fields,
                    new_list,
                    pinned,
                ));
                assert forall|j: int| 0 <= j < before.ys.len() && j != k implies now[j]
                    == rows[j] by {
                    assert(now[j] == row_view(self.ys_states@[j]));
                    assert(rows[j] == row_view(self.ys_states@[j]));
                }
            }
            k += 1;
        }
        let ghost done = self@.ys;
        self.y_data_fields = new_y;
        proof {
            assert(self@.ys == done);
            assert(done.len() == before.ys.len());
            assert forall|j: int| 0 <= j < done.len() implies done[j] == y_row_after_x(
                before.ys[j],
                before.y_fields,
                new_list,
                pinned,
            ) by {}
            before.lemma_after_x_commit();
            let mid = GraphModel {
                x: seq![
                    before.x[0],
                    if pinned {
                        Slot::fresh_menu()
                    } else {
                        Slot::Hidden
                    },
                    Slot::fresh_input(),
                    Slot::fresh_input(),
                ],
                ys: Seq::new(
                    before.ys.len(),
                    |k: int| y_row_after_x(before.ys[k], before.y_fields, new_list, pinned),
                ),
                y_fields: new_list,
                ..before
            };
            assert(self@.x =~= mid.x);
            assert(self@.ys =~= mid.ys);
            assert(self@ == mid);
            assert forall|j: int| 0 <= j < mid.ys.len() implies (#[trigger] mid.ys[j]).len() == 4
                && mid.ys[j][0] is Menu by {
                assert(before.y_row_wf(before.ys[j]));
            }
        }
        self.settle();
    }

    /// The cascade that follows a commit of the data slot of curve `k`.
    fn cascade_y(&mut self, k: usize)
        requires
            old(self)@.wf_before_y(k as int),
        ensures
            final(self)@ == old(self)@.after_y_commit(k as int),
            final(self).wf(),
    {
        let ghost before = self@;
        let x_serial_hidden: bool = match &self.x_states[1] {
            GraphFieldState::Hidden => true,
            _ => false,
        };
        let (chosen_one, composite): (bool, bool) = match self.y_value(k) {
            Some(v) => (true, composite_entry(v)),
            None => (false, false),
        };
        assert(before.ys[k as int] == row_view(self.ys_states@[k as int]));
        if chosen_one {
            self.ys_states[k][1] = if x_serial_hidden {
                GraphFieldState::new_menu()
            } else {
                GraphFieldState::Hidden
            };
            self.ys_states[k][2] = if composite {
                GraphFieldState::new_menu()
            } else {
                GraphFieldState::Hidden
            };
            self.ys_states[k][3] = if composite {
                GraphFieldState::new_menu()
            } else {
                GraphFieldState::Hidden
            };
        } else {
            self.ys_states[k][1] = GraphFieldState::Hidden;
            self.ys_states[k][2] = GraphFieldState::Hidden;
            self.ys_states[k][3] = GraphFieldState::Hidden;
        }
        proof {
            before.lemma_after_y_commit(k as int);
            let row = y_row_after_commit(
                before.ys[k as int],
                before.y_value(before.ys[k as int]),
                before.x[1],
            );
            let mid = GraphModel { ys: before.ys.update(k as int, row), ..before };
            let now = self@.ys;
            assert(now[k as int] == row_view(self.ys_states@[k as int]));
            assert(now[k as int] =~= row);
            assert forall|j: int| 0 <= j < before.ys.len() && j != k implies now[j]
                == before.ys[j] by {
                assert(now[j] == row_view(self.ys_states@[j]));
                assert(before.ys[j] == row_view(old(self).ys_states@[j]));
            }
            assert(now =~= mid.ys);
            assert(self@ == mid);
            assert forall|j: int| 0 <= j < mid.ys.len() implies (#[trigger] mid.ys[j]).len() == 4
                && mid.ys[j][0] is Menu by {
                if j != k {
                    assert(before.y_row_wf(before.ys[j]));
                }
            }
        }
        self.settle();
    }

    /// The slot at flat index `index`, to change it in place.
    fn slot_mut(&mut self, index: usize) -> (r: &mut GraphFieldState)
        requires
            old(self)@.rows_wf(),
            index < old(self)@.total(),
        ensures
            r@ == old(self)@.slot(index as int),
            final(self)@ == old(self)@.with_slot(index as int, final(r)@),
    {
        if index < 4 {
            let r = &mut self.x_states[index];
            proof {
                assert(row_view(after_borrow(self.x_states)) =~= row_view(old(self).x_states).update(
                    index as int,
                    final(r)@,
                ));
            }
            r
        } else {
            let ghost k = index as int / 4 - 1;
            assert(old(self)@.ys[k] == row_view(old(self).ys_states@[k]));
            let r = &mut self.ys_states[index / 4 - 1][index % 4];
            proof {
                let rows = after_borrow(self.ys_states)@;
                assert(row_view(rows[k]) =~= row_view(old(self).ys_states@[k]).update(
                    index as int % 4,
                    final(r)@,
                ));
                assert(rows_view(rows) =~= rows_view(old(self).ys_states@).update(
                    k,
                    row_view(rows[k]),
                ));
            }
            r
        }
    }

    /// The mode that decides what a key means.
    pub fn mode(&self) -> (r: Mode)
        requires
            self.wf(),
        ensures
            r == self@.mode(),
    {
        match self.selected {
            None => Mode::View,
            Some(i) => match self.field_state(i) {
                GraphFieldState::Input(input) => if input.opened() {
                    Mode::Input
                } else {
                    Mode::Edit
                },
                GraphFieldState::Menu(menu) => if menu.opened() {
                    Mode::Menu
                } else {
                    Mode::Edit
                },
                GraphFieldState::Hidden => Mode::Edit,
            },
        }
    }

    /// Enters edit mode on the X data slot.
    pub fn start_editing(&mut self)
        requires
            old(self).wf(),
        ensures
            final(self)@ == old(self)@.started(),
            final(self).wf(),
    {
        proof {
            self@.lemma_started_stopped();
        }
        self.selected = Some(0);
    }

    /// Leaves edit mode.
    pub fn stop_editing(&mut self)
        requires
            old(self).wf(),
        ensures
            final(self)@ == old(self)@.stopped(),
            final(self).wf(),
    {
        proof {
            self@.lemma_started_stopped();
        }
        self.selected = None;
    }

    /// Opens the selected slot for editing: a menu with its choice
    /// highlighted, an input with the cursor at its end.
    pub fn open_selected(&mut self)
        requires
            old(self).wf(),
        ensures
            final(self)@ == old(self)@.opened(),
            final(self).wf(),
    {
        proof {
            self@.lemma_slot_edits();
            self@.lemma_rows();
        }
        if let Some(i) = self.selected {
            self.slot_mut(i).open();
        }
    }

    /// Closes the selected slot without a commit.
    pub fn close_selected(&mut self)
        requires
            old(self).wf(),
        ensures
            final(self)@ == old(self)@.cancelled(),
            final(self).wf(),
    {
        proof {
            self@.lemma_slot_edits();
            self@.lemma_rows();
        }
        if let Some(i) = self.selected {
            self.slot_mut(i).close();
        }
    }

    /// Moves the highlight of the selected menu by one line of its list.
    pub fn move_highlight(&mut self, forward: bool)
        requires
            old(self).wf(),
        ensures
            final(self)@ == old(self)@.highlight_moved(forward),
            final(self).wf(),
    {
        proof {
            self@.lemma_slot_edits();
            self@.lemma_rows();
        }
        if let Some(i) = self.selected {
            let length = self.candidates(i).len();
            self.slot_mut(i).step(length, forward);
        }
    }

    /// Applies one edit to the selected input.
    pub fn edit_input(&mut self, edit: InputEdit)
        requires
            old(self).wf(),
        ensures
            final(self)@ == old(self)@.input_edited(edit),
            final(self).wf(),
    {
        proof {
            self@.lemma_slot_edits();
            self@.lemma_rows();
        }
        if let Some(i) = self.selected {
            self.slot_mut(i).edit(edit);
        }
    }

    /// The range of characters to draw of the input at flat index `index`,
    /// in a field that is `max_width` characters wide. The input remembers
    /// where the range begins; nothing else changes.
    pub fn input_render_bounds(&mut self, index: usize, max_width: usize) -> (r: (usize, usize))
        requires
            old(self).wf(),
            index < old(self)@.total(),
        ensures
            final(self).wf(),
            match old(self)@.slot(index as int) {
                Slot::Input(input) => (r.0 as int, r.1 as int) == input.window(max_width as int)
                    && final(self)@ == old(self)@.with_slot(
                    index as int,
                    Slot::Input(
                        crate::input::InputModel {
                            offset: if input.text.len() == 0 {
                                input.offset
                            } else {
                                r.0
                            },
                            ..input
                        },
                    ),
                ),
                _ => r == (0usize, 0usize) && final(self)@ == old(self)@,
            },
    {
        let ghost before = self@;
        proof {
            before.lemma_rows();
            before.lemma_with_same_slot(index as int);
        }
        let r = self.slot_mut(index).render_bounds(max_width);
        proof {
            before.lemma_with_slot(index as int, self@.slot(index as int));
        }
        r
    }

    /// Commits the selected slot: an open menu takes its highlighted line,
    /// an open input its text, and what depends on the slot follows.
    pub fn commit_selected(&mut self)
        requires
            old(self).wf(),
        ensures
            final(self)@ == old(self)@.committed(),
            final(self).wf(),
    {
        let ghost before = self@;
        proof {
            before.lemma_committed();
            before.lemma_rows();
        }
        if let Some(i) = self.selected {
            proof {
                before.lemma_with_same_slot(i as int);
            }
            let length = self.candidates(i).len();
            let mut commit = false;
            match self.slot_mut(i) {
                GraphFieldState::Menu(menu) => {
                    match menu.highlighted() {
                        Some(h) => {
                            if h < length {
                                menu.select();
                                commit = true;
                            } else {
                                menu.close();
                            }
                        },
                        None => {},
                    }
                },
                GraphFieldState::Input(input) => {
                    if input.opened() {
                        input.close();
                        commit = true;
                    }
                },
                GraphFieldState::Hidden => {},
            }
            if commit {
                self.was_edited = true;
                if i == 0 {
                    proof {
                        assert forall|k: int| 0 <= k < self@.ys.len() implies self@.y_row_wf(
                            #[trigger] self@.ys[k],
                        ) by {
                            assert(before.y_row_wf(before.ys[k]));
                        }
                    }
                    self.cascade_x();
                } else if i % 4 == 0 {
                    proof {
                        let k = i as int / 4 - 1;
                        assert(before.y_row_wf(before.ys[k]));
                        assert(self@.x_value() == before.x_value());
                        assert forall|j: int|
                            0 <= j < self@.ys.len() && j != k implies self@.y_row_wf(
                            #[trigger] self@.ys[j],
                        ) && self@.serial_exclusive(self@.ys[j]) by {
                            assert(before.y_row_wf(before.ys[j]));
                            assert(before.serial_exclusive(before.ys[j]));
                        }
                    }
                    self.cascade_y(i / 4 - 1);
                }
            }
        }
    }

    /// Handles one key press: changes the state as the mode and the key ask,
    /// and says what is left for the application to do. `control` tells
    /// whether the Control key, and no other modifier, was held.
    pub fn on_key_event(&mut self, key: Key, control: bool) -> (action: TabAction)
        requires
            old(self).wf(),
        ensures
            final(self)@ == old(self)@.after_key(key),
            action == old(self)@.action_of(key, control),
            final(self).wf(),
    {
        match self.mode() {
            Mode::View => match key {
                Key::Char(c) => {
                    if c == 'q' && control {
                        TabAction::Quit
                    } else if c == 'N' {
                        TabAction::NewTab
                    } else if c == 'q' {
                        TabAction::CloseTab
                    } else {
                        if c == 'e' {
                            self.start_editing();
                        }
                        TabAction::Nothing
                    }
                },
                Key::BackTab => TabAction::PrevTab,
                Key::Tab => TabAction::NextTab,
                _ => TabAction::Nothing,
            },
            Mode::Edit => {
                match key {
                    Key::Esc => self.stop_editing(),
                    Key::Char(c) => {
                        if c == 'q' {
                            self.stop_editing();
                        } else if c == 'a' {
                            self.add_curve();
                        } else if c == 'd' {
                            self.remove_curve();
                        }
                    },
                    Key::BackTab => self.select_prev(1),
                    Key::Tab => self.select_next(1),
                    Key::Up => self.select_prev(4),
                    Key::Down => self.select_next(4),
                    Key::Left => self.select_prev(1),
                    Key::Right => self.select_next(1),
                    Key::Enter => self.open_selected(),
                    _ => {},
                }
                TabAction::Nothing
            },
            Mode::Input => {
                match key {
                    Key::Esc => self.commit_selected(),
                    Key::Enter => self.commit_selected(),
                    Key::Home => self.edit_input(InputEdit::Start),
                    Key::End => self.edit_input(InputEdit::End),
                    Key::Left => self.edit_input(InputEdit::Prev),
                    Key::Right => self.edit_input(InputEdit::Next),
                    Key::Char(c) => self.edit_input(InputEdit::Insert(c)),
                    Key::Backspace => self.edit_input(InputEdit::Remove),
                    _ => {},
                }
                TabAction::Nothing
            },
            Mode::Menu => {
                match key {
                    Key::Esc => self.close_selected(),
                    Key::Char(c) => {
                        if c == 'q' {
                            self.close_selected();
                        }
                    },
                    Key::Up => self.move_highlight(false),
                    Key::Down => self.move_highlight(true),
                    Key::Enter => self.commit_selected(),
                    _ => {},
                }
                TabAction::Nothing
            },
        }
    }

    /// Notes that the datasets are planned for the configuration as it is.
    pub(crate) fn clear_edited(&mut self)
        requires
            old(self).wf(),
        ensures
            final(self)@ == (GraphModel { was_edited: false, ..old(self)@ }),
            final(self).wf(),
    {
        proof {
            self@.lemma_flag(false);
        }
        self.was_edited = false;
    }

    /// Moves the selection off a hidden slot, or off a row that is gone.
    fn settle(&mut self)
        requires
            old(self)@.rows_wf(),
        ensures
            final(self)@ == old(self)@.settled(),
    {
        if let Some(i) = self.selected {
            let total = (self.ys_states.len() + 1) * 4;
            if i >= total {
                self.selected = Some(4 * self.ys_states.len());
            } else {
                let hidden = if i < 4 {
                    match &self.x_states[i] {
                        GraphFieldState::Hidden => true,
                        _ => false,
                    }
                } else {
                    let row = &self.ys_states[i / 4 - 1];
                    assert(self@.ys[i / 4 - 1] == row_view(*row));
                    match &row[i % 4] {
                        GraphFieldState::Hidden => true,
                        _ => false,
                    }
                };
                if hidden {
                    self.selected = Some(i - i % 4);
                }
            }
        }
    }
}

/// Stepping `step` slots from `i` in a cycle of `total` slots goes by the
/// remainder of `step`.
pub proof fn lemma_reduced_sum(i: int, step: int, total: int, forward: bool)
    requires
        0 <= i < total,
        0 <= step,
    ensures
        forward ==> (i + step) % total == (if step % total >= total - i {
            step % total - (total - i)
        } else {
            i + step % total
        }),
        !forward ==> (i - step) % total == (if step % total <= i {
            i - step % total
        } else {
            i + (total - step % total)
        }),
{
    let q = step / total;
    let r = step % total;
    vstd::arithmetic::div_mod::lemma_fundamental_div_mod(step, total);
    lemma_mod_bound(step, total);
    assert(step == q * total + r) by (nonlinear_arith)
        requires
            step == total * q + r,
    ;
    assert((q + 1) * total == q * total + total) by (nonlinear_arith);
    assert((-q) * total == -(q * total)) by (nonlinear_arith);
    assert((-q - 1) * total == -(q * total) - total) by (nonlinear_arith);
    if forward {
        if r >= total - i {
            vstd::arithmetic::div_mod::lemma_fundamental_div_mod_converse(
                i + step,
                total,
                q + 1,
                r - (total - i),
            );
        } else {
            vstd::arithmetic::div_mod::lemma_fundamental_div_mod_converse(
                i + step,
                total,
                q,
                i + r,
            );
        }
    } else {
        if r <= i {
            vstd::arithmetic::div_mod::lemma_fundamental_div_mod_converse(
                i - step,
                total,
                -q,
                i - r,
            );
        } else {
            vstd::arithmetic::div_mod::lemma_fundamental_div_mod_converse(
                i - step,
                total,
                -q - 1,
                i + (total - r),
            );
        }
    }
}

} // verus!
