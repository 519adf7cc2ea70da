//! The configuration of one plot as the contracts see it: the catalog
//! snapshot, the candidate lists, the slots of the X row and of every curve,
//! and the transitions between such configurations.
//!
//! Slots are addressed by a flat index: `0..4` is the X row, and
//! `4 * (k + 1) + j` is slot `j` of curve `k`. Slot 0 of a row chooses the
//! data field, slot 1 the serial number. Slots 2 and 3 hold the bounds of the
//! X axis in the X row, and the two measured fields of a derived curve in a
//! curve's row.

use vstd::prelude::*;

use vstd::arithmetic::div_mod::{lemma_mod_bound, lemma_small_mod};

use crate::candidates::{
    chosen, composite_name, field_of, is_qualified, lemma_rebased, rebased, sensor_block,
    sensor_of, x_candidates, y_candidates,
};
use crate::catalog::{listed, Entry};
use crate::field::Slot;
use crate::input::InputEdit;
use crate::menu::{cyclic_next, cyclic_prev, lemma_cyclic_steps, MenuModel};

verus! {

/// A slot whose choice, if it is a menu, is carried over to a new list.
pub open spec fn rebased_slot(slot: Slot, old_list: Seq<Seq<char>>, new_list: Seq<Seq<char>>) -> Slot {
    match slot {
        Slot::Menu(m) => Slot::Menu(
            MenuModel { selected: rebased(old_list, new_list, m.selected), ..m },
        ),
        other => other,
    }
}

/// The serial numbers that the catalog lists for the sensor of `value`;
/// none where `value` names no sensor.
pub open spec fn serial_list(serials: Seq<Entry>, value: Option<Seq<char>>) -> Seq<Seq<char>> {
    match value {
        Some(v) => if is_qualified(v) {
            listed(serials, sensor_of(v))
        } else {
            Seq::empty()
        },
        None => Seq::empty(),
    }
}

/// The measured fields of the sensor of `value`, as menu entries; none
/// where `value` names no sensor.
pub open spec fn raw_list(fields: Seq<Entry>, value: Option<Seq<char>>) -> Seq<Seq<char>> {
    match value {
        Some(v) => if is_qualified(v) {
            sensor_block(sensor_of(v), listed(fields, sensor_of(v)))
        } else {
            Seq::empty()
        },
        None => Seq::empty(),
    }
}

/// Whether `value` names the derived field of some sensor.
pub open spec fn is_composite(value: Option<Seq<char>>) -> bool {
    value matches Some(v) && field_of(v) == composite_name()
}

/// Whether a choice points into a list of `length` entries.
pub open spec fn in_range(slot: Slot, length: nat) -> bool {
    slot.choice() matches Some(i) ==> i < length
}

/// Two slots of one kind with one choice.
pub open spec fn same_shape(a: Slot, b: Slot) -> bool {
    &&& a is Hidden <==> b is Hidden
    &&& a is Menu <==> b is Menu
    &&& a is Input <==> b is Input
    &&& a.choice() == b.choice()
}

/// A row of four hidden slots but for the first, which is `data`.
pub open spec fn bare_row(data: Slot) -> Seq<Slot> {
    seq![data, Slot::Hidden, Slot::Hidden, Slot::Hidden]
}

/// The row of a curve that was just added.
pub open spec fn default_row() -> Seq<Slot> {
    bare_row(Slot::fresh_menu())
}

/// A curve's row once it follows a commit of the X data slot: its choice is
/// carried over to the new Y list; a curve that loses its choice loses its
/// other slots, and one that keeps it shows a serial menu of its own exactly
/// when X supplies none.
pub open spec fn y_row_after_x(
    row: Seq<Slot>,
    old_y: Seq<Seq<char>>,
    new_y: Seq<Seq<char>>,
    pinned: bool,
) -> Seq<Slot> {
    let data = rebased_slot(row[0], old_y, new_y);
    if data.choice() is None {
        bare_row(data)
    } else {
        seq![
            data,
            if pinned {
                Slot::Hidden
            } else {
                Slot::fresh_menu()
            },
            row[2],
            row[3],
        ]
    }
}

/// A curve's row once its own data slot was committed.
pub open spec fn y_row_after_commit(row: Seq<Slot>, value: Option<Seq<char>>, x_serial: Slot) -> Seq<
    Slot,
> {
    match value {
        Some(v) => seq![
            row[0],
            if x_serial is Hidden {
                Slot::fresh_menu()
            } else {
                Slot::Hidden
            },
            if is_composite(value) {
                Slot::fresh_menu()
            } else {
                Slot::Hidden
            },
            if is_composite(value) {
                Slot::fresh_menu()
            } else {
                Slot::Hidden
            },
        ],
        None => bare_row(row[0]),
    }
}

/// A curve's row once the catalog was replaced: every choice is carried over
/// to its new list, and a curve that loses its data choice loses its other
/// slots.
pub open spec fn y_row_refreshed(
    row: Seq<Slot>,
    old_y: Seq<Seq<char>>,
    new_y: Seq<Seq<char>>,
    old_fields: Seq<Entry>,
    fields: Seq<Entry>,
    old_serials: Seq<Entry>,
    serials: Seq<Entry>,
) -> Seq<Slot> {
    let data = rebased_slot(row[0], old_y, new_y);
    let value = chosen(new_y, data.choice());
    if value is None {
        bare_row(data)
    } else {
        seq![
            data,
            rebased_slot(row[1], serial_list(old_serials, value), serial_list(serials, value)),
            rebased_slot(row[2], raw_list(old_fields, value), raw_list(fields, value)),
            rebased_slot(row[3], raw_list(old_fields, value), raw_list(fields, value)),
        ]
    }
}

/// The configuration of one plot.
pub struct GraphModel {
    /// Catalog snapshot: the measurement fields of every sensor.
    pub fields: Seq<Entry>,
    /// Catalog snapshot: the serial numbers of every sensor.
    pub serials: Seq<Entry>,
    /// Candidate list of the X data slot.
    pub x_fields: Seq<Seq<char>>,
    /// Candidate list of the Y data slots.
    pub y_fields: Seq<Seq<char>>,
    /// The four slots of the X row.
    pub x: Seq<Slot>,
    /// The four slots of every curve.
    pub ys: Seq<Seq<Slot>>,
    /// Whether something was committed since the datasets were last planned.
    pub was_edited: bool,
    /// Flat index of the slot that the user stands on, while editing.
    pub selected: Option<usize>,
}

impl GraphModel {
    /// Number of slots, hidden ones included.
    pub open spec fn total(self) -> int {
        4 * (self.ys.len() as int + 1)
    }

    /// The row that holds the slots `4 * r ..4 * r + 4`.
    pub open spec fn row(self, r: int) -> Seq<Slot> {
        if r == 0 {
            self.x
        } else {
            self.ys[r - 1]
        }
    }

    /// The slot at flat index `i`.
    pub open spec fn slot(self, i: int) -> Slot {
        self.row(i / 4)[i % 4]
    }

    /// The entry that X has chosen.
    pub open spec fn x_value(self) -> Option<Seq<char>> {
        chosen(self.x_fields, self.x[0].choice())
    }

    /// Whether X has chosen a field of a sensor, and so pins that sensor.
    pub open spec fn x_pinned(self) -> bool {
        self.x_value() matches Some(v) && is_qualified(v)
    }

    /// The entry that a curve's row has chosen.
    pub open spec fn y_value(self, row: Seq<Slot>) -> Option<Seq<char>> {
        chosen(self.y_fields, row[0].choice())
    }

    /// The entry chosen in the data slot of row `r`.
    pub open spec fn row_value(self, r: int) -> Option<Seq<char>> {
        if r == 0 {
            self.x_value()
        } else {
            self.y_value(self.ys[r - 1])
        }
    }

    /// The candidate list of the menu at flat index `i`. The bound inputs of
    /// the X row have none.
    pub open spec fn candidates(self, i: int) -> Seq<Seq<char>> {
        let r = i / 4;
        let c = i % 4;
        if c == 0 {
            if r == 0 {
                self.x_fields
            } else {
                self.y_fields
            }
        } else if c == 1 {
            serial_list(self.serials, self.row_value(r))
        } else if r == 0 {
            Seq::empty()
        } else {
            raw_list(self.fields, self.row_value(r))
        }
    }

    /// The configuration with the slot at flat index `i` replaced.
    pub open spec fn with_slot(self, i: int, slot: Slot) -> GraphModel {
        if i < 4 {
            GraphModel { x: self.x.update(i, slot), ..self }
        } else {
            GraphModel {
                ys: self.ys.update(i / 4 - 1, self.ys[i / 4 - 1].update(i % 4, slot)),
                ..self
            }
        }
    }

    /// The slot that the selection stands on.
    pub open spec fn current(self) -> Slot {
        match self.selected {
            Some(i) => self.slot(i as int),
            None => Slot::Hidden,
        }
    }

    /// The configuration with the selected slot replaced.
    pub open spec fn on_selected(self, slot: Slot) -> GraphModel {
        match self.selected {
            Some(i) => self.with_slot(i as int, slot),
            None => self,
        }
    }

    /// Edit mode entered: the selection stands on the X data slot.
    pub open spec fn started(self) -> GraphModel {
        GraphModel { selected: Some(0), ..self }
    }

    /// Edit mode left: nothing is selected.
    pub open spec fn stopped(self) -> GraphModel {
        GraphModel { selected: None, ..self }
    }

    /// The selected slot opened for editing.
    pub open spec fn opened(self) -> GraphModel {
        self.on_selected(self.current().opened())
    }

    /// The selected slot closed without a commit.
    pub open spec fn cancelled(self) -> GraphModel {
        self.on_selected(self.current().closed())
    }

    /// The highlight of the selected menu moved by one line of its list.
    pub open spec fn highlight_moved(self, forward: bool) -> GraphModel {
        match self.selected {
            Some(i) => self.with_slot(
                i as int,
                self.slot(i as int).stepped(self.candidates(i as int).len() as int, forward),
            ),
            None => self,
        }
    }

    /// One edit applied to the selected input.
    pub open spec fn input_edited(self, edit: InputEdit) -> GraphModel {
        self.on_selected(self.current().edited(edit))
    }

    /// The selected slot committed. An open menu takes its highlighted line
    /// as the choice if the list has that line, and the cascade for the slot
    /// follows; with a highlight beyond the list it only closes. An open
    /// input closes and keeps its text. Both mark the configuration as
    /// edited. A slot that is not open stays as it is.
    pub open spec fn committed(self) -> GraphModel {
        match self.selected {
            Some(i) => match self.slot(i as int) {
                Slot::Menu(m) => match m.highlighted {
                    Some(h) => if h < self.candidates(i as int).len() {
                        GraphModel {
                            was_edited: true,
                            ..self.with_slot(i as int, Slot::Menu(m.committed()))
                        }.cascaded(i as int)
                    } else {
                        self.with_slot(i as int, Slot::Menu(m.closed()))
                    },
                    None => self,
                },
                Slot::Input(input) => if input.cursor is Some {
                    GraphModel {
                        was_edited: true,
                        ..self.with_slot(i as int, Slot::Input(input.closed()))
                    }
                } else {
                    self
                },
                Slot::Hidden => self,
            },
            None => self,
        }
    }

    /// Sizes and the X data slot: what no commit puts in question.
    pub open spec fn base_wf(self) -> bool {
        &&& self.x.len() == 4
        &&& self.ys.len() >= 1
        &&& 4 * (self.ys.len() + 1) <= usize::MAX
        &&& self.x_fields == x_candidates(self.fields)
        &&& self.x[0] is Menu
        &&& in_range(self.x[0], self.x_fields.len())
        &&& (self.x[2] is Input || self.x[2] is Hidden)
        &&& (self.x[3] is Input || self.x[3] is Hidden)
    }

    /// The serial slot of X is shown exactly while X pins a sensor, and its
    /// choice is one of that sensor's serial numbers.
    pub open spec fn x_row_wf(self) -> bool {
        &&& (self.x[1] is Menu || self.x[1] is Hidden)
        &&& (self.x[1] is Menu <==> self.x_pinned())
        &&& in_range(self.x[1], serial_list(self.serials, self.x_value()).len())
    }

    /// The data slot of a curve is a menu over the Y list.
    pub open spec fn y_data_wf(self, row: Seq<Slot>) -> bool {
        &&& row.len() == 4
        &&& row[0] is Menu
        &&& in_range(row[0], self.y_fields.len())
    }

    /// A curve's row: its data slot is a menu over the Y list; a serial menu
    /// needs a chosen entry; the two extra menus are shown exactly for a
    /// derived field; and every choice points into its list.
    pub open spec fn y_row_wf(self, row: Seq<Slot>) -> bool {
        let value = self.y_value(row);
        &&& self.y_data_wf(row)
        &&& (row[1] is Menu || row[1] is Hidden)
        &&& (row[1] is Menu ==> value is Some)
        &&& in_range(row[1], serial_list(self.serials, value).len())
        &&& (row[2] is Menu || row[2] is Hidden)
        &&& (row[3] is Menu || row[3] is Hidden)
        &&& (row[2] is Menu <==> is_composite(value))
        &&& (row[3] is Menu <==> is_composite(value))
        &&& in_range(row[2], raw_list(self.fields, value).len())
        &&& in_range(row[3], raw_list(self.fields, value).len())
    }

    /// While X shows a serial menu no curve shows one of its own.
    pub open spec fn serial_exclusive(self, row: Seq<Slot>) -> bool {
        self.x[1] is Menu ==> row[1] is Hidden
    }

    /// The selection, where there is one, stands on a slot that is shown.
    pub open spec fn selection_wf(self) -> bool {
        self.selected matches Some(i) ==> i < self.total() && !(self.slot(i as int) is Hidden)
    }

    /// The invariant of a plot configuration.
    pub open spec fn wf(self) -> bool {
        &&& self.base_wf()
        &&& self.x_row_wf()
        &&& self.y_fields == y_candidates(self.x_fields, self.x_value())
        &&& forall|k: int| 0 <= k < self.ys.len() ==> self.y_row_wf(#[trigger] self.ys[k])
        &&& forall|k: int| 0 <= k < self.ys.len() ==> self.serial_exclusive(#[trigger] self.ys[k])
        &&& self.selection_wf()
    }

    /// What a commit of the X data slot may rely on: everything but what
    /// depends on the entry that X has chosen.
    pub open spec fn wf_before_x(self) -> bool {
        &&& self.base_wf()
        &&& forall|k: int| 0 <= k < self.ys.len() ==> self.y_row_wf(#[trigger] self.ys[k])
        &&& self.selected matches Some(i) ==> i < self.total()
    }

    /// What a commit of the data slot of curve `k` may rely on: everything
    /// but what depends on the entry that the curve has chosen.
    pub open spec fn wf_before_y(self, k: int) -> bool {
        &&& self.base_wf()
        &&& self.x_row_wf()
        &&& self.y_fields == y_candidates(self.x_fields, self.x_value())
        &&& 0 <= k < self.ys.len()
        &&& self.y_data_wf(self.ys[k])
        &&& forall|j: int| 0 <= j < self.ys.len() && j != k ==> self.y_row_wf(#[trigger] self.ys[j])
        &&& forall|j: int|
            0 <= j < self.ys.len() && j != k ==> self.serial_exclusive(#[trigger] self.ys[j])
        &&& self.selected matches Some(i) ==> i < self.total()
    }

    /// The same configuration with the selection moved off a hidden slot to
    /// the data slot of its row, and off a row that is gone to the data slot
    /// of the last curve.
    pub open spec fn settled(self) -> GraphModel {
        GraphModel {
            selected: match self.selected {
                Some(i) => if i < self.total() {
                    if self.slot(i as int) is Hidden {
                        Some((i - i % 4) as usize)
                    } else {
                        Some(i)
                    }
                } else {
                    Some((4 * self.ys.len()) as usize)
                },
                None => None,
            },
            ..self
        }
    }

    /// The configuration after the cascade that follows a commit of the X
    /// data slot.
    pub open spec fn after_x_commit(self) -> GraphModel {
        let pinned = self.x_pinned();
        let new_y = y_candidates(self.x_fields, self.x_value());
        GraphModel {
            x: seq![
                self.x[0],
                if pinned {
                    Slot::fresh_menu()
                } else {
                    Slot::Hidden
                },
                Slot::fresh_input(),
                Slot::fresh_input(),
            ],
            ys: Seq::new(
                self.ys.len(),
                |k: int| y_row_after_x(self.ys[k], self.y_fields, new_y, pinned),
            ),
            y_fields: new_y,
            ..self
        }.settled()
    }

    /// The configuration after the cascade that follows a commit of the data
    /// slot of curve `k`.
    pub open spec fn after_y_commit(self, k: int) -> GraphModel {
        GraphModel {
            ys: self.ys.update(
                k,
                y_row_after_commit(self.ys[k], self.y_value(self.ys[k]), self.x[1]),
            ),
            ..self
        }.settled()
    }

    /// The configuration after the cascade for the slot at flat index
    /// `index`. Only data slots have dependants.
    pub open spec fn cascaded(self, index: int) -> GraphModel {
        if index == 0 {
            self.after_x_commit()
        } else if index % 4 == 0 && 0 < index < self.total() {
            self.after_y_commit(index / 4 - 1)
        } else {
            self
        }
    }

    /// The configuration after the catalog was replaced.
    pub open spec fn refreshed(self, fields: Seq<Entry>, serials: Seq<Entry>) -> GraphModel {
        let new_x = x_candidates(fields);
        let data = rebased_slot(self.x[0], self.x_fields, new_x);
        let value = chosen(new_x, data.choice());
        let pinned = value matches Some(v) && is_qualified(v);
        let new_y = y_candidates(new_x, value);
        GraphModel {
            fields,
            serials,
            x_fields: new_x,
            y_fields: new_y,
            x: seq![
                data,
                if pinned {
                    rebased_slot(
                        self.x[1],
                        serial_list(self.serials, value),
                        serial_list(serials, value),
                    )
                } else {
                    Slot::Hidden
                },
                self.x[2],
                self.x[3],
            ],
            ys: Seq::new(
                self.ys.len(),
                |k: int|
                    y_row_refreshed(
                        self.ys[k],
                        self.y_fields,
                        new_y,
                        self.fields,
                        fields,
                        self.serials,
                        serials,
                    ),
            ),
            ..self
        }.settled()
    }

    /// The slot that follows `i`, or precedes it, in the cycle of all slots.
    pub open spec fn neighbour(self, i: int, forward: bool) -> int {
        if forward {
            cyclic_next(i, self.total())
        } else {
            cyclic_prev(i, self.total())
        }
    }

    /// The first slot that is shown, going from `i` in one direction and
    /// looking at no more than `fuel` slots beyond `i`.
    pub open spec fn seek(self, i: int, forward: bool, fuel: nat) -> int
        decreases fuel,
    {
        if fuel == 0 || !(self.slot(i) is Hidden) {
            i
        } else {
            self.seek(self.neighbour(i, forward), forward, (fuel - 1) as nat)
        }
    }

    /// The configuration after the selection moved by `step` slots in one
    /// direction and then on to the first slot that is shown.
    pub open spec fn moved(self, step: int, forward: bool) -> GraphModel {
        match self.selected {
            Some(i) => {
                let start = if forward {
                    (i + step) % self.total()
                } else {
                    (i - step) % self.total()
                };
                GraphModel {
                    selected: Some(self.seek(start, forward, self.total() as nat) as usize),
                    ..self
                }
            },
            None => self,
        }
    }

    /// The configuration with one more curve, as far as its slots can still
    /// be counted.
    pub open spec fn with_curve(self) -> GraphModel {
        if 4 * (self.ys.len() + 2) <= usize::MAX {
            GraphModel { ys: self.ys.push(default_row()), ..self }
        } else {
            self
        }
    }

    /// The configuration without its last curve; the only curve stays.
    pub open spec fn without_curve(self) -> GraphModel {
        if self.ys.len() > 1 {
            GraphModel { ys: self.ys.drop_last(), ..self }.settled()
        } else {
            self
        }
    }
}

/// A slot that was carried over keeps its kind, points into the new list,
/// and names what it named before or nothing.
pub proof fn lemma_rebased_slot(slot: Slot, old_list: Seq<Seq<char>>, new_list: Seq<Seq<char>>)
    ensures
        in_range(rebased_slot(slot, old_list, new_list), new_list.len()),
        rebased_slot(slot, old_list, new_list) is Menu <==> slot is Menu,
        rebased_slot(slot, old_list, new_list) is Hidden <==> slot is Hidden,
        rebased_slot(slot, old_list, new_list) is Input <==> slot is Input,
        rebased_slot(slot, old_list, new_list).choice() is Some ==> chosen(
            new_list,
            rebased_slot(slot, old_list, new_list).choice(),
        ) == chosen(old_list, slot.choice()),
        rebased_slot(rebased_slot(slot, old_list, new_list), new_list, new_list) == rebased_slot(
            slot,
            old_list,
            new_list,
        ),
{
    if let Slot::Menu(m) = slot {
        lemma_rebased(old_list, new_list, m.selected);
    }
}

impl GraphModel {
    /// Every row has four slots and begins with a menu.
    pub open spec fn rows_wf(self) -> bool {
        &&& self.x.len() == 4
        &&& self.x[0] is Menu
        &&& self.ys.len() >= 1
        &&& 4 * (self.ys.len() + 1) <= usize::MAX
        &&& forall|k: int|
            0 <= k < self.ys.len() ==> (#[trigger] self.ys[k]).len() == 4 && self.ys[k][0] is Menu
    }

    /// Settling puts the selection on a slot that is shown.
    pub proof fn lemma_settled(self)
        requires
            self.rows_wf(),
        ensures
            self.settled().selection_wf(),
            self.selection_wf() ==> self.settled() == self,
            self.settled().settled() == self.settled(),
    {
        let s = self.settled();
        if let Some(i) = self.selected {
            if i < self.total() {
                let r = i as int / 4;
                let j = i - i % 4;
                assert(j / 4 == r && j % 4 == 0);
                if r > 0 {
                    assert(self.ys[r - 1][0] is Menu);
                }
            } else {
                let j = 4 * self.ys.len() as int;
                assert(j / 4 == self.ys.len() && j % 4 == 0);
                assert(self.ys[self.ys.len() - 1][0] is Menu);
            }
        }
    }

    /// The cascade of an X commit establishes the invariant.
    pub proof fn lemma_after_x_commit(self)
        requires
            self.wf_before_x(),
        ensures
            self.after_x_commit().wf(),
            self.after_x_commit().was_edited == self.was_edited,
            self.after_x_commit().after_x_commit() == self.after_x_commit(),
    {
        let pinned = self.x_pinned();
        let new_y = y_candidates(self.x_fields, self.x_value());
        let mid = GraphModel {
            x: seq![
                self.x[0],
                if pinned {
                    Slot::fresh_menu()
                } else {
                    Slot::Hidden
                },
                Slot::fresh_input(),
                Slot::fresh_input(),
            ],
            ys: Seq::new(
                self.ys.len(),
                |k: int| y_row_after_x(self.ys[k], self.y_fields, new_y, pinned),
            ),
            y_fields: new_y,
            ..self
        };
        assert(mid.x_value() == self.x_value());
        assert forall|k: int| 0 <= k < mid.ys.len() implies mid.y_row_wf(#[trigger] mid.ys[k])
            && mid.serial_exclusive(mid.ys[k]) by {
            let row = self.ys[k];
            assert(self.y_row_wf(row));
            lemma_rebased_slot(row[0], self.y_fields, new_y);
        }
        mid.lemma_settled();
        let out = mid.settled();
        assert(out.ys == mid.ys);
        assert(out.x_value() == self.x_value());
        assert forall|k: int| 0 <= k < out.ys.len() implies out.y_row_wf(#[trigger] out.ys[k])
            && out.serial_exclusive(out.ys[k]) by {
            assert(mid.y_row_wf(mid.ys[k]));
        }
        // A second pass finds the list and every choice where the first left them.
        let again = GraphModel {
            x: seq![
                out.x[0],
                if pinned {
                    Slot::fresh_menu()
                } else {
                    Slot::Hidden
                },
                Slot::fresh_input(),
                Slot::fresh_input(),
            ],
            ys: Seq::new(out.ys.len(), |k: int| y_row_after_x(out.ys[k], new_y, new_y, pinned)),
            y_fields: new_y,
            ..out
        };
        assert(again.x =~= out.x);
        assert forall|k: int| 0 <= k < out.ys.len() implies again.ys[k] == out.ys[k] by {
            let row = self.ys[k];
            lemma_rebased_slot(row[0], self.y_fields, new_y);
            assert(again.ys[k] =~= out.ys[k]);
        }
        assert(again.ys =~= out.ys);
        assert(again == out);
        out.lemma_settled();
    }

    /// The cascade of a curve's commit establishes the invariant.
    pub proof fn lemma_after_y_commit(self, k: int)
        requires
            self.wf_before_y(k),
        ensures
            self.after_y_commit(k).wf(),
            self.after_y_commit(k).was_edited == self.was_edited,
            self.after_y_commit(k).after_y_commit(k) == self.after_y_commit(k),
    {
        let row = y_row_after_commit(self.ys[k], self.y_value(self.ys[k]), self.x[1]);
        let mid = GraphModel { ys: self.ys.update(k, row), ..self };
        assert(mid.x_value() == self.x_value());
        assert forall|j: int| 0 <= j < mid.ys.len() implies mid.y_row_wf(#[trigger] mid.ys[j])
            && mid.serial_exclusive(mid.ys[j]) by {
            if j != k {
                assert(self.y_row_wf(self.ys[j]));
                assert(self.serial_exclusive(self.ys[j]));
            }
        }
        mid.lemma_settled();
        let out = mid.settled();
        assert(out.x_value() == self.x_value());
        assert forall|j: int| 0 <= j < out.ys.len() implies out.y_row_wf(#[trigger] out.ys[j])
            && out.serial_exclusive(out.ys[j]) by {
            assert(mid.y_row_wf(mid.ys[j]));
        }
        let again = y_row_after_commit(out.ys[k], out.y_value(out.ys[k]), out.x[1]);
        assert(again =~= row);
        assert(out.ys.update(k, again) =~= out.ys);
        out.lemma_settled();
    }

    /// Replacing the catalog keeps the invariant.
    pub proof fn lemma_refreshed(self, fields: Seq<Entry>, serials: Seq<Entry>)
        requires
            self.wf(),
        ensures
            self.refreshed(fields, serials).wf(),
    {
        let new_x = x_candidates(fields);
        let data = rebased_slot(self.x[0], self.x_fields, new_x);
        let value = chosen(new_x, data.choice());
        let pinned = value matches Some(v) && is_qualified(v);
        let new_y = y_candidates(new_x, value);
        let mid = GraphModel {
            fields,
            serials,
            x_fields: new_x,
            y_fields: new_y,
            x: seq![
                data,
                if pinned {
                    rebased_slot(
                        self.x[1],
                        serial_list(self.serials, value),
                        serial_list(serials, value),
                    )
                } else {
                    Slot::Hidden
                },
                self.x[2],
                self.x[3],
            ],
            ys: Seq::new(
                self.ys.len(),
                |k: int|
                    y_row_refreshed(
                        self.ys[k],
                        self.y_fields,
                        new_y,
                        self.fields,
                        fields,
                        self.serials,
                        serials,
                    ),
            ),
            ..self
        };
        lemma_rebased_slot(self.x[0], self.x_fields, new_x);
        lemma_rebased_slot(
            self.x[1],
            serial_list(self.serials, value),
            serial_list(serials, value),
        );
        assert(mid.x_value() == value);
        assert(mid.x_row_wf());
        assert forall|k: int| 0 <= k < mid.ys.len() implies mid.y_row_wf(#[trigger] mid.ys[k])
            && mid.serial_exclusive(mid.ys[k]) by {
            let row = self.ys[k];
            assert(self.y_row_wf(row));
            assert(self.serial_exclusive(row));
            lemma_rebased_slot(row[0], self.y_fields, new_y);
            let v = chosen(new_y, rebased_slot(row[0], self.y_fields, new_y).choice());
            lemma_rebased_slot(row[1], serial_list(self.serials, v), serial_list(serials, v));
            lemma_rebased_slot(row[2], raw_list(self.fields, v), raw_list(fields, v));
            lemma_rebased_slot(row[3], raw_list(self.fields, v), raw_list(fields, v));
        }
        mid.lemma_settled();
        let out = mid.settled();
        assert(out.x_value() == value);
        assert forall|k: int| 0 <= k < out.ys.len() implies out.y_row_wf(#[trigger] out.ys[k])
            && out.serial_exclusive(out.ys[k]) by {
            assert(mid.y_row_wf(mid.ys[k]));
        }
    }

    /// How far a slot is from the data slot of a row, in one direction.
    pub open spec fn distance(i: int, forward: bool) -> int {
        if forward {
            (4 - i % 4) % 4
        } else {
            i % 4
        }
    }

    /// Seeking finds a slot that is shown within the next row at the latest.
    pub proof fn lemma_seek(self, i: int, forward: bool, fuel: nat)
        requires
            self.rows_wf(),
            0 <= i < self.total(),
            fuel >= Self::distance(i, forward),
        ensures
            0 <= self.seek(i, forward, fuel) < self.total(),
            !(self.slot(self.seek(i, forward, fuel)) is Hidden),
        decreases fuel,
    {
        if i % 4 == 0 {
            if i / 4 > 0 {
                assert(self.ys[i / 4 - 1][0] is Menu);
            }
        } else if self.slot(i) is Hidden {
            lemma_cyclic_steps(i, self.total());
            lemma_small_mod(i as nat, self.total() as nat);
            self.lemma_seek(self.neighbour(i, forward), forward, (fuel - 1) as nat);
        }
    }

    /// Moving the selection keeps the invariant: it never lands on a hidden
    /// slot.
    pub proof fn lemma_moved(self, step: int, forward: bool)
        requires
            self.wf(),
        ensures
            self.moved(step, forward).wf(),
            self.selected is Some ==> self.moved(step, forward).selected is Some,
    {
        if let Some(i) = self.selected {
            let start = if forward {
                (i + step) % self.total()
            } else {
                (i - step) % self.total()
            };
            lemma_mod_bound(i + step, self.total());
            lemma_mod_bound(i - step, self.total());
            self.lemma_rows();
            self.lemma_seek(start, forward, self.total() as nat);
            let out = self.moved(step, forward);
            assert(out.x_value() == self.x_value());
            assert forall|k: int| 0 <= k < out.ys.len() implies out.y_row_wf(#[trigger] out.ys[k])
                && out.serial_exclusive(out.ys[k]) by {
                assert(self.y_row_wf(self.ys[k]));
                assert(self.serial_exclusive(self.ys[k]));
            }
        }
    }

    /// Putting a slot where it already is changes nothing.
    pub proof fn lemma_with_same_slot(self, i: int)
        requires
            self.rows_wf(),
            0 <= i < self.total(),
        ensures
            self.with_slot(i, self.slot(i)) == self,
    {
        let out = self.with_slot(i, self.slot(i));
        if i < 4 {
            assert(out.x =~= self.x);
        } else {
            let k = i / 4 - 1;
            assert(self.ys[k].update(i % 4, self.slot(i)) =~= self.ys[k]);
            assert(out.ys =~= self.ys);
        }
    }

    /// A slot that changes neither its kind nor its choice leaves the
    /// invariant alone.
    pub proof fn lemma_with_slot(self, i: int, slot: Slot)
        requires
            self.wf(),
            0 <= i < self.total(),
            same_shape(self.slot(i), slot),
        ensures
            self.with_slot(i, slot).wf(),
            self.with_slot(i, slot).slot(i) == slot,
    {
        let out = self.with_slot(i, slot);
        assert(out.x_value() == self.x_value());
        assert forall|k: int| 0 <= k < out.ys.len() implies out.y_row_wf(#[trigger] out.ys[k])
            && out.serial_exclusive(out.ys[k]) by {
            assert(self.y_row_wf(self.ys[k]));
            assert(self.serial_exclusive(self.ys[k]));
        }
        if let Some(s) = self.selected {
            let r = s as int / 4;
            if r > 0 {
                assert(self.y_row_wf(self.ys[r - 1]));
            }
        }
        assert(self.y_row_wf(self.ys[(if i < 4 { 0 } else { i / 4 - 1 })]));
    }

    /// A menu below a data slot may choose any entry of its list.
    pub proof fn lemma_with_leaf_choice(self, i: int, slot: Slot)
        requires
            self.wf(),
            0 <= i < self.total(),
            i % 4 != 0,
            self.slot(i) is Menu,
            slot is Menu,
            in_range(slot, self.candidates(i).len()),
        ensures
            self.with_slot(i, slot).wf(),
    {
        let out = self.with_slot(i, slot);
        assert(out.x_value() == self.x_value());
        assert forall|k: int| 0 <= k < out.ys.len() implies out.y_row_wf(#[trigger] out.ys[k])
            && out.serial_exclusive(out.ys[k]) by {
            assert(self.y_row_wf(self.ys[k]));
            assert(self.serial_exclusive(self.ys[k]));
        }
        if let Some(s) = self.selected {
            let r = s as int / 4;
            if r > 0 {
                assert(self.y_row_wf(self.ys[r - 1]));
            }
        }
    }

    /// Marking a configuration as edited, or not, leaves the invariant alone.
    pub proof fn lemma_flag(self, was_edited: bool)
        requires
            self.wf(),
        ensures
            (GraphModel { was_edited, ..self }).wf(),
    {
        let out = GraphModel { was_edited, ..self };
        assert(out.x_value() == self.x_value());
        assert forall|k: int| 0 <= k < out.ys.len() implies out.y_row_wf(#[trigger] out.ys[k])
            && out.serial_exclusive(out.ys[k]) by {
            assert(self.y_row_wf(self.ys[k]));
            assert(self.serial_exclusive(self.ys[k]));
        }
    }

    /// Entering and leaving edit mode keep the invariant.
    pub proof fn lemma_started_stopped(self)
        requires
            self.wf(),
        ensures
            self.started().wf(),
            self.stopped().wf(),
    {
        let a = self.started();
        let b = self.stopped();
        assert(a.x_value() == self.x_value());
        assert(b.x_value() == self.x_value());
        assert forall|k: int| 0 <= k < self.ys.len() implies a.y_row_wf(#[trigger] a.ys[k])
            && a.serial_exclusive(a.ys[k]) && b.y_row_wf(#[trigger] b.ys[k])
            && b.serial_exclusive(b.ys[k]) by {
            assert(self.y_row_wf(self.ys[k]));
            assert(self.serial_exclusive(self.ys[k]));
        }
    }

    /// Opening, closing and editing the selected slot, and moving the
    /// highlight of its menu, keep the invariant.
    pub proof fn lemma_slot_edits(self)
        requires
            self.wf(),
        ensures
            self.opened().wf(),
            self.cancelled().wf(),
            forall|forward: bool| #[trigger] self.highlight_moved(forward).wf(),
            forall|edit: InputEdit| #[trigger] self.input_edited(edit).wf(),
    {
        if let Some(i) = self.selected {
            let slot = self.slot(i as int);
            self.lemma_with_slot(i as int, slot.opened());
            self.lemma_with_slot(i as int, slot.closed());
            assert forall|forward: bool| #[trigger] self.highlight_moved(forward).wf() by {
                self.lemma_with_slot(
                    i as int,
                    slot.stepped(self.candidates(i as int).len() as int, forward),
                );
            }
            assert forall|edit: InputEdit| #[trigger] self.input_edited(edit).wf() by {
                self.lemma_with_slot(i as int, slot.edited(edit));
            }
        }
    }

    /// A commit keeps the invariant.
    pub proof fn lemma_committed(self)
        requires
            self.wf(),
        ensures
            self.committed().wf(),
    {
        if let Some(i) = self.selected {
            let i = i as int;
            let r = i / 4;
            if r > 0 {
                assert(self.y_row_wf(self.ys[r - 1]));
                assert(self.serial_exclusive(self.ys[r - 1]));
            }
            match self.slot(i) {
                Slot::Menu(m) => {
                    if let Some(h) = m.highlighted {
                        if h < self.candidates(i).len() {
                            let chosen_slot = Slot::Menu(m.committed());
                            let mid = GraphModel {
                                was_edited: true,
                                ..self.with_slot(i, chosen_slot)
                            };
                            if i % 4 != 0 {
                                self.lemma_with_leaf_choice(i, chosen_slot);
                                self.with_slot(i, chosen_slot).lemma_flag(true);
                            } else if i == 0 {
                                assert forall|k: int| 0 <= k < mid.ys.len() implies mid.y_row_wf(
                                    #[trigger] mid.ys[k],
                                ) by {
                                    assert(self.y_row_wf(self.ys[k]));
                                }
                                mid.lemma_after_x_commit();
                            } else {
                                let k = i / 4 - 1;
                                assert(mid.x_value() == self.x_value());
                                assert forall|j: int|
                                    0 <= j < mid.ys.len() && j != k implies mid.y_row_wf(
                                    #[trigger] mid.ys[j],
                                ) && mid.serial_exclusive(mid.ys[j]) by {
                                    assert(self.y_row_wf(self.ys[j]));
                                    assert(self.serial_exclusive(self.ys[j]));
                                }
                                mid.lemma_after_y_commit(k);
                            }
                        } else {
                            self.lemma_with_slot(i, Slot::Menu(m.closed()));
                        }
                    }
                },
                Slot::Input(input) => {
                    if input.cursor is Some {
                        self.lemma_with_slot(i, Slot::Input(input.closed()));
                        self.with_slot(i, Slot::Input(input.closed())).lemma_flag(true);
                    }
                },
                Slot::Hidden => {},
            }
        }
    }

    /// The invariant gives every row its four slots and its data menu.
    pub proof fn lemma_rows(self)
        requires
            self.base_wf(),
            forall|k: int| 0 <= k < self.ys.len() ==> self.y_data_wf(#[trigger] self.ys[k]),
        ensures
            self.rows_wf(),
    {
    }

    /// Adding a curve keeps the invariant.
    pub proof fn lemma_with_curve(self)
        requires
            self.wf(),
        ensures
            self.with_curve().wf(),
    {
        let out = self.with_curve();
        if 4 * (self.ys.len() + 2) <= usize::MAX {
            assert(out.x_value() == self.x_value());
            assert forall|k: int| 0 <= k < out.ys.len() implies out.y_row_wf(#[trigger] out.ys[k])
                && out.serial_exclusive(out.ys[k]) by {
                if k < self.ys.len() {
                    assert(self.y_row_wf(self.ys[k]));
                    assert(self.serial_exclusive(self.ys[k]));
                }
            }
            if let Some(i) = self.selected {
                let r = i as int / 4;
                if r > 0 {
                    assert(out.ys[r - 1] == self.ys[r - 1]);
                }
            }
        }
    }

    /// Removing a curve keeps the invariant, and the only curve stays.
    pub proof fn lemma_without_curve(self)
        requires
            self.wf(),
        ensures
            self.without_curve().wf(),
            self.without_curve().ys.len() >= 1,
            self.ys.len() == 1 ==> self.without_curve() == self,
    {
        if self.ys.len() > 1 {
            let mid = GraphModel { ys: self.ys.drop_last(), ..self };
            assert(mid.x_value() == self.x_value());
            assert forall|k: int| 0 <= k < mid.ys.len() implies mid.y_row_wf(#[trigger] mid.ys[k])
                && mid.serial_exclusive(mid.ys[k]) by {
                assert(self.y_row_wf(self.ys[k]));
                assert(self.serial_exclusive(self.ys[k]));
            }
            mid.lemma_settled();
            let out = mid.settled();
            assert(out.x_value() == self.x_value());
            assert forall|k: int| 0 <= k < out.ys.len() implies out.y_row_wf(#[trigger] out.ys[k])
                && out.serial_exclusive(out.ys[k]) by {
                assert(mid.y_row_wf(mid.ys[k]));
            }
        }
    }
}

} // verus!
