//! One slot of a field group: hidden, a text input or a menu.

use vstd::prelude::*;

use crate::input::{InputEdit, InputModel, InputState};
use crate::menu::{MenuModel, MenuState};

verus! {

/// What a [`GraphFieldState`] stands for.
pub enum Slot {
    /// Not applicable: never drawn, never selected.
    Hidden,
    /// A free-text editor.
    Input(InputModel),
    /// A chooser over a candidate list.
    Menu(MenuModel),
}

impl Slot {
    /// A closed menu with nothing chosen.
    pub open spec fn fresh_menu() -> Slot {
        Slot::Menu(MenuModel { selected: None, highlighted: None })
    }

    /// A closed, empty input.
    pub open spec fn fresh_input() -> Slot {
        Slot::Input(InputModel { text: Seq::empty(), offset: 0, cursor: None })
    }

    /// The committed choice of a menu; `None` for any other slot.
    pub open spec fn choice(self) -> Option<usize> {
        match self {
            Slot::Menu(m) => m.selected,
            _ => None,
        }
    }

    /// The slot once opened for editing.
    pub open spec fn opened(self) -> Slot {
        match self {
            Slot::Menu(m) => Slot::Menu(m.opened()),
            Slot::Input(i) => Slot::Input(i.opened()),
            Slot::Hidden => Slot::Hidden,
        }
    }

    /// The slot once closed; a menu keeps the choice it had.
    pub open spec fn closed(self) -> Slot {
        match self {
            Slot::Menu(m) => Slot::Menu(m.closed()),
            Slot::Input(i) => Slot::Input(i.closed()),
            Slot::Hidden => Slot::Hidden,
        }
    }

    /// A menu with its highlight moved by one line in a list of `length`
    /// lines; any other slot as it is.
    pub open spec fn stepped(self, length: int, forward: bool) -> Slot {
        match self {
            Slot::Menu(m) => Slot::Menu(m.stepped(length, forward)),
            other => other,
        }
    }

    /// An input after one edit; any other slot as it is.
    pub open spec fn edited(self, edit: InputEdit) -> Slot {
        match self {
            Slot::Input(i) => Slot::Input(i.edited(edit)),
            other => other,
        }
    }

    /// Whether the slot is being edited: an open menu or an open input.
    pub open spec fn is_open(self) -> bool {
        match self {
            Slot::Menu(m) => m.highlighted is Some,
            Slot::Input(i) => i.cursor is Some,
            Slot::Hidden => false,
        }
    }
}

/// The kind of one slot of a field group, with its state.
#[derive(Debug)]
pub enum GraphFieldState {
    /// A slot that does not apply.
    Hidden,
    /// A text input.
    Input(InputState),
    /// A menu over a candidate list.
    Menu(MenuState),
}

impl View for GraphFieldState {
    type V = Slot;

    open spec fn view(&self) -> Slot {
        match self {
            GraphFieldState::Hidden => Slot::Hidden,
            GraphFieldState::Input(state) => Slot::Input(state@),
            GraphFieldState::Menu(state) => Slot::Menu(state@),
        }
    }
}

impl Default for GraphFieldState {
    /// A hidden slot.
    fn default() -> (r: Self)
        ensures
            r@ == Slot::Hidden,
    {
        GraphFieldState::Hidden
    }
}

impl GraphFieldState {
    /// A closed, empty input.
    pub fn new_input() -> (r: Self)
        ensures
            r@ == Slot::fresh_input(),
    {
        GraphFieldState::Input(InputState::default())
    }

    /// A closed menu with nothing chosen.
    pub fn new_menu() -> (r: Self)
        ensures
            r@ == Slot::fresh_menu(),
    {
        GraphFieldState::Menu(MenuState::default())
    }

    /// Opens a menu or an input for editing.
    pub fn open(&mut self)
        ensures
            final(self)@ == old(self)@.opened(),
    {
        match self {
            GraphFieldState::Menu(state) => state.open(),
            GraphFieldState::Input(state) => state.open(),
            GraphFieldState::Hidden => {},
        }
    }

    /// Closes a menu or an input; a menu keeps the choice it had.
    pub fn close(&mut self)
        ensures
            final(self)@ == old(self)@.closed(),
    {
        match self {
            GraphFieldState::Menu(state) => state.close(),
            GraphFieldState::Input(state) => state.close(),
            GraphFieldState::Hidden => {},
        }
    }

    /// Whether the slot is open for editing.
    pub fn opened(&self) -> (r: bool)
        ensures
            r == self@.is_open(),
    {
        match self {
            GraphFieldState::Menu(state) => state.opened(),
            GraphFieldState::Input(state) => state.opened(),
            GraphFieldState::Hidden => false,
        }
    }

    /// Moves the highlight of an open menu by one line in a list of
    /// `length` lines.
    pub fn step(&mut self, length: usize, forward: bool)
        ensures
            final(self)@ == old(self)@.stepped(length as int, forward),
    {
        match self {
            GraphFieldState::Menu(state) => {
                if forward {
                    state.next(length)
                } else {
                    state.prev(length)
                }
            },
            _ => {},
        }
    }

    /// Applies one edit to an open input.
    pub fn edit(&mut self, edit: InputEdit)
        ensures
            final(self)@ == old(self)@.edited(edit),
    {
        match self {
            GraphFieldState::Input(state) => state.edit(edit),
            _ => {},
        }
    }

    /// The range of characters of an input to draw in a field that is
    /// `max_width` characters wide; the input remembers where the range
    /// begins. Any other slot has nothing to draw.
    pub fn render_bounds(&mut self, max_width: usize) -> (r: (usize, usize))
        ensures
            match old(self)@ {
                Slot::Input(input) => (r.0 as int, r.1 as int) == input.window(max_width as int)
                    && final(self)@ == Slot::Input(
                    InputModel {
                        offset: if input.text.len() == 0 {
                            input.offset
                        } else {
                            r.0
                        },
                        ..input
                    },
                ),
                _ => r == (0usize, 0usize) && final(self)@ == old(self)@,
            },
    {
        match self {
            GraphFieldState::Input(state) => state.get_render_bounds(max_width),
            _ => (0, 0),
        }
    }

    /// The input of an input slot.
    pub fn input(&self) -> (r: Option<&InputState>)
        ensures
            match r {
                Some(state) => *self == GraphFieldState::Input(*state),
                None => !(self is Input),
            },
    {
        match self {
            GraphFieldState::Input(state) => Some(state),
            _ => None,
        }
    }

    /// The input of an input slot, to edit it in place.
    pub fn input_mut(&mut self) -> (r: Option<&mut InputState>)
        ensures
            match r {
                Some(state) => *old(self) == GraphFieldState::Input(*state) && *final(self)
                    == GraphFieldState::Input(*final(state)),
                None => !(*old(self) is Input) && *final(self) == *old(self),
            },
    {
        match self {
            GraphFieldState::Input(state) => Some(state),
            _ => None,
        }
    }

    /// The menu of a menu slot.
    pub fn menu(&self) -> (r: Option<&MenuState>)
        ensures
            match r {
                Some(state) => *self == GraphFieldState::Menu(*state),
                None => !(self is Menu),
            },
    {
        match self {
            GraphFieldState::Menu(state) => Some(state),
            _ => None,
        }
    }

    /// The menu of a menu slot, to edit it in place.
    pub fn menu_mut(&mut self) -> (r: Option<&mut MenuState>)
        ensures
            match r {
                Some(state) => *old(self) == GraphFieldState::Menu(*state) && *final(self)
                    == GraphFieldState::Menu(*final(state)),
                None => !(*old(self) is Menu) && *final(self) == *old(self),
            },
    {
        match self {
            GraphFieldState::Menu(state) => Some(state),
            _ => None,
        }
    }
}

} // verus!
