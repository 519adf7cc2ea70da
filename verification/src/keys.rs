//! The keyboard surface of a plot tab: which key does what in which mode.

use vstd::prelude::*;

use crate::field::Slot;
use crate::input::InputEdit;
use crate::model::GraphModel;

verus! {

/// A key press, as far as a plot tab tells keys apart.
#[derive(Clone, Copy, Debug, PartialEq, Eq, Structural)]
pub enum Key {
    /// A character key.
    Char(char),
    Enter,
    Esc,
    Tab,
    /// Shift and Tab.
    BackTab,
    Up,
    Down,
    Left,
    Right,
    Home,
    End,
    Backspace,
    /// Any other key.
    Other,
}

/// What a key press asks of the application around the plot tab.
#[derive(Clone, Copy, Debug, PartialEq, Eq, Structural)]
pub enum TabAction {
    /// Nothing beyond what the tab did itself.
    Nothing,
    /// Leave the application.
    Quit,
    /// Show the tab before this one.
    PrevTab,
    /// Show the tab after this one.
    NextTab,
    /// Open a new plot tab.
    NewTab,
    /// Close this tab.
    CloseTab,
}

/// What the keys mean at the moment.
#[derive(Clone, Copy, Debug, PartialEq, Eq, Structural)]
pub enum Mode {
    /// Looking at the plot: nothing is selected.
    View,
    /// Moving between the slots.
    Edit,
    /// Choosing a line of the open menu.
    Menu,
    /// Typing into the open input.
    Input,
}

impl GraphModel {
    /// The mode that the configuration is in.
    pub open spec fn mode(self) -> Mode {
        match self.selected {
            None => Mode::View,
            Some(i) => match self.slot(i as int) {
                Slot::Input(input) => if input.cursor is Some {
                    Mode::Input
                } else {
                    Mode::Edit
                },
                Slot::Menu(menu) => if menu.highlighted is Some {
                    Mode::Menu
                } else {
                    Mode::Edit
                },
                Slot::Hidden => Mode::Edit,
            },
        }
    }

    /// What a key press asks of the application. Only the view mode hands
    /// keys on: Control-q leaves, Tab and Shift-Tab change tabs, `N` opens a
    /// plot tab and `q` closes this one.
    pub open spec fn action_of(self, key: Key, control: bool) -> TabAction {
        if self.mode() == Mode::View {
            match key {
                Key::Char(c) => if c == 'q' && control {
                    TabAction::Quit
                } else if c == 'N' {
                    TabAction::NewTab
                } else if c == 'q' {
                    TabAction::CloseTab
                } else {
                    TabAction::Nothing
                },
                Key::BackTab => TabAction::PrevTab,
                Key::Tab => TabAction::NextTab,
                _ => TabAction::Nothing,
            }
        } else {
            TabAction::Nothing
        }
    }

    /// The configuration after a key press.
    pub open spec fn after_key(self, key: Key) -> GraphModel {
        match self.mode() {
            Mode::View => match key {
                Key::Char(c) => if c == 'e' {
                    self.started()
                } else {
                    self
                },
                _ => self,
            },
            Mode::Edit => match key {
                Key::Esc => self.stopped(),
                Key::Char(c) => if c == 'q' {
                    self.stopped()
                } else if c == 'a' {
                    self.with_curve()
                } else if c == 'd' {
                    self.without_curve()
                } else {
                    self
                },
                Key::BackTab => self.moved(1, false),
                Key::Tab => self.moved(1, true),
                Key::Up => self.moved(4, false),
                Key::Down => self.moved(4, true),
                Key::Left => self.moved(1, false),
                Key::Right => self.moved(1, true),
                Key::Enter => self.opened(),
                _ => self,
            },
            Mode::Input => match key {
                Key::Esc => self.committed(),
                Key::Enter => self.committed(),
                Key::Home => self.input_edited(InputEdit::Start),
                Key::End => self.input_edited(InputEdit::End),
                Key::Left => self.input_edited(InputEdit::Prev),
                Key::Right => self.input_edited(InputEdit::Next),
                Key::Char(c) => self.input_edited(InputEdit::Insert(c)),
                Key::Backspace => self.input_edited(InputEdit::Remove),
                _ => self,
            },
            Mode::Menu => match key {
                Key::Esc => self.cancelled(),
                Key::Char(c) => if c == 'q' {
                    self.cancelled()
                } else {
                    self
                },
                Key::Up => self.highlight_moved(false),
                Key::Down => self.highlight_moved(true),
                Key::Enter => self.committed(),
                _ => self,
            },
        }
    }
}

} // verus!
