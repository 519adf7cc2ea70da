//! A drop-down chooser: the committed choice and, while the list is open,
//! the highlighted line.

use vstd::arithmetic::div_mod::{lemma_fundamental_div_mod, lemma_fundamental_div_mod_converse};
use vstd::prelude::*;

verus! {

/// What a [`MenuState`] stands for.
pub struct MenuModel {
    /// The committed choice, as an index into the candidate list.
    pub selected: Option<usize>,
    /// The highlighted line of the open list; `None` while closed.
    pub highlighted: Option<usize>,
}

impl MenuModel {
    /// The menu once opened: the committed choice is highlighted, or the
    /// first line when nothing is chosen yet.
    pub open spec fn opened(self) -> MenuModel {
        MenuModel {
            highlighted: Some(
                match self.selected {
                    Some(i) => i,
                    None => 0,
                },
            ),
            ..self
        }
    }

    /// The menu once closed without a commit.
    pub open spec fn closed(self) -> MenuModel {
        MenuModel { highlighted: None, ..self }
    }

    /// The open menu with the highlight one line further in a cyclic list of
    /// `length` lines. A closed menu and an empty list stay as they are.
    pub open spec fn stepped(self, length: int, forward: bool) -> MenuModel {
        match self.highlighted {
            Some(i) if length > 0 => MenuModel {
                highlighted: Some(
                    (if forward {
                        cyclic_next(i as int, length)
                    } else {
                        cyclic_prev(i as int, length)
                    }) as usize,
                ),
                ..self
            },
            _ => self,
        }
    }

    /// The menu once the highlighted line was committed.
    pub open spec fn committed(self) -> MenuModel {
        MenuModel { selected: self.highlighted, highlighted: None }
    }
}

/// Index that follows `i` in a cyclic list of `length` entries.
pub open spec fn cyclic_next(i: int, length: int) -> int {
    (i + 1) % length
}

/// Index that precedes `i` in a cyclic list of `length` entries.
pub open spec fn cyclic_prev(i: int, length: int) -> int {
    (i + length - 1) % length
}

/// Stepping a cyclic index goes by its remainder: one down, or from the
/// first entry to the last; one up, or from the last entry to the first.
pub proof fn lemma_cyclic_steps(i: int, length: int)
    requires
        0 <= i,
        0 < length,
    ensures
        cyclic_prev(i, length) == (if i % length == 0 {
            length - 1
        } else {
            i % length - 1
        }),
        cyclic_next(i, length) == (if i % length == length - 1 {
            0
        } else {
            i % length + 1
        }),
        0 <= cyclic_prev(i, length) < length,
        0 <= cyclic_next(i, length) < length,
{
    let q = i / length;
    let r = i % length;
    lemma_fundamental_div_mod(i, length);
    assert(i == q * length + r) by (nonlinear_arith)
        requires
            i == length * q + r,
    ;
    assert((q + 1) * length == q * length + length) by (nonlinear_arith);
    if r == 0 {
        lemma_fundamental_div_mod_converse(i + length - 1, length, q, length - 1);
    } else {
        lemma_fundamental_div_mod_converse(i + length - 1, length, q + 1, r - 1);
    }
    if r == length - 1 {
        lemma_fundamental_div_mod_converse(i + 1, length, q + 1, 0);
    } else {
        lemma_fundamental_div_mod_converse(i + 1, length, q, r + 1);
    }
}

/// State of a menu: closed, or open with one line highlighted.
#[derive(Debug)]
pub struct MenuState {
    selected: Option<usize>,
    highlighted: Option<usize>,
}

impl View for MenuState {
    type V = MenuModel;

    closed spec fn view(&self) -> MenuModel {
        MenuModel { selected: self.selected, highlighted: self.highlighted }
    }
}

impl Default for MenuState {
    /// A closed menu with nothing chosen.
    fn default() -> (r: Self)
        ensures
            r@ == (MenuModel { selected: None, highlighted: None }),
    {
        MenuState { selected: None, highlighted: None }
    }
}

impl MenuState {
    /// Opens the list with the committed choice highlighted, or the first
    /// line when nothing is chosen yet.
    pub fn open(&mut self)
        ensures
            final(self)@ == old(self)@.opened(),
    {
        self.highlighted = Some(
            match self.selected {
                Some(i) => i,
                None => 0,
            },
        );
    }

    /// Closes the list and keeps the committed choice.
    pub fn close(&mut self)
        ensures
            final(self)@ == old(self)@.closed(),
    {
        self.highlighted = None;
    }

    /// Whether the list is open.
    pub fn opened(&self) -> (r: bool)
        ensures
            r == self@.highlighted is Some,
    {
        self.highlighted.is_some()
    }

    /// Moves the highlight one line up in a list of `length` candidates,
    /// from the first line to the last. Nothing moves in a closed menu or
    /// an empty list.
    pub fn prev(&mut self, length: usize)
        ensures
            final(self)@ == old(self)@.stepped(length as int, false),
    {
        if let Some(i) = self.highlighted {
            if length > 0 {
                let r: usize = i % length;
                let p: usize = if r == 0 {
                    length - 1
                } else {
                    r - 1
                };
                proof {
                    lemma_cyclic_steps(i as int, length as int);
                }
                self.highlighted = Some(p);
            }
        }
    }

    /// Moves the highlight one line down in a list of `length` candidates,
    /// from the last line to the first. Nothing moves in a closed menu or
    /// an empty list.
    pub fn next(&mut self, length: usize)
        ensures
            final(self)@ == old(self)@.stepped(length as int, true),
    {
        if let Some(i) = self.highlighted {
            if length > 0 {
                let r: usize = i % length;
                let p: usize = if r == length - 1 {
                    0
                } else {
                    r + 1
                };
                proof {
                    lemma_cyclic_steps(i as int, length as int);
                }
                self.highlighted = Some(p);
            }
        }
    }

    /// Commits the highlighted line as the choice and closes the list.
    pub fn select(&mut self)
        ensures
            final(self)@ == old(self)@.committed(),
    {
        self.selected = self.highlighted;
        self.highlighted = None;
    }

    /// The committed choice, if any.
    pub fn selected(&self) -> (r: Option<usize>)
        ensures
            r == self@.selected,
    {
        self.selected
    }

    /// The highlighted line of the open list.
    pub fn highlighted(&self) -> (r: Option<usize>)
        ensures
            r == self@.highlighted,
    {
        self.highlighted
    }

    /// Replaces the committed choice; the list stays open or closed as it was.
    pub fn set_select(&mut self, selected: Option<usize>)
        ensures
            final(self)@ == (MenuModel { selected, ..old(self)@ }),
    {
        self.selected = selected;
    }
}

} // verus!
