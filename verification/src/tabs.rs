//! The open tabs of the application and the one that is shown.

use vstd::prelude::*;

use crate::menu::{cyclic_next, cyclic_prev, lemma_cyclic_steps};

verus! {

/// What a [`Tabs`] stands for.
pub struct TabsModel<T> {
    /// The state of every tab, in the order of the tabs.
    pub states: Seq<T>,
    /// Index of the tab that is shown.
    pub current: usize,
}

impl<T> TabsModel<T> {
    /// The tab that is shown is one of the tabs; without tabs it is 0.
    pub open spec fn wf(self) -> bool {
        self.current < self.states.len() || (self.states.len() == 0 && self.current == 0)
    }
}

/// The open tabs, each with its state, and the one that is shown.
#[derive(Debug)]
pub struct Tabs<T> {
    states: Vec<T>,
    current: usize,
}

impl<T> View for Tabs<T> {
    type V = TabsModel<T>;

    closed spec fn view(&self) -> TabsModel<T> {
        TabsModel { states: self.states@, current: self.current }
    }
}

impl<T> Tabs<T> {
    /// Holds of every set of tabs at all times.
    #[verifier::type_invariant]
    pub open spec fn current_is_a_tab(&self) -> bool {
        self@.wf()
    }

    /// No tabs yet.
    pub fn new() -> (r: Self)
        ensures
            r@ == (TabsModel::<T> { states: Seq::empty(), current: 0 }),
    {
        Tabs { states: Vec::new(), current: 0 }
    }

    /// Opens a tab behind the others and shows it.
    pub fn open(&mut self, state: T)
        ensures
            final(self)@ == (TabsModel {
                states: old(self)@.states.push(state),
                current: old(self)@.states.len() as usize,
            }),
    {
        proof {
            use_type_invariant(&*self);
        }
        let mut states: Vec<T> = Vec::new();
        self.current = 0;
        core::mem::swap(&mut self.states, &mut states);
        states.push(state);
        let last = states.len() - 1;
        self.states = states;
        self.current = last;
    }

    /// Closes the tab that is shown, unless it is the only one, and shows
    /// the tab that takes its place, or the last one.
    pub fn close(&mut self)
        ensures
            final(self)@ == (if old(self)@.states.len() <= 1 {
                old(self)@
            } else {
                TabsModel {
                    states: old(self)@.states.remove(old(self)@.current as int),
                    current: if old(self)@.current + 1 < old(self)@.states.len() {
                        old(self)@.current
                    } else {
                        (old(self)@.states.len() - 2) as usize
                    },
                }
            }),
    {
        proof {
            use_type_invariant(&*self);
        }
        if self.states.len() <= 1 {
            return ;
        }
        let at = self.current;
        let mut states: Vec<T> = Vec::new();
        self.current = 0;
        core::mem::swap(&mut self.states, &mut states);
        states.remove(at);
        let last = states.len() - 1;
        self.states = states;
        self.current = if at < last {
            at
        } else {
            last
        };
    }

    /// Shows the tab after the one shown, from the last to the first.
    pub fn next(&mut self)
        ensures
            final(self)@ == (TabsModel {
                current: if old(self)@.states.len() == 0 {
                    old(self)@.current
                } else {
                    cyclic_next(old(self)@.current as int, old(self)@.states.len() as int) as usize
                },
                ..old(self)@
            }),
    {
        proof {
            use_type_invariant(&*self);
        }
        let length = self.states.len();
        if length == 0 {
            return ;
        }
        proof {
            lemma_cyclic_steps(self.current as int, length as int);
            vstd::arithmetic::div_mod::lemma_small_mod(self.current as nat, length as nat);
        }
        self.current = if self.current == length - 1 {
            0
        } else {
            self.current + 1
        };
    }

    /// Shows the tab before the one shown, from the first to the last.
    pub fn prev(&mut self)
        ensures
            final(self)@ == (TabsModel {
                current: if old(self)@.states.len() == 0 {
                    old(self)@.current
                } else {
                    cyclic_prev(old(self)@.current as int, old(self)@.states.len() as int) as usize
                },
                ..old(self)@
            }),
    {
        proof {
            use_type_invariant(&*self);
        }
        let length = self.states.len();
        if length == 0 {
            return ;
        }
        proof {
            lemma_cyclic_steps(self.current as int, length as int);
            vstd::arithmetic::div_mod::lemma_small_mod(self.current as nat, length as nat);
        }
        self.current = if self.current == 0 {
            length - 1
        } else {
            self.current - 1
        };
    }

    /// Number of tabs.
    pub fn len(&self) -> (r: usize)
        ensures
            r == self@.states.len(),
    {
        self.states.len()
    }

    /// Index of the tab that is shown.
    pub fn current(&self) -> (r: usize)
        ensures
            r == self@.current,
            self@.wf(),
    {
        proof {
            use_type_invariant(self);
        }
        self.current
    }

    /// The states of all tabs.
    pub fn states(&self) -> (r: &Vec<T>)
        ensures
            r@ == self@.states,
    {
        &self.states
    }

    /// The state of the tab that is shown, to change it in place.
    pub fn state_mut(&mut self) -> (r: &mut T)
        requires
            old(self)@.states.len() > 0,
        ensures
            *r == old(self)@.states[old(self)@.current as int],
            final(self)@ == (TabsModel {
                states: old(self)@.states.update(old(self)@.current as int, *final(r)),
                ..old(self)@
            }),
    {
        proof {
            use_type_invariant(&*self);
        }
        &mut self.states[self.current]
    }

    /// The state of the tab `index`, to change it in place.
    pub fn get_mut(&mut self, index: usize) -> (r: &mut T)
        requires
            index < old(self)@.states.len(),
        ensures
            *r == old(self)@.states[index as int],
            final(self)@ == (TabsModel {
                states: old(self)@.states.update(index as int, *final(r)),
                ..old(self)@
            }),
    {
        proof {
            use_type_invariant(&*self);
        }
        &mut self.states[index]
    }

    /// The state of the tab that is shown.
    pub fn state(&self) -> (r: &T)
        requires
            self@.states.len() > 0,
        ensures
            *r == self@.states[self@.current as int],
    {
        proof {
            use_type_invariant(self);
        }
        &self.states[self.current]
    }
}

} // verus!
