//! The list of a file picker: the entries of the directory shown, the entry
//! under the cursor and the scroll offset.

use vstd::prelude::*;

use crate::menu::{cyclic_next, cyclic_prev, lemma_cyclic_steps};
use crate::window::{scroll_window, scrolled};

verus! {

/// One entry of a directory.
#[derive(Clone, Debug)]
pub enum FilePickerItem {
    File(String),
    Directory(String),
}

/// What a [`FilePickerState`] stands for.
pub struct PickerModel {
    /// The entries of the directory shown.
    pub items: Seq<FilePickerItem>,
    /// Index of the entry under the cursor.
    pub selection: usize,
    /// First entry that was visible when the window was last computed.
    pub offset: usize,
}

impl PickerModel {
    /// The cursor stands on an entry, or at 0 in an empty directory.
    pub open spec fn wf(self) -> bool {
        self.selection < self.items.len() || (self.items.len() == 0 && self.selection == 0)
    }

    /// The window `[start, end)` of at most `max_height` entries that shows
    /// the entry under the cursor; empty for an empty directory.
    pub open spec fn window(self, max_height: int) -> (int, int) {
        if self.items.len() == 0 {
            (0, 0)
        } else {
            scrolled(
                self.items.len() as int,
                self.offset as int,
                self.selection as int,
                max_height,
            )
        }
    }
}

/// State of the list of a file picker.
#[derive(Debug)]
pub struct FilePickerState {
    directory_contents: Vec<FilePickerItem>,
    selection_index: usize,
    offset: usize,
}

impl View for FilePickerState {
    type V = PickerModel;

    closed spec fn view(&self) -> PickerModel {
        PickerModel {
            items: self.directory_contents@,
            selection: self.selection_index,
            offset: self.offset,
        }
    }
}

impl FilePickerState {
    /// Holds of every picker at all times.
    #[verifier::type_invariant]
    pub open spec fn cursor_on_entry(&self) -> bool {
        self@.wf()
    }

    /// A picker that shows `directory_contents`, the cursor on the first
    /// entry.
    pub fn new(directory_contents: Vec<FilePickerItem>) -> (r: Self)
        ensures
            r@ == (PickerModel { items: directory_contents@, selection: 0, offset: 0 }),
    {
        FilePickerState { directory_contents, selection_index: 0, offset: 0 }
    }

    /// Shows another directory: the cursor goes to its first entry, the
    /// offset stays.
    pub fn set_contents(&mut self, directory_contents: Vec<FilePickerItem>)
        ensures
            final(self)@ == (PickerModel {
                items: directory_contents@,
                selection: 0,
                offset: old(self)@.offset,
            }),
    {
        self.selection_index = 0;
        self.directory_contents = directory_contents;
    }

    /// The entries of the directory shown.
    pub fn directory_contents(&self) -> (r: &Vec<FilePickerItem>)
        ensures
            r@ == self@.items,
    {
        &self.directory_contents
    }

    /// Index of the entry under the cursor.
    pub fn selection_index(&self) -> (r: usize)
        ensures
            r == self@.selection,
            self@.wf(),
    {
        proof {
            use_type_invariant(self);
        }
        self.selection_index
    }

    /// The entry under the cursor: what `Enter` would open. `None` in an
    /// empty directory.
    pub fn open_file_or_directory(&self) -> (r: Option<&FilePickerItem>)
        ensures
            match r {
                Some(item) => self@.items.len() > 0 && *item == self@.items[self@.selection as int],
                None => self@.items.len() == 0,
            },
    {
        proof {
            use_type_invariant(self);
        }
        if self.directory_contents.len() == 0 {
            None
        } else {
            Some(&self.directory_contents[self.selection_index])
        }
    }

    /// Moves the cursor to the entry before, from the first to the last.
    pub fn prev_file(&mut self)
        ensures
            final(self)@ == (PickerModel {
                selection: if old(self)@.items.len() == 0 {
                    old(self)@.selection
                } else {
                    cyclic_prev(old(self)@.selection as int, old(self)@.items.len() as int) as usize
                },
                ..old(self)@
            }),
    {
        proof {
            use_type_invariant(&*self);
        }
        let length = self.directory_contents.len();
        if length == 0 {
            return ;
        }
        proof {
            lemma_cyclic_steps(self.selection_index as int, length as int);
            vstd::arithmetic::div_mod::lemma_small_mod(self.selection_index as nat, length as nat);
        }
        self.selection_index = if self.selection_index == 0 {
            length - 1
        } else {
            self.selection_index - 1
        };
    }

    /// Moves the cursor to the entry after, from the last to the first.
    pub fn next_file(&mut self)
        ensures
            final(self)@ == (PickerModel {
                selection: if old(self)@.items.len() == 0 {
                    old(self)@.selection
                } else {
                    cyclic_next(old(self)@.selection as int, old(self)@.items.len() as int) as usize
                },
                ..old(self)@
            }),
    {
        proof {
            use_type_invariant(&*self);
        }
        let length = self.directory_contents.len();
        if length == 0 {
            return ;
        }
        proof {
            lemma_cyclic_steps(self.selection_index as int, length as int);
            vstd::arithmetic::div_mod::lemma_small_mod(self.selection_index as nat, length as nat);
        }
        self.selection_index = if self.selection_index == length - 1 {
            0
        } else {
            self.selection_index + 1
        };
    }

    /// The range `[start, end)` of entries to draw in a list that is
    /// `max_height` lines high, and remembers `start` as the new offset. The
    /// window follows the cursor. An empty directory has an empty window and
    /// keeps its offset.
    pub fn get_render_bounds(&mut self, max_height: usize) -> (r: (usize, usize))
        ensures
            (r.0 as int, r.1 as int) == old(self)@.window(max_height as int),
            r.0 <= r.1 <= old(self)@.items.len(),
            r.1 - r.0 <= max_height,
            old(self)@.items.len() > 0 && max_height > 0 ==> r.0 <= old(self)@.selection < r.1,
            final(self)@ == (PickerModel {
                offset: if old(self)@.items.len() == 0 {
                    old(self)@.offset
                } else {
                    r.0
                },
                ..old(self)@
            }),
    {
        proof {
            use_type_invariant(&*self);
        }
        let length = self.directory_contents.len();
        if length == 0 {
            return (0, 0);
        }
        let (start, end) = scroll_window(length, self.offset, self.selection_index, max_height);
        self.offset = start;
        (start, end)
    }
}

} // verus!
