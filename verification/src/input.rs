//! A one-line text editor: the text, the cursor of an open editor and the
//! scroll offset of the visible window.

use vstd::prelude::*;

use crate::text::{chars_of, string_of};
use crate::window::{scroll_window, scrolled};

verus! {

/// One keystroke's worth of editing in an open input.
#[derive(Clone, Copy, Debug, PartialEq, Eq, Structural)]
pub enum InputEdit {
    /// Type a character at the cursor.
    Insert(char),
    /// Delete the character before the cursor.
    Remove,
    /// Cursor one place to the left.
    Prev,
    /// Cursor one place to the right.
    Next,
    /// Cursor before the first character.
    Start,
    /// Cursor behind the last character.
    End,
}

/// What an [`InputState`] stands for.
pub struct InputModel {
    /// The text typed so far.
    pub text: Seq<char>,
    /// First character that was visible when the window was last computed.
    pub offset: usize,
    /// Position of the cursor, counted in characters; `None` while closed.
    pub cursor: Option<usize>,
}

impl InputModel {
    /// The cursor stays within `[0, text.len()]`.
    pub open spec fn wf(self) -> bool {
        self.cursor matches Some(c) ==> c <= self.text.len()
    }

    /// The input once opened: the cursor stands behind the last character.
    pub open spec fn opened(self) -> InputModel {
        InputModel { cursor: Some(self.text.len() as usize), ..self }
    }

    /// The input once closed: the text stays as it is.
    pub open spec fn closed(self) -> InputModel {
        InputModel { cursor: None, ..self }
    }

    /// The input once `ch` was typed at the cursor of an open input.
    pub open spec fn inserted(self, ch: char) -> InputModel {
        match self.cursor {
            Some(c) => InputModel {
                text: self.text.insert(c as int, ch),
                cursor: Some((c + 1) as usize),
                ..self
            },
            None => self,
        }
    }

    /// The input once the character before the cursor was deleted.
    pub open spec fn removed(self) -> InputModel {
        match self.cursor {
            Some(c) if c > 0 => InputModel {
                text: self.text.remove(c - 1),
                cursor: Some((c - 1) as usize),
                offset: if self.offset > 0 {
                    (self.offset - 1) as usize
                } else {
                    0
                },
            },
            _ => self,
        }
    }

    /// The input with the cursor of an open input put at `position`.
    pub open spec fn cursor_at(self, position: int) -> InputModel {
        match self.cursor {
            Some(c) => InputModel { cursor: Some(position as usize), ..self },
            None => self,
        }
    }

    /// The cursor one place to the left, as far as the text goes.
    pub open spec fn left(self) -> int {
        match self.cursor {
            Some(c) if c > 0 => c - 1,
            _ => 0,
        }
    }

    /// The cursor one place to the right, as far as the text goes.
    pub open spec fn right(self) -> int {
        match self.cursor {
            Some(c) => if c < self.text.len() {
                c + 1
            } else {
                c as int
            },
            None => 0,
        }
    }

    /// The input after one edit.
    pub open spec fn edited(self, edit: InputEdit) -> InputModel {
        match edit {
            InputEdit::Insert(ch) => self.inserted(ch),
            InputEdit::Remove => self.removed(),
            InputEdit::Prev => self.cursor_at(self.left()),
            InputEdit::Next => self.cursor_at(self.right()),
            InputEdit::Start => self.cursor_at(0),
            InputEdit::End => self.cursor_at(self.text.len() as int),
        }
    }

    /// The character that the window has to show: the one before the cursor,
    /// or the first one when the cursor is at the start or the editor closed.
    pub open spec fn focus(self) -> int {
        match self.cursor {
            Some(c) => if c > 0 {
                c - 1
            } else {
                0
            },
            None => 0,
        }
    }

    /// The window `[start, end)` of at most `max_width` characters that
    /// `get_render_bounds` settles on: the previous window, moved right or
    /// left by the least distance that brings the focus into it.
    pub open spec fn window(self, max_width: int) -> (int, int) {
        if self.text.len() == 0 {
            (0, 0)
        } else {
            scrolled(self.text.len() as int, self.offset as int, self.focus(), max_width)
        }
    }
}

/// State of a text input: closed, or open with a cursor.
#[derive(Debug)]
pub struct InputState {
    content: String,
    offset: usize,
    cursor: Option<usize>,
}

impl View for InputState {
    type V = InputModel;

    closed spec fn view(&self) -> InputModel {
        InputModel { text: self.content@, offset: self.offset, cursor: self.cursor }
    }
}

impl Default for InputState {
    /// An empty, closed input.
    fn default() -> (r: Self)
        ensures
            r@ == (InputModel { text: Seq::empty(), offset: 0, cursor: None }),
    {
        InputState { content: String::new(), offset: 0, cursor: None }
    }
}

impl InputState {
    /// Holds of every input at all times: the cursor lies within the text.
    #[verifier::type_invariant]
    pub open spec fn cursor_in_text(&self) -> bool {
        self@.wf()
    }

    /// The text typed so far.
    pub fn content(&self) -> (r: &str)
        ensures
            r@ == self@.text,
    {
        self.content.as_str()
    }

    /// Position of the cursor, counted in characters; `None` while closed.
    pub fn cursor(&self) -> (r: Option<usize>)
        ensures
            r == self@.cursor,
            self@.wf(),
    {
        proof {
            use_type_invariant(self);
        }
        self.cursor
    }

    /// First character that was visible when the window was last computed.
    pub fn offset(&self) -> (r: usize)
        ensures
            r == self@.offset,
    {
        self.offset
    }

    /// Opens the input with the cursor behind the last character.
    pub fn open(&mut self)
        ensures
            final(self)@ == old(self)@.opened(),
    {
        let n = self.content.as_str().unicode_len();
        self.cursor = Some(n);
    }

    /// Closes the input; the text stays as it is.
    pub fn close(&mut self)
        ensures
            final(self)@ == old(self)@.closed(),
    {
        self.cursor = None;
    }

    /// Whether the input is open.
    pub fn opened(&self) -> (r: bool)
        ensures
            r == self@.cursor is Some,
    {
        self.cursor.is_some()
    }

    /// Types `ch` at the cursor and moves the cursor behind it. A closed
    /// input takes no characters.
    pub fn insert(&mut self, ch: char)
        ensures
            final(self)@ == old(self)@.inserted(ch),
    {
        proof {
            use_type_invariant(&*self);
        }
        if let Some(i) = self.cursor {
            let chars = chars_of(self.content.as_str());
            let mut next = string_of(&chars, 0, i);
            next.push(ch);
            let tail = string_of(&chars, i, chars.len());
            next.append(tail.as_str());
            let n = next.as_str().unicode_len();
            assert(next@ =~= old(self)@.text.insert(i as int, ch));
            self.content = next;
            self.cursor = Some(i + 1);
        }
    }

    /// Deletes the character before the cursor and moves the cursor onto its
    /// place. Nothing happens at the start of the text or while closed.
    pub fn remove(&mut self)
        ensures
            final(self)@ == old(self)@.removed(),
    {
        proof {
            use_type_invariant(&*self);
        }
        if let Some(i) = self.cursor {
            if i > 0 {
                let chars = chars_of(self.content.as_str());
                let mut next = string_of(&chars, 0, i - 1);
                let tail = string_of(&chars, i, chars.len());
                next.append(tail.as_str());
                assert(next@ =~= old(self)@.text.remove(i - 1));
                self.cursor = Some(i - 1);
                self.content = next;
                if self.offset > 0 {
                    self.offset = self.offset - 1;
                }
            }
        }
    }

    /// Moves the cursor one character to the left, if there is one.
    pub fn goto_prev(&mut self)
        ensures
            final(self)@ == old(self)@.cursor_at(old(self)@.left()),
    {
        proof {
            use_type_invariant(&*self);
        }
        if let Some(i) = self.cursor {
            if i > 0 {
                self.cursor = Some(i - 1);
            }
        }
    }

    /// Moves the cursor one character to the right, if there is one.
    pub fn goto_next(&mut self)
        ensures
            final(self)@ == old(self)@.cursor_at(old(self)@.right()),
    {
        proof {
            use_type_invariant(&*self);
        }
        if let Some(i) = self.cursor {
            let n = self.content.as_str().unicode_len();
            if i < n {
                self.cursor = Some(i + 1);
            }
        }
    }

    /// Moves the cursor before the first character.
    pub fn goto_start(&mut self)
        ensures
            final(self)@ == old(self)@.cursor_at(0),
    {
        if self.cursor.is_some() {
            self.cursor = Some(0);
        }
    }

    /// Moves the cursor behind the last character.
    pub fn goto_end(&mut self)
        ensures
            final(self)@ == old(self)@.cursor_at(old(self)@.text.len() as int),
    {
        if self.cursor.is_some() {
            let n = self.content.as_str().unicode_len();
            self.cursor = Some(n);
        }
    }

    /// Applies one edit. A closed input takes none.
    pub fn edit(&mut self, edit: InputEdit)
        ensures
            final(self)@ == old(self)@.edited(edit),
    {
        match edit {
            InputEdit::Insert(ch) => self.insert(ch),
            InputEdit::Remove => self.remove(),
            InputEdit::Prev => self.goto_prev(),
            InputEdit::Next => self.goto_next(),
            InputEdit::Start => self.goto_start(),
            InputEdit::End => self.goto_end(),
        }
    }

    /// The range `[start, end)` of characters to draw in a field that is
    /// `max_width` characters wide, and remembers `start` as the new offset.
    /// The window follows the cursor: it moves only as far as is needed to
    /// show the character before the cursor. An empty text has an empty
    /// window and keeps its offset.
    pub fn get_render_bounds(&mut self, max_width: usize) -> (r: (usize, usize))
        ensures
            (r.0 as int, r.1 as int) == old(self)@.window(max_width as int),
            r.0 <= r.1 <= old(self)@.text.len(),
            r.1 - r.0 <= max_width,
            old(self)@.text.len() > 0 && max_width > 0 ==> r.0 <= old(self)@.focus() < r.1,
            final(self)@ == (InputModel {
                offset: if old(self)@.text.len() == 0 {
                    old(self)@.offset
                } else {
                    r.0
                },
                ..old(self)@
            }),
    {
        proof {
            use_type_invariant(&*self);
        }
        let n = self.content.as_str().unicode_len();
        if n == 0 {
            return (0, 0);
        }
        let focus: usize = match self.cursor {
            Some(c) => if c > 0 {
                c - 1
            } else {
                0
            },
            None => 0,
        };
        let (start, end) = scroll_window(n, self.offset, focus, max_width);
        self.offset = start;
        (start, end)
    }
}

} // verus!
