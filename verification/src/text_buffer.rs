//! The edited text: a sequence of characters and a cursor between two of them.

use crate::chars::{chars_of, string_of};
use vstd::prelude::*;

verus! {

/// An ordered sequence of characters with a cursor. The cursor is a character
/// index from 0, before the first character, to the length, behind the last.
pub struct TextBuffer {
    chars: Vec<char>,
    cursor: usize,
}

/// What a `TextBuffer` stands for.
pub struct TextBufferView {
    pub chars: Seq<char>,
    pub cursor: int,
}

impl View for TextBuffer {
    type V = TextBufferView;

    closed spec fn view(&self) -> TextBufferView {
        TextBufferView { chars: self.chars@, cursor: self.cursor as int }
    }
}

impl TextBuffer {
    /// The cursor stands inside the text or at one of its ends.
    pub closed spec fn wf(&self) -> bool {
        self.cursor <= self.chars@.len()
    }

    /// Every well-formed buffer has its cursor within `0..=len`.
    pub proof fn lemma_cursor_in_text(&self)
        requires
            self.wf(),
        ensures
            0 <= self@.cursor <= self@.chars.len(),
    {
    }

    /// An empty text with the cursor at 0.
    pub fn new() -> (buffer: TextBuffer)
        ensures
            buffer.wf(),
            buffer@.chars == Seq::<char>::empty(),
            buffer@.cursor == 0,
    {
        TextBuffer { chars: Vec::new(), cursor: 0 }
    }

    /// Puts `ch` at the cursor and moves the cursor behind it.
    pub fn insert_char(&mut self, ch: char)
        requires
            old(self).wf(),
        ensures
            final(self).wf(),
            final(self)@.chars == old(self)@.chars.insert(old(self)@.cursor, ch),
            final(self)@.cursor == old(self)@.cursor + 1,
    {
        self.chars.insert(self.cursor, ch);
        let len = self.chars.len();
        assert(self.cursor < len);
        self.cursor += 1;
    }

    /// Removes the character before the cursor and moves the cursor onto its
    /// place. At the start of the text nothing changes. Returns whether a
    /// character was removed.
    pub fn delete_char_before_cursor(&mut self) -> (removed: bool)
        requires
            old(self).wf(),
        ensures
            final(self).wf(),
            removed == (old(self)@.cursor > 0),
            removed ==> final(self)@.chars == old(self)@.chars.remove(old(self)@.cursor - 1)
                && final(self)@.cursor == old(self)@.cursor - 1,
            !removed ==> final(self)@ == old(self)@,
    {
        if self.cursor > 0 {
            self.chars.remove(self.cursor - 1);
            self.cursor -= 1;
            true
        } else {
            false
        }
    }

    /// Moves the cursor one character towards the start, if it is not there.
    pub fn move_cursor_left(&mut self)
        requires
            old(self).wf(),
        ensures
            final(self).wf(),
            final(self)@.chars == old(self)@.chars,
            final(self)@.cursor == if old(self)@.cursor > 0 {
                old(self)@.cursor - 1
            } else {
                0
            },
    {
        if self.cursor > 0 {
            self.cursor -= 1;
        }
    }

    /// Moves the cursor one character towards the end, if it is not there.
    pub fn move_cursor_right(&mut self)
        requires
            old(self).wf(),
        ensures
            final(self).wf(),
            final(self)@.chars == old(self)@.chars,
            final(self)@.cursor == if old(self)@.cursor < old(self)@.chars.len() {
                old(self)@.cursor + 1
            } else {
                old(self)@.cursor
            },
    {
        if self.cursor < self.chars.len() {
            self.cursor += 1;
        }
    }

    /// The cursor's character index.
    pub fn get_cursor_position(&self) -> (cursor: usize)
        ensures
            cursor == self@.cursor,
    {
        self.cursor
    }

    /// The number of characters.
    pub fn len(&self) -> (len: usize)
        ensures
            len == self@.chars.len(),
    {
        self.chars.len()
    }

    /// The characters, in order.
    pub fn chars(&self) -> (chars: &Vec<char>)
        ensures
            chars@ == self@.chars,
    {
        &self.chars
    }

    /// The text as a string.
    pub fn get_text(&self) -> (text: String)
        ensures
            text@ == self@.chars,
    {
        string_of(&self.chars)
    }

    /// Replaces the whole text and puts the cursor behind its last character.
    pub fn set_text(&mut self, text: &str)
        ensures
            final(self).wf(),
            final(self)@.chars == text@,
            final(self)@.cursor == text@.len(),
    {
        self.chars = chars_of(text);
        self.cursor = self.chars.len();
    }
}

} // verus!
