//! Text cursor for a single-line input field, measured in characters.

use vstd::prelude::*;

verus! {

/// The clamped position: `pos` held within `0 ..= size`.
pub open spec fn clamped(pos: int, size: int) -> int {
    if pos > size {
        size
    } else {
        pos
    }
}

/// A cursor into a line of input, as a character offset from the left edge.
pub struct Cursor {
    pub pos: usize,
}

impl Default for Cursor {
    /// A fresh cursor sits at the left edge.
    fn default() -> (c: Cursor)
        ensures
            c.pos == 0,
    {
        Cursor { pos: 0 }
    }
}

impl Cursor {
    /// Move one character to the left, stopping at the left edge and
    /// clamping to the input's current length.
    pub fn move_cursor_left(&mut self, size_of_input: usize)
        ensures
            final(self).pos == clamped(
                if old(self).pos == 0 { 0int } else { old(self).pos - 1 },
                size_of_input as int,
            ),
    {
        let cursor_moved_left = self.pos.saturating_sub(1);
        self.pos = self.clamp_cursor(cursor_moved_left, size_of_input);
    }

    /// Move one character to the right, clamping to the input's current
    /// length.
    pub fn move_cursor_right(&mut self, size_of_input: usize)
        ensures
            final(self).pos == clamped(old(self).pos + 1, size_of_input as int),
    {
        let cursor_moved_right = self.pos.saturating_add(1);
        self.pos = self.clamp_cursor(cursor_moved_right, size_of_input);
    }

    /// Hold a candidate position within the bounds of the input.
    pub fn clamp_cursor(&self, new_cursor_pos: usize, size_of_input: usize) -> (r: usize)
        ensures
            r == clamped(new_cursor_pos as int, size_of_input as int),
    {
        if new_cursor_pos > size_of_input {
            size_of_input
        } else {
            new_cursor_pos
        }
    }

    /// Return to the left edge.
    pub fn reset_cursor(&mut self)
        ensures
            final(self).pos == 0,
    {
        self.pos = 0;
    }
}

} // verus!
