//! The text viewer's state: a document held as lines, a cursor, and the
//! terminal size.  Every transition keeps the cursor on the screen and in
//! the document; what to paint is decided here, painting itself is not.

use vstd::prelude::*;

verus! {

/// A position on the screen or in the document, one-based.
#[derive(Debug, PartialEq)]
pub struct Coordinates {
    pub x: usize,
    pub y: usize,
}

/// The viewer's whole state.
pub struct TextViewer {
    pub lines: Vec<String>,
    pub doc_length: usize,
    pub cur_pos: Coordinates,
    pub terminal_size: Coordinates,
    pub file_name: String,
}

impl TextViewer {
    /// Builds the state for a document: the cursor starts in the first
    /// column of the document's last line.
    pub fn init(lines: Vec<String>, terminal_x: usize, terminal_y: usize, file_name: String) -> (v:
        TextViewer)
        ensures
            v.lines == lines,
            v.doc_length == lines@.len(),
            v.cur_pos.x == 1,
            v.cur_pos.y == lines@.len(),
            v.terminal_size.x == terminal_x,
            v.terminal_size.y == terminal_y,
            v.file_name == file_name,
    {
        let doc_length = lines.len();
        TextViewer {
            lines,
            doc_length,
            cur_pos: Coordinates { x: 1, y: doc_length },
            terminal_size: Coordinates { x: terminal_x, y: terminal_y },
            file_name,
        }
    }

    /// Puts the cursor at the given position.
    pub fn set_pos(&mut self, x: usize, y: usize)
        ensures
            final(self).cur_pos.x == x,
            final(self).cur_pos.y == y,
            final(self).lines == old(self).lines,
            final(self).doc_length == old(self).doc_length,
            final(self).terminal_size == old(self).terminal_size,
            final(self).file_name == old(self).file_name,
    {
        self.cur_pos.x = x;
        self.cur_pos.y = y;
    }

    /// Moves the cursor one column left, stopping at the first column.
    pub fn dec_x(&mut self)
        ensures
            old(self).cur_pos.x > 1 ==> final(self).cur_pos.x == old(self).cur_pos.x - 1,
            old(self).cur_pos.x <= 1 ==> final(self).cur_pos.x == old(self).cur_pos.x,
            final(self).cur_pos.y == old(self).cur_pos.y,
            final(self).lines == old(self).lines,
            final(self).doc_length == old(self).doc_length,
            final(self).terminal_size == old(self).terminal_size,
            final(self).file_name == old(self).file_name,
    {
        if self.cur_pos.x > 1 {
            self.cur_pos.x -= 1;
        }
    }

    /// Moves the cursor one row up, stopping at the first row.
    pub fn dec_y(&mut self)
        ensures
            old(self).cur_pos.y > 1 ==> final(self).cur_pos.y == old(self).cur_pos.y - 1,
            old(self).cur_pos.y <= 1 ==> final(self).cur_pos.y == old(self).cur_pos.y,
            final(self).cur_pos.x == old(self).cur_pos.x,
            final(self).lines == old(self).lines,
            final(self).doc_length == old(self).doc_length,
            final(self).terminal_size == old(self).terminal_size,
            final(self).file_name == old(self).file_name,
    {
        if self.cur_pos.y > 1 {
            self.cur_pos.y -= 1;
        }
    }

    /// Moves the cursor one column right, stopping at the terminal's width.
    pub fn inc_x(&mut self)
        ensures
            old(self).cur_pos.x < old(self).terminal_size.x ==> final(self).cur_pos.x == old(
                self,
            ).cur_pos.x + 1,
            old(self).cur_pos.x >= old(self).terminal_size.x ==> final(self).cur_pos.x == old(
                self,
            ).cur_pos.x,
            final(self).cur_pos.y == old(self).cur_pos.y,
            final(self).lines == old(self).lines,
            final(self).doc_length == old(self).doc_length,
            final(self).terminal_size == old(self).terminal_size,
            final(self).file_name == old(self).file_name,
    {
        if self.cur_pos.x < self.terminal_size.x {
            self.cur_pos.x += 1;
        }
    }

    /// Moves the cursor one row down, stopping at the document's last line.
    pub fn inc_y(&mut self)
        ensures
            old(self).cur_pos.y < old(self).doc_length ==> final(self).cur_pos.y == old(
                self,
            ).cur_pos.y + 1,
            old(self).cur_pos.y >= old(self).doc_length ==> final(self).cur_pos.y == old(
                self,
            ).cur_pos.y,
            final(self).cur_pos.x == old(self).cur_pos.x,
            final(self).lines == old(self).lines,
            final(self).doc_length == old(self).doc_length,
            final(self).terminal_size == old(self).terminal_size,
            final(self).file_name == old(self).file_name,
    {
        if self.cur_pos.y < self.doc_length {
            self.cur_pos.y += 1;
        }
    }

    /// Which document lines the screen shows: the whole document when it
    /// fits, else the top of it while the cursor is on the first screenful,
    /// else the screenful that ends at the cursor's line.  Three rows are
    /// kept for the header and footer.
    pub fn visible_window(&self) -> (r: (usize, usize))
        requires
            self.doc_length == self.lines@.len(),
            self.terminal_size.y >= 3,
            self.cur_pos.y <= self.doc_length,
        ensures
            r.0 <= r.1 <= self.lines@.len(),
            r == if self.doc_length < self.terminal_size.y {
                (0usize, self.doc_length)
            } else if self.cur_pos.y <= self.terminal_size.y {
                (0usize, (self.terminal_size.y - 3) as usize)
            } else {
                (
                    (self.cur_pos.y - (self.terminal_size.y - 3)) as usize,
                    self.cur_pos.y,
                )
            },
    {
        if self.doc_length < self.terminal_size.y {
            (0, self.doc_length)
        } else if self.cur_pos.y <= self.terminal_size.y {
            (0, self.terminal_size.y - 3)
        } else {
            (self.cur_pos.y - (self.terminal_size.y - 3), self.cur_pos.y)
        }
    }
}

} // verus!
