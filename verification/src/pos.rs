//! The cursor over the source text: an offset together with the line and
//! column it lies on, plus the source name and full text kept for error
//! display.

use vstd::prelude::*;

verus! {

/// A cursor location in the source text. `idx` and `col` start at -1 and move
/// to 0 on the first advance; `ln` is zero-based throughout.
pub struct Position {
    pub idx: isize,
    pub ln: usize,
    pub col: isize,
    pub fn_name: String,
    pub ftxt: String,
}

impl Position {
    pub fn new(idx: isize, ln: usize, col: isize, fn_name: &str, ftxt: &str) -> (p: Position)
        ensures
            p.idx == idx,
            p.ln == ln,
            p.col == col,
            p.fn_name@ == fn_name@,
            p.ftxt@ == ftxt@,
    {
        Position { idx, ln, col, fn_name: fn_name.to_owned(), ftxt: ftxt.to_owned() }
    }

    /// Consume one character: the offset and column move one to the right,
    /// except that consuming a newline starts the next line at column zero.
    pub fn advance(&mut self, current_char: Option<char>)
        requires
            old(self).idx < isize::MAX,
            old(self).col < isize::MAX,
            old(self).ln < usize::MAX,
        ensures
            final(self).idx == old(self).idx + 1,
            current_char == Some('\n') ==> final(self).ln == old(self).ln + 1 && final(self).col
                == 0,
            current_char != Some('\n') ==> final(self).ln == old(self).ln && final(self).col == old(
                self,
            ).col + 1,
            final(self).fn_name == old(self).fn_name,
            final(self).ftxt == old(self).ftxt,
    {
        self.idx = self.idx + 1;
        self.col = self.col + 1;
        if let Some(c) = current_char {
            if c == '\n' {
                self.ln = self.ln + 1;
                self.col = 0;
            }
        }
    }

    /// An independent snapshot: later movement of this cursor leaves it alone.
    pub fn copy(&self) -> (p: Position)
        ensures
            p.idx == self.idx,
            p.ln == self.ln,
            p.col == self.col,
            p.fn_name@ == self.fn_name@,
            p.ftxt@ == self.ftxt@,
    {
        Position::new(self.idx, self.ln, self.col, self.fn_name.as_str(), self.ftxt.as_str())
    }
}

} // verus!
