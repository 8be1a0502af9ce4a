//! The lexical error: the first unrecognized character, with the positions
//! just before and just after it.

use vstd::prelude::*;
use vstd::string::StringExecFns;
use crate::pos::Position;
use crate::render::{append_dec_u64, dec_digits};

verus! {

/// A lexical failure: its kind, the offending text, and snapshots of the
/// cursor at the offending character and one character past it.
pub struct Error {
    pub type_: String,
    pub pos_start: Position,
    pub pos_end: Position,
    pub details: String,
}

impl Error {
    pub fn new(type_: &str, pos_start: Position, pos_end: Position, details: &str) -> (e: Error)
        ensures
            e.type_@ == type_@,
            e.details@ == details@,
            e.pos_start == pos_start,
            e.pos_end == pos_end,
    {
        Error { type_: type_.to_owned(), pos_start, pos_end, details: details.to_owned() }
    }

    /// The rendered form: the error kind and offending text, then the source
    /// name and the one-based line where the error starts.
    pub open spec fn spec_render(self) -> Seq<char> {
        self.type_@ + ": "@ + self.details@ + "\nFile "@ + self.pos_start.fn_name@ + ", line "@
            + dec_digits(self.pos_start.ln + 1)
    }

    pub fn render(&self) -> (r: String)
        requires
            self.pos_start.ln < usize::MAX,
        ensures
            r@ == self.spec_render(),
    {
        let mut r = self.type_.clone();
        r.append(": ");
        r.append(self.details.as_str());
        r.append("\nFile ");
        r.append(self.pos_start.fn_name.as_str());
        r.append(", line ");
        let ln1: u64 = (self.pos_start.ln as u64) + 1;
        append_dec_u64(&mut r, ln1);
        proof {
            assert(r@ =~= self.spec_render());
        }
        r
    }
}

} // verus!
