//! Ranges of bytes of a query.

use vstd::prelude::*;
use vstd::string::*;

use crate::text::{decimal, decimal_text};

verus! {

/// A range of bytes: from `start` up to, but without, `end`.
#[derive(Clone, Copy, Debug, PartialEq, Eq, Hash, Structural)]
pub struct Span {
    pub start: usize,
    pub end: usize,
}

impl Span {
    pub fn new(range: std::ops::Range<usize>) -> (r: Self)
        ensures
            r == (Span { start: range.start, end: range.end }),
    {
        Span { start: range.start, end: range.end }
    }

    pub fn start(self) -> (r: usize)
        ensures
            r == self.start,
    {
        self.start
    }

    pub fn end(self) -> (r: usize)
        ensures
            r == self.end,
    {
        self.end
    }

    /// How a range is shown.
    pub open spec fn shown(self) -> Seq<char> {
        decimal_text(self.start as nat) + ".."@ + decimal_text(self.end as nat)
    }

    pub fn to_string(self) -> (r: String)
        ensures
            r@ == self.shown(),
    {
        let end: String = decimal(self.end as u64);
        decimal(self.start as u64).concat("..").concat(end.as_str())
    }
}

} // verus!
