//! Cell filters: stateless predicates restricting which cells of a
//! region an effect touches.

use crate::grid::{Cell, Region};
use vstd::prelude::*;

verus! {

/// A predicate over a cell's position and contents.
#[derive(Clone, Copy, Debug, PartialEq, Eq, Structural)]
pub enum CellFilter {
    /// Applies to every cell.
    All,
    /// Applies only to cells holding a non-blank character.
    Text,
    /// Applies only to cells inside the given rectangle.
    Within(Region),
}

/// Whether filter `f` selects the cell `c` at position `(x, y)`.
pub open spec fn filter_applies(f: CellFilter, x: int, y: int, c: Cell) -> bool {
    match f {
        CellFilter::All => true,
        CellFilter::Text => c.ch != ' ',
        CellFilter::Within(r) => r.contains(x, y),
    }
}

impl CellFilter {
    /// Filter test, executable form.
    pub fn applies(&self, x: u16, y: u16, c: &Cell) -> (b: bool)
        ensures
            b == filter_applies(*self, x as int, y as int, *c),
    {
        match self {
            CellFilter::All => true,
            CellFilter::Text => c.ch != ' ',
            CellFilter::Within(r) => r.contains_pos(x, y),
        }
    }
}

} // verus!
