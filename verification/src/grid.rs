//! The cell grid that effects paint into, and rectangular regions of it.
//!
//! Cells are stored row-major: the cell at column `x`, row `y` sits at
//! index `y * width + x`.  Effects may change a cell's colors, never its
//! character.

use crate::color::Color;
use vstd::prelude::*;

verus! {

/// One grid position: a displayed character with its colors.
#[derive(Clone, Copy, Debug, PartialEq, Eq, Structural)]
pub struct Cell {
    /// The displayed character; effects never change it.
    pub ch: char,
    /// Foreground color.
    pub fg: Color,
    /// Background color.
    pub bg: Color,
}

/// An axis-aligned rectangle in grid-cell coordinates.
#[derive(Clone, Copy, Debug, PartialEq, Eq, Structural)]
pub struct Region {
    pub x: u16,
    pub y: u16,
    pub width: u16,
    pub height: u16,
}

impl Region {
    /// Whether the position `(x, y)` lies inside the rectangle.
    pub open spec fn contains(self, x: int, y: int) -> bool {
        &&& self.x <= x < self.x + self.width
        &&& self.y <= y < self.y + self.height
    }

    /// Containment test, executable form.
    pub fn contains_pos(&self, x: u16, y: u16) -> (b: bool)
        ensures
            b == self.contains(x as int, y as int),
    {
        let xi: u32 = x as u32;
        let yi: u32 = y as u32;
        self.x as u32 <= xi && xi < self.x as u32 + self.width as u32
            && self.y as u32 <= yi && yi < self.y as u32 + self.height as u32
    }
}

/// A rectangular grid of cells, stored row-major.
pub struct Grid {
    pub width: u16,
    pub height: u16,
    pub cells: Vec<Cell>,
}

impl Grid {
    /// The grid holds exactly one cell per position.
    pub open spec fn wf(self) -> bool {
        self.cells@.len() == self.width as int * self.height as int
    }

    /// The cell at column `x`, row `y`.
    pub open spec fn cell_at(self, x: int, y: int) -> Cell {
        self.cells@[y * self.width + x]
    }

    /// Whether `(x, y)` is a position of this grid.
    pub open spec fn in_bounds(self, x: int, y: int) -> bool {
        0 <= x < self.width && 0 <= y < self.height
    }

    /// A fresh grid with every cell equal to `fill`.
    pub fn new(width: u16, height: u16, fill: Cell) -> (g: Grid)
        ensures
            g.wf(),
            g.width == width,
            g.height == height,
            forall|i: int| 0 <= i < g.cells@.len() ==> g.cells@[i] == fill,
    {
        proof {
            assert(width * height <= 65535 * 65535) by (nonlinear_arith)
                requires width <= 65535, height <= 65535;
        }
        let n: usize = width as usize * height as usize;
        let mut cells: Vec<Cell> = Vec::new();
        let mut i: usize = 0;
        while i < n
            invariant
                i == cells@.len() <= n,
                forall|j: int| 0 <= j < i ==> cells@[j] == fill,
            decreases n - i,
        {
            cells.push(fill);
            i = i + 1;
        }
        Grid { width, height, cells }
    }

    /// Read the cell at `(x, y)`.
    pub fn cell(&self, x: u16, y: u16) -> (c: Cell)
        requires
            self.wf(),
            self.in_bounds(x as int, y as int),
        ensures
            c == self.cell_at(x as int, y as int),
    {
        proof {
            lemma_row_major_index_bounds(self.width as int, self.height as int, x as int, y as int);
            assert(self.width * self.height <= 65535 * 65535) by (nonlinear_arith)
                requires self.width <= 65535, self.height <= 65535;
        }
        let idx: usize = y as usize * self.width as usize + x as usize;
        self.cells[idx]
    }

    /// Overwrite the cell at `(x, y)`.
    pub fn set_cell(&mut self, x: u16, y: u16, c: Cell)
        requires
            old(self).wf(),
            old(self).in_bounds(x as int, y as int),
        ensures
            final(self).wf(),
            final(self).width == old(self).width,
            final(self).height == old(self).height,
            final(self).cells@ == old(self).cells@.update(
                y as int * old(self).width as int + x as int,
                c,
            ),
    {
        proof {
            lemma_row_major_index_bounds(self.width as int, self.height as int, x as int, y as int);
            assert(self.width * self.height <= 65535 * 65535) by (nonlinear_arith)
                requires self.width <= 65535, self.height <= 65535;
        }
        let idx: usize = y as usize * self.width as usize + x as usize;
        self.cells[idx] = c;
    }
}

/// A position inside the grid maps to an index inside the cell vector.
pub proof fn lemma_row_major_index_bounds(w: int, h: int, x: int, y: int)
    requires
        0 <= x < w,
        0 <= y < h,
    ensures
        0 <= y * w + x < w * h,
{
    assert(y * w + x < w * h) by (nonlinear_arith)
        requires 0 <= x < w, 0 <= y < h;
    assert(y * w >= 0) by (nonlinear_arith)
        requires y >= 0, w >= 0;
}

} // verus!
