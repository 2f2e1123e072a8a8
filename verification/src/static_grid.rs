//! A rectangular grid of cells, stored row by row.

use vstd::prelude::*;
use vstd::arithmetic::mul::{lemma_mul_inequality, lemma_mul_is_distributive_add_other_way};
use crate::coord::{Coord, UCoord};

verus! {

pub struct StaticGrid<T> {
    pub width: u32,
    pub height: u32,
    pub cells: Vec<T>,
}

/// Whether `(x, y)` names a cell of a grid of the given size.
pub open spec fn in_bounds(width: u32, height: u32, x: int, y: int) -> bool {
    0 <= x < width && 0 <= y < height
}

/// Place of the cell `(x, y)` in row-major order.
pub open spec fn cell_index(width: u32, x: int, y: int) -> int {
    y * width + x
}

/// Cells of a grid have places below the number of cells, and different
/// cells have different places.
pub proof fn lemma_cell_index_bounds(width: u32, height: u32, x: int, y: int)
    requires
        in_bounds(width, height, x, y),
    ensures
        0 <= cell_index(width, x, y) < width * height,
{
    assert(y * width <= (height - 1) * width) by {
        lemma_mul_inequality(y, height - 1, width as int);
    }
    assert((height - 1) * width + width == height * width) by {
        lemma_mul_is_distributive_add_other_way(width as int, height - 1, 1);
    }
    assert(0 <= y * width) by (nonlinear_arith)
        requires
            0 <= y,
            0 <= width,
    ;
    assert(height * width == width * height) by (nonlinear_arith);
}

pub proof fn lemma_cell_index_injective(width: u32, x1: int, y1: int, x2: int, y2: int)
    requires
        0 <= x1 < width,
        0 <= x2 < width,
        cell_index(width, x1, y1) == cell_index(width, x2, y2),
    ensures
        x1 == x2,
        y1 == y2,
{
    if y1 < y2 {
        assert(y1 * width + width <= y2 * width) by (nonlinear_arith)
            requires
                y1 + 1 <= y2,
                0 <= width,
        ;
    }
    if y2 < y1 {
        assert(y2 * width + width <= y1 * width) by (nonlinear_arith)
            requires
                y2 + 1 <= y1,
                0 <= width,
        ;
    }
}

impl<T> StaticGrid<T> {
    /// The grid holds one cell for each coordinate in bounds.
    pub open spec fn wf(&self) -> bool {
        self.cells@.len() == self.width * self.height
    }

    pub open spec fn spec_contains(&self, coord: Coord) -> bool {
        in_bounds(self.width, self.height, coord.x as int, coord.y as int)
    }

    pub open spec fn spec_contains_unsigned(&self, coord: UCoord) -> bool {
        in_bounds(self.width, self.height, coord.x as int, coord.y as int)
    }

    /// The cell at a coordinate in bounds.
    pub open spec fn spec_cell(&self, x: int, y: int) -> T
        recommends
            self.wf(),
            in_bounds(self.width, self.height, x, y),
    {
        self.cells@[cell_index(self.width, x, y)]
    }

    /// A grid over the given cells, listed row by row.
    pub fn from_cells(width: u32, height: u32, cells: Vec<T>) -> (grid: Self)
        requires
            cells@.len() == width * height,
        ensures
            grid.wf(),
            grid.width == width,
            grid.height == height,
            grid.cells@ == cells@,
    {
        StaticGrid { width, height, cells }
    }

    pub fn width(&self) -> (w: u32)
        ensures
            w == self.width,
    {
        self.width
    }

    pub fn height(&self) -> (h: u32)
        ensures
            h == self.height,
    {
        self.height
    }

    /// The unsigned form of a coordinate that lies in the grid.
    pub fn convert_signed(&self, coord: Coord) -> (r: Option<UCoord>)
        ensures
            r is Some <==> self.spec_contains(coord),
            r matches Some(u) ==> u.x == coord.x && u.y == coord.y,
    {
        if coord.x < 0 || coord.y < 0 {
            return None;
        }
        let x: u32 = coord.x as u32;
        let y: u32 = coord.y as u32;
        if x >= self.width || y >= self.height {
            return None;
        }
        Some(UCoord { x, y })
    }

    /// Place of a cell of the grid in `cells`.
    pub fn index_of(&self, coord: UCoord) -> (i: usize)
        requires
            self.wf(),
            self.spec_contains_unsigned(coord),
        ensures
            i == cell_index(self.width, coord.x as int, coord.y as int),
            i < self.cells@.len(),
    {
        let len = self.cells.len();
        proof {
            lemma_cell_index_bounds(self.width, self.height, coord.x as int, coord.y as int);
            assert(0 <= coord.y * self.width) by (nonlinear_arith);
            assert(coord.y * self.width + coord.x < len);
        }
        coord.y as usize * self.width as usize + coord.x as usize
    }

    /// The cell at a coordinate that lies in the grid.
    pub fn get_checked(&self, coord: UCoord) -> (cell: &T)
        requires
            self.wf(),
            self.spec_contains_unsigned(coord),
        ensures
            *cell == self.spec_cell(coord.x as int, coord.y as int),
    {
        let i = self.index_of(coord);
        &self.cells[i]
    }

    /// The cell at a coordinate, if the coordinate lies in the grid.
    pub fn get(&self, coord: UCoord) -> (r: Option<&T>)
        requires
            self.wf(),
        ensures
            r is Some <==> self.spec_contains_unsigned(coord),
            r matches Some(cell) ==> *cell == self.spec_cell(coord.x as int, coord.y as int),
    {
        if coord.x < self.width && coord.y < self.height {
            Some(self.get_checked(coord))
        } else {
            None
        }
    }

    /// The cell at a signed coordinate, if the coordinate lies in the grid.
    pub fn get_signed(&self, coord: Coord) -> (r: Option<&T>)
        requires
            self.wf(),
        ensures
            r is Some <==> self.spec_contains(coord),
            r matches Some(cell) ==> *cell == self.spec_cell(coord.x as int, coord.y as int),
    {
        match self.convert_signed(coord) {
            Some(u) => Some(self.get_checked(u)),
            None => None,
        }
    }

    /// Replaces the cell at a coordinate that lies in the grid.
    pub fn set_checked(&mut self, coord: UCoord, value: T)
        requires
            old(self).wf(),
            old(self).spec_contains_unsigned(coord),
        ensures
            final(self).wf(),
            final(self).width == old(self).width,
            final(self).height == old(self).height,
            final(self).cells@ == old(self).cells@.update(
                cell_index(old(self).width, coord.x as int, coord.y as int),
                value,
            ),
    {
        let i = self.index_of(coord);
        self.cells.set(i, value);
    }
}

} // verus!
