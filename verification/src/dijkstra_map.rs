//! Distances to a goal, by cell.

use vstd::prelude::*;
use crate::coord::UCoord;
use crate::static_grid::{cell_index, in_bounds, StaticGrid};

verus! {

/// For each cell of the world, its distance to the goal, or nothing where
/// the goal cannot be reached from it.
pub struct DijkstraMap {
    pub grid: StaticGrid<Option<u32>>,
}

impl DijkstraMap {
    pub open spec fn wf(&self) -> bool {
        self.grid.wf()
    }

    /// The distance recorded for the cell `(x, y)`.  Outside the map
    /// there is none.
    pub open spec fn spec_distance(&self, x: int, y: int) -> Option<u32> {
        if in_bounds(self.grid.width, self.grid.height, x, y) {
            self.grid.cells@[cell_index(self.grid.width, x, y)]
        } else {
            None
        }
    }

    /// A map of the given size in which no cell reaches the goal.
    pub fn new(width: u32, height: u32) -> (map: DijkstraMap)
        requires
            width * height <= usize::MAX,
        ensures
            map.wf(),
            map.grid.width == width,
            map.grid.height == height,
            forall|x: int, y: int| map.spec_distance(x, y) is None,
    {
        let n: usize = width as usize * height as usize;
        let mut cells: Vec<Option<u32>> = Vec::new();
        let mut i: usize = 0;
        while i < n
            invariant
                i <= n,
                cells@.len() == i,
                forall|j: int| 0 <= j < i ==> cells@[j] is None,
            decreases n - i,
        {
            cells.push(None);
            i += 1;
        }
        let map = DijkstraMap { grid: StaticGrid::from_cells(width, height, cells) };
        proof {
            assert forall|x: int, y: int| map.spec_distance(x, y) is None by {
                if in_bounds(width, height, x, y) {
                    crate::static_grid::lemma_cell_index_bounds(width, height, x, y);
                }
            }
        }
        map
    }

    /// The distance recorded for a cell.
    pub fn get_distance(&self, coord: UCoord) -> (d: Option<u32>)
        requires
            self.wf(),
        ensures
            d == self.spec_distance(coord.x as int, coord.y as int),
    {
        match self.grid.get(coord) {
            Some(d) => *d,
            None => None,
        }
    }

    /// Records the distance of a cell.  Returns whether the map has the
    /// cell; if not, nothing changes.
    pub fn set_distance(&mut self, coord: UCoord, distance: Option<u32>) -> (done: bool)
        requires
            old(self).wf(),
        ensures
            final(self).wf(),
            final(self).grid.width == old(self).grid.width,
            final(self).grid.height == old(self).grid.height,
            done == in_bounds(old(self).grid.width, old(self).grid.height, coord.x as int, coord.y as int),
            done ==> final(self).grid.cells@ == old(self).grid.cells@.update(
                cell_index(old(self).grid.width, coord.x as int, coord.y as int),
                distance,
            ),
            !done ==> final(self).grid.cells@ == old(self).grid.cells@,
    {
        if coord.x < self.grid.width && coord.y < self.grid.height {
            self.grid.set_checked(coord, distance);
            true
        } else {
            false
        }
    }
}

} // verus!
