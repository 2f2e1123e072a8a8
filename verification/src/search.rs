//! Best-first search for a way between two cells.
//!
//! The search walks from cell to neighbouring cell in the four cardinal
//! directions.  A cell can be entered where the distance map knows a
//! distance for it and the cost function gives a cost.  Cells are tried in
//! the order of their score: the cost of the way to them plus their
//! distance to the goal.  Sums that do not fit stop at the largest value.
//!
//! [`outcome`] states what a search finds, and [`cost`] why that is a
//! cheapest way.

pub mod cost;
pub mod outcome;

use vstd::prelude::*;
use crate::search::outcome::{
    direction_at, explored_from, first_frontier, frontier_of, is_outcome, lemma_cost_at,
    lemma_first_frontier, lemma_frontier_after_reach, lemma_frontier_after_visit,
    lemma_lowest_at, lowest_at, relaxed, relaxed_first, rounds, search_result, unwound,
    visited_frontier, Frontier,
};
use crate::search::cost::{
    best_walk, cheapest_route, consistent, cost_is_fixed, cost_result, costed, heuristic,
    is_walk, lemma_costed_after_reach, lemma_costed_after_stale, lemma_costed_after_try,
    lemma_costed_after_visit, lemma_costed_at_start, lemma_entry_cost, lemma_no_answer_no_entry,
    lemma_popped_is_best, lemma_reached_way, lemma_start_way, lemma_visited_cost,
    neighbour_bounded, route_cost, walk_cost,
};
use crate::coord::{Coord, UCoord};
use crate::dijkstra_map::DijkstraMap;
use crate::direction::CardinalDirection;
use crate::spatial_hash::{SpatialHashCell, SpatialHashTable};
use crate::static_grid::{cell_index, in_bounds, lemma_cell_index_bounds, lemma_cell_index_injective, StaticGrid};

verus! {

/// One step of a way: from `origin`, one cell in `direction`.
#[derive(Debug, Clone, Copy, PartialEq, Eq, Structural)]
pub struct PathNode {
    pub direction: CardinalDirection,
    pub origin: Coord,
}

#[derive(Debug, Clone, Copy, PartialEq, Eq, Structural)]
pub enum Error {
    /// The goal cannot be reached.
    NoPath,
    /// An end of the way lies outside the grid, or the two ends are the
    /// same cell.
    OutOfBounds,
}

/// A cell waiting to be tried.
#[derive(Debug, Clone, Copy)]
pub struct Node {
    pub score: u32,
    pub coord: Coord,
}

/// What the search knows of a cell.  `visited` and `seen` hold the number
/// of the search that last tried or reached the cell.
#[derive(Debug, Clone, Copy)]
pub struct Cell {
    pub cost: u32,
    pub score: u32,
    pub visited: u64,
    pub seen: u64,
    pub enter_direction: Option<CardinalDirection>,
}

impl Default for Cell {
    fn default() -> (cell: Self)
        ensures
            cell.cost == 0,
            cell.score == 0,
            cell.visited == 0,
            cell.seen == 0,
            cell.enter_direction is None,
    {
        Self { cost: 0, score: 0, visited: 0, seen: 0, enter_direction: None }
    }
}

/// The state that searches share: a grid of cells, reused from search to
/// search, and the number of searches made.
pub struct SearchEnv {
    pub grid: StaticGrid<Cell>,
    pub queue: Vec<Node>,
    pub seq: u64,
}

/// The cell that a step arrives at.
pub open spec fn arrival(node: PathNode) -> (int, int) {
    (
        node.origin.x + node.direction.spec_vector().x,
        node.origin.y + node.direction.spec_vector().y,
    )
}

/// Whether the cell `(x, y)` can be entered: it lies in the world, the
/// distance map knows a distance for it, and the cost function can give
/// a cost for it.
pub open spec fn may_enter<C: Fn(&SpatialHashCell, UCoord) -> Option<u32>>(
    cost_fn: &C,
    spatial: &SpatialHashTable,
    dijkstra: &DijkstraMap,
    x: int,
    y: int,
) -> bool {
    &&& in_bounds(spatial.grid.width, spatial.grid.height, x, y)
    &&& dijkstra.spec_distance(x, y) is Some
    &&& exists|cost: u32|
        cost_fn.ensures(
            (&spatial.grid.spec_cell(x, y), UCoord { x: x as u32, y: y as u32 }),
            Some(cost),
        )
}

/// Whether step `i` of `steps` arrives where step `i - 1` leaves.
pub open spec fn linked(steps: Seq<PathNode>, i: int) -> bool {
    arrival(steps[i]) == (steps[i - 1].origin.x as int, steps[i - 1].origin.y as int)
}

/// Whether `steps`, read from last to first, lead from `start` to `end`:
/// the last step leaves `start`, each step arrives where the one before
/// it in the list leaves, the first arrives at `end`, every cell arrived
/// at can be entered, and no cell is arrived at twice.
pub open spec fn is_route<C: Fn(&SpatialHashCell, UCoord) -> Option<u32>>(
    steps: Seq<PathNode>,
    start: Coord,
    end: Coord,
    cost_fn: &C,
    spatial: &SpatialHashTable,
    dijkstra: &DijkstraMap,
) -> bool {
    &&& steps.len() > 0
    &&& arrival(steps[0]) == (end.x as int, end.y as int)
    &&& steps.last().origin == start
    &&& forall|i: int| 1 <= i < steps.len() ==> #[trigger] linked(steps, i)
    &&& forall|i: int|
        0 <= i < steps.len() ==> may_enter(
            cost_fn,
            spatial,
            dijkstra,
            arrival(#[trigger] steps[i]).0,
            arrival(steps[i]).1,
        )
    &&& forall|i: int, j: int|
        0 <= i < j < steps.len() ==> arrival(#[trigger] steps[i]) != arrival(#[trigger] steps[j])
}

/// Whether step `i` of `steps` arrives at a visited cell that was visited
/// later than the visit numbered `fuel`.
pub open spec fn arrives_later(
    steps: Seq<PathNode>,
    i: int,
    cells: Seq<Cell>,
    width: u32,
    height: u32,
    seq: u64,
    order: Map<int, nat>,
    fuel: nat,
) -> bool {
    let at = arrival(steps[i]);
    &&& in_bounds(width, height, at.0, at.1)
    &&& cells[cell_index(width, at.0, at.1)].visited == seq
    &&& order[cell_index(width, at.0, at.1)] > fuel
}

/// What holds of the cell `(x, y)` while the search numbered `seq` runs.
///
/// `order` gives each visited cell, by its place in the grid, its place
/// in the order of visits.  A cell that was reached knows the direction
/// in which it was entered; the cell that it was entered from was
/// visited, and earlier than the cell itself.  The start is never
/// entered.
pub open spec fn cell_traced<C: Fn(&SpatialHashCell, UCoord) -> Option<u32>>(
    cells: Seq<Cell>,
    width: u32,
    height: u32,
    seq: u64,
    start: Coord,
    order: Map<int, nat>,
    cost_fn: &C,
    spatial: &SpatialHashTable,
    dijkstra: &DijkstraMap,
    x: int,
    y: int,
) -> bool {
    let at = cell_index(width, x, y);
    let cell = cells[at];
    &&& (x == start.x && y == start.y) ==> cell.enter_direction is None && cell.seen != seq
    &&& (cell.visited == seq || cell.seen == seq) ==> x <= i32::MAX && y <= i32::MAX
    &&& cell.visited == seq && !(x == start.x && y == start.y) ==> cell.seen == seq
    &&& cell.seen == seq ==> cell.enter_direction is Some && {
        let direction = cell.enter_direction->0;
        let from_x = x - direction.spec_vector().x;
        let from_y = y - direction.spec_vector().y;
        let from = cell_index(width, from_x, from_y);
        &&& in_bounds(width, height, from_x, from_y)
        &&& cells[from].visited == seq
        &&& may_enter(cost_fn, spatial, dijkstra, x, y)
        &&& cell.visited == seq ==> order[from] < order[at]
    }
}

/// What holds of the grid while the search numbered `seq` runs.
#[verifier::opaque]
pub open spec fn traced<C: Fn(&SpatialHashCell, UCoord) -> Option<u32>>(
    cells: Seq<Cell>,
    width: u32,
    height: u32,
    seq: u64,
    start: Coord,
    order: Map<int, nat>,
    cost_fn: &C,
    spatial: &SpatialHashTable,
    dijkstra: &DijkstraMap,
) -> bool {
    &&& cells.len() == width * height
    &&& in_bounds(width, height, start.x as int, start.y as int)
    &&& spatial.wf()
    &&& dijkstra.wf()
    &&& spatial.grid.width == width
    &&& spatial.grid.height == height
    &&& order.dom().finite()
    &&& forall|k: int|
        0 <= k < cells.len() ==> (#[trigger] cells[k]).visited <= seq && cells[k].seen <= seq
    &&& forall|k: int|
        order.contains_key(k) <==> 0 <= k < cells.len() && (#[trigger] cells[k]).visited == seq
    &&& forall|k: int| order.contains_key(k) ==> #[trigger] order[k] < order.dom().len()
    &&& forall|x: int, y: int|
        in_bounds(width, height, x, y) ==> #[trigger] cell_traced(
            cells,
            width,
            height,
            seq,
            start,
            order,
            cost_fn,
            spatial,
            dijkstra,
            x,
            y,
        )
}

/// Whether every node of `queue` names a cell of the grid that is the
/// start or was reached.
pub open spec fn queue_traced(
    queue: Seq<Node>,
    cells: Seq<Cell>,
    width: u32,
    height: u32,
    seq: u64,
    start: Coord,
) -> bool {
    forall|i: int|
        0 <= i < queue.len() ==> {
            let coord = (#[trigger] queue[i]).coord;
            &&& in_bounds(width, height, coord.x as int, coord.y as int)
            &&& coord == start || cells[cell_index(width, coord.x as int, coord.y as int)].seen == seq
        }
}

/// A cell that was reached or visited and knows the direction in which it
/// was entered can be entered, and was entered from a cell of the grid
/// that was visited, and earlier than the cell itself.
proof fn lemma_entered_from_visited<C: Fn(&SpatialHashCell, UCoord) -> Option<u32>>(
    cells: Seq<Cell>,
    width: u32,
    height: u32,
    seq: u64,
    start: Coord,
    order: Map<int, nat>,
    cost_fn: &C,
    spatial: &SpatialHashTable,
    dijkstra: &DijkstraMap,
    coord: Coord,
)
    requires
        traced(cells, width, height, seq, start, order, cost_fn, spatial, dijkstra),
        in_bounds(width, height, coord.x as int, coord.y as int),
        cells[cell_index(width, coord.x as int, coord.y as int)].enter_direction is Some,
        cells[cell_index(width, coord.x as int, coord.y as int)].seen == seq || cells[cell_index(
            width,
            coord.x as int,
            coord.y as int,
        )].visited == seq,
    ensures
        ({
            let at = cell_index(width, coord.x as int, coord.y as int);
            let direction = cells[at].enter_direction->0;
            let from_x = coord.x - direction.spec_vector().x;
            let from_y = coord.y - direction.spec_vector().y;
            let from = cell_index(width, from_x, from_y);
            &&& in_bounds(width, height, from_x, from_y)
            &&& from_x <= i32::MAX
            &&& from_y <= i32::MAX
            &&& cells[from].visited == seq
            &&& order.contains_key(from)
            &&& order[from] < order.dom().len()
            &&& cells[at].visited == seq ==> order[from] < order[at]
            &&& may_enter(cost_fn, spatial, dijkstra, coord.x as int, coord.y as int)
        }),
{
    reveal(traced);
    let at = cell_index(width, coord.x as int, coord.y as int);
    let direction = cells[at].enter_direction->0;
    let from_x = coord.x - direction.spec_vector().x;
    let from_y = coord.y - direction.spec_vector().y;
    assert(cell_traced(
        cells,
        width,
        height,
        seq,
        start,
        order,
        cost_fn,
        spatial,
        dijkstra,
        coord.x as int,
        coord.y as int,
    ));
    lemma_cell_index_bounds(width, height, from_x, from_y);
    assert(cell_traced(
        cells,
        width,
        height,
        seq,
        start,
        order,
        cost_fn,
        spatial,
        dijkstra,
        from_x,
        from_y,
    ));
}

/// A cell that was reached knows the direction in which it was entered,
/// and a visited cell that knows none is the start.
proof fn lemma_direction_known<C: Fn(&SpatialHashCell, UCoord) -> Option<u32>>(
    cells: Seq<Cell>,
    width: u32,
    height: u32,
    seq: u64,
    start: Coord,
    order: Map<int, nat>,
    cost_fn: &C,
    spatial: &SpatialHashTable,
    dijkstra: &DijkstraMap,
    coord: Coord,
)
    requires
        traced(cells, width, height, seq, start, order, cost_fn, spatial, dijkstra),
        in_bounds(width, height, coord.x as int, coord.y as int),
    ensures
        ({
            let cell = cells[cell_index(width, coord.x as int, coord.y as int)];
            &&& cell.seen == seq ==> cell.enter_direction is Some
            &&& cell.visited == seq && coord != start ==> cell.seen == seq
            &&& cell.visited == seq && cell.enter_direction is None ==> coord == start
            &&& coord == start ==> cell.enter_direction is None && cell.seen != seq
        }),
{
    reveal(traced);
    assert(cell_traced(
        cells,
        width,
        height,
        seq,
        start,
        order,
        cost_fn,
        spatial,
        dijkstra,
        coord.x as int,
        coord.y as int,
    ));
}

/// While a search runs, the grid holds its cells, and none bears a number
/// above that of the search.
proof fn lemma_traced_grid<C: Fn(&SpatialHashCell, UCoord) -> Option<u32>>(
    cells: Seq<Cell>,
    width: u32,
    height: u32,
    seq: u64,
    start: Coord,
    order: Map<int, nat>,
    cost_fn: &C,
    spatial: &SpatialHashTable,
    dijkstra: &DijkstraMap,
)
    requires
        traced(cells, width, height, seq, start, order, cost_fn, spatial, dijkstra),
    ensures
        cells.len() == width * height,
        in_bounds(width, height, start.x as int, start.y as int),
        spatial.wf(),
        dijkstra.wf(),
        spatial.grid.width == width,
        spatial.grid.height == height,
        order.dom().finite(),
        forall|k: int|
            0 <= k < cells.len() ==> (#[trigger] cells[k]).visited <= seq && cells[k].seen <= seq,
        forall|k: int|
            order.contains_key(k) <==> 0 <= k < cells.len() && (#[trigger] cells[k]).visited == seq,
{
    reveal(traced);
}

/// A cell of the grid with one further field changed.
pub open spec fn visited_cell(cell: Cell, seq: u64) -> Cell {
    Cell { visited: seq, ..cell }
}

/// The grid is traced when a search starts: no cell bears the number of
/// the new search, and the start knows no direction.
proof fn lemma_traced_at_start<C: Fn(&SpatialHashCell, UCoord) -> Option<u32>>(
    cells: Seq<Cell>,
    width: u32,
    height: u32,
    seq: u64,
    start: Coord,
    cost_fn: &C,
    spatial: &SpatialHashTable,
    dijkstra: &DijkstraMap,
)
    requires
        cells.len() == width * height,
        in_bounds(width, height, start.x as int, start.y as int),
        spatial.wf(),
        dijkstra.wf(),
        spatial.grid.width == width,
        spatial.grid.height == height,
        forall|k: int|
            0 <= k < cells.len() ==> (#[trigger] cells[k]).visited < seq && cells[k].seen < seq,
        cells[cell_index(width, start.x as int, start.y as int)].enter_direction is None,
    ensures
        traced(cells, width, height, seq, start, Map::<int, nat>::empty(), cost_fn, spatial, dijkstra),
{
    reveal(traced);
    let order = Map::<int, nat>::empty();
    assert(order.dom() =~= Set::<int>::empty());
    assert forall|x: int, y: int| in_bounds(width, height, x, y) implies #[trigger] cell_traced(
        cells,
        width,
        height,
        seq,
        start,
        order,
        cost_fn,
        spatial,
        dijkstra,
        x,
        y,
    ) by {
        lemma_cell_index_bounds(width, height, x, y);
        let at = cell_index(width, x, y);
        assert(cells[at].visited < seq);
    }
}

/// The number of visited cells is at most the number of cells.
proof fn lemma_visits_bounded<C: Fn(&SpatialHashCell, UCoord) -> Option<u32>>(
    cells: Seq<Cell>,
    width: u32,
    height: u32,
    seq: u64,
    start: Coord,
    order: Map<int, nat>,
    cost_fn: &C,
    spatial: &SpatialHashTable,
    dijkstra: &DijkstraMap,
)
    requires
        traced(cells, width, height, seq, start, order, cost_fn, spatial, dijkstra),
    ensures
        order.dom().len() <= cells.len(),
{
    reveal(traced);
    let all = vstd::set_lib::set_int_range(0, cells.len() as int);
    vstd::set_lib::lemma_int_range(0, cells.len() as int);
    assert(order.dom().subset_of(all)) by {
        assert forall|k: int| order.dom().contains(k) implies all.contains(k) by {
            assert(order.contains_key(k) ==> 0 <= k < cells.len() && cells[k].visited == seq);
        }
    }
    vstd::set_lib::lemma_len_subset(order.dom(), all);
}

/// While a cell of the grid is not visited, the number of visited cells
/// is below the number of cells.
proof fn lemma_visits_leave_room<C: Fn(&SpatialHashCell, UCoord) -> Option<u32>>(
    cells: Seq<Cell>,
    width: u32,
    height: u32,
    seq: u64,
    start: Coord,
    order: Map<int, nat>,
    cost_fn: &C,
    spatial: &SpatialHashTable,
    dijkstra: &DijkstraMap,
    free: Coord,
)
    requires
        traced(cells, width, height, seq, start, order, cost_fn, spatial, dijkstra),
        in_bounds(width, height, free.x as int, free.y as int),
        cells[cell_index(width, free.x as int, free.y as int)].visited != seq,
    ensures
        order.dom().len() < cells.len(),
{
    reveal(traced);
    let at = cell_index(width, free.x as int, free.y as int);
    lemma_cell_index_bounds(width, height, free.x as int, free.y as int);
    let all = vstd::set_lib::set_int_range(0, cells.len() as int);
    vstd::set_lib::lemma_int_range(0, cells.len() as int);
    let others = all.remove(at);
    assert(order.dom().subset_of(others)) by {
        assert forall|k: int| order.dom().contains(k) implies others.contains(k) by {
            assert(order.contains_key(k) ==> 0 <= k < cells.len() && cells[k].visited == seq);
        }
    }
    vstd::set_lib::lemma_len_subset(order.dom(), others);
}

/// Visiting a cell that is the start or was reached, and was not visited
/// before, keeps the grid traced; the cell comes last in the order of
/// visits.
proof fn lemma_traced_after_visit<C: Fn(&SpatialHashCell, UCoord) -> Option<u32>>(
    cells: Seq<Cell>,
    width: u32,
    height: u32,
    seq: u64,
    start: Coord,
    order: Map<int, nat>,
    cost_fn: &C,
    spatial: &SpatialHashTable,
    dijkstra: &DijkstraMap,
    coord: Coord,
)
    requires
        traced(cells, width, height, seq, start, order, cost_fn, spatial, dijkstra),
        in_bounds(width, height, coord.x as int, coord.y as int),
        cells[cell_index(width, coord.x as int, coord.y as int)].visited != seq,
        coord == start || cells[cell_index(width, coord.x as int, coord.y as int)].seen == seq,
    ensures
        ({
            let at = cell_index(width, coord.x as int, coord.y as int);
            &&& traced(
                cells.update(at, visited_cell(cells[at], seq)),
                width,
                height,
                seq,
                start,
                order.insert(at, order.dom().len()),
                cost_fn,
                spatial,
                dijkstra,
            )
            &&& order.insert(at, order.dom().len()).dom().len() == order.dom().len() + 1
            &&& !order.contains_key(at)
        }),
{
    reveal(traced);
    let at = cell_index(width, coord.x as int, coord.y as int);
    lemma_cell_index_bounds(width, height, coord.x as int, coord.y as int);
    let after = cells.update(at, visited_cell(cells[at], seq));
    let count = order.dom().len();
    let order_after = order.insert(at, count);
    assert(!order.contains_key(at));
    assert(order_after.dom() =~= order.dom().insert(at));
    assert forall|k: int| order_after.contains_key(k) <==> 0 <= k < after.len() && (
    #[trigger] after[k]).visited == seq by {
        if k != at && 0 <= k < cells.len() {
            assert(after[k] == cells[k]);
        }
    }
    assert forall|k: int| 0 <= k < after.len() implies (#[trigger] after[k]).visited <= seq
        && after[k].seen <= seq by {
        assert(cells[k].visited <= seq && cells[k].seen <= seq);
    }
    assert forall|x: int, y: int| in_bounds(width, height, x, y) implies #[trigger] cell_traced(
        after,
        width,
        height,
        seq,
        start,
        order_after,
        cost_fn,
        spatial,
        dijkstra,
        x,
        y,
    ) by {
        lemma_cell_index_bounds(width, height, x, y);
        assert(cell_traced(cells, width, height, seq, start, order, cost_fn, spatial, dijkstra, x, y));
        let here = cell_index(width, x, y);
        if here == at {
            lemma_cell_index_injective(width, x, y, coord.x as int, coord.y as int);
        }
        if after[here].seen == seq {
            let direction = cells[here].enter_direction->0;
            let from_x = x - direction.spec_vector().x;
            let from_y = y - direction.spec_vector().y;
            let from = cell_index(width, from_x, from_y);
            lemma_cell_index_bounds(width, height, from_x, from_y);
            assert(cells[from].visited == seq);
            assert(order.contains_key(from));
            assert(from != at);
            assert(order[from] < count);
        }
    }
}

/// What a cell becomes when it is reached from a neighbour.
pub open spec fn reached_cell(
    cell: Cell,
    seq: u64,
    cost: u32,
    score: u32,
    direction: CardinalDirection,
) -> Cell {
    Cell { cost, score, visited: cell.visited, seen: seq, enter_direction: Some(direction) }
}

/// Reaching a cell that can be entered, and was not visited, from a
/// visited neighbour keeps the grid traced.
proof fn lemma_traced_after_reach<C: Fn(&SpatialHashCell, UCoord) -> Option<u32>>(
    cells: Seq<Cell>,
    width: u32,
    height: u32,
    seq: u64,
    start: Coord,
    order: Map<int, nat>,
    cost_fn: &C,
    spatial: &SpatialHashTable,
    dijkstra: &DijkstraMap,
    from: Coord,
    direction: CardinalDirection,
    next: Coord,
    cost: u32,
    score: u32,
)
    requires
        traced(cells, width, height, seq, start, order, cost_fn, spatial, dijkstra),
        in_bounds(width, height, from.x as int, from.y as int),
        in_bounds(width, height, next.x as int, next.y as int),
        next.x == from.x + direction.spec_vector().x,
        next.y == from.y + direction.spec_vector().y,
        cells[cell_index(width, from.x as int, from.y as int)].visited == seq,
        cells[cell_index(width, start.x as int, start.y as int)].visited == seq,
        cells[cell_index(width, next.x as int, next.y as int)].visited != seq,
        may_enter(cost_fn, spatial, dijkstra, next.x as int, next.y as int),
    ensures
        ({
            let at = cell_index(width, next.x as int, next.y as int);
            traced(
                cells.update(at, reached_cell(cells[at], seq, cost, score, direction)),
                width,
                height,
                seq,
                start,
                order,
                cost_fn,
                spatial,
                dijkstra,
            )
        }),
{
    reveal(traced);
    let at = cell_index(width, next.x as int, next.y as int);
    lemma_cell_index_bounds(width, height, next.x as int, next.y as int);
    lemma_cell_index_bounds(width, height, from.x as int, from.y as int);
    let after = cells.update(at, reached_cell(cells[at], seq, cost, score, direction));
    assert forall|k: int| 0 <= k < after.len() implies (#[trigger] after[k]).visited
        == cells[k].visited && after[k].visited <= seq && after[k].seen <= seq by {
        assert(cells[k].visited <= seq && cells[k].seen <= seq);
    }
    assert forall|k: int| order.contains_key(k) <==> 0 <= k < after.len() && (
    #[trigger] after[k]).visited == seq by {
        if 0 <= k < cells.len() {
            assert(after[k].visited == cells[k].visited);
        }
    }
    assert forall|x: int, y: int| in_bounds(width, height, x, y) implies #[trigger] cell_traced(
        after,
        width,
        height,
        seq,
        start,
        order,
        cost_fn,
        spatial,
        dijkstra,
        x,
        y,
    ) by {
        lemma_cell_index_bounds(width, height, x, y);
        assert(cell_traced(cells, width, height, seq, start, order, cost_fn, spatial, dijkstra, x, y));
        let here = cell_index(width, x, y);
        if here == at {
            lemma_cell_index_injective(width, x, y, next.x as int, next.y as int);
            assert(after[cell_index(width, from.x as int, from.y as int)].visited == seq);
        } else if after[here].seen == seq {
            let entered = cells[here].enter_direction->0;
            let from_x = x - entered.spec_vector().x;
            let from_y = y - entered.spec_vector().y;
            lemma_cell_index_bounds(width, height, from_x, from_y);
            assert(after[cell_index(width, from_x, from_y)].visited == seq);
        }
    }
}

/// The queue stays traced when a cell of the grid is replaced by one
/// that was reached if the old one was.
proof fn lemma_queue_traced_after_update(
    queue: Seq<Node>,
    cells: Seq<Cell>,
    width: u32,
    height: u32,
    seq: u64,
    start: Coord,
    at: int,
    cell: Cell,
)
    requires
        queue_traced(queue, cells, width, height, seq, start),
        0 <= at < cells.len(),
        cells[at].seen == seq ==> cell.seen == seq,
        cells.len() == width * height,
    ensures
        queue_traced(queue, cells.update(at, cell), width, height, seq, start),
{
    assert forall|i: int| 0 <= i < queue.len() implies {
        let coord = (#[trigger] queue[i]).coord;
        &&& in_bounds(width, height, coord.x as int, coord.y as int)
        &&& coord == start || cells.update(at, cell)[cell_index(
            width,
            coord.x as int,
            coord.y as int,
        )].seen == seq
    } by {
        let coord = queue[i].coord;
        lemma_cell_index_bounds(width, height, coord.x as int, coord.y as int);
    }
}

/// Whether the cell `(x, y)` is sure to be enterable: it lies in the
/// world, the distance map knows a distance for it, and the cost function
/// cannot but give a cost for it.
pub open spec fn must_enter<C: Fn(&SpatialHashCell, UCoord) -> Option<u32>>(
    cost_fn: &C,
    spatial: &SpatialHashTable,
    dijkstra: &DijkstraMap,
    x: int,
    y: int,
) -> bool {
    &&& in_bounds(spatial.grid.width, spatial.grid.height, x, y)
    &&& dijkstra.spec_distance(x, y) is Some
    &&& forall|r: Option<u32>|
        #[trigger] cost_fn.ensures(
            (&spatial.grid.spec_cell(x, y), UCoord { x: x as u32, y: y as u32 }),
            r,
        ) ==> r is Some
}

/// Whether one step in `direction` leads from `a` to `b`.
pub open spec fn steps_to(a: Coord, direction: CardinalDirection, b: Coord) -> bool {
    b.x == a.x + direction.spec_vector().x && b.y == a.y + direction.spec_vector().y
}

/// Whether `b` is one step from `a` in a cardinal direction.
pub open spec fn adjacent(a: Coord, b: Coord) -> bool {
    exists|direction: CardinalDirection| #[trigger] steps_to(a, direction, b)
}

/// Whether cell `i` of `route` is next to the cell before it and is sure
/// to be enterable.
pub open spec fn forced_step<C: Fn(&SpatialHashCell, UCoord) -> Option<u32>>(
    route: Seq<Coord>,
    i: int,
    cost_fn: &C,
    spatial: &SpatialHashTable,
    dijkstra: &DijkstraMap,
) -> bool {
    &&& adjacent(route[i - 1], route[i])
    &&& must_enter(cost_fn, spatial, dijkstra, route[i].x as int, route[i].y as int)
}

/// Whether `route` is a way from `start` to `end` that is sure to be
/// open: it goes from cell to neighbouring cell, through cells that are
/// sure to be enterable.
pub open spec fn forced_route<C: Fn(&SpatialHashCell, UCoord) -> Option<u32>>(
    route: Seq<Coord>,
    start: Coord,
    end: Coord,
    cost_fn: &C,
    spatial: &SpatialHashTable,
    dijkstra: &DijkstraMap,
) -> bool {
    &&& route.len() > 0
    &&& route[0] == start
    &&& route.last() == end
    &&& forall|i: int|
        1 <= i < route.len() ==> #[trigger] forced_step(route, i, cost_fn, spatial, dijkstra)
}

/// Whether a node of `queue` names the cell `(x, y)`.
pub open spec fn queued(queue: Seq<Node>, x: int, y: int) -> bool {
    exists|i: int| 0 <= i < queue.len() && (#[trigger] queue[i]).coord.x == x && queue[i].coord.y == y
}

/// Whether the search is done with the neighbour of the cell `(x, y)` in
/// `direction`: the neighbour cannot be a cell of a way that is sure to
/// be open, or it was reached or visited.
pub open spec fn settled<C: Fn(&SpatialHashCell, UCoord) -> Option<u32>>(
    cells: Seq<Cell>,
    width: u32,
    seq: u64,
    cost_fn: &C,
    spatial: &SpatialHashTable,
    dijkstra: &DijkstraMap,
    x: int,
    y: int,
    direction: CardinalDirection,
) -> bool {
    let to_x = x + direction.spec_vector().x;
    let to_y = y + direction.spec_vector().y;
    to_x <= i32::MAX && to_y <= i32::MAX && must_enter(cost_fn, spatial, dijkstra, to_x, to_y) ==> {
        let to = cells[cell_index(width, to_x, to_y)];
        to.seen == seq || to.visited == seq
    }
}

/// What holds of the cell `(x, y)` for the search to be thorough.  Of the
/// cell `pending`, only the first `done` directions have been tried.
pub open spec fn cell_explored<C: Fn(&SpatialHashCell, UCoord) -> Option<u32>>(
    cells: Seq<Cell>,
    width: u32,
    seq: u64,
    queue: Seq<Node>,
    cost_fn: &C,
    spatial: &SpatialHashTable,
    dijkstra: &DijkstraMap,
    pending: Coord,
    done: int,
    x: int,
    y: int,
) -> bool {
    let cell = cells[cell_index(width, x, y)];
    &&& cell.seen == seq && cell.visited != seq ==> queued(queue, x, y)
    &&& cell.visited == seq ==> forall|direction: CardinalDirection|
        (x == pending.x && y == pending.y && direction.spec_index() >= done) || #[trigger] settled(
            cells,
            width,
            seq,
            cost_fn,
            spatial,
            dijkstra,
            x,
            y,
            direction,
        )
}

/// What makes the search thorough: every cell that was reached and not
/// visited waits in the queue, the neighbours of every visited cell have
/// been tried, and the goal was not visited.
#[verifier::opaque]
pub open spec fn explored<C: Fn(&SpatialHashCell, UCoord) -> Option<u32>>(
    cells: Seq<Cell>,
    width: u32,
    height: u32,
    seq: u64,
    queue: Seq<Node>,
    end: Coord,
    cost_fn: &C,
    spatial: &SpatialHashTable,
    dijkstra: &DijkstraMap,
    pending: Coord,
    done: int,
) -> bool {
    &&& cells[cell_index(width, end.x as int, end.y as int)].visited != seq
    &&& forall|x: int, y: int|
        in_bounds(width, height, x, y) ==> #[trigger] cell_explored(
            cells,
            width,
            seq,
            queue,
            cost_fn,
            spatial,
            dijkstra,
            pending,
            done,
            x,
            y,
        )
}

/// The search is thorough when it starts: nothing was reached or visited.
proof fn lemma_explored_at_start<C: Fn(&SpatialHashCell, UCoord) -> Option<u32>>(
    cells: Seq<Cell>,
    width: u32,
    height: u32,
    seq: u64,
    queue: Seq<Node>,
    end: Coord,
    cost_fn: &C,
    spatial: &SpatialHashTable,
    dijkstra: &DijkstraMap,
    pending: Coord,
)
    requires
        cells.len() == width * height,
        in_bounds(width, height, end.x as int, end.y as int),
        forall|k: int|
            0 <= k < cells.len() ==> (#[trigger] cells[k]).visited < seq && cells[k].seen < seq,
    ensures
        explored(cells, width, height, seq, queue, end, cost_fn, spatial, dijkstra, pending, 4),
{
    reveal(explored);
    lemma_cell_index_bounds(width, height, end.x as int, end.y as int);
    assert forall|x: int, y: int| in_bounds(width, height, x, y) implies #[trigger] cell_explored(
        cells,
        width,
        seq,
        queue,
        cost_fn,
        spatial,
        dijkstra,
        pending,
        4,
        x,
        y,
    ) by {
        lemma_cell_index_bounds(width, height, x, y);
    }
}

/// Taking from the queue a node whose cell is visited keeps the search
/// thorough.
proof fn lemma_explored_after_stale<C: Fn(&SpatialHashCell, UCoord) -> Option<u32>>(
    cells: Seq<Cell>,
    width: u32,
    height: u32,
    seq: u64,
    queue: Seq<Node>,
    end: Coord,
    cost_fn: &C,
    spatial: &SpatialHashTable,
    dijkstra: &DijkstraMap,
    pending: Coord,
    taken: int,
)
    requires
        explored(cells, width, height, seq, queue, end, cost_fn, spatial, dijkstra, pending, 4),
        0 <= taken < queue.len(),
        cells[cell_index(width, queue[taken].coord.x as int, queue[taken].coord.y as int)].visited
            == seq,
    ensures
        explored(
            cells,
            width,
            height,
            seq,
            queue.remove(taken),
            end,
            cost_fn,
            spatial,
            dijkstra,
            pending,
            4,
        ),
{
    reveal(explored);
    let rest = queue.remove(taken);
    assert forall|x: int, y: int| in_bounds(width, height, x, y) implies #[trigger] cell_explored(
        cells,
        width,
        seq,
        rest,
        cost_fn,
        spatial,
        dijkstra,
        pending,
        4,
        x,
        y,
    ) by {
        assert(cell_explored(cells, width, seq, queue, cost_fn, spatial, dijkstra, pending, 4, x, y));
        let cell = cells[cell_index(width, x, y)];
        if cell.seen == seq && cell.visited != seq {
            lemma_queued_after_remove(queue, taken, x, y);
        }
    }
}

/// A cell that waits in the queue still does when a node of another cell
/// is taken.
proof fn lemma_queued_after_remove(queue: Seq<Node>, taken: int, x: int, y: int)
    requires
        queued(queue, x, y),
        0 <= taken < queue.len(),
        !(queue[taken].coord.x == x && queue[taken].coord.y == y),
    ensures
        queued(queue.remove(taken), x, y),
{
    let i = choose|i: int| 0 <= i < queue.len() && (#[trigger] queue[i]).coord.x == x
        && queue[i].coord.y == y;
    let rest = queue.remove(taken);
    if i < taken {
        assert(rest[i] == queue[i]);
    } else {
        assert(rest[i - 1] == queue[i]);
    }
}

/// The neighbours of a cell that were done with stay so when a cell
/// comes to be reached or visited.
proof fn lemma_settled_stays<C: Fn(&SpatialHashCell, UCoord) -> Option<u32>>(
    cells: Seq<Cell>,
    after: Seq<Cell>,
    width: u32,
    height: u32,
    seq: u64,
    cost_fn: &C,
    spatial: &SpatialHashTable,
    dijkstra: &DijkstraMap,
    x: int,
    y: int,
    direction: CardinalDirection,
)
    requires
        settled(cells, width, seq, cost_fn, spatial, dijkstra, x, y, direction),
        cells.len() == width * height,
        after.len() == cells.len(),
        spatial.grid.width == width,
        spatial.grid.height == height,
        forall|k: int|
            0 <= k < cells.len() && ((#[trigger] cells[k]).seen == seq || cells[k].visited == seq)
                ==> after[k].seen == seq || after[k].visited == seq,
    ensures
        settled(after, width, seq, cost_fn, spatial, dijkstra, x, y, direction),
{
    let to_x = x + direction.spec_vector().x;
    let to_y = y + direction.spec_vector().y;
    if must_enter(cost_fn, spatial, dijkstra, to_x, to_y) {
        lemma_cell_index_bounds(width, height, to_x, to_y);
    }
}

/// Visiting the cell of a node taken from the queue keeps the search
/// thorough, but for the neighbours of that cell, which are yet to be
/// tried.
proof fn lemma_explored_after_visit<C: Fn(&SpatialHashCell, UCoord) -> Option<u32>>(
    cells: Seq<Cell>,
    width: u32,
    height: u32,
    seq: u64,
    queue: Seq<Node>,
    end: Coord,
    cost_fn: &C,
    spatial: &SpatialHashTable,
    dijkstra: &DijkstraMap,
    pending: Coord,
    taken: int,
)
    requires
        explored(cells, width, height, seq, queue, end, cost_fn, spatial, dijkstra, pending, 4),
        cells.len() == width * height,
        spatial.grid.width == width,
        spatial.grid.height == height,
        0 <= taken < queue.len(),
        in_bounds(width, height, queue[taken].coord.x as int, queue[taken].coord.y as int),
        in_bounds(width, height, end.x as int, end.y as int),
        queue[taken].coord != end,
    ensures
        ({
            let coord = queue[taken].coord;
            let at = cell_index(width, coord.x as int, coord.y as int);
            explored(
                cells.update(at, visited_cell(cells[at], seq)),
                width,
                height,
                seq,
                queue.remove(taken),
                end,
                cost_fn,
                spatial,
                dijkstra,
                coord,
                0,
            )
        }),
{
    reveal(explored);
    let coord = queue[taken].coord;
    let at = cell_index(width, coord.x as int, coord.y as int);
    let after = cells.update(at, visited_cell(cells[at], seq));
    let rest = queue.remove(taken);
    lemma_cell_index_bounds(width, height, coord.x as int, coord.y as int);
    lemma_cell_index_bounds(width, height, end.x as int, end.y as int);
    if cell_index(width, end.x as int, end.y as int) == at {
        lemma_cell_index_injective(width, end.x as int, end.y as int, coord.x as int, coord.y as int);
    }
    assert forall|x: int, y: int| in_bounds(width, height, x, y) implies #[trigger] cell_explored(
        after,
        width,
        seq,
        rest,
        cost_fn,
        spatial,
        dijkstra,
        coord,
        0,
        x,
        y,
    ) by {
        lemma_cell_index_bounds(width, height, x, y);
        assert(cell_explored(cells, width, seq, queue, cost_fn, spatial, dijkstra, pending, 4, x, y));
        let here = cell_index(width, x, y);
        if here == at {
            lemma_cell_index_injective(width, x, y, coord.x as int, coord.y as int);
        } else {
            if after[here].seen == seq && after[here].visited != seq {
                lemma_queued_after_remove(queue, taken, x, y);
            }
            if after[here].visited == seq {
                assert forall|direction: CardinalDirection| #[trigger]
                    settled(after, width, seq, cost_fn, spatial, dijkstra, x, y, direction) by {
                    assert(settled(cells, width, seq, cost_fn, spatial, dijkstra, x, y, direction));
                    lemma_settled_stays(
                        cells,
                        after,
                        width,
                        height,
                        seq,
                        cost_fn,
                        spatial,
                        dijkstra,
                        x,
                        y,
                        direction,
                    );
                }
            }
        }
    }
}

/// Once the search is done with the neighbour of the pending cell in the
/// next direction, that direction has been tried.
proof fn lemma_explored_after_try<C: Fn(&SpatialHashCell, UCoord) -> Option<u32>>(
    cells: Seq<Cell>,
    width: u32,
    height: u32,
    seq: u64,
    queue: Seq<Node>,
    end: Coord,
    cost_fn: &C,
    spatial: &SpatialHashTable,
    dijkstra: &DijkstraMap,
    pending: Coord,
    done: int,
    direction: CardinalDirection,
)
    requires
        explored(cells, width, height, seq, queue, end, cost_fn, spatial, dijkstra, pending, done),
        direction.spec_index() == done,
        settled(
            cells,
            width,
            seq,
            cost_fn,
            spatial,
            dijkstra,
            pending.x as int,
            pending.y as int,
            direction,
        ),
    ensures
        explored(cells, width, height, seq, queue, end, cost_fn, spatial, dijkstra, pending, done + 1),
{
    reveal(explored);
    assert forall|x: int, y: int| in_bounds(width, height, x, y) implies #[trigger] cell_explored(
        cells,
        width,
        seq,
        queue,
        cost_fn,
        spatial,
        dijkstra,
        pending,
        done + 1,
        x,
        y,
    ) by {
        assert(cell_explored(cells, width, seq, queue, cost_fn, spatial, dijkstra, pending, done, x, y));
        if cells[cell_index(width, x, y)].visited == seq {
            assert forall|other: CardinalDirection|
                (x == pending.x && y == pending.y && other.spec_index() >= done + 1) || #[trigger] settled(
                    cells,
                    width,
                    seq,
                    cost_fn,
                    spatial,
                    dijkstra,
                    x,
                    y,
                    other,
                ) by {
                if x == pending.x && y == pending.y && other.spec_index() == done {
                    assert(other == direction);
                }
            }
        }
    }
}

/// Reaching the neighbour of the pending cell in the next direction, and
/// putting it in the queue, keeps the search thorough; that direction has
/// then been tried.
proof fn lemma_explored_after_reach<C: Fn(&SpatialHashCell, UCoord) -> Option<u32>>(
    cells: Seq<Cell>,
    width: u32,
    height: u32,
    seq: u64,
    queue: Seq<Node>,
    end: Coord,
    cost_fn: &C,
    spatial: &SpatialHashTable,
    dijkstra: &DijkstraMap,
    pending: Coord,
    done: int,
    direction: CardinalDirection,
    next: Coord,
    cost: u32,
    score: u32,
)
    requires
        explored(cells, width, height, seq, queue, end, cost_fn, spatial, dijkstra, pending, done),
        cells.len() == width * height,
        spatial.grid.width == width,
        spatial.grid.height == height,
        direction.spec_index() == done,
        steps_to(pending, direction, next),
        in_bounds(width, height, next.x as int, next.y as int),
        in_bounds(width, height, end.x as int, end.y as int),
    ensures
        ({
            let at = cell_index(width, next.x as int, next.y as int);
            explored(
                cells.update(at, reached_cell(cells[at], seq, cost, score, direction)),
                width,
                height,
                seq,
                queue.push(Node { score, coord: next }),
                end,
                cost_fn,
                spatial,
                dijkstra,
                pending,
                done + 1,
            )
        }),
{
    reveal(explored);
    let at = cell_index(width, next.x as int, next.y as int);
    let after = cells.update(at, reached_cell(cells[at], seq, cost, score, direction));
    let longer = queue.push(Node { score, coord: next });
    lemma_cell_index_bounds(width, height, next.x as int, next.y as int);
    lemma_cell_index_bounds(width, height, end.x as int, end.y as int);
    assert forall|x: int, y: int| in_bounds(width, height, x, y) implies #[trigger] cell_explored(
        after,
        width,
        seq,
        longer,
        cost_fn,
        spatial,
        dijkstra,
        pending,
        done + 1,
        x,
        y,
    ) by {
        lemma_cell_index_bounds(width, height, x, y);
        assert(cell_explored(cells, width, seq, queue, cost_fn, spatial, dijkstra, pending, done, x, y));
        let here = cell_index(width, x, y);
        if here == at {
            lemma_cell_index_injective(width, x, y, next.x as int, next.y as int);
            assert(longer[longer.len() - 1].coord == next);
        } else if after[here].seen == seq && after[here].visited != seq {
            let i = choose|i: int| 0 <= i < queue.len() && (#[trigger] queue[i]).coord.x == x
                && queue[i].coord.y == y;
            assert(longer[i] == queue[i]);
        }
        if after[here].visited == seq {
            assert forall|other: CardinalDirection|
                (x == pending.x && y == pending.y && other.spec_index() >= done + 1) || #[trigger] settled(
                    after,
                    width,
                    seq,
                    cost_fn,
                    spatial,
                    dijkstra,
                    x,
                    y,
                    other,
                ) by {
                if x == pending.x && y == pending.y && other.spec_index() == done {
                    assert(other == direction);
                    assert(after[at].seen == seq);
                } else if !(x == pending.x && y == pending.y && other.spec_index() >= done + 1) {
                    assert(settled(cells, width, seq, cost_fn, spatial, dijkstra, x, y, other));
                    lemma_settled_stays(
                        cells,
                        after,
                        width,
                        height,
                        seq,
                        cost_fn,
                        spatial,
                        dijkstra,
                        x,
                        y,
                        other,
                    );
                }
            }
        }
    }
}

/// Where the search is thorough and nothing waits in the queue, every
/// cell of a way from the start that is sure to be open was visited.
proof fn lemma_route_visited<C: Fn(&SpatialHashCell, UCoord) -> Option<u32>>(
    cells: Seq<Cell>,
    width: u32,
    height: u32,
    seq: u64,
    start: Coord,
    end: Coord,
    cost_fn: &C,
    spatial: &SpatialHashTable,
    dijkstra: &DijkstraMap,
    pending: Coord,
    route: Seq<Coord>,
    i: int,
)
    requires
        explored(
            cells,
            width,
            height,
            seq,
            Seq::<Node>::empty(),
            end,
            cost_fn,
            spatial,
            dijkstra,
            pending,
            4,
        ),
        spatial.grid.width == width,
        spatial.grid.height == height,
        in_bounds(width, height, start.x as int, start.y as int),
        cells[cell_index(width, start.x as int, start.y as int)].visited == seq,
        0 <= i < route.len(),
        route[0] == start,
        forall|k: int|
            1 <= k < route.len() ==> #[trigger] forced_step(route, k, cost_fn, spatial, dijkstra),
    ensures
        in_bounds(width, height, route[i].x as int, route[i].y as int),
        cells[cell_index(width, route[i].x as int, route[i].y as int)].visited == seq,
    decreases i,
{
    if i > 0 {
        lemma_route_visited(
            cells,
            width,
            height,
            seq,
            start,
            end,
            cost_fn,
            spatial,
            dijkstra,
            pending,
            route,
            i - 1,
        );
        reveal(explored);
        let a = route[i - 1];
        let b = route[i];
        assert(forced_step(route, i, cost_fn, spatial, dijkstra));
        let direction = choose|direction: CardinalDirection| #[trigger] steps_to(a, direction, b);
        assert(cell_explored(
            cells,
            width,
            seq,
            Seq::<Node>::empty(),
            cost_fn,
            spatial,
            dijkstra,
            pending,
            4,
            a.x as int,
            a.y as int,
        ));
        assert(settled(
            cells,
            width,
            seq,
            cost_fn,
            spatial,
            dijkstra,
            a.x as int,
            a.y as int,
            direction,
        ));
        assert(cell_explored(
            cells,
            width,
            seq,
            Seq::<Node>::empty(),
            cost_fn,
            spatial,
            dijkstra,
            pending,
            4,
            b.x as int,
            b.y as int,
        ));
    }
}

/// Where the search is thorough and nothing waits in the queue, no way
/// from the start to the goal is sure to be open.
proof fn lemma_no_forced_route<C: Fn(&SpatialHashCell, UCoord) -> Option<u32>>(
    cells: Seq<Cell>,
    width: u32,
    height: u32,
    seq: u64,
    start: Coord,
    end: Coord,
    cost_fn: &C,
    spatial: &SpatialHashTable,
    dijkstra: &DijkstraMap,
    pending: Coord,
)
    requires
        explored(
            cells,
            width,
            height,
            seq,
            Seq::<Node>::empty(),
            end,
            cost_fn,
            spatial,
            dijkstra,
            pending,
            4,
        ),
        spatial.grid.width == width,
        spatial.grid.height == height,
        in_bounds(width, height, start.x as int, start.y as int),
        cells[cell_index(width, start.x as int, start.y as int)].visited == seq,
    ensures
        forall|route: Seq<Coord>|
            !#[trigger] forced_route(route, start, end, cost_fn, spatial, dijkstra),
{
    assert forall|route: Seq<Coord>| !#[trigger] forced_route(
        route,
        start,
        end,
        cost_fn,
        spatial,
        dijkstra,
    ) by {
        if forced_route(route, start, end, cost_fn, spatial, dijkstra) {
            lemma_route_visited(
                cells,
                width,
                height,
                seq,
                start,
                end,
                cost_fn,
                spatial,
                dijkstra,
                pending,
                route,
                route.len() - 1,
            );
            reveal(explored);
        }
    }
}

/// Takes a node with the lowest score from `queue`.
pub fn pop_lowest(queue: &mut Vec<Node>) -> (r: Option<Node>)
    ensures
        r is None <==> old(queue)@.len() == 0,
        r is None ==> final(queue)@ == old(queue)@,
        r matches Some(node) ==> exists|at: int|
            {
                &&& 0 <= at < old(queue)@.len()
                &&& node == #[trigger] old(queue)@[at]
                &&& final(queue)@ == old(queue)@.remove(at)
                &&& forall|k: int| 0 <= k < old(queue)@.len() ==> node.score <= old(queue)@[k].score
            },
        r matches Some(node) ==> node == old(queue)@[lowest_at(old(queue)@)] && final(queue)@ == old(
            queue,
        )@.remove(lowest_at(old(queue)@)),
{
    if queue.len() == 0 {
        return None;
    }
    let mut best: usize = 0;
    let mut i: usize = 1;
    assert(lowest_at(queue@.take(1)) == 0);
    while i < queue.len()
        invariant
            queue@ == old(queue)@,
            best < i <= queue@.len(),
            best == lowest_at(queue@.take(i as int)),
            forall|k: int| 0 <= k < i ==> queue@[best as int].score <= queue@[k].score,
        decreases queue@.len() - i,
    {
        proof {
            assert(queue@.take(i + 1).drop_last() =~= queue@.take(i as int));
            assert(queue@.take(i + 1).last() == queue@[i as int]);
            assert(queue@.take(i + 1)[best as int] == queue@[best as int]);
        }
        if queue[i].score < queue[best].score {
            best = i;
        }
        i += 1;
    }
    assert(queue@.take(queue@.len() as int) =~= queue@);
    let node = queue.remove(best);
    assert(node == old(queue)@[best as int]);
    Some(node)
}

impl SearchEnv {
    /// The grid holds its cells, and no cell bears the number of a search
    /// that has not been made.
    pub open spec fn wf(&self) -> bool {
        &&& self.grid.wf()
        &&& forall|k: int|
            0 <= k < self.grid.cells@.len() ==> (#[trigger] self.grid.cells@[k]).visited <= self.seq
                && self.grid.cells@[k].seen <= self.seq
    }

    /// A search state for a grid of the given size.
    pub fn new(width: u32, height: u32) -> (env: SearchEnv)
        requires
            width * height <= usize::MAX,
        ensures
            env.wf(),
            env.grid.width == width,
            env.grid.height == height,
            env.seq == 0,
    {
        let n: usize = width as usize * height as usize;
        let mut cells: Vec<Cell> = Vec::new();
        let mut i: usize = 0;
        while i < n
            invariant
                i <= n,
                cells@.len() == i,
                forall|j: int| 0 <= j < i ==> (#[trigger] cells@[j]).visited == 0 && cells@[j].seen == 0,
            decreases n - i,
        {
            cells.push(Cell::default());
            i += 1;
        }
        SearchEnv { grid: StaticGrid::from_cells(width, height, cells), queue: Vec::new(), seq: 0 }
    }

    /// Forgets all searches made, so that their count starts again.
    fn reset(&mut self)
        requires
            old(self).grid.wf(),
        ensures
            final(self).wf(),
            final(self).seq == 0,
            final(self).grid.width == old(self).grid.width,
            final(self).grid.height == old(self).grid.height,
    {
        let n = self.grid.cells.len();
        let mut i: usize = 0;
        while i < n
            invariant
                i <= n,
                n == self.grid.cells@.len(),
                self.grid.width == old(self).grid.width,
                self.grid.height == old(self).grid.height,
                self.grid.wf(),
                forall|j: int|
                    0 <= j < i ==> (#[trigger] self.grid.cells@[j]).visited == 0
                        && self.grid.cells@[j].seen == 0,
            decreases n - i,
        {
            let mut cell = self.grid.cells[i];
            cell.visited = 0;
            cell.seen = 0;
            self.grid.cells.set(i, cell);
            i += 1;
        }
        self.seq = 0;
    }

    /// The unsigned forms of the two ends of a way, where both lie in the
    /// grid.
    fn search_bounds(&self, start_coord: Coord, end_coord: Coord) -> (r: Option<(UCoord, UCoord)>)
        ensures
            r is Some <==> self.grid.spec_contains(start_coord) && self.grid.spec_contains(end_coord),
            r matches Some((s, e)) ==> s.x == start_coord.x && s.y == start_coord.y && e.x
                == end_coord.x && e.y == end_coord.y,
    {
        let start_coord = match self.grid.convert_signed(start_coord) {
            Some(start_coord) => start_coord,
            None => {
                return None;
            },
        };
        let end_coord = match self.grid.convert_signed(end_coord) {
            Some(end_coord) => end_coord,
            None => {
                return None;
            },
        };
        Some((start_coord, end_coord))
    }

    /// Appends to `path` the steps that lead from the start to `end`, the
    /// last one first, by going back from `end` the way each cell was
    /// entered.
    fn unwind<C: Fn(&SpatialHashCell, UCoord) -> Option<u32>>(
        &self,
        start: Coord,
        end: Coord,
        cost_fn: &C,
        spatial: &SpatialHashTable,
        dijkstra: &DijkstraMap,
        path: &mut Vec<PathNode>,
        Ghost(order): Ghost<Map<int, nat>>,
        Ghost(walks): Ghost<Map<int, Seq<Coord>>>,
        Ghost(queue): Ghost<Seq<Node>>,
        Ghost(pending): Ghost<Coord>,
    )
        requires
            cost_is_fixed(cost_fn, spatial) && consistent(cost_fn, spatial, dijkstra) ==> costed(
                self.grid.cells@,
                self.grid.width,
                self.grid.height,
                self.seq,
                start,
                queue,
                walks,
                cost_fn,
                spatial,
                dijkstra,
                pending,
                4,
            ),
            traced(
                self.grid.cells@,
                self.grid.width,
                self.grid.height,
                self.seq,
                start,
                order,
                cost_fn,
                spatial,
                dijkstra,
            ),
            self.grid.spec_contains(end),
            end != start,
            self.grid.cells@[cell_index(self.grid.width, end.x as int, end.y as int)].seen
                == self.seq,
            self.grid.cells@[cell_index(self.grid.width, end.x as int, end.y as int)].visited
                != self.seq,
        ensures
            final(path)@.len() > old(path)@.len(),
            final(path)@.take(old(path)@.len() as int) == old(path)@,
            final(path)@.skip(old(path)@.len() as int) == unwound(
                frontier_of(self.grid.cells@, queue, self.seq).marks,
                self.grid.width,
                end,
                self.grid.cells@.len(),
            ),
            cost_is_fixed(cost_fn, spatial) && consistent(cost_fn, spatial, dijkstra) ==> route_cost(
                final(path)@.skip(old(path)@.len() as int),
                cost_fn,
                spatial,
            ) == walk_cost(
                walks[cell_index(self.grid.width, end.x as int, end.y as int)],
                cost_fn,
                spatial,
            ),
            is_route(
                final(path)@.skip(old(path)@.len() as int),
                start,
                end,
                cost_fn,
                spatial,
                dijkstra,
            ),
    {
        let ghost width = self.grid.width;
        let ghost height = self.grid.height;
        let ghost cells = self.grid.cells@;
        let ghost mut steps: Seq<PathNode> = Seq::empty();
        let ghost mut fuel: nat = order.dom().len();
        let ghost marks = frontier_of(cells, queue, self.seq).marks;
        let ghost mut rounds_left: nat = cells.len();
        proof {
            lemma_visits_leave_room(
                cells,
                width,
                height,
                self.seq,
                start,
                order,
                cost_fn,
                spatial,
                dijkstra,
                end,
            );
            assert(steps + unwound(marks, width, end, rounds_left) =~= unwound(
                marks,
                width,
                end,
                cells.len(),
            ));
        }
        let mut coord = end;
        assert(path@ =~= old(path)@ + steps);
        proof {
            lemma_traced_grid(cells, width, height, self.seq, start, order, cost_fn, spatial, dijkstra);
        }
        loop
            invariant
                width == self.grid.width,
                height == self.grid.height,
                cells == self.grid.cells@,
                cells.len() == width * height,
                traced(cells, width, height, self.seq, start, order, cost_fn, spatial, dijkstra),
                in_bounds(width, height, coord.x as int, coord.y as int),
                in_bounds(width, height, end.x as int, end.y as int),
                end != start,
                cells[cell_index(width, end.x as int, end.y as int)].seen == self.seq,
                cells[cell_index(width, end.x as int, end.y as int)].visited != self.seq,
                marks == frontier_of(cells, queue, self.seq).marks,
                rounds_left > fuel,
                steps + unwound(marks, width, coord, rounds_left) == unwound(
                    marks,
                    width,
                    end,
                    cells.len(),
                ),
                cost_is_fixed(cost_fn, spatial) && consistent(cost_fn, spatial, dijkstra) ==> costed(
                    cells,
                    width,
                    height,
                    self.seq,
                    start,
                    queue,
                    walks,
                    cost_fn,
                    spatial,
                    dijkstra,
                    pending,
                    4,
                ) && route_cost(steps, cost_fn, spatial) + walk_cost(
                    walks[cell_index(width, coord.x as int, coord.y as int)],
                    cost_fn,
                    spatial,
                ) == walk_cost(
                    walks[cell_index(width, end.x as int, end.y as int)],
                    cost_fn,
                    spatial,
                ),
                forall|i: int|
                    1 <= i < steps.len() ==> #[trigger] arrives_later(
                        steps,
                        i,
                        cells,
                        width,
                        height,
                        self.seq,
                        order,
                        fuel,
                    ),
                forall|i: int, j: int|
                    0 <= i < j < steps.len() ==> arrival(#[trigger] steps[i]) != arrival(
                        #[trigger] steps[j],
                    ),
                path@ == old(path)@ + steps,
                steps.len() == 0 ==> coord == end && fuel == order.dom().len(),
                steps.len() > 0 ==> {
                    &&& cells[cell_index(width, coord.x as int, coord.y as int)].visited == self.seq
                    &&& fuel == order[cell_index(width, coord.x as int, coord.y as int)]
                    &&& arrival(steps[0]) == (end.x as int, end.y as int)
                    &&& steps.last().origin == coord
                },
                forall|i: int| 1 <= i < steps.len() ==> #[trigger] linked(steps, i),
                forall|i: int|
                    0 <= i < steps.len() ==> may_enter(
                        cost_fn,
                        spatial,
                        dijkstra,
                        arrival(#[trigger] steps[i]).0,
                        arrival(steps[i]).1,
                    ),
            decreases fuel,
        {
            let at = UCoord { x: coord.x as u32, y: coord.y as u32 };
            let cell = *self.grid.get_checked(at);
            proof {
                lemma_direction_known(
                    cells,
                    width,
                    height,
                    self.seq,
                    start,
                    order,
                    cost_fn,
                    spatial,
                    dijkstra,
                    coord,
                );
            }
            match cell.enter_direction {
                Some(direction) => {
                    let back = direction.opposite().vector();
                    let ghost from_x = coord.x - direction.spec_vector().x;
                    let ghost from_y = coord.y - direction.spec_vector().y;
                    let ghost from = cell_index(width, from_x, from_y);
                    proof {
                        lemma_entered_from_visited(
                            cells,
                            width,
                            height,
                            self.seq,
                            start,
                            order,
                            cost_fn,
                            spatial,
                            dijkstra,
                            coord,
                        );
                    }
                    let origin = Coord { x: coord.x + back.x, y: coord.y + back.y };
                    let step = PathNode { direction, origin };
                    path.push(step);
                    proof {
                        let before = steps;
                        let fuel_before = fuel;
                        lemma_cell_index_bounds(width, height, coord.x as int, coord.y as int);
                        assert(cells[cell_index(width, coord.x as int, coord.y as int)].seen
                            == self.seq || cells[cell_index(
                            width,
                            coord.x as int,
                            coord.y as int,
                        )].visited == self.seq);
                        assert(marks[cell_index(width, coord.x as int, coord.y as int)].enter_direction
                            == Some(direction));
                        assert(before + unwound(marks, width, coord, rounds_left) =~= before.push(
                            step,
                        ) + unwound(marks, width, origin, (rounds_left - 1) as nat));
                        rounds_left = (rounds_left - 1) as nat;
                        steps = steps.push(step);
                        fuel = order[from];
                        assert(path@ =~= old(path)@ + steps);
                        assert(arrival(step) == (coord.x as int, coord.y as int));
                        lemma_cell_index_bounds(width, height, coord.x as int, coord.y as int);
                        if cost_is_fixed(cost_fn, spatial) && consistent(cost_fn, spatial, dijkstra) {
                            lemma_reached_way(
                                cells,
                                width,
                                height,
                                self.seq,
                                start,
                                queue,
                                walks,
                                cost_fn,
                                spatial,
                                dijkstra,
                                pending,
                                4,
                                coord,
                            );
                            assert(steps.drop_last() =~= before);
                        }
                        assert forall|i: int| 1 <= i < steps.len() implies #[trigger] arrives_later(
                            steps,
                            i,
                            cells,
                            width,
                            height,
                            self.seq,
                            order,
                            fuel,
                        ) by {
                            if i < before.len() {
                                assert(arrives_later(
                                    before,
                                    i,
                                    cells,
                                    width,
                                    height,
                                    self.seq,
                                    order,
                                    fuel_before,
                                ));
                                assert(steps[i] == before[i]);
                            }
                        }
                        assert forall|i: int, j: int| 0 <= i < j < steps.len() implies arrival(
                            #[trigger] steps[i],
                        ) != arrival(#[trigger] steps[j]) by {
                            assert(steps[i] == before[i]);
                            if j < before.len() {
                                assert(steps[j] == before[j]);
                            } else if i >= 1 {
                                assert(arrives_later(
                                    before,
                                    i,
                                    cells,
                                    width,
                                    height,
                                    self.seq,
                                    order,
                                    fuel_before,
                                ));
                            }
                        }
                        assert forall|i: int| 1 <= i < steps.len() implies #[trigger] linked(
                            steps,
                            i,
                        ) by {
                            if i < before.len() {
                                assert(linked(before, i));
                                assert(steps[i] == before[i]);
                                assert(steps[i - 1] == before[i - 1]);
                            }
                        }
                        assert forall|i: int| 0 <= i < steps.len() implies may_enter(
                            cost_fn,
                            spatial,
                            dijkstra,
                            arrival(#[trigger] steps[i]).0,
                            arrival(steps[i]).1,
                        ) by {
                            if i < before.len() {
                                assert(steps[i] == before[i]);
                            }
                        }
                    }
                    coord = origin;
                },
                None => {
                    proof {
                        assert(steps.len() > 0);
                        assert(coord == start);
                        lemma_cell_index_bounds(width, height, coord.x as int, coord.y as int);
                        assert(cells[cell_index(width, coord.x as int, coord.y as int)].visited
                            == self.seq);
                        assert(marks[cell_index(width, coord.x as int, coord.y as int)].enter_direction
                            is None);
                        assert(steps + unwound(marks, width, coord, rounds_left) =~= steps);
                        assert(path@.take(old(path)@.len() as int) =~= old(path)@);
                        assert(path@.skip(old(path)@.len() as int) =~= steps);
                        if cost_is_fixed(cost_fn, spatial) && consistent(cost_fn, spatial, dijkstra) {
                            lemma_start_way(
                                cells,
                                width,
                                height,
                                self.seq,
                                start,
                                queue,
                                walks,
                                cost_fn,
                                spatial,
                                dijkstra,
                                pending,
                                4,
                            );
                        }
                    }
                    return ;
                },
            }
        }
    }

    /// Tries the neighbour of the visited cell `from` in `direction`:
    /// where it can be entered, was not visited, and is reached with a
    /// better score than before, it is told so, and waits to be tried.
    /// Returns the ways by which the cells were reached.
    fn relax<C: Fn(&SpatialHashCell, UCoord) -> Option<u32>>(
        &mut self,
        from: Coord,
        direction: CardinalDirection,
        base_cost: u32,
        cost_fn: &C,
        spatial: &SpatialHashTable,
        dijkstra: &DijkstraMap,
        Ghost(start): Ghost<Coord>,
        Ghost(end): Ghost<Coord>,
        Ghost(order): Ghost<Map<int, nat>>,
        Ghost(walks): Ghost<Map<int, Seq<Coord>>>,
    ) -> (after: Ghost<Map<int, Seq<Coord>>>)
        requires
            traced(
                old(self).grid.cells@,
                old(self).grid.width,
                old(self).grid.height,
                old(self).seq,
                start,
                order,
                cost_fn,
                spatial,
                dijkstra,
            ),
            explored(
                old(self).grid.cells@,
                old(self).grid.width,
                old(self).grid.height,
                old(self).seq,
                old(self).queue@,
                end,
                cost_fn,
                spatial,
                dijkstra,
                from,
                direction.spec_index() as int,
            ),
            cost_is_fixed(cost_fn, spatial) && consistent(cost_fn, spatial, dijkstra) ==> costed(
                old(self).grid.cells@,
                old(self).grid.width,
                old(self).grid.height,
                old(self).seq,
                start,
                old(self).queue@,
                walks,
                cost_fn,
                spatial,
                dijkstra,
                from,
                direction.spec_index() as int,
            ),
            in_bounds(old(self).grid.width, old(self).grid.height, end.x as int, end.y as int),
            queue_traced(
                old(self).queue@,
                old(self).grid.cells@,
                old(self).grid.width,
                old(self).grid.height,
                old(self).seq,
                start,
            ),
            in_bounds(old(self).grid.width, old(self).grid.height, from.x as int, from.y as int),
            old(self).grid.cells@[cell_index(old(self).grid.width, from.x as int, from.y as int)].visited
                == old(self).seq,
            old(self).grid.cells@[cell_index(old(self).grid.width, from.x as int, from.y as int)].cost
                == base_cost,
            old(self).grid.cells@[cell_index(
                old(self).grid.width,
                start.x as int,
                start.y as int,
            )].visited == old(self).seq,
            forall|cell: &SpatialHashCell, coord: UCoord| cost_fn.requires((cell, coord)),
        ensures
            final(self).grid.width == old(self).grid.width,
            final(self).grid.height == old(self).grid.height,
            final(self).seq == old(self).seq,
            final(self).queue@.len() <= old(self).queue@.len() + 1,
            final(self).grid.cells@[cell_index(old(self).grid.width, from.x as int, from.y as int)].cost
                == base_cost,
            cost_is_fixed(cost_fn, spatial) ==> frontier_of(final(self).grid.cells@, final(self).queue@, final(self).seq)
                == relaxed(
                frontier_of(old(self).grid.cells@, old(self).queue@, old(self).seq),
                old(self).grid.width,
                old(self).grid.height,
                from,
                direction,
                base_cost,
                cost_fn,
                spatial,
                dijkstra,
            ),
            explored(
                final(self).grid.cells@,
                final(self).grid.width,
                final(self).grid.height,
                final(self).seq,
                final(self).queue@,
                end,
                cost_fn,
                spatial,
                dijkstra,
                from,
                direction.spec_index() as int + 1,
            ),
            cost_is_fixed(cost_fn, spatial) && consistent(cost_fn, spatial, dijkstra) ==> costed(
                final(self).grid.cells@,
                final(self).grid.width,
                final(self).grid.height,
                final(self).seq,
                start,
                final(self).queue@,
                after@,
                cost_fn,
                spatial,
                dijkstra,
                from,
                direction.spec_index() as int + 1,
            ),
            traced(
                final(self).grid.cells@,
                final(self).grid.width,
                final(self).grid.height,
                final(self).seq,
                start,
                order,
                cost_fn,
                spatial,
                dijkstra,
            ),
            queue_traced(
                final(self).queue@,
                final(self).grid.cells@,
                final(self).grid.width,
                final(self).grid.height,
                final(self).seq,
                start,
            ),
    {
        let ghost width = self.grid.width;
        let ghost height = self.grid.height;
        let ghost cells = self.grid.cells@;
        let ghost done = direction.spec_index() as int;
        proof {
            lemma_traced_grid(cells, width, height, self.seq, start, order, cost_fn, spatial, dijkstra);
        }
        let next = match from.checked_add(direction.vector()) {
            Some(next) => next,
            None => {
                proof {
                    lemma_explored_after_try(
                        cells,
                        width,
                        height,
                        self.seq,
                        self.queue@,
                        end,
                        cost_fn,
                        spatial,
                        dijkstra,
                        from,
                        done,
                        direction,
                    );
                    if cost_is_fixed(cost_fn, spatial) {
                        
                        assert(relaxed(
                            frontier_of(cells, old(self).queue@, self.seq),
                            width,
                            height,
                            from,
                            direction,
                            base_cost,
                            cost_fn,
                            spatial,
                            dijkstra,
                        ) == frontier_of(cells, old(self).queue@, self.seq));
                    }
                    if cost_is_fixed(cost_fn, spatial) && consistent(cost_fn, spatial, dijkstra) {
                        assert(neighbour_bounded(
                            cells,
                            width,
                            self.seq,
                            walks,
                            cost_fn,
                            spatial,
                            dijkstra,
                            from.x as int,
                            from.y as int,
                            direction,
                        ));
                        lemma_costed_after_try(
                            cells,
                            width,
                            height,
                            self.seq,
                            start,
                            self.queue@,
                            walks,
                            cost_fn,
                            spatial,
                            dijkstra,
                            from,
                            done,
                            direction,
                        );
                    }
                }
                return Ghost(walks);
            },
        };
        let at = match self.grid.convert_signed(next) {
            Some(at) => at,
            None => {
                proof {
                    lemma_explored_after_try(
                        cells,
                        width,
                        height,
                        self.seq,
                        self.queue@,
                        end,
                        cost_fn,
                        spatial,
                        dijkstra,
                        from,
                        done,
                        direction,
                    );
                    if cost_is_fixed(cost_fn, spatial) {
                        
                        assert(relaxed(
                            frontier_of(cells, old(self).queue@, self.seq),
                            width,
                            height,
                            from,
                            direction,
                            base_cost,
                            cost_fn,
                            spatial,
                            dijkstra,
                        ) == frontier_of(cells, old(self).queue@, self.seq));
                    }
                    if cost_is_fixed(cost_fn, spatial) && consistent(cost_fn, spatial, dijkstra) {
                        assert(neighbour_bounded(
                            cells,
                            width,
                            self.seq,
                            walks,
                            cost_fn,
                            spatial,
                            dijkstra,
                            from.x as int,
                            from.y as int,
                            direction,
                        ));
                        lemma_costed_after_try(
                            cells,
                            width,
                            height,
                            self.seq,
                            start,
                            self.queue@,
                            walks,
                            cost_fn,
                            spatial,
                            dijkstra,
                            from,
                            done,
                            direction,
                        );
                    }
                }
                return Ghost(walks);
            },
        };
        let mut cell = *self.grid.get_checked(at);
        proof {
            lemma_cell_index_bounds(width, height, next.x as int, next.y as int);
            lemma_cell_index_bounds(width, height, from.x as int, from.y as int);
            assert(at == (UCoord { x: next.x as u32, y: next.y as u32 }));
        }
        if cell.visited == self.seq {
            proof {
                lemma_explored_after_try(
                    cells,
                    width,
                    height,
                    self.seq,
                    self.queue@,
                    end,
                    cost_fn,
                    spatial,
                    dijkstra,
                    from,
                    done,
                    direction,
                );
                if cost_is_fixed(cost_fn, spatial) {
                    
                    assert(relaxed(
                        frontier_of(cells, old(self).queue@, self.seq),
                        width,
                        height,
                        from,
                        direction,
                        base_cost,
                        cost_fn,
                        spatial,
                        dijkstra,
                    ) == frontier_of(cells, old(self).queue@, self.seq));
                }
                if cost_is_fixed(cost_fn, spatial) && consistent(cost_fn, spatial, dijkstra) {
                    assert(neighbour_bounded(
                        cells,
                        width,
                        self.seq,
                        walks,
                        cost_fn,
                        spatial,
                        dijkstra,
                        from.x as int,
                        from.y as int,
                        direction,
                    ));
                    lemma_costed_after_try(
                        cells,
                        width,
                        height,
                        self.seq,
                        start,
                        self.queue@,
                        walks,
                        cost_fn,
                        spatial,
                        dijkstra,
                        from,
                        done,
                        direction,
                    );
                }
            }
            return Ghost(walks);
        }
        let heuristic = match dijkstra.get_distance(at) {
            Some(distance) => distance,
            None => {
                proof {
                    lemma_explored_after_try(
                        cells,
                        width,
                        height,
                        self.seq,
                        self.queue@,
                        end,
                        cost_fn,
                        spatial,
                        dijkstra,
                        from,
                        done,
                        direction,
                    );
                    if cost_is_fixed(cost_fn, spatial) {
                        
                        assert(relaxed(
                            frontier_of(cells, old(self).queue@, self.seq),
                            width,
                            height,
                            from,
                            direction,
                            base_cost,
                            cost_fn,
                            spatial,
                            dijkstra,
                        ) == frontier_of(cells, old(self).queue@, self.seq));
                    }
                    if cost_is_fixed(cost_fn, spatial) && consistent(cost_fn, spatial, dijkstra) {
                        assert(neighbour_bounded(
                            cells,
                            width,
                            self.seq,
                            walks,
                            cost_fn,
                            spatial,
                            dijkstra,
                            from.x as int,
                            from.y as int,
                            direction,
                        ));
                        lemma_costed_after_try(
                            cells,
                            width,
                            height,
                            self.seq,
                            start,
                            self.queue@,
                            walks,
                            cost_fn,
                            spatial,
                            dijkstra,
                            from,
                            done,
                            direction,
                        );
                    }
                }
                return Ghost(walks);
            },
        };
        let sh_cell = spatial.grid.get_checked(at);
        let next_cost = match cost_fn(sh_cell, at) {
            Some(next_cost) => next_cost,
            None => {
                proof {
                    lemma_explored_after_try(
                        cells,
                        width,
                        height,
                        self.seq,
                        self.queue@,
                        end,
                        cost_fn,
                        spatial,
                        dijkstra,
                        from,
                        done,
                        direction,
                    );
                    if cost_is_fixed(cost_fn, spatial) {
                        assert(cost_result(cost_fn, spatial, next.x as int, next.y as int, None));
                        lemma_cost_at(cost_fn, spatial, next.x as int, next.y as int, None);
                        assert(relaxed(
                            frontier_of(cells, old(self).queue@, self.seq),
                            width,
                            height,
                            from,
                            direction,
                            base_cost,
                            cost_fn,
                            spatial,
                            dijkstra,
                        ) == frontier_of(cells, old(self).queue@, self.seq));
                    }
                    if cost_is_fixed(cost_fn, spatial) && consistent(cost_fn, spatial, dijkstra) {
                        assert(cost_result(cost_fn, spatial, next.x as int, next.y as int, None));
                        lemma_no_answer_no_entry(cost_fn, spatial, dijkstra, next.x as int, next.y as int);
                        assert(neighbour_bounded(
                            cells,
                            width,
                            self.seq,
                            walks,
                            cost_fn,
                            spatial,
                            dijkstra,
                            from.x as int,
                            from.y as int,
                            direction,
                        ));
                        lemma_costed_after_try(
                            cells,
                            width,
                            height,
                            self.seq,
                            start,
                            self.queue@,
                            walks,
                            cost_fn,
                            spatial,
                            dijkstra,
                            from,
                            done,
                            direction,
                        );
                    }
                }
                return Ghost(walks);
            },
        };
        let cost = base_cost.saturating_add(next_cost);
        let score = cost.saturating_add(heuristic);
        if cell.seen == self.seq && cell.score <= score {
            proof {
                lemma_explored_after_try(
                    cells,
                    width,
                    height,
                    self.seq,
                    self.queue@,
                    end,
                    cost_fn,
                    spatial,
                    dijkstra,
                    from,
                    done,
                    direction,
                );
                if cost_is_fixed(cost_fn, spatial) {
                    assert(cost_result(cost_fn, spatial, next.x as int, next.y as int, Some(next_cost)));
                    lemma_cost_at(cost_fn, spatial, next.x as int, next.y as int, Some(next_cost));
                    assert(relaxed(
                        frontier_of(cells, old(self).queue@, self.seq),
                        width,
                        height,
                        from,
                        direction,
                        base_cost,
                        cost_fn,
                        spatial,
                        dijkstra,
                    ) == frontier_of(cells, old(self).queue@, self.seq));
                }
                if cost_is_fixed(cost_fn, spatial) && consistent(cost_fn, spatial, dijkstra) {
                    lemma_visited_cost(
                        cells,
                        width,
                        height,
                        self.seq,
                        start,
                        self.queue@,
                        walks,
                        cost_fn,
                        spatial,
                        dijkstra,
                        from,
                        done,
                        from,
                    );
                    assert(cost_result(cost_fn, spatial, next.x as int, next.y as int, Some(next_cost)));
                    lemma_entry_cost(cost_fn, spatial, next.x as int, next.y as int, next_cost);
                    assert(neighbour_bounded(
                        cells,
                        width,
                        self.seq,
                        walks,
                        cost_fn,
                        spatial,
                        dijkstra,
                        from.x as int,
                        from.y as int,
                        direction,
                    ));
                    lemma_costed_after_try(
                        cells,
                        width,
                        height,
                        self.seq,
                        start,
                        self.queue@,
                        walks,
                        cost_fn,
                        spatial,
                        dijkstra,
                        from,
                        done,
                        direction,
                    );
                }
            }
            return Ghost(walks);
        }
        let ghost before = cell;
        cell.seen = self.seq;
        cell.cost = cost;
        cell.score = score;
        cell.enter_direction = Some(direction);
        self.grid.set_checked(at, cell);
        self.queue.push(Node { score, coord: next });
        let ghost place = cell_index(width, next.x as int, next.y as int);
        let ghost walks_after = walks.insert(
            place,
            walks[cell_index(width, from.x as int, from.y as int)].push(next),
        );
        proof {
            assert(at == (UCoord { x: next.x as u32, y: next.y as u32 }));
            assert(may_enter(cost_fn, spatial, dijkstra, next.x as int, next.y as int));
            assert(cell == reached_cell(before, self.seq, cost, score, direction));
            lemma_traced_after_reach(
                cells,
                width,
                height,
                self.seq,
                start,
                order,
                cost_fn,
                spatial,
                dijkstra,
                from,
                direction,
                next,
                cost,
                score,
            );
            lemma_queue_traced_after_update(
                old(self).queue@,
                cells,
                width,
                height,
                self.seq,
                start,
                place,
                cell,
            );
            assert(self.grid.cells@[place].seen == self.seq);
            lemma_explored_after_reach(
                cells,
                width,
                height,
                self.seq,
                old(self).queue@,
                end,
                cost_fn,
                spatial,
                dijkstra,
                from,
                done,
                direction,
                next,
                cost,
                score,
            );
            if cost_is_fixed(cost_fn, spatial) {
                assert(cost_result(cost_fn, spatial, next.x as int, next.y as int, Some(next_cost)));
                lemma_cost_at(cost_fn, spatial, next.x as int, next.y as int, Some(next_cost));
                lemma_frontier_after_reach(
                    cells,
                    old(self).queue@,
                    self.seq,
                    place,
                    cost,
                    score,
                    direction,
                    Node { score, coord: next },
                );
            }
            if cost_is_fixed(cost_fn, spatial) && consistent(cost_fn, spatial, dijkstra) {
                lemma_visited_cost(
                    cells,
                    width,
                    height,
                    self.seq,
                    start,
                    old(self).queue@,
                    walks,
                    cost_fn,
                    spatial,
                    dijkstra,
                    from,
                    done,
                    from,
                );
                assert(cost_result(cost_fn, spatial, next.x as int, next.y as int, Some(next_cost)));
                lemma_entry_cost(cost_fn, spatial, next.x as int, next.y as int, next_cost);
                lemma_costed_after_reach(
                    cells,
                    width,
                    height,
                    self.seq,
                    start,
                    old(self).queue@,
                    walks,
                    cost_fn,
                    spatial,
                    dijkstra,
                    from,
                    done,
                    direction,
                    next,
                    cost,
                    score,
                );
            }
        }
        Ghost(walks_after)
    }

    /// Finds a way from `start` to `end` and appends its steps to `path`,
    /// the last step first.
    ///
    /// The way goes from cell to neighbouring cell in the four cardinal
    /// directions, through cells for which `dijkstra_map` knows a
    /// distance and `cost_fn` gives a cost, and enters no cell twice.
    /// Where `cost_fn` gives each cell one cost, the outcome depends on
    /// the size of the grid, the ends, the costs and the distances alone;
    /// where in addition the distances never fall by more than the cost
    /// of a step, no way costs less than the one found.  Fails
    /// with `OutOfBounds` where the ends are the same cell or one of them
    /// lies outside the grid, and with `NoPath` where the search finds no
    /// way; `path` is then left as it was.  Where both ends are cells of
    /// the grid, the spatial hash has to be of the size of the grid.
    pub fn search<C: Fn(&SpatialHashCell, UCoord) -> Option<u32>>(
        &mut self,
        spatial_hash: &SpatialHashTable,
        start: Coord,
        end: Coord,
        cost_fn: C,
        dijkstra_map: &DijkstraMap,
        path: &mut Vec<PathNode>,
    ) -> (r: core::result::Result<(), Error>)
        requires
            old(self).wf(),
            spatial_hash.wf(),
            dijkstra_map.wf(),
            start != end && old(self).grid.spec_contains(start) && old(self).grid.spec_contains(end)
                ==> spatial_hash.grid.width == old(self).grid.width && spatial_hash.grid.height
                == old(self).grid.height,
            forall|cell: &SpatialHashCell, coord: UCoord| cost_fn.requires((cell, coord)),
        ensures
            final(self).wf(),
            final(self).grid.width == old(self).grid.width,
            final(self).grid.height == old(self).grid.height,
            r == Err::<(), Error>(Error::OutOfBounds) <==> start == end || !old(
                self,
            ).grid.spec_contains(start) || !old(self).grid.spec_contains(end),
            r is Err ==> final(path)@ == old(path)@,
            r == Err::<(), Error>(Error::NoPath) ==> forall|route: Seq<Coord>|
                !#[trigger] forced_route(route, start, end, &cost_fn, spatial_hash, dijkstra_map),
            cost_is_fixed(&cost_fn, spatial_hash) && start != end && old(self).grid.spec_contains(start)
                && old(self).grid.spec_contains(end) ==> is_outcome(
                r,
                old(path)@,
                final(path)@,
                old(self).grid.width,
                old(self).grid.height,
                start,
                end,
                &cost_fn,
                spatial_hash,
                dijkstra_map,
            ),
            r is Ok && cost_is_fixed(&cost_fn, spatial_hash) && consistent(&cost_fn, spatial_hash, dijkstra_map) ==> cheapest_route(
                final(path)@.skip(old(path)@.len() as int),
                start,
                end,
                &cost_fn,
                spatial_hash,
                dijkstra_map,
            ),
            r is Ok ==> final(path)@.len() > old(path)@.len() && final(path)@.take(
                old(path)@.len() as int,
            ) == old(path)@ && is_route(
                final(path)@.skip(old(path)@.len() as int),
                start,
                end,
                &cost_fn,
                spatial_hash,
                dijkstra_map,
            ),
    {
        if start == end {
            return Err(Error::OutOfBounds);
        }
        let (start_at, end_at) = match self.search_bounds(start, end) {
            Some(ends) => ends,
            None => {
                return Err(Error::OutOfBounds);
            },
        };
        if self.seq == u64::MAX {
            self.reset();
        }
        self.seq += 1;
        self.queue.clear();
        self.queue.push(Node { score: 0, coord: start });
        let mut cell = *self.grid.get_checked(start_at);
        cell.cost = 0;
        cell.score = 0;
        cell.enter_direction = None;
        self.grid.set_checked(start_at, cell);
        let ghost width = self.grid.width;
        let ghost height = self.grid.height;
        let ghost seq = self.seq;
        let ghost mut order: Map<int, nat> = Map::empty();
        proof {
            lemma_cell_index_bounds(width, height, start.x as int, start.y as int);
            lemma_traced_at_start(
                self.grid.cells@,
                width,
                height,
                seq,
                start,
                &cost_fn,
                spatial_hash,
                dijkstra_map,
            );
            assert(order.dom() =~= Set::<int>::empty());
            lemma_explored_at_start(
                self.grid.cells@,
                width,
                height,
                seq,
                self.queue@,
                end,
                &cost_fn,
                spatial_hash,
                dijkstra_map,
                start,
            );
        }
        let ghost mut pending = start;
        let ghost mut walks: Map<int, Seq<Coord>> = map![cell_index(
            width,
            start.x as int,
            start.y as int,
        ) => seq![start]];
        let ghost mut queue_found = self.queue@;
        let ghost goal = explored_from(
            first_frontier(width, height, start),
            width,
            height,
            end,
            &cost_fn,
            spatial_hash,
            dijkstra_map,
            rounds(self.grid.cells@.len()),
        );
        let ghost mut rounds_left: nat = rounds(self.grid.cells@.len());
        proof {
            assert(self.queue@ =~= seq![Node { score: 0, coord: start }]);
            lemma_first_frontier(self.grid.cells@, width, height, seq, start);
            lemma_costed_at_start(
                self.grid.cells@,
                width,
                height,
                seq,
                start,
                &cost_fn,
                spatial_hash,
                dijkstra_map,
                start,
            );
        }
        let mut found = false;
        loop
            invariant_except_break
                !found,
                cost_is_fixed(&cost_fn, spatial_hash) ==> explored_from(
                    frontier_of(self.grid.cells@, self.queue@, seq),
                    width,
                    height,
                    end,
                    &cost_fn,
                    spatial_hash,
                    dijkstra_map,
                    rounds_left,
                ) == goal,
                rounds_left >= self.queue@.len() + 4 * (self.grid.cells@.len() - order.dom().len()) + 1,
                order.dom().len() == 0 ==> self.grid.cells@[cell_index(
                    width,
                    start.x as int,
                    start.y as int,
                )].cost == 0 && self.grid.cells@[cell_index(
                    width,
                    start.x as int,
                    start.y as int,
                )].score == 0,
                cost_is_fixed(&cost_fn, spatial_hash) && consistent(&cost_fn, spatial_hash, dijkstra_map) ==> costed(
                    self.grid.cells@,
                    width,
                    height,
                    seq,
                    start,
                    self.queue@,
                    walks,
                    &cost_fn,
                    spatial_hash,
                    dijkstra_map,
                    pending,
                    4,
                ),
                explored(
                    self.grid.cells@,
                    width,
                    height,
                    seq,
                    self.queue@,
                    end,
                    &cost_fn,
                    spatial_hash,
                    dijkstra_map,
                    pending,
                    4,
                ),
            invariant
                spatial_hash.grid.width == width,
                spatial_hash.grid.height == height,
                self.grid.width == width,
                self.grid.height == height,
                self.seq == seq,
                width == old(self).grid.width,
                height == old(self).grid.height,
                self.grid.cells@.len() == width * height,
                in_bounds(width, height, start.x as int, start.y as int),
                in_bounds(width, height, end.x as int, end.y as int),
                start != end,
                traced(
                    self.grid.cells@,
                    width,
                    height,
                    seq,
                    start,
                    order,
                    &cost_fn,
                    spatial_hash,
                    dijkstra_map,
                ),
                queue_traced(self.queue@, self.grid.cells@, width, height, seq, start),
                order.dom().len() == 0 ==> self.queue@.len() == 1 && self.queue@[0].coord == start,
                order.dom().len() > 0 ==> self.grid.cells@[cell_index(
                    width,
                    start.x as int,
                    start.y as int,
                )].visited == seq,
                forall|cell: &SpatialHashCell, coord: UCoord| cost_fn.requires((cell, coord)),
                path@ == old(path)@,
            ensures
                found ==> self.grid.cells@[cell_index(width, end.x as int, end.y as int)].seen == seq,
                found ==> self.grid.cells@[cell_index(width, end.x as int, end.y as int)].visited
                    != seq,
                found && cost_is_fixed(&cost_fn, spatial_hash) ==> goal == Some(
                    frontier_of(self.grid.cells@, queue_found, seq).marks,
                ),
                !found && cost_is_fixed(&cost_fn, spatial_hash) ==> goal is None,
                found && cost_is_fixed(&cost_fn, spatial_hash) && consistent(&cost_fn, spatial_hash, dijkstra_map) ==> costed(
                    self.grid.cells@,
                    width,
                    height,
                    seq,
                    start,
                    queue_found,
                    walks,
                    &cost_fn,
                    spatial_hash,
                    dijkstra_map,
                    pending,
                    4,
                ) && best_walk(
                    walks[cell_index(width, end.x as int, end.y as int)],
                    start,
                    end,
                    &cost_fn,
                    spatial_hash,
                    dijkstra_map,
                ),
                !found ==> forall|route: Seq<Coord>|
                    !#[trigger] forced_route(route, start, end, &cost_fn, spatial_hash, dijkstra_map),
            decreases self.grid.cells@.len() - order.dom().len(), self.queue@.len(),
        {
            proof {
                lemma_visits_bounded(
                    self.grid.cells@,
                    width,
                    height,
                    seq,
                    start,
                    order,
                    &cost_fn,
                    spatial_hash,
                    dijkstra_map,
                );
                lemma_traced_grid(
                    self.grid.cells@,
                    width,
                    height,
                    seq,
                    start,
                    order,
                    &cost_fn,
                    spatial_hash,
                    dijkstra_map,
                );
            }
            let ghost queue_before = self.queue@;
            let node = match pop_lowest(&mut self.queue) {
                Some(node) => node,
                None => {
                    proof {
                        assert(self.queue@ =~= Seq::<Node>::empty());
                        lemma_cell_index_bounds(width, height, start.x as int, start.y as int);
                        lemma_no_forced_route(
                            self.grid.cells@,
                            width,
                            height,
                            seq,
                            start,
                            end,
                            &cost_fn,
                            spatial_hash,
                            dijkstra_map,
                            pending,
                        );
                    }
                    break ;
                },
            };
            let ghost taken = lowest_at(queue_before);
            let ghost rest = self.queue@;
            let ghost before = frontier_of(self.grid.cells@, queue_before, seq);
            proof {
                lemma_lowest_at(queue_before);
                assert forall|i: int| 0 <= i < self.queue@.len() implies {
                    let coord = (#[trigger] self.queue@[i]).coord;
                    &&& in_bounds(width, height, coord.x as int, coord.y as int)
                    &&& coord == start || self.grid.cells@[cell_index(
                        width,
                        coord.x as int,
                        coord.y as int,
                    )].seen == seq
                } by {
                    if i < taken {
                        assert(self.queue@[i] == queue_before[i]);
                    } else {
                        assert(self.queue@[i] == queue_before[i + 1]);
                    }
                }
            }
            let at = UCoord { x: node.coord.x as u32, y: node.coord.y as u32 };
            let mut cell = *self.grid.get_checked(at);
            let ghost place = cell_index(width, node.coord.x as int, node.coord.y as int);
            proof {
                lemma_cell_index_bounds(width, height, node.coord.x as int, node.coord.y as int);
            }
            if cell.visited == self.seq {
                proof {
                    assert(before.marks[place].visited);
                    assert(frontier_of(self.grid.cells@, rest, seq) == (Frontier {
                        marks: before.marks,
                        queue: rest,
                    }));
                    rounds_left = (rounds_left - 1) as nat;
                    if cost_is_fixed(&cost_fn, spatial_hash) && consistent(&cost_fn, spatial_hash, dijkstra_map) {
                        lemma_costed_after_stale(
                            self.grid.cells@,
                            width,
                            height,
                            seq,
                            start,
                            queue_before,
                            walks,
                            &cost_fn,
                            spatial_hash,
                            dijkstra_map,
                            pending,
                            taken,
                        );
                    }
                    lemma_explored_after_stale(
                        self.grid.cells@,
                        width,
                        height,
                        seq,
                        queue_before,
                        end,
                        &cost_fn,
                        spatial_hash,
                        dijkstra_map,
                        pending,
                        taken,
                    );
                }
            } else {
                proof {
                    if cost_is_fixed(&cost_fn, spatial_hash) && consistent(&cost_fn, spatial_hash, dijkstra_map) && node.coord != start {
                        lemma_cell_index_bounds(width, height, start.x as int, start.y as int);
                        assert forall|other: Seq<Coord>| #[trigger]
                            is_walk(other, start, node.coord, &cost_fn, spatial_hash, dijkstra_map) && walk_cost(
                                other,
                                &cost_fn,
                                spatial_hash,
                            ) + heuristic(dijkstra_map, node.coord.x as int, node.coord.y as int)
                                < u32::MAX implies walk_cost(walks[place], &cost_fn, spatial_hash) <= walk_cost(
                            other,
                            &cost_fn,
                            spatial_hash,
                        ) by {
                            lemma_popped_is_best(
                                self.grid.cells@,
                                width,
                                height,
                                seq,
                                start,
                                queue_before,
                                walks,
                                &cost_fn,
                                spatial_hash,
                                dijkstra_map,
                                pending,
                                taken,
                                other,
                            );
                        }
                    }
                }
                if node.coord == end {
                    proof {
                        queue_found = queue_before;
                        assert(!before.marks[place].visited);
                    }
                    found = true;
                    break ;
                }
                let ghost cells_before = self.grid.cells@;
                let ghost visited = visited_frontier(before, place, rest);
                proof {
                    assert(!before.marks[place].visited);
                    lemma_direction_known(
                        cells_before,
                        width,
                        height,
                        seq,
                        start,
                        order,
                        &cost_fn,
                        spatial_hash,
                        dijkstra_map,
                        node.coord,
                    );
                    lemma_frontier_after_visit(cells_before, queue_before, rest, seq, place);
                    assert(before.marks[place].cost == cell.cost);
                }
                let ghost cell_before = cell;
                cell.visited = self.seq;
                self.grid.set_checked(at, cell);
                proof {
                    assert(cell == visited_cell(cell_before, seq));
                    lemma_traced_after_visit(
                        cells_before,
                        width,
                        height,
                        seq,
                        start,
                        order,
                        &cost_fn,
                        spatial_hash,
                        dijkstra_map,
                        node.coord,
                    );
                    lemma_queue_traced_after_update(
                        self.queue@,
                        cells_before,
                        width,
                        height,
                        seq,
                        start,
                        place,
                        cell,
                    );
                    if cost_is_fixed(&cost_fn, spatial_hash) && consistent(&cost_fn, spatial_hash, dijkstra_map) {
                        lemma_costed_after_visit(
                            cells_before,
                            width,
                            height,
                            seq,
                            start,
                            queue_before,
                            walks,
                            &cost_fn,
                            spatial_hash,
                            dijkstra_map,
                            pending,
                            taken,
                        );
                    }
                    lemma_explored_after_visit(
                        cells_before,
                        width,
                        height,
                        seq,
                        queue_before,
                        end,
                        &cost_fn,
                        spatial_hash,
                        dijkstra_map,
                        pending,
                        taken,
                    );
                    pending = node.coord;
                    order = order.insert(place, order.dom().len());
                    lemma_traced_grid(
                        self.grid.cells@,
                        width,
                        height,
                        seq,
                        start,
                        order,
                        &cost_fn,
                        spatial_hash,
                        dijkstra_map,
                    );
                    lemma_visits_bounded(
                        self.grid.cells@,
                        width,
                        height,
                        seq,
                        start,
                        order,
                        &cost_fn,
                        spatial_hash,
                        dijkstra_map,
                    );
                    lemma_cell_index_bounds(width, height, start.x as int, start.y as int);
                    assert(self.grid.cells@[cell_index(width, start.x as int, start.y as int)].visited
                        == seq);
                }
                let base_cost = cell.cost;
                let directions = CardinalDirection::all();
                let mut i: usize = 0;
                while i < 4
                    invariant
                        i <= 4,
                        directions@.len() == 4,
                        forall|k: int| 0 <= k < 4 ==> #[trigger] directions@[k] == direction_at(k),
                        self.queue@.len() <= rest.len() + i,
                        cost_is_fixed(&cost_fn, spatial_hash) ==> frontier_of(
                            self.grid.cells@,
                            self.queue@,
                            seq,
                        ) == relaxed_first(
                            visited,
                            width,
                            height,
                            node.coord,
                            base_cost,
                            &cost_fn,
                            spatial_hash,
                            dijkstra_map,
                            i as int,
                        ),
                        self.grid.width == width,
                        self.grid.height == height,
                        self.seq == seq,
                        self.grid.cells@.len() == width * height,
                        in_bounds(width, height, node.coord.x as int, node.coord.y as int),
                        in_bounds(width, height, start.x as int, start.y as int),
                        place == cell_index(width, node.coord.x as int, node.coord.y as int),
                        order.contains_key(place),
                        order.contains_key(cell_index(width, start.x as int, start.y as int)),
                        traced(
                            self.grid.cells@,
                            width,
                            height,
                            seq,
                            start,
                            order,
                            &cost_fn,
                            spatial_hash,
                            dijkstra_map,
                        ),
                        queue_traced(self.queue@, self.grid.cells@, width, height, seq, start),
                        explored(
                            self.grid.cells@,
                            width,
                            height,
                            seq,
                            self.queue@,
                            end,
                            &cost_fn,
                            spatial_hash,
                            dijkstra_map,
                            node.coord,
                            i as int,
                        ),
                        in_bounds(width, height, end.x as int, end.y as int),
                        pending == node.coord,
                        self.grid.cells@[place].cost == base_cost,
                        cost_is_fixed(&cost_fn, spatial_hash) && consistent(&cost_fn, spatial_hash, dijkstra_map) ==> costed(
                            self.grid.cells@,
                            width,
                            height,
                            seq,
                            start,
                            self.queue@,
                            walks,
                            &cost_fn,
                            spatial_hash,
                            dijkstra_map,
                            node.coord,
                            i as int,
                        ),
                        forall|k: int| 0 <= k < 4 ==> (#[trigger] directions@[k]).spec_index() == k,
                        forall|cell: &SpatialHashCell, coord: UCoord| cost_fn.requires((cell, coord)),
                        path@ == old(path)@,
                    decreases 4 - i,
                {
                    proof {
                        lemma_traced_grid(
                            self.grid.cells@,
                            width,
                            height,
                            seq,
                            start,
                            order,
                            &cost_fn,
                            spatial_hash,
                            dijkstra_map,
                        );
                        lemma_cell_index_bounds(width, height, start.x as int, start.y as int);
                    }
                    let reached = self.relax(
                        node.coord,
                        directions[i],
                        base_cost,
                        &cost_fn,
                        spatial_hash,
                        dijkstra_map,
                        Ghost(start),
                        Ghost(end),
                        Ghost(order),
                        Ghost(walks),
                    );
                    proof {
                        walks = reached@;
                        lemma_traced_grid(
                            self.grid.cells@,
                            width,
                            height,
                            seq,
                            start,
                            order,
                            &cost_fn,
                            spatial_hash,
                            dijkstra_map,
                        );
                    }
                    i += 1;
                }
                proof {
                    rounds_left = (rounds_left - 1) as nat;
                    lemma_traced_grid(
                        self.grid.cells@,
                        width,
                        height,
                        seq,
                        start,
                        order,
                        &cost_fn,
                        spatial_hash,
                        dijkstra_map,
                    );
                    lemma_cell_index_bounds(width, height, start.x as int, start.y as int);
                }
            }
        }
        proof {
            lemma_traced_grid(
                self.grid.cells@,
                width,
                height,
                seq,
                start,
                order,
                &cost_fn,
                spatial_hash,
                dijkstra_map,
            );
        }
        if found {
            self.unwind(
                start,
                end,
                &cost_fn,
                spatial_hash,
                dijkstra_map,
                path,
                Ghost(order),
                Ghost(walks),
                Ghost(queue_found),
                Ghost(pending),
            );
            proof {
                if cost_is_fixed(&cost_fn, spatial_hash) {
                    let route = path@.skip(old(path)@.len() as int);
                    assert(path@ =~= old(path)@ + route);
                    assert(search_result(
                        width,
                        height,
                        start,
                        end,
                        &cost_fn,
                        spatial_hash,
                        dijkstra_map,
                    ) == Some(route));
                }
            }
            Ok(())
        } else {
            proof {
                if cost_is_fixed(&cost_fn, spatial_hash) {
                    assert(search_result(
                        width,
                        height,
                        start,
                        end,
                        &cost_fn,
                        spatial_hash,
                        dijkstra_map,
                    ) is None);
                }
            }
            Err(Error::NoPath)
        }
    }
}

} // verus!
