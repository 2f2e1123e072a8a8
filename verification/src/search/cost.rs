//! The cost of ways, and why the search finds a cheapest one.
//!
//! The cost of a way is the sum of the costs of the cells that it enters.
//! Where the cost function gives each cell one cost, and the distances
//! never fall by more than the cost of a step, the first time that the
//! search takes a cell from its queue it has reached the cell by a
//! cheapest way.

use vstd::prelude::*;
use crate::coord::{Coord, UCoord};
use crate::dijkstra_map::DijkstraMap;
use crate::direction::CardinalDirection;
use crate::search::{
    adjacent, arrival, may_enter, queue_traced, reached_cell, steps_to, visited_cell, Cell, Node,
    PathNode,
};
use crate::spatial_hash::{SpatialHashCell, SpatialHashTable};
use crate::static_grid::{cell_index, in_bounds, lemma_cell_index_bounds, lemma_cell_index_injective};

verus! {

/// Whether the cost function can answer `r` for the cell `(x, y)`.
pub open spec fn cost_result<C: Fn(&SpatialHashCell, UCoord) -> Option<u32>>(
    cost_fn: &C,
    spatial: &SpatialHashTable,
    x: int,
    y: int,
    r: Option<u32>,
) -> bool {
    cost_fn.ensures((&spatial.grid.spec_cell(x, y), UCoord { x: x as u32, y: y as u32 }), r)
}

/// Whether the cost function gives each cell one answer.
pub open spec fn cost_is_fixed<C: Fn(&SpatialHashCell, UCoord) -> Option<u32>>(cost_fn: &C, spatial: &SpatialHashTable) -> bool {
    forall|x: int, y: int, a: Option<u32>, b: Option<u32>|
        #[trigger] cost_result(cost_fn, spatial, x, y, a) && #[trigger] cost_result(
            cost_fn,
            spatial,
            x,
            y,
            b,
        ) ==> a == b
}

/// The cost of entering the cell `(x, y)`.
pub open spec fn entry_cost<C: Fn(&SpatialHashCell, UCoord) -> Option<u32>>(cost_fn: &C, spatial: &SpatialHashTable, x: int, y: int) -> int {
    (choose|c: u32| cost_result(cost_fn, spatial, x, y, Some(c))) as int
}

/// The distance to the goal that the map knows for the cell `(x, y)`.
pub open spec fn heuristic(dijkstra: &DijkstraMap, x: int, y: int) -> int {
    dijkstra.spec_distance(x, y)->0 as int
}

/// Whether the distances never fall by more than the cost of a step: from
/// a cell that can be entered to a neighbour that can be entered, the
/// distance is at most the cost of the neighbour and its distance.
pub open spec fn consistent<C: Fn(&SpatialHashCell, UCoord) -> Option<u32>>(cost_fn: &C, spatial: &SpatialHashTable, dijkstra: &DijkstraMap) -> bool {
    forall|u: Coord, v: Coord| #[trigger]
        adjacent(u, v) && may_enter(cost_fn, spatial, dijkstra, u.x as int, u.y as int) && may_enter(
            cost_fn, spatial, dijkstra,
            v.x as int,
            v.y as int,
        ) ==> heuristic(dijkstra, u.x as int, u.y as int) <= entry_cost(
            cost_fn,
            spatial,
            v.x as int,
            v.y as int,
        ) + heuristic(dijkstra, v.x as int, v.y as int)
}

/// Whether cell `i` of `walk` is next to the cell before it and can be
/// entered.
pub open spec fn walk_step<C: Fn(&SpatialHashCell, UCoord) -> Option<u32>>(walk: Seq<Coord>, i: int, cost_fn: &C, spatial: &SpatialHashTable, dijkstra: &DijkstraMap) -> bool {
    adjacent(walk[i - 1], walk[i]) && may_enter(cost_fn, spatial, dijkstra, walk[i].x as int, walk[i].y as int)
}

/// Whether `walk` is a way from `start` to `end`: it goes from cell to
/// neighbouring cell, through cells that can be entered.
pub open spec fn is_walk<C: Fn(&SpatialHashCell, UCoord) -> Option<u32>>(walk: Seq<Coord>, start: Coord, end: Coord, cost_fn: &C, spatial: &SpatialHashTable, dijkstra: &DijkstraMap) -> bool {
    &&& walk.len() > 0
    &&& walk[0] == start
    &&& walk.last() == end
    &&& forall|i: int| 1 <= i < walk.len() ==> #[trigger] walk_step(walk, i, cost_fn, spatial, dijkstra)
}

/// The cost of a way: the sum of the costs of the cells that it enters.
pub open spec fn walk_cost<C: Fn(&SpatialHashCell, UCoord) -> Option<u32>>(walk: Seq<Coord>, cost_fn: &C, spatial: &SpatialHashTable) -> int
    decreases walk.len(),
{
    if walk.len() <= 1 {
        0
    } else {
        walk_cost(walk.drop_last(), cost_fn, spatial) + entry_cost(
            cost_fn,
            spatial,
            walk.last().x as int,
            walk.last().y as int,
        )
    }
}

/// The cost of a route: the sum of the costs of the cells that its steps
/// arrive at.
pub open spec fn route_cost<C: Fn(&SpatialHashCell, UCoord) -> Option<u32>>(steps: Seq<PathNode>, cost_fn: &C, spatial: &SpatialHashTable) -> int
    decreases steps.len(),
{
    if steps.len() == 0 {
        0
    } else {
        route_cost(steps.drop_last(), cost_fn, spatial) + entry_cost(
            cost_fn,
            spatial,
            arrival(steps.last()).0,
            arrival(steps.last()).1,
        )
    }
}

/// The sum `v` as the search holds it: it stops at the largest value.
pub open spec fn saturated(v: int) -> int {
    if v > u32::MAX {
        u32::MAX as int
    } else {
        v
    }
}

/// Whether `coord` is a cell of the grid that the search has visited.
pub open spec fn visited_at(cells: Seq<Cell>, width: u32, height: u32, seq: u64, coord: Coord) -> bool {
    in_bounds(width, height, coord.x as int, coord.y as int) && cells[cell_index(
        width,
        coord.x as int,
        coord.y as int,
    )].visited == seq
}

/// Whether a node of `queue` names the cell `(x, y)` with the score
/// `score`.
pub open spec fn scored_queued(queue: Seq<Node>, x: int, y: int, score: u32) -> bool {
    exists|i: int|
        0 <= i < queue.len() && (#[trigger] queue[i]).coord.x == x && queue[i].coord.y == y
            && queue[i].score == score
}

/// Whether the neighbour of the visited cell `(x, y)` in `direction`, if
/// it can be entered and was not visited, was reached with a score that
/// is no more than the way through `(x, y)` gives.
pub open spec fn neighbour_bounded<C: Fn(&SpatialHashCell, UCoord) -> Option<u32>>(
    cells: Seq<Cell>,
    width: u32,
    seq: u64,
    walks: Map<int, Seq<Coord>>,
    cost_fn: &C, spatial: &SpatialHashTable, dijkstra: &DijkstraMap,
    x: int,
    y: int,
    direction: CardinalDirection,
) -> bool {
    let to_x = x + direction.spec_vector().x;
    let to_y = y + direction.spec_vector().y;
    let to = cells[cell_index(width, to_x, to_y)];
    to_x <= i32::MAX && to_y <= i32::MAX && may_enter(cost_fn, spatial, dijkstra, to_x, to_y) && to.visited != seq ==> to.seen
        == seq && to.score <= saturated(
        walk_cost(walks[cell_index(width, x, y)], cost_fn, spatial) + entry_cost(
            cost_fn,
            spatial,
            to_x,
            to_y,
        ) + heuristic(dijkstra, to_x, to_y),
    )
}

/// Whether the way `walk` to `end` costs no more than any other way there
/// whose cost, with the distance of `end`, stays below the largest value.
pub open spec fn best_walk<C: Fn(&SpatialHashCell, UCoord) -> Option<u32>>(walk: Seq<Coord>, start: Coord, end: Coord, cost_fn: &C, spatial: &SpatialHashTable, dijkstra: &DijkstraMap) -> bool {
    forall|other: Seq<Coord>| #[trigger]
        is_walk(other, start, end, cost_fn, spatial, dijkstra) && walk_cost(other, cost_fn, spatial) + heuristic(
            dijkstra,
            end.x as int,
            end.y as int,
        ) < u32::MAX ==> walk_cost(walk, cost_fn, spatial) <= walk_cost(other, cost_fn, spatial)
}

/// What holds of the costs of the cell `(x, y)` while a search runs.
/// `walks` gives each cell that was reached the way by which it was
/// reached.
pub open spec fn cell_costed<C: Fn(&SpatialHashCell, UCoord) -> Option<u32>>(
    cells: Seq<Cell>,
    width: u32,
    height: u32,
    seq: u64,
    start: Coord,
    queue: Seq<Node>,
    walks: Map<int, Seq<Coord>>,
    cost_fn: &C, spatial: &SpatialHashTable, dijkstra: &DijkstraMap,
    pending: Coord,
    done: int,
    x: int,
    y: int,
) -> bool {
    let at = cell_index(width, x, y);
    let cell = cells[at];
    let here = Coord { x: x as i32, y: y as i32 };
    &&& (x == start.x && y == start.y) ==> walks.contains_key(at) && walks[at] == seq![start]
        && cell.cost == 0 && cell.score == 0
    &&& (cell.visited == seq || cell.seen == seq) ==> walks.contains_key(at) && is_walk(
        walks[at],
        start,
        here,
        cost_fn, spatial, dijkstra,
    ) && cell.cost == saturated(walk_cost(walks[at], cost_fn, spatial))
    &&& cell.seen == seq ==> {
        let direction = cell.enter_direction->0;
        let from = cell_index(
            width,
            x - direction.spec_vector().x,
            y - direction.spec_vector().y,
        );
        &&& cell.score == saturated(
            walk_cost(walks[at], cost_fn, spatial) + heuristic(dijkstra, x, y),
        )
        &&& walks[at] == walks[from].push(here)
        &&& in_bounds(
            width,
            height,
            x - direction.spec_vector().x,
            y - direction.spec_vector().y,
        )
        &&& cells[from].visited == seq
    }
    &&& cell.seen == seq && cell.visited != seq ==> scored_queued(queue, x, y, cell.score)
    &&& cell.visited == seq && !(x == start.x && y == start.y) ==> best_walk(
        walks[at],
        start,
        here,
        cost_fn, spatial, dijkstra,
    )
    &&& cell.visited == seq ==> forall|direction: CardinalDirection|
        (x == pending.x && y == pending.y && direction.spec_index() >= done) || #[trigger] neighbour_bounded(
            cells,
            width,
            seq,
            walks,
            cost_fn, spatial, dijkstra,
            x,
            y,
            direction,
        )
}

/// Whether no node of `queue` has a lower score than its cell, unless the
/// cell was visited.
pub open spec fn queue_costed(queue: Seq<Node>, cells: Seq<Cell>, width: u32, seq: u64) -> bool {
    forall|i: int|
        0 <= i < queue.len() ==> {
            let node = #[trigger] queue[i];
            let cell = cells[cell_index(width, node.coord.x as int, node.coord.y as int)];
            cell.visited != seq ==> node.score >= cell.score
        }
}

/// What holds of the costs while a search runs.
#[verifier::opaque]
pub open spec fn costed<C: Fn(&SpatialHashCell, UCoord) -> Option<u32>>(
    cells: Seq<Cell>,
    width: u32,
    height: u32,
    seq: u64,
    start: Coord,
    queue: Seq<Node>,
    walks: Map<int, Seq<Coord>>,
    cost_fn: &C, spatial: &SpatialHashTable, dijkstra: &DijkstraMap,
    pending: Coord,
    done: int,
) -> bool {
    &&& queue_costed(queue, cells, width, seq)
    &&& forall|x: int, y: int|
        in_bounds(width, height, x, y) ==> #[trigger] cell_costed(
            cells,
            width,
            height,
            seq,
            start,
            queue,
            walks,
            cost_fn, spatial, dijkstra,
            pending,
            done,
            x,
            y,
        )
}

/// The cost that the cost function gave for a cell is the cost of
/// entering it.
pub proof fn lemma_entry_cost<C: Fn(&SpatialHashCell, UCoord) -> Option<u32>>(cost_fn: &C, spatial: &SpatialHashTable, x: int, y: int, cost: u32)
    requires
        cost_is_fixed(cost_fn, spatial),
        cost_result(cost_fn, spatial, x, y, Some(cost)),
    ensures
        entry_cost(cost_fn, spatial, x, y) == cost,
{
    let c = choose|c: u32| cost_result(cost_fn, spatial, x, y, Some(c));
    assert(cost_result(cost_fn, spatial, x, y, Some(c)));
}

/// No way costs less than nothing, and a way with one more cell costs
/// the cost of that cell more.
pub proof fn lemma_walk_cost_push<C: Fn(&SpatialHashCell, UCoord) -> Option<u32>>(walk: Seq<Coord>, next: Coord, cost_fn: &C, spatial: &SpatialHashTable)
    requires
        walk.len() > 0,
    ensures
        walk_cost(walk, cost_fn, spatial) >= 0,
        walk_cost(walk.push(next), cost_fn, spatial) == walk_cost(walk, cost_fn, spatial)
            + entry_cost(cost_fn, spatial, next.x as int, next.y as int),
    decreases walk.len(),
{
    assert(walk.push(next).drop_last() =~= walk);
    if walk.len() > 1 {
        lemma_walk_cost_push(walk.drop_last(), walk.last(), cost_fn, spatial);
        assert(walk.drop_last().push(walk.last()) =~= walk);
    }
}

/// The start of a way is a way, and costs no more than the whole.
pub proof fn lemma_walk_prefix<C: Fn(&SpatialHashCell, UCoord) -> Option<u32>>(walk: Seq<Coord>, k: int, start: Coord, end: Coord, cost_fn: &C, spatial: &SpatialHashTable, dijkstra: &DijkstraMap)
    requires
        is_walk(walk, start, end, cost_fn, spatial, dijkstra),
        0 <= k < walk.len(),
    ensures
        is_walk(walk.take(k + 1), start, walk[k], cost_fn, spatial, dijkstra),
        0 <= walk_cost(walk.take(k + 1), cost_fn, spatial) <= walk_cost(walk, cost_fn, spatial),
        k >= 1 ==> walk_cost(walk.take(k + 1), cost_fn, spatial) == walk_cost(
            walk.take(k),
            cost_fn,
            spatial,
        ) + entry_cost(cost_fn, spatial, walk[k].x as int, walk[k].y as int),
    decreases walk.len() - k,
{
    let front = walk.take(k + 1);
    assert forall|i: int| 1 <= i < front.len() implies #[trigger] walk_step(front, i, cost_fn, spatial, dijkstra) by {
        assert(walk_step(walk, i, cost_fn, spatial, dijkstra));
    }
    lemma_walk_cost_push(front, start, cost_fn, spatial);
    if k >= 1 {
        assert(front.drop_last() =~= walk.take(k));
    }
    if k + 1 < walk.len() {
        lemma_walk_prefix(walk, k + 1, start, end, cost_fn, spatial, dijkstra);
    } else {
        assert(front =~= walk);
    }
}

/// Along a way, from its first step on, the cost so far and the distance
/// still to go never fall together.
pub proof fn lemma_score_grows<C: Fn(&SpatialHashCell, UCoord) -> Option<u32>>(walk: Seq<Coord>, k: int, m: int, start: Coord, end: Coord, cost_fn: &C, spatial: &SpatialHashTable, dijkstra: &DijkstraMap)
    requires
        is_walk(walk, start, end, cost_fn, spatial, dijkstra),
        consistent(cost_fn, spatial, dijkstra),
        1 <= k <= m < walk.len(),
    ensures
        walk_cost(walk.take(k + 1), cost_fn, spatial) + heuristic(
            dijkstra,
            walk[k].x as int,
            walk[k].y as int,
        ) <= walk_cost(walk.take(m + 1), cost_fn, spatial) + heuristic(
            dijkstra,
            walk[m].x as int,
            walk[m].y as int,
        ),
    decreases m - k,
{
    if k < m {
        lemma_score_grows(walk, k, m - 1, start, end, cost_fn, spatial, dijkstra);
        lemma_walk_prefix(walk, m, start, end, cost_fn, spatial, dijkstra);
        assert(walk_step(walk, m, cost_fn, spatial, dijkstra));
        assert(walk_step(walk, m - 1, cost_fn, spatial, dijkstra));
        assert(adjacent(walk[m - 1], walk[m]));
    }
}

/// On a way from a visited cell to one that was not visited, some cell
/// that was not visited follows a visited one.
pub proof fn lemma_first_unvisited(
    cells: Seq<Cell>,
    width: u32,
    height: u32,
    seq: u64,
    walk: Seq<Coord>,
    from: int,
) -> (k: int)
    requires
        1 <= from < walk.len(),
        visited_at(cells, width, height, seq, walk[from - 1]),
        !visited_at(cells, width, height, seq, walk.last()),
    ensures
        from <= k < walk.len(),
        !visited_at(cells, width, height, seq, walk[k]),
        visited_at(cells, width, height, seq, walk[k - 1]),
    decreases walk.len() - from,
{
    if !visited_at(cells, width, height, seq, walk[from]) {
        from
    } else {
        lemma_first_unvisited(cells, width, height, seq, walk, from + 1)
    }
}

/// The node with the lowest score of the queue, if its cell was reached
/// and not visited, names a cell that was reached by a cheapest way.
pub proof fn lemma_popped_is_best<C: Fn(&SpatialHashCell, UCoord) -> Option<u32>>(
    cells: Seq<Cell>,
    width: u32,
    height: u32,
    seq: u64,
    start: Coord,
    queue: Seq<Node>,
    walks: Map<int, Seq<Coord>>,
    cost_fn: &C, spatial: &SpatialHashTable, dijkstra: &DijkstraMap,
    pending: Coord,
    taken: int,
    other: Seq<Coord>,
)
    requires
        cost_is_fixed(cost_fn, spatial),
        consistent(cost_fn, spatial, dijkstra),
        costed(cells, width, height, seq, start, queue, walks, cost_fn, spatial, dijkstra, pending, 4),
        spatial.grid.width == width,
        spatial.grid.height == height,
        visited_at(cells, width, height, seq, start),
        0 <= taken < queue.len(),
        forall|i: int| 0 <= i < queue.len() ==> queue[taken].score <= (#[trigger] queue[i]).score,
        in_bounds(width, height, queue[taken].coord.x as int, queue[taken].coord.y as int),
        !visited_at(cells, width, height, seq, queue[taken].coord),
        cells[cell_index(width, queue[taken].coord.x as int, queue[taken].coord.y as int)].seen
            == seq,
        is_walk(other, start, queue[taken].coord, cost_fn, spatial, dijkstra),
        walk_cost(other, cost_fn, spatial) + heuristic(
            dijkstra,
            queue[taken].coord.x as int,
            queue[taken].coord.y as int,
        ) < u32::MAX,
    ensures
        walk_cost(
            walks[cell_index(width, queue[taken].coord.x as int, queue[taken].coord.y as int)],
            cost_fn,
            spatial,
        ) <= walk_cost(other, cost_fn, spatial),
{
    reveal(costed);
    let node = queue[taken];
    let c = node.coord;
    let last = other.len() - 1;
    assert(other.len() > 1) by {
        if other.len() == 1 {
            assert(other[0] == c);
        }
    }
    let k = lemma_first_unvisited(cells, width, height, seq, other, 1);
    let x = other[k - 1];
    let y = other[k];
    assert(walk_step(other, k, cost_fn, spatial, dijkstra));
    let direction = choose|direction: CardinalDirection| #[trigger] steps_to(x, direction, y);
    lemma_walk_prefix(other, k - 1, start, c, cost_fn, spatial, dijkstra);
    lemma_walk_prefix(other, k, start, c, cost_fn, spatial, dijkstra);
    lemma_walk_prefix(other, last, start, c, cost_fn, spatial, dijkstra);
    assert(other.take(last + 1) =~= other);
    lemma_score_grows(other, k, last, start, c, cost_fn, spatial, dijkstra);
    let at_x = cell_index(width, x.x as int, x.y as int);
    assert(cell_costed(
        cells,
        width,
        height,
        seq,
        start,
        queue,
        walks,
        cost_fn, spatial, dijkstra,
        pending,
        4,
        x.x as int,
        x.y as int,
    ));
    assert(neighbour_bounded(cells, width, seq, walks, cost_fn, spatial, dijkstra, x.x as int, x.y as int, direction));
    assert(walk_cost(walks[at_x], cost_fn, spatial) <= walk_cost(other.take(k), cost_fn, spatial)) by {
        if x == start {
            lemma_walk_cost_push(seq![start], start, cost_fn, spatial);
        } else {
            assert(k - 1 >= 1) by {
                if k - 1 == 0 {
                    assert(other[0] == start);
                }
            }
            lemma_score_grows(other, k - 1, last, start, c, cost_fn, spatial, dijkstra);
            assert((Coord { x: (x.x as int) as i32, y: (x.y as int) as i32 }) == x);
            assert(is_walk(other.take(k), start, x, cost_fn, spatial, dijkstra));
        }
    }
    let at_y = cell_index(width, y.x as int, y.y as int);
    let at_c = cell_index(width, c.x as int, c.y as int);
    assert(cell_costed(
        cells,
        width,
        height,
        seq,
        start,
        queue,
        walks,
        cost_fn, spatial, dijkstra,
        pending,
        4,
        y.x as int,
        y.y as int,
    ));
    assert(cell_costed(
        cells,
        width,
        height,
        seq,
        start,
        queue,
        walks,
        cost_fn, spatial, dijkstra,
        pending,
        4,
        c.x as int,
        c.y as int,
    ));
    let bound = walk_cost(other, cost_fn, spatial) + heuristic(dijkstra, c.x as int, c.y as int);
    assert(cells[at_y].score <= bound);
    let i = choose|i: int|
        0 <= i < queue.len() && (#[trigger] queue[i]).coord.x == y.x && queue[i].coord.y == y.y
            && queue[i].score == cells[at_y].score;
    assert(queue[taken].score <= queue[i].score);
    assert(node.score >= cells[at_c].score);
}

/// The costs are in order when a search starts.
pub proof fn lemma_costed_at_start<C: Fn(&SpatialHashCell, UCoord) -> Option<u32>>(
    cells: Seq<Cell>,
    width: u32,
    height: u32,
    seq: u64,
    start: Coord,
    cost_fn: &C, spatial: &SpatialHashTable, dijkstra: &DijkstraMap,
    pending: Coord,
)
    requires
        cells.len() == width * height,
        in_bounds(width, height, start.x as int, start.y as int),
        forall|k: int|
            0 <= k < cells.len() ==> (#[trigger] cells[k]).visited < seq && cells[k].seen < seq,
        cells[cell_index(width, start.x as int, start.y as int)].cost == 0,
        cells[cell_index(width, start.x as int, start.y as int)].score == 0,
    ensures
        costed(
            cells,
            width,
            height,
            seq,
            start,
            seq![Node { score: 0, coord: start }],
            map![cell_index(width, start.x as int, start.y as int) => seq![start]],
            cost_fn, spatial, dijkstra,
            pending,
            4,
        ),
{
    reveal(costed);
    let queue = seq![Node { score: 0, coord: start }];
    let walks = map![cell_index(width, start.x as int, start.y as int) => seq![start]];
    lemma_cell_index_bounds(width, height, start.x as int, start.y as int);
    assert forall|x: int, y: int| in_bounds(width, height, x, y) implies #[trigger] cell_costed(
        cells,
        width,
        height,
        seq,
        start,
        queue,
        walks,
        cost_fn, spatial, dijkstra,
        pending,
        4,
        x,
        y,
    ) by {
        lemma_cell_index_bounds(width, height, x, y);
        assert(cells[cell_index(width, x, y)].visited < seq);
    }
}

/// A node that names the cell `(x, y)` is still in the queue when a node
/// of another cell is taken.
pub proof fn lemma_scored_queued_after_remove(queue: Seq<Node>, taken: int, x: int, y: int, score: u32)
    requires
        scored_queued(queue, x, y, score),
        0 <= taken < queue.len(),
        !(queue[taken].coord.x == x && queue[taken].coord.y == y),
    ensures
        scored_queued(queue.remove(taken), x, y, score),
{
    let i = choose|i: int|
        0 <= i < queue.len() && (#[trigger] queue[i]).coord.x == x && queue[i].coord.y == y
            && queue[i].score == score;
    let rest = queue.remove(taken);
    if i < taken {
        assert(rest[i] == queue[i]);
    } else {
        assert(rest[i - 1] == queue[i]);
    }
}

/// No node of what is left of the queue has a lower score than its cell.
pub proof fn lemma_queue_costed_after_remove(
    queue: Seq<Node>,
    taken: int,
    cells: Seq<Cell>,
    after: Seq<Cell>,
    width: u32,
    seq: u64,
)
    requires
        queue_costed(queue, cells, width, seq),
        0 <= taken < queue.len(),
        forall|i: int|
            0 <= i < queue.len() ==> {
                let at = cell_index(
                    width,
                    (#[trigger] queue[i]).coord.x as int,
                    queue[i].coord.y as int,
                );
                after[at].visited == seq || after[at] == cells[at]
            },
    ensures
        queue_costed(queue.remove(taken), after, width, seq),
{
    let rest = queue.remove(taken);
    assert forall|i: int| 0 <= i < rest.len() implies {
        let node = #[trigger] rest[i];
        let cell = after[cell_index(width, node.coord.x as int, node.coord.y as int)];
        cell.visited != seq ==> node.score >= cell.score
    } by {
        if i < taken {
            assert(rest[i] == queue[i]);
        } else {
            assert(rest[i] == queue[i + 1]);
        }
    }
}

/// The bound on a neighbour stays when cells come to be visited, or are
/// reached with a lower score.
pub proof fn lemma_bounded_stays<C: Fn(&SpatialHashCell, UCoord) -> Option<u32>>(
    cells: Seq<Cell>,
    after: Seq<Cell>,
    walks: Map<int, Seq<Coord>>,
    walks_after: Map<int, Seq<Coord>>,
    width: u32,
    height: u32,
    seq: u64,
    cost_fn: &C, spatial: &SpatialHashTable, dijkstra: &DijkstraMap,
    x: int,
    y: int,
    direction: CardinalDirection,
)
    requires
        neighbour_bounded(cells, width, seq, walks, cost_fn, spatial, dijkstra, x, y, direction),
        cells.len() == width * height,
        after.len() == cells.len(),
        spatial.grid.width == width,
        spatial.grid.height == height,
        walks_after[cell_index(width, x, y)] == walks[cell_index(width, x, y)],
        forall|k: int|
            0 <= k < cells.len() ==> (#[trigger] after[k]).visited == seq || (cells[k].visited != seq
                && (cells[k].seen == seq ==> after[k].seen == seq && after[k].score
                <= cells[k].score)),
    ensures
        neighbour_bounded(after, width, seq, walks_after, cost_fn, spatial, dijkstra, x, y, direction),
{
    let to_x = x + direction.spec_vector().x;
    let to_y = y + direction.spec_vector().y;
    if may_enter(cost_fn, spatial, dijkstra, to_x, to_y) {
        lemma_cell_index_bounds(width, height, to_x, to_y);
        let k = cell_index(width, to_x, to_y);
        assert(after[k].visited == seq || (cells[k].visited != seq && (cells[k].seen == seq
            ==> after[k].seen == seq && after[k].score <= cells[k].score)));
    }
}

/// Taking from the queue a node whose cell is visited keeps the costs in
/// order.
pub proof fn lemma_costed_after_stale<C: Fn(&SpatialHashCell, UCoord) -> Option<u32>>(
    cells: Seq<Cell>,
    width: u32,
    height: u32,
    seq: u64,
    start: Coord,
    queue: Seq<Node>,
    walks: Map<int, Seq<Coord>>,
    cost_fn: &C, spatial: &SpatialHashTable, dijkstra: &DijkstraMap,
    pending: Coord,
    taken: int,
)
    requires
        costed(cells, width, height, seq, start, queue, walks, cost_fn, spatial, dijkstra, pending, 4),
        0 <= taken < queue.len(),
        cells[cell_index(width, queue[taken].coord.x as int, queue[taken].coord.y as int)].visited
            == seq,
    ensures
        costed(cells, width, height, seq, start, queue.remove(taken), walks, cost_fn, spatial, dijkstra, pending, 4),
{
    reveal(costed);
    let rest = queue.remove(taken);
    lemma_queue_costed_after_remove(queue, taken, cells, cells, width, seq);
    assert forall|x: int, y: int| in_bounds(width, height, x, y) implies #[trigger] cell_costed(
        cells,
        width,
        height,
        seq,
        start,
        rest,
        walks,
        cost_fn, spatial, dijkstra,
        pending,
        4,
        x,
        y,
    ) by {
        assert(cell_costed(cells, width, height, seq, start, queue, walks, cost_fn, spatial, dijkstra, pending, 4, x, y));
        let cell = cells[cell_index(width, x, y)];
        if cell.seen == seq && cell.visited != seq {
            lemma_scored_queued_after_remove(queue, taken, x, y, cell.score);
        }
    }
}

/// Visiting the cell of a node taken from the queue keeps the costs in
/// order, where the cell is the start or was reached by a cheapest way.
pub proof fn lemma_costed_after_visit<C: Fn(&SpatialHashCell, UCoord) -> Option<u32>>(
    cells: Seq<Cell>,
    width: u32,
    height: u32,
    seq: u64,
    start: Coord,
    queue: Seq<Node>,
    walks: Map<int, Seq<Coord>>,
    cost_fn: &C, spatial: &SpatialHashTable, dijkstra: &DijkstraMap,
    pending: Coord,
    taken: int,
)
    requires
        costed(cells, width, height, seq, start, queue, walks, cost_fn, spatial, dijkstra, pending, 4),
        queue_traced(queue, cells, width, height, seq, start),
        cells.len() == width * height,
        spatial.grid.width == width,
        spatial.grid.height == height,
        0 <= taken < queue.len(),
        in_bounds(width, height, queue[taken].coord.x as int, queue[taken].coord.y as int),
        queue[taken].coord == start || (cells[cell_index(
            width,
            queue[taken].coord.x as int,
            queue[taken].coord.y as int,
        )].seen == seq && best_walk(
            walks[cell_index(width, queue[taken].coord.x as int, queue[taken].coord.y as int)],
            start,
            queue[taken].coord,
            cost_fn, spatial, dijkstra,
        )),
    ensures
        ({
            let coord = queue[taken].coord;
            let at = cell_index(width, coord.x as int, coord.y as int);
            costed(
                cells.update(at, visited_cell(cells[at], seq)),
                width,
                height,
                seq,
                start,
                queue.remove(taken),
                walks,
                cost_fn, spatial, dijkstra,
                coord,
                0,
            )
        }),
{
    reveal(costed);
    let coord = queue[taken].coord;
    let at = cell_index(width, coord.x as int, coord.y as int);
    let after = cells.update(at, visited_cell(cells[at], seq));
    let rest = queue.remove(taken);
    lemma_cell_index_bounds(width, height, coord.x as int, coord.y as int);
    assert forall|i: int| 0 <= i < queue.len() implies {
        let place = cell_index(width, (#[trigger] queue[i]).coord.x as int, queue[i].coord.y as int);
        after[place].visited == seq || after[place] == cells[place]
    } by {
        lemma_cell_index_bounds(width, height, queue[i].coord.x as int, queue[i].coord.y as int);
    }
    lemma_queue_costed_after_remove(queue, taken, cells, after, width, seq);
    assert forall|x: int, y: int| in_bounds(width, height, x, y) implies #[trigger] cell_costed(
        after,
        width,
        height,
        seq,
        start,
        rest,
        walks,
        cost_fn, spatial, dijkstra,
        coord,
        0,
        x,
        y,
    ) by {
        lemma_cell_index_bounds(width, height, x, y);
        assert(cell_costed(cells, width, height, seq, start, queue, walks, cost_fn, spatial, dijkstra, pending, 4, x, y));
        let here = cell_index(width, x, y);
        if cells[here].seen == seq {
            let direction = cells[here].enter_direction->0;
            let from_x = x - direction.spec_vector().x;
            let from_y = y - direction.spec_vector().y;
            lemma_cell_index_bounds(width, height, from_x, from_y);
            assert(after[cell_index(width, from_x, from_y)].visited == seq);
        }
        if here == at {
            lemma_cell_index_injective(width, x, y, coord.x as int, coord.y as int);
            assert((Coord { x: x as i32, y: y as i32 }) == coord);
            if coord == start {
                assert(walks[at] =~= seq![start]);
                assert(walk_cost(seq![start], cost_fn, spatial) == 0);
                assert(is_walk(seq![start], start, start, cost_fn, spatial, dijkstra));
            }
        } else {
            if after[here].seen == seq && after[here].visited != seq {
                lemma_scored_queued_after_remove(queue, taken, x, y, after[here].score);
            }
            if after[here].visited == seq {
                assert forall|direction: CardinalDirection| #[trigger]
                    neighbour_bounded(after, width, seq, walks, cost_fn, spatial, dijkstra, x, y, direction) by {
                    assert(neighbour_bounded(cells, width, seq, walks, cost_fn, spatial, dijkstra, x, y, direction));
                    lemma_bounded_stays(
                        cells,
                        after,
                        walks,
                        walks,
                        width,
                        height,
                        seq,
                        cost_fn, spatial, dijkstra,
                        x,
                        y,
                        direction,
                    );
                }
            }
        }
    }
}

/// Once the neighbour of the pending cell in the next direction is
/// bounded, that direction has been tried.
pub proof fn lemma_costed_after_try<C: Fn(&SpatialHashCell, UCoord) -> Option<u32>>(
    cells: Seq<Cell>,
    width: u32,
    height: u32,
    seq: u64,
    start: Coord,
    queue: Seq<Node>,
    walks: Map<int, Seq<Coord>>,
    cost_fn: &C, spatial: &SpatialHashTable, dijkstra: &DijkstraMap,
    pending: Coord,
    done: int,
    direction: CardinalDirection,
)
    requires
        costed(cells, width, height, seq, start, queue, walks, cost_fn, spatial, dijkstra, pending, done),
        direction.spec_index() == done,
        neighbour_bounded(
            cells,
            width,
            seq,
            walks,
            cost_fn, spatial, dijkstra,
            pending.x as int,
            pending.y as int,
            direction,
        ),
    ensures
        costed(cells, width, height, seq, start, queue, walks, cost_fn, spatial, dijkstra, pending, done + 1),
{
    reveal(costed);
    assert forall|x: int, y: int| in_bounds(width, height, x, y) implies #[trigger] cell_costed(
        cells,
        width,
        height,
        seq,
        start,
        queue,
        walks,
        cost_fn, spatial, dijkstra,
        pending,
        done + 1,
        x,
        y,
    ) by {
        assert(cell_costed(cells, width, height, seq, start, queue, walks, cost_fn, spatial, dijkstra, pending, done, x, y));
        if cells[cell_index(width, x, y)].visited == seq {
            assert forall|other: CardinalDirection|
                (x == pending.x && y == pending.y && other.spec_index() >= done + 1) || #[trigger] neighbour_bounded(
                    cells,
                    width,
                    seq,
                    walks,
                    cost_fn, spatial, dijkstra,
                    x,
                    y,
                    other,
                ) by {
                if x == pending.x && y == pending.y && other.spec_index() == done {
                    assert(other == direction);
                }
            }
        }
    }
}

/// Reaching the neighbour of the pending cell in the next direction by
/// the way through the pending cell, with the cost and the score of that
/// way, keeps the costs in order; that direction has then been tried.
pub proof fn lemma_costed_after_reach<C: Fn(&SpatialHashCell, UCoord) -> Option<u32>>(
    cells: Seq<Cell>,
    width: u32,
    height: u32,
    seq: u64,
    start: Coord,
    queue: Seq<Node>,
    walks: Map<int, Seq<Coord>>,
    cost_fn: &C, spatial: &SpatialHashTable, dijkstra: &DijkstraMap,
    pending: Coord,
    done: int,
    direction: CardinalDirection,
    next: Coord,
    cost: u32,
    score: u32,
)
    requires
        costed(cells, width, height, seq, start, queue, walks, cost_fn, spatial, dijkstra, pending, done),
        queue_traced(queue, cells, width, height, seq, start),
        cells.len() == width * height,
        spatial.grid.width == width,
        spatial.grid.height == height,
        direction.spec_index() == done,
        steps_to(pending, direction, next),
        in_bounds(width, height, pending.x as int, pending.y as int),
        in_bounds(width, height, next.x as int, next.y as int),
        cells[cell_index(width, pending.x as int, pending.y as int)].visited == seq,
        cells[cell_index(width, next.x as int, next.y as int)].visited != seq,
        next != start,
        may_enter(cost_fn, spatial, dijkstra, next.x as int, next.y as int),
        cost == saturated(
            walk_cost(
                walks[cell_index(width, pending.x as int, pending.y as int)],
                cost_fn,
                spatial,
            ) + entry_cost(cost_fn, spatial, next.x as int, next.y as int),
        ),
        score == saturated(
            walk_cost(
                walks[cell_index(width, pending.x as int, pending.y as int)],
                cost_fn,
                spatial,
            ) + entry_cost(cost_fn, spatial, next.x as int, next.y as int) + heuristic(
                dijkstra,
                next.x as int,
                next.y as int,
            ),
        ),
        cells[cell_index(width, next.x as int, next.y as int)].seen == seq ==> score
            < cells[cell_index(width, next.x as int, next.y as int)].score,
    ensures
        ({
            let at = cell_index(width, next.x as int, next.y as int);
            costed(
                cells.update(at, reached_cell(cells[at], seq, cost, score, direction)),
                width,
                height,
                seq,
                start,
                queue.push(Node { score, coord: next }),
                walks.insert(
                    at,
                    walks[cell_index(width, pending.x as int, pending.y as int)].push(next),
                ),
                cost_fn, spatial, dijkstra,
                pending,
                done + 1,
            )
        }),
{
    reveal(costed);
    let at = cell_index(width, next.x as int, next.y as int);
    let from = cell_index(width, pending.x as int, pending.y as int);
    let after = cells.update(at, reached_cell(cells[at], seq, cost, score, direction));
    let longer = queue.push(Node { score, coord: next });
    let way = walks[from].push(next);
    let walks_after = walks.insert(at, way);
    lemma_cell_index_bounds(width, height, next.x as int, next.y as int);
    lemma_cell_index_bounds(width, height, pending.x as int, pending.y as int);
    assert(cell_costed(
        cells,
        width,
        height,
        seq,
        start,
        queue,
        walks,
        cost_fn, spatial, dijkstra,
        pending,
        done,
        pending.x as int,
        pending.y as int,
    ));
    assert((Coord { x: (pending.x as int) as i32, y: (pending.y as int) as i32 }) == pending);
    lemma_walk_cost_push(walks[from], next, cost_fn, spatial);
    assert(is_walk(way, start, next, cost_fn, spatial, dijkstra)) by {
        assert forall|i: int| 1 <= i < way.len() implies #[trigger] walk_step(way, i, cost_fn, spatial, dijkstra) by {
            if i < walks[from].len() {
                assert(walk_step(walks[from], i, cost_fn, spatial, dijkstra));
            } else {
                assert(steps_to(way[i - 1], direction, way[i]));
            }
        }
    }
    assert forall|k: int| 0 <= k < cells.len() implies (#[trigger] after[k]).visited == seq || (
    cells[k].visited != seq && (cells[k].seen == seq ==> after[k].seen == seq && after[k].score
        <= cells[k].score)) by {}
    assert(queue_costed(longer, after, width, seq)) by {
        assert forall|i: int| 0 <= i < longer.len() implies {
            let node = #[trigger] longer[i];
            let cell = after[cell_index(width, node.coord.x as int, node.coord.y as int)];
            cell.visited != seq ==> node.score >= cell.score
        } by {
            if i < queue.len() {
                let node = queue[i];
                assert(longer[i] == node);
                lemma_cell_index_bounds(width, height, node.coord.x as int, node.coord.y as int);
                if cell_index(width, node.coord.x as int, node.coord.y as int) == at {
                    lemma_cell_index_injective(
                        width,
                        node.coord.x as int,
                        node.coord.y as int,
                        next.x as int,
                        next.y as int,
                    );
                }
            }
        }
    }
    assert forall|x: int, y: int| in_bounds(width, height, x, y) implies #[trigger] cell_costed(
        after,
        width,
        height,
        seq,
        start,
        longer,
        walks_after,
        cost_fn, spatial, dijkstra,
        pending,
        done + 1,
        x,
        y,
    ) by {
        lemma_cell_index_bounds(width, height, x, y);
        assert(cell_costed(cells, width, height, seq, start, queue, walks, cost_fn, spatial, dijkstra, pending, done, x, y));
        let here = cell_index(width, x, y);
        if here == at {
            lemma_cell_index_injective(width, x, y, next.x as int, next.y as int);
            assert((Coord { x: x as i32, y: y as i32 }) == next);
            assert(longer[longer.len() - 1].coord == next);
            assert(cell_index(
                width,
                x - direction.spec_vector().x,
                y - direction.spec_vector().y,
            ) == from);
        } else {
            if after[here].seen == seq {
                let entered = cells[here].enter_direction->0;
                let from_x = x - entered.spec_vector().x;
                let from_y = y - entered.spec_vector().y;
                lemma_cell_index_bounds(width, height, from_x, from_y);
                assert(after[cell_index(width, from_x, from_y)].visited == seq);
            }
            if after[here].seen == seq && after[here].visited != seq {
                let i = choose|i: int|
                    0 <= i < queue.len() && (#[trigger] queue[i]).coord.x == x && queue[i].coord.y
                        == y && queue[i].score == cells[here].score;
                assert(longer[i] == queue[i]);
            }
            if after[here].visited == seq {
                assert forall|other: CardinalDirection|
                    (x == pending.x && y == pending.y && other.spec_index() >= done + 1) || #[trigger] neighbour_bounded(
                        after,
                        width,
                        seq,
                        walks_after,
                        cost_fn, spatial, dijkstra,
                        x,
                        y,
                        other,
                    ) by {
                    if x == pending.x && y == pending.y && other.spec_index() == done {
                        assert(other == direction);
                    } else if !(x == pending.x && y == pending.y && other.spec_index() >= done + 1) {
                        assert(neighbour_bounded(cells, width, seq, walks, cost_fn, spatial, dijkstra, x, y, other));
                        lemma_bounded_stays(
                            cells,
                            after,
                            walks,
                            walks_after,
                            width,
                            height,
                            seq,
                            cost_fn, spatial, dijkstra,
                            x,
                            y,
                            other,
                        );
                    }
                }
            }
        }
    }
}

/// Whether the route `steps` from `start` to `end` costs no more than
/// any way from `start` to `end` whose cost, with the distance of `end`,
/// stays below the largest value.
pub open spec fn cheapest_route<C: Fn(&SpatialHashCell, UCoord) -> Option<u32>>(steps: Seq<PathNode>, start: Coord, end: Coord, cost_fn: &C, spatial: &SpatialHashTable, dijkstra: &DijkstraMap) -> bool {
    forall|walk: Seq<Coord>| #[trigger]
        is_walk(walk, start, end, cost_fn, spatial, dijkstra) && walk_cost(walk, cost_fn, spatial) + heuristic(
            dijkstra,
            end.x as int,
            end.y as int,
        ) < u32::MAX ==> route_cost(steps, cost_fn, spatial) <= walk_cost(walk, cost_fn, spatial)
}

/// A cell for which the cost function gave no cost cannot be entered.
pub proof fn lemma_no_answer_no_entry<C: Fn(&SpatialHashCell, UCoord) -> Option<u32>>(cost_fn: &C, spatial: &SpatialHashTable, dijkstra: &DijkstraMap, x: int, y: int)
    requires
        cost_is_fixed(cost_fn, spatial),
        cost_result(cost_fn, spatial, x, y, None),
    ensures
        !may_enter(cost_fn, spatial, dijkstra, x, y),
{
    if may_enter(cost_fn, spatial, dijkstra, x, y) {
        let c = choose|c: u32|
            cost_fn.ensures(
                (&spatial.grid.spec_cell(x, y), UCoord { x: x as u32, y: y as u32 }),
                Some(c),
            );
        assert(cost_result(cost_fn, spatial, x, y, Some(c)));
    }
}

/// A visited cell holds the cost of the way by which it was reached.
pub proof fn lemma_visited_cost<C: Fn(&SpatialHashCell, UCoord) -> Option<u32>>(
    cells: Seq<Cell>,
    width: u32,
    height: u32,
    seq: u64,
    start: Coord,
    queue: Seq<Node>,
    walks: Map<int, Seq<Coord>>,
    cost_fn: &C, spatial: &SpatialHashTable, dijkstra: &DijkstraMap,
    pending: Coord,
    done: int,
    coord: Coord,
)
    requires
        costed(cells, width, height, seq, start, queue, walks, cost_fn, spatial, dijkstra, pending, done),
        in_bounds(width, height, coord.x as int, coord.y as int),
        cells[cell_index(width, coord.x as int, coord.y as int)].visited == seq,
    ensures
        walks[cell_index(width, coord.x as int, coord.y as int)].len() > 0,
        walk_cost(walks[cell_index(width, coord.x as int, coord.y as int)], cost_fn, spatial) >= 0,
        cells[cell_index(width, coord.x as int, coord.y as int)].cost == saturated(
            walk_cost(walks[cell_index(width, coord.x as int, coord.y as int)], cost_fn, spatial),
        ),
{
    reveal(costed);
    assert(cell_costed(
        cells,
        width,
        height,
        seq,
        start,
        queue,
        walks,
        cost_fn, spatial, dijkstra,
        pending,
        done,
        coord.x as int,
        coord.y as int,
    ));
    lemma_walk_cost_push(
        walks[cell_index(width, coord.x as int, coord.y as int)],
        start,
        cost_fn,
        spatial,
    );
}

/// The way to a cell that was reached is the way to the cell that it was
/// entered from, and the cell; it costs the cost of the cell more.
pub proof fn lemma_reached_way<C: Fn(&SpatialHashCell, UCoord) -> Option<u32>>(
    cells: Seq<Cell>,
    width: u32,
    height: u32,
    seq: u64,
    start: Coord,
    queue: Seq<Node>,
    walks: Map<int, Seq<Coord>>,
    cost_fn: &C, spatial: &SpatialHashTable, dijkstra: &DijkstraMap,
    pending: Coord,
    done: int,
    coord: Coord,
)
    requires
        costed(cells, width, height, seq, start, queue, walks, cost_fn, spatial, dijkstra, pending, done),
        in_bounds(width, height, coord.x as int, coord.y as int),
        cells[cell_index(width, coord.x as int, coord.y as int)].seen == seq,
    ensures
        ({
            let at = cell_index(width, coord.x as int, coord.y as int);
            let direction = cells[at].enter_direction->0;
            let from = cell_index(
                width,
                coord.x - direction.spec_vector().x,
                coord.y - direction.spec_vector().y,
            );
            walk_cost(walks[at], cost_fn, spatial) == walk_cost(walks[from], cost_fn, spatial)
                + entry_cost(cost_fn, spatial, coord.x as int, coord.y as int)
        }),
{
    reveal(costed);
    let at = cell_index(width, coord.x as int, coord.y as int);
    let direction = cells[at].enter_direction->0;
    let from_x = coord.x - direction.spec_vector().x;
    let from_y = coord.y - direction.spec_vector().y;
    assert(cell_costed(
        cells,
        width,
        height,
        seq,
        start,
        queue,
        walks,
        cost_fn, spatial, dijkstra,
        pending,
        done,
        coord.x as int,
        coord.y as int,
    ));
    assert(cell_costed(
        cells,
        width,
        height,
        seq,
        start,
        queue,
        walks,
        cost_fn, spatial, dijkstra,
        pending,
        done,
        from_x,
        from_y,
    ));
    assert((Coord { x: (coord.x as int) as i32, y: (coord.y as int) as i32 }) == coord);
    lemma_walk_cost_push(walks[cell_index(width, from_x, from_y)], coord, cost_fn, spatial);
}

/// The way to the start is the start alone, and costs nothing.
pub proof fn lemma_start_way<C: Fn(&SpatialHashCell, UCoord) -> Option<u32>>(
    cells: Seq<Cell>,
    width: u32,
    height: u32,
    seq: u64,
    start: Coord,
    queue: Seq<Node>,
    walks: Map<int, Seq<Coord>>,
    cost_fn: &C, spatial: &SpatialHashTable, dijkstra: &DijkstraMap,
    pending: Coord,
    done: int,
)
    requires
        costed(cells, width, height, seq, start, queue, walks, cost_fn, spatial, dijkstra, pending, done),
        in_bounds(width, height, start.x as int, start.y as int),
    ensures
        walk_cost(walks[cell_index(width, start.x as int, start.y as int)], cost_fn, spatial) == 0,
{
    reveal(costed);
    assert(cell_costed(
        cells,
        width,
        height,
        seq,
        start,
        queue,
        walks,
        cost_fn, spatial, dijkstra,
        pending,
        done,
        start.x as int,
        start.y as int,
    ));
}

} // verus!
