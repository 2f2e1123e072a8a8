//! What a search finds, as a function of the grid, the ends, the costs
//! and the distances.
//!
//! The marks that earlier searches left in the cells play no part: a cell
//! counts as reached or visited only where it bears the number of the
//! search that runs.

use vstd::prelude::*;
use crate::coord::{Coord, UCoord};
use crate::dijkstra_map::DijkstraMap;
use crate::direction::CardinalDirection;
use crate::search::cost::{cost_is_fixed, cost_result};
use crate::search::{reached_cell, visited_cell, Cell, Error, Node, PathNode};
use crate::spatial_hash::{SpatialHashCell, SpatialHashTable};
use crate::static_grid::{cell_index, in_bounds};

verus! {

/// What the running search knows of a cell.
pub ghost struct Mark {
    pub visited: bool,
    pub seen: bool,
    pub cost: u32,
    pub score: u32,
    pub enter_direction: Option<CardinalDirection>,
}

/// The cells as the running search knows them, and the nodes that wait.
pub ghost struct Frontier {
    pub marks: Seq<Mark>,
    pub queue: Seq<Node>,
}

/// What the search knows of a cell that it has not touched.
pub open spec fn blank_mark() -> Mark {
    Mark { visited: false, seen: false, cost: 0, score: 0, enter_direction: None }
}

/// What the search numbered `seq` knows of `cell`.
pub open spec fn mark_of(cell: Cell, seq: u64) -> Mark {
    if cell.visited == seq || cell.seen == seq {
        Mark {
            visited: cell.visited == seq,
            seen: cell.seen == seq,
            cost: cell.cost,
            score: cell.score,
            enter_direction: cell.enter_direction,
        }
    } else {
        blank_mark()
    }
}

/// The state of the search numbered `seq`.
pub open spec fn frontier_of(cells: Seq<Cell>, queue: Seq<Node>, seq: u64) -> Frontier {
    Frontier { marks: Seq::new(cells.len(), |k: int| mark_of(cells[k], seq)), queue }
}

/// The place in `queue` of the first node that has the lowest score.
pub open spec fn lowest_at(queue: Seq<Node>) -> int
    decreases queue.len(),
{
    if queue.len() <= 1 {
        0
    } else {
        let front = lowest_at(queue.drop_last());
        if queue.last().score < queue[front].score {
            queue.len() - 1
        } else {
            front
        }
    }
}

/// The sum of `a` and `b`, which stops at the largest value.
pub open spec fn sum_to_limit(a: u32, b: u32) -> u32 {
    if a + b > u32::MAX {
        u32::MAX
    } else {
        (a + b) as u32
    }
}

/// What the cost function answers for the cell `(x, y)`.
pub open spec fn cost_at<C: Fn(&SpatialHashCell, UCoord) -> Option<u32>>(cost_fn: &C, spatial: &SpatialHashTable, x: int, y: int) -> Option<u32> {
    choose|r: Option<u32>| cost_result(cost_fn, spatial, x, y, r)
}

/// The direction that is tried as number `i`.
pub open spec fn direction_at(i: int) -> CardinalDirection {
    if i == 0 {
        CardinalDirection::North
    } else if i == 1 {
        CardinalDirection::East
    } else if i == 2 {
        CardinalDirection::South
    } else {
        CardinalDirection::West
    }
}

/// The state after the neighbour of the visited cell `from` in
/// `direction` has been tried, where `from` was reached at `base_cost`.
pub open spec fn relaxed<C: Fn(&SpatialHashCell, UCoord) -> Option<u32>>(
    f: Frontier,
    width: u32,
    height: u32,
    from: Coord,
    direction: CardinalDirection,
    base_cost: u32,
    cost_fn: &C, spatial: &SpatialHashTable, dijkstra: &DijkstraMap,
) -> Frontier {
    let to_x = from.x + direction.spec_vector().x;
    let to_y = from.y + direction.spec_vector().y;
    let at = cell_index(width, to_x, to_y);
    if !(i32::MIN <= to_x <= i32::MAX && i32::MIN <= to_y <= i32::MAX) || !in_bounds(
        width,
        height,
        to_x,
        to_y,
    ) || f.marks[at].visited {
        f
    } else {
        match (dijkstra.spec_distance(to_x, to_y), cost_at(cost_fn, spatial, to_x, to_y)) {
            (Some(distance), Some(next_cost)) => {
                let cost = sum_to_limit(base_cost, next_cost);
                let score = sum_to_limit(cost, distance);
                if f.marks[at].seen && f.marks[at].score <= score {
                    f
                } else {
                    Frontier {
                        marks: f.marks.update(
                            at,
                            Mark {
                                visited: false,
                                seen: true,
                                cost,
                                score,
                                enter_direction: Some(direction),
                            },
                        ),
                        queue: f.queue.push(
                            Node { score, coord: Coord { x: to_x as i32, y: to_y as i32 } },
                        ),
                    }
                }
            },
            _ => f,
        }
    }
}

/// The state after the first `count` directions from `from` have been
/// tried.
pub open spec fn relaxed_first<C: Fn(&SpatialHashCell, UCoord) -> Option<u32>>(
    f: Frontier,
    width: u32,
    height: u32,
    from: Coord,
    base_cost: u32,
    cost_fn: &C, spatial: &SpatialHashTable, dijkstra: &DijkstraMap,
    count: int,
) -> Frontier
    decreases count,
{
    if count <= 0 {
        f
    } else {
        relaxed(
            relaxed_first(f, width, height, from, base_cost, cost_fn, spatial, dijkstra, count - 1),
            width,
            height,
            from,
            direction_at(count - 1),
            base_cost,
            cost_fn, spatial, dijkstra,
        )
    }
}

/// The state `f` with the cell at place `at` visited.
pub open spec fn visited_frontier(f: Frontier, at: int, rest: Seq<Node>) -> Frontier {
    Frontier { marks: f.marks.update(at, Mark { visited: true, ..f.marks[at] }), queue: rest }
}

/// The marks of the cells when `end` is taken from the queue, or nothing
/// where the queue runs out first.  Each round takes the first node of
/// the lowest score; `fuel` bounds the number of rounds.
pub open spec fn explored_from<C: Fn(&SpatialHashCell, UCoord) -> Option<u32>>(
    f: Frontier,
    width: u32,
    height: u32,
    end: Coord,
    cost_fn: &C, spatial: &SpatialHashTable, dijkstra: &DijkstraMap,
    fuel: nat,
) -> Option<Seq<Mark>>
    decreases fuel,
{
    if fuel == 0 || f.queue.len() == 0 {
        None
    } else {
        let taken = lowest_at(f.queue);
        let node = f.queue[taken];
        let rest = f.queue.remove(taken);
        let at = cell_index(width, node.coord.x as int, node.coord.y as int);
        if f.marks[at].visited {
            explored_from(
                Frontier { marks: f.marks, queue: rest },
                width,
                height,
                end,
                cost_fn, spatial, dijkstra,
                (fuel - 1) as nat,
            )
        } else if node.coord == end {
            Some(f.marks)
        } else {
            explored_from(
                relaxed_first(
                    visited_frontier(f, at, rest),
                    width,
                    height,
                    node.coord,
                    f.marks[at].cost,
                    cost_fn, spatial, dijkstra,
                    4,
                ),
                width,
                height,
                end,
                cost_fn, spatial, dijkstra,
                (fuel - 1) as nat,
            )
        }
    }
}

/// The steps that lead back from `coord` the way each cell was entered,
/// until a cell that was entered from nowhere.
pub open spec fn unwound(marks: Seq<Mark>, width: u32, coord: Coord, fuel: nat) -> Seq<PathNode>
    decreases fuel,
{
    if fuel == 0 {
        seq![]
    } else {
        match marks[cell_index(width, coord.x as int, coord.y as int)].enter_direction {
            None => seq![],
            Some(direction) => {
                let origin = Coord {
                    x: (coord.x - direction.spec_vector().x) as i32,
                    y: (coord.y - direction.spec_vector().y) as i32,
                };
                seq![PathNode { direction, origin }] + unwound(
                    marks,
                    width,
                    origin,
                    (fuel - 1) as nat,
                )
            },
        }
    }
}

/// The number of rounds that a search of a grid with `cells` cells can
/// take.
pub open spec fn rounds(cells: nat) -> nat {
    4 * cells + 2
}

/// The state in which a search from `start` begins.
pub open spec fn first_frontier(width: u32, height: u32, start: Coord) -> Frontier {
    Frontier {
        marks: Seq::new((width * height) as nat, |k: int| blank_mark()),
        queue: seq![Node { score: 0, coord: start }],
    }
}

/// The route that a search from `start` to `end` finds, the last step
/// first, or nothing where it finds none.
pub open spec fn search_result<C: Fn(&SpatialHashCell, UCoord) -> Option<u32>>(width: u32, height: u32, start: Coord, end: Coord, cost_fn: &C, spatial: &SpatialHashTable, dijkstra: &DijkstraMap) -> Option<
    Seq<PathNode>,
> {
    match explored_from(
        first_frontier(width, height, start),
        width,
        height,
        end,
        cost_fn, spatial, dijkstra,
        rounds((width * height) as nat),
    ) {
        None => None,
        Some(marks) => Some(unwound(marks, width, end, (width * height) as nat)),
    }
}

/// Whether a search from `start` to `end` that found `path` holding
/// `before` ends as it should: where it finds a route, with `Ok` and the
/// route appended, and where it finds none, with `NoPath` and `path` as
/// it was.
pub open spec fn is_outcome<C: Fn(&SpatialHashCell, UCoord) -> Option<u32>>(
    r: core::result::Result<(), Error>,
    before: Seq<PathNode>,
    after: Seq<PathNode>,
    width: u32,
    height: u32,
    start: Coord,
    end: Coord,
    cost_fn: &C, spatial: &SpatialHashTable, dijkstra: &DijkstraMap,
) -> bool {
    match search_result(width, height, start, end, cost_fn, spatial, dijkstra) {
        Some(route) => r == Ok::<(), Error>(()) && after == before + route,
        None => r == Err::<(), Error>(Error::NoPath) && after == before,
    }
}

/// Two searches of grids of one size, with the same ends, costs and
/// distances, end alike and append the same steps, whatever searches
/// were made before them.
pub proof fn lemma_outcome_ignores_history<C: Fn(&SpatialHashCell, UCoord) -> Option<u32>>(
    first: core::result::Result<(), Error>,
    first_before: Seq<PathNode>,
    first_after: Seq<PathNode>,
    second: core::result::Result<(), Error>,
    second_before: Seq<PathNode>,
    second_after: Seq<PathNode>,
    width: u32,
    height: u32,
    start: Coord,
    end: Coord,
    cost_fn: &C, spatial: &SpatialHashTable, dijkstra: &DijkstraMap,
)
    requires
        is_outcome(first, first_before, first_after, width, height, start, end, cost_fn, spatial, dijkstra),
        is_outcome(second, second_before, second_after, width, height, start, end, cost_fn, spatial, dijkstra),
    ensures
        first == second,
        first_after.skip(first_before.len() as int) == second_after.skip(second_before.len() as int),
{
    match search_result(width, height, start, end, cost_fn, spatial, dijkstra) {
        Some(route) => {
            assert(first == Ok::<(), Error>(()));
            assert(second == Ok::<(), Error>(()));
            assert(first_after.skip(first_before.len() as int) =~= route);
            assert(second_after.skip(second_before.len() as int) =~= route);
        },
        None => {
            assert(first_after.skip(first_before.len() as int) =~= Seq::<PathNode>::empty());
            assert(second_after.skip(second_before.len() as int) =~= Seq::<PathNode>::empty());
        },
    }
}

/// What the cost function answered for a cell is its answer.
pub proof fn lemma_cost_at<C: Fn(&SpatialHashCell, UCoord) -> Option<u32>>(cost_fn: &C, spatial: &SpatialHashTable, x: int, y: int, r: Option<u32>)
    requires
        cost_is_fixed(cost_fn, spatial),
        cost_result(cost_fn, spatial, x, y, r),
    ensures
        cost_at(cost_fn, spatial, x, y) == r,
{
    let a = choose|a: Option<u32>| cost_result(cost_fn, spatial, x, y, a);
    assert(cost_result(cost_fn, spatial, x, y, a));
}

/// The first node of the lowest score has the lowest score, and is the
/// first that has it.
pub proof fn lemma_lowest_at(queue: Seq<Node>)
    requires
        queue.len() > 0,
    ensures
        0 <= lowest_at(queue) < queue.len(),
        forall|k: int| 0 <= k < queue.len() ==> queue[lowest_at(queue)].score <= (#[trigger] queue[k]).score,
        forall|k: int| 0 <= k < lowest_at(queue) ==> queue[lowest_at(queue)].score < (#[trigger] queue[k]).score,
    decreases queue.len(),
{
    if queue.len() > 1 {
        let front = queue.drop_last();
        lemma_lowest_at(front);
        assert forall|k: int| 0 <= k < queue.len() implies queue[lowest_at(queue)].score <= (
        #[trigger] queue[k]).score by {
            if k < front.len() {
                assert(front[k] == queue[k]);
            }
        }
        assert forall|k: int| 0 <= k < lowest_at(queue) implies queue[lowest_at(queue)].score < (
        #[trigger] queue[k]).score by {
            assert(front[k] == queue[k]);
        }
    }
}

/// Visiting a cell marks it visited and leaves the other cells alone.
pub proof fn lemma_frontier_after_visit(cells: Seq<Cell>, queue: Seq<Node>, rest: Seq<Node>, seq: u64, at: int)
    requires
        0 <= at < cells.len(),
        cells[at].visited != seq,
        cells[at].seen == seq || (cells[at].cost == 0 && cells[at].score == 0
            && cells[at].enter_direction is None),
    ensures
        frontier_of(cells.update(at, visited_cell(cells[at], seq)), rest, seq) == visited_frontier(
            frontier_of(cells, queue, seq),
            at,
            rest,
        ),
{
    let after = frontier_of(cells.update(at, visited_cell(cells[at], seq)), rest, seq);
    let stated = visited_frontier(frontier_of(cells, queue, seq), at, rest);
    assert(after.marks =~= stated.marks);
}

/// Reaching a cell marks it reached and leaves the other cells alone.
pub proof fn lemma_frontier_after_reach(
    cells: Seq<Cell>,
    queue: Seq<Node>,
    seq: u64,
    at: int,
    cost: u32,
    score: u32,
    direction: CardinalDirection,
    node: Node,
)
    requires
        0 <= at < cells.len(),
        cells[at].visited != seq,
    ensures
        frontier_of(
            cells.update(at, reached_cell(cells[at], seq, cost, score, direction)),
            queue.push(node),
            seq,
        ) == (Frontier {
            marks: frontier_of(cells, queue, seq).marks.update(
                at,
                Mark { visited: false, seen: true, cost, score, enter_direction: Some(direction) },
            ),
            queue: queue.push(node),
        }),
{
    let after = frontier_of(
        cells.update(at, reached_cell(cells[at], seq, cost, score, direction)),
        queue.push(node),
        seq,
    );
    assert(after.marks =~= frontier_of(cells, queue, seq).marks.update(
        at,
        Mark { visited: false, seen: true, cost, score, enter_direction: Some(direction) },
    ));
}

/// No cell bears the number of a search that is about to begin.
pub proof fn lemma_first_frontier(cells: Seq<Cell>, width: u32, height: u32, seq: u64, start: Coord)
    requires
        cells.len() == width * height,
        forall|k: int|
            0 <= k < cells.len() ==> (#[trigger] cells[k]).visited < seq && cells[k].seen < seq,
    ensures
        frontier_of(cells, seq![Node { score: 0, coord: start }], seq) == first_frontier(
            width,
            height,
            start,
        ),
{
    assert(frontier_of(cells, seq![Node { score: 0, coord: start }], seq).marks =~= first_frontier(
        width,
        height,
        start,
    ).marks);
}

} // verus!
