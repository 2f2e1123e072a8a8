use reaction_pipeline::coord::{Coord, UCoord};
use reaction_pipeline::dijkstra_map::DijkstraMap;
use reaction_pipeline::direction::CardinalDirection;
use reaction_pipeline::search::{pop_lowest, Error, Node, PathNode, SearchEnv};
use reaction_pipeline::spatial_hash::{SpatialHashCell, SpatialHashTable};

fn open_map(width: u32, height: u32, goal: Coord) -> DijkstraMap {
    let mut map = DijkstraMap::new(width, height);
    for y in 0..height {
        for x in 0..width {
            let distance = (x as i32 - goal.x).unsigned_abs() + (y as i32 - goal.y).unsigned_abs();
            assert!(map.set_distance(UCoord::new(x, y), Some(distance)));
        }
    }
    map
}

fn walk(start: Coord, path: &[PathNode]) -> Coord {
    let mut at = start;
    let mut entered = Vec::new();
    for node in path.iter().rev() {
        assert_eq!(node.origin, at);
        let v = node.direction.vector();
        at = Coord::new(at.x + v.x, at.y + v.y);
        assert!(at != start);
        assert!(!entered.contains(&at));
        entered.push(at);
    }
    at
}

fn free(_: &SpatialHashCell, _: UCoord) -> Option<u32> {
    Some(1)
}

#[test]
fn search_same_cell_is_out_of_bounds() {
    let mut env = SearchEnv::new(3, 3);
    let spatial = SpatialHashTable::new(3, 3);
    let map = open_map(3, 3, Coord::new(1, 1));
    let mut path = Vec::new();
    let r = env.search(&spatial, Coord::new(1, 1), Coord::new(1, 1), free, &map, &mut path);
    assert_eq!(r, Err(Error::OutOfBounds));
    assert!(path.is_empty());
}

#[test]
fn search_outside_the_grid_is_out_of_bounds() {
    let mut env = SearchEnv::new(3, 3);
    let spatial = SpatialHashTable::new(3, 3);
    let map = open_map(3, 3, Coord::new(1, 1));
    let mut path = Vec::new();
    for (start, end) in [
        (Coord::new(-1, 0), Coord::new(1, 1)),
        (Coord::new(0, 0), Coord::new(3, 1)),
        (Coord::new(0, 3), Coord::new(0, -1)),
    ] {
        let r = env.search(&spatial, start, end, free, &map, &mut path);
        assert_eq!(r, Err(Error::OutOfBounds));
        assert!(path.is_empty());
    }
}

#[test]
fn search_finds_shortest_way_in_open_grid() {
    let mut env = SearchEnv::new(5, 4);
    let spatial = SpatialHashTable::new(5, 4);
    let start = Coord::new(0, 0);
    let end = Coord::new(3, 2);
    let map = open_map(5, 4, end);
    let mut path = Vec::new();
    let r = env.search(&spatial, start, end, free, &map, &mut path);
    assert_eq!(r, Ok(()));
    assert_eq!(path.len(), 5);
    assert_eq!(walk(start, &path), end);
}

#[test]
fn search_step_to_neighbour() {
    let mut env = SearchEnv::new(2, 1);
    let spatial = SpatialHashTable::new(2, 1);
    let map = open_map(2, 1, Coord::new(1, 0));
    let mut path = vec![PathNode { direction: CardinalDirection::North, origin: Coord::new(9, 9) }];
    let r = env.search(&spatial, Coord::new(0, 0), Coord::new(1, 0), free, &map, &mut path);
    assert_eq!(r, Ok(()));
    assert_eq!(
        path,
        vec![
            PathNode { direction: CardinalDirection::North, origin: Coord::new(9, 9) },
            PathNode { direction: CardinalDirection::East, origin: Coord::new(0, 0) },
        ]
    );
}

#[test]
fn search_goes_round_a_wall() {
    let mut env = SearchEnv::new(3, 3);
    let mut spatial = SpatialHashTable::new(3, 3);
    for y in 0..2 {
        let mut cell = SpatialHashCell::new();
        cell.solid_count = 1;
        assert!(spatial.set_signed(Coord::new(1, y), cell));
    }
    let start = Coord::new(0, 0);
    let end = Coord::new(2, 0);
    let map = open_map(3, 3, end);
    let cost = |cell: &SpatialHashCell, _: UCoord| if cell.solid_count > 0 { None } else { Some(1) };
    let mut path = Vec::new();
    let r = env.search(&spatial, start, end, cost, &map, &mut path);
    assert_eq!(r, Ok(()));
    assert_eq!(path.len(), 6);
    assert_eq!(walk(start, &path), end);
    for node in &path {
        let v = node.direction.vector();
        let arrives = Coord::new(node.origin.x + v.x, node.origin.y + v.y);
        assert!(!(arrives.x == 1 && arrives.y < 2));
    }
}

#[test]
fn search_reports_no_path_and_leaves_path_alone() {
    let mut env = SearchEnv::new(3, 3);
    let mut spatial = SpatialHashTable::new(3, 3);
    for y in 0..3 {
        let mut cell = SpatialHashCell::new();
        cell.solid_count = 1;
        assert!(spatial.set_signed(Coord::new(1, y), cell));
    }
    let map = open_map(3, 3, Coord::new(2, 0));
    let cost = |cell: &SpatialHashCell, _: UCoord| if cell.solid_count > 0 { None } else { Some(1) };
    let mut path = Vec::new();
    let r = env.search(&spatial, Coord::new(0, 0), Coord::new(2, 0), cost, &map, &mut path);
    assert_eq!(r, Err(Error::NoPath));
    assert!(path.is_empty());
}

#[test]
fn search_does_not_enter_cells_without_distance() {
    let mut env = SearchEnv::new(3, 1);
    let spatial = SpatialHashTable::new(3, 1);
    let mut map = open_map(3, 1, Coord::new(2, 0));
    assert!(map.set_distance(UCoord::new(1, 0), None));
    let mut path = Vec::new();
    let r = env.search(&spatial, Coord::new(0, 0), Coord::new(2, 0), free, &map, &mut path);
    assert_eq!(r, Err(Error::NoPath));
}

#[test]
fn search_env_is_reused_between_searches() {
    let mut env = SearchEnv::new(4, 4);
    let spatial = SpatialHashTable::new(4, 4);
    for (start, end, steps) in [
        (Coord::new(0, 0), Coord::new(3, 3), 6),
        (Coord::new(3, 3), Coord::new(0, 0), 6),
        (Coord::new(2, 1), Coord::new(2, 3), 2),
    ] {
        let map = open_map(4, 4, end);
        let mut path = Vec::new();
        assert_eq!(env.search(&spatial, start, end, free, &map, &mut path), Ok(()));
        assert_eq!(path.len(), steps);
        assert_eq!(walk(start, &path), end);
    }
    assert_eq!(env.seq, 3);
}

#[test]
fn search_counter_starts_again_when_exhausted() {
    let mut env = SearchEnv::new(2, 2);
    env.seq = u64::MAX;
    let spatial = SpatialHashTable::new(2, 2);
    let end = Coord::new(1, 1);
    let map = open_map(2, 2, end);
    let mut path = Vec::new();
    assert_eq!(env.search(&spatial, Coord::new(0, 0), end, free, &map, &mut path), Ok(()));
    assert_eq!(env.seq, 1);
    assert_eq!(path.len(), 2);
}

#[test]
fn search_prefers_the_cheaper_way() {
    let mut env = SearchEnv::new(3, 2);
    let spatial = SpatialHashTable::new(3, 2);
    let start = Coord::new(0, 0);
    let end = Coord::new(2, 0);
    let mut map = DijkstraMap::new(3, 2);
    for y in 0..2 {
        for x in 0..3 {
            assert!(map.set_distance(UCoord::new(x, y), Some(0)));
        }
    }
    let cost = |_: &SpatialHashCell, at: UCoord| if at.x == 1 && at.y == 0 { Some(10) } else { Some(1) };
    let mut path = Vec::new();
    assert_eq!(env.search(&spatial, start, end, cost, &map, &mut path), Ok(()));
    assert_eq!(path.len(), 4);
    assert_eq!(walk(start, &path), end);
}

#[test]
fn pop_lowest_takes_a_node_with_the_least_score() {
    let mut queue = vec![
        Node { score: 5, coord: Coord::new(0, 0) },
        Node { score: 2, coord: Coord::new(1, 0) },
        Node { score: 9, coord: Coord::new(2, 0) },
    ];
    let node = pop_lowest(&mut queue).unwrap();
    assert_eq!(node.score, 2);
    assert_eq!(node.coord, Coord::new(1, 0));
    assert_eq!(queue.len(), 2);
    assert_eq!(pop_lowest(&mut queue).unwrap().score, 5);
    assert_eq!(pop_lowest(&mut queue).unwrap().score, 9);
    assert!(pop_lowest(&mut queue).is_none());
}

fn route_cost(path: &[PathNode], cost: &dyn Fn(Coord) -> u32) -> u32 {
    path.iter()
        .map(|node| {
            let v = node.direction.vector();
            cost(Coord::new(node.origin.x + v.x, node.origin.y + v.y))
        })
        .sum()
}

#[test]
fn search_finds_a_cheapest_way_through_uneven_ground() {
    // Costs by cell; the goal is the lower right corner.
    let costs: [[u32; 4]; 4] = [[1, 9, 1, 1], [1, 9, 1, 9], [1, 1, 1, 9], [9, 9, 1, 1]];
    let start = Coord::new(0, 0);
    let end = Coord::new(3, 3);
    let spatial = SpatialHashTable::new(4, 4);
    // The distance of a cell is the number of steps to the goal: it never
    // falls by more than the cost of a step, which is at least one.
    let map = open_map(4, 4, end);
    let cost = |_: &SpatialHashCell, at: UCoord| Some(costs[at.y as usize][at.x as usize]);
    let mut env = SearchEnv::new(4, 4);
    let mut path = Vec::new();
    assert_eq!(env.search(&spatial, start, end, cost, &map, &mut path), Ok(()));
    assert_eq!(walk(start, &path), end);
    let by_cell = |c: Coord| costs[c.y as usize][c.x as usize];
    assert_eq!(route_cost(&path, &by_cell), 6);
    assert_eq!(path.len(), 6);
}

#[test]
fn search_gives_the_same_way_from_a_used_and_a_fresh_env() {
    let costs: [[u32; 4]; 4] = [[1, 9, 1, 1], [1, 9, 1, 9], [1, 1, 1, 9], [9, 9, 1, 1]];
    let cost = |_: &SpatialHashCell, at: UCoord| Some(costs[at.y as usize][at.x as usize]);
    let spatial = SpatialHashTable::new(4, 4);
    let mut used = SearchEnv::new(4, 4);
    for (start, end) in [
        (Coord::new(3, 0), Coord::new(0, 3)),
        (Coord::new(1, 1), Coord::new(2, 3)),
        (Coord::new(0, 0), Coord::new(3, 3)),
        (Coord::new(3, 3), Coord::new(0, 0)),
    ] {
        let map = open_map(4, 4, end);
        let mut fresh = SearchEnv::new(4, 4);
        let mut from_used = Vec::new();
        let mut from_fresh = Vec::new();
        let a = used.search(&spatial, start, end, cost, &map, &mut from_used);
        let b = fresh.search(&spatial, start, end, cost, &map, &mut from_fresh);
        assert_eq!(a, b);
        assert_eq!(from_used, from_fresh);
    }
}

#[test]
fn pop_lowest_takes_the_first_of_equal_scores() {
    let mut queue = vec![
        Node { score: 4, coord: Coord::new(0, 0) },
        Node { score: 2, coord: Coord::new(1, 0) },
        Node { score: 2, coord: Coord::new(2, 0) },
        Node { score: 3, coord: Coord::new(3, 0) },
    ];
    assert_eq!(pop_lowest(&mut queue).unwrap().coord, Coord::new(1, 0));
    assert_eq!(pop_lowest(&mut queue).unwrap().coord, Coord::new(2, 0));
    assert_eq!(queue.len(), 2);
}

#[test]
fn search_starts_from_cost_nothing_whatever_the_start_held() {
    let spatial = SpatialHashTable::new(3, 1);
    let map = open_map(3, 1, Coord::new(2, 0));
    let mut env = SearchEnv::new(3, 1);
    let mut path = Vec::new();
    assert_eq!(env.search(&spatial, Coord::new(0, 0), Coord::new(2, 0), free, &map, &mut path), Ok(()));
    assert_eq!(env.grid.cells[2].cost, 2);
    let mut path = Vec::new();
    assert_eq!(env.search(&spatial, Coord::new(2, 0), Coord::new(0, 0), free, &map, &mut path), Ok(()));
    assert_eq!(env.grid.cells[2].cost, 0);
    assert_eq!(env.grid.cells[0].cost, 2);
    assert_eq!(path.len(), 2);
}

#[test]
fn search_outside_the_grid_reads_no_table() {
    let mut env = SearchEnv::new(3, 3);
    let spatial = SpatialHashTable::new(1, 1);
    let map = DijkstraMap::new(2, 2);
    let mut path = Vec::new();
    let r = env.search(&spatial, Coord::new(0, 0), Coord::new(5, 5), free, &map, &mut path);
    assert_eq!(r, Err(Error::OutOfBounds));
    let r = env.search(&spatial, Coord::new(1, 1), Coord::new(1, 1), free, &map, &mut path);
    assert_eq!(r, Err(Error::OutOfBounds));
    assert!(path.is_empty());
}
