//! What occupies each cell of the world, by coordinate.

use vstd::prelude::*;
use crate::coord::{Coord, Position, UCoord, POSITION_UNITS_PER_CELL};
use crate::direction::DirectionBitmap;
use crate::entity_store::EntityId;
use crate::static_grid::{cell_index, in_bounds, StaticGrid};

verus! {

/// A set of entities.
#[derive(Debug)]
pub struct EntitySet {
    pub ids: Vec<EntityId>,
}

impl View for EntitySet {
    type V = Set<EntityId>;

    open spec fn view(&self) -> Set<EntityId> {
        self.ids@.to_set()
    }
}

/// Whether `m` is in `s` and no entity of `s` has a smaller id.
pub open spec fn is_lowest(s: Set<EntityId>, m: EntityId) -> bool {
    s.contains(m) && forall|x: EntityId| s.contains(x) ==> m <= x
}

/// The entity of `s` with the smallest id, if `s` has one.
pub open spec fn lowest_of(s: Set<EntityId>) -> Option<EntityId> {
    if exists|m: EntityId| is_lowest(s, m) {
        Some(choose|m: EntityId| is_lowest(s, m))
    } else {
        None
    }
}

/// A set has at most one lowest entity, and `lowest_of` names it.
pub proof fn lemma_lowest_unique(s: Set<EntityId>, m: EntityId)
    requires
        is_lowest(s, m),
    ensures
        lowest_of(s) == Some(m),
{
    let c = choose|c: EntityId| is_lowest(s, c);
    assert(c <= m && m <= c);
}

/// A set without entities has no lowest one.
pub proof fn lemma_lowest_of_empty(s: Set<EntityId>)
    requires
        forall|x: EntityId| !s.contains(x),
    ensures
        lowest_of(s) is None,
{
}

/// The entities of a list that is not empty have a lowest one.
pub proof fn lemma_listed_have_lowest(ids: Seq<EntityId>) -> (m: EntityId)
    requires
        ids.len() > 0,
    ensures
        is_lowest(ids.to_set(), m),
    decreases ids.len(),
{
    let last = ids.last();
    if ids.len() == 1 {
        assert(ids[0] == last);
        assert(ids.contains(last));
        assert forall|x: EntityId| ids.to_set().contains(x) implies last <= x by {
            let i = choose|i: int| 0 <= i < ids.len() && ids[i] == x;
        }
        last
    } else {
        let front = ids.drop_last();
        let low = lemma_listed_have_lowest(front);
        let m = if last < low {
            last
        } else {
            low
        };
        assert(ids.contains(m)) by {
            if m == last {
                assert(ids[ids.len() - 1] == m);
            } else {
                let i = choose|i: int| 0 <= i < front.len() && front[i] == m;
                assert(ids[i] == m);
            }
        }
        assert forall|x: EntityId| ids.to_set().contains(x) implies m <= x by {
            let i = choose|i: int| 0 <= i < ids.len() && ids[i] == x;
            if i < front.len() {
                assert(front[i] == x);
                assert(front.contains(x));
                assert(front.to_set().contains(x));
            }
        }
        m
    }
}

/// An entity set that is not empty has a lowest entity.
pub proof fn lemma_lowest_of_inhabited(s: EntitySet)
    requires
        s@ != Set::<EntityId>::empty(),
    ensures
        lowest_of(s@) is Some,
        is_lowest(s@, lowest_of(s@)->0),
{
    if s.ids@.len() == 0 {
        assert(s@ =~= Set::<EntityId>::empty());
    } else {
        let m = lemma_listed_have_lowest(s.ids@);
        lemma_lowest_unique(s@, m);
    }
}

impl EntitySet {
    pub fn new() -> (s: EntitySet)
        ensures
            s@ == Set::<EntityId>::empty(),
    {
        let s = EntitySet { ids: Vec::new() };
        assert(s@ =~= Set::<EntityId>::empty());
        s
    }

    pub fn insert(&mut self, id: EntityId)
        ensures
            final(self)@ == old(self)@.insert(id),
    {
        self.ids.push(id);
        proof {
            assert forall|x: EntityId| self@.contains(x) <==> old(self)@.insert(id).contains(
                x,
            ) by {
                if old(self).ids@.contains(x) {
                    let i = choose|i: int| 0 <= i < old(self).ids@.len() && old(self).ids@[i] == x;
                    assert(self.ids@[i] == x);
                }
                if x == id {
                    assert(self.ids@[self.ids@.len() - 1] == x);
                }
            }
            assert(self@ =~= old(self)@.insert(id));
        }
    }

    pub fn contains(&self, id: EntityId) -> (found: bool)
        ensures
            found == self@.contains(id),
    {
        let mut i: usize = 0;
        while i < self.ids.len()
            invariant
                i <= self.ids@.len(),
                forall|j: int| 0 <= j < i ==> self.ids@[j] != id,
            decreases self.ids@.len() - i,
        {
            if self.ids[i] == id {
                return true;
            }
            i += 1;
        }
        false
    }

    pub fn is_empty(&self) -> (empty: bool)
        ensures
            empty <==> self@ == Set::<EntityId>::empty(),
    {
        let empty = self.ids.len() == 0;
        proof {
            if empty {
                assert(self@ =~= Set::<EntityId>::empty());
            } else {
                assert(self.ids@.contains(self.ids@[0]));
                assert(self@.contains(self.ids@[0]));
            }
        }
        empty
    }

    /// The entity of the set with the smallest id: the one that stands for
    /// the set where a rule looks at a single occupant.
    pub fn lowest(&self) -> (r: Option<EntityId>)
        ensures
            r == lowest_of(self@),
            r is None <==> self@ == Set::<EntityId>::empty(),
            r matches Some(m) ==> is_lowest(self@, m),
    {
        if self.ids.len() == 0 {
            proof {
                assert(self@ =~= Set::<EntityId>::empty());
                lemma_lowest_of_empty(self@);
            }
            return None;
        }
        let mut best: EntityId = self.ids[0];
        let mut i: usize = 1;
        while i < self.ids.len()
            invariant
                1 <= i <= self.ids@.len(),
                self.ids@.contains(best),
                forall|j: int| 0 <= j < i ==> best <= self.ids@[j],
            decreases self.ids@.len() - i,
        {
            if self.ids[i] < best {
                best = self.ids[i];
            }
            i += 1;
        }
        proof {
            assert(self@.contains(best));
            lemma_lowest_unique(self@, best);
        }
        Some(best)
    }
}

/// Aggregate of what occupies one cell.
#[derive(Debug)]
pub struct SpatialHashCell {
    pub solid_count: usize,
    pub npc_count: usize,
    pub player_count: usize,
    pub door_set: EntitySet,
    pub attackable_set: EntitySet,
    /// The sides on which the neighbouring cell holds a wall.
    pub wall_neighbours: DirectionBitmap,
}

impl SpatialHashCell {
    /// A cell that nothing occupies.
    pub fn new() -> (c: SpatialHashCell)
        ensures
            c.solid_count == 0,
            c.npc_count == 0,
            c.player_count == 0,
            c.door_set@ == Set::<EntityId>::empty(),
            c.attackable_set@ == Set::<EntityId>::empty(),
            c.wall_neighbours.raw == 0,
    {
        SpatialHashCell {
            solid_count: 0,
            npc_count: 0,
            player_count: 0,
            door_set: EntitySet::new(),
            attackable_set: EntitySet::new(),
            wall_neighbours: DirectionBitmap { raw: 0 },
        }
    }

    /// Whether an NPC or the player stands in the cell.
    pub open spec fn spec_is_occupied(&self) -> bool {
        self.npc_count > 0 || self.player_count > 0
    }

    /// Whether an NPC or the player stands in the cell.
    pub fn is_occupied(&self) -> (b: bool)
        ensures
            b == self.spec_is_occupied(),
    {
        self.npc_count > 0 || self.player_count > 0
    }
}

/// The occupancy of every cell of the world.  Coordinates outside the
/// world have no cell.
pub struct SpatialHashTable {
    pub grid: StaticGrid<SpatialHashCell>,
}

impl SpatialHashTable {
    pub open spec fn wf(&self) -> bool {
        self.grid.wf()
    }

    /// Whether the coordinate has a cell.
    pub open spec fn spec_has_cell(&self, coord: Coord) -> bool {
        in_bounds(self.grid.width, self.grid.height, coord.x as int, coord.y as int)
    }

    /// The cell of a coordinate that has one.
    pub open spec fn spec_cell(&self, coord: Coord) -> SpatialHashCell
        recommends
            self.wf(),
            self.spec_has_cell(coord),
    {
        self.grid.cells@[cell_index(self.grid.width, coord.x as int, coord.y as int)]
    }

    /// A world of the given size that nothing occupies.
    pub fn new(width: u32, height: u32) -> (table: SpatialHashTable)
        requires
            width * height <= usize::MAX,
        ensures
            table.wf(),
            table.grid.width == width,
            table.grid.height == height,
            forall|i: int|
                0 <= i < width * height ==> {
                    let c = #[trigger] table.grid.cells@[i];
                    &&& c.solid_count == 0
                    &&& c.npc_count == 0
                    &&& c.player_count == 0
                    &&& c.door_set@ == Set::<EntityId>::empty()
                    &&& c.attackable_set@ == Set::<EntityId>::empty()
                    &&& c.wall_neighbours.raw == 0
                },
    {
        let n: usize = width as usize * height as usize;
        let mut cells: Vec<SpatialHashCell> = Vec::new();
        let mut i: usize = 0;
        while i < n
            invariant
                i <= n,
                cells@.len() == i,
                forall|j: int|
                    0 <= j < i ==> {
                        let c = #[trigger] cells@[j];
                        &&& c.solid_count == 0
                        &&& c.npc_count == 0
                        &&& c.player_count == 0
                        &&& c.door_set@ == Set::<EntityId>::empty()
                        &&& c.attackable_set@ == Set::<EntityId>::empty()
                        &&& c.wall_neighbours.raw == 0
                    },
            decreases n - i,
        {
            cells.push(SpatialHashCell::new());
            i += 1;
        }
        SpatialHashTable { grid: StaticGrid::from_cells(width, height, cells) }
    }

    /// The cell of a signed coordinate, if it has one.
    pub fn get_signed(&self, coord: Coord) -> (r: Option<&SpatialHashCell>)
        requires
            self.wf(),
        ensures
            r is Some <==> self.spec_has_cell(coord),
            r matches Some(cell) ==> *cell == self.spec_cell(coord),
    {
        self.grid.get_signed(coord)
    }

    /// The cell of an unsigned coordinate, if it has one.
    pub fn get(&self, coord: UCoord) -> (r: Option<&SpatialHashCell>)
        requires
            self.wf(),
        ensures
            r is Some <==> in_bounds(self.grid.width, self.grid.height, coord.x as int, coord.y as int),
            r matches Some(cell) ==> *cell == self.grid.spec_cell(coord.x as int, coord.y as int),
    {
        self.grid.get(coord)
    }

    /// The coordinate of the cell that a position lies in.
    pub open spec fn cell_of(position: Position) -> (int, int) {
        (position.x as int / 1000, position.y as int / 1000)
    }

    /// The cell that a position lies in, if it lies in the world.
    pub fn get_position(&self, position: Position) -> (r: Option<&SpatialHashCell>)
        requires
            self.wf(),
        ensures
            r is Some <==> in_bounds(
                self.grid.width,
                self.grid.height,
                Self::cell_of(position).0,
                Self::cell_of(position).1,
            ),
            r matches Some(cell) ==> *cell == self.grid.spec_cell(
                Self::cell_of(position).0,
                Self::cell_of(position).1,
            ),
    {
        if position.x < 0 || position.y < 0 {
            return None;
        }
        let x: i64 = position.x / POSITION_UNITS_PER_CELL;
        let y: i64 = position.y / POSITION_UNITS_PER_CELL;
        if x >= self.grid.width as i64 || y >= self.grid.height as i64 {
            return None;
        }
        Some(self.grid.get_checked(UCoord { x: x as u32, y: y as u32 }))
    }

    /// Replaces the cell of a coordinate.  Returns whether the coordinate has
    /// a cell; if not, nothing changes.
    pub fn set_signed(&mut self, coord: Coord, cell: SpatialHashCell) -> (done: bool)
        requires
            old(self).wf(),
        ensures
            final(self).wf(),
            final(self).grid.width == old(self).grid.width,
            final(self).grid.height == old(self).grid.height,
            done == old(self).spec_has_cell(coord),
            done ==> final(self).grid.cells@ == old(self).grid.cells@.update(
                cell_index(old(self).grid.width, coord.x as int, coord.y as int),
                cell,
            ),
            !done ==> final(self).grid.cells@ == old(self).grid.cells@,
    {
        match self.grid.convert_signed(coord) {
            Some(u) => {
                self.grid.set_checked(u, cell);
                true
            },
            None => false,
        }
    }
}

} // verus!
