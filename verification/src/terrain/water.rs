//! A square world under water, with the player in its middle.

use vstd::prelude::*;
use crate::coord::Coord;
use crate::entity_id_allocator::EntityIdAllocator;
use crate::entity_store::{EntityChange, EntityId};
use crate::prototype::{angler, outer_floor, spec_angler, spec_outer_floor};
use crate::terrain::TerrainMetadata;

verus! {

pub const WIDTH: u32 = 100;

pub const HEIGHT: u32 = 100;

/// The number of entities of the world: the player, and one floor for
/// each cell.
pub const NUM_ENTITIES: u64 = 10_001;

/// Where the player starts: the middle of the world.
pub open spec fn player_position() -> Coord {
    Coord { x: 50, y: 50 }
}

/// The cell of floor number `k`, the floors being counted row by row.
pub open spec fn floor_coord(k: int) -> Coord {
    Coord { x: (k % (WIDTH as int)) as i32, y: (k / (WIDTH as int)) as i32 }
}

/// The changes that make the first `count` floors, where the first floor
/// gets the id `first` and each further floor the next id.
pub open spec fn floors(first: EntityId, count: nat) -> Seq<EntityChange>
    decreases count,
{
    if count == 0 {
        seq![]
    } else {
        floors(first, (count - 1) as nat) + spec_outer_floor(
            (first + count - 1) as EntityId,
            floor_coord(count - 1),
        )
    }
}

/// The changes that make the world, where the player gets the id `first`
/// and the floors the ids after it.
pub open spec fn generated(first: EntityId) -> Seq<EntityChange> {
    spec_angler(first, player_position()) + floors((first + 1) as EntityId, (WIDTH * HEIGHT) as nat)
}

/// Appends to `changes` the changes that make the world, and tells its
/// size and the id of the player.  The ids are taken from `allocator`.
pub fn generate(changes: &mut Vec<EntityChange>, allocator: &mut EntityIdAllocator) -> (metadata:
    TerrainMetadata)
    requires
        old(allocator).next + NUM_ENTITIES <= u64::MAX,
    ensures
        metadata.width == WIDTH,
        metadata.height == HEIGHT,
        metadata.player_id == Some(old(allocator).next),
        final(allocator).next == old(allocator).next + NUM_ENTITIES,
        final(changes)@ == old(changes)@ + generated(old(allocator).next),
{
    let mut metadata = TerrainMetadata::default();
    metadata.width = WIDTH;
    metadata.height = HEIGHT;
    let ghost first = allocator.next;
    let player_id = allocator.allocate();
    metadata.player_id = Some(player_id);
    angler(changes, player_id, Coord { x: 50, y: 50 });
    let ghost base = old(changes)@ + spec_angler(first, player_position());
    assert(changes@ =~= base + floors((first + 1) as EntityId, 0));
    let mut i: u32 = 0;
    while i < HEIGHT
        invariant
            i <= HEIGHT,
            first + NUM_ENTITIES <= u64::MAX,
            allocator.next == first + 1 + i * WIDTH,
            changes@ == base + floors((first + 1) as EntityId, (i * WIDTH) as nat),
        decreases HEIGHT - i,
    {
        let mut j: u32 = 0;
        while j < WIDTH
            invariant
                i < HEIGHT,
                j <= WIDTH,
                first + NUM_ENTITIES <= u64::MAX,
                allocator.next == first + 1 + i * WIDTH + j,
                changes@ == base + floors((first + 1) as EntityId, (i * WIDTH + j) as nat),
            decreases WIDTH - j,
        {
            let ghost k = (i * WIDTH + j) as int;
            let ghost before = changes@;
            let coord = Coord { x: j as i32, y: i as i32 };
            let id = allocator.allocate();
            outer_floor(changes, id, coord);
            proof {
                assert(coord == floor_coord(k)) by {
                    assert(k % 100 == j && k / 100 == i) by (nonlinear_arith)
                        requires
                            k == i * 100 + j,
                            0 <= j < 100,
                            0 <= i,
                    ;
                }
                assert(id == first + 1 + k);
                assert(changes@ =~= base + floors((first + 1) as EntityId, (k + 1) as nat));
            }
            j += 1;
        }
        i += 1;
    }
    assert(changes@ =~= old(changes)@ + generated(first));
    metadata
}

} // verus!
