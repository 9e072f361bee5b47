//! The data model: tiles, slots, levels and the world that stacks them.

use vstd::prelude::*;
use crate::util::torus::{wrap, wrap_offset};
use crate::world::entity::creature::SpeciesMap;
use crate::world::level::{flat_index, with_entity};

pub mod ambient;
pub mod entity;
pub mod gen;
pub mod level;
pub mod search;
pub mod slot_position;
pub mod tile;

pub use self::ambient::{Ambient, Biome, WaterCloseness};
pub use self::entity::creature;
pub use self::entity::{Entity, ObjectType};
pub use self::level::{Level, Slot};
pub use self::slot_position::SlotPosition;
pub use self::tile::Tile;

verus! {

/// A stack of `H` levels of side `SIZE`, the player's position and the
/// species table. Levels never refer to one another: a portal is a pair of
/// tiles at the same column and row on two levels.
pub struct World<const SIZE: usize, const H: usize> {
    pub levels: [Level<SIZE>; H],
    pub player_position: SlotPosition,
    pub species: SpeciesMap,
}

/// The slots of a stack of levels, level by level.
pub type Grid = Seq<Seq<Slot>>;

/// The slot that `position` denotes in a grid of side `size`.
pub open spec fn grid_slot(grid: Grid, size: int, position: SlotPosition) -> Slot {
    grid[position.level as int][flat_index(position.x as int, position.y as int, size)]
}

/// The grid after the occupant of one slot has been replaced.
pub open spec fn grid_set_entity(
    grid: Grid,
    size: int,
    position: SlotPosition,
    entity: Option<Entity>,
) -> Grid {
    grid.update(
        position.level as int,
        grid[position.level as int].update(
            flat_index(position.x as int, position.y as int, size),
            with_entity(grid_slot(grid, size, position), entity),
        ),
    )
}

/// The grid after the occupants of two slots, on the same level or not,
/// have traded places.
pub open spec fn grid_swap_entities(grid: Grid, size: int, a: SlotPosition, b: SlotPosition) -> Grid {
    grid_set_entity(
        grid_set_entity(grid, size, a, grid_slot(grid, size, b).entity),
        size,
        b,
        grid_slot(grid, size, a).entity,
    )
}

/// Every level has one slot for each cell of a grid of side `size`.
pub open spec fn grid_wf(grid: Grid, size: int) -> bool {
    &&& size > 0
    &&& forall|l: int| 0 <= l < grid.len() ==> (#[trigger] grid[l]).len() == size * size
}

/// After the occupants of two slots have traded places, each is where the
/// other was, the terrain is what it was, and the grid is still well-formed.
pub proof fn lemma_grid_swap_entities(grid: Grid, size: int, a: SlotPosition, b: SlotPosition)
    requires
        grid_wf(grid, size),
        a.level < grid.len(),
        b.level < grid.len(),
    ensures
        grid_wf(grid_swap_entities(grid, size, a, b), size),
        grid_swap_entities(grid, size, a, b).len() == grid.len(),
        grid_slot(grid_swap_entities(grid, size, a, b), size, b).entity == grid_slot(
            grid,
            size,
            a,
        ).entity,
        grid_slot(grid_swap_entities(grid, size, a, b), size, a).entity == grid_slot(
            grid,
            size,
            b,
        ).entity,
        forall|l: int, i: int|
            0 <= l < grid.len() && 0 <= i < size * size ==> (#[trigger] grid_swap_entities(
                grid,
                size,
                a,
                b,
            )[l][i]).tile == grid[l][i].tile,
{
    level::lemma_flat_index(wrap(a.x as int, size), wrap(a.y as int, size), size);
    level::lemma_flat_index(wrap(b.x as int, size), wrap(b.y as int, size), size);
    let after = grid_swap_entities(grid, size, a, b);
    assert forall|l: int| 0 <= l < after.len() implies (#[trigger] after[l]).len() == size * size by {}
    assert forall|l: int, i: int| 0 <= l < grid.len() && 0 <= i < size * size implies (#[trigger] after[l][i]).tile
        == grid[l][i].tile by {}
}

impl<const SIZE: usize, const H: usize> World<SIZE, H> {
    /// The grid of a world is well-formed, whatever the world.
    pub proof fn lemma_grid_wf(&self)
        requires
            SIZE > 0,
        ensures
            grid_wf(self.grid(), SIZE as int),
            self.grid().len() == H,
    {
        assert forall|l: int| 0 <= l < self.grid().len() implies (#[trigger] self.grid()[l]).len()
            == SIZE * SIZE by {
            self.levels[l].lemma_view_len();
        }
    }

    /// The slots of all levels.
    pub open spec fn grid(&self) -> Grid {
        Seq::new(H as nat, |l: int| self.levels[l]@)
    }

    /// The slot that `position` denotes; its column and row wrap around.
    pub open spec fn spec_slot_at(&self, position: SlotPosition) -> Slot {
        self.levels[position.level as int].spec_slot(position.x as int, position.y as int)
    }

    /// The position `x` columns and `y` rows away from the player, on the
    /// player's level. Both coordinates wrap around the torus, whatever the
    /// offsets are.
    pub fn position_relative_to_player(&self, x: isize, y: isize) -> (r: SlotPosition)
        requires
            SIZE > 0,
        ensures
            r.x == wrap(self.player_position.x + x, SIZE as int),
            r.y == wrap(self.player_position.y + y, SIZE as int),
            r.level == self.player_position.level,
            r.x < SIZE,
            r.y < SIZE,
    {
        SlotPosition {
            x: wrap_offset(self.player_position.x, x as i64, SIZE),
            y: wrap_offset(self.player_position.y, y as i64, SIZE),
            level: self.player_position.level,
        }
    }

    /// The slot at `position`; its column and row wrap around.
    pub fn slot_at(&self, position: &SlotPosition) -> (r: Slot)
        requires
            position.level < H,
        ensures
            r == self.spec_slot_at(*position),
            r == grid_slot(self.grid(), SIZE as int, *position),
    {
        self.levels[position.level].slot(position.x, position.y)
    }

    /// Replaces the terrain at `position`.
    pub fn set_tile_at(&mut self, position: &SlotPosition, tile: Tile)
        requires
            position.level < H,
        ensures
            final(self).grid() == old(self).grid().update(
                position.level as int,
                old(self).grid()[position.level as int].update(
                    flat_index(position.x as int, position.y as int, SIZE as int),
                    level::with_tile(old(self).spec_slot_at(*position), tile),
                ),
            ),
            final(self).player_position == old(self).player_position,
            final(self).species == old(self).species,
    {
        self.levels[position.level].set_tile(position.x, position.y, tile);
    }

    /// Replaces the occupant at `position`.
    pub fn set_entity_at(&mut self, position: &SlotPosition, entity: Option<Entity>)
        requires
            position.level < H,
        ensures
            final(self).grid() == grid_set_entity(
                old(self).grid(),
                SIZE as int,
                *position,
                entity,
            ),
            final(self).player_position == old(self).player_position,
            final(self).species == old(self).species,
    {
        self.levels[position.level].set_entity(position.x, position.y, entity);
    }

    /// Moves the player to `position`: the occupants of the player's slot
    /// and of `position` trade places, and the player's position follows.
    pub fn move_player(&mut self, position: SlotPosition)
        requires
            old(self).player_position.level < H,
            position.level < H,
        ensures
            final(self).grid() == grid_swap_entities(
                old(self).grid(),
                SIZE as int,
                old(self).player_position,
                position,
            ),
            final(self).player_position == position,
            final(self).species == old(self).species,
    {
        let old_pos = self.player_position;
        self.swap_entities(old_pos, position);
        self.player_position = position;
    }

    /// Trades the occupants of two slots, which may lie on different
    /// levels. Terrain, player position and species stay as they are.
    pub fn swap_entities(&mut self, from: SlotPosition, to: SlotPosition)
        requires
            from.level < H,
            to.level < H,
        ensures
            final(self).grid() == grid_swap_entities(old(self).grid(), SIZE as int, from, to),
            final(self).player_position == old(self).player_position,
            final(self).species == old(self).species,
    {
        let from_old = self.slot_at(&from).entity;
        let from_new = self.slot_at(&to).entity;
        self.set_entity_at(&from, from_new);
        self.set_entity_at(&to, from_old);
    }
}

} // verus!
