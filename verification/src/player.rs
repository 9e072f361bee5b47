//! The player: a world seen and walked through by one of its creatures.

use vstd::prelude::*;
use crate::life::invariants::lemma_tick_keeps_player;
use crate::life::vision::{brightness_at, look, MAX_VISION_RADIUS};
use crate::life::{spec_tick, tick, Unresolved};
use crate::util::fast_random::FastRandom;
use crate::util::torus::{lemma_wrap, wrap};
use crate::world::ambient::{survey, Ambient};
use crate::world::level::{lemma_flat_index, Slot};
use crate::world::slot_position::SlotPosition;
use crate::world::tile::Tile;
use crate::world::{grid_slot, grid_swap_entities, lemma_grid_swap_entities, Grid, World};

verus! {

/// A world together with what its player last perceived of it. The player
/// is the creature that stands at the world's player position.
pub struct Player<const SIZE: usize, const H: usize> {
    world: World<SIZE, H>,
    ambient: Ambient,
    vision: Vec<u64>,
    radius: usize,
}

/// The position `(xoff, yoff)` away from `from` on its level, around the
/// torus.
pub open spec fn neighbour_position(from: SlotPosition, xoff: int, yoff: int, size: int) -> SlotPosition {
    SlotPosition {
        x: wrap(from.x + xoff, size) as usize,
        y: wrap(from.y + yoff, size) as usize,
        level: from.level,
    }
}

/// Whether the player may step onto the slot: ground or water, and nobody
/// there.
pub open spec fn can_enter(slot: Slot) -> bool {
    (slot.tile.is_floor() || slot.tile.is_swimmable()) && slot.entity is None
}

/// Where the portal under the player, if there is one, leads.
pub open spec fn portal_exit(tile: Tile, from: SlotPosition) -> Option<SlotPosition> {
    match tile {
        Tile::GotoOverworld => Some(SlotPosition { x: from.x, y: from.y, level: 0 }),
        Tile::GotoUnderworld => Some(SlotPosition { x: from.x, y: from.y, level: 1 }),
        _ => None,
    }
}

impl<const SIZE: usize, const H: usize> Player<SIZE, H> {
    /// What a world must be like to be played: the player position lies on
    /// the grid, somebody stands there, and the radius of sight is one that
    /// `look` accepts.
    pub open spec fn playable(world: World<SIZE, H>, radius: usize) -> bool {
        &&& SIZE > 0
        &&& world.player_position.level < H
        &&& world.player_position.x < SIZE
        &&& world.player_position.y < SIZE
        &&& radius <= MAX_VISION_RADIUS
        &&& world.spec_slot_at(world.player_position).entity is Some
    }

    /// What every player is like: its world is playable.
    pub open spec fn wf(&self) -> bool {
        Self::playable(self.spec_world(), self.spec_radius())
    }

    /// The world being played.
    pub closed spec fn spec_world(&self) -> World<SIZE, H> {
        self.world
    }

    /// How far the player sees.
    pub closed spec fn spec_radius(&self) -> usize {
        self.radius
    }

    /// The surroundings as last surveyed.
    pub closed spec fn spec_ambient(&self) -> Ambient {
        self.ambient
    }

    /// The vision grid as last computed.
    pub closed spec fn spec_vision(&self) -> Seq<u64> {
        self.vision@
    }

    /// The player's position.
    pub open spec fn position(&self) -> SlotPosition {
        self.spec_world().player_position
    }

    /// The slots of the world being played.
    pub open spec fn grid(&self) -> Grid {
        self.spec_world().grid()
    }

    /// Whether `world` can be played with the given radius of sight.
    pub fn accepts(world: &World<SIZE, H>, radius: usize) -> (r: bool)
        ensures
            r == Self::playable(*world, radius),
    {
        if SIZE > 0 && world.player_position.level < H && world.player_position.x < SIZE
            && world.player_position.y < SIZE && radius <= MAX_VISION_RADIUS {
            world.slot_at(&world.player_position).entity.is_some()
        } else {
            false
        }
    }

    /// Takes over `world` and perceives it for the first time.
    pub fn new(world: World<SIZE, H>, radius: usize) -> (r: Self)
        requires
            Self::playable(world, radius),
        ensures
            r.wf(),
            r.spec_world() == world,
            r.spec_radius() == radius,
            r.perceives(world),
    {
        let pos = world.player_position;
        let ambient = world.get_ambient_at(&pos, radius);
        let vision = look(&world.levels[pos.level], pos.x, pos.y, radius);
        Self { world, ambient, vision, radius }
    }

    /// Whether what the player perceives is what `world` looks like from
    /// its player position.
    pub open spec fn perceives(&self, world: World<SIZE, H>) -> bool {
        let pos = world.player_position;
        let slots = world.levels[pos.level as int]@;
        &&& self.spec_ambient().biome == survey(
            slots,
            SIZE as int,
            pos.x as int,
            pos.y as int,
            self.spec_radius() as nat,
        )
        &&& self.spec_vision().len() == (2 * self.spec_radius() + 1) * (2 * self.spec_radius()
            + 1)
        &&& forall|k: int|
            0 <= k < self.spec_vision().len() ==> (#[trigger] self.spec_vision()[k])
                == brightness_at(
                slots,
                SIZE as int,
                pos.x as int,
                pos.y as int,
                self.spec_radius() as int,
                k,
            )
    }

    /// The world being played.
    pub fn world(&self) -> (r: &World<SIZE, H>)
        ensures
            *r == self.spec_world(),
    {
        &self.world
    }

    /// The surroundings as last surveyed.
    pub fn ambient(&self) -> (r: Ambient)
        ensures
            r == self.spec_ambient(),
    {
        self.ambient
    }

    /// The vision grid as last computed, in units of one over the radius
    /// times `VISION_UNITS`.
    pub fn vision(&self) -> (r: &Vec<u64>)
        ensures
            r@ == self.spec_vision(),
    {
        &self.vision
    }

    /// How far the player sees.
    pub fn radius(&self) -> (r: usize)
        ensures
            r == self.spec_radius(),
    {
        self.radius
    }

    /// Steps to the cell `(xoff, yoff)` away if the player may enter it.
    fn try_tp(&mut self, xoff: isize, yoff: isize) -> (r: bool)
        requires
            old(self).wf(),
        ensures
            final(self).wf(),
            r == can_enter(
                grid_slot(
                    old(self).grid(),
                    SIZE as int,
                    neighbour_position(old(self).position(), xoff as int, yoff as int, SIZE as int),
                ),
            ),
            final(self).grid() == (if r {
                grid_swap_entities(
                    old(self).grid(),
                    SIZE as int,
                    old(self).position(),
                    neighbour_position(old(self).position(), xoff as int, yoff as int, SIZE as int),
                )
            } else {
                old(self).grid()
            }),
            final(self).position() == (if r {
                neighbour_position(old(self).position(), xoff as int, yoff as int, SIZE as int)
            } else {
                old(self).position()
            }),
            final(self).spec_world().species == old(self).spec_world().species,
            final(self).spec_ambient() == old(self).spec_ambient(),
            final(self).spec_vision() == old(self).spec_vision(),
            final(self).spec_radius() == old(self).spec_radius(),
    {
        let new_pos = self.world.position_relative_to_player(xoff, yoff);
        let next_slot = self.world.slot_at(&new_pos);
        if (next_slot.tile.is_floor() || next_slot.tile.is_swimmable()) && next_slot.entity.is_none() {
            proof {
                self.world.lemma_grid_wf();
                lemma_grid_swap_entities(
                    self.world.grid(),
                    SIZE as int,
                    self.world.player_position,
                    new_pos,
                );
            }
            self.world.move_player(new_pos);
            true
        } else {
            false
        }
    }

    /// Steps one row up if the cell there is ground or water and free.
    pub fn step_up(&mut self) -> (r: bool)
        requires
            old(self).wf(),
        ensures
            final(self).wf(),
            final(self).stepped(*old(self), 0, -1, r),
    {
        self.try_tp(0, -1)
    }

    /// Steps one row down if the cell there is ground or water and free.
    pub fn step_down(&mut self) -> (r: bool)
        requires
            old(self).wf(),
        ensures
            final(self).wf(),
            final(self).stepped(*old(self), 0, 1, r),
    {
        self.try_tp(0, 1)
    }

    /// Steps one column to the left if the cell there is ground or water
    /// and free.
    pub fn step_left(&mut self) -> (r: bool)
        requires
            old(self).wf(),
        ensures
            final(self).wf(),
            final(self).stepped(*old(self), -1, 0, r),
    {
        self.try_tp(-1, 0)
    }

    /// Steps one column to the right if the cell there is ground or water
    /// and free.
    pub fn step_right(&mut self) -> (r: bool)
        requires
            old(self).wf(),
        ensures
            final(self).wf(),
            final(self).stepped(*old(self), 1, 0, r),
    {
        self.try_tp(1, 0)
    }

    /// What relates a player after an attempted step by `(xoff, yoff)` to
    /// the player before it, `moved` telling whether the step was made. The
    /// step is made exactly if the cell aimed at may be entered. Then the
    /// player and the nobody on that cell trade places; else nothing changes.
    /// What the player perceives is not refreshed by a step.
    pub open spec fn stepped(&self, before: Self, xoff: int, yoff: int, moved: bool) -> bool {
        let to = neighbour_position(before.position(), xoff, yoff, SIZE as int);
        &&& moved == can_enter(grid_slot(before.grid(), SIZE as int, to))
        &&& self.grid() == (if moved {
            grid_swap_entities(before.grid(), SIZE as int, before.position(), to)
        } else {
            before.grid()
        })
        &&& self.position() == (if moved {
            to
        } else {
            before.position()
        })
        &&& self.spec_world().species == before.spec_world().species
        &&& self.spec_ambient() == before.spec_ambient()
        &&& self.spec_vision() == before.spec_vision()
        &&& self.spec_radius() == before.spec_radius()
    }

    /// Goes through the portal the player stands on, if any: the player
    /// arrives at the same column and row of the other level, and whoever
    /// stood there comes back in exchange. Returns whether there was a portal.
    /// The level that the portal leads to must be one of the world's.
    pub fn try_enter(&mut self) -> (r: bool)
        requires
            old(self).wf(),
            portal_exit(
                grid_slot(old(self).grid(), SIZE as int, old(self).position()).tile,
                old(self).position(),
            ) matches Some(exit) ==> exit.level < H,
        ensures
            final(self).wf(),
            r == (portal_exit(
                grid_slot(old(self).grid(), SIZE as int, old(self).position()).tile,
                old(self).position(),
            ) is Some),
            portal_exit(
                grid_slot(old(self).grid(), SIZE as int, old(self).position()).tile,
                old(self).position(),
            ) matches Some(exit) ==> final(self).grid() == grid_swap_entities(
                old(self).grid(),
                SIZE as int,
                old(self).position(),
                exit,
            ) && final(self).position() == exit,
            !r ==> final(self).grid() == old(self).grid() && final(self).position() == old(
                self,
            ).position(),
            final(self).spec_world().species == old(self).spec_world().species,
            final(self).spec_ambient() == old(self).spec_ambient(),
            final(self).spec_vision() == old(self).spec_vision(),
            final(self).spec_radius() == old(self).spec_radius(),
    {
        let old_pos = self.world.player_position;
        let tile = self.world.slot_at(&old_pos).tile;
        let exit = match tile {
            Tile::GotoOverworld => old_pos.to_level(0),
            Tile::GotoUnderworld => old_pos.to_level(1),
            _ => {
                return false;
            },
        };
        proof {
            self.world.lemma_grid_wf();
            lemma_grid_swap_entities(self.world.grid(), SIZE as int, old_pos, exit);
        }
        self.world.move_player(exit);
        true
    }

    /// Refreshes what the player perceives, then advances the world by one
    /// tick with the given generator.
    pub fn tick_with(&mut self, random: &mut FastRandom) -> (r: Result<(), Unresolved>)
        requires
            old(self).wf(),
        ensures
            final(self).wf(),
            final(self).perceives(old(self).spec_world()),
            final(self).spec_radius() == old(self).spec_radius(),
            final(self).position() == old(self).position(),
            final(self).spec_world().species == old(self).spec_world().species,
            final(self).grid() == spec_tick(
                old(self).grid(),
                SIZE as int,
                old(random)@,
                old(self).position(),
                H as nat,
            ).grid,
            final(random)@ == spec_tick(
                old(self).grid(),
                SIZE as int,
                old(random)@,
                old(self).position(),
                H as nat,
            ).seed,
            r == (match spec_tick(
                old(self).grid(),
                SIZE as int,
                old(random)@,
                old(self).position(),
                H as nat,
            ).halt {
                Some(u) => Err::<(), Unresolved>(u),
                None => Ok(()),
            }),
    {
        let pos = self.world.player_position;
        self.ambient = self.world.get_ambient_at(&pos, self.radius);
        self.vision = look(&self.world.levels[pos.level], pos.x, pos.y, self.radius);
        proof {
            self.world.lemma_grid_wf();
            lemma_wrap(pos.x as int, SIZE as int);
            lemma_wrap(pos.y as int, SIZE as int);
            lemma_tick_keeps_player(self.world.grid(), SIZE as int, random@, pos);
        }
        tick(&mut self.world, random)
    }

    /// Refreshes what the player perceives, then advances the world by one
    /// tick with a generator seeded from the clock. The outcome is that of
    /// `tick_with` for some generator state.
    pub fn tick(&mut self) -> (r: Result<(), Unresolved>)
        requires
            old(self).wf(),
        ensures
            final(self).wf(),
            final(self).perceives(old(self).spec_world()),
            final(self).spec_radius() == old(self).spec_radius(),
            final(self).position() == old(self).position(),
            final(self).spec_world().species == old(self).spec_world().species,
            exists|seed: u64|
                {
                    &&& final(self).grid() == (#[trigger] spec_tick(
                        old(self).grid(),
                        SIZE as int,
                        seed,
                        old(self).position(),
                        H as nat,
                    )).grid
                    &&& r == (match spec_tick(
                        old(self).grid(),
                        SIZE as int,
                        seed,
                        old(self).position(),
                        H as nat,
                    ).halt {
                        Some(u) => Err::<(), Unresolved>(u),
                        None => Ok(()),
                    })
                },
    {
        let mut random = FastRandom::new_from_sys_time();
        let ghost seed = random@;
        let r = self.tick_with(&mut random);
        r
    }
}

/// A step that is made ends on ground or water that nobody occupied: the
/// player arrives there, the terrain stays as it was, and the slot that the
/// player left is empty.
pub proof fn lemma_step_lands_on_walkable<const SIZE: usize, const H: usize>(
    before: Player<SIZE, H>,
    after: Player<SIZE, H>,
    xoff: int,
    yoff: int,
)
    requires
        before.wf(),
        after.stepped(before, xoff, yoff, true),
    ensures
        grid_slot(after.grid(), SIZE as int, after.position()).tile.is_floor() || grid_slot(
            after.grid(),
            SIZE as int,
            after.position(),
        ).tile.is_swimmable(),
        grid_slot(after.grid(), SIZE as int, after.position()).entity == grid_slot(
            before.grid(),
            SIZE as int,
            before.position(),
        ).entity,
        grid_slot(after.grid(), SIZE as int, before.position()).entity is None,
        after.position().level == before.position().level,
        after.position().x < SIZE,
        after.position().y < SIZE,
{
    let to = neighbour_position(before.position(), xoff, yoff, SIZE as int);
    before.spec_world().lemma_grid_wf();
    lemma_grid_swap_entities(before.grid(), SIZE as int, before.position(), to);
    lemma_wrap(before.position().x + xoff, SIZE as int);
    lemma_flat_index(to.x as int, to.y as int, SIZE as int);
}

} // verus!
