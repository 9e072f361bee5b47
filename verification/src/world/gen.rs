//! World generation: the two levels, the portals between them, and life.

use vstd::prelude::*;
use crate::life::invariants::{is_creature, standing};
use crate::util::fast_random::{xorshift, FastRandom};
use crate::util::torus::lemma_wrap;
use crate::world::ambient::Ambient;
use crate::world::entity::creature::species::spawn;
use crate::world::entity::creature::{
    base_creature_from_species, creature_from_species, Creature, SpeciesID, SpeciesMap,
    SpeciesTemplate,
};
use crate::world::entity::Entity;
use crate::world::gen::overworld::{
    biome_overworld, generate_biomes, generate_overworld, lemma_biome_overworld_no_portals,
    lemma_overworld_no_portals, overworld, Climate, Height,
};
use crate::world::gen::underworld::{
    generate_underworld, lemma_underworld_no_portals, underworld, CaveCell,
};
use crate::world::level::{
    deserted, lemma_flat_index, lemma_sample_cell_accepted, no_portals, sample_cell, with_entity,
    with_tile, CellFilter, Level, Slot,
};
use crate::world::slot_position::SlotPosition;
use crate::world::tile::Tile;
use crate::world::{Grid, World};

pub mod carve;
pub mod open_simplex_tileable_3d;
pub mod overworld;
pub mod underworld;

verus! {

/// How many cells a random search for a cell rejects before it gives up.
pub const SAMPLE_ATTEMPTS: usize = 0x1_0000;

/// How often something is done that is done about once for every square of
/// `sparseness` cells of a level of side `size`: the side is divided by the
/// sparseness, multiplied by the side and divided by the sparseness again,
/// each division rounding down.
pub open spec fn repeat_count(size: int, sparseness: int) -> nat {
    (size / sparseness * size / sparseness) as nat
}

/// How often something is done that is done about once for every square of
/// `sparseness` cells.
pub fn repeats<const SIZE: usize>(sparseness: usize) -> (r: usize)
    requires
        sparseness > 0,
        SIZE * SIZE <= usize::MAX,
    ensures
        r == repeat_count(SIZE as int, sparseness as int),
{
    proof {
        assert(0 <= (SIZE as int / sparseness as int) * SIZE <= SIZE * SIZE) by (nonlinear_arith)
            requires
                sparseness > 0,
                SIZE >= 0,
        ;
        assert((SIZE as int / sparseness as int) * SIZE / (sparseness as int) >= 0)
            by (nonlinear_arith)
            requires
                (SIZE as int / sparseness as int) * SIZE >= 0,
                sparseness > 0,
        ;
    }
    SIZE / sparseness * SIZE / sparseness
}

/// The side of the quadrants that the dungeons of a world are laid out in.
pub const QUADRANT_SIZE: usize = 32;

/// How wide the surroundings are that decide what creature appears at a
/// place.
pub const SPAWN_SURVEY_RADIUS: usize = 12;

/// The species of every creature of the wild.
pub const WILD_SPECIES: u64 = 0;

/// What portal placement threads through its attempts: the slots of the
/// overworld and of the underworld, and the generator.
pub struct Portals {
    pub over: Seq<Slot>,
    pub under: Seq<Slot>,
    pub seed: u64,
}

/// The state after one attempt at a portal: a column and a row are drawn,
/// and if the cell is walkable ground on both levels, it becomes a portal
/// down in the overworld and a portal up in the underworld.
pub open spec fn portal_attempt(state: Portals, size: int) -> Portals {
    let sx = xorshift(state.seed);
    let sy = xorshift(sx);
    let i = (sx as int % size) * size + sy as int % size;
    if state.over[i].tile.is_floor() && state.under[i].tile.is_floor() {
        Portals {
            over: state.over.update(i, with_tile(state.over[i], Tile::GotoUnderworld)),
            under: state.under.update(i, with_tile(state.under[i], Tile::GotoOverworld)),
            seed: sy,
        }
    } else {
        Portals { over: state.over, under: state.under, seed: sy }
    }
}

/// The state after `n` attempts at a portal.
pub open spec fn portals_placed(state: Portals, size: int, n: nat) -> Portals
    decreases n,
{
    if n == 0 {
        state
    } else {
        portal_attempt(portals_placed(state, size, (n - 1) as nat), size)
    }
}

/// The slots of the world of side `size` that is put together from the
/// given overworld for `seed`, overworld first: the underworld is generated,
/// and one portal is attempted for every square of thirty-two cells with a
/// generator that starts from `seed` less one.
pub open spec fn assembled(size: int, seed: u64, over: Seq<Slot>, caves: Seq<CaveCell>) -> Grid {
    let linked = portals_placed(
        Portals {
            over,
            under: underworld(size, seed, QUADRANT_SIZE as int, caves).slots,
            seed: seed.wrapping_sub(1),
        },
        size,
        repeat_count(size, 32),
    );
    seq![linked.over, linked.under]
}

/// The slots of the world of side `size` generated from `seed`, with a
/// barren overworld laid out by height.
pub open spec fn generated(size: int, seed: u64, heights: Seq<Height>, caves: Seq<CaveCell>) -> Grid {
    assembled(size, seed, overworld(size, seed, heights), caves)
}

/// The slots of the world of side `size` generated from `seed`, with an
/// overworld of biomes laid out by climate.
pub open spec fn generated_with_biomes(
    size: int,
    seed: u64,
    climates: Seq<Climate>,
    caves: Seq<CaveCell>,
) -> Grid {
    assembled(size, seed, biome_overworld(size, seed, climates), caves)
}

/// Places the portals between two levels: one attempt for every square of
/// thirty-two cells, at random cells. Whether any attempt succeeds is left to
/// chance.
pub fn place_portals<const SIZE: usize>(
    random: &mut FastRandom,
    overworld: &mut Level<SIZE>,
    dungeon: &mut Level<SIZE>,
)
    ensures
        (Portals { over: final(overworld)@, under: final(dungeon)@, seed: final(random)@ })
            == portals_placed(
            Portals { over: old(overworld)@, under: old(dungeon)@, seed: old(random)@ },
            SIZE as int,
            repeat_count(SIZE as int, 32),
        ),
{
    proof {
        use_type_invariant(&*overworld);
        overworld.lemma_inv();
    }
    let count: usize = repeats::<SIZE>(32);
    let ghost start = Portals { over: overworld@, under: dungeon@, seed: random@ };
    let mut n: usize = 0;
    while n < count
        invariant
            n <= count,
            SIZE > 0,
            (Portals { over: overworld@, under: dungeon@, seed: random@ }) == portals_placed(
                start,
                SIZE as int,
                n as nat,
            ),
        decreases count - n,
    {
        let x: usize = random.next_less_than(SIZE as u64) as usize;
        let y: usize = random.next_less_than(SIZE as u64) as usize;
        proof {
            lemma_wrap(x as int, SIZE as int);
            lemma_wrap(y as int, SIZE as int);
        }
        if overworld.tile(x, y).is_floor() && dungeon.tile(x, y).is_floor() {
            overworld.set_tile(x, y, Tile::GotoUnderworld);
            dungeon.set_tile(x, y, Tile::GotoOverworld);
        }
        n += 1;
    }
}

/// Chooses and builds the creature that appears in the given surroundings.
/// For now every place brings forth the same species, whatever it is like.
pub fn generate_creature(species: &SpeciesMap, random: &mut FastRandom, ambient: &Ambient) -> (r:
    Creature)
    requires
        species@.contains_key(WILD_SPECIES),
    ensures
        r == spawn(species@[WILD_SPECIES], SpeciesID(WILD_SPECIES)),
        final(random)@ == old(random)@,
{
    creature_from_species(random, species, SpeciesID(WILD_SPECIES))
}

/// What seeding a population threads through its attempts: the slots of the
/// level and the generator.
pub struct Seeding {
    pub slots: Seq<Slot>,
    pub seed: u64,
}

/// The state after one attempt to put `creature` on a level: a free floor
/// cell is sampled, and the creature is put there if one is found.
pub open spec fn settle(state: Seeding, size: int, creature: Creature) -> Seeding {
    let found = sample_cell(
        state.slots,
        size,
        state.seed,
        SAMPLE_ATTEMPTS as nat,
        CellFilter::FreeFloor,
    );
    match found.0 {
        Some(c) => Seeding {
            slots: state.slots.update(
                c.0 * size + c.1,
                with_entity(state.slots[c.0 * size + c.1], Some(Entity::Creature(creature))),
            ),
            seed: found.1,
        },
        None => Seeding { slots: state.slots, seed: found.1 },
    }
}

/// The state after `n` attempts to put `creature` on a level.
pub open spec fn settled(state: Seeding, size: int, creature: Creature, n: nat) -> Seeding
    decreases n,
{
    if n == 0 {
        state
    } else {
        settle(settled(state, size, creature, (n - 1) as nat), size, creature)
    }
}

/// What life does to a world of two levels of side `size`.
pub struct Life {
    pub grid: Grid,
    pub player: Option<(int, int)>,
}

/// The outcome of creating life: on the overworld and then on the
/// underworld, one creature of the wild is put on a free floor cell for every
/// square of sixteen cells; then the player is put on a free floor cell of the
/// underworld, if one is found. The generator starts from `seed` less two.
pub open spec fn life_created(
    grid: Grid,
    size: int,
    seed: u64,
    wild: SpeciesTemplate,
    player: SpeciesTemplate,
    player_id: SpeciesID,
) -> Life {
    let creature = spawn(wild, SpeciesID(WILD_SPECIES));
    let over = settled(
        Seeding { slots: grid[0], seed: seed.wrapping_sub(2) },
        size,
        creature,
        repeat_count(size, 16),
    );
    let under = settled(
        Seeding { slots: grid[1], seed: over.seed },
        size,
        creature,
        repeat_count(size, 16),
    );
    let home = settle(under, size, spawn(player, player_id));
    let found = sample_cell(
        under.slots,
        size,
        under.seed,
        SAMPLE_ATTEMPTS as nat,
        CellFilter::FreeFloor,
    ).0;
    Life { grid: seq![over.slots, home.slots], player: found }
}

/// Puts one creature of the wild on the level for every square of sixteen
/// cells.
fn settle_level<const SIZE: usize>(level: &mut Level<SIZE>, random: &mut FastRandom, species: &SpeciesMap)
    requires
        species@.contains_key(WILD_SPECIES),
    ensures
        (Seeding { slots: final(level)@, seed: final(random)@ }) == settled(
            Seeding { slots: old(level)@, seed: old(random)@ },
            SIZE as int,
            spawn(species@[WILD_SPECIES], SpeciesID(WILD_SPECIES)),
            repeat_count(SIZE as int, 16),
        ),
{
    proof {
        use_type_invariant(&*level);
        level.lemma_inv();
    }
    let count: usize = repeats::<SIZE>(16);
    let ghost start = Seeding { slots: level@, seed: random@ };
    let mut n: usize = 0;
    while n < count
        invariant
            n <= count,
            SIZE > 0,
            species@.contains_key(WILD_SPECIES),
            (Seeding { slots: level@, seed: random@ }) == settled(
                start,
                SIZE as int,
                spawn(species@[WILD_SPECIES], SpeciesID(WILD_SPECIES)),
                n as nat,
            ),
        decreases count - n,
    {
        match level.find_floor(random, SAMPLE_ATTEMPTS) {
            Some(f) => {
                let ambient = level.get_ambient_at(f.0, f.1, SPAWN_SURVEY_RADIUS);
                let creature = generate_creature(species, random, &ambient);
                proof {
                    lemma_wrap(f.0 as int, SIZE as int);
                    lemma_wrap(f.1 as int, SIZE as int);
                }
                level.set_entity(f.0, f.1, Some(Entity::Creature(creature)));
            },
            None => {},
        }
        n += 1;
    }
}

impl<const SIZE: usize> World<SIZE, 2> {
    /// Puts a world together from an overworld: generates the underworld,
    /// places the portals, and leaves the player position at the origin of
    /// the overworld and the species table empty.
    fn assemble(seed: u64, overworld: Level<SIZE>, caves: &Vec<CaveCell>) -> (world: Self)
        requires
            SIZE > 0,
            SIZE * SIZE <= usize::MAX,
            caves@.len() == SIZE * SIZE,
        ensures
            world.grid() == assembled(SIZE as int, seed, overworld@, caves@),
            world.player_position == (SlotPosition { x: 0, y: 0, level: 0 }),
            world.species@ == Map::<u64, SpeciesTemplate>::empty(),
    {
        let mut overworld = overworld;
        let (mut underworld, _rooms) = generate_underworld::<SIZE>(seed, QUADRANT_SIZE, caves);
        let mut random = FastRandom::new(seed.wrapping_sub(1));
        place_portals(&mut random, &mut overworld, &mut underworld);
        let world = Self {
            levels: [overworld, underworld],
            player_position: SlotPosition { x: 0, y: 0, level: 0 },
            species: SpeciesMap::new(),
        };
        world
    }

    /// Generates a world of two levels from `seed` and from the height
    /// classes and the cave field that the noise gives for it. The overworld
    /// is barren and has rivers. The player position is the origin of the
    /// overworld and the species table is empty until life is created.
    pub fn generate(seed: u64, heights: &Vec<Height>, caves: &Vec<CaveCell>) -> (world: Self)
        requires
            SIZE > 0,
            SIZE * SIZE <= usize::MAX,
            heights@.len() == SIZE * SIZE,
            caves@.len() == SIZE * SIZE,
        ensures
            world.grid() == generated(SIZE as int, seed, heights@, caves@),
            world.player_position == (SlotPosition { x: 0, y: 0, level: 0 }),
            world.species@ == Map::<u64, SpeciesTemplate>::empty(),
    {
        let overworld = generate_overworld::<SIZE>(seed, heights);
        Self::assemble(seed, overworld, caves)
    }

    /// Generates a world of two levels from `seed` and from the climates and
    /// the cave field that the noise gives for it. The overworld has biomes.
    /// The player position is the origin of the overworld and the species
    /// table is empty until life is created.
    pub fn generate_with_biomes(seed: u64, climates: &Vec<Climate>, caves: &Vec<CaveCell>) -> (world:
        Self)
        requires
            SIZE > 0,
            SIZE * SIZE <= usize::MAX,
            climates@.len() == SIZE * SIZE,
            caves@.len() == SIZE * SIZE,
        ensures
            world.grid() == generated_with_biomes(SIZE as int, seed, climates@, caves@),
            world.player_position == (SlotPosition { x: 0, y: 0, level: 0 }),
            world.species@ == Map::<u64, SpeciesTemplate>::empty(),
    {
        let overworld = generate_biomes::<SIZE>(seed, climates);
        Self::assemble(seed, overworld, caves)
    }

    /// Creates life: seeds both levels with creatures of the wild, puts the
    /// player on the underworld and takes over the species table. Returns
    /// whether a place was found for the player; if none was, the player
    /// position stays as it is.
    pub fn create_life(&mut self, seed: u64, species: SpeciesMap, player_species: SpeciesID) -> (r:
        bool)
        requires
            species@.contains_key(WILD_SPECIES),
            species@.contains_key(player_species.0),
        ensures
            final(self).grid() == life_created(
                old(self).grid(),
                SIZE as int,
                seed,
                species@[WILD_SPECIES],
                species@[player_species.0],
                player_species,
            ).grid,
            r == (life_created(
                old(self).grid(),
                SIZE as int,
                seed,
                species@[WILD_SPECIES],
                species@[player_species.0],
                player_species,
            ).player is Some),
            final(self).player_position == (match life_created(
                old(self).grid(),
                SIZE as int,
                seed,
                species@[WILD_SPECIES],
                species@[player_species.0],
                player_species,
            ).player {
                Some(c) => SlotPosition { x: c.0 as usize, y: c.1 as usize, level: 1 },
                None => old(self).player_position,
            }),
            final(self).species == species,
    {
        let mut random = FastRandom::new(seed.wrapping_sub(2));
        settle_level(&mut self.levels[0], &mut random, &species);
        settle_level(&mut self.levels[1], &mut random, &species);
        let found = self.levels[1].find_floor(&mut random, SAMPLE_ATTEMPTS);
        let placed = match found {
            Some(player_xy) => {
                let player_position = SlotPosition { x: player_xy.0, y: player_xy.1, level: 1 };
                let player = base_creature_from_species(&species, player_species);
                proof {
                    lemma_wrap(player_xy.0 as int, SIZE as int);
                    lemma_wrap(player_xy.1 as int, SIZE as int);
                }
                self.levels[1].set_entity(player_xy.0, player_xy.1, Some(Entity::Creature(player)));
                self.player_position = player_position;
                true
            },
            None => false,
        };
        self.species = species;
        placed
    }
}

/// Generation is a function of the seed and the fields: whatever two runs of
/// `generate` on the same arguments return has the same slots on both levels,
/// the same player position and the same, empty, species table.
pub proof fn lemma_generation_deterministic<const SIZE: usize>(
    first: World<SIZE, 2>,
    second: World<SIZE, 2>,
    seed: u64,
    heights: Seq<Height>,
    caves: Seq<CaveCell>,
)
    requires
        first.grid() == generated(SIZE as int, seed, heights, caves),
        first.player_position == (SlotPosition { x: 0, y: 0, level: 0 }),
        first.species@ == Map::<u64, SpeciesTemplate>::empty(),
        second.grid() == generated(SIZE as int, seed, heights, caves),
        second.player_position == (SlotPosition { x: 0, y: 0, level: 0 }),
        second.species@ == Map::<u64, SpeciesTemplate>::empty(),
    ensures
        first.grid() == second.grid(),
        forall|l: int| 0 <= l < 2 ==> first.levels[l]@ == second.levels[l]@,
        first.player_position == second.player_position,
        first.species@ == second.species@,
{
    assert forall|l: int| 0 <= l < 2 implies first.levels[l]@ == second.levels[l]@ by {}
}

/// Portals come in pairs: a cell leads down from the overworld exactly if
/// the same cell leads up from the underworld, and no portal lies on the
/// wrong level.
pub open spec fn paired(over: Seq<Slot>, under: Seq<Slot>) -> bool {
    &&& over.len() == under.len()
    &&& forall|i: int|
        0 <= i < over.len() ==> {
            &&& ((#[trigger] over[i]).tile == Tile::GotoUnderworld) == (under[i].tile
                == Tile::GotoOverworld)
            &&& over[i].tile != Tile::GotoOverworld
            &&& under[i].tile != Tile::GotoUnderworld
        }
}

/// Placing portals keeps portals paired.
pub proof fn lemma_portals_placed_paired(state: Portals, size: int, n: nat)
    requires
        size > 0,
        state.over.len() == size * size,
        paired(state.over, state.under),
    ensures
        portals_placed(state, size, n).over.len() == size * size,
        paired(portals_placed(state, size, n).over, portals_placed(state, size, n).under),
    decreases n,
{
    if n > 0 {
        let before = portals_placed(state, size, (n - 1) as nat);
        lemma_portals_placed_paired(state, size, (n - 1) as nat);
        let sx = xorshift(before.seed);
        let sy = xorshift(sx);
        lemma_flat_index(sx as int % size, sy as int % size, size);
        let after = portal_attempt(before, size);
        assert forall|i: int| 0 <= i < after.over.len() implies {
            &&& ((#[trigger] after.over[i]).tile == Tile::GotoUnderworld) == (after.under[i].tile
                == Tile::GotoOverworld)
            &&& after.over[i].tile != Tile::GotoOverworld
            &&& after.under[i].tile != Tile::GotoUnderworld
        } by {}
    }
}

/// In a world put together from an overworld without portals, every
/// portal down has its portal up at the same column and row of the other
/// level, and the other way round.
pub proof fn lemma_assembled_portals_paired(size: int, seed: u64, over: Seq<Slot>, caves: Seq<CaveCell>)
    requires
        size > 0,
        over.len() == size * size,
        no_portals(over),
    ensures
        assembled(size, seed, over, caves).len() == 2,
        assembled(size, seed, over, caves)[0].len() == size * size,
        assembled(size, seed, over, caves)[1].len() == size * size,
        paired(assembled(size, seed, over, caves)[0], assembled(size, seed, over, caves)[1]),
{
    let under = underworld(size, seed, QUADRANT_SIZE as int, caves).slots;
    lemma_underworld_no_portals(size, seed, QUADRANT_SIZE as int, caves);
    assert(paired(over, under)) by {
        assert forall|i: int| 0 <= i < over.len() implies {
            &&& ((#[trigger] over[i]).tile == Tile::GotoUnderworld) == (under[i].tile
                == Tile::GotoOverworld)
            &&& over[i].tile != Tile::GotoOverworld
            &&& under[i].tile != Tile::GotoUnderworld
        } by {}
    }
    lemma_portals_placed_paired(
        Portals { over, under, seed: seed.wrapping_sub(1) },
        size,
        repeat_count(size, 32),
    );
}

/// In a generated world, barren or with biomes, portals come in pairs.
pub proof fn lemma_generated_portals_paired(
    size: int,
    seed: u64,
    heights: Seq<Height>,
    climates: Seq<Climate>,
    caves: Seq<CaveCell>,
)
    requires
        size > 0,
    ensures
        paired(generated(size, seed, heights, caves)[0], generated(size, seed, heights, caves)[1]),
        paired(
            generated_with_biomes(size, seed, climates, caves)[0],
            generated_with_biomes(size, seed, climates, caves)[1],
        ),
{
    lemma_overworld_no_portals(size, seed, heights);
    lemma_assembled_portals_paired(size, seed, overworld(size, seed, heights), caves);
    lemma_biome_overworld_no_portals(size, seed, climates);
    lemma_assembled_portals_paired(size, seed, biome_overworld(size, seed, climates), caves);
}

/// Whether the slot holds a portal down, as a number.
pub open spec fn leads_down(slot: Slot) -> nat {
    if slot.tile == Tile::GotoUnderworld {
        1
    } else {
        0
    }
}

/// The number of portals down among the slots.
pub open spec fn portals_down(slots: Seq<Slot>) -> nat
    decreases slots.len(),
{
    if slots.len() == 0 {
        0
    } else {
        portals_down(slots.drop_last()) + leads_down(slots.last())
    }
}

/// Replacing one slot changes the number of portals down by the difference
/// between the two slots.
pub proof fn lemma_portals_down_update(slots: Seq<Slot>, i: int, slot: Slot)
    requires
        0 <= i < slots.len(),
    ensures
        portals_down(slots.update(i, slot)) + leads_down(slots[i]) == portals_down(slots)
            + leads_down(slot),
    decreases slots.len(),
{
    let updated = slots.update(i, slot);
    if i == slots.len() - 1 {
        assert(updated.drop_last() =~= slots.drop_last());
    } else {
        assert(updated.drop_last() =~= slots.drop_last().update(i, slot));
        lemma_portals_down_update(slots.drop_last(), i, slot);
    }
}

/// Where there is no portal, no portal leads down.
pub proof fn lemma_no_portals_down(slots: Seq<Slot>)
    requires
        no_portals(slots),
    ensures
        portals_down(slots) == 0,
    decreases slots.len(),
{
    if slots.len() > 0 {
        assert(!slots[slots.len() - 1].tile.is_portal());
        lemma_no_portals_down(slots.drop_last());
    }
}

/// Every attempt at a portal makes at most one: after `n` attempts there
/// are at most `n` more portals down than before.
pub proof fn lemma_portals_placed_count(state: Portals, size: int, n: nat)
    requires
        size > 0,
        state.over.len() == size * size,
    ensures
        portals_placed(state, size, n).over.len() == size * size,
        portals_down(portals_placed(state, size, n).over) <= portals_down(state.over) + n,
    decreases n,
{
    if n > 0 {
        let before = portals_placed(state, size, (n - 1) as nat);
        lemma_portals_placed_count(state, size, (n - 1) as nat);
        let sx = xorshift(before.seed);
        let sy = xorshift(sx);
        lemma_flat_index(sx as int % size, sy as int % size, size);
        let i = (sx as int % size) * size + sy as int % size;
        lemma_portals_down_update(before.over, i, with_tile(before.over[i], Tile::GotoUnderworld));
    }
}

/// A generated world, barren or with biomes, has at most one pair of
/// portals for every square of thirty-two cells: no more portals lead down
/// from the overworld than portals were attempted.
pub proof fn lemma_generated_portal_count(
    size: int,
    seed: u64,
    heights: Seq<Height>,
    climates: Seq<Climate>,
    caves: Seq<CaveCell>,
)
    requires
        size > 0,
    ensures
        portals_down(generated(size, seed, heights, caves)[0]) <= repeat_count(size, 32),
        portals_down(generated_with_biomes(size, seed, climates, caves)[0]) <= repeat_count(
            size,
            32,
        ),
{
    let under = underworld(size, seed, QUADRANT_SIZE as int, caves).slots;
    let barren = overworld(size, seed, heights);
    lemma_overworld_no_portals(size, seed, heights);
    lemma_no_portals_down(barren);
    lemma_portals_placed_count(
        Portals { over: barren, under, seed: seed.wrapping_sub(1) },
        size,
        repeat_count(size, 32),
    );
    let lush = biome_overworld(size, seed, climates);
    lemma_biome_overworld_no_portals(size, seed, climates);
    lemma_no_portals_down(lush);
    lemma_portals_placed_count(
        Portals { over: lush, under, seed: seed.wrapping_sub(1) },
        size,
        repeat_count(size, 32),
    );
}

/// Placing portals puts nobody anywhere.
pub proof fn lemma_portals_placed_deserted(state: Portals, size: int, n: nat)
    requires
        size > 0,
        state.over.len() == size * size,
        state.under.len() == size * size,
        deserted(state.over),
        deserted(state.under),
    ensures
        portals_placed(state, size, n).over.len() == size * size,
        portals_placed(state, size, n).under.len() == size * size,
        deserted(portals_placed(state, size, n).over),
        deserted(portals_placed(state, size, n).under),
    decreases n,
{
    if n > 0 {
        let before = portals_placed(state, size, (n - 1) as nat);
        lemma_portals_placed_deserted(state, size, (n - 1) as nat);
        let sx = xorshift(before.seed);
        let sy = xorshift(sx);
        lemma_flat_index(sx as int % size, sy as int % size, size);
        let after = portal_attempt(before, size);
        assert forall|i: int| 0 <= i < after.over.len() implies (#[trigger] after.over[i]).entity is None by {
            assert(before.over[i].entity is None);
        }
        assert forall|i: int| 0 <= i < after.under.len() implies (#[trigger] after.under[i]).entity is None by {
            assert(before.under[i].entity is None);
        }
    }
}

/// A barren world is generated without life: nobody and nothing is in any
/// slot of either level.
pub proof fn lemma_generated_deserted(size: int, seed: u64, heights: Seq<Height>, caves: Seq<CaveCell>)
    requires
        size > 0,
    ensures
        deserted(generated(size, seed, heights, caves)[0]),
        deserted(generated(size, seed, heights, caves)[1]),
{
    lemma_overworld_no_portals(size, seed, heights);
    lemma_underworld_no_portals(size, seed, QUADRANT_SIZE as int, caves);
    lemma_portals_placed_deserted(
        Portals {
            over: overworld(size, seed, heights),
            under: underworld(size, seed, QUADRANT_SIZE as int, caves).slots,
            seed: seed.wrapping_sub(1),
        },
        size,
        repeat_count(size, 32),
    );
}

/// Whoever is settled on a level is put on walkable ground that nobody
/// occupied: the terrain stays as it was, whoever was there stays, and if
/// every creature stood on walkable ground before, every creature still does.
pub proof fn lemma_settled_stands(state: Seeding, size: int, creature: Creature, n: nat)
    requires
        size > 0,
        state.slots.len() == size * size,
    ensures
        settled(state, size, creature, n).slots.len() == size * size,
        forall|i: int|
            0 <= i < size * size ==> {
                &&& (#[trigger] settled(state, size, creature, n).slots[i]).tile
                    == state.slots[i].tile
                &&& state.slots[i].entity is Some ==> settled(state, size, creature, n).slots[i]
                    == state.slots[i]
            },
        standing(state.slots) ==> standing(settled(state, size, creature, n).slots),
    decreases n,
{
    if n > 0 {
        let before = settled(state, size, creature, (n - 1) as nat);
        lemma_settled_stands(state, size, creature, (n - 1) as nat);
        lemma_sample_cell_accepted(
            before.slots,
            size,
            before.seed,
            SAMPLE_ATTEMPTS as nat,
            CellFilter::FreeFloor,
        );
        let found = sample_cell(
            before.slots,
            size,
            before.seed,
            SAMPLE_ATTEMPTS as nat,
            CellFilter::FreeFloor,
        );
        let after = settled(state, size, creature, n).slots;
        if let Some(c) = found.0 {
            lemma_flat_index(c.0, c.1, size);
            assert forall|i: int| 0 <= i < size * size implies {
                &&& (#[trigger] after[i]).tile == state.slots[i].tile
                &&& state.slots[i].entity is Some ==> after[i] == state.slots[i]
            } by {}
            if standing(state.slots) {
                assert forall|i: int| 0 <= i < after.len() && is_creature((#[trigger] after[i]).entity) implies after[i].tile.is_floor()
                    || after[i].tile.is_swimmable() by {}
            }
        }
    }
}

/// After life has been created, the terrain of both levels is what it was,
/// and if every creature stood on walkable ground before, every creature,
/// the player included, does so after.
pub proof fn lemma_life_created_stands(
    grid: Grid,
    size: int,
    seed: u64,
    wild: SpeciesTemplate,
    player: SpeciesTemplate,
    player_id: SpeciesID,
)
    requires
        size > 0,
        grid.len() == 2,
        grid[0].len() == size * size,
        grid[1].len() == size * size,
    ensures
        ({
            let life = life_created(grid, size, seed, wild, player, player_id);
            &&& life.grid.len() == 2
            &&& forall|l: int, i: int|
                0 <= l < 2 && 0 <= i < size * size ==> (#[trigger] life.grid[l][i]).tile
                    == grid[l][i].tile
            &&& forall|l: int| 0 <= l < 2 && standing(grid[l]) ==> standing(#[trigger] life.grid[l])
            &&& life.player matches Some(c) ==> 0 <= c.0 < size && 0 <= c.1 < size
                && life.grid[1][c.0 * size + c.1].entity == Some(
                Entity::Creature(spawn(player, player_id)),
            )
        }),
{
    let creature = spawn(wild, SpeciesID(WILD_SPECIES));
    let start = Seeding { slots: grid[0], seed: seed.wrapping_sub(2) };
    let over = settled(start, size, creature, repeat_count(size, 16));
    lemma_settled_stands(start, size, creature, repeat_count(size, 16));
    let below = Seeding { slots: grid[1], seed: over.seed };
    let under = settled(below, size, creature, repeat_count(size, 16));
    lemma_settled_stands(below, size, creature, repeat_count(size, 16));
    assert(settled(under, size, spawn(player, player_id), 1) == settle(
        under,
        size,
        spawn(player, player_id),
    )) by {
        assert(settled(under, size, spawn(player, player_id), 0) == under);
    }
    lemma_sample_cell_accepted(
        under.slots,
        size,
        under.seed,
        SAMPLE_ATTEMPTS as nat,
        CellFilter::FreeFloor,
    );
    let life = life_created(grid, size, seed, wild, player, player_id);
    let found = life.player;
    if let Some(c) = found {
        lemma_flat_index(c.0, c.1, size);
    }
    assert forall|l: int, i: int| 0 <= l < 2 && 0 <= i < size * size implies (#[trigger] life.grid[l][i]).tile
        == grid[l][i].tile by {}
}

} // verus!
