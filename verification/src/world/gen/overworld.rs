//! The overworld: terrain laid out from a height field, and the rivers
//! carved into it.
//!
//! The fields themselves come from layered noise, which is evaluated
//! outside this library and handed in cell by cell, in raster order: as a
//! height class where only land and water are told apart, or as a climate
//! where the land has biomes.

use vstd::prelude::*;
use crate::util::fast_random::{xorshift, FastRandom};
use crate::util::torus::lemma_wrap;
use crate::world::entity::{Entity, ObjectType};
use crate::world::gen::carve::{carve_from, lemma_tunnel_paints, painted, tunnel};
use crate::world::gen::{repeat_count, repeats, SAMPLE_ATTEMPTS};
use crate::world::level::{
    cell_view, deserted, lemma_flat_index_split, no_portals, sample_cell, CellFilter, Level,
    Slot,
};
use crate::world::search::{closest_tile, ring_search, Density, Target, MAX_SEARCH_DISTANCE};
use crate::world::tile::Tile;

verus! {

/// Where the height of a cell lies.
#[derive(Debug, Copy, Clone, PartialEq, Eq, Structural)]
pub enum Height {
    /// Below the deep-water level.
    Deep,
    /// Above it, but not above zero.
    Shallow,
    /// Above zero.
    Land,
}

/// The trees of the temperate land, by climate.
#[derive(Debug, Copy, Clone, PartialEq, Eq, Structural)]
pub enum Tree {
    Acacia,
    Peach,
    Oak,
    Birch,
}

/// The ground of the temperate land, from dry to humid.
#[derive(Debug, Copy, Clone, PartialEq, Eq, Structural)]
pub enum Ground {
    Dirt,
    ThinGrass,
    Grass,
}

/// The band of height, temperature and humidity that a cell lies in, with
/// what the fields say about the variants that may replace its plain tile.
#[derive(Debug, Copy, Clone, PartialEq, Eq, Structural)]
pub enum Climate {
    /// Deep water.
    DeepSea,
    /// Shallow water; seaweed may grow where it is warm enough.
    Sea { weedy: bool },
    /// Sand near the water; palms may grow where it is warm and humid enough.
    Beach { palms: bool },
    /// Snow; spruces may grow where it is humid enough.
    Tundra { wooded: bool },
    /// Sand of the hot and dry inland.
    Desert,
    /// Temperate land with the tree that the climate favours, the ground
    /// that the humidity gives, and whether stones lie about.
    Meadow { tree: Tree, ground: Ground, volcanic: bool },
}

impl Tree {
    /// The tile of the tree.
    pub open spec fn spec_tile(&self) -> Tile {
        match *self {
            Tree::Acacia => Tile::AcaciaTree,
            Tree::Peach => Tile::PeachTree,
            Tree::Oak => Tile::OakTree,
            Tree::Birch => Tile::BirchTree,
        }
    }

    /// The tile that stands for it on the grid.
    #[verifier::when_used_as_spec(spec_tile)]
    pub fn tile(&self) -> (r: Tile)
        ensures
            r == self.spec_tile(),
    {
        match self {
            Tree::Acacia => Tile::AcaciaTree,
            Tree::Peach => Tile::PeachTree,
            Tree::Oak => Tile::OakTree,
            Tree::Birch => Tile::BirchTree,
        }
    }
}

impl Ground {
    /// The tile of the ground.
    pub open spec fn spec_tile(&self) -> Tile {
        match *self {
            Ground::Dirt => Tile::Dirt,
            Ground::ThinGrass => Tile::ThinGrass,
            Ground::Grass => Tile::Grass,
        }
    }

    /// The tile that stands for it on the grid.
    #[verifier::when_used_as_spec(spec_tile)]
    pub fn tile(&self) -> (r: Tile)
        ensures
            r == self.spec_tile(),
    {
        match self {
            Ground::Dirt => Tile::Dirt,
            Ground::ThinGrass => Tile::ThinGrass,
            Ground::Grass => Tile::Grass,
        }
    }
}

/// What terrain placement threads through the cells: the slots of the
/// level and the generator.
pub struct Terrain {
    pub slots: Seq<Slot>,
    pub seed: u64,
}

/// The slot and the generator's state after a cell of the given height has
/// been laid out: water by depth, and on land gravel, or scraps once in
/// twelve times. A draw is made for land only.
pub open spec fn lay_height(slot: Slot, seed: u64, height: Height) -> (Slot, u64) {
    match height {
        Height::Deep => (Slot { tile: Tile::OverworldDeepWater, entity: slot.entity }, seed),
        Height::Shallow => (Slot { tile: Tile::OverworldWater, entity: slot.entity }, seed),
        Height::Land => {
            let draw = xorshift(seed);
            (
                Slot {
                    tile: if draw % 12 == 0 {
                        Tile::OverworldScraps
                    } else {
                        Tile::OverworldGravel
                    },
                    entity: slot.entity,
                },
                draw,
            )
        },
    }
}

/// The slot and the generator's state after a cell of the given climate has
/// been laid out. Deep water and desert sand are plain. Shallow water turns
/// to seaweed once in four times where it is weedy; a beach grows a palm and
/// the tundra a spruce once in twelve times where they can; in each case a
/// draw is made only where the variant is possible. A meadow always draws:
/// once in fifteen times it grows its tree; else it gets its ground, and where
/// it is volcanic a second draw puts a stone on it once in twenty-four times.
pub open spec fn lay_climate(slot: Slot, seed: u64, climate: Climate) -> (Slot, u64) {
    let draw = xorshift(seed);
    match climate {
        Climate::DeepSea => (Slot { tile: Tile::DeepWater, entity: slot.entity }, seed),
        Climate::Sea { weedy } => if weedy {
            (
                Slot {
                    tile: if draw % 4 == 0 {
                        Tile::SeaWeed
                    } else {
                        Tile::Water
                    },
                    entity: slot.entity,
                },
                draw,
            )
        } else {
            (Slot { tile: Tile::Water, entity: slot.entity }, seed)
        },
        Climate::Beach { palms } => if palms {
            (
                Slot {
                    tile: if draw % 12 == 0 {
                        Tile::PalmTree
                    } else {
                        Tile::Sand
                    },
                    entity: slot.entity,
                },
                draw,
            )
        } else {
            (Slot { tile: Tile::Sand, entity: slot.entity }, seed)
        },
        Climate::Tundra { wooded } => if wooded {
            (
                Slot {
                    tile: if draw % 12 == 0 {
                        Tile::SpruceTree
                    } else {
                        Tile::Snow
                    },
                    entity: slot.entity,
                },
                draw,
            )
        } else {
            (Slot { tile: Tile::Snow, entity: slot.entity }, seed)
        },
        Climate::Desert => (Slot { tile: Tile::Sand, entity: slot.entity }, seed),
        Climate::Meadow { tree, ground, volcanic } => if draw % 15 == 0 {
            (Slot { tile: tree.spec_tile(), entity: slot.entity }, draw)
        } else if volcanic {
            let second = xorshift(draw);
            (
                Slot {
                    tile: ground.spec_tile(),
                    entity: if second % 24 == 0 {
                        Some(Entity::Object(ObjectType::Stone))
                    } else {
                        slot.entity
                    },
                },
                second,
            )
        } else {
            (Slot { tile: ground.spec_tile(), entity: slot.entity }, draw)
        },
    }
}

/// The terrain after the first `n` cells, in raster order, have been laid
/// out by height.
pub open spec fn heights_laid(terrain: Terrain, heights: Seq<Height>, n: nat) -> Terrain
    decreases n,
{
    if n == 0 {
        terrain
    } else {
        let before = heights_laid(terrain, heights, (n - 1) as nat);
        let laid = lay_height(before.slots[n - 1], before.seed, heights[n - 1]);
        Terrain { slots: before.slots.update(n - 1, laid.0), seed: laid.1 }
    }
}

/// The terrain after the first `n` cells, in raster order, have been laid
/// out by climate.
pub open spec fn climates_laid(terrain: Terrain, climates: Seq<Climate>, n: nat) -> Terrain
    decreases n,
{
    if n == 0 {
        terrain
    } else {
        let before = climates_laid(terrain, climates, (n - 1) as nat);
        let laid = lay_climate(before.slots[n - 1], before.seed, climates[n - 1]);
        Terrain { slots: before.slots.update(n - 1, laid.0), seed: laid.1 }
    }
}

/// How far a river looks for water, and how long it may be.
pub const RIVER_DISTANCE: usize = 192;

/// The outcome of one river: a free floor cell is sampled, the nearest open
/// water is looked for on every other ring, and a tunnel of water is dug
/// between the two, through whatever lies there. Nothing is dug if either
/// search fails.
pub open spec fn river(slots: Seq<Slot>, size: int, seed: u64) -> (Seq<Slot>, u64) {
    let from = sample_cell(slots, size, seed, SAMPLE_ATTEMPTS as nat, CellFilter::FreeFloor);
    match from.0 {
        None => (slots, from.1),
        Some(f) => {
            let to = ring_search(
                slots,
                size,
                from.1,
                f.0,
                f.1,
                1,
                RIVER_DISTANCE as int,
                Target::OverworldWater,
                Density::SkipOneIn(2),
            );
            match to.0 {
                None => (slots, to.1),
                Some(t) => tunnel(
                    slots,
                    size,
                    to.1,
                    RIVER_DISTANCE as nat,
                    f.0,
                    f.1,
                    t.0,
                    t.1,
                    Tile::OverworldWater,
                    false,
                ),
            }
        },
    }
}

/// The outcome of `n` rivers.
pub open spec fn rivers(slots: Seq<Slot>, size: int, seed: u64, n: nat) -> (Seq<Slot>, u64)
    decreases n,
{
    if n == 0 {
        (slots, seed)
    } else {
        let before = rivers(slots, size, seed, (n - 1) as nat);
        river(before.0, size, before.1)
    }
}

/// The slots of the overworld of side `size` generated from `seed`: a level
/// of deep water is laid out by height, after three draws for the layers of
/// noise, and one river is carved for every square of thirty-two cells.
pub open spec fn overworld(size: int, seed: u64, heights: Seq<Height>) -> Seq<Slot> {
    let blank = Seq::new(
        (size * size) as nat,
        |i: int| Slot { tile: Tile::OverworldDeepWater, entity: None },
    );
    let laid = heights_laid(
        Terrain { slots: blank, seed: xorshift(xorshift(xorshift(seed))) },
        heights,
        (size * size) as nat,
    );
    rivers(laid.slots, size, laid.seed, repeat_count(size, 32)).0
}

/// Lays out the terrain of a barren overworld from the height classes of
/// its cells, in raster order. The generator is first advanced three times,
/// once for each layer of noise that the heights are made of.
pub fn place_terrain<const SIZE: usize>(
    level: &mut Level<SIZE>,
    random: &mut FastRandom,
    heights: &Vec<Height>,
)
    requires
        heights@.len() == SIZE * SIZE,
    ensures
        (Terrain { slots: final(level)@, seed: final(random)@ }) == heights_laid(
            Terrain { slots: old(level)@, seed: xorshift(xorshift(xorshift(old(random)@))) },
            heights@,
            (SIZE * SIZE) as nat,
        ),
{
    proof {
        use_type_invariant(&*level);
        level.lemma_inv();
    }
    random.next();
    random.next();
    random.next();
    let ghost start = Terrain { slots: level@, seed: random@ };
    let n: usize = SIZE * SIZE;
    let mut c: usize = 0;
    while c < n
        invariant
            c <= n,
            n == SIZE * SIZE,
            SIZE > 0,
            heights@.len() == n,
            level@.len() == n,
            (Terrain { slots: level@, seed: random@ }) == heights_laid(start, heights@, c as nat),
        decreases n - c,
    {
        let x: usize = c / SIZE;
        let y: usize = c % SIZE;
        proof {
            lemma_flat_index_split(c as int, SIZE as int);
            lemma_wrap(x as int, SIZE as int);
            lemma_wrap(y as int, SIZE as int);
        }
        let tile = match heights[c] {
            Height::Deep => Tile::OverworldDeepWater,
            Height::Shallow => Tile::OverworldWater,
            Height::Land => if random.one_in(12) {
                Tile::OverworldScraps
            } else {
                Tile::OverworldGravel
            },
        };
        level.set_tile(x, y, tile);
        c += 1;
    }
}

/// Lays out the terrain of an overworld with biomes from the climates of
/// its cells, in raster order.
pub fn place_biomes<const SIZE: usize>(
    level: &mut Level<SIZE>,
    random: &mut FastRandom,
    climates: &Vec<Climate>,
)
    requires
        climates@.len() == SIZE * SIZE,
    ensures
        (Terrain { slots: final(level)@, seed: final(random)@ }) == climates_laid(
            Terrain { slots: old(level)@, seed: old(random)@ },
            climates@,
            (SIZE * SIZE) as nat,
        ),
{
    proof {
        use_type_invariant(&*level);
        level.lemma_inv();
    }
    let ghost start = Terrain { slots: level@, seed: random@ };
    let n: usize = SIZE * SIZE;
    let mut c: usize = 0;
    while c < n
        invariant
            c <= n,
            n == SIZE * SIZE,
            SIZE > 0,
            climates@.len() == n,
            level@.len() == n,
            (Terrain { slots: level@, seed: random@ }) == climates_laid(start, climates@, c as nat),
        decreases n - c,
    {
        let x: usize = c / SIZE;
        let y: usize = c % SIZE;
        proof {
            lemma_flat_index_split(c as int, SIZE as int);
            lemma_wrap(x as int, SIZE as int);
            lemma_wrap(y as int, SIZE as int);
        }
        let ghost before = level@;
        let mut stone: bool = false;
        let tile = match climates[c] {
            Climate::DeepSea => Tile::DeepWater,
            Climate::Sea { weedy } => if weedy && random.one_in(4) {
                Tile::SeaWeed
            } else {
                Tile::Water
            },
            Climate::Beach { palms } => if palms && random.one_in(12) {
                Tile::PalmTree
            } else {
                Tile::Sand
            },
            Climate::Tundra { wooded } => if wooded && random.one_in(12) {
                Tile::SpruceTree
            } else {
                Tile::Snow
            },
            Climate::Desert => Tile::Sand,
            Climate::Meadow { tree, ground, volcanic } => if random.one_in(15) {
                tree.tile()
            } else {
                if volcanic && random.one_in(24) {
                    stone = true;
                }
                ground.tile()
            },
        };
        if stone {
            level.set_entity(x, y, Some(Entity::Object(ObjectType::Stone)));
        }
        level.set_tile(x, y, tile);
        assert(level@ =~= before.update(
            c as int,
            Slot {
                tile,
                entity: if stone {
                    Some(Entity::Object(ObjectType::Stone))
                } else {
                    before[c as int].entity
                },
            },
        ));
        c += 1;
    }
}

/// Looks for the open water nearest to `(x, y)`, skipping every other ring
/// on average.
pub fn closest_water_tile<const SIZE: usize>(
    random: &mut FastRandom,
    level: &Level<SIZE>,
    x: usize,
    y: usize,
    max_axis_distance: usize,
) -> (r: Option<(usize, usize)>)
    requires
        max_axis_distance <= MAX_SEARCH_DISTANCE,
    ensures
        (cell_view(r), final(random)@) == ring_search(
            level@,
            SIZE as int,
            old(random)@,
            x as int,
            y as int,
            1,
            max_axis_distance as int,
            Target::OverworldWater,
            Density::SkipOneIn(2),
        ),
        r matches Some(c) ==> c.0 < SIZE && c.1 < SIZE,
{
    closest_tile(random, level, x, y, max_axis_distance, Target::OverworldWater, Density::SkipOneIn(2))
}

/// Carves the rivers of the overworld.
pub fn carve_rivers<const SIZE: usize>(level: &mut Level<SIZE>, random: &mut FastRandom)
    ensures
        (final(level)@, final(random)@) == rivers(
            old(level)@,
            SIZE as int,
            old(random)@,
            repeat_count(SIZE as int, 32),
        ),
{
    proof {
        use_type_invariant(&*level);
        level.lemma_inv();
    }
    let count: usize = repeats::<SIZE>(32);
    let mut n: usize = 0;
    while n < count
        invariant
            n <= count,
            (level@, random@) == rivers(old(level)@, SIZE as int, old(random)@, n as nat),
        decreases count - n,
    {
        match level.find_floor(random, SAMPLE_ATTEMPTS) {
            Some((from_x, from_y)) => {
                match closest_water_tile(random, level, from_x, from_y, RIVER_DISTANCE) {
                    Some((to_x, to_y)) => {
                        carve_from(
                            level,
                            random,
                            RIVER_DISTANCE,
                            from_x,
                            from_y,
                            to_x,
                            to_y,
                            Tile::OverworldWater,
                            false,
                        );
                    },
                    None => {},
                }
            },
            None => {},
        }
        n += 1;
    }
}

/// Generates the overworld from the height classes of its cells.
pub fn generate_overworld<const SIZE: usize>(seed: u64, heights: &Vec<Height>) -> (level: Level<SIZE>)
    requires
        SIZE > 0,
        SIZE * SIZE <= usize::MAX,
        heights@.len() == SIZE * SIZE,
    ensures
        level@ == overworld(SIZE as int, seed, heights@),
{
    let mut level = Level::<SIZE>::filled(Tile::OverworldDeepWater);
    assert(level@ =~= Seq::new(
        (SIZE * SIZE) as nat,
        |i: int| Slot { tile: Tile::OverworldDeepWater, entity: None },
    ));
    let mut random = FastRandom::new(seed);
    place_terrain(&mut level, &mut random, heights);
    carve_rivers(&mut level, &mut random);
    level
}

/// Rivers touch no occupant and change tiles into water only.
pub proof fn lemma_rivers_paint(slots: Seq<Slot>, size: int, seed: u64, n: nat)
    requires
        size > 0,
        slots.len() == size * size,
    ensures
        painted(slots, rivers(slots, size, seed, n).0, Tile::OverworldWater, false),
    decreases n,
{
    if n > 0 {
        let before = rivers(slots, size, seed, (n - 1) as nat);
        lemma_rivers_paint(slots, size, seed, (n - 1) as nat);
        let from = sample_cell(
            before.0,
            size,
            before.1,
            SAMPLE_ATTEMPTS as nat,
            CellFilter::FreeFloor,
        );
        if let Some(f) = from.0 {
            let to = ring_search(
                before.0,
                size,
                from.1,
                f.0,
                f.1,
                1,
                RIVER_DISTANCE as int,
                Target::OverworldWater,
                Density::SkipOneIn(2),
            );
            if let Some(t) = to.0 {
                lemma_tunnel_paints(
                    before.0,
                    size,
                    to.1,
                    RIVER_DISTANCE as nat,
                    f.0,
                    f.1,
                    t.0,
                    t.1,
                    Tile::OverworldWater,
                    false,
                );
            }
        }
    }
}

/// Laying terrain out by height makes no portal, puts nobody anywhere, and
/// neither adds nor loses a slot.
pub proof fn lemma_heights_laid_no_portals(terrain: Terrain, heights: Seq<Height>, n: nat)
    requires
        n <= terrain.slots.len(),
        no_portals(terrain.slots),
    ensures
        heights_laid(terrain, heights, n).slots.len() == terrain.slots.len(),
        no_portals(heights_laid(terrain, heights, n).slots),
        deserted(terrain.slots) ==> deserted(heights_laid(terrain, heights, n).slots),
    decreases n,
{
    if n > 0 {
        lemma_heights_laid_no_portals(terrain, heights, (n - 1) as nat);
        let after = heights_laid(terrain, heights, n).slots;
        assert forall|i: int| 0 <= i < after.len() implies !(#[trigger] after[i]).tile.is_portal() by {}
    }
}

/// The overworld has one slot for each cell and, before portals are
/// placed, no portal. Nobody and nothing is in it.
pub proof fn lemma_overworld_no_portals(size: int, seed: u64, heights: Seq<Height>)
    requires
        size > 0,
    ensures
        overworld(size, seed, heights).len() == size * size,
        no_portals(overworld(size, seed, heights)),
        deserted(overworld(size, seed, heights)),
{
    assert(size * size > 0) by (nonlinear_arith)
        requires
            size > 0,
    ;
    let blank = Seq::new(
        (size * size) as nat,
        |i: int| Slot { tile: Tile::OverworldDeepWater, entity: None },
    );
    let start = Terrain { slots: blank, seed: xorshift(xorshift(xorshift(seed))) };
    lemma_heights_laid_no_portals(start, heights, (size * size) as nat);
    let laid = heights_laid(start, heights, (size * size) as nat);
    lemma_rivers_paint(laid.slots, size, laid.seed, repeat_count(size, 32));
}

/// The slots of the overworld with biomes of side `size` generated from
/// `seed`: a level of deep water is laid out by climate. No rivers are carved
/// into it.
pub open spec fn biome_overworld(size: int, seed: u64, climates: Seq<Climate>) -> Seq<Slot> {
    let blank = Seq::new(
        (size * size) as nat,
        |i: int| Slot { tile: Tile::DeepWater, entity: None },
    );
    climates_laid(Terrain { slots: blank, seed }, climates, (size * size) as nat).slots
}

/// Generates an overworld with biomes from the climates of its cells.
pub fn generate_biomes<const SIZE: usize>(seed: u64, climates: &Vec<Climate>) -> (level: Level<SIZE>)
    requires
        SIZE > 0,
        SIZE * SIZE <= usize::MAX,
        climates@.len() == SIZE * SIZE,
    ensures
        level@ == biome_overworld(SIZE as int, seed, climates@),
{
    let mut level = Level::<SIZE>::filled(Tile::DeepWater);
    assert(level@ =~= Seq::new(
        (SIZE * SIZE) as nat,
        |i: int| Slot { tile: Tile::DeepWater, entity: None },
    ));
    let mut random = FastRandom::new(seed);
    place_biomes(&mut level, &mut random, climates);
    level
}

/// Laying terrain out by climate makes no portal and neither adds nor loses
/// a slot.
pub proof fn lemma_climates_laid_no_portals(terrain: Terrain, climates: Seq<Climate>, n: nat)
    requires
        n <= terrain.slots.len(),
        no_portals(terrain.slots),
    ensures
        climates_laid(terrain, climates, n).slots.len() == terrain.slots.len(),
        no_portals(climates_laid(terrain, climates, n).slots),
    decreases n,
{
    if n > 0 {
        lemma_climates_laid_no_portals(terrain, climates, (n - 1) as nat);
        let after = climates_laid(terrain, climates, n).slots;
        assert forall|i: int| 0 <= i < after.len() implies !(#[trigger] after[i]).tile.is_portal() by {}
    }
}

/// The overworld with biomes has one slot for each cell and, before portals
/// are placed, no portal.
pub proof fn lemma_biome_overworld_no_portals(size: int, seed: u64, climates: Seq<Climate>)
    requires
        size > 0,
    ensures
        biome_overworld(size, seed, climates).len() == size * size,
        no_portals(biome_overworld(size, seed, climates)),
{
    assert(size * size > 0) by (nonlinear_arith)
        requires
            size > 0,
    ;
    let blank = Seq::new(
        (size * size) as nat,
        |i: int| Slot { tile: Tile::DeepWater, entity: None },
    );
    lemma_climates_laid_no_portals(Terrain { slots: blank, seed }, climates, (size * size) as nat);
}

} // verus!
