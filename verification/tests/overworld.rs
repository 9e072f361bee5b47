use simulation::util::FastRandom;
use simulation::world::gen::overworld::{
    carve_rivers, generate_overworld, place_biomes, place_terrain, Climate, Ground, Height, Tree,
};
use simulation::world::{Entity, Level, ObjectType, Slot, Tile};

fn tiles<const SIZE: usize>(level: &Level<SIZE>) -> Vec<Tile> {
    (0..SIZE * SIZE).map(|i| level.tile(i / SIZE, i % SIZE)).collect()
}

fn lay_one(climate: Climate, seed: u64) -> (Slot, u64) {
    let mut level = Level::<1>::filled(Tile::Void);
    let mut random = FastRandom::new(seed);
    place_biomes(&mut level, &mut random, &vec![climate]);
    (level.slot(0, 0), random.state())
}

#[test]
fn heights_become_water_gravel_and_scraps() {
    let mut level = Level::<2>::filled(Tile::Void);
    let mut random = FastRandom::new(1);
    let heights = vec![Height::Deep, Height::Land, Height::Shallow, Height::Land];
    place_terrain(&mut level, &mut random, &heights);
    assert_eq!(level.tile(0, 0), Tile::OverworldDeepWater);
    assert_eq!(level.tile(0, 1), Tile::OverworldGravel);
    assert_eq!(level.tile(1, 0), Tile::OverworldWater);
    assert_eq!(level.tile(1, 1), Tile::OverworldGravel);
    assert_eq!(random.state(), 302571892843127);
}

#[test]
fn land_is_scraps_once_in_twelve_times() {
    let mut level = Level::<8>::filled(Tile::Void);
    let mut random = FastRandom::new(1);
    place_terrain(&mut level, &mut random, &vec![Height::Land; 64]);
    let mut check = FastRandom::new(1);
    check.next();
    check.next();
    check.next();
    let mut scraps = 0;
    for i in 0..64 {
        let expected = if check.one_in(12) { Tile::OverworldScraps } else { Tile::OverworldGravel };
        if expected == Tile::OverworldScraps {
            scraps += 1;
        }
        assert_eq!(level.tile(i / 8, i % 8), expected);
    }
    assert!(scraps > 0);
    assert_eq!(random.state(), check.state());
}

#[test]
fn water_costs_no_draw() {
    let mut level = Level::<4>::filled(Tile::Void);
    let mut random = FastRandom::new(1);
    place_terrain(&mut level, &mut random, &vec![Height::Shallow; 16]);
    assert_eq!(random.state(), 9242588279455355187);
    assert!(tiles(&level).iter().all(|t| *t == Tile::OverworldWater));
}

#[test]
fn plain_climates_cost_no_draw() {
    assert_eq!(lay_one(Climate::DeepSea, 4), (Slot { tile: Tile::DeepWater, entity: None }, 4));
    assert_eq!(lay_one(Climate::Desert, 4), (Slot { tile: Tile::Sand, entity: None }, 4));
    assert_eq!(
        lay_one(Climate::Sea { weedy: false }, 4),
        (Slot { tile: Tile::Water, entity: None }, 4)
    );
    assert_eq!(
        lay_one(Climate::Beach { palms: false }, 4),
        (Slot { tile: Tile::Sand, entity: None }, 4)
    );
    assert_eq!(
        lay_one(Climate::Tundra { wooded: false }, 4),
        (Slot { tile: Tile::Snow, entity: None }, 4)
    );
}

#[test]
fn variants_replace_the_plain_tile_now_and_then() {
    let hit = FastRandom::get(4);
    assert_eq!(hit % 12, 0);
    let miss = FastRandom::get(1);
    assert_ne!(miss % 4, 0);
    assert_eq!(lay_one(Climate::Sea { weedy: true }, 4).0.tile, Tile::SeaWeed);
    assert_eq!(lay_one(Climate::Sea { weedy: true }, 1), (Slot { tile: Tile::Water, entity: None }, miss));
    assert_eq!(lay_one(Climate::Beach { palms: true }, 4), (Slot { tile: Tile::PalmTree, entity: None }, hit));
    assert_eq!(lay_one(Climate::Beach { palms: true }, 1).0.tile, Tile::Sand);
    assert_eq!(lay_one(Climate::Tundra { wooded: true }, 4).0.tile, Tile::SpruceTree);
    assert_eq!(lay_one(Climate::Tundra { wooded: true }, 1).0.tile, Tile::Snow);
}

#[test]
fn a_meadow_grows_its_tree_once_in_fifteen_times() {
    let mut seed = 1u64;
    while FastRandom::get(seed) % 15 != 0 {
        seed += 1;
    }
    for (tree, tile) in [
        (Tree::Acacia, Tile::AcaciaTree),
        (Tree::Peach, Tile::PeachTree),
        (Tree::Oak, Tile::OakTree),
        (Tree::Birch, Tile::BirchTree),
    ] {
        assert_eq!(tree.tile(), tile);
        let climate = Climate::Meadow { tree, ground: Ground::Grass, volcanic: true };
        assert_eq!(lay_one(climate, seed), (Slot { tile, entity: None }, FastRandom::get(seed)));
    }
}

#[test]
fn a_meadow_else_gets_its_ground() {
    for (ground, tile) in
        [(Ground::Dirt, Tile::Dirt), (Ground::ThinGrass, Tile::ThinGrass), (Ground::Grass, Tile::Grass)]
    {
        assert_eq!(ground.tile(), tile);
        let climate = Climate::Meadow { tree: Tree::Oak, ground, volcanic: false };
        assert_eq!(lay_one(climate, 1), (Slot { tile, entity: None }, 35651601));
    }
}

#[test]
fn a_volcanic_meadow_may_bear_a_stone() {
    let mut seed = 1u64;
    loop {
        let first = FastRandom::get(seed);
        if first % 15 != 0 && FastRandom::get(first) % 24 == 0 {
            break;
        }
        seed += 1;
    }
    let climate = Climate::Meadow { tree: Tree::Oak, ground: Ground::Dirt, volcanic: true };
    let stone = Some(Entity::Object(ObjectType::Stone));
    assert_eq!(
        lay_one(climate, seed),
        (Slot { tile: Tile::Dirt, entity: stone }, FastRandom::get(FastRandom::get(seed)))
    );
    assert_eq!(
        lay_one(climate, 1),
        (Slot { tile: Tile::Dirt, entity: None }, 1130297953386881)
    );
    let calm = Climate::Meadow { tree: Tree::Oak, ground: Ground::Dirt, volcanic: false };
    assert_eq!(lay_one(calm, seed).0.entity, None);
}

#[test]
fn rivers_are_water_dug_from_floor_to_water() {
    let mut level = Level::<96>::filled(Tile::OverworldGravel);
    for x in 0..96 {
        for y in 40..44 {
            level.set_tile(x, y, Tile::OverworldDeepWater);
        }
    }
    let before = tiles(&level);
    let mut random = FastRandom::new(1);
    carve_rivers(&mut level, &mut random);
    let after = tiles(&level);
    let mut dug = 0;
    for i in 0..before.len() {
        if before[i] != after[i] {
            assert_eq!(after[i], Tile::OverworldWater);
            dug += 1;
        }
    }
    assert!(dug > 0);
}

#[test]
fn without_water_no_river_is_dug() {
    let mut level = Level::<96>::filled(Tile::OverworldGravel);
    let mut random = FastRandom::new(1);
    carve_rivers(&mut level, &mut random);
    assert!(tiles(&level).iter().all(|t| *t == Tile::OverworldGravel));
    assert_ne!(random.state(), 1);
}

#[test]
fn the_overworld_is_a_function_of_its_inputs() {
    let heights: Vec<Height> = (0..96 * 96)
        .map(|i| match (i / 96 / 8 + i % 96 / 8) % 3 {
            0 => Height::Deep,
            1 => Height::Shallow,
            _ => Height::Land,
        })
        .collect();
    let a = generate_overworld::<96>(5344545, &heights);
    let b = generate_overworld::<96>(5344545, &heights);
    assert_eq!(tiles(&a), tiles(&b));
    let c = generate_overworld::<96>(5344546, &heights);
    assert_ne!(tiles(&a), tiles(&c));
    for i in 0..96 * 96 {
        let tile = a.tile(i / 96, i % 96);
        assert!(matches!(
            tile,
            Tile::OverworldDeepWater | Tile::OverworldWater | Tile::OverworldGravel | Tile::OverworldScraps
        ));
        assert_eq!(a.entity(i / 96, i % 96), None);
    }
}
