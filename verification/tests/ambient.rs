use std::collections::HashMap;

use simulation::util::FastRandom;
use simulation::world::ambient::{classify_counts, MAX_SURVEY_RADIUS};
use simulation::world::{Ambient, Biome, Level, SlotPosition, Tile, WaterCloseness, World};

#[test]
fn water_that_outnumbers_grass_and_stone_is_sea() {
    assert_eq!(classify_counts(5, 4, 4, 0, 13), Biome::Sea);
    assert_eq!(classify_counts(5, 5, 0, 0, 10), Biome::GrassyArea(WaterCloseness::Coast));
    assert_eq!(classify_counts(5, 0, 5, 0, 10), Biome::PlainCave(WaterCloseness::Coast));
}

#[test]
fn coast_needs_more_than_three_tenths_of_water() {
    assert_eq!(classify_counts(3, 5, 0, 0, 10), Biome::GrassyArea(WaterCloseness::Land));
    assert_eq!(classify_counts(4, 5, 0, 0, 10), Biome::GrassyArea(WaterCloseness::Coast));
    assert_eq!(classify_counts(30, 50, 0, 0, 100), Biome::GrassyArea(WaterCloseness::Land));
    assert_eq!(classify_counts(31, 50, 0, 0, 100), Biome::GrassyArea(WaterCloseness::Coast));
}

#[test]
fn forest_needs_more_than_one_tree_in_ten_cells() {
    assert_eq!(classify_counts(0, 5, 0, 1, 10), Biome::GrassyArea(WaterCloseness::Land));
    assert_eq!(classify_counts(0, 5, 0, 2, 10), Biome::Forest(WaterCloseness::Land));
    assert_eq!(classify_counts(0, 2, 5, 9, 10), Biome::PlainCave(WaterCloseness::Land));
    assert_eq!(classify_counts(0, 5, 5, 9, 10), Biome::PlainCave(WaterCloseness::Land));
}

#[test]
fn integer_thresholds_agree_with_ratios() {
    for total in 1u64..60 {
        for count in 0..=total {
            let coast = count as f64 / total as f64 > 0.3;
            let forest = count as f64 / total as f64 > 0.1;
            let w = if coast { WaterCloseness::Coast } else { WaterCloseness::Land };
            if count < total {
                assert_eq!(classify_counts(count, total, 0, 0, total), Biome::GrassyArea(w));
            }
            let expected = if forest {
                Biome::Forest(WaterCloseness::Land)
            } else {
                Biome::GrassyArea(WaterCloseness::Land)
            };
            assert_eq!(classify_counts(0, total, 0, count, total), expected);
        }
    }
}

#[test]
fn uniform_levels_have_the_obvious_biome() {
    let sea = Level::<8>::filled(Tile::OverworldWater);
    assert_eq!(sea.get_ambient_at(3, 3, 2).biome, Biome::Sea);
    let meadow = Level::<8>::filled(Tile::Grass);
    assert_eq!(meadow.get_ambient_at(3, 3, 2).biome, Biome::GrassyArea(WaterCloseness::Land));
    let cave = Level::<8>::filled(Tile::Stone);
    assert_eq!(cave.get_ambient_at(3, 3, 2).biome, Biome::PlainCave(WaterCloseness::Land));
    let wood = Level::<8>::filled(Tile::OakTree);
    assert_eq!(wood.get_ambient_at(3, 3, 2).biome, Biome::Forest(WaterCloseness::Land));
    let void = Level::<8>::filled(Tile::Void);
    assert_eq!(void.get_ambient_at(3, 3, 0).biome, Biome::PlainCave(WaterCloseness::Land));
}

#[test]
fn palms_count_as_trees_but_not_as_grass() {
    let palms = Level::<8>::filled(Tile::PalmTree);
    assert_eq!(palms.get_ambient_at(3, 3, 1).biome, Biome::PlainCave(WaterCloseness::Land));
}

#[test]
fn thin_grass_counts_as_grass_not_as_stone() {
    let level = Level::<8>::filled(Tile::ThinGrass);
    assert_eq!(level.get_ambient_at(0, 0, 3).biome, Biome::GrassyArea(WaterCloseness::Land));
}

#[test]
fn the_window_is_a_square_around_the_centre() {
    let mut level = Level::<16>::filled(Tile::Grass);
    for x in 6..=8 {
        for y in 6..=8 {
            level.set_tile(x, y, Tile::OverworldWater);
        }
    }
    assert_eq!(level.get_ambient_at(7, 7, 1).biome, Biome::Sea);
    assert_eq!(level.get_ambient_at(7, 7, 2).biome, Biome::GrassyArea(WaterCloseness::Coast));
    assert_eq!(level.get_ambient_at(7, 7, 3).biome, Biome::GrassyArea(WaterCloseness::Land));
    assert_eq!(level.get_ambient_at(12, 12, 2).biome, Biome::GrassyArea(WaterCloseness::Land));
}

#[test]
fn the_window_wraps_around() {
    let mut level = Level::<8>::filled(Tile::Stone);
    for x in 5..8 {
        for y in 5..8 {
            level.set_tile(x, y, Tile::OverworldWater);
        }
    }
    level.set_tile(7, 7, Tile::OverworldWater);
    assert_eq!(level.get_ambient_at(0, 0, 1).biome, Biome::PlainCave(WaterCloseness::Land));
    level.set_tile(0, 7, Tile::OverworldWater);
    level.set_tile(7, 0, Tile::OverworldWater);
    level.set_tile(0, 1, Tile::OverworldWater);
    assert_eq!(level.get_ambient_at(0, 0, 1).biome, Biome::PlainCave(WaterCloseness::Coast));
}

#[test]
fn a_window_wider_than_the_level_counts_cells_again() {
    let mut level = Level::<2>::filled(Tile::Grass);
    level.set_tile(0, 0, Tile::OverworldWater);
    assert_eq!(level.get_ambient_at(0, 0, 1).biome, Biome::GrassyArea(WaterCloseness::Land));
    assert_eq!(level.get_ambient_at(1, 1, 1).biome, Biome::GrassyArea(WaterCloseness::Coast));
}

#[test]
fn world_surveys_the_level_of_the_position() {
    let world: World<8, 2> = World {
        levels: [Level::filled(Tile::Grass), Level::filled(Tile::Stone)],
        player_position: SlotPosition { x: 0, y: 0, level: 0 },
        species: HashMap::new(),
    };
    assert_eq!(
        world.get_ambient_at(&SlotPosition { x: 1, y: 1, level: 0 }, 2).biome,
        Biome::GrassyArea(WaterCloseness::Land)
    );
    assert_eq!(
        world.get_ambient_at(&SlotPosition { x: 1, y: 1, level: 1 }, 2).biome,
        Biome::PlainCave(WaterCloseness::Land)
    );
}

#[test]
fn labels_name_biome_and_qualifier() {
    assert_eq!(Biome::GrassyArea(WaterCloseness::Land).label(), "grassy area, land");
    assert_eq!(Biome::GrassyArea(WaterCloseness::Coast).label(), "grassy area, coast");
    assert_eq!(Biome::Forest(WaterCloseness::Land).label(), "forest, land");
    assert_eq!(Biome::Forest(WaterCloseness::Coast).label(), "forest, coast");
    assert_eq!(Biome::PlainCave(WaterCloseness::Land).label(), "plain cave, land");
    assert_eq!(Biome::PlainCave(WaterCloseness::Coast).label(), "plain cave, coast");
    assert_eq!(Biome::Sea.label(), "sea");
    assert_eq!(WaterCloseness::Land.label(), "land");
    assert_eq!(WaterCloseness::Coast.label(), "coast");
    assert_eq!(Ambient { biome: Biome::Sea }.label(), "sea");
    assert!(MAX_SURVEY_RADIUS >= 12);
}

/// The same survey with ratios computed in real numbers.
fn survey_with_reals(level: &Level<24>, x: usize, y: usize, radius: usize) -> Biome {
    const SIZE: usize = 24;
    let total_tiles = (radius * 2 + 1) * (radius * 2 + 1);
    let mut swimmable_count = 0;
    let mut grassy_count = 0;
    let mut stony_count = 0;
    let mut tree_count = 0;
    for x in (x as i64 - radius as i64)..=(x + radius) as i64 {
        for y in (y as i64 - radius as i64)..=(y + radius) as i64 {
            let tile = level.tile((x + SIZE as i64) as usize % SIZE, (y + SIZE as i64) as usize % SIZE);
            if tile.is_tree() {
                tree_count += 1;
            }
            if tile.is_grassy() {
                grassy_count += 1;
            } else if tile.is_stony() {
                stony_count += 1;
            } else if tile.is_swimmable() {
                swimmable_count += 1;
            }
        }
    }
    if swimmable_count > grassy_count && swimmable_count > stony_count {
        Biome::Sea
    } else {
        let swimmable_ratio = swimmable_count as f64 / total_tiles as f64;
        let tree_ratio = tree_count as f64 / total_tiles as f64;
        let w = if swimmable_ratio > 0.3 { WaterCloseness::Coast } else { WaterCloseness::Land };
        if grassy_count > stony_count {
            if tree_ratio > 0.1 {
                Biome::Forest(w)
            } else {
                Biome::GrassyArea(w)
            }
        } else {
            Biome::PlainCave(w)
        }
    }
}

#[test]
fn surveys_agree_with_real_arithmetic() {
    let palette = [
        Tile::OverworldWater,
        Tile::Water,
        Tile::Grass,
        Tile::ThinGrass,
        Tile::Stone,
        Tile::OakTree,
        Tile::PalmTree,
        Tile::Void,
        Tile::Sand,
    ];
    let mut random = FastRandom::new(77);
    let mut seen = Vec::new();
    for _ in 0..300 {
        let mut level = Level::<24>::filled(Tile::Void);
        let bias = random.next_less_than(palette.len() as u64) as usize;
        for x in 0..24 {
            for y in 0..24 {
                let pick = if random.one_in(2) {
                    bias
                } else {
                    random.next_less_than(palette.len() as u64) as usize
                };
                level.set_tile(x, y, palette[pick]);
            }
        }
        let x = random.next_less_than(24) as usize;
        let y = random.next_less_than(24) as usize;
        let radius = random.next_less_than(12) as usize;
        let biome = level.get_ambient_at(x, y, radius).biome;
        assert_eq!(biome, survey_with_reals(&level, x, y, radius));
        if !seen.contains(&biome) {
            seen.push(biome);
        }
    }
    assert!(seen.len() >= 5, "{:?}", seen);
}
