use simulation::world::Tile;

fn all_tiles() -> Vec<Tile> {
    vec![
        Tile::GotoUnderworld,
        Tile::GotoOverworld,
        Tile::Void,
        Tile::OverworldGravel,
        Tile::OverworldScraps,
        Tile::OverworldWater,
        Tile::OverworldDeepWater,
        Tile::Stone,
        Tile::Dirt,
        Tile::Sand,
        Tile::Snow,
        Tile::ThinGrass,
        Tile::Grass,
        Tile::AcaciaTree,
        Tile::BirchTree,
        Tile::GoldenTree,
        Tile::OakTree,
        Tile::PeachTree,
        Tile::PalmTree,
        Tile::SpruceTree,
        Tile::DungeonFloor,
        Tile::DungeonWall,
        Tile::SeaWeed,
        Tile::Water,
        Tile::DeepWater,
    ]
}

#[test]
fn floor_is_everything_but_void_walls_water_and_trees() {
    let floor = [
        Tile::GotoUnderworld,
        Tile::GotoOverworld,
        Tile::OverworldGravel,
        Tile::OverworldScraps,
        Tile::Stone,
        Tile::Dirt,
        Tile::Sand,
        Tile::Snow,
        Tile::ThinGrass,
        Tile::Grass,
        Tile::DungeonFloor,
        Tile::SeaWeed,
    ];
    for t in all_tiles() {
        assert_eq!(t.is_floor(), floor.contains(&t), "{:?}", t);
    }
}

#[test]
fn swimmable_is_open_water() {
    let water = [Tile::DeepWater, Tile::Water, Tile::OverworldDeepWater, Tile::OverworldWater];
    for t in all_tiles() {
        assert_eq!(t.is_swimmable(), water.contains(&t), "{:?}", t);
    }
}

#[test]
fn trees_and_grass() {
    let trees = [
        Tile::PalmTree,
        Tile::SpruceTree,
        Tile::AcaciaTree,
        Tile::BirchTree,
        Tile::GoldenTree,
        Tile::OakTree,
        Tile::PeachTree,
    ];
    let grassy = [
        Tile::Grass,
        Tile::ThinGrass,
        Tile::AcaciaTree,
        Tile::BirchTree,
        Tile::GoldenTree,
        Tile::OakTree,
        Tile::PeachTree,
    ];
    for t in all_tiles() {
        assert_eq!(t.is_tree(), trees.contains(&t), "{:?}", t);
        assert_eq!(t.is_grassy(), grassy.contains(&t), "{:?}", t);
        assert_eq!(t.is_stony(), t == Tile::Stone || t == Tile::ThinGrass, "{:?}", t);
        assert_eq!(t.is_opaque(), t == Tile::Void, "{:?}", t);
        assert_eq!(t.is_portal(), t == Tile::GotoUnderworld || t == Tile::GotoOverworld, "{:?}", t);
    }
}

#[test]
fn predicates_agree_with_one_another() {
    for t in all_tiles() {
        if t.is_floor() {
            assert!(!t.is_swimmable() && !t.is_tree() && !t.is_opaque(), "{:?}", t);
        }
        if t.is_portal() {
            assert!(t.is_floor(), "{:?}", t);
        }
        if t.is_tree() {
            assert!(!t.is_swimmable(), "{:?}", t);
        }
    }
    assert!(!Tile::Void.is_floor());
    assert!(Tile::GotoUnderworld.is_floor());
    assert!(Tile::GotoOverworld.is_floor());
}
