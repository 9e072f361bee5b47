use simulation::util::FastRandom;
use simulation::world::level::CellFilter;
use simulation::world::{Entity, Level, ObjectType, Slot, Tile};

fn stone() -> Option<Entity> {
    Some(Entity::Object(ObjectType::Stone))
}

#[test]
fn filled_level_holds_the_tile_everywhere() {
    let level = Level::<4>::filled(Tile::Grass);
    assert_eq!(level.size(), 4);
    for x in 0..4 {
        for y in 0..4 {
            assert_eq!(level.slot(x, y), Slot { tile: Tile::Grass, entity: None });
        }
    }
}

#[test]
fn cells_are_stored_column_by_column() {
    let level = Level::<4>::filled(Tile::Void);
    assert_eq!(level.index_of(0, 0), 0);
    assert_eq!(level.index_of(0, 3), 3);
    assert_eq!(level.index_of(1, 2), 6);
    assert_eq!(level.index_of(3, 3), 15);
}

#[test]
fn coordinates_wrap_around() {
    let mut level = Level::<4>::filled(Tile::Void);
    assert_eq!(level.index_of(5, 6), 6);
    assert_eq!(level.index_of(4, 4), 0);
    level.set_tile(5, 6, Tile::Stone);
    assert_eq!(level.tile(1, 2), Tile::Stone);
    assert_eq!(level.tile(9, 10), Tile::Stone);
    level.set_entity(7, 8, stone());
    assert_eq!(level.entity(3, 0), stone());
    assert_eq!(level.index_of(usize::MAX, usize::MAX), 15);
    let mut touched = 0;
    for x in 0..4 {
        for y in 0..4 {
            if level.slot(x, y) != (Slot { tile: Tile::Void, entity: None }) {
                touched += 1;
            }
        }
    }
    assert_eq!(touched, 2);
}

#[test]
fn set_tile_keeps_the_occupant_and_set_entity_the_tile() {
    let mut level = Level::<4>::filled(Tile::Grass);
    level.set_entity(2, 2, stone());
    level.set_tile(2, 2, Tile::Sand);
    assert_eq!(level.slot(2, 2), Slot { tile: Tile::Sand, entity: stone() });
    level.set_entity(2, 2, None);
    assert_eq!(level.slot(2, 2), Slot { tile: Tile::Sand, entity: None });
}

#[test]
fn swap_entities_trades_occupants_only() {
    let mut level = Level::<4>::filled(Tile::Grass);
    level.set_tile(0, 1, Tile::Sand);
    level.set_entity(0, 1, stone());
    level.swap_entities((0, 1), (3, 2));
    assert_eq!(level.slot(0, 1), Slot { tile: Tile::Sand, entity: None });
    assert_eq!(level.slot(3, 2), Slot { tile: Tile::Grass, entity: stone() });
    level.swap_entities((3, 2), (3, 2));
    assert_eq!(level.slot(3, 2), Slot { tile: Tile::Grass, entity: stone() });
    level.swap_entities((4, 5), (7, 6));
    assert_eq!(level.entity(0, 1), stone());
    assert_eq!(level.entity(3, 2), None);
}

#[test]
fn find_floor_takes_the_first_cell_accepted() {
    let level = Level::<4>::filled(Tile::Stone);
    let mut random = FastRandom::new(1);
    assert_eq!(level.find_floor(&mut random, 10), Some((1, 1)));
    assert_eq!(random.state(), 1130297953386881);
}

#[test]
fn find_floor_passes_over_occupied_cells() {
    let mut level = Level::<4>::filled(Tile::Stone);
    level.set_entity(1, 1, stone());
    let mut random = FastRandom::new(1);
    assert_eq!(level.find_floor(&mut random, 10), Some((3, 1)));
    assert_eq!(random.state(), 144132848981442561);
}

#[test]
fn find_floor_gives_up_after_the_attempts_allowed() {
    let level = Level::<4>::filled(Tile::Void);
    let mut random = FastRandom::new(1);
    assert_eq!(level.find_floor(&mut random, 3), None);
    assert_eq!(random.state(), 437979806496294277);
    let mut random = FastRandom::new(1);
    assert_eq!(level.find_floor(&mut random, 0), None);
    assert_eq!(random.state(), 1);
}

#[test]
fn find_floor_finds_the_only_floor() {
    let mut level = Level::<4>::filled(Tile::Void);
    level.set_tile(2, 3, Tile::Grass);
    let mut random = FastRandom::new(1);
    assert_eq!(level.find_floor(&mut random, 65536), Some((2, 3)));
    assert_eq!(random.state(), 7178193449799887691);
}

#[test]
fn sample_can_look_for_void() {
    let mut level = Level::<4>::filled(Tile::Stone);
    level.set_tile(3, 0, Tile::Void);
    let mut random = FastRandom::new(9);
    assert_eq!(level.sample(&mut random, 65536, CellFilter::FreeVoid), Some((3, 0)));
    assert_eq!(random.state(), 148777197405667352);
    level.set_entity(3, 0, stone());
    let mut random = FastRandom::new(9);
    assert_eq!(level.sample(&mut random, 200, CellFilter::FreeVoid), None);
}

#[test]
fn filters_accept_free_cells_of_their_kind() {
    let free_floor = Slot { tile: Tile::Grass, entity: None };
    let taken_floor = Slot { tile: Tile::Grass, entity: stone() };
    let free_void = Slot { tile: Tile::Void, entity: None };
    assert!(CellFilter::FreeFloor.accepts(free_floor));
    assert!(!CellFilter::FreeFloor.accepts(taken_floor));
    assert!(!CellFilter::FreeFloor.accepts(free_void));
    assert!(CellFilter::FreeVoid.accepts(free_void));
    assert!(!CellFilter::FreeVoid.accepts(free_floor));
}
