use std::collections::HashMap;

use simulation::world::{Entity, Level, ObjectType, Slot, SlotPosition, Tile, World};

fn world() -> World<8, 2> {
    World {
        levels: [Level::filled(Tile::Grass), Level::filled(Tile::Stone)],
        player_position: SlotPosition { x: 0, y: 0, level: 0 },
        species: HashMap::new(),
    }
}

fn stone() -> Option<Entity> {
    Some(Entity::Object(ObjectType::Stone))
}

#[test]
fn to_level_keeps_column_and_row() {
    let p = SlotPosition { x: 3, y: 4, level: 0 };
    assert_eq!(p.to_level(1), SlotPosition { x: 3, y: 4, level: 1 });
    assert_eq!(p.to_level(0), p);
}

#[test]
fn position_relative_to_player_adds_offsets() {
    let mut w = world();
    w.player_position = SlotPosition { x: 3, y: 4, level: 1 };
    assert_eq!(w.position_relative_to_player(2, -3), SlotPosition { x: 5, y: 1, level: 1 });
    assert_eq!(w.position_relative_to_player(0, 0), w.player_position);
}

#[test]
fn position_relative_to_player_wraps_around() {
    let w = world();
    assert_eq!(w.position_relative_to_player(-1, -1), SlotPosition { x: 7, y: 7, level: 0 });
    assert_eq!(w.position_relative_to_player(8, 16), SlotPosition { x: 0, y: 0, level: 0 });
    assert_eq!(w.position_relative_to_player(-1000, 1000), SlotPosition { x: 0, y: 0, level: 0 });
    assert_eq!(w.position_relative_to_player(-1001, 1003), SlotPosition { x: 7, y: 3, level: 0 });
    let far = w.position_relative_to_player(isize::MIN, isize::MAX);
    assert!(far.x < 8 && far.y < 8);
    assert_eq!(far.y, 7);
    assert_eq!(far.x, 0);
}

#[test]
fn slot_at_reads_the_level_of_the_position() {
    let w = world();
    assert_eq!(w.slot_at(&SlotPosition { x: 1, y: 1, level: 0 }).tile, Tile::Grass);
    assert_eq!(w.slot_at(&SlotPosition { x: 1, y: 1, level: 1 }).tile, Tile::Stone);
    assert_eq!(w.slot_at(&SlotPosition { x: 9, y: 17, level: 1 }).tile, Tile::Stone);
}

#[test]
fn set_tile_and_entity_at_touch_one_slot() {
    let mut w = world();
    let p = SlotPosition { x: 2, y: 5, level: 1 };
    w.set_tile_at(&p, Tile::Sand);
    w.set_entity_at(&p, stone());
    assert_eq!(w.slot_at(&p), Slot { tile: Tile::Sand, entity: stone() });
    assert_eq!(w.slot_at(&p.to_level(0)), Slot { tile: Tile::Grass, entity: None });
    assert_eq!(w.slot_at(&SlotPosition { x: 5, y: 2, level: 1 }), Slot { tile: Tile::Stone, entity: None });
}

#[test]
fn swap_entities_works_across_levels() {
    let mut w = world();
    let a = SlotPosition { x: 2, y: 5, level: 0 };
    let b = SlotPosition { x: 2, y: 5, level: 1 };
    w.set_entity_at(&a, stone());
    w.swap_entities(a, b);
    assert_eq!(w.slot_at(&a), Slot { tile: Tile::Grass, entity: None });
    assert_eq!(w.slot_at(&b), Slot { tile: Tile::Stone, entity: stone() });
    w.swap_entities(b, b);
    assert_eq!(w.slot_at(&b).entity, stone());
}

#[test]
fn move_player_swaps_and_follows() {
    let mut w = world();
    w.set_entity_at(&SlotPosition { x: 0, y: 0, level: 0 }, stone());
    let to = SlotPosition { x: 1, y: 0, level: 0 };
    w.move_player(to);
    assert_eq!(w.player_position, to);
    assert_eq!(w.slot_at(&to).entity, stone());
    assert_eq!(w.slot_at(&SlotPosition { x: 0, y: 0, level: 0 }).entity, None);
}
