use std::collections::HashMap;

use simulation::life::Unresolved;
use simulation::player::Player;
use simulation::util::FastRandom;
use simulation::world::creature::{
    BehaviorStats, BodyStats, Creature, Interest, Memory, SpeciesID,
};
use simulation::world::{Biome, Entity, Level, ObjectType, SlotPosition, Tile, WaterCloseness, World};

fn hero() -> Creature {
    Creature {
        species: SpeciesID(1),
        body: BodyStats {
            max_health: 10,
            max_nutrition: 10,
            health: 10,
            nutrition: 10,
            karma: 0,
            smelliness: 0,
            strength: 0,
        },
        behavior: BehaviorStats { awareness: 0, curiosity: 0, friendliness: 0 },
        memory: Memory { target: None, current_interest: Interest::Idle, last_interest: Interest::Idle },
    }
}

fn world() -> World<8, 2> {
    let mut w: World<8, 2> = World {
        levels: [Level::filled(Tile::Grass), Level::filled(Tile::Stone)],
        player_position: SlotPosition { x: 0, y: 0, level: 1 },
        species: HashMap::new(),
    };
    w.levels[1].set_entity(0, 0, Some(Entity::Creature(hero())));
    w
}

#[test]
fn a_world_is_playable_if_somebody_stands_at_the_player_position() {
    let w = world();
    assert!(Player::accepts(&w, 3));
    assert!(!Player::accepts(&w, 0x8000));
    let mut empty = world();
    empty.levels[1].set_entity(0, 0, None);
    assert!(!Player::accepts(&empty, 3));
    let mut off = world();
    off.player_position = SlotPosition { x: 8, y: 0, level: 1 };
    assert!(!Player::accepts(&off, 3));
    let mut nowhere = world();
    nowhere.player_position = SlotPosition { x: 0, y: 0, level: 2 };
    assert!(!Player::accepts(&nowhere, 3));
}

#[test]
fn a_new_player_perceives_its_surroundings() {
    let p = Player::new(world(), 2);
    assert_eq!(p.radius(), 2);
    assert_eq!(p.ambient().biome, Biome::PlainCave(WaterCloseness::Land));
    assert_eq!(p.vision().len(), 25);
    assert_eq!(p.vision()[12], 131072);
    assert_eq!(p.world().player_position, SlotPosition { x: 0, y: 0, level: 1 });
}

#[test]
fn steps_move_the_player_by_one_cell() {
    let mut p = Player::new(world(), 2);
    assert!(p.step_down());
    assert_eq!(p.world().player_position, SlotPosition { x: 0, y: 1, level: 1 });
    assert!(p.step_right());
    assert_eq!(p.world().player_position, SlotPosition { x: 1, y: 1, level: 1 });
    assert!(p.step_up());
    assert_eq!(p.world().player_position, SlotPosition { x: 1, y: 0, level: 1 });
    assert!(p.step_left());
    assert_eq!(p.world().player_position, SlotPosition { x: 0, y: 0, level: 1 });
    assert_eq!(p.world().levels[1].entity(0, 0), Some(Entity::Creature(hero())));
    assert_eq!(p.world().levels[1].entity(1, 0), None);
}

#[test]
fn steps_wrap_around_the_torus() {
    let mut p = Player::new(world(), 2);
    assert!(p.step_up());
    assert_eq!(p.world().player_position, SlotPosition { x: 0, y: 7, level: 1 });
    assert!(p.step_left());
    assert_eq!(p.world().player_position, SlotPosition { x: 7, y: 7, level: 1 });
    assert_eq!(p.world().levels[1].entity(7, 7), Some(Entity::Creature(hero())));
    assert_eq!(p.world().levels[1].entity(0, 0), None);
}

#[test]
fn the_player_swims_but_does_not_walk_through_walls_or_others() {
    let mut w = world();
    w.levels[1].set_tile(0, 1, Tile::Water);
    w.levels[1].set_tile(1, 0, Tile::Void);
    w.levels[1].set_tile(0, 7, Tile::OakTree);
    w.levels[1].set_entity(7, 0, Some(Entity::Object(ObjectType::Stone)));
    let mut p = Player::new(w, 2);
    assert!(!p.step_right());
    assert!(!p.step_up());
    assert!(!p.step_left());
    assert_eq!(p.world().player_position, SlotPosition { x: 0, y: 0, level: 1 });
    assert_eq!(p.world().levels[1].entity(7, 0), Some(Entity::Object(ObjectType::Stone)));
    assert!(p.step_down());
    assert_eq!(p.world().player_position, SlotPosition { x: 0, y: 1, level: 1 });
    assert!(p.world().levels[1].tile(0, 1).is_swimmable());
    assert_eq!(p.world().levels[1].entity(0, 0), None);
}

#[test]
fn a_portal_takes_the_player_to_the_other_level() {
    let mut w = world();
    w.levels[1].set_tile(0, 0, Tile::GotoOverworld);
    w.levels[0].set_tile(0, 0, Tile::GotoUnderworld);
    let mut p = Player::new(w, 2);
    assert!(p.try_enter());
    assert_eq!(p.world().player_position, SlotPosition { x: 0, y: 0, level: 0 });
    assert_eq!(p.world().levels[0].entity(0, 0), Some(Entity::Creature(hero())));
    assert_eq!(p.world().levels[1].entity(0, 0), None);
    assert!(p.try_enter());
    assert_eq!(p.world().player_position, SlotPosition { x: 0, y: 0, level: 1 });
    assert_eq!(p.world().levels[1].entity(0, 0), Some(Entity::Creature(hero())));
}

#[test]
fn whoever_stands_at_the_far_end_of_a_portal_comes_back() {
    let mut w = world();
    w.levels[1].set_tile(0, 0, Tile::GotoOverworld);
    w.levels[0].set_entity(0, 0, Some(Entity::Object(ObjectType::Stone)));
    let mut p = Player::new(w, 2);
    assert!(p.try_enter());
    assert_eq!(p.world().levels[0].entity(0, 0), Some(Entity::Creature(hero())));
    assert_eq!(p.world().levels[1].entity(0, 0), Some(Entity::Object(ObjectType::Stone)));
}

#[test]
fn without_a_portal_nothing_happens() {
    let mut p = Player::new(world(), 2);
    assert!(!p.try_enter());
    assert_eq!(p.world().player_position, SlotPosition { x: 0, y: 0, level: 1 });
}

#[test]
fn a_tick_refreshes_what_the_player_perceives() {
    let mut w = world();
    for x in 0..8 {
        for y in 0..8 {
            w.levels[1].set_tile(x, y, if y >= 4 { Tile::Grass } else { Tile::Stone });
        }
    }
    w.player_position = SlotPosition { x: 4, y: 1, level: 1 };
    w.levels[1].swap_entities((0, 0), (4, 1));
    let mut p = Player::new(w, 1);
    assert_eq!(p.ambient().biome, Biome::PlainCave(WaterCloseness::Land));
    for _ in 0..4 {
        assert!(p.step_down());
    }
    assert_eq!(p.ambient().biome, Biome::PlainCave(WaterCloseness::Land));
    let mut random = FastRandom::new(1);
    assert_eq!(p.tick_with(&mut random), Ok(()));
    assert_eq!(p.ambient().biome, Biome::GrassyArea(WaterCloseness::Land));
    assert_eq!(p.world().player_position, SlotPosition { x: 4, y: 5, level: 1 });
    assert_eq!(random.state(), 1);
    assert_eq!(p.tick(), Ok(()));
}

#[test]
fn a_tick_reports_what_it_cannot_resolve() {
    let mut w = world();
    let mut hungry = hero();
    hungry.body.nutrition = 1;
    w.levels[0].set_entity(3, 3, Some(Entity::Creature(hungry)));
    let mut p = Player::new(w, 1);
    let mut random = FastRandom::new(1);
    assert_eq!(
        p.tick_with(&mut random),
        Err(Unresolved::HungryAction(SlotPosition { x: 3, y: 3, level: 0 }))
    );
    assert!(Player::accepts(p.world(), 1));
}

#[test]
fn a_world_of_one_level_can_be_played() {
    let mut w: World<4, 1> = World {
        levels: [Level::filled(Tile::Grass)],
        player_position: SlotPosition { x: 0, y: 2, level: 0 },
        species: HashMap::new(),
    };
    w.levels[0].set_entity(0, 2, Some(Entity::Creature(hero())));
    assert!(Player::accepts(&w, 2));
    let mut p = Player::new(w, 2);
    assert!(p.step_left());
    assert_eq!(p.world().player_position, SlotPosition { x: 3, y: 2, level: 0 });
    assert!(p.world().levels[0].entity(3, 2).is_some());
    assert!(p.world().levels[0].entity(0, 2).is_none());
    assert!(!p.try_enter());
    assert_eq!(p.world().player_position, SlotPosition { x: 3, y: 2, level: 0 });
    let mut random = FastRandom::new(5);
    assert_eq!(p.tick_with(&mut random), Ok(()));
    assert_eq!(p.vision()[12], 131072);
}
