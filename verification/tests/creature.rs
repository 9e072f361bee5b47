use std::collections::HashMap;

use simulation::util::FastRandom;
use simulation::world::creature::species::has_species;
use simulation::world::creature::{
    base_creature_from_species, creature_from_species, BehaviorStats, BodyStats, Creature, Diet,
    Interest, Memory, SpeciesID, SpeciesMap, SpeciesTemplate,
};
use simulation::world::SlotPosition;

fn creature(health: u8, nutrition: u8, curiosity: u8) -> Creature {
    Creature {
        species: SpeciesID(0),
        body: BodyStats {
            max_health: 100,
            max_nutrition: 90,
            health,
            nutrition,
            karma: 0,
            smelliness: 0,
            strength: 0,
        },
        behavior: BehaviorStats { awareness: 0, curiosity, friendliness: 0 },
        memory: Memory::new(),
    }
}

fn template(name: &str) -> SpeciesTemplate {
    SpeciesTemplate {
        name: name.to_string(),
        symbol: 'r',
        diet: Diet { meat: false, plants: true, light: false },
        max_health: 40,
        max_nutrition: 60,
        smelliness: 3,
        strength: 7,
        awareness: 11,
        curiosity: 200,
        friendliness: -5,
    }
}

#[test]
fn a_new_memory_is_idle_without_target() {
    let m = Memory::new();
    assert_eq!(m.target, None);
    assert_eq!(m.current_interest, Interest::Idle);
    assert_eq!(m.last_interest, Interest::Idle);
}

#[test]
fn interests_have_names() {
    assert_eq!(Interest::Hungry.label(), "hungry");
    assert_eq!(Interest::Scared.label(), "scared");
    assert_eq!(Interest::Curious.label(), "curious");
    assert_eq!(Interest::Idle.label(), "idle");
}

#[test]
fn a_quarter_of_the_health_or_less_scares() {
    let mut random = FastRandom::new(1);
    let mut c = creature(25, 90, 0);
    assert_eq!(c.calculate_interests(&mut random), Interest::Scared);
    assert_eq!(c.memory.last_interest, Interest::Idle);
    assert_eq!(random.state(), 1);
    let mut c = creature(26, 90, 0);
    assert_eq!(c.calculate_interests(&mut random), Interest::Idle);
}

#[test]
fn the_scare_threshold_is_at_least_one() {
    let mut random = FastRandom::new(1);
    let mut c = creature(1, 90, 0);
    c.body.max_health = 3;
    assert_eq!(c.calculate_interests(&mut random), Interest::Scared);
    let mut c = creature(2, 90, 0);
    c.body.max_health = 3;
    assert_eq!(c.calculate_interests(&mut random), Interest::Idle);
}

#[test]
fn two_thirds_of_the_nutrition_or_less_makes_hungry() {
    let mut random = FastRandom::new(1);
    let mut c = creature(100, 60, 0);
    assert_eq!(c.calculate_interests(&mut random), Interest::Hungry);
    assert_eq!(random.state(), 1);
    let mut c = creature(100, 61, 0);
    assert_eq!(c.calculate_interests(&mut random), Interest::Idle);
    let mut c = creature(100, 170, 0);
    c.body.max_nutrition = 255;
    assert_eq!(c.calculate_interests(&mut random), Interest::Hungry);
    let mut c = creature(100, 171, 0);
    c.body.max_nutrition = 255;
    assert_eq!(c.calculate_interests(&mut random), Interest::Idle);
}

#[test]
fn fear_comes_before_hunger() {
    let mut random = FastRandom::new(1);
    let mut c = creature(10, 10, 255);
    assert_eq!(c.calculate_interests(&mut random), Interest::Scared);
    c.body.health = 100;
    assert_eq!(c.calculate_interests(&mut random), Interest::Hungry);
    assert_eq!(c.memory.last_interest, Interest::Scared);
}

#[test]
fn an_idle_creature_rolls_for_curiosity() {
    let mut random = FastRandom::new(1);
    let mut c = creature(100, 90, 18);
    assert_eq!(c.calculate_interests(&mut random), Interest::Curious);
    assert_eq!(c.memory.last_interest, Interest::Idle);
    assert_eq!(random.state(), 35651601);
    let mut random = FastRandom::new(1);
    let mut c = creature(100, 90, 17);
    assert_eq!(c.calculate_interests(&mut random), Interest::Idle);
    assert_eq!(random.state(), 35651601);
}

#[test]
fn a_creature_without_needs_resumes_its_previous_interest() {
    let mut random = FastRandom::new(1);
    let mut c = creature(100, 90, 255);
    c.memory.current_interest = Interest::Curious;
    c.memory.last_interest = Interest::Idle;
    c.memory.target = Some(SlotPosition { x: 1, y: 2, level: 0 });
    assert_eq!(c.calculate_interests(&mut random), Interest::Idle);
    assert_eq!(c.memory.last_interest, Interest::Idle);
    assert_eq!(c.memory.target, Some(SlotPosition { x: 1, y: 2, level: 0 }));
    assert_eq!(random.state(), 1);
    let mut c = creature(100, 90, 0);
    c.memory.current_interest = Interest::Scared;
    c.memory.last_interest = Interest::Curious;
    assert_eq!(c.calculate_interests(&mut random), Interest::Curious);
}

#[test]
fn staying_scared_keeps_the_memory() {
    let mut random = FastRandom::new(1);
    let mut c = creature(5, 90, 0);
    c.memory.current_interest = Interest::Scared;
    c.memory.last_interest = Interest::Curious;
    assert_eq!(c.calculate_interests(&mut random), Interest::Scared);
    assert_eq!(c.memory.last_interest, Interest::Curious);
}

#[test]
fn creatures_start_from_their_template() {
    let mut species: SpeciesMap = HashMap::new();
    species.insert(0, template("rat"));
    species.insert(7, template("bat"));
    assert!(has_species(&species, SpeciesID(7)));
    assert!(!has_species(&species, SpeciesID(1)));
    let c = base_creature_from_species(&species, SpeciesID(7));
    assert_eq!(c.species, SpeciesID(7));
    assert_eq!(
        c.body,
        BodyStats {
            max_health: 40,
            max_nutrition: 60,
            health: 40,
            nutrition: 60,
            karma: 0,
            smelliness: 3,
            strength: 7,
        }
    );
    assert_eq!(c.behavior, BehaviorStats { awareness: 11, curiosity: 200, friendliness: -5 });
    assert_eq!(c.memory, Memory::new());
    let mut random = FastRandom::new(1);
    let d = creature_from_species(&mut random, &species, SpeciesID(7));
    assert_eq!(c, d);
    assert_eq!(random.state(), 1);
}
