//! Species templates and the creatures made from them.

use vstd::prelude::*;
use std::collections::HashMap;
use crate::util::fast_random::FastRandom;
use crate::world::entity::creature::behavior::{BehaviorStats, Interest, Memory};
use crate::world::entity::creature::body::BodyStats;
use crate::world::entity::creature::Creature;

verus! {

/// The species table, keyed by the number inside a `SpeciesID`.
pub type SpeciesMap = HashMap<u64, SpeciesTemplate>;

/// The immutable archetype that every creature of a species starts from.
#[derive(Debug)]
pub struct SpeciesTemplate {
    pub name: String,
    pub symbol: char,
    pub diet: Diet,
    pub max_health: u8,
    pub max_nutrition: u8,
    pub smelliness: u8,
    pub strength: u8,
    pub awareness: u8,
    pub curiosity: u8,
    pub friendliness: i8,
}

/// The key of a species in the species table.
#[derive(Debug, Copy, Clone, Hash, PartialEq, Eq, Structural)]
pub struct SpeciesID(pub u64);

/// What a species feeds on.
#[derive(Debug, Copy, Clone, PartialEq, Eq, Structural)]
pub struct Diet {
    pub meat: bool,
    pub plants: bool,
    pub light: bool,
}

/// A fresh creature of species `id` built from `template`: full health and
/// nutrition, neutral karma, the template's traits and a blank memory.
pub open spec fn spawn(template: SpeciesTemplate, id: SpeciesID) -> Creature {
    Creature {
        species: id,
        behavior: BehaviorStats {
            awareness: template.awareness,
            curiosity: template.curiosity,
            friendliness: template.friendliness,
        },
        body: BodyStats {
            max_health: template.max_health,
            max_nutrition: template.max_nutrition,
            health: template.max_health,
            nutrition: template.max_nutrition,
            karma: 0,
            smelliness: template.smelliness,
            strength: template.strength,
        },
        memory: Memory {
            target: None,
            current_interest: Interest::Idle,
            last_interest: Interest::Idle,
        },
    }
}

/// Whether the table holds a template for `id`.
pub fn has_species(species: &SpeciesMap, species_id: SpeciesID) -> (r: bool)
    ensures
        r == species@.contains_key(species_id.0),
{
    species.contains_key(&species_id.0)
}

/// Builds a creature of the given species for the wild. The generator is
/// threaded through for individual variation but no draw is made yet, so the
/// result equals the species' baseline.
pub fn creature_from_species(
    random: &mut FastRandom,
    species: &SpeciesMap,
    species_id: SpeciesID,
) -> (r: Creature)
    requires
        species@.contains_key(species_id.0),
    ensures
        r == spawn(species@[species_id.0], species_id),
        final(random)@ == old(random)@,
{
    base_creature_from_species(species, species_id)
}

/// Builds the baseline creature of the given species, as used for the player.
pub fn base_creature_from_species(species: &SpeciesMap, species_id: SpeciesID) -> (r: Creature)
    requires
        species@.contains_key(species_id.0),
    ensures
        r == spawn(species@[species_id.0], species_id),
{
    let species_template = species.get(&species_id.0).unwrap();
    let max_health: u8 = species_template.max_health;
    let max_nutrition: u8 = species_template.max_nutrition;
    Creature {
        species: species_id,
        behavior: BehaviorStats {
            awareness: species_template.awareness,
            curiosity: species_template.curiosity,
            friendliness: species_template.friendliness,
        },
        body: BodyStats {
            max_health,
            max_nutrition,
            health: max_health,
            nutrition: max_nutrition,
            karma: 0,
            smelliness: species_template.smelliness,
            strength: species_template.strength,
        },
        memory: Memory::new(),
    }
}

} // verus!
