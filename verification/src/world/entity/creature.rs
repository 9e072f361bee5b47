//! Creatures: what they are made of and what they want.

use vstd::prelude::*;
use crate::util::fast_random::{xorshift, FastRandom};

pub mod behavior;
pub mod body;
pub mod species;

pub use self::behavior::{BehaviorStats, Interest, Memory};
pub use self::body::BodyStats;
pub use self::species::{
    base_creature_from_species, creature_from_species, Diet, SpeciesID, SpeciesMap,
    SpeciesTemplate,
};

verus! {

/// One living creature. Its species is named by identifier and looked up in
/// the world's species table; the creature never holds the template itself.
#[derive(Debug, Copy, Clone, PartialEq, Eq)]
pub struct Creature {
    pub species: SpeciesID,
    pub body: BodyStats,
    pub behavior: BehaviorStats,
    pub memory: Memory,
}

/// The health at or below which a creature is scared: a quarter of the
/// maximum, but at least one.
pub open spec fn scared_threshold(max_health: u8) -> int {
    if max_health / 4 >= 1 {
        max_health as int / 4
    } else {
        1
    }
}

/// The nutrition at or below which a creature is hungry: two thirds of the
/// maximum, but at least one.
pub open spec fn hungry_threshold(max_nutrition: u8) -> int {
    if max_nutrition * 2 / 3 >= 1 {
        max_nutrition * 2 / 3
    } else {
        1
    }
}

/// The memory after switching to `interest`, remembering what was wanted
/// before unless `interest` is already current.
pub open spec fn switch_interest(memory: Memory, interest: Interest) -> Memory {
    if memory.current_interest == interest {
        memory
    } else {
        Memory {
            target: memory.target,
            current_interest: interest,
            last_interest: memory.current_interest,
        }
    }
}

impl Creature {
    /// Whether the interest computation consumes a random draw: only a
    /// healthy, fed and idle creature rolls for curiosity.
    pub open spec fn rolls_for_curiosity(&self) -> bool {
        &&& self.body.health > scared_threshold(self.body.max_health)
        &&& self.body.nutrition > hungry_threshold(self.body.max_nutrition)
        &&& self.memory.current_interest == Interest::Idle
    }

    /// The memory after one interest computation, `draw` being the
    /// generator's next state. Fear comes before hunger, hunger before
    /// curiosity; a creature with neither need resumes its previous interest
    /// unless it is idle and its curiosity beats the low byte of the draw.
    pub open spec fn spec_interests(&self, draw: u64) -> Memory {
        if self.body.health <= scared_threshold(self.body.max_health) {
            switch_interest(self.memory, Interest::Scared)
        } else if self.body.nutrition <= hungry_threshold(self.body.max_nutrition) {
            switch_interest(self.memory, Interest::Hungry)
        } else if self.memory.current_interest == Interest::Idle && self.behavior.curiosity
            > draw % 256 {
            Memory {
                target: self.memory.target,
                current_interest: Interest::Curious,
                last_interest: Interest::Idle,
            }
        } else {
            Memory {
                target: self.memory.target,
                current_interest: self.memory.last_interest,
                last_interest: self.memory.last_interest,
            }
        }
    }

    /// Recomputes what the creature wants and returns it. Only the memory
    /// changes; the generator advances by one round exactly when the creature
    /// rolls for curiosity.
    pub fn calculate_interests(&mut self, random: &mut FastRandom) -> (r: Interest)
        ensures
            final(self).species == old(self).species,
            final(self).body == old(self).body,
            final(self).behavior == old(self).behavior,
            final(self).memory == old(self).spec_interests(xorshift(old(random)@)),
            r == final(self).memory.current_interest,
            final(random)@ == (if old(self).rolls_for_curiosity() {
                xorshift(old(random)@)
            } else {
                old(random)@
            }),
    {
        let scared_at: u8 = if self.body.max_health / 4 >= 1 {
            self.body.max_health / 4
        } else {
            1
        };
        let fed: u16 = self.body.max_nutrition as u16 * 2 / 3;
        let hungry_at: u16 = if fed >= 1 {
            fed
        } else {
            1
        };
        if self.body.health <= scared_at {
            if !matches!(self.memory.current_interest, Interest::Scared) {
                self.memory.last_interest = self.memory.current_interest;
                self.memory.current_interest = Interest::Scared;
            }
        } else if self.body.nutrition as u16 <= hungry_at {
            if !matches!(self.memory.current_interest, Interest::Hungry) {
                self.memory.last_interest = self.memory.current_interest;
                self.memory.current_interest = Interest::Hungry;
            }
        } else {
            if matches!(self.memory.current_interest, Interest::Idle) && self.behavior.curiosity as u64
                > random.next_less_than(256) {
                self.memory.last_interest = self.memory.current_interest;
                self.memory.current_interest = Interest::Curious;
            } else {
                self.memory.current_interest = self.memory.last_interest;
            }
        }
        self.memory.current_interest
    }
}

} // verus!
