//! Bodily state of a creature.

use vstd::prelude::*;

verus! {

/// The bodily state of a creature.
#[derive(Debug, Copy, Clone, PartialEq, Eq, Structural)]
pub struct BodyStats {
    /// The health a creature starts with.
    pub max_health: u8,
    /// The nutrition a creature starts with.
    pub max_nutrition: u8,
    /// Zero means death.
    pub health: u8,
    /// Once zero is reached, the creature starts to take damage.
    pub nutrition: u8,
    /// Used for luck and for how others judge the creature.
    pub karma: i8,
    /// Can affect how much other creatures avoid this one.
    pub smelliness: u8,
    /// How much health, on average, a hit takes from an enemy.
    pub strength: u8,
}

} // verus!
