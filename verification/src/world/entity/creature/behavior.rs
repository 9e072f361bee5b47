//! Temperament and memory of a creature.

use vstd::prelude::*;
use crate::world::slot_position::SlotPosition;

verus! {

/// The temperament of a creature.
#[derive(Debug, Copy, Clone, PartialEq, Eq, Structural)]
pub struct BehaviorStats {
    /// How often the creature scans its surroundings.
    pub awareness: u8,
    /// How likely it is to be curious rather than idle.
    pub curiosity: u8,
    pub friendliness: i8,
}

/// A creature's current behavioral priority.
#[derive(Debug, Copy, Clone, PartialEq, Eq, Structural)]
pub enum Interest {
    Hungry,
    Scared,
    Curious,
    Idle,
}

impl Interest {
    /// The lower-case name of the interest.
    pub fn label(&self) -> (r: &'static str)
        ensures
            r@ == (match *self {
                Interest::Hungry => "hungry"@,
                Interest::Scared => "scared"@,
                Interest::Curious => "curious"@,
                Interest::Idle => "idle"@,
            }),
    {
        match self {
            Interest::Hungry => "hungry",
            Interest::Scared => "scared",
            Interest::Curious => "curious",
            Interest::Idle => "idle",
        }
    }
}

/// What a creature keeps in mind from tick to tick.
#[derive(Debug, Copy, Clone, PartialEq, Eq, Structural)]
pub struct Memory {
    /// Where the creature wants to go.
    pub target: Option<SlotPosition>,
    /// What it wants now.
    pub current_interest: Interest,
    /// What it will get back to later.
    pub last_interest: Interest,
}

impl Memory {
    /// A blank memory: idle, with no target.
    pub fn new() -> (r: Self)
        ensures
            r == (Memory {
                target: None,
                current_interest: Interest::Idle,
                last_interest: Interest::Idle,
            }),
    {
        Self { target: None, current_interest: Interest::Idle, last_interest: Interest::Idle }
    }
}

} // verus!
