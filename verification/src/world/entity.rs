//! What can occupy a slot.

use vstd::prelude::*;
use crate::world::entity::creature::Creature;

pub mod creature;

verus! {

/// The occupant of a slot: a living creature or a static object.
#[derive(Debug, Copy, Clone, PartialEq, Eq)]
pub enum Entity {
    Creature(Creature),
    Object(ObjectType),
}

/// The kinds of static objects.
#[derive(Debug, Copy, Clone, PartialEq, Eq)]
pub enum ObjectType {
    Stone,
}

} // verus!
