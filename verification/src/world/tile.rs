//! Terrain kinds and the capability predicates that classify them.

use vstd::prelude::*;

verus! {

/// The material of one grid cell. A tile carries no state of its own.
#[derive(Debug, Copy, Clone, PartialEq, Eq, Structural)]
pub enum Tile {
    GotoUnderworld,
    GotoOverworld,
    Void,
    OverworldGravel,
    OverworldScraps,
    OverworldWater,
    OverworldDeepWater,
    Stone,
    Dirt,
    Sand,
    Snow,
    ThinGrass,
    Grass,
    AcaciaTree,
    BirchTree,
    GoldenTree,
    OakTree,
    PeachTree,
    PalmTree,
    SpruceTree,
    DungeonFloor,
    DungeonWall,
    SeaWeed,
    Water,
    DeepWater,
}

impl Tile {
    /// Water of either world, shallow or deep.
    pub open spec fn spec_is_swimmable(&self) -> bool {
        matches!(
            *self,
            Tile::DeepWater | Tile::Water | Tile::OverworldDeepWater | Tile::OverworldWater
        )
    }

    /// Any of the seven tree kinds.
    pub open spec fn spec_is_tree(&self) -> bool {
        matches!(
            *self,
            Tile::PalmTree | Tile::SpruceTree | Tile::AcaciaTree | Tile::BirchTree
                | Tile::GoldenTree | Tile::OakTree | Tile::PeachTree
        )
    }

    /// Ground a creature can stand on: everything but void, walls, water and trees.
    pub open spec fn spec_is_floor(&self) -> bool {
        !(matches!(*self, Tile::Void | Tile::DungeonWall) || self.spec_is_swimmable()
            || self.spec_is_tree())
    }

    /// Grass, and the trees that grow on it.
    pub open spec fn spec_is_grassy(&self) -> bool {
        matches!(
            *self,
            Tile::Grass | Tile::ThinGrass | Tile::AcaciaTree | Tile::BirchTree | Tile::GoldenTree
                | Tile::OakTree | Tile::PeachTree
        )
    }

    /// Bare or thinly overgrown rock.
    pub open spec fn spec_is_stony(&self) -> bool {
        matches!(*self, Tile::Stone | Tile::ThinGrass)
    }

    /// Only the void blocks sight.
    pub open spec fn spec_is_opaque(&self) -> bool {
        matches!(*self, Tile::Void)
    }

    /// One of the two portal markers.
    pub open spec fn spec_is_portal(&self) -> bool {
        matches!(*self, Tile::GotoUnderworld | Tile::GotoOverworld)
    }

    /// Whether a creature can stand on the tile.
    #[verifier::when_used_as_spec(spec_is_floor)]
    pub fn is_floor(&self) -> (r: bool)
        ensures
            r == self.spec_is_floor(),
    {
        !matches!(
            self,
            Tile::Void | Tile::DungeonWall | Tile::DeepWater | Tile::Water
                | Tile::OverworldDeepWater | Tile::OverworldWater | Tile::AcaciaTree
                | Tile::BirchTree | Tile::GoldenTree | Tile::OakTree | Tile::PalmTree
                | Tile::PeachTree | Tile::SpruceTree
        )
    }

    /// Whether the tile is open water.
    #[verifier::when_used_as_spec(spec_is_swimmable)]
    pub fn is_swimmable(&self) -> (r: bool)
        ensures
            r == self.spec_is_swimmable(),
    {
        matches!(
            self,
            Tile::DeepWater | Tile::Water | Tile::OverworldDeepWater | Tile::OverworldWater
        )
    }

    /// Whether the tile is a tree.
    #[verifier::when_used_as_spec(spec_is_tree)]
    pub fn is_tree(&self) -> (r: bool)
        ensures
            r == self.spec_is_tree(),
    {
        matches!(
            self,
            Tile::PalmTree | Tile::SpruceTree | Tile::AcaciaTree | Tile::BirchTree
                | Tile::GoldenTree | Tile::OakTree | Tile::PeachTree
        )
    }

    /// Whether grass grows on the tile.
    #[verifier::when_used_as_spec(spec_is_grassy)]
    pub fn is_grassy(&self) -> (r: bool)
        ensures
            r == self.spec_is_grassy(),
    {
        matches!(
            self,
            Tile::Grass | Tile::ThinGrass | Tile::AcaciaTree | Tile::BirchTree | Tile::GoldenTree
                | Tile::OakTree | Tile::PeachTree
        )
    }

    /// Whether the tile is rock, bare or thinly overgrown.
    #[verifier::when_used_as_spec(spec_is_stony)]
    pub fn is_stony(&self) -> (r: bool)
        ensures
            r == self.spec_is_stony(),
    {
        matches!(self, Tile::Stone | Tile::ThinGrass)
    }

    /// Whether the tile blocks sight.
    #[verifier::when_used_as_spec(spec_is_opaque)]
    pub fn is_opaque(&self) -> (r: bool)
        ensures
            r == self.spec_is_opaque(),
    {
        matches!(self, Tile::Void)
    }

    /// Whether the tile is a portal to the other level.
    #[verifier::when_used_as_spec(spec_is_portal)]
    pub fn is_portal(&self) -> (r: bool)
        ensures
            r == self.spec_is_portal(),
    {
        matches!(self, Tile::GotoUnderworld | Tile::GotoOverworld)
    }
}

/// The capability predicates agree with one another: nothing is both floor
/// and water, tree, void or wall; both portal markers are floor; trees and
/// water are disjoint; and whatever blocks sight is never floor.
pub proof fn lemma_tile_predicates_consistent(t: Tile)
    ensures
        t.is_floor() ==> !t.is_swimmable() && !t.is_tree() && !t.is_opaque(),
        t.is_portal() ==> t.is_floor(),
        t.is_tree() ==> !t.is_swimmable(),
        t == Tile::Void ==> !t.is_floor() && !t.is_swimmable() && t.is_opaque(),
        t.is_floor() || t.is_swimmable() || t.is_tree() || t == Tile::Void || t
            == Tile::DungeonWall,
{}

} // verus!
