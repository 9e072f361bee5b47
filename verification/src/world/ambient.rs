//! What the surroundings of a position are like.

use vstd::prelude::*;
use crate::util::torus::{lemma_wrap, wrap, wrap_offset};
use crate::world::level::{flat_index, Level, Slot};
use crate::world::slot_position::SlotPosition;
use crate::world::tile::Tile;
use crate::world::World;

verus! {

/// The dominant terrain around a position.
#[derive(Debug, Copy, Clone, PartialEq, Eq, Structural)]
pub enum Biome {
    GrassyArea(WaterCloseness),
    Forest(WaterCloseness),
    PlainCave(WaterCloseness),
    Sea,
}

/// Whether a place on land has much water around it.
#[derive(Debug, Copy, Clone, PartialEq, Eq, Structural)]
pub enum WaterCloseness {
    Land,
    Coast,
}

/// The result of surveying the surroundings of a position.
#[derive(Debug, Copy, Clone, PartialEq, Eq, Structural)]
pub struct Ambient {
    pub biome: Biome,
}

/// The classes of terrain that a survey counts. Trees are counted on their
/// own; every tile is also counted in the first of the other three classes
/// that it falls in, if any.
#[derive(Debug, Copy, Clone, PartialEq, Eq, Structural)]
pub enum Cover {
    Tree,
    Grassy,
    Stony,
    Swimmable,
}

impl Cover {
    /// Whether the survey counts `tile` in this class.
    pub open spec fn counts(&self, tile: Tile) -> bool {
        match *self {
            Cover::Tree => tile.is_tree(),
            Cover::Grassy => tile.is_grassy(),
            Cover::Stony => !tile.is_grassy() && tile.is_stony(),
            Cover::Swimmable => !tile.is_grassy() && !tile.is_stony() && tile.is_swimmable(),
        }
    }
}

/// How many of the `rows` cells of column `x` that start at row `y` the
/// survey counts in `cover`. Coordinates wrap around.
pub open spec fn count_column(
    slots: Seq<Slot>,
    size: int,
    x: int,
    y: int,
    rows: nat,
    cover: Cover,
) -> nat
    decreases rows,
{
    if rows == 0 {
        0
    } else {
        let here: nat = if cover.counts(slots[flat_index(x, y + rows - 1, size)].tile) {
            1
        } else {
            0
        };
        count_column(slots, size, x, y, (rows - 1) as nat, cover) + here
    }
}

/// How many cells of the window of `cols` columns and `rows` rows whose
/// first cell is `(x, y)` the survey counts in `cover`.
pub open spec fn count_window(
    slots: Seq<Slot>,
    size: int,
    x: int,
    y: int,
    cols: nat,
    rows: nat,
    cover: Cover,
) -> nat
    decreases cols,
{
    if cols == 0 {
        0
    } else {
        count_window(slots, size, x, y, (cols - 1) as nat, rows, cover) + count_column(
            slots,
            size,
            x + cols - 1,
            y,
            rows,
            cover,
        )
    }
}

/// The biome of a window of `total` cells with the given counts. Water wins
/// where it outnumbers both grass and stone. Elsewhere the place is coast if
/// more than three tenths of the window is water, grass beats stone only by
/// outnumbering it, and grassland with more than one tree in ten cells is
/// forest.
pub open spec fn classify(swimmable: nat, grassy: nat, stony: nat, tree: nat, total: nat) -> Biome {
    if swimmable > grassy && swimmable > stony {
        Biome::Sea
    } else {
        let w = if 10 * swimmable > 3 * total {
            WaterCloseness::Coast
        } else {
            WaterCloseness::Land
        };
        if grassy > stony {
            if 10 * tree > total {
                Biome::Forest(w)
            } else {
                Biome::GrassyArea(w)
            }
        } else {
            Biome::PlainCave(w)
        }
    }
}

/// The biome of the square window of the given radius around `(x, y)`.
pub open spec fn survey(slots: Seq<Slot>, size: int, x: int, y: int, radius: nat) -> Biome {
    let side = 2 * radius + 1;
    classify(
        count_window(slots, size, x - radius, y - radius, side, side, Cover::Swimmable),
        count_window(slots, size, x - radius, y - radius, side, side, Cover::Grassy),
        count_window(slots, size, x - radius, y - radius, side, side, Cover::Stony),
        count_window(slots, size, x - radius, y - radius, side, side, Cover::Tree),
        side * side,
    )
}

/// A column of `rows` cells holds at most `rows` cells of any class.
pub proof fn lemma_count_column_bound(
    slots: Seq<Slot>,
    size: int,
    x: int,
    y: int,
    rows: nat,
    cover: Cover,
)
    ensures
        count_column(slots, size, x, y, rows, cover) <= rows,
    decreases rows,
{
    if rows > 0 {
        lemma_count_column_bound(slots, size, x, y, (rows - 1) as nat, cover);
    }
}

/// A window holds at most as many cells of any class as it has cells.
pub proof fn lemma_count_window_bound(
    slots: Seq<Slot>,
    size: int,
    x: int,
    y: int,
    cols: nat,
    rows: nat,
    cover: Cover,
)
    ensures
        count_window(slots, size, x, y, cols, rows, cover) <= cols * rows,
    decreases cols,
{
    if cols > 0 {
        lemma_count_window_bound(slots, size, x, y, (cols - 1) as nat, rows, cover);
        lemma_count_column_bound(slots, size, x + cols - 1, y, rows, cover);
        assert((cols - 1) * rows + rows == cols * rows) by (nonlinear_arith);
    }
}

impl WaterCloseness {
    /// The lower-case name of the qualifier.
    pub fn label(&self) -> (r: &'static str)
        ensures
            r@ == (match *self {
                WaterCloseness::Land => "land"@,
                WaterCloseness::Coast => "coast"@,
            }),
    {
        match self {
            WaterCloseness::Land => "land",
            WaterCloseness::Coast => "coast",
        }
    }
}

impl Biome {
    /// The text of the description.
    pub open spec fn spec_label(&self) -> Seq<char> {
        match *self {
            Biome::GrassyArea(WaterCloseness::Land) => "grassy area, land"@,
            Biome::GrassyArea(WaterCloseness::Coast) => "grassy area, coast"@,
            Biome::Forest(WaterCloseness::Land) => "forest, land"@,
            Biome::Forest(WaterCloseness::Coast) => "forest, coast"@,
            Biome::PlainCave(WaterCloseness::Land) => "plain cave, land"@,
            Biome::PlainCave(WaterCloseness::Coast) => "plain cave, coast"@,
            Biome::Sea => "sea"@,
        }
    }

    /// A short description: the kind of place and, on land, its qualifier.
    pub fn label(&self) -> (r: &'static str)
        ensures
            r@ == self.spec_label(),
    {
        match self {
            Biome::GrassyArea(WaterCloseness::Land) => "grassy area, land",
            Biome::GrassyArea(WaterCloseness::Coast) => "grassy area, coast",
            Biome::Forest(WaterCloseness::Land) => "forest, land",
            Biome::Forest(WaterCloseness::Coast) => "forest, coast",
            Biome::PlainCave(WaterCloseness::Land) => "plain cave, land",
            Biome::PlainCave(WaterCloseness::Coast) => "plain cave, coast",
            Biome::Sea => "sea",
        }
    }
}

impl Ambient {
    /// The description of the biome.
    pub fn label(&self) -> (r: &'static str)
        ensures
            r@ == self.biome.spec_label(),
    {
        self.biome.label()
    }
}

/// Decides the biome from the counts of a survey.
pub fn classify_counts(swimmable: u64, grassy: u64, stony: u64, tree: u64, total: u64) -> (r:
    Biome)
    ensures
        r == classify(swimmable as nat, grassy as nat, stony as nat, tree as nat, total as nat),
{
    if swimmable > grassy && swimmable > stony {
        Biome::Sea
    } else {
        let w = if 10 * (swimmable as u128) > 3 * (total as u128) {
            WaterCloseness::Coast
        } else {
            WaterCloseness::Land
        };
        if grassy > stony {
            if 10 * (tree as u128) > total as u128 {
                Biome::Forest(w)
            } else {
                Biome::GrassyArea(w)
            }
        } else {
            Biome::PlainCave(w)
        }
    }
}

/// The largest radius a survey accepts; the window then still has fewer
/// than 2^62 cells.
pub const MAX_SURVEY_RADIUS: usize = 0x3fff_ffff;

impl<const SIZE: usize> Level<SIZE> {
    /// Surveys the square window of `2 * radius + 1` columns and rows
    /// centred on `(x, y)` and names its dominant biome. The window wraps
    /// around the torus; a window wider than the level counts cells more
    /// than once.
    pub fn get_ambient_at(&self, x: usize, y: usize, radius: usize) -> (r: Ambient)
        requires
            radius <= MAX_SURVEY_RADIUS,
        ensures
            r.biome == survey(self@, SIZE as int, x as int, y as int, radius as nat),
    {
        proof {
            use_type_invariant(self);
        self.lemma_inv();
        }
        let side: u64 = radius as u64 * 2 + 1;
        let mut swimmable_count: u64 = 0;
        let mut grassy_count: u64 = 0;
        let mut stony_count: u64 = 0;
        let mut tree_count: u64 = 0;
        let ghost x0 = x as int - radius as int;
        let ghost y0 = y as int - radius as int;
        let mut i: u64 = 0;
        proof {
            assert(side * side <= 0x7fff_ffff * 0x7fff_ffff) by (nonlinear_arith)
                requires
                    side <= 0x7fff_ffff,
            ;
        }
        while i < side
            invariant
                self.wf(),
                i <= side,
                side == 2 * radius + 1,
                side <= 0x7fff_ffff,
                side * side <= 0x7fff_ffff * 0x7fff_ffff,
                x0 == x as int - radius as int,
                y0 == y as int - radius as int,
                swimmable_count == count_window(
                    self@,
                    SIZE as int,
                    x0,
                    y0,
                    i as nat,
                    side as nat,
                    Cover::Swimmable,
                ),
                grassy_count == count_window(
                    self@,
                    SIZE as int,
                    x0,
                    y0,
                    i as nat,
                    side as nat,
                    Cover::Grassy,
                ),
                stony_count == count_window(
                    self@,
                    SIZE as int,
                    x0,
                    y0,
                    i as nat,
                    side as nat,
                    Cover::Stony,
                ),
                tree_count == count_window(
                    self@,
                    SIZE as int,
                    x0,
                    y0,
                    i as nat,
                    side as nat,
                    Cover::Tree,
                ),
            decreases side - i,
        {
            let cx: usize = wrap_offset(x, i as i64 - radius as i64, SIZE);
            let ghost swimmable_before = swimmable_count;
            let ghost grassy_before = grassy_count;
            let ghost stony_before = stony_count;
            let ghost tree_before = tree_count;
            proof {
                lemma_count_window_bound(self@, SIZE as int, x0, y0, i as nat, side as nat, Cover::Swimmable);
                lemma_count_window_bound(self@, SIZE as int, x0, y0, i as nat, side as nat, Cover::Grassy);
                lemma_count_window_bound(self@, SIZE as int, x0, y0, i as nat, side as nat, Cover::Stony);
                lemma_count_window_bound(self@, SIZE as int, x0, y0, i as nat, side as nat, Cover::Tree);
                assert(i * side + side <= side * side) by (nonlinear_arith)
                    requires
                        0 <= i < side,
                ;
            }
            let mut j: u64 = 0;
            while j < side
                invariant
                    self.wf(),
                    j <= side,
                    i < side,
                    side == 2 * radius + 1,
                    side <= 0x7fff_ffff,
                    side * side <= 0x7fff_ffff * 0x7fff_ffff,
                    i * side + side <= side * side,
                    swimmable_before <= i * side,
                    grassy_before <= i * side,
                    stony_before <= i * side,
                    tree_before <= i * side,
                    x0 == x as int - radius as int,
                    y0 == y as int - radius as int,
                    cx == wrap(x0 + i, SIZE as int),
                    swimmable_count == swimmable_before + count_column(
                        self@,
                        SIZE as int,
                        x0 + i,
                        y0,
                        j as nat,
                        Cover::Swimmable,
                    ),
                    grassy_count == grassy_before + count_column(
                        self@,
                        SIZE as int,
                        x0 + i,
                        y0,
                        j as nat,
                        Cover::Grassy,
                    ),
                    stony_count == stony_before + count_column(
                        self@,
                        SIZE as int,
                        x0 + i,
                        y0,
                        j as nat,
                        Cover::Stony,
                    ),
                    tree_count == tree_before + count_column(
                        self@,
                        SIZE as int,
                        x0 + i,
                        y0,
                        j as nat,
                        Cover::Tree,
                    ),
                decreases side - j,
            {
                let cy: usize = wrap_offset(y, j as i64 - radius as i64, SIZE);
                proof {
                    lemma_wrap(x0 + i, SIZE as int);
                    lemma_wrap(y0 + j, SIZE as int);
                    lemma_count_column_bound(self@, SIZE as int, x0 + i, y0, j as nat, Cover::Swimmable);
                    lemma_count_column_bound(self@, SIZE as int, x0 + i, y0, j as nat, Cover::Grassy);
                    lemma_count_column_bound(self@, SIZE as int, x0 + i, y0, j as nat, Cover::Stony);
                    lemma_count_column_bound(self@, SIZE as int, x0 + i, y0, j as nat, Cover::Tree);
                }
                let tile = self.tile(cx, cy);
                if tile.is_tree() {
                    tree_count += 1;
                }
                if tile.is_grassy() {
                    grassy_count += 1;
                } else if tile.is_stony() {
                    stony_count += 1;
                } else if tile.is_swimmable() {
                    swimmable_count += 1;
                }
                j += 1;
            }
            i += 1;
        }
        Ambient { biome: classify_counts(swimmable_count, grassy_count, stony_count, tree_count, side * side) }
    }
}

impl<const SIZE: usize, const H: usize> World<SIZE, H> {
    /// Surveys the surroundings of `at` on its own level.
    pub fn get_ambient_at(&self, at: &SlotPosition, radius: usize) -> (r: Ambient)
        requires
            at.level < H,
            radius <= MAX_SURVEY_RADIUS,
        ensures
            r.biome == survey(
                self.levels[at.level as int]@,
                SIZE as int,
                at.x as int,
                at.y as int,
                radius as nat,
            ),
    {
        self.levels[at.level].get_ambient_at(at.x, at.y, radius)
    }
}

} // verus!
