//! The ring search: the nearest tile of some kind around a cell.
//!
//! Square rings of growing radius are walked around the centre. A ring is
//! either skipped, at random, or scanned cell by cell in a fixed order; the
//! first matching cell ends the search. The search gives up after the ring of
//! the largest radius allowed.

use vstd::prelude::*;
use crate::util::fast_random::{xorshift, FastRandom};
use crate::util::torus::{lemma_wrap, wrap, wrap_offset};
use crate::world::level::{cell_view, flat_index, Level, Slot};
use crate::world::tile::Tile;

verus! {

/// The kind of tile a ring search looks for.
#[derive(Debug, Copy, Clone, PartialEq, Eq, Structural)]
pub enum Target {
    /// Either portal marker.
    Portal,
    /// Open water of the overworld, shallow or deep.
    OverworldWater,
    /// Any walkable ground.
    Floor,
}

impl Target {
    /// Whether `tile` is of the kind looked for.
    pub open spec fn spec_matches(&self, tile: Tile) -> bool {
        match *self {
            Target::Portal => tile.is_portal(),
            Target::OverworldWater => tile == Tile::OverworldWater || tile
                == Tile::OverworldDeepWater,
            Target::Floor => tile.is_floor(),
        }
    }

    /// Whether `tile` is of the kind looked for.
    #[verifier::when_used_as_spec(spec_matches)]
    pub fn matches(&self, tile: Tile) -> (r: bool)
        ensures
            r == self.spec_matches(tile),
    {
        match self {
            Target::Portal => tile.is_portal(),
            Target::OverworldWater => matches!(tile, Tile::OverworldWater | Tile::OverworldDeepWater),
            Target::Floor => tile.is_floor(),
        }
    }
}

/// How densely the rings are scanned. One draw is made per ring.
#[derive(Debug, Copy, Clone, PartialEq, Eq, Structural)]
pub enum Density {
    /// A ring is skipped when its draw is a multiple of the number.
    SkipOneIn(u64),
    /// A ring is scanned only when its draw is a multiple of the number.
    KeepOneIn(u64),
}

impl Density {
    /// The number must not be zero.
    pub open spec fn wf(&self) -> bool {
        match *self {
            Density::SkipOneIn(n) => n > 0,
            Density::KeepOneIn(n) => n > 0,
        }
    }

    /// Whether the ring whose draw is `draw` is skipped.
    pub open spec fn skips(&self, draw: u64) -> bool {
        match *self {
            Density::SkipOneIn(n) => draw % n == 0,
            Density::KeepOneIn(n) => draw % n != 0,
        }
    }

    /// Draws for one ring and says whether to skip it.
    pub fn roll(&self, random: &mut FastRandom) -> (r: bool)
        requires
            self.wf(),
        ensures
            final(random)@ == xorshift(old(random)@),
            r == self.skips(final(random)@),
    {
        match self {
            Density::SkipOneIn(n) => random.one_in(*n),
            Density::KeepOneIn(n) => !random.one_in(*n),
        }
    }
}

/// The largest ring radius a search accepts.
pub const MAX_SEARCH_DISTANCE: usize = 0x0fff_ffff;

/// The number of cells on the ring of radius `dist`.
pub open spec fn ring_len(dist: int) -> int {
    8 * dist
}

/// The `k`-th cell scanned on the ring of radius `dist` around `(x, y)`, in
/// unbounded coordinates. The scan walks the columns from left to right,
/// testing in each the cell on the upper and then the one on the lower edge;
/// then it walks the rows in between from top to bottom, testing in each the
/// cell on the left and then the one on the right edge.
pub open spec fn ring_cell(x: int, y: int, dist: int, k: int) -> (int, int) {
    if k < 2 * (2 * dist + 1) {
        (
            x - dist + k / 2,
            if k % 2 == 0 {
                y - dist
            } else {
                y + dist
            },
        )
    } else {
        let m = k - 2 * (2 * dist + 1);
        (
            if m % 2 == 0 {
                x - dist
            } else {
                x + dist
            },
            y - dist + 1 + m / 2,
        )
    }
}

/// The first cell of the ring, from the `from`-th on, that holds a tile of
/// the kind looked for, wrapped onto the grid.
pub open spec fn first_match(
    slots: Seq<Slot>,
    size: int,
    x: int,
    y: int,
    dist: int,
    from: int,
    target: Target,
) -> Option<(int, int)>
    decreases ring_len(dist) - from,
{
    if from >= ring_len(dist) {
        None
    } else {
        let c = ring_cell(x, y, dist, from);
        if target.matches(slots[flat_index(c.0, c.1, size)].tile) {
            Some((wrap(c.0, size), wrap(c.1, size)))
        } else {
            first_match(slots, size, x, y, dist, from + 1, target)
        }
    }
}

/// The outcome of a ring search that is about to handle the ring of radius
/// `dist`: the cell found, if any, and the generator's state afterwards.
pub open spec fn ring_search(
    slots: Seq<Slot>,
    size: int,
    seed: u64,
    x: int,
    y: int,
    dist: int,
    max: int,
    target: Target,
    density: Density,
) -> (Option<(int, int)>, u64)
    decreases max - dist,
{
    let draw = xorshift(seed);
    let found = if density.skips(draw) {
        None
    } else {
        first_match(slots, size, x, y, dist, 0, target)
    };
    if found is Some || dist >= max {
        (found, draw)
    } else {
        ring_search(slots, size, draw, x, y, dist + 1, max, target, density)
    }
}

/// Whatever a ring scan finds lies on the grid and is of the kind looked for.
pub proof fn lemma_first_match(
    slots: Seq<Slot>,
    size: int,
    x: int,
    y: int,
    dist: int,
    from: int,
    target: Target,
)
    requires
        size > 0,
    ensures
        first_match(slots, size, x, y, dist, from, target) matches Some(c) ==> 0 <= c.0 < size
            && 0 <= c.1 < size && target.matches(slots[flat_index(c.0, c.1, size)].tile),
    decreases ring_len(dist) - from,
{
    if from < ring_len(dist) {
        let c = ring_cell(x, y, dist, from);
        lemma_wrap(c.0, size);
        lemma_wrap(c.1, size);
        lemma_first_match(slots, size, x, y, dist, from + 1, target);
    }
}

/// Whatever a ring search finds lies on the grid and is of the kind looked
/// for.
pub proof fn lemma_ring_search(
    slots: Seq<Slot>,
    size: int,
    seed: u64,
    x: int,
    y: int,
    dist: int,
    max: int,
    target: Target,
    density: Density,
)
    requires
        size > 0,
    ensures
        ring_search(slots, size, seed, x, y, dist, max, target, density).0 matches Some(c) ==> 0
            <= c.0 < size && 0 <= c.1 < size && target.matches(
            slots[flat_index(c.0, c.1, size)].tile,
        ),
    decreases max - dist,
{
    let draw = xorshift(seed);
    lemma_first_match(slots, size, x, y, dist, 0, target);
    let found = if density.skips(draw) {
        None
    } else {
        first_match(slots, size, x, y, dist, 0, target)
    };
    if !(found is Some || dist >= max) {
        lemma_ring_search(slots, size, draw, x, y, dist + 1, max, target, density);
    }
}

/// Scans the ring of radius `dist` around `(x, y)` for the first tile of the
/// kind looked for.
pub fn scan_ring<const SIZE: usize>(
    level: &Level<SIZE>,
    x: usize,
    y: usize,
    dist: usize,
    target: Target,
) -> (r: Option<(usize, usize)>)
    requires
        dist <= MAX_SEARCH_DISTANCE,
    ensures
        cell_view(r) == first_match(level@, SIZE as int, x as int, y as int, dist as int, 0, target),
{
    proof {
        use_type_invariant(level);
        level.lemma_inv();
    }
    let d: i64 = dist as i64;
    let n: i64 = 8 * d;
    let upper: i64 = 2 * (2 * d + 1);
    let mut k: i64 = 0;
    while k < n
        invariant
            level.wf(),
            0 <= k <= n,
            n == ring_len(dist as int),
            d == dist,
            d <= MAX_SEARCH_DISTANCE,
            upper == 2 * (2 * d + 1),
            first_match(level@, SIZE as int, x as int, y as int, dist as int, 0, target)
                == first_match(level@, SIZE as int, x as int, y as int, dist as int, k as int, target),
        decreases n - k,
    {
        let dx: i64 = if k < upper {
            k / 2 - d
        } else if (k - upper) % 2 == 0 {
            -d
        } else {
            d
        };
        let dy: i64 = if k < upper {
            if k % 2 == 0 {
                -d
            } else {
                d
            }
        } else {
            (k - upper) / 2 + 1 - d
        };
        let cx: usize = wrap_offset(x, dx, SIZE);
        let cy: usize = wrap_offset(y, dy, SIZE);
        proof {
            let c = ring_cell(x as int, y as int, dist as int, k as int);
            lemma_wrap(c.0, SIZE as int);
            lemma_wrap(c.1, SIZE as int);
        }
        if target.matches(level.tile(cx, cy)) {
            return Some((cx, cy));
        }
        k += 1;
    }
    None
}

/// Searches the rings of radius one to `max_axis_distance` around `(x, y)`,
/// nearest first, for a tile of the kind looked for. Each ring costs one
/// draw, which decides whether the ring is skipped. Even with
/// `max_axis_distance` zero the first ring is handled.
pub fn closest_tile<const SIZE: usize>(
    random: &mut FastRandom,
    level: &Level<SIZE>,
    x: usize,
    y: usize,
    max_axis_distance: usize,
    target: Target,
    density: Density,
) -> (r: Option<(usize, usize)>)
    requires
        max_axis_distance <= MAX_SEARCH_DISTANCE,
        density.wf(),
    ensures
        (cell_view(r), final(random)@) == ring_search(
            level@,
            SIZE as int,
            old(random)@,
            x as int,
            y as int,
            1,
            max_axis_distance as int,
            target,
            density,
        ),
        r matches Some(c) ==> c.0 < SIZE && c.1 < SIZE && target.matches(
            level.spec_slot(c.0 as int, c.1 as int).tile,
        ),
{
    proof {
        use_type_invariant(level);
        level.lemma_inv();
    }
    let mut dist: usize = 1;
    loop
        invariant
            level.wf(),
            density.wf(),
            1 <= dist,
            dist <= max_axis_distance || dist == 1,
            max_axis_distance <= MAX_SEARCH_DISTANCE,
            ring_search(
                level@,
                SIZE as int,
                old(random)@,
                x as int,
                y as int,
                1,
                max_axis_distance as int,
                target,
                density,
            ) == ring_search(
                level@,
                SIZE as int,
                random@,
                x as int,
                y as int,
                dist as int,
                max_axis_distance as int,
                target,
                density,
            ),
        decreases max_axis_distance - dist + 1,
    {
        let skipped = density.roll(random);
        if !skipped {
            let found = scan_ring(level, x, y, dist, target);
            if found.is_some() {
                proof {
                    lemma_first_match(level@, SIZE as int, x as int, y as int, dist as int, 0, target);
                }
                return found;
            }
        }
        if dist >= max_axis_distance {
            return None;
        }
        dist += 1;
    }
}

} // verus!
