//! Worm caves: tunnels of stone through the void.

use vstd::prelude::*;
use crate::util::fast_random::FastRandom;
use crate::world::gen::carve::{carve_from, lemma_tunnel_paints, painted, tunnel};
use crate::world::gen::{repeat_count, repeats, SAMPLE_ATTEMPTS};
use crate::world::level::{cell_view, sample_cell, CellFilter, Level, Slot};
use crate::world::search::{closest_tile, ring_search, Density, Target, MAX_SEARCH_DISTANCE};
use crate::world::tile::Tile;

verus! {

/// How far a worm cave looks for floor from the void it starts in.
pub const WORM_SEARCH_DISTANCE: usize = 256;

/// How far apart two floors may be for a worm cave to join them.
pub const WORM_JOIN_DISTANCE: usize = 96;

/// The outcome of one worm cave that starts in the void: a free void cell
/// is sampled, the nearest floor is looked for on one ring in thirty-two, and
/// a tunnel of stone is dug through the void between the two. Nothing is dug
/// if either search fails.
pub open spec fn worm_from_void(slots: Seq<Slot>, size: int, seed: u64) -> (Seq<Slot>, u64) {
    let from = sample_cell(slots, size, seed, SAMPLE_ATTEMPTS as nat, CellFilter::FreeVoid);
    match from.0 {
        None => (slots, from.1),
        Some(f) => {
            let to = ring_search(
                slots,
                size,
                from.1,
                f.0,
                f.1,
                1,
                WORM_SEARCH_DISTANCE as int,
                Target::Floor,
                Density::KeepOneIn(32),
            );
            match to.0 {
                None => (slots, to.1),
                Some(t) => tunnel(
                    slots,
                    size,
                    to.1,
                    WORM_SEARCH_DISTANCE as nat,
                    f.0,
                    f.1,
                    t.0,
                    t.1,
                    Tile::Stone,
                    true,
                ),
            }
        },
    }
}

/// The outcome of one worm cave between two floors: two free floor cells
/// are sampled and a tunnel of stone is dug through the void between them.
/// Nothing is dug if either search fails.
pub open spec fn worm_between_floors(slots: Seq<Slot>, size: int, seed: u64) -> (Seq<Slot>, u64) {
    let from = sample_cell(slots, size, seed, SAMPLE_ATTEMPTS as nat, CellFilter::FreeFloor);
    let to = sample_cell(slots, size, from.1, SAMPLE_ATTEMPTS as nat, CellFilter::FreeFloor);
    match (from.0, to.0) {
        (Some(f), Some(t)) => tunnel(
            slots,
            size,
            to.1,
            WORM_JOIN_DISTANCE as nat,
            f.0,
            f.1,
            t.0,
            t.1,
            Tile::Stone,
            true,
        ),
        _ => (slots, to.1),
    }
}

/// The outcome of `n` worm caves, from the void or between floors.
pub open spec fn worms(from_void: bool, slots: Seq<Slot>, size: int, seed: u64, n: nat) -> (
    Seq<Slot>,
    u64,
)
    decreases n,
{
    if n == 0 {
        (slots, seed)
    } else {
        let before = worms(from_void, slots, size, seed, (n - 1) as nat);
        if from_void {
            worm_from_void(before.0, size, before.1)
        } else {
            worm_between_floors(before.0, size, before.1)
        }
    }
}

/// The outcome of carving all worm caves: first those from the void, one
/// for every square of twenty-four cells, then those between floors, one for
/// every square of thirty-two cells.
pub open spec fn worm_caves(slots: Seq<Slot>, size: int, seed: u64) -> (Seq<Slot>, u64) {
    let first = worms(true, slots, size, seed, repeat_count(size, 24));
    worms(false, first.0, size, first.1, repeat_count(size, 32))
}

/// Samples a free void cell.
pub fn find_void<const SIZE: usize>(random: &mut FastRandom, level: &Level<SIZE>) -> (r: Option<
    (usize, usize),
>)
    ensures
        (cell_view(r), final(random)@) == sample_cell(
            level@,
            SIZE as int,
            old(random)@,
            SAMPLE_ATTEMPTS as nat,
            CellFilter::FreeVoid,
        ),
        r matches Some(c) ==> c.0 < SIZE && c.1 < SIZE,
{
    level.sample(random, SAMPLE_ATTEMPTS, CellFilter::FreeVoid)
}

/// Looks for the floor nearest to `(x, y)` on one ring in thirty-two.
pub fn closest_floor_tile<const SIZE: usize>(
    random: &mut FastRandom,
    level: &Level<SIZE>,
    x: usize,
    y: usize,
    max_axis_distance: usize,
) -> (r: Option<(usize, usize)>)
    requires
        max_axis_distance <= MAX_SEARCH_DISTANCE,
    ensures
        (cell_view(r), final(random)@) == ring_search(
            level@,
            SIZE as int,
            old(random)@,
            x as int,
            y as int,
            1,
            max_axis_distance as int,
            Target::Floor,
            Density::KeepOneIn(32),
        ),
        r matches Some(c) ==> c.0 < SIZE && c.1 < SIZE && level.spec_slot(
            c.0 as int,
            c.1 as int,
        ).tile.is_floor(),
{
    closest_tile(random, level, x, y, max_axis_distance, Target::Floor, Density::KeepOneIn(32))
}

/// Carves the worm caves of the underworld.
pub fn carve_worm_caves<const SIZE: usize>(level: &mut Level<SIZE>, random: &mut FastRandom)
    ensures
        (final(level)@, final(random)@) == worm_caves(old(level)@, SIZE as int, old(random)@),
{
    proof {
        use_type_invariant(&*level);
        level.lemma_inv();
    }
    let first: usize = repeats::<SIZE>(24);
    let mut n: usize = 0;
    while n < first
        invariant
            n <= first,
            (level@, random@) == worms(true, old(level)@, SIZE as int, old(random)@, n as nat),
        decreases first - n,
    {
        match find_void(random, level) {
            Some((from_x, from_y)) => {
                match closest_floor_tile(random, level, from_x, from_y, WORM_SEARCH_DISTANCE) {
                    Some((to_x, to_y)) => {
                        carve_from(
                            level,
                            random,
                            WORM_SEARCH_DISTANCE,
                            from_x,
                            from_y,
                            to_x,
                            to_y,
                            Tile::Stone,
                            true,
                        );
                    },
                    None => {},
                }
            },
            None => {},
        }
        n += 1;
    }
    let ghost middle = (level@, random@);
    let second: usize = repeats::<SIZE>(32);
    let mut n: usize = 0;
    while n < second
        invariant
            n <= second,
            (level@, random@) == worms(false, middle.0, SIZE as int, middle.1, n as nat),
        decreases second - n,
    {
        let from = level.find_floor(random, SAMPLE_ATTEMPTS);
        let to = level.find_floor(random, SAMPLE_ATTEMPTS);
        match (from, to) {
            (Some((from_x, from_y)), Some((to_x, to_y))) => {
                carve_from(
                    level,
                    random,
                    WORM_JOIN_DISTANCE,
                    from_x,
                    from_y,
                    to_x,
                    to_y,
                    Tile::Stone,
                    true,
                );
            },
            _ => {},
        }
        n += 1;
    }
}

/// Worm caves only turn void into stone, so they cannot erase rooms,
/// corridors or caves.
pub proof fn lemma_worms_paint(from_void: bool, slots: Seq<Slot>, size: int, seed: u64, n: nat)
    requires
        size > 0,
        slots.len() == size * size,
    ensures
        painted(slots, worms(from_void, slots, size, seed, n).0, Tile::Stone, true),
    decreases n,
{
    if n > 0 {
        let before = worms(from_void, slots, size, seed, (n - 1) as nat);
        lemma_worms_paint(from_void, slots, size, seed, (n - 1) as nat);
        if from_void {
            let from = sample_cell(
                before.0,
                size,
                before.1,
                SAMPLE_ATTEMPTS as nat,
                CellFilter::FreeVoid,
            );
            if let Some(f) = from.0 {
                let to = ring_search(
                    before.0,
                    size,
                    from.1,
                    f.0,
                    f.1,
                    1,
                    WORM_SEARCH_DISTANCE as int,
                    Target::Floor,
                    Density::KeepOneIn(32),
                );
                if let Some(t) = to.0 {
                    lemma_tunnel_paints(
                        before.0,
                        size,
                        to.1,
                        WORM_SEARCH_DISTANCE as nat,
                        f.0,
                        f.1,
                        t.0,
                        t.1,
                        Tile::Stone,
                        true,
                    );
                }
            }
        } else {
            let from = sample_cell(
                before.0,
                size,
                before.1,
                SAMPLE_ATTEMPTS as nat,
                CellFilter::FreeFloor,
            );
            let to = sample_cell(
                before.0,
                size,
                from.1,
                SAMPLE_ATTEMPTS as nat,
                CellFilter::FreeFloor,
            );
            if let (Some(f), Some(t)) = (from.0, to.0) {
                lemma_tunnel_paints(
                    before.0,
                    size,
                    to.1,
                    WORM_JOIN_DISTANCE as nat,
                    f.0,
                    f.1,
                    t.0,
                    t.1,
                    Tile::Stone,
                    true,
                );
            }
        }
    }
}

/// All worm caves together only turn void into stone.
pub proof fn lemma_worm_caves_paint(slots: Seq<Slot>, size: int, seed: u64)
    requires
        size > 0,
        slots.len() == size * size,
    ensures
        painted(slots, worm_caves(slots, size, seed).0, Tile::Stone, true),
{
    let first = worms(true, slots, size, seed, repeat_count(size, 24));
    lemma_worms_paint(true, slots, size, seed, repeat_count(size, 24));
    lemma_worms_paint(false, first.0, size, first.1, repeat_count(size, 32));
}

} // verus!
