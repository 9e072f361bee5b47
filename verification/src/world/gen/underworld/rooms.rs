//! Rooms, and how binary space partitioning lays them out.

use vstd::prelude::*;
use vstd::arithmetic::div_mod::lemma_fundamental_div_mod_converse;
use crate::util::fast_random::{xorshift, FastRandom};
use crate::util::torus::lemma_wrap;
use crate::world::level::{
    deserted, lemma_flat_index, lemma_flat_index_split, no_portals, with_tile, Level, Slot,
};
use crate::world::tile::Tile;

verus! {

/// A rectangular room: the columns `left..=right` and rows `top..=bottom`.
/// Its outermost cells are wall, the cells strictly inside are floor.
#[derive(PartialEq, Eq, Debug, Copy, Clone, Structural)]
pub struct Room {
    pub left: usize,
    pub top: usize,
    pub right: usize,
    pub bottom: usize,
}

/// What room placement threads through its steps: the slots of the level,
/// the generator, and the rooms placed so far.
pub struct Dig {
    pub slots: Seq<Slot>,
    pub seed: u64,
    pub rooms: Seq<Room>,
}

impl Room {
    /// The room has floor: at least one column and one row lie strictly
    /// between its walls.
    pub open spec fn roomy(&self) -> bool {
        self.left + 1 < self.right && self.top + 1 < self.bottom
    }

    /// The room, walls included, lies strictly inside the region of the
    /// given corner, width and height.
    pub open spec fn inside(&self, px: int, py: int, w: int, h: int) -> bool {
        &&& px < self.left <= self.right < px + w
        &&& py < self.top <= self.bottom < py + h
    }

    /// The two rooms share no cell, not even a wall.
    pub open spec fn disjoint(&self, other: Room) -> bool {
        ||| self.right < other.left
        ||| other.right < self.left
        ||| self.bottom < other.top
        ||| other.bottom < self.top
    }

    /// What room placement makes of the cell at column `x`, row `y`: floor
    /// strictly inside the room, void on its walls, and nothing elsewhere.
    pub open spec fn tile_at(&self, x: int, y: int) -> Option<Tile> {
        if self.left <= x <= self.right && self.top <= y <= self.bottom {
            if self.left < x < self.right && self.top < y < self.bottom {
                Some(Tile::Stone)
            } else {
                Some(Tile::Void)
            }
        } else {
            None
        }
    }
}

/// The slots after `room` has been carved.
pub open spec fn carve_room(slots: Seq<Slot>, size: int, room: Room) -> Seq<Slot> {
    Seq::new(
        slots.len(),
        |i: int|
            match room.tile_at(i / size, i % size) {
                Some(tile) => with_tile(slots[i], tile),
                None => slots[i],
            },
    )
}

/// The smaller of two numbers.
pub open spec fn min(a: int, b: int) -> int {
    if a <= b {
        a
    } else {
        b
    }
}

/// The larger of two numbers.
pub open spec fn max(a: int, b: int) -> int {
    if a >= b {
        a
    } else {
        b
    }
}

/// The least padding between a region's edge and a room's wall: a fifth of
/// the region's shorter side, but at least one.
pub open spec fn min_padding(w: int, h: int) -> int {
    max(min(w, h) / 5, 1)
}

/// The largest padding: a third of the region's shorter side, but at least
/// two.
pub open spec fn max_padding(w: int, h: int) -> int {
    max(min(w, h) / 3, 2)
}

/// Whether a region of the given sides may be partitioned `depth` times
/// more: the region and every region that can come of halving its longer side
/// are at least six cells wide and high, so that any room placed has floor.
pub open spec fn fits(w: int, h: int, depth: nat) -> bool
    decreases depth,
{
    &&& min(w, h) >= 6
    &&& depth > 0 ==> fits(min(w, h), max(w, h) / 2, (depth - 1) as nat)
}

/// Swapping the sides of a region does not change whether it fits.
pub proof fn lemma_fits_symmetric(w: int, h: int, depth: nat)
    ensures
        fits(w, h, depth) == fits(h, w, depth),
    decreases depth,
{
    if depth > 0 {
        reveal_with_fuel(fits, 2);
    }
}

/// The padding drawn from the generator's state `draw` for a region of the
/// given sides.
pub open spec fn padding(draw: u64, w: int, h: int) -> int {
    min_padding(w, h) + draw % ((max_padding(w, h) + 1 - min_padding(w, h)) as u64)
}

/// The room drawn for the region of the given corner and sides from the
/// generator's state `seed`: four paddings are drawn, for the left, the top,
/// the right and the bottom wall in this order.
pub open spec fn drawn_room(seed: u64, px: int, py: int, w: int, h: int) -> Room {
    let s1 = xorshift(seed);
    let s2 = xorshift(s1);
    let s3 = xorshift(s2);
    let s4 = xorshift(s3);
    Room {
        left: (px + padding(s1, w, h)) as usize,
        top: (py + padding(s2, w, h)) as usize,
        right: (px + w - padding(s3, w, h)) as usize,
        bottom: (py + h - padding(s4, w, h)) as usize,
    }
}

/// Whether the four corners of the room are void.
pub open spec fn corners_void(slots: Seq<Slot>, size: int, room: Room) -> bool {
    &&& slots[room.left * size + room.top].tile == Tile::Void
    &&& slots[room.right * size + room.top].tile == Tile::Void
    &&& slots[room.left * size + room.bottom].tile == Tile::Void
    &&& slots[room.right * size + room.bottom].tile == Tile::Void
}

/// The outcome of trying to place one room in a region: the room is drawn,
/// and carved and recorded if its corners are void.
pub open spec fn try_room(dig: Dig, size: int, px: int, py: int, w: int, h: int) -> Dig {
    let room = drawn_room(dig.seed, px, py, w, h);
    let seed = xorshift(xorshift(xorshift(xorshift(dig.seed))));
    if corners_void(dig.slots, size, room) {
        Dig { slots: carve_room(dig.slots, size, room), seed, rooms: dig.rooms.push(room) }
    } else {
        Dig { slots: dig.slots, seed, rooms: dig.rooms }
    }
}

/// The outcome of laying out rooms in a region that may be partitioned
/// `depth` times more. With one chance in `4 + depth` the region stays empty.
/// Else, at depth zero or with one chance in `10 + 2 * depth`, one room is
/// tried. Else the region is halved along its longer side, or along a side
/// chosen at random if it is square, and both halves are laid out in turn,
/// the upper or left one first.
pub open spec fn lay_out(dig: Dig, size: int, px: int, py: int, w: int, h: int, depth: nat) -> Dig
    decreases depth,
{
    let s0 = xorshift(dig.seed);
    if s0 % ((4 + depth) as u64) == 0 {
        Dig { slots: dig.slots, seed: s0, rooms: dig.rooms }
    } else if depth == 0 {
        try_room(Dig { slots: dig.slots, seed: s0, rooms: dig.rooms }, size, px, py, w, h)
    } else {
        let s1 = xorshift(s0);
        if s1 % ((10 + 2 * depth) as u64) == 0 {
            try_room(Dig { slots: dig.slots, seed: s1, rooms: dig.rooms }, size, px, py, w, h)
        } else {
            let deeper = (depth - 1) as nat;
            let s2 = if h == w {
                xorshift(s1)
            } else {
                s1
            };
            let start = Dig { slots: dig.slots, seed: s2, rooms: dig.rooms };
            if h > w || (h == w && s2 % 2 == 0) {
                let half = h / 2;
                lay_out(lay_out(start, size, px, py, w, half, deeper), size, px, py + half, w, half, deeper)
            } else {
                let half = w / 2;
                lay_out(lay_out(start, size, px, py, half, h, deeper), size, px + half, py, half, h, deeper)
            }
        }
    }
}

/// Carves `room`: void on its walls and stone strictly inside.
pub fn dig_room<const SIZE: usize>(level: &mut Level<SIZE>, room: Room)
    requires
        room.left <= room.right < SIZE,
        room.top <= room.bottom < SIZE,
    ensures
        final(level)@ == carve_room(old(level)@, SIZE as int, room),
{
    proof {
        use_type_invariant(&*level);
        level.lemma_inv();
    }
    let mut x: usize = room.left;
    while x <= room.right
        invariant
            SIZE > 0,
            level@.len() == SIZE * SIZE,
            old(level)@.len() == SIZE * SIZE,
            room.left <= x <= room.right + 1,
            room.left <= room.right < SIZE,
            room.top <= room.bottom < SIZE,
            forall|i: int|
                0 <= i < SIZE * SIZE ==> (#[trigger] level@[i]) == (if i / (SIZE as int) < x {
                    carve_room(old(level)@, SIZE as int, room)[i]
                } else {
                    old(level)@[i]
                }),
        decreases room.right + 1 - x,
    {
        let mut y: usize = room.top;
        while y <= room.bottom
            invariant
                SIZE > 0,
                level@.len() == SIZE * SIZE,
                old(level)@.len() == SIZE * SIZE,
                room.left <= x <= room.right,
                room.top <= y <= room.bottom + 1,
                room.left <= room.right < SIZE,
                room.top <= room.bottom < SIZE,
                forall|i: int|
                    0 <= i < SIZE * SIZE ==> (#[trigger] level@[i]) == (if i / (SIZE as int) < x || (i
                        / (SIZE as int) == x && i % (SIZE as int) < y) {
                        carve_room(old(level)@, SIZE as int, room)[i]
                    } else {
                        old(level)@[i]
                    }),
            decreases room.bottom + 1 - y,
        {
            let tile = if room.left < x && x < room.right && room.top < y && y < room.bottom {
                Tile::Stone
            } else {
                Tile::Void
            };
            proof {
                lemma_wrap(x as int, SIZE as int);
                lemma_wrap(y as int, SIZE as int);
                lemma_flat_index(x as int, y as int, SIZE as int);
                lemma_fundamental_div_mod_converse(x * SIZE + y, SIZE as int, x as int, y as int);
            }
            level.set_tile(x, y, tile);
            proof {
                assert forall|i: int| 0 <= i < SIZE * SIZE implies (#[trigger] level@[i]) == (if i / (
                SIZE as int) < x || (i / (SIZE as int) == x && i % (SIZE as int) < y + 1) {
                    carve_room(old(level)@, SIZE as int, room)[i]
                } else {
                    old(level)@[i]
                }) by {
                    lemma_flat_index_split(i, SIZE as int);
                }
            }
            y += 1;
        }
        proof {
            assert forall|i: int| 0 <= i < SIZE * SIZE implies (#[trigger] level@[i]) == (if i / (
            SIZE as int) < x + 1 {
                carve_room(old(level)@, SIZE as int, room)[i]
            } else {
                old(level)@[i]
            }) by {}
        }
        x += 1;
    }
    proof {
        assert forall|i: int| 0 <= i < SIZE * SIZE implies (#[trigger] level@[i]) == carve_room(
            old(level)@,
            SIZE as int,
            room,
        )[i] by {}
    }
}

/// Draws one padding for a region of the given sides.
fn draw_padding(random: &mut FastRandom, w: usize, h: usize) -> (r: usize)
    requires
        min(w as int, h as int) >= 6,
    ensures
        final(random)@ == xorshift(old(random)@),
        r == padding(final(random)@, w as int, h as int),
        1 <= min_padding(w as int, h as int) <= r <= max_padding(w as int, h as int),
        2 * max_padding(w as int, h as int) + 2 <= min(w as int, h as int),
{
    let s: u64 = if w <= h {
        w as u64
    } else {
        h as u64
    };
    let lo: u64 = if s / 5 >= 1 {
        s / 5
    } else {
        1
    };
    let hi: u64 = if s / 3 >= 2 {
        s / 3
    } else {
        2
    };
    random.next_in_range(lo, hi + 1) as usize
}

/// Draws a room for the region and, if its four corners are void, carves
/// and records it.
pub fn place_room<const SIZE: usize>(
    level: &mut Level<SIZE>,
    random: &mut FastRandom,
    position_x: usize,
    position_y: usize,
    quadrant_width: usize,
    quadrant_height: usize,
    accumulator: &mut Vec<Room>,
)
    requires
        min(quadrant_width as int, quadrant_height as int) >= 6,
        position_x + quadrant_width <= SIZE,
        position_y + quadrant_height <= SIZE,
    ensures
        (Dig { slots: final(level)@, seed: final(random)@, rooms: final(accumulator)@ })
            == try_room(
            Dig { slots: old(level)@, seed: old(random)@, rooms: old(accumulator)@ },
            SIZE as int,
            position_x as int,
            position_y as int,
            quadrant_width as int,
            quadrant_height as int,
        ),
{
    proof {
        use_type_invariant(&*level);
        level.lemma_inv();
    }
    let left: usize = position_x + draw_padding(random, quadrant_width, quadrant_height);
    let top: usize = position_y + draw_padding(random, quadrant_width, quadrant_height);
    let right: usize = position_x + quadrant_width - draw_padding(
        random,
        quadrant_width,
        quadrant_height,
    );
    let bottom: usize = position_y + quadrant_height - draw_padding(
        random,
        quadrant_width,
        quadrant_height,
    );
    let room = Room { left, top, right, bottom };
    proof {
        lemma_wrap(left as int, SIZE as int);
        lemma_wrap(top as int, SIZE as int);
        lemma_wrap(right as int, SIZE as int);
        lemma_wrap(bottom as int, SIZE as int);
    }
    if !(matches!(level.tile(left, top), Tile::Void) && matches!(level.tile(right, top), Tile::Void)
        && matches!(level.tile(left, bottom), Tile::Void) && matches!(
        level.tile(right, bottom),
        Tile::Void
    )) {
        return ;
    }
    dig_room(level, room);
    accumulator.push(room);
}

/// Lays out rooms in the region of the given corner and sides by binary
/// space partitioning, `depth` levels deep at most, and appends them to
/// `accumulator`.
pub fn place_rooms<const SIZE: usize>(
    level: &mut Level<SIZE>,
    random: &mut FastRandom,
    position_x: usize,
    position_y: usize,
    quadrant_width: usize,
    quadrant_height: usize,
    depth: usize,
    accumulator: &mut Vec<Room>,
)
    requires
        fits(quadrant_width as int, quadrant_height as int, depth as nat),
        position_x + quadrant_width <= SIZE,
        position_y + quadrant_height <= SIZE,
        depth <= MAX_PARTITION_DEPTH,
    ensures
        (Dig { slots: final(level)@, seed: final(random)@, rooms: final(accumulator)@ })
            == lay_out(
            Dig { slots: old(level)@, seed: old(random)@, rooms: old(accumulator)@ },
            SIZE as int,
            position_x as int,
            position_y as int,
            quadrant_width as int,
            quadrant_height as int,
            depth as nat,
        ),
    decreases depth,
{
    if random.one_in(4 + depth as u64) {
        return ;
    }
    if depth == 0 || random.one_in(10 + depth as u64 * 2) {
        place_room(level, random, position_x, position_y, quadrant_width, quadrant_height, accumulator);
    } else {
        proof {
            lemma_fits_symmetric(quadrant_height as int, quadrant_width as int / 2, (depth - 1) as nat);
        }
        if quadrant_height > quadrant_width || (quadrant_height == quadrant_width && random.one_in(2)) {
            let half: usize = quadrant_height / 2;
            place_rooms(level, random, position_x, position_y, quadrant_width, half, depth - 1, accumulator);
            place_rooms(
                level,
                random,
                position_x,
                position_y + half,
                quadrant_width,
                half,
                depth - 1,
                accumulator,
            );
        } else {
            let half: usize = quadrant_width / 2;
            place_rooms(level, random, position_x, position_y, half, quadrant_height, depth - 1, accumulator);
            place_rooms(
                level,
                random,
                position_x + half,
                position_y,
                half,
                quadrant_height,
                depth - 1,
                accumulator,
            );
        }
    }
}

/// The rooms that laying out a region adds come after those already there,
/// lie strictly inside the region, have floor, and share no cell with one
/// another.
#[verifier::spinoff_prover]
pub proof fn lemma_lay_out_rooms(dig: Dig, size: int, px: int, py: int, w: int, h: int, depth: nat)
    requires
        fits(w, h, depth),
        0 <= px,
        0 <= py,
        px + w <= usize::MAX,
        py + h <= usize::MAX,
    ensures
        ({
            let out = lay_out(dig, size, px, py, w, h, depth);
            &&& out.rooms.len() >= dig.rooms.len()
            &&& out.rooms.subrange(0, dig.rooms.len() as int) == dig.rooms
            &&& forall|k: int|
                dig.rooms.len() <= k < out.rooms.len() ==> (#[trigger] out.rooms[k]).inside(
                    px,
                    py,
                    w,
                    h,
                ) && out.rooms[k].roomy()
            &&& forall|j: int, k: int|
                dig.rooms.len() <= j < k < out.rooms.len() ==> (#[trigger] out.rooms[j]).disjoint(
                    #[trigger] out.rooms[k],
                )
        }),
    decreases depth,
{
    let out = lay_out(dig, size, px, py, w, h, depth);
    let s0 = xorshift(dig.seed);
    assert(dig.rooms.subrange(0, dig.rooms.len() as int) =~= dig.rooms);
    if s0 % ((4 + depth) as u64) != 0 && depth != 0 {
        let s1 = xorshift(s0);
        if s1 % ((10 + 2 * depth) as u64) != 0 {
            let deeper = (depth - 1) as nat;
            let s2 = if h == w {
                xorshift(s1)
            } else {
                s1
            };
            let start = Dig { slots: dig.slots, seed: s2, rooms: dig.rooms };
            lemma_fits_symmetric(h, w / 2, deeper);
            if h > w || (h == w && s2 % 2 == 0) {
                let half = h / 2;
                let first = lay_out(start, size, px, py, w, half, deeper);
                lemma_lay_out_rooms(start, size, px, py, w, half, deeper);
                lemma_lay_out_rooms(first, size, px, py + half, w, half, deeper);
                assert forall|k: int| 0 <= k < first.rooms.len() implies out.rooms[k] == first.rooms[k] by {}
                assert(out.rooms.subrange(0, dig.rooms.len() as int) =~= dig.rooms) by {
                    assert forall|k: int| 0 <= k < dig.rooms.len() implies out.rooms[k]
                        == dig.rooms[k] by {}
                }
                assert forall|k: int| dig.rooms.len() <= k < out.rooms.len() implies (#[trigger] out.rooms[k]).inside(
                    px,
                    py,
                    w,
                    h,
                ) && out.rooms[k].roomy() by {}
                assert forall|j: int, k: int|
                    dig.rooms.len() <= j < k < out.rooms.len() implies (#[trigger] out.rooms[j]).disjoint(
                    #[trigger] out.rooms[k],
                ) by {}
            } else {
                let half = w / 2;
                let first = lay_out(start, size, px, py, half, h, deeper);
                lemma_lay_out_rooms(start, size, px, py, half, h, deeper);
                lemma_lay_out_rooms(first, size, px + half, py, half, h, deeper);
                assert forall|k: int| 0 <= k < first.rooms.len() implies out.rooms[k] == first.rooms[k] by {}
                assert(out.rooms.subrange(0, dig.rooms.len() as int) =~= dig.rooms) by {
                    assert forall|k: int| 0 <= k < dig.rooms.len() implies out.rooms[k]
                        == dig.rooms[k] by {}
                }
                assert forall|k: int| dig.rooms.len() <= k < out.rooms.len() implies (#[trigger] out.rooms[k]).inside(
                    px,
                    py,
                    w,
                    h,
                ) && out.rooms[k].roomy() by {}
                assert forall|j: int, k: int|
                    dig.rooms.len() <= j < k < out.rooms.len() implies (#[trigger] out.rooms[j]).disjoint(
                    #[trigger] out.rooms[k],
                ) by {}
            }
        }
    }
}

/// A room tried in a region of sides of six or more lies strictly inside the
/// region and has floor.
pub proof fn lemma_try_room(dig: Dig, size: int, px: int, py: int, w: int, h: int)
    requires
        min(w, h) >= 6,
        0 <= px,
        0 <= py,
        px + w <= usize::MAX,
        py + h <= usize::MAX,
    ensures
        drawn_room(dig.seed, px, py, w, h).inside(px, py, w, h),
        drawn_room(dig.seed, px, py, w, h).roomy(),
        ({
            let out = try_room(dig, size, px, py, w, h);
            &&& out.rooms == dig.rooms || out.rooms == dig.rooms.push(
                drawn_room(dig.seed, px, py, w, h),
            )
            &&& out.rooms.subrange(0, dig.rooms.len() as int) == dig.rooms
        }),
{
}

/// The deepest partitioning that can be asked for. A region that can be
/// halved more often does not fit on any level.
pub const MAX_PARTITION_DEPTH: usize = 64;

/// How deep a quadrant is partitioned.
pub const PARTITION_DEPTH: usize = 4;

/// The smallest quadrant that can be partitioned that deep.
pub const MIN_QUADRANT_SIZE: usize = 24;

/// A quadrant of twenty-four cells or more can be partitioned four times.
pub proof fn lemma_quadrant_fits(q: int)
    requires
        q >= MIN_QUADRANT_SIZE,
    ensures
        fits(q, q, PARTITION_DEPTH as nat),
{
    reveal_with_fuel(fits, 5);
}

/// Laying out rooms makes no portal, puts nobody anywhere, and neither adds
/// nor loses a slot.
pub proof fn lemma_lay_out_no_portals(dig: Dig, size: int, px: int, py: int, w: int, h: int, depth: nat)
    requires
        no_portals(dig.slots),
    ensures
        lay_out(dig, size, px, py, w, h, depth).slots.len() == dig.slots.len(),
        no_portals(lay_out(dig, size, px, py, w, h, depth).slots),
        deserted(dig.slots) ==> deserted(lay_out(dig, size, px, py, w, h, depth).slots),
    decreases depth,
{
    let s0 = xorshift(dig.seed);
    if s0 % ((4 + depth) as u64) != 0 && depth != 0 {
        let s1 = xorshift(s0);
        if s1 % ((10 + 2 * depth) as u64) != 0 {
            let deeper = (depth - 1) as nat;
            let s2 = if h == w {
                xorshift(s1)
            } else {
                s1
            };
            let start = Dig { slots: dig.slots, seed: s2, rooms: dig.rooms };
            if h > w || (h == w && s2 % 2 == 0) {
                let half = h / 2;
                lemma_lay_out_no_portals(start, size, px, py, w, half, deeper);
                lemma_lay_out_no_portals(
                    lay_out(start, size, px, py, w, half, deeper),
                    size,
                    px,
                    py + half,
                    w,
                    half,
                    deeper,
                );
            } else {
                let half = w / 2;
                lemma_lay_out_no_portals(start, size, px, py, half, h, deeper);
                lemma_lay_out_no_portals(
                    lay_out(start, size, px, py, half, h, deeper),
                    size,
                    px + half,
                    py,
                    half,
                    h,
                    deeper,
                );
            }
        }
    }
}

/// Whether every slot strictly inside the room is stone floor.
pub open spec fn floored(slots: Seq<Slot>, size: int, room: Room) -> bool {
    forall|i: int|
        0 <= i < slots.len() && room.tile_at(i / size, i % size) == Some(Tile::Stone) ==> (
        #[trigger] slots[i]).tile == Tile::Stone
}

/// Carving a room lays its floor and spares the floor of every room that
/// shares no cell with it.
pub proof fn lemma_carve_room_floored(slots: Seq<Slot>, size: int, room: Room, other: Room)
    ensures
        floored(carve_room(slots, size, room), size, room),
        floored(slots, size, other) && other.disjoint(room) ==> floored(
            carve_room(slots, size, room),
            size,
            other,
        ),
{
    let after = carve_room(slots, size, room);
    if floored(slots, size, other) && other.disjoint(room) {
        assert forall|i: int|
            0 <= i < after.len() && other.tile_at(i / size, i % size) == Some(
                Tile::Stone,
            ) implies (#[trigger] after[i]).tile == Tile::Stone by {
            assert(room.tile_at(i / size, i % size) is None);
            assert(slots[i].tile == Tile::Stone);
        }
    }
}

/// Laying out rooms spares the floor of every room that shares no cell with
/// the rooms laid out.
pub proof fn lemma_lay_out_keeps_floor(
    dig: Dig,
    size: int,
    px: int,
    py: int,
    w: int,
    h: int,
    depth: nat,
    other: Room,
)
    requires
        fits(w, h, depth),
        0 <= px,
        0 <= py,
        px + w <= usize::MAX,
        py + h <= usize::MAX,
        floored(dig.slots, size, other),
        forall|k: int|
            dig.rooms.len() <= k < lay_out(dig, size, px, py, w, h, depth).rooms.len()
                ==> other.disjoint(#[trigger] lay_out(dig, size, px, py, w, h, depth).rooms[k]),
    ensures
        floored(lay_out(dig, size, px, py, w, h, depth).slots, size, other),
    decreases depth,
{
    let out = lay_out(dig, size, px, py, w, h, depth);
    let s0 = xorshift(dig.seed);
    if s0 % ((4 + depth) as u64) != 0 {
        let s1 = xorshift(s0);
        if depth == 0 || s1 % ((10 + 2 * depth) as u64) == 0 {
            let start = Dig {
                slots: dig.slots,
                seed: if depth == 0 {
                    s0
                } else {
                    s1
                },
                rooms: dig.rooms,
            };
            let room = drawn_room(start.seed, px, py, w, h);
            if corners_void(start.slots, size, room) {
                assert(out.rooms[dig.rooms.len() as int] == room);
                lemma_carve_room_floored(dig.slots, size, room, other);
            }
        } else {
            let deeper = (depth - 1) as nat;
            let s2 = if h == w {
                xorshift(s1)
            } else {
                s1
            };
            let start = Dig { slots: dig.slots, seed: s2, rooms: dig.rooms };
            lemma_fits_symmetric(h, w / 2, deeper);
            if h > w || (h == w && s2 % 2 == 0) {
                let half = h / 2;
                let first = lay_out(start, size, px, py, w, half, deeper);
                lemma_lay_out_rooms(start, size, px, py, w, half, deeper);
                lemma_lay_out_rooms(first, size, px, py + half, w, half, deeper);
                assert forall|k: int| dig.rooms.len() <= k < first.rooms.len() implies other.disjoint(
                    #[trigger] first.rooms[k],
                ) by {
                    assert(out.rooms.subrange(0, first.rooms.len() as int)[k] == first.rooms[k]);
                }
                lemma_lay_out_keeps_floor(start, size, px, py, w, half, deeper, other);
                lemma_lay_out_keeps_floor(first, size, px, py + half, w, half, deeper, other);
            } else {
                let half = w / 2;
                let first = lay_out(start, size, px, py, half, h, deeper);
                lemma_lay_out_rooms(start, size, px, py, half, h, deeper);
                lemma_lay_out_rooms(first, size, px + half, py, half, h, deeper);
                assert forall|k: int| dig.rooms.len() <= k < first.rooms.len() implies other.disjoint(
                    #[trigger] first.rooms[k],
                ) by {
                    assert(out.rooms.subrange(0, first.rooms.len() as int)[k] == first.rooms[k]);
                }
                lemma_lay_out_keeps_floor(start, size, px, py, half, h, deeper, other);
                lemma_lay_out_keeps_floor(first, size, px + half, py, half, h, deeper, other);
            }
        }
    }
}

/// Every room that laying out a region adds has its floor when the region
/// has been laid out: no room placed after it takes any of it away.
pub proof fn lemma_lay_out_floors(dig: Dig, size: int, px: int, py: int, w: int, h: int, depth: nat)
    requires
        fits(w, h, depth),
        0 <= px,
        0 <= py,
        px + w <= usize::MAX,
        py + h <= usize::MAX,
    ensures
        forall|k: int|
            dig.rooms.len() <= k < lay_out(dig, size, px, py, w, h, depth).rooms.len() ==> floored(
                lay_out(dig, size, px, py, w, h, depth).slots,
                size,
                #[trigger] lay_out(dig, size, px, py, w, h, depth).rooms[k],
            ),
    decreases depth,
{
    let out = lay_out(dig, size, px, py, w, h, depth);
    let s0 = xorshift(dig.seed);
    if s0 % ((4 + depth) as u64) != 0 {
        let s1 = xorshift(s0);
        if depth == 0 || s1 % ((10 + 2 * depth) as u64) == 0 {
            let start = Dig {
                slots: dig.slots,
                seed: if depth == 0 {
                    s0
                } else {
                    s1
                },
                rooms: dig.rooms,
            };
            let room = drawn_room(start.seed, px, py, w, h);
            if corners_void(start.slots, size, room) {
                lemma_carve_room_floored(dig.slots, size, room, room);
            }
        } else {
            let deeper = (depth - 1) as nat;
            let s2 = if h == w {
                xorshift(s1)
            } else {
                s1
            };
            let start = Dig { slots: dig.slots, seed: s2, rooms: dig.rooms };
            lemma_fits_symmetric(h, w / 2, deeper);
            lemma_lay_out_rooms(dig, size, px, py, w, h, depth);
            let (qx, qy, hw, hh) = if h > w || (h == w && s2 % 2 == 0) {
                (px, py + h / 2, w, h / 2)
            } else {
                (px + w / 2, py, w / 2, h)
            };
            let first = lay_out(start, size, px, py, hw, hh, deeper);
            assert(out == lay_out(first, size, qx, qy, hw, hh, deeper));
            lemma_lay_out_rooms(start, size, px, py, hw, hh, deeper);
            lemma_lay_out_rooms(first, size, qx, qy, hw, hh, deeper);
            lemma_lay_out_floors(start, size, px, py, hw, hh, deeper);
            lemma_lay_out_floors(first, size, qx, qy, hw, hh, deeper);
            assert forall|k: int| dig.rooms.len() <= k < out.rooms.len() implies floored(
                out.slots,
                size,
                #[trigger] out.rooms[k],
            ) by {
                if k < first.rooms.len() {
                    let other = first.rooms[k];
                    assert(out.rooms.subrange(0, first.rooms.len() as int)[k] == other);
                    assert forall|j: int| first.rooms.len() <= j < out.rooms.len() implies other.disjoint(
                        #[trigger] out.rooms[j],
                    ) by {
                        assert(out.rooms[k].disjoint(out.rooms[j]));
                    }
                    lemma_lay_out_keeps_floor(first, size, qx, qy, hw, hh, deeper, other);
                }
            }
        }
    }
}

} // verus!
