//! Corridors: which rooms are connected, and how.

use vstd::prelude::*;
use vstd::arithmetic::div_mod::lemma_fundamental_div_mod_converse;
use crate::util::fast_random::{xorshift, FastRandom};
use crate::util::torus::lemma_wrap;
use crate::world::gen::carve::painted;
use crate::world::gen::underworld::rooms::{max, min, Room};
use crate::world::level::{
    lemma_flat_index, lemma_flat_index_split, lemma_side_bound, with_tile, Level, Slot,
};
use crate::world::tile::Tile;

verus! {

/// The absolute difference of two numbers.
pub open spec fn abs_diff(a: int, b: int) -> int {
    if a >= b {
        a - b
    } else {
        b - a
    }
}

/// Twice the gap along one axis between the interval `lo_a..=hi_a` and the
/// interval `lo_b..=hi_b` on a ring of `size` cells, measured the shorter
/// way round. Intervals that overlap have a negative gap.
pub open spec fn double_gap(lo_a: int, hi_a: int, lo_b: int, hi_b: int, size: int) -> int {
    let d = abs_diff(hi_a + lo_a, hi_b + lo_b) - ((hi_a - lo_a) + (hi_b - lo_b));
    min(d, 2 * size - d)
}

/// The squared distance between two rooms on a torus of side `size`: the
/// sum of the squares of the gaps along both axes. A room is at a positive
/// distance from itself unless it is a single cell.
pub open spec fn spec_square_distance(a: Room, b: Room, size: int) -> int {
    let dx = double_gap(a.left as int, a.right as int, b.left as int, b.right as int, size);
    let dy = double_gap(a.top as int, a.bottom as int, b.top as int, b.bottom as int, size);
    (dx * dx + dy * dy) / 4
}

/// The cell drawn strictly inside `room` from the generator's state `seed`:
/// the column is drawn first, the row second.
pub open spec fn position_inside(room: Room, seed: u64) -> (int, int) {
    let s1 = xorshift(seed);
    let s2 = xorshift(s1);
    (
        room.left + 1 + s1 % ((room.right - room.left - 1) as u64),
        room.top + 1 + s2 % ((room.bottom - room.top - 1) as u64),
    )
}

/// Whether the cell `(x, y)` lies on the corridor from `(x0, y0)` to
/// `(x1, y1)`: along row `y0` from one column to the other, then along
/// column `x1` from one row to the other, the corner included.
pub open spec fn on_corridor(x: int, y: int, x0: int, y0: int, x1: int, y1: int) -> bool {
    ||| min(x0, x1) <= x < max(x0, x1) && y == y0
    ||| x == x1 && min(y0, y1) <= y < max(y0, y1)
    ||| x == x1 && y == y0
}

/// The slots after the corridor has been dug: every void cell on it has
/// become stone.
pub open spec fn carve_corridor(
    slots: Seq<Slot>,
    size: int,
    x0: int,
    y0: int,
    x1: int,
    y1: int,
) -> Seq<Slot> {
    Seq::new(
        slots.len(),
        |i: int|
            if slots[i].tile == Tile::Void && on_corridor(i / size, i % size, x0, y0, x1, y1) {
                with_tile(slots[i], Tile::Stone)
            } else {
                slots[i]
            },
    )
}

/// The outcome of connecting room `a` to room `b`: a cell is drawn inside
/// each, `a` first, and the corridor between the two is dug.
pub open spec fn join(slots: Seq<Slot>, size: int, seed: u64, a: Room, b: Room) -> (Seq<Slot>, u64) {
    let from = position_inside(a, seed);
    let mid = xorshift(xorshift(seed));
    let to = position_inside(b, mid);
    (carve_corridor(slots, size, from.0, from.1, to.0, to.1), xorshift(xorshift(mid)))
}

/// The distance within which a room is a candidate for connection at first.
pub const CONNECT_DISTANCE: i128 = 256;

/// The candidates for connection from `room` after the first `k` of
/// `rooms` have been looked at, and the distance to beat. A room becomes a
/// candidate if it is no farther than the last candidate; the list then drops
/// its oldest entry if it has reached `budget` entries.
pub open spec fn candidates(rooms: Seq<Room>, room: Room, size: int, budget: int, k: nat) -> (
    Seq<Room>,
    int,
)
    decreases k,
{
    if k == 0 {
        (Seq::empty(), CONNECT_DISTANCE as int)
    } else {
        let before = candidates(rooms, room, size, budget, (k - 1) as nat);
        let d = spec_square_distance(room, rooms[k - 1], size);
        if d <= before.1 {
            let pushed = before.0.push(rooms[k - 1]);
            (
                if pushed.len() >= budget {
                    pushed.remove(0)
                } else {
                    pushed
                },
                d,
            )
        } else {
            before
        }
    }
}

/// The first position from `from` on at which `room` stands in `rooms`.
pub open spec fn position(rooms: Seq<Room>, room: Room, from: int) -> Option<int>
    decreases rooms.len() - from,
{
    if from >= rooms.len() {
        None
    } else if rooms[from] == room {
        Some(from)
    } else {
        position(rooms, room, from + 1)
    }
}

/// What room connection threads through its steps: the slots of the level,
/// the generator, the rooms still to be connected from, and the position of
/// the room at hand among them.
pub struct Linking {
    pub slots: Seq<Slot>,
    pub seed: u64,
    pub pending: Seq<Room>,
    pub cursor: int,
}

/// One in how many times the candidate of rank `ci` is turned down. The
/// three nearest are always accepted.
pub open spec fn odds(ci: int) -> int {
    max(ci - 1, 1)
}

/// The state after the `n` nearest of the candidates `found` have been
/// considered for connection from `room`, nearest first. A candidate that is
/// accepted is struck from the rooms still to be connected from, and a
/// corridor is dug to it.
pub open spec fn link(state: Linking, size: int, room: Room, found: Seq<Room>, n: nat) -> Linking
    decreases n,
{
    if n == 0 {
        state
    } else {
        let st = link(state, size, room, found, (n - 1) as nat);
        let ci = n - 1;
        let draw = xorshift(st.seed);
        if draw % (odds(ci) as u64) == 0 {
            let other = found[found.len() - 1 - ci];
            let at = position(st.pending, other, 0);
            let joined = join(st.slots, size, draw, room, other);
            Linking {
                slots: joined.0,
                seed: joined.1,
                pending: match at {
                    Some(a) => st.pending.remove(a),
                    None => st.pending,
                },
                cursor: match at {
                    Some(a) => if a <= st.cursor {
                        st.cursor - 1
                    } else {
                        st.cursor
                    },
                    None => st.cursor,
                },
            }
        } else {
            Linking { slots: st.slots, seed: draw, pending: st.pending, cursor: st.cursor }
        }
    }
}

/// Whatever `position` finds is a position of `rooms`.
pub proof fn lemma_position(rooms: Seq<Room>, room: Room, from: int)
    requires
        0 <= from,
    ensures
        position(rooms, room, from) matches Some(a) ==> from <= a < rooms.len() && rooms[a]
            == room,
    decreases rooms.len() - from,
{
    if from < rooms.len() && rooms[from] != room {
        lemma_position(rooms, room, from + 1);
    }
}

/// Considering candidates shortens the list of rooms still to be connected
/// from at least as much as it moves the cursor back, never moves the cursor
/// forward, and keeps it below the end of the list.
pub proof fn lemma_link_measure(state: Linking, size: int, room: Room, found: Seq<Room>, n: nat)
    ensures
        link(state, size, room, found, n).pending.len() - link(state, size, room, found, n).cursor
            <= state.pending.len() - state.cursor,
        link(state, size, room, found, n).cursor <= state.cursor,
        link(state, size, room, found, n).pending.len() <= state.pending.len(),
        state.cursor >= 0 ==> link(state, size, room, found, n).cursor >= -1,
        state.cursor < state.pending.len() ==> link(state, size, room, found, n).cursor < link(
            state,
            size,
            room,
            found,
            n,
        ).pending.len(),
    decreases n,
{
    if n > 0 {
        let st = link(state, size, room, found, (n - 1) as nat);
        lemma_link_measure(state, size, room, found, (n - 1) as nat);
        let other = found[found.len() - n];
        lemma_position(st.pending, other, 0);
    }
}

/// The state after every room still pending from the cursor on has had its
/// turn: a budget of one to eleven is drawn, the candidates within the budget
/// are collected from all `rooms`, and they are considered nearest first.
pub open spec fn connect_all(state: Linking, size: int, rooms: Seq<Room>) -> Linking
    decreases state.pending.len() - state.cursor,
{
    if state.cursor < 0 || state.cursor >= state.pending.len() {
        state
    } else {
        let room = state.pending[state.cursor];
        let draw = xorshift(state.seed);
        let budget = 1 + draw % 11;
        let found = candidates(rooms, room, size, budget, rooms.len()).0;
        let start = Linking {
            slots: state.slots,
            seed: draw,
            pending: state.pending,
            cursor: state.cursor,
        };
        let st = link(start, size, room, found, found.len());
        proof {
            lemma_link_measure(start, size, room, found, found.len());
        }
        connect_all(
            Linking { slots: st.slots, seed: st.seed, pending: st.pending, cursor: st.cursor + 1 },
            size,
            rooms,
        )
    }
}

/// Whether every room has floor and lies on a level of side `size`.
pub open spec fn rooms_fit(rooms: Seq<Room>, size: int) -> bool {
    forall|k: int| 0 <= k < rooms.len() ==> (#[trigger] rooms[k]).roomy() && rooms[k].right < size
        && rooms[k].bottom < size
}

impl Room {
    /// Draws a cell strictly inside the room, the column first.
    pub fn random_position_inside(&self, random: &mut FastRandom) -> (r: (usize, usize))
        requires
            self.roomy(),
        ensures
            (r.0 as int, r.1 as int) == position_inside(*self, old(random)@),
            final(random)@ == xorshift(xorshift(old(random)@)),
            self.left < r.0 < self.right,
            self.top < r.1 < self.bottom,
    {
        let x: u64 = random.next_in_range(self.left as u64 + 1, self.right as u64);
        let y: u64 = random.next_in_range(self.top as u64 + 1, self.bottom as u64);
        (x as usize, y as usize)
    }

    /// The squared distance between two rooms on a torus of side
    /// `WORLD_SIZE`.
    pub fn square_distance<const WORLD_SIZE: usize>(a: &Self, b: &Self) -> (r: i128)
        requires
            WORLD_SIZE <= 0xffff_ffff,
            a.left <= a.right < WORLD_SIZE,
            a.top <= a.bottom < WORLD_SIZE,
            b.left <= b.right < WORLD_SIZE,
            b.top <= b.bottom < WORLD_SIZE,
        ensures
            r == spec_square_distance(*a, *b, WORLD_SIZE as int),
            r >= 0,
    {
        let dx: i128 = double_gap_of(a.left, a.right, b.left, b.right, WORLD_SIZE);
        let dy: i128 = double_gap_of(a.top, a.bottom, b.top, b.bottom, WORLD_SIZE);
        proof {
            assert(0 <= dx * dx <= 0x4_0000_0000 * 0x4_0000_0000) by (nonlinear_arith)
                requires
                    -0x4_0000_0000 <= dx <= 0x4_0000_0000,
            ;
            assert(0 <= dy * dy <= 0x4_0000_0000 * 0x4_0000_0000) by (nonlinear_arith)
                requires
                    -0x4_0000_0000 <= dy <= 0x4_0000_0000,
            ;
        }
        (dx * dx + dy * dy) / 4
    }
}

/// Twice the gap between two intervals of a ring, the shorter way round.
fn double_gap_of(lo_a: usize, hi_a: usize, lo_b: usize, hi_b: usize, size: usize) -> (r: i128)
    requires
        size <= 0xffff_ffff,
        lo_a <= hi_a < size,
        lo_b <= hi_b < size,
    ensures
        r == double_gap(lo_a as int, hi_a as int, lo_b as int, hi_b as int, size as int),
        -0x4_0000_0000 <= r <= 0x4_0000_0000,
{
    let ca: i128 = hi_a as i128 + lo_a as i128;
    let cb: i128 = hi_b as i128 + lo_b as i128;
    let apart: i128 = if ca >= cb {
        ca - cb
    } else {
        cb - ca
    };
    let d: i128 = apart - ((hi_a - lo_a) as i128 + (hi_b - lo_b) as i128);
    let round: i128 = 2 * (size as i128) - d;
    if d <= round {
        d
    } else {
        round
    }
}

/// Turns the cell into stone if it is void.
fn open_cell<const SIZE: usize>(level: &mut Level<SIZE>, x: usize, y: usize)
    requires
        x < SIZE,
        y < SIZE,
    ensures
        final(level)@ == old(level)@.update(
            x * SIZE + y,
            if old(level)@[x * SIZE + y].tile == Tile::Void {
                with_tile(old(level)@[x * SIZE + y], Tile::Stone)
            } else {
                old(level)@[x * SIZE + y]
            },
        ),
        final(level)@.len() == SIZE * SIZE,
        old(level)@.len() == SIZE * SIZE,
{
    proof {
        use_type_invariant(&*level);
        level.lemma_inv();
        lemma_wrap(x as int, SIZE as int);
        lemma_wrap(y as int, SIZE as int);
        lemma_flat_index(x as int, y as int, SIZE as int);
    }
    if matches!(level.tile(x, y), Tile::Void) {
        level.set_tile(x, y, Tile::Stone);
    }
}

/// Connects two rooms by a corridor between a random cell of each.
pub fn connect_room_pair<const SIZE: usize>(
    level: &mut Level<SIZE>,
    random: &mut FastRandom,
    a: &Room,
    b: &Room,
)
    requires
        a.roomy(),
        b.roomy(),
        a.right < SIZE,
        a.bottom < SIZE,
        b.right < SIZE,
        b.bottom < SIZE,
    ensures
        (final(level)@, final(random)@) == join(old(level)@, SIZE as int, old(random)@, *a, *b),
{
    proof {
        use_type_invariant(&*level);
        level.lemma_inv();
    }
    let (x0, y0) = a.random_position_inside(random);
    let (x1, y1) = b.random_position_inside(random);
    let x_from: usize = if x0 < x1 {
        x0
    } else {
        x1
    };
    let x_to: usize = if x0 < x1 {
        x1
    } else {
        x0
    };
    let y_from: usize = if y0 < y1 {
        y0
    } else {
        y1
    };
    let y_to: usize = if y0 < y1 {
        y1
    } else {
        y0
    };
    let ghost start = level@;
    let mut x: usize = x_from;
    while x < x_to
        invariant
            SIZE > 0,
            start.len() == SIZE * SIZE,
            level@.len() == SIZE * SIZE,
            x_from <= x <= x_to,
            x_to < SIZE,
            y0 < SIZE,
            forall|i: int|
                0 <= i < SIZE * SIZE ==> (#[trigger] level@[i]) == (if start[i].tile == Tile::Void
                    && x_from <= i / (SIZE as int) < x && i % (SIZE as int) == y0 {
                    with_tile(start[i], Tile::Stone)
                } else {
                    start[i]
                }),
        decreases x_to - x,
    {
        let ghost before = level@;
        proof {
            lemma_flat_index(x as int, y0 as int, SIZE as int);
            lemma_fundamental_div_mod_converse(x * SIZE + y0, SIZE as int, x as int, y0 as int);
        }
        open_cell(level, x, y0);
        proof {
            assert forall|i: int| 0 <= i < SIZE * SIZE implies (#[trigger] level@[i]) == (if start[i].tile
                == Tile::Void && x_from <= i / (SIZE as int) < x + 1 && i % (SIZE as int) == y0 {
                with_tile(start[i], Tile::Stone)
            } else {
                start[i]
            }) by {
                lemma_flat_index_split(i, SIZE as int);
            }
        }
        x += 1;
    }
    let mut y: usize = y_from;
    while y < y_to
        invariant
            SIZE > 0,
            start.len() == SIZE * SIZE,
            level@.len() == SIZE * SIZE,
            y_from <= y <= y_to,
            y_to < SIZE,
            x1 < SIZE,
            forall|i: int|
                0 <= i < SIZE * SIZE ==> (#[trigger] level@[i]) == (if start[i].tile == Tile::Void && ((
                x_from <= i / (SIZE as int) < x_to && i % (SIZE as int) == y0) || (i / (SIZE as int)
                    == x1 && y_from <= i % (SIZE as int) < y)) {
                    with_tile(start[i], Tile::Stone)
                } else {
                    start[i]
                }),
        decreases y_to - y,
    {
        let ghost before = level@;
        proof {
            lemma_flat_index(x1 as int, y as int, SIZE as int);
            lemma_fundamental_div_mod_converse(x1 * SIZE + y, SIZE as int, x1 as int, y as int);
        }
        open_cell(level, x1, y);
        proof {
            assert forall|i: int| 0 <= i < SIZE * SIZE implies (#[trigger] level@[i]) == (if start[i].tile
                == Tile::Void && ((x_from <= i / (SIZE as int) < x_to && i % (SIZE as int) == y0) || (i
                / (SIZE as int) == x1 && y_from <= i % (SIZE as int) < y + 1)) {
                with_tile(start[i], Tile::Stone)
            } else {
                start[i]
            }) by {
                lemma_flat_index_split(i, SIZE as int);
            }
        }
        y += 1;
    }
    let ghost before = level@;
    proof {
        lemma_flat_index(x1 as int, y0 as int, SIZE as int);
        lemma_fundamental_div_mod_converse(x1 * SIZE + y0, SIZE as int, x1 as int, y0 as int);
    }
    open_cell(level, x1, y0);
    proof {
        let goal = carve_corridor(start, SIZE as int, x0 as int, y0 as int, x1 as int, y1 as int);
        assert forall|i: int| 0 <= i < SIZE * SIZE implies (#[trigger] level@[i]) == goal[i] by {
            lemma_flat_index_split(i, SIZE as int);
        }
    }
}

/// The candidates for connection are rooms that fit if all rooms do.
pub proof fn lemma_candidates_fit(rooms: Seq<Room>, room: Room, size: int, budget: int, k: nat)
    requires
        rooms_fit(rooms, size),
        k <= rooms.len(),
    ensures
        rooms_fit(candidates(rooms, room, size, budget, k).0, size),
        candidates(rooms, room, size, budget, k).0.len() <= k,
        0 <= candidates(rooms, room, size, budget, k).1 <= CONNECT_DISTANCE,
    decreases k,
{
    if k > 0 {
        lemma_candidates_fit(rooms, room, size, budget, (k - 1) as nat);
        let before = candidates(rooms, room, size, budget, (k - 1) as nat);
        let d = spec_square_distance(room, rooms[k - 1], size);
        let dx = double_gap(
            room.left as int,
            room.right as int,
            rooms[k - 1].left as int,
            rooms[k - 1].right as int,
            size,
        );
        let dy = double_gap(
            room.top as int,
            room.bottom as int,
            rooms[k - 1].top as int,
            rooms[k - 1].bottom as int,
            size,
        );
        assert(dx * dx + dy * dy >= 0) by (nonlinear_arith);
        if d <= before.1 {
            let pushed = before.0.push(rooms[k - 1]);
            if pushed.len() >= budget {
                assert forall|j: int| 0 <= j < pushed.remove(0).len() implies (#[trigger] pushed.remove(0)[j]).roomy()
                    && pushed.remove(0)[j].right < size && pushed.remove(0)[j].bottom < size by {}
            }
        }
    }
}

/// The first position at which `room` stands in `rooms`, if it does.
fn find_room(rooms: &Vec<Room>, room: Room) -> (r: Option<usize>)
    ensures
        (match r {
            Some(a) => Some(a as int),
            None => None,
        }) == position(rooms@, room, 0),
        r matches Some(a) ==> a < rooms@.len(),
{
    let mut a: usize = 0;
    while a < rooms.len()
        invariant
            a <= rooms@.len(),
            position(rooms@, room, 0) == position(rooms@, room, a as int),
        decreases rooms@.len() - a,
    {
        let candidate = rooms[a];
        if candidate.left == room.left && candidate.top == room.top && candidate.right == room.right
            && candidate.bottom == room.bottom {
            return Some(a);
        }
        a += 1;
    }
    None
}

/// Collects the candidates for connection from `room`.
fn collect_candidates<const SIZE: usize>(rooms: &Vec<Room>, room: Room, budget: usize) -> (r: Vec<
    Room,
>)
    requires
        SIZE <= 0xffff_ffff,
        rooms_fit(rooms@, SIZE as int),
        room.roomy(),
        room.right < SIZE,
        room.bottom < SIZE,
    ensures
        r@ == candidates(rooms@, room, SIZE as int, budget as int, rooms@.len()).0,
        rooms_fit(r@, SIZE as int),
{
    let mut closest_distance: i128 = CONNECT_DISTANCE;
    let mut closest: Vec<Room> = Vec::new();
    let mut k: usize = 0;
    while k < rooms.len()
        invariant
            k <= rooms@.len(),
            SIZE <= 0xffff_ffff,
            rooms_fit(rooms@, SIZE as int),
            room.roomy(),
            room.right < SIZE,
            room.bottom < SIZE,
            (closest@, closest_distance as int) == candidates(
                rooms@,
                room,
                SIZE as int,
                budget as int,
                k as nat,
            ),
        decreases rooms@.len() - k,
    {
        let other = rooms[k];
        let new_distance: i128 = Room::square_distance::<SIZE>(&room, &other);
        if new_distance <= closest_distance {
            closest_distance = new_distance;
            closest.push(other);
            if closest.len() >= budget {
                closest.remove(0);
            }
        }
        k += 1;
    }
    proof {
        lemma_candidates_fit(rooms@, room, SIZE as int, budget as int, rooms@.len());
    }
    closest
}

/// Connects the rooms: each room still pending draws a budget, collects
/// candidates among all rooms, and digs corridors to those it accepts, which
/// thereby stop being pending.
pub fn connect_rooms<const SIZE: usize>(
    level: &mut Level<SIZE>,
    rooms: &Vec<Room>,
    random: &mut FastRandom,
)
    requires
        rooms_fit(rooms@, SIZE as int),
    ensures
        final(level)@ == connect_all(
            Linking { slots: old(level)@, seed: old(random)@, pending: rooms@, cursor: 0 },
            SIZE as int,
            rooms@,
        ).slots,
        final(random)@ == connect_all(
            Linking { slots: old(level)@, seed: old(random)@, pending: rooms@, cursor: 0 },
            SIZE as int,
            rooms@,
        ).seed,
{
    proof {
        use_type_invariant(&*level);
        level.lemma_inv();
        lemma_side_bound(SIZE as int);
    }
    let mut rooms_to_connect: Vec<Room> = Vec::new();
    let mut c: usize = 0;
    while c < rooms.len()
        invariant
            c <= rooms@.len(),
            rooms_to_connect@ == rooms@.subrange(0, c as int),
        decreases rooms@.len() - c,
    {
        rooms_to_connect.push(rooms[c]);
        c += 1;
    }
    assert(rooms_to_connect@ =~= rooms@);
    let ghost init = Linking { slots: old(level)@, seed: old(random)@, pending: rooms@, cursor: 0 };
    let mut i: i128 = 0;
    while i < rooms_to_connect.len() as i128
        invariant
            SIZE <= 0xffff_ffff,
            rooms_fit(rooms@, SIZE as int),
            rooms_fit(rooms_to_connect@, SIZE as int),
            0 <= i <= rooms_to_connect@.len(),
            connect_all(init, SIZE as int, rooms@) == connect_all(
                Linking { slots: level@, seed: random@, pending: rooms_to_connect@, cursor: i as int },
                SIZE as int,
                rooms@,
            ),
        decreases rooms_to_connect@.len() - i,
    {
        let room = rooms_to_connect[i as usize];
        let out_connections: usize = random.next_in_range(1, 12) as usize;
        let closest = collect_candidates::<SIZE>(rooms, room, out_connections);
        let ghost start = Linking {
            slots: level@,
            seed: random@,
            pending: rooms_to_connect@,
            cursor: i as int,
        };
        proof {
            lemma_link_measure(start, SIZE as int, room, closest@, closest@.len());
        }
        let mut ci: usize = 0;
        while ci < closest.len()
            invariant
                ci <= closest@.len(),
                room.roomy(),
                room.right < SIZE,
                room.bottom < SIZE,
                rooms_fit(closest@, SIZE as int),
                rooms_fit(rooms_to_connect@, SIZE as int),
                -1 <= i <= start.cursor,
                start.cursor >= 0,
                start.cursor < start.pending.len(),
                start.pending.len() <= usize::MAX,
                (Linking { slots: level@, seed: random@, pending: rooms_to_connect@, cursor: i as int })
                    == link(start, SIZE as int, room, closest@, ci as nat),
            decreases closest@.len() - ci,
        {
            let odds: u64 = if ci >= 2 {
                (ci - 1) as u64
            } else {
                1
            };
            if random.one_in(odds) {
                let other = closest[closest.len() - 1 - ci];
                match find_room(&rooms_to_connect, other) {
                    Some(a) => {
                        rooms_to_connect.remove(a);
                        proof {
                            assert forall|j: int| 0 <= j < rooms_to_connect@.len() implies (#[trigger] rooms_to_connect@[j]).roomy()
                                && rooms_to_connect@[j].right < SIZE && rooms_to_connect@[j].bottom
                                < SIZE by {}
                        }
                        if a as i128 <= i {
                            i -= 1;
                        }
                    },
                    None => {},
                }
                connect_room_pair(level, random, &room, &other);
            }
            ci += 1;
        }
        i += 1;
    }
}

/// A corridor only turns void into stone.
pub proof fn lemma_join_paints(slots: Seq<Slot>, size: int, seed: u64, a: Room, b: Room)
    ensures
        painted(slots, join(slots, size, seed, a, b).0, Tile::Stone, true),
{}

/// Considering candidates only turns void into stone.
pub proof fn lemma_link_paints(state: Linking, size: int, room: Room, found: Seq<Room>, n: nat)
    ensures
        painted(state.slots, link(state, size, room, found, n).slots, Tile::Stone, true),
    decreases n,
{
    if n > 0 {
        lemma_link_paints(state, size, room, found, (n - 1) as nat);
    }
}

/// Connecting rooms only turns void into stone: corridors spare floors,
/// caves and occupants.
pub proof fn lemma_connect_all_paints(state: Linking, size: int, rooms: Seq<Room>)
    ensures
        painted(state.slots, connect_all(state, size, rooms).slots, Tile::Stone, true),
    decreases state.pending.len() - state.cursor,
{
    if !(state.cursor < 0 || state.cursor >= state.pending.len()) {
        let room = state.pending[state.cursor];
        let draw = xorshift(state.seed);
        let budget = 1 + draw % 11;
        let found = candidates(rooms, room, size, budget, rooms.len()).0;
        let start = Linking {
            slots: state.slots,
            seed: draw,
            pending: state.pending,
            cursor: state.cursor,
        };
        let st = link(start, size, room, found, found.len());
        lemma_link_measure(start, size, room, found, found.len());
        lemma_link_paints(start, size, room, found, found.len());
        let next = Linking {
            slots: st.slots,
            seed: st.seed,
            pending: st.pending,
            cursor: st.cursor + 1,
        };
        lemma_connect_all_paints(next, size, rooms);
    }
}

} // verus!
