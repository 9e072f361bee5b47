//! The underworld: caves, rooms laid out by binary space partitioning, the
//! corridors that connect them and the worm caves that open them up.

use vstd::prelude::*;
use vstd::arithmetic::div_mod::{
    lemma_fundamental_div_mod, lemma_fundamental_div_mod_converse, lemma_mod_bound,
};
use crate::util::fast_random::{xorshift, FastRandom};
use crate::util::torus::lemma_wrap;
use crate::world::gen::underworld::corridors::{
    connect_all, lemma_connect_all_paints, rooms_fit, Linking,
};
use crate::world::gen::underworld::rooms::{
    floored, lay_out, lemma_lay_out_floors, lemma_lay_out_keeps_floor, lemma_lay_out_no_portals,
    lemma_lay_out_rooms, lemma_quadrant_fits, Dig, PARTITION_DEPTH,
};
use crate::world::gen::underworld::worms::{lemma_worm_caves_paint, worm_caves};
use crate::world::level::{
    deserted, lemma_flat_index_split, lemma_side_bound, no_portals, with_tile, Level, Slot,
};
use crate::world::tile::Tile;

pub mod corridors;
pub mod rooms;
pub mod worms;

pub use self::corridors::{connect_room_pair, connect_rooms};
pub use self::rooms::{dig_room, place_room, place_rooms, Room, MIN_QUADRANT_SIZE};
pub use self::worms::{carve_worm_caves, closest_floor_tile, find_void};

verus! {

/// What the cave field makes of one cell.
#[derive(Debug, Copy, Clone, PartialEq, Eq, Structural)]
pub enum CaveCell {
    /// Dense rock: the cell stays void.
    Rock,
    /// An open, humid cell.
    Grass,
    /// An open cell of middling humidity.
    ThinGrass,
    /// An open, dry cell.
    Stone,
}

impl CaveCell {
    /// The tile of the cell.
    pub open spec fn spec_tile(&self) -> Tile {
        match *self {
            CaveCell::Rock => Tile::Void,
            CaveCell::Grass => Tile::Grass,
            CaveCell::ThinGrass => Tile::ThinGrass,
            CaveCell::Stone => Tile::Stone,
        }
    }

    /// The tile that stands for it on the grid.
    #[verifier::when_used_as_spec(spec_tile)]
    pub fn tile(&self) -> (r: Tile)
        ensures
            r == self.spec_tile(),
    {
        match self {
            CaveCell::Rock => Tile::Void,
            CaveCell::Grass => Tile::Grass,
            CaveCell::ThinGrass => Tile::ThinGrass,
            CaveCell::Stone => Tile::Stone,
        }
    }
}

/// The slots after the cave field has been laid over them.
pub open spec fn caves_laid(slots: Seq<Slot>, caves: Seq<CaveCell>) -> Seq<Slot> {
    Seq::new(slots.len(), |i: int| with_tile(slots[i], caves[i].spec_tile()))
}

/// The state of room placement after the first `count` quadrants of side
/// `q`, of which `per_side` lie side by side in either direction, column by
/// column. One quadrant in six stays empty.
pub open spec fn quadrants(dig: Dig, size: int, q: int, per_side: int, count: nat) -> Dig
    decreases count,
{
    if count == 0 {
        dig
    } else {
        let before = quadrants(dig, size, q, per_side, (count - 1) as nat);
        let draw = xorshift(before.seed);
        let start = Dig { slots: before.slots, seed: draw, rooms: before.rooms };
        if draw % 6 == 0 {
            start
        } else {
            lay_out(
                start,
                size,
                ((count - 1) / per_side) * q,
                ((count - 1) % per_side) * q,
                q,
                q,
                PARTITION_DEPTH as nat,
            )
        }
    }
}

/// The outcome of placing the dungeons: rooms are laid out quadrant by
/// quadrant and then connected.
pub open spec fn dungeons(slots: Seq<Slot>, size: int, seed: u64, q: int) -> Dig {
    let per_side = size / q;
    let placed = quadrants(
        Dig { slots, seed, rooms: Seq::empty() },
        size,
        q,
        per_side,
        (per_side * per_side) as nat,
    );
    let linked = connect_all(
        Linking { slots: placed.slots, seed: placed.seed, pending: placed.rooms, cursor: 0 },
        size,
        placed.rooms,
    );
    Dig { slots: linked.slots, seed: linked.seed, rooms: placed.rooms }
}

/// The outcome of generating the underworld of side `size`: a level of void
/// is overlaid with the cave field, the dungeons are placed with quadrants of
/// side `q`, and the worm caves are carved. The generator starts from `seed`
/// less four and is advanced three times for the cave field.
pub open spec fn underworld(size: int, seed: u64, q: int, caves: Seq<CaveCell>) -> Dig {
    let blank = Seq::new((size * size) as nat, |i: int| Slot { tile: Tile::Void, entity: None });
    let s0 = xorshift(xorshift(xorshift(seed.wrapping_sub(4))));
    let dug = dungeons(caves_laid(blank, caves), size, s0, q);
    let wormed = worm_caves(dug.slots, size, dug.seed);
    Dig { slots: wormed.0, seed: wormed.1, rooms: dug.rooms }
}

/// Lays the cave field over the level, cell by cell in raster order. The
/// generator is advanced three times, once for each layer of noise that the
/// field is made of.
pub fn place_caves<const SIZE: usize>(
    level: &mut Level<SIZE>,
    random: &mut FastRandom,
    caves: &Vec<CaveCell>,
)
    requires
        caves@.len() == SIZE * SIZE,
    ensures
        final(level)@ == caves_laid(old(level)@, caves@),
        final(random)@ == xorshift(xorshift(xorshift(old(random)@))),
{
    proof {
        use_type_invariant(&*level);
        level.lemma_inv();
    }
    random.next();
    random.next();
    random.next();
    let n: usize = SIZE * SIZE;
    let mut c: usize = 0;
    while c < n
        invariant
            c <= n,
            n == SIZE * SIZE,
            SIZE > 0,
            caves@.len() == n,
            level@.len() == n,
            old(level)@.len() == n,
            forall|i: int|
                0 <= i < n ==> (#[trigger] level@[i]) == (if i < c {
                    with_tile(old(level)@[i], caves@[i].spec_tile())
                } else {
                    old(level)@[i]
                }),
        decreases n - c,
    {
        let x: usize = c / SIZE;
        let y: usize = c % SIZE;
        proof {
            lemma_flat_index_split(c as int, SIZE as int);
            lemma_wrap(x as int, SIZE as int);
            lemma_wrap(y as int, SIZE as int);
        }
        level.set_tile(x, y, caves[c].tile());
        c += 1;
    }
}

/// Places the dungeons: lays out rooms in every quadrant of side
/// `quadrant_size`, one quadrant in six excepted, connects the rooms, and
/// returns them.
pub fn place_dungeons<const SIZE: usize>(
    level: &mut Level<SIZE>,
    random: &mut FastRandom,
    quadrant_size: usize,
) -> (rooms: Vec<Room>)
    requires
        quadrant_size >= MIN_QUADRANT_SIZE,
    ensures
        (Dig { slots: final(level)@, seed: final(random)@, rooms: rooms@ }) == dungeons(
            old(level)@,
            SIZE as int,
            old(random)@,
            quadrant_size as int,
        ),
{
    proof {
        use_type_invariant(&*level);
        level.lemma_inv();
    }
    let mut rooms: Vec<Room> = Vec::new();
    let quadrants_in_side: usize = SIZE / quadrant_size;
    let ghost init = Dig { slots: old(level)@, seed: old(random)@, rooms: Seq::empty() };
    proof {
        if quadrants_in_side > 0 {
            assert(0 < quadrants_in_side * quadrants_in_side) by (nonlinear_arith)
                requires
                    quadrants_in_side > 0,
            ;
            lemma_quadrant_on_level(0, quadrants_in_side as int, quadrant_size as int, SIZE as int);
        } else {
            assert(quadrants_in_side * quadrants_in_side == 0) by (nonlinear_arith)
                requires
                    quadrants_in_side == 0,
            ;
        }
    }
    let count: usize = quadrants_in_side * quadrants_in_side;
    let mut c: usize = 0;
    while c < count
        invariant
            c <= count,
            count == quadrants_in_side * quadrants_in_side,
            quadrants_in_side == SIZE / quadrant_size,
            quadrant_size >= MIN_QUADRANT_SIZE,
            SIZE * SIZE <= usize::MAX,
            (Dig { slots: level@, seed: random@, rooms: rooms@ }) == quadrants(
                init,
                SIZE as int,
                quadrant_size as int,
                quadrants_in_side as int,
                c as nat,
            ),
        decreases count - c,
    {
        proof {
            assert(quadrants_in_side > 0) by (nonlinear_arith)
                requires
                    c < quadrants_in_side * quadrants_in_side,
            ;
            lemma_quadrant_on_level(c as int, quadrants_in_side as int, quadrant_size as int, SIZE as int);
            lemma_quadrant_fits(quadrant_size as int);
        }
        if !random.one_in(6) {
            let position_x: usize = (c / quadrants_in_side) * quadrant_size;
            let position_y: usize = (c % quadrants_in_side) * quadrant_size;
            place_rooms(
                level,
                random,
                position_x,
                position_y,
                quadrant_size,
                quadrant_size,
                PARTITION_DEPTH,
                &mut rooms,
            );
        }
        c += 1;
    }
    proof {
        lemma_quadrants_fit(
            init,
            SIZE as int,
            quadrant_size as int,
            quadrants_in_side as int,
            count as nat,
        );
    }
    connect_rooms(level, &rooms, random);
    rooms
}

/// Generates the underworld and returns it with its rooms.
pub fn generate_underworld<const SIZE: usize>(
    seed: u64,
    quadrant_size: usize,
    caves: &Vec<CaveCell>,
) -> (r: (Level<SIZE>, Vec<Room>))
    requires
        SIZE > 0,
        SIZE * SIZE <= usize::MAX,
        quadrant_size >= MIN_QUADRANT_SIZE,
        caves@.len() == SIZE * SIZE,
    ensures
        r.0@ == underworld(SIZE as int, seed, quadrant_size as int, caves@).slots,
        r.1@ == underworld(SIZE as int, seed, quadrant_size as int, caves@).rooms,
{
    let mut level = Level::<SIZE>::filled(Tile::Void);
    assert(level@ =~= Seq::new(
        (SIZE * SIZE) as nat,
        |i: int| Slot { tile: Tile::Void, entity: None },
    ));
    let mut random = FastRandom::new(seed.wrapping_sub(4));
    place_caves(&mut level, &mut random, caves);
    let rooms = place_dungeons(&mut level, &mut random, quadrant_size);
    carve_worm_caves(&mut level, &mut random);
    (level, rooms)
}

/// A quadrant lies on the level.
pub proof fn lemma_quadrant_on_level(c: int, per_side: int, q: int, size: int)
    requires
        q > 0,
        per_side == size / q,
        0 <= c < per_side * per_side,
        per_side > 0,
    ensures
        0 <= c / per_side < per_side,
        0 <= c % per_side < per_side,
        0 <= (c / per_side) * q,
        (c / per_side) * q + q <= size,
        0 <= (c % per_side) * q,
        (c % per_side) * q + q <= size,
        per_side * per_side <= size * size,
{
    let cx = c / per_side;
    let cy = c % per_side;
    lemma_fundamental_div_mod(c, per_side);
    lemma_mod_bound(c, per_side);
    lemma_fundamental_div_mod(size, q);
    lemma_mod_bound(size, q);
    assert(0 <= cx < per_side) by (nonlinear_arith)
        requires
            c == per_side * cx + cy,
            0 <= cy < per_side,
            0 <= c < per_side * per_side,
    ;
    assert(per_side * q <= size && per_side <= size) by (nonlinear_arith)
        requires
            size == q * per_side + size % q,
            0 <= size % q,
            q > 0,
            per_side > 0,
    ;
    assert(0 <= cx * q && cx * q + q <= per_side * q) by (nonlinear_arith)
        requires
            0 <= cx < per_side,
            q > 0,
    ;
    assert(0 <= cy * q && cy * q + q <= per_side * q) by (nonlinear_arith)
        requires
            0 <= cy < per_side,
            q > 0,
    ;
    assert(per_side * per_side <= size * size) by (nonlinear_arith)
        requires
            0 < per_side <= size,
    ;
}

/// The rooms that quadrant after quadrant adds all have floor and lie on
/// the level.
pub proof fn lemma_quadrants_fit(dig: Dig, size: int, q: int, per_side: int, count: nat)
    requires
        q >= MIN_QUADRANT_SIZE,
        per_side == size / q,
        count <= per_side * per_side,
        0 <= size,
        size * size <= usize::MAX,
        rooms_fit(dig.rooms, size),
    ensures
        rooms_fit(quadrants(dig, size, q, per_side, count).rooms, size),
    decreases count,
{
    if count > 0 {
        lemma_quadrants_fit(dig, size, q, per_side, (count - 1) as nat);
        let before = quadrants(dig, size, q, per_side, (count - 1) as nat);
        let draw = xorshift(before.seed);
        let start = Dig { slots: before.slots, seed: draw, rooms: before.rooms };
        if draw % 6 != 0 {
            assert(per_side > 0) by (nonlinear_arith)
                requires
                    0 < count <= per_side * per_side,
                    per_side == size / q,
                    size >= 0,
                    q > 0,
            ;
            lemma_quadrant_on_level(count - 1, per_side, q, size);
            lemma_quadrant_fits(q);
            lemma_side_bound(size);
            let px = ((count - 1) / per_side) * q;
            let py = ((count - 1) % per_side) * q;
            lemma_lay_out_rooms(start, size, px, py, q, q, PARTITION_DEPTH as nat);
            let out = lay_out(start, size, px, py, q, q, PARTITION_DEPTH as nat);
            assert forall|k: int| 0 <= k < out.rooms.len() implies (#[trigger] out.rooms[k]).roomy()
                && out.rooms[k].right < size && out.rooms[k].bottom < size by {
                if k < start.rooms.len() {
                    assert(out.rooms.subrange(0, start.rooms.len() as int)[k] == start.rooms[k]);
                }
            }
        }
    }
}

/// Rooms that lie inside different quadrants share no cell.
pub proof fn lemma_quadrants_apart(a: Room, b: Room, q: int, ax: int, ay: int, bx: int, by: int)
    by (nonlinear_arith)
    requires
        q > 0,
        a.left <= a.right,
        a.top <= a.bottom,
        b.left <= b.right,
        b.top <= b.bottom,
        ax * q < a.left,
        a.right < ax * q + q,
        ay * q < a.top,
        a.bottom < ay * q + q,
        bx * q < b.left,
        b.right < bx * q + q,
        by * q < b.top,
        b.bottom < by * q + q,
        ax != bx || ay != by,
    ensures
        a.right < b.left || b.right < a.left || a.bottom < b.top || b.bottom < a.top,
{}

/// Whether the room lies inside the quadrant that holds its upper left
/// corner, and whether that quadrant is one of the first `count`.
pub open spec fn placed_before(room: Room, q: int, per_side: int, count: int) -> bool {
    let qx = room.left as int / q;
    let qy = room.top as int / q;
    &&& room.inside(qx * q, qy * q, q, q)
    &&& 0 <= qx
    &&& 0 <= qy < per_side
    &&& qx * per_side + qy < count
}

/// A room inside the quadrant of index `c` has its upper left corner there.
pub proof fn lemma_home_quadrant(room: Room, q: int, per_side: int, c: int)
    requires
        q > 0,
        per_side > 0,
        0 <= c,
        room.inside((c / per_side) * q, (c % per_side) * q, q, q),
    ensures
        room.left as int / q == c / per_side,
        room.top as int / q == c % per_side,
        placed_before(room, q, per_side, c + 1),
        (room.left as int / q) * per_side + room.top as int / q == c,
{
    let cx = c / per_side;
    let cy = c % per_side;
    assert(cx >= 0 && 0 <= cy < per_side && cx * per_side + cy == c) by (nonlinear_arith)
        requires
            per_side > 0,
            0 <= c,
            cx == c / per_side,
            cy == c % per_side,
    ;
    lemma_fundamental_div_mod_converse(room.left as int, q, cx, room.left - cx * q);
    lemma_fundamental_div_mod_converse(room.top as int, q, cy, room.top - cy * q);
}

/// No two of the rooms that quadrant after quadrant places share a cell,
/// walls included, and every room lies inside the quadrant it was placed in.
pub proof fn lemma_quadrants_disjoint(dig: Dig, size: int, q: int, per_side: int, count: nat)
    requires
        q >= MIN_QUADRANT_SIZE,
        per_side == size / q,
        count <= per_side * per_side,
        0 <= size,
        size * size <= usize::MAX,
        dig.rooms.len() == 0,
    ensures
        ({
            let rooms = quadrants(dig, size, q, per_side, count).rooms;
            &&& forall|k: int|
                0 <= k < rooms.len() ==> placed_before(#[trigger] rooms[k], q, per_side, count as int)
            &&& forall|j: int, k: int|
                0 <= j < k < rooms.len() ==> (#[trigger] rooms[j]).disjoint(#[trigger] rooms[k])
        }),
    decreases count,
{
    if count > 0 {
        lemma_quadrants_disjoint(dig, size, q, per_side, (count - 1) as nat);
        let before = quadrants(dig, size, q, per_side, (count - 1) as nat);
        let draw = xorshift(before.seed);
        let start = Dig { slots: before.slots, seed: draw, rooms: before.rooms };
        let c = count - 1;
        assert(per_side > 0) by (nonlinear_arith)
            requires
                0 < count <= per_side * per_side,
                per_side == size / q,
                size >= 0,
                q > 0,
        ;
        let out = quadrants(dig, size, q, per_side, count);
        if draw % 6 != 0 {
            lemma_quadrant_on_level(c, per_side, q, size);
            lemma_quadrant_fits(q);
            lemma_side_bound(size);
            let px = (c / per_side) * q;
            let py = (c % per_side) * q;
            lemma_lay_out_rooms(start, size, px, py, q, q, PARTITION_DEPTH as nat);
            assert forall|k: int| 0 <= k < start.rooms.len() implies out.rooms[k] == start.rooms[k] by {}
            assert forall|k: int| 0 <= k < out.rooms.len() implies placed_before(
                #[trigger] out.rooms[k],
                q,
                per_side,
                count as int,
            ) by {
                if k >= start.rooms.len() {
                    lemma_home_quadrant(out.rooms[k], q, per_side, c);
                }
            }
            assert forall|j: int, k: int| 0 <= j < k < out.rooms.len() implies (#[trigger] out.rooms[j]).disjoint(
                #[trigger] out.rooms[k],
            ) by {
                if k >= start.rooms.len() && j < start.rooms.len() {
                    let a = out.rooms[j];
                    let b = out.rooms[k];
                    lemma_home_quadrant(b, q, per_side, c);
                    let ax = a.left as int / q;
                    let ay = a.top as int / q;
                    lemma_quadrants_apart(a, b, q, ax, ay, c / per_side, c % per_side);
                }
            }
        } else {
            assert forall|k: int| 0 <= k < out.rooms.len() implies placed_before(
                #[trigger] out.rooms[k],
                q,
                per_side,
                count as int,
            ) by {}
        }
    }
}

/// No two rooms of a dungeon share a cell: neither their floors nor their
/// walls intersect. Every room has floor and lies on the level.
pub proof fn lemma_dungeon_rooms_disjoint(slots: Seq<Slot>, size: int, seed: u64, q: int)
    requires
        q >= MIN_QUADRANT_SIZE,
        0 <= size,
        size * size <= usize::MAX,
    ensures
        ({
            let rooms = dungeons(slots, size, seed, q).rooms;
            &&& forall|j: int, k: int|
                0 <= j < k < rooms.len() ==> (#[trigger] rooms[j]).disjoint(#[trigger] rooms[k])
            &&& rooms_fit(rooms, size)
        }),
{
    let per_side = size / q;
    let init = Dig { slots, seed, rooms: Seq::empty() };
    lemma_quadrants_disjoint(init, size, q, per_side, (per_side * per_side) as nat);
    lemma_quadrants_fit(init, size, q, per_side, (per_side * per_side) as nat);
}

/// Placing rooms quadrant by quadrant makes no portal, puts nobody
/// anywhere, and neither adds nor loses a slot.
pub proof fn lemma_quadrants_no_portals(dig: Dig, size: int, q: int, per_side: int, count: nat)
    requires
        no_portals(dig.slots),
    ensures
        quadrants(dig, size, q, per_side, count).slots.len() == dig.slots.len(),
        no_portals(quadrants(dig, size, q, per_side, count).slots),
        deserted(dig.slots) ==> deserted(quadrants(dig, size, q, per_side, count).slots),
    decreases count,
{
    if count > 0 {
        let before = quadrants(dig, size, q, per_side, (count - 1) as nat);
        lemma_quadrants_no_portals(dig, size, q, per_side, (count - 1) as nat);
        let draw = xorshift(before.seed);
        let start = Dig { slots: before.slots, seed: draw, rooms: before.rooms };
        lemma_lay_out_no_portals(
            start,
            size,
            ((count - 1) / per_side) * q,
            ((count - 1) % per_side) * q,
            q,
            q,
            PARTITION_DEPTH as nat,
        );
    }
}

/// The underworld has one slot for each cell and, before portals are
/// placed, no portal. Nobody and nothing is in it.
pub proof fn lemma_underworld_no_portals(size: int, seed: u64, q: int, caves: Seq<CaveCell>)
    requires
        size > 0,
    ensures
        underworld(size, seed, q, caves).slots.len() == size * size,
        no_portals(underworld(size, seed, q, caves).slots),
        deserted(underworld(size, seed, q, caves).slots),
{
    assert(size * size > 0) by (nonlinear_arith)
        requires
            size > 0,
    ;
    let blank = Seq::new((size * size) as nat, |i: int| Slot { tile: Tile::Void, entity: None });
    let s0 = xorshift(xorshift(xorshift(seed.wrapping_sub(4))));
    let laid = caves_laid(blank, caves);
    let per_side = size / q;
    let init = Dig { slots: laid, seed: s0, rooms: Seq::empty() };
    lemma_quadrants_no_portals(init, size, q, per_side, (per_side * per_side) as nat);
    let placed = quadrants(init, size, q, per_side, (per_side * per_side) as nat);
    let linking = Linking { slots: placed.slots, seed: placed.seed, pending: placed.rooms, cursor: 0 };
    lemma_connect_all_paints(linking, size, placed.rooms);
    let linked = connect_all(linking, size, placed.rooms);
    lemma_worm_caves_paint(linked.slots, size, linked.seed);
}

/// Every room that quadrant after quadrant places has its floor when all
/// are placed: no room placed after it takes any of it away.
pub proof fn lemma_quadrants_floored(dig: Dig, size: int, q: int, per_side: int, count: nat)
    requires
        q >= MIN_QUADRANT_SIZE,
        per_side == size / q,
        count <= per_side * per_side,
        0 <= size,
        size * size <= usize::MAX,
        dig.rooms.len() == 0,
    ensures
        forall|k: int|
            0 <= k < quadrants(dig, size, q, per_side, count).rooms.len() ==> floored(
                quadrants(dig, size, q, per_side, count).slots,
                size,
                #[trigger] quadrants(dig, size, q, per_side, count).rooms[k],
            ),
    decreases count,
{
    if count > 0 {
        lemma_quadrants_floored(dig, size, q, per_side, (count - 1) as nat);
        let before = quadrants(dig, size, q, per_side, (count - 1) as nat);
        let draw = xorshift(before.seed);
        let start = Dig { slots: before.slots, seed: draw, rooms: before.rooms };
        let c = count - 1;
        let out = quadrants(dig, size, q, per_side, count);
        if draw % 6 != 0 {
            assert(per_side > 0) by (nonlinear_arith)
                requires
                    0 < count <= per_side * per_side,
                    per_side == size / q,
                    size >= 0,
                    q > 0,
            ;
            lemma_quadrant_on_level(c, per_side, q, size);
            lemma_quadrant_fits(q);
            lemma_side_bound(size);
            let px = (c / per_side) * q;
            let py = (c % per_side) * q;
            lemma_lay_out_rooms(start, size, px, py, q, q, PARTITION_DEPTH as nat);
            lemma_lay_out_floors(start, size, px, py, q, q, PARTITION_DEPTH as nat);
            lemma_quadrants_disjoint(dig, size, q, per_side, count);
            assert forall|k: int| 0 <= k < out.rooms.len() implies floored(
                out.slots,
                size,
                #[trigger] out.rooms[k],
            ) by {
                if k < start.rooms.len() {
                    let other = start.rooms[k];
                    assert(out.rooms.subrange(0, start.rooms.len() as int)[k] == other);
                    assert forall|j: int| start.rooms.len() <= j < out.rooms.len() implies other.disjoint(
                        #[trigger] out.rooms[j],
                    ) by {
                        assert(out.rooms[k].disjoint(out.rooms[j]));
                    }
                    lemma_lay_out_keeps_floor(
                        start,
                        size,
                        px,
                        py,
                        q,
                        q,
                        PARTITION_DEPTH as nat,
                        other,
                    );
                }
            }
        }
    }
}

/// The rooms of the underworld keep their floor: every cell strictly inside
/// a room is stone floor, whatever rooms, corridors and worm caves were dug
/// after the room was placed.
pub proof fn lemma_underworld_rooms_floored(size: int, seed: u64, q: int, caves: Seq<CaveCell>)
    requires
        size > 0,
        size * size <= usize::MAX,
        q >= MIN_QUADRANT_SIZE,
    ensures
        forall|k: int|
            0 <= k < underworld(size, seed, q, caves).rooms.len() ==> floored(
                underworld(size, seed, q, caves).slots,
                size,
                #[trigger] underworld(size, seed, q, caves).rooms[k],
            ),
{
    assert(size * size > 0) by (nonlinear_arith)
        requires
            size > 0,
    ;
    let blank = Seq::new((size * size) as nat, |i: int| Slot { tile: Tile::Void, entity: None });
    let s0 = xorshift(xorshift(xorshift(seed.wrapping_sub(4))));
    let laid = caves_laid(blank, caves);
    let per_side = size / q;
    let init = Dig { slots: laid, seed: s0, rooms: Seq::empty() };
    assert(0 <= per_side * per_side) by (nonlinear_arith);
    lemma_quadrants_floored(init, size, q, per_side, (per_side * per_side) as nat);
    lemma_quadrants_no_portals(init, size, q, per_side, (per_side * per_side) as nat);
    let placed = quadrants(init, size, q, per_side, (per_side * per_side) as nat);
    let linking = Linking { slots: placed.slots, seed: placed.seed, pending: placed.rooms, cursor: 0 };
    lemma_connect_all_paints(linking, size, placed.rooms);
    let linked = connect_all(linking, size, placed.rooms);
    lemma_worm_caves_paint(linked.slots, size, linked.seed);
    let out = underworld(size, seed, q, caves);
    assert forall|k: int| 0 <= k < out.rooms.len() implies floored(
        out.slots,
        size,
        #[trigger] out.rooms[k],
    ) by {
        let room = out.rooms[k];
        assert(floored(placed.slots, size, placed.rooms[k]));
        assert forall|i: int|
            0 <= i < out.slots.len() && room.tile_at(i / size, i % size) == Some(
                Tile::Stone,
            ) implies (#[trigger] out.slots[i]).tile == Tile::Stone by {
            assert(placed.slots[i].tile == Tile::Stone);
            assert(linked.slots[i].tile == Tile::Stone);
        }
    }
}

} // verus!
