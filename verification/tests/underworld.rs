use simulation::util::FastRandom;
use simulation::world::gen::underworld::{
    carve_worm_caves, connect_room_pair, connect_rooms, dig_room, find_void, generate_underworld,
    place_caves, place_dungeons, place_room, place_rooms, CaveCell, Room,
};
use simulation::world::{Level, Tile};

fn room(left: usize, top: usize, right: usize, bottom: usize) -> Room {
    Room { left, top, right, bottom }
}

fn count<const SIZE: usize>(level: &Level<SIZE>, tile: Tile) -> usize {
    (0..SIZE * SIZE).filter(|i| level.tile(i / SIZE, i % SIZE) == tile).count()
}

fn tiles<const SIZE: usize>(level: &Level<SIZE>) -> Vec<Tile> {
    (0..SIZE * SIZE).map(|i| level.tile(i / SIZE, i % SIZE)).collect()
}

fn share_a_cell(a: &Room, b: &Room) -> bool {
    a.left <= b.right && b.left <= a.right && a.top <= b.bottom && b.top <= a.bottom
}

#[test]
fn a_room_has_void_walls_and_stone_floor() {
    let mut level = Level::<8>::filled(Tile::Grass);
    dig_room(&mut level, room(1, 2, 4, 6));
    for x in 0..8 {
        for y in 0..8 {
            let expected = if (2..=3).contains(&x) && (3..=5).contains(&y) {
                Tile::Stone
            } else if (1..=4).contains(&x) && (2..=6).contains(&y) {
                Tile::Void
            } else {
                Tile::Grass
            };
            assert_eq!(level.tile(x, y), expected, "({}, {})", x, y);
        }
    }
}

#[test]
fn a_room_without_floor_is_all_wall() {
    let mut level = Level::<8>::filled(Tile::Grass);
    dig_room(&mut level, room(1, 1, 2, 5));
    assert_eq!(count(&level, Tile::Void), 10);
    assert_eq!(count(&level, Tile::Stone), 0);
}

#[test]
fn squared_distance_is_measured_between_walls() {
    let a = room(2, 2, 6, 6);
    assert_eq!(Room::square_distance::<64>(&a, &room(10, 2, 14, 6)), 32);
    assert_eq!(Room::square_distance::<64>(&a, &room(10, 10, 14, 14)), 32);
    assert_eq!(Room::square_distance::<64>(&a, &room(20, 30, 24, 34)), 14 * 14 + 24 * 24);
    assert_eq!(Room::square_distance::<64>(&room(10, 2, 14, 6), &a), 32);
}

#[test]
fn a_room_is_not_at_distance_zero_from_itself() {
    let a = room(2, 2, 6, 6);
    assert_eq!(Room::square_distance::<64>(&a, &a), 32);
    let cell = room(3, 3, 3, 3);
    assert_eq!(Room::square_distance::<64>(&cell, &cell), 0);
}

#[test]
fn squared_distance_goes_the_shorter_way_round() {
    let a = room(2, 2, 6, 6);
    assert_eq!(Room::square_distance::<64>(&a, &room(58, 2, 62, 6)), 160);
    assert_eq!(Room::square_distance::<64>(&a, &room(58, 58, 62, 62)), 288);
}

#[test]
fn a_position_inside_lies_strictly_between_the_walls() {
    let a = room(2, 2, 6, 6);
    let mut random = FastRandom::new(1);
    assert_eq!(a.random_position_inside(&mut random), (3, 5));
    assert_eq!(random.state(), 1130297953386881);
    for _ in 0..200 {
        let (x, y) = a.random_position_inside(&mut random);
        assert!(2 < x && x < 6 && 2 < y && y < 6);
    }
    let narrow = room(4, 4, 6, 6);
    assert_eq!(narrow.random_position_inside(&mut random), (5, 5));
}

#[test]
fn a_corridor_runs_along_the_row_and_then_along_the_column() {
    let mut level = Level::<16>::filled(Tile::Void);
    let mut random = FastRandom::new(1);
    connect_room_pair(&mut level, &mut random, &room(2, 2, 6, 6), &room(10, 10, 14, 14));
    let mut expected: Vec<(usize, usize)> = (3..=11).map(|x| (x, 5)).collect();
    expected.extend((6..=10).map(|y| (11, y)));
    for x in 0..16 {
        for y in 0..16 {
            let tile = if expected.contains(&(x, y)) { Tile::Stone } else { Tile::Void };
            assert_eq!(level.tile(x, y), tile, "({}, {})", x, y);
        }
    }
    assert_eq!(random.state(), 144132848981442561);
}

#[test]
fn a_corridor_is_dug_through_void_only() {
    let mut level = Level::<16>::filled(Tile::Grass);
    level.set_tile(5, 5, Tile::Void);
    level.set_tile(11, 8, Tile::Void);
    level.set_tile(12, 8, Tile::Void);
    let mut random = FastRandom::new(1);
    connect_room_pair(&mut level, &mut random, &room(2, 2, 6, 6), &room(10, 10, 14, 14));
    assert_eq!(count(&level, Tile::Stone), 2);
    assert_eq!(level.tile(5, 5), Tile::Stone);
    assert_eq!(level.tile(11, 8), Tile::Stone);
    assert_eq!(level.tile(12, 8), Tile::Void);
    assert_eq!(count(&level, Tile::Grass), 253);
}

#[test]
fn rooms_are_laid_out_by_partitioning() {
    let mut level = Level::<32>::filled(Tile::Void);
    let mut random = FastRandom::new(1);
    let mut rooms = Vec::new();
    place_rooms(&mut level, &mut random, 0, 0, 32, 32, 4, &mut rooms);
    assert_eq!(
        rooms,
        vec![
            room(10, 1, 15, 7),
            room(2, 10, 6, 15),
            room(1, 18, 6, 23),
            room(1, 25, 6, 31),
            room(9, 18, 14, 22),
            room(9, 25, 14, 30),
            room(18, 1, 30, 6),
            room(25, 10, 31, 15),
        ]
    );
    assert_eq!(random.state(), 16539260774190700775);
    assert_eq!(count(&level, Tile::Stone), 160);
    assert_eq!(count(&level, Tile::Void), 32 * 32 - 160);
}

#[test]
fn rooms_are_appended_to_those_already_there() {
    let mut level = Level::<64>::filled(Tile::Void);
    let mut random = FastRandom::new(7);
    let mut rooms = vec![room(40, 40, 50, 50)];
    place_rooms(&mut level, &mut random, 0, 0, 32, 32, 4, &mut rooms);
    assert_eq!(
        rooms,
        vec![
            room(40, 40, 50, 50),
            room(10, 1, 14, 7),
            room(10, 26, 14, 30),
            room(18, 2, 22, 6),
            room(18, 10, 22, 15),
            room(26, 2, 31, 7),
            room(25, 9, 31, 14),
            room(21, 19, 29, 27),
        ]
    );
    assert_eq!(random.state(), 5498131912807754717);
    assert_eq!(count(&level, Tile::Stone), 130);
}

#[test]
fn a_room_is_placed_only_where_its_corners_are_void() {
    let mut level = Level::<32>::filled(Tile::Void);
    let mut random = FastRandom::new(1);
    let mut rooms = Vec::new();
    place_room(&mut level, &mut random, 0, 0, 8, 8, &mut rooms);
    assert_eq!(rooms.len(), 1);
    let placed = rooms[0];
    assert_eq!(random.state(), 144132848981442561);
    let mut blocked = Level::<32>::filled(Tile::Void);
    blocked.set_tile(placed.right, placed.bottom, Tile::Grass);
    let mut random = FastRandom::new(1);
    let mut rooms = Vec::new();
    place_room(&mut blocked, &mut random, 0, 0, 8, 8, &mut rooms);
    assert!(rooms.is_empty());
    assert_eq!(count(&blocked, Tile::Stone), 0);
    assert_eq!(random.state(), 144132848981442561);
}

#[test]
fn dungeons_are_placed_quadrant_by_quadrant_and_connected() {
    let mut level = Level::<64>::filled(Tile::Void);
    let mut random = FastRandom::new(3);
    let rooms = place_dungeons(&mut level, &mut random, 32);
    assert_eq!(rooms.len(), 23);
    assert_eq!(
        rooms[..6],
        [
            room(3, 5, 12, 11),
            room(1, 17, 6, 23),
            room(2, 25, 6, 30),
            room(10, 18, 15, 22),
            room(10, 25, 15, 31),
            room(17, 1, 22, 6),
        ]
    );
    assert_eq!(random.state(), 14774902159585042860);
    assert_eq!(count(&level, Tile::Stone), 619);
}

#[test]
fn no_two_rooms_share_a_cell() {
    for seed in [1u64, 2, 3, 5344545, 99, u64::MAX] {
        let mut level = Level::<128>::filled(Tile::Void);
        let mut random = FastRandom::new(seed);
        let rooms = place_dungeons(&mut level, &mut random, 32);
        assert!(!rooms.is_empty());
        for (i, a) in rooms.iter().enumerate() {
            assert!(a.left + 1 < a.right && a.top + 1 < a.bottom);
            assert!(a.right < 128 && a.bottom < 128);
            assert_eq!(a.left / 32, a.right / 32);
            assert_eq!(a.top / 32, a.bottom / 32);
            for b in &rooms[i + 1..] {
                assert!(!share_a_cell(a, b), "{:?} {:?}", a, b);
            }
        }
    }
}

#[test]
fn connecting_rooms_only_turns_void_into_stone() {
    let mut level = Level::<64>::filled(Tile::Void);
    let mut random = FastRandom::new(11);
    let mut rooms = Vec::new();
    place_rooms(&mut level, &mut random, 0, 0, 32, 32, 4, &mut rooms);
    place_rooms(&mut level, &mut random, 32, 0, 32, 32, 4, &mut rooms);
    let before = tiles(&level);
    connect_rooms(&mut level, &rooms, &mut random);
    let after = tiles(&level);
    let mut dug = 0;
    for i in 0..before.len() {
        if before[i] != after[i] {
            assert_eq!(before[i], Tile::Void);
            assert_eq!(after[i], Tile::Stone);
            dug += 1;
        }
    }
    assert!(dug > 0);
}

#[test]
fn connecting_no_rooms_does_nothing() {
    let mut level = Level::<64>::filled(Tile::Void);
    let mut random = FastRandom::new(11);
    connect_rooms(&mut level, &Vec::new(), &mut random);
    assert_eq!(count(&level, Tile::Void), 64 * 64);
    assert_eq!(random.state(), 11);
}

#[test]
fn the_cave_field_is_laid_cell_by_cell() {
    let mut level = Level::<4>::filled(Tile::Void);
    let mut random = FastRandom::new(1);
    let cells = [CaveCell::Rock, CaveCell::Grass, CaveCell::ThinGrass, CaveCell::Stone];
    let caves: Vec<CaveCell> = (0..16).map(|i| cells[(i * 7) % 4]).collect();
    place_caves(&mut level, &mut random, &caves);
    for i in 0..16 {
        assert_eq!(level.tile(i / 4, i % 4), caves[i].tile());
    }
    assert_eq!(random.state(), 9242588279455355187);
    assert_eq!(CaveCell::Rock.tile(), Tile::Void);
    assert_eq!(CaveCell::Grass.tile(), Tile::Grass);
    assert_eq!(CaveCell::ThinGrass.tile(), Tile::ThinGrass);
    assert_eq!(CaveCell::Stone.tile(), Tile::Stone);
}

#[test]
fn find_void_samples_free_void() {
    let mut level = Level::<4>::filled(Tile::Stone);
    level.set_tile(3, 0, Tile::Void);
    let mut random = FastRandom::new(9);
    assert_eq!(find_void(&mut random, &level), Some((3, 0)));
    let full = Level::<4>::filled(Tile::Stone);
    assert_eq!(find_void(&mut random, &full), None);
}

#[test]
fn worm_caves_spare_whatever_is_not_void() {
    let mut level = Level::<96>::filled(Tile::Void);
    let mut random = FastRandom::new(5);
    place_dungeons(&mut level, &mut random, 32);
    for x in 0..96 {
        level.set_tile(x, 50, Tile::Grass);
    }
    let before = tiles(&level);
    carve_worm_caves(&mut level, &mut random);
    let after = tiles(&level);
    let mut dug = 0;
    for i in 0..before.len() {
        if before[i] != after[i] {
            assert_eq!(before[i], Tile::Void);
            assert_eq!(after[i], Tile::Stone);
            dug += 1;
        }
    }
    assert!(dug > 0);
}

#[test]
fn the_underworld_is_a_function_of_its_inputs() {
    let caves: Vec<CaveCell> = (0..96 * 96)
        .map(|i| if (i / 96 + i % 96) % 13 == 0 { CaveCell::Grass } else { CaveCell::Rock })
        .collect();
    let (a, rooms_a) = generate_underworld::<96>(77, 32, &caves);
    let (b, rooms_b) = generate_underworld::<96>(77, 32, &caves);
    assert_eq!(tiles(&a), tiles(&b));
    assert_eq!(rooms_a, rooms_b);
    let (c, _) = generate_underworld::<96>(78, 32, &caves);
    assert_ne!(tiles(&a), tiles(&c));
    assert!(count(&a, Tile::Stone) > 0);
}

#[test]
fn small_seeds_wrap_below_zero() {
    let caves: Vec<CaveCell> = vec![CaveCell::Rock; 64 * 64];
    let (a, _) = generate_underworld::<64>(1, 32, &caves);
    let mut level = Level::<64>::filled(Tile::Void);
    let mut random = FastRandom::new(u64::MAX - 2);
    place_caves(&mut level, &mut random, &caves);
    place_dungeons(&mut level, &mut random, 32);
    carve_worm_caves(&mut level, &mut random);
    assert_eq!(tiles(&a), tiles(&level));
}

/// A plain grid of tiles, columns first, for laying out dungeons the
/// straightforward way.
struct Plain {
    size: usize,
    tiles: Vec<Tile>,
}

impl Plain {
    fn new(size: usize) -> Self {
        Plain { size, tiles: vec![Tile::Void; size * size] }
    }

    fn at(&mut self, x: usize, y: usize) -> &mut Tile {
        let size = self.size;
        &mut self.tiles[(x % size) * size + y % size]
    }

    fn square_distance(&self, a: &Room, b: &Room) -> isize {
        let aw = a.right - a.left;
        let ah = a.bottom - a.top;
        let acx = a.right + a.left;
        let acy = a.bottom + a.top;
        let bw = b.right - b.left;
        let bh = b.bottom - b.top;
        let bcx = b.right + b.left;
        let bcy = b.bottom + b.top;
        let dx = acx.abs_diff(bcx) as isize - (aw + bw) as isize;
        let dy = acy.abs_diff(bcy) as isize - (ah + bh) as isize;
        let dx = dx.min((self.size * 2) as isize - dx);
        let dy = dy.min((self.size * 2) as isize - dy);
        (dx * dx + dy * dy) / 4
    }

    fn place_rooms(
        &mut self,
        random: &mut FastRandom,
        position_x: usize,
        position_y: usize,
        quadrant_width: usize,
        quadrant_height: usize,
        depth: usize,
        accumulator: &mut Vec<Room>,
    ) {
        if random.one_in(4 + depth as u64) {
            return;
        }
        if depth == 0 || random.one_in(10 + depth as u64 * 2) {
            let s = quadrant_width.min(quadrant_height) as u64;
            let min_padding = (s / 5).max(1);
            let max_padding = (s / 3).max(2);
            let left = position_x + random.next_in_range(min_padding, max_padding + 1) as usize;
            let top = position_y + random.next_in_range(min_padding, max_padding + 1) as usize;
            let right =
                position_x + quadrant_width - random.next_in_range(min_padding, max_padding + 1) as usize;
            let bottom =
                position_y + quadrant_height - random.next_in_range(min_padding, max_padding + 1) as usize;
            if !(*self.at(left, top) == Tile::Void
                && *self.at(right, top) == Tile::Void
                && *self.at(left, bottom) == Tile::Void
                && *self.at(right, bottom) == Tile::Void)
            {
                return;
            }
            for x in left..=right {
                *self.at(x, top) = Tile::Void;
                *self.at(x, bottom) = Tile::Void;
            }
            for y in (top + 1)..bottom {
                *self.at(left, y) = Tile::Void;
                *self.at(right, y) = Tile::Void;
            }
            for x in (left + 1)..right {
                for y in (top + 1)..bottom {
                    *self.at(x, y) = Tile::Stone;
                }
            }
            accumulator.push(Room { left, top, right, bottom });
        } else if quadrant_height > quadrant_width || (quadrant_height == quadrant_width && random.one_in(2)) {
            let half = quadrant_height / 2;
            self.place_rooms(random, position_x, position_y, quadrant_width, half, depth - 1, accumulator);
            self.place_rooms(random, position_x, position_y + half, quadrant_width, half, depth - 1, accumulator);
        } else {
            let half = quadrant_width / 2;
            self.place_rooms(random, position_x, position_y, half, quadrant_height, depth - 1, accumulator);
            self.place_rooms(random, position_x + half, position_y, half, quadrant_height, depth - 1, accumulator);
        }
    }

    fn connect_room_pair(&mut self, random: &mut FastRandom, a: &Room, b: &Room) {
        let x0 = random.next_in_range(a.left as u64 + 1, a.right as u64) as usize;
        let y0 = random.next_in_range(a.top as u64 + 1, a.bottom as u64) as usize;
        let x1 = random.next_in_range(b.left as u64 + 1, b.right as u64) as usize;
        let y1 = random.next_in_range(b.top as u64 + 1, b.bottom as u64) as usize;
        let xr = if x0 < x1 { x0..x1 } else { x1..x0 };
        let yr = if y0 < y1 { y0..y1 } else { y1..y0 };
        for x in xr {
            if *self.at(x, y0) == Tile::Void {
                *self.at(x, y0) = Tile::Stone;
            }
        }
        for y in yr {
            if *self.at(x1, y) == Tile::Void {
                *self.at(x1, y) = Tile::Stone;
            }
        }
        if *self.at(x1, y0) == Tile::Void {
            *self.at(x1, y0) = Tile::Stone;
        }
    }

    fn connect_rooms(&mut self, rooms: &Vec<Room>, random: &mut FastRandom) {
        let mut rooms_to_connect: Vec<Room> = rooms.clone();
        let mut i: isize = 0;
        while i < rooms_to_connect.len() as isize {
            let room = rooms_to_connect[i as usize];
            let out_connections = random.next_in_range(1, 12) as usize;
            let mut closest_distance = 256;
            let mut closest: Vec<&Room> = vec![];
            for other_room in rooms {
                let new_distance = self.square_distance(&room, other_room);
                if new_distance <= closest_distance {
                    closest_distance = new_distance;
                    closest.push(other_room);
                    if closest.len() >= out_connections {
                        closest.remove(0);
                    }
                }
            }
            closest.reverse();
            for ci in 0..closest.len() {
                if random.one_in((ci as i64 - 1).max(1) as u64) {
                    let other_room = closest[ci];
                    if let Some(a) = rooms_to_connect.iter().position(|r| r == other_room) {
                        rooms_to_connect.remove(a);
                        if a as isize <= i {
                            i -= 1;
                        }
                    }
                    self.connect_room_pair(random, &room, other_room);
                }
            }
            i += 1;
        }
    }

    fn place_dungeons(&mut self, random: &mut FastRandom, quadrant_size: usize) -> Vec<Room> {
        let mut rooms = Vec::new();
        let quadrants_in_side = self.size / quadrant_size;
        for quadrant_x in 0..quadrants_in_side {
            for quadrant_y in 0..quadrants_in_side {
                if !random.one_in(6) {
                    self.place_rooms(
                        random,
                        quadrant_x * quadrant_size,
                        quadrant_y * quadrant_size,
                        quadrant_size,
                        quadrant_size,
                        4,
                        &mut rooms,
                    );
                }
            }
        }
        self.connect_rooms(&rooms, random);
        rooms
    }
}

#[test]
fn dungeons_agree_with_the_straightforward_layout() {
    let mut picker = FastRandom::new(31337);
    for round in 0..60 {
        let seed = picker.next();
        let quadrant_size = [24usize, 32, 40, 48][round % 4];
        let mut level = Level::<128>::filled(Tile::Void);
        let mut plain = Plain::new(128);
        for _ in 0..(round * 10) {
            let x = picker.next_less_than(128) as usize;
            let y = picker.next_less_than(128) as usize;
            level.set_tile(x, y, Tile::Grass);
            *plain.at(x, y) = Tile::Grass;
        }
        let mut a = FastRandom::new(seed);
        let mut b = FastRandom::new(seed);
        let rooms = place_dungeons(&mut level, &mut a, quadrant_size);
        let expected = plain.place_dungeons(&mut b, quadrant_size);
        assert_eq!(rooms, expected, "round {}", round);
        assert_eq!(tiles(&level), plain.tiles, "round {}", round);
        assert_eq!(a.state(), b.state(), "round {}", round);
    }
}

#[test]
fn rooms_keep_their_floor_and_nobody_lives_underground() {
    let caves: Vec<CaveCell> = (0..96 * 96)
        .map(|i| if (i / 96 + i % 96) % 13 == 0 { CaveCell::Grass } else { CaveCell::Rock })
        .collect();
    let mut placed = 0;
    for seed in [1u64, 77, 78, 12345] {
        let (level, rooms) = generate_underworld::<96>(seed, 32, &caves);
        placed += rooms.len();
        for room in &rooms {
            for x in room.left + 1..room.right {
                for y in room.top + 1..room.bottom {
                    assert_eq!(level.tile(x, y), Tile::Stone, "seed {} room {:?}", seed, room);
                }
            }
        }
        for x in 0..96 {
            for y in 0..96 {
                assert!(level.entity(x, y).is_none());
            }
        }
    }
    assert!(placed > 0);
}
