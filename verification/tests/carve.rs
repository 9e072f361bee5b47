use simulation::util::math::{capped_sqrt, divide_toward_zero, int_sqrt};
use simulation::util::torus::{wrap_index, wrap_offset, wrap_wide};
use simulation::util::FastRandom;
use simulation::world::gen::carve::carve_from;
use simulation::world::{Level, Tile};

const SIZE: usize = 96;

fn tiles(level: &Level<SIZE>) -> Vec<Tile> {
    (0..SIZE * SIZE).map(|i| level.tile(i / SIZE, i % SIZE)).collect()
}

/// The same tunnel computed with real numbers, step by step as the
/// fractions describe it.
fn carve_with_reals(
    level: &mut Level<SIZE>,
    random: &mut FastRandom,
    max_distance: usize,
    mut from_x: usize,
    mut from_y: usize,
    to_x: usize,
    to_y: usize,
    tile: Tile,
    only_on_void: bool,
) {
    let length =
        ((from_x.abs_diff(to_x).pow(2) + from_y.abs_diff(to_y).pow(2)) as f64).sqrt() as usize;
    if length >= max_distance || length == 0 {
        return;
    }
    let radius_multiplier = random.next_less_than(256) as f64 / 255.0;
    for i in (-(length as isize) / 3)..=length as isize {
        let ratio = i as f64 / length as f64;
        let inv_ratio = 1.0 - ratio;
        let x = to_x as f64 * inv_ratio + from_x as f64 * ratio;
        let y = to_y as f64 * inv_ratio + from_y as f64 * ratio;
        let radius = 1.5 + radius_multiplier * 2.2 + inv_ratio * inv_ratio * 1.2;
        let sr = radius * radius;
        for bx in (x - radius) as i64..=(x + radius) as i64 {
            for by in (y - radius) as i64..=(y + radius) as i64 {
                if (bx as f64 - x) * (bx as f64 - x) + (by as f64 - y) * (by as f64 - y) > sr {
                    continue;
                }
                let cx = (bx + SIZE as i64) as usize % SIZE;
                let cy = (by + SIZE as i64) as usize % SIZE;
                if !only_on_void || level.tile(cx, cy) == Tile::Void {
                    level.set_tile(cx, cy, tile);
                }
            }
        }
        if random.one_in((1.5 + inv_ratio * 6.2) as u64) {
            from_x = (from_x as i64 + random.next_less_than(9) as i64 - 4 + SIZE as i64) as usize % SIZE;
            from_y = (from_y as i64 + random.next_less_than(9) as i64 - 4 + SIZE as i64) as usize % SIZE;
        }
    }
}

#[test]
fn division_rounds_toward_zero() {
    assert_eq!(divide_toward_zero(7, 2), 3);
    assert_eq!(divide_toward_zero(-7, 2), -3);
    assert_eq!(divide_toward_zero(-1, 2), 0);
    assert_eq!(divide_toward_zero(0, 5), 0);
    assert_eq!(divide_toward_zero(-10, 5), -2);
}

#[test]
fn the_capped_root_is_the_integer_square_root_up_to_the_cap() {
    assert_eq!(capped_sqrt(0, 10), 0);
    assert_eq!(capped_sqrt(1, 10), 1);
    assert_eq!(capped_sqrt(24, 10), 4);
    assert_eq!(capped_sqrt(25, 10), 5);
    assert_eq!(capped_sqrt(26, 10), 5);
    assert_eq!(capped_sqrt(99, 10), 9);
    assert_eq!(capped_sqrt(100, 10), 10);
    assert_eq!(capped_sqrt(1_000_000, 10), 10);
    assert_eq!(capped_sqrt(1_000_000, 0), 0);
    for n in 0u128..2000 {
        assert_eq!(capped_sqrt(n, 1000), (n as f64).sqrt() as u64);
    }
}

#[test]
fn the_capped_root_takes_any_cap() {
    assert_eq!(capped_sqrt(u128::MAX, u64::MAX), u64::MAX);
    assert_eq!(capped_sqrt(1u128 << 64, u64::MAX), 1u64 << 32);
    assert_eq!(capped_sqrt((1u128 << 64) - 1, u64::MAX), (1u64 << 32) - 1);
    assert_eq!(capped_sqrt(1u128 << 64, 1u64 << 32), 1u64 << 32);
    assert_eq!(capped_sqrt(1u128 << 64, (1u64 << 32) - 1), (1u64 << 32) - 1);
    assert_eq!(capped_sqrt(50, u64::MAX), 7);
    assert_eq!(capped_sqrt(50, 7), 7);
    assert_eq!(capped_sqrt(50, 6), 6);
}

#[test]
fn the_integer_root_is_the_largest_whose_square_fits() {
    assert_eq!(int_sqrt(0), 0);
    assert_eq!(int_sqrt(1), 1);
    assert_eq!(int_sqrt(3), 1);
    assert_eq!(int_sqrt(4), 2);
    assert_eq!(int_sqrt(8 * 65536 * 65536), 185363);
    assert_eq!(int_sqrt(u64::MAX), 0xffff_ffff);
    for n in 0u64..3000 {
        let r = int_sqrt(n);
        assert!(r * r <= n && n < (r + 1) * (r + 1));
    }
}

#[test]
fn wrapping_is_the_remainder_of_floored_division() {
    assert_eq!(wrap_offset(0, -1, 8), 7);
    assert_eq!(wrap_offset(7, 1, 8), 0);
    assert_eq!(wrap_offset(3, -19, 8), 0);
    assert_eq!(wrap_offset(3, 0, 8), 3);
    assert_eq!(wrap_offset(11, 0, 8), 3);
    assert_eq!(wrap_offset(usize::MAX, i64::MAX, 1), 0);
    assert_eq!(wrap_offset(0, i64::MIN, 3), 1);
    assert_eq!(wrap_wide(-1, 8), 7);
    assert_eq!(wrap_wide(-8, 8), 0);
    assert_eq!(wrap_wide(-9, 8), 7);
    assert_eq!(wrap_wide(17, 8), 1);
    assert_eq!(wrap_index(17, 8), 1);
}

#[test]
fn a_tunnel_between_far_cells_is_not_dug() {
    let mut level = Level::<SIZE>::filled(Tile::Void);
    let mut random = FastRandom::new(1);
    carve_from(&mut level, &mut random, 10, 0, 0, 6, 8, Tile::Stone, true);
    assert!(tiles(&level).iter().all(|t| *t == Tile::Void));
    assert_eq!(random.state(), 1);
    carve_from(&mut level, &mut random, 11, 0, 0, 6, 8, Tile::Stone, true);
    assert!(tiles(&level).iter().any(|t| *t == Tile::Stone));
    assert_ne!(random.state(), 1);
}

#[test]
fn the_limit_on_the_length_matters_only_where_it_is_reached() {
    let mut narrow = Level::<SIZE>::filled(Tile::Void);
    let mut a = FastRandom::new(42);
    carve_from(&mut narrow, &mut a, 11, 0, 0, 6, 8, Tile::Stone, true);
    for limit in [12usize, 4096, 4097, 1 << 24, (1 << 24) + 1, usize::MAX] {
        let mut wide = Level::<SIZE>::filled(Tile::Void);
        let mut b = FastRandom::new(42);
        carve_from(&mut wide, &mut b, limit, 0, 0, 6, 8, Tile::Stone, true);
        assert_eq!(tiles(&wide), tiles(&narrow));
        assert_eq!(a.state(), b.state());
    }
    assert!(tiles(&narrow).iter().any(|t| *t == Tile::Stone));
}

#[test]
fn a_tunnel_from_a_cell_to_itself_is_not_dug() {
    let mut level = Level::<SIZE>::filled(Tile::Void);
    let mut random = FastRandom::new(1);
    carve_from(&mut level, &mut random, 10, 5, 5, 5, 5, Tile::Stone, true);
    assert!(tiles(&level).iter().all(|t| *t == Tile::Void));
    assert_eq!(random.state(), 1);
}

#[test]
fn the_shortest_tunnel_is_a_disc_around_each_end() {
    let mut level = Level::<SIZE>::filled(Tile::Void);
    let mut random = FastRandom::new(0);
    carve_from(&mut level, &mut random, 10, 41, 40, 40, 40, Tile::Stone, true);
    for x in 30..50 {
        for y in 30..50 {
            let dx = x as i64 - 40;
            let dy = y as i64 - 40;
            let near_far_end = dx * dx + dy * dy <= 7;
            let jx = x as i64 - 37;
            let jy = y as i64 - 36;
            let near_end_after_its_jump = jx * jx + jy * jy <= 2;
            let expected = if near_far_end || near_end_after_its_jump {
                Tile::Stone
            } else {
                Tile::Void
            };
            assert_eq!(level.tile(x, y), expected, "({}, {})", x, y);
        }
    }
}

#[test]
fn tunnels_agree_with_real_arithmetic() {
    let mut picker = FastRandom::new(424242);
    for round in 0..400 {
        let seed = picker.next();
        let from_x = picker.next_less_than(SIZE as u64) as usize;
        let from_y = picker.next_less_than(SIZE as u64) as usize;
        let to_x = picker.next_less_than(SIZE as u64) as usize;
        let to_y = picker.next_less_than(SIZE as u64) as usize;
        let only_on_void = round % 2 == 0;
        let mut exact = Level::<SIZE>::filled(Tile::Void);
        let mut real = Level::<SIZE>::filled(Tile::Void);
        for x in 0..SIZE {
            exact.set_tile(x, (x * 5) % SIZE, Tile::Grass);
            real.set_tile(x, (x * 5) % SIZE, Tile::Grass);
        }
        let mut a = FastRandom::new(seed);
        let mut b = FastRandom::new(seed);
        carve_from(&mut exact, &mut a, 64, from_x, from_y, to_x, to_y, Tile::Stone, only_on_void);
        carve_with_reals(&mut real, &mut b, 64, from_x, from_y, to_x, to_y, Tile::Stone, only_on_void);
        assert_eq!(tiles(&exact), tiles(&real), "round {}", round);
        assert_eq!(a.state(), b.state(), "round {}", round);
    }
}

#[test]
fn a_tunnel_through_void_only_spares_everything_else() {
    let mut level = Level::<SIZE>::filled(Tile::Grass);
    level.set_tile(20, 20, Tile::Void);
    let mut random = FastRandom::new(77);
    carve_from(&mut level, &mut random, 64, 10, 20, 30, 20, Tile::Stone, true);
    for x in 0..SIZE {
        for y in 0..SIZE {
            let expected = if (x, y) == (20, 20) { Tile::Stone } else { Tile::Grass };
            assert_eq!(level.tile(x, y), expected);
        }
    }
}

#[test]
fn a_river_goes_through_everything() {
    let mut level = Level::<SIZE>::filled(Tile::Grass);
    let mut random = FastRandom::new(77);
    carve_from(&mut level, &mut random, 64, 10, 20, 30, 20, Tile::OverworldWater, false);
    for x in 28..=32 {
        assert_eq!(level.tile(x, 20), Tile::OverworldWater);
    }
    let wet = tiles(&level).iter().filter(|t| **t == Tile::OverworldWater).count();
    assert!(wet > 40);
    assert_eq!(level.tile(60, 60), Tile::Grass);
}

#[test]
fn tunnels_wrap_around_the_torus() {
    let mut level = Level::<SIZE>::filled(Tile::Void);
    let mut random = FastRandom::new(3);
    carve_from(&mut level, &mut random, 64, 3, 0, 0, 0, Tile::Stone, true);
    assert_eq!(level.tile(0, 0), Tile::Stone);
    assert_eq!(level.tile(SIZE - 1, 0), Tile::Stone);
    assert_eq!(level.tile(0, SIZE - 1), Tile::Stone);
}
