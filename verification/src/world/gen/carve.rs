//! Tunnels: the carving routine that rivers and worm caves share.
//!
//! A tunnel is dug from its far end toward its near end, starting a third
//! of its length beyond the far end. At each step a disc is carved around a
//! point of the straight line between the two ends; the disc is widest beyond
//! the far end and narrows toward the near end. Now and then the near end
//! jumps a few cells, which bends the rest of the tunnel.
//!
//! All geometry is exact: points and radii are fractions whose numerators
//! and denominators are integers.

use vstd::prelude::*;
use crate::util::fast_random::{xorshift, FastRandom};
use crate::util::math::{
    capped_root, capped_sqrt, div_toward_zero, divide_toward_zero, lemma_div_toward_zero_monotone,
};
use crate::util::torus::{lemma_wrap, wrap, wrap_offset, wrap_wide};
use crate::world::level::{
    flat_index, lemma_flat_index, lemma_side_bound, with_tile, Level, Slot,
};
use crate::world::tile::Tile;

verus! {

/// The length that no tunnel reaches. The radius of a disc, counted as a
/// fraction over the squared length of the tunnel, is compared by its
/// square, which must be a number of 128 bits.
pub const MAX_CARVE_DISTANCE: usize = 0x100_0000;

/// The common denominator of the radius: 1.5, 2.2 / 255 and 1.2 are
/// multiples of one over 2550.
pub const RADIUS_UNITS: i128 = 2550;

/// A disc on the grid, in fractions. Its centre is `(cx / len, cy / len)`
/// and its radius is `reach / (2550 * len * len)`.
pub struct Disc {
    pub cx: int,
    pub cy: int,
    pub len: int,
    pub reach: int,
}

/// The numerator over `len` of a coordinate of the point at step `i` of a
/// tunnel of length `len`: the point divides the line from `to`, at step
/// zero, to `from`, at step `len`, in the ratio `i` to `len - i`.
pub open spec fn along(to: int, from: int, len: int, i: int) -> int {
    to * (len - i) + from * i
}

/// The numerator over `2550 * len * len` of the radius at step `i`:
/// `1.5 + 2.2 * k / 255 + 1.2 * ((len - i) / len)^2`.
pub open spec fn reach(len: int, i: int, k: int) -> int {
    len * len * (3825 + 22 * k) + 3060 * (len - i) * (len - i)
}

/// One in how many steps the near end stays where it is at step `i`:
/// `1.5 + 6.2 * (len - i) / len`, rounded down.
pub open spec fn jump_odds(len: int, i: int) -> int {
    (15 * len + 62 * (len - i)) / (10 * len)
}

impl Disc {
    /// Whether the cell `(bx, by)` lies in the disc: its squared distance
    /// from the centre does not exceed the squared radius.
    pub open spec fn holds(&self, bx: int, by: int) -> bool {
        ((bx * self.len - self.cx) * (bx * self.len - self.cx) + (by * self.len - self.cy) * (by
            * self.len - self.cy)) * (2550 * 2550) * (self.len * self.len) <= self.reach
            * self.reach
    }

    /// The first column or row scanned for a disc whose centre has the
    /// numerator `c`: the centre less the radius, rounded toward zero.
    pub open spec fn low(&self, c: int) -> int {
        div_toward_zero(c * 2550 * self.len - self.reach, 2550 * self.len * self.len)
    }

    /// The last column or row scanned: the centre plus the radius, rounded
    /// toward zero.
    pub open spec fn high(&self, c: int) -> int {
        div_toward_zero(c * 2550 * self.len + self.reach, 2550 * self.len * self.len)
    }

    /// The numbers are small enough to compute with: the radius is less
    /// than six cells, as that of every disc of a tunnel is.
    pub open spec fn bounded(&self) -> bool {
        &&& 1 <= self.len <= MAX_CARVE_DISTANCE
        &&& -0x400_0000_0000_0000 < self.cx < 0x400_0000_0000_0000
        &&& -0x400_0000_0000_0000 < self.cy < 0x400_0000_0000_0000
        &&& 0 < self.reach <= 14875 * (self.len * self.len)
    }
}

/// The number of columns or rows from `lo` to `hi`, both included.
pub open spec fn span(lo: int, hi: int) -> nat {
    if hi >= lo {
        (hi - lo + 1) as nat
    } else {
        0
    }
}

/// The slots after the cell `(bx, by)`, wrapped onto the grid, has been
/// given `tile`; if `only_on_void` is set, only a void cell is changed.
pub open spec fn paint(
    slots: Seq<Slot>,
    size: int,
    bx: int,
    by: int,
    tile: Tile,
    only_on_void: bool,
) -> Seq<Slot> {
    let c = flat_index(bx, by, size);
    if !only_on_void || slots[c].tile == Tile::Void {
        slots.update(c, with_tile(slots[c], tile))
    } else {
        slots
    }
}

/// The slots after the first `rows` cells of column `bx` from row `lo_y` on
/// have been painted where they lie in the disc.
pub open spec fn carve_column(
    slots: Seq<Slot>,
    size: int,
    disc: Disc,
    bx: int,
    lo_y: int,
    rows: nat,
    tile: Tile,
    only_on_void: bool,
) -> Seq<Slot>
    decreases rows,
{
    if rows == 0 {
        slots
    } else {
        let before = carve_column(slots, size, disc, bx, lo_y, (rows - 1) as nat, tile, only_on_void);
        let by = lo_y + rows - 1;
        if disc.holds(bx, by) {
            paint(before, size, bx, by, tile, only_on_void)
        } else {
            before
        }
    }
}

/// The slots after the first `cols` columns from column `lo_x` on have been
/// carved, `rows` cells from row `lo_y` on in each.
pub open spec fn carve_columns(
    slots: Seq<Slot>,
    size: int,
    disc: Disc,
    lo_x: int,
    cols: nat,
    lo_y: int,
    rows: nat,
    tile: Tile,
    only_on_void: bool,
) -> Seq<Slot>
    decreases cols,
{
    if cols == 0 {
        slots
    } else {
        carve_column(
            carve_columns(slots, size, disc, lo_x, (cols - 1) as nat, lo_y, rows, tile, only_on_void),
            size,
            disc,
            lo_x + cols - 1,
            lo_y,
            rows,
            tile,
            only_on_void,
        )
    }
}

/// The slots after the disc has been carved: every cell of the square
/// around the disc that lies in the disc has been painted.
pub open spec fn carve_disc(slots: Seq<Slot>, size: int, disc: Disc, tile: Tile, only_on_void: bool) -> Seq<
    Slot,
> {
    carve_columns(
        slots,
        size,
        disc,
        disc.low(disc.cx),
        span(disc.low(disc.cx), disc.high(disc.cx)),
        disc.low(disc.cy),
        span(disc.low(disc.cy), disc.high(disc.cy)),
        tile,
        only_on_void,
    )
}

/// What a tunnel threads through its steps: the slots of the level, the
/// generator, and the near end.
pub struct Walk {
    pub slots: Seq<Slot>,
    pub seed: u64,
    pub from_x: int,
    pub from_y: int,
}

/// The state after step number `j` of a tunnel of length `len` to
/// `(to_x, to_y)`, counted from the first step, which lies a third of the
/// length beyond the far end. The disc of the step is carved; then the near
/// end jumps by up to four cells in both directions with the odds of the
/// step.
pub open spec fn carve_step(
    walk: Walk,
    size: int,
    to_x: int,
    to_y: int,
    len: int,
    k: int,
    tile: Tile,
    only_on_void: bool,
    j: int,
) -> Walk {
    let i = j - len / 3;
    let disc = Disc {
        cx: along(to_x, walk.from_x, len, i),
        cy: along(to_y, walk.from_y, len, i),
        len,
        reach: reach(len, i, k),
    };
    let slots = carve_disc(walk.slots, size, disc, tile, only_on_void);
    let draw = xorshift(walk.seed);
    if draw % (jump_odds(len, i) as u64) == 0 {
        let d1 = xorshift(draw);
        let d2 = xorshift(d1);
        Walk {
            slots,
            seed: d2,
            from_x: wrap(walk.from_x + d1 % 9 - 4, size),
            from_y: wrap(walk.from_y + d2 % 9 - 4, size),
        }
    } else {
        Walk { slots, seed: draw, from_x: walk.from_x, from_y: walk.from_y }
    }
}

/// The state after the first `n` steps of a tunnel.
pub open spec fn carve_steps(
    walk: Walk,
    size: int,
    to_x: int,
    to_y: int,
    len: int,
    k: int,
    tile: Tile,
    only_on_void: bool,
    n: nat,
) -> Walk
    decreases n,
{
    if n == 0 {
        walk
    } else {
        carve_step(
            carve_steps(walk, size, to_x, to_y, len, k, tile, only_on_void, (n - 1) as nat),
            size,
            to_x,
            to_y,
            len,
            k,
            tile,
            only_on_void,
            n - 1,
        )
    }
}

/// The length of the tunnel between two cells, capped at `max_distance`:
/// their distance in a straight line, not around the torus, rounded down.
pub open spec fn tunnel_length(from_x: int, from_y: int, to_x: int, to_y: int, max_distance: nat) -> int {
    capped_root(
        (from_x - to_x) * (from_x - to_x) + (from_y - to_y) * (from_y - to_y),
        max_distance,
    )
}

/// The outcome of digging a tunnel of `tile` from `(from_x, from_y)` to
/// `(to_x, to_y)`: the slots and the generator's state afterwards. Nothing
/// is dug and nothing drawn if the two cells are `max_distance` or more
/// apart, or less than one cell apart. Else the width of the tunnel is
/// drawn, and the tunnel is dug in `len + len / 3 + 1` steps.
pub open spec fn tunnel(
    slots: Seq<Slot>,
    size: int,
    seed: u64,
    max_distance: nat,
    from_x: int,
    from_y: int,
    to_x: int,
    to_y: int,
    tile: Tile,
    only_on_void: bool,
) -> (Seq<Slot>, u64) {
    let len = tunnel_length(from_x, from_y, to_x, to_y, max_distance);
    if len >= max_distance || len == 0 {
        (slots, seed)
    } else {
        let s0 = xorshift(seed);
        let done = carve_steps(
            Walk { slots, seed: s0, from_x, from_y },
            size,
            to_x,
            to_y,
            len,
            (s0 % 256) as int,
            tile,
            only_on_void,
            (len + len / 3 + 1) as nat,
        );
        (done.slots, done.seed)
    }
}

/// Gives the cell `(bx, by)` the tile, unless only void may be changed and
/// the cell is not void.
fn paint_cell<const SIZE: usize>(level: &mut Level<SIZE>, bx: i128, by: i128, tile: Tile, only_on_void: bool)
    requires
        bx > i128::MIN,
        by > i128::MIN,
    ensures
        final(level)@ == paint(old(level)@, SIZE as int, bx as int, by as int, tile, only_on_void),
{
    proof {
        use_type_invariant(&*level);
        level.lemma_inv();
        lemma_wrap(bx as int, SIZE as int);
        lemma_wrap(by as int, SIZE as int);
    }
    let x: usize = wrap_wide(bx, SIZE);
    let y: usize = wrap_wide(by, SIZE);
    if !only_on_void || matches!(level.tile(x, y), Tile::Void) {
        level.set_tile(x, y, tile);
    }
}

/// Whether the cell lies in the disc.
fn disc_holds(bx: i128, by: i128, cx: i128, cy: i128, len: i128, reach: i128) -> (r: bool)
    requires
        (Disc { cx: cx as int, cy: cy as int, len: len as int, reach: reach as int }).bounded(),
        -0x1_0000_0000_0000_0000_0000_0000 < bx < 0x1_0000_0000_0000_0000_0000_0000,
        -0x1_0000_0000_0000_0000_0000_0000 < by < 0x1_0000_0000_0000_0000_0000_0000,
    ensures
        r == (Disc { cx: cx as int, cy: cy as int, len: len as int, reach: reach as int }).holds(
            bx as int,
            by as int,
        ),
{
    proof {
        assert(-0x1_0000_0000_0000_0000_0000_0000 * 0x100_0000 < bx * len
            < 0x1_0000_0000_0000_0000_0000_0000 * 0x100_0000) by (nonlinear_arith)
            requires
                -0x1_0000_0000_0000_0000_0000_0000 < bx < 0x1_0000_0000_0000_0000_0000_0000,
                1 <= len <= 0x100_0000,
        ;
        assert(-0x1_0000_0000_0000_0000_0000_0000 * 0x100_0000 < by * len
            < 0x1_0000_0000_0000_0000_0000_0000 * 0x100_0000) by (nonlinear_arith)
            requires
                -0x1_0000_0000_0000_0000_0000_0000 < by < 0x1_0000_0000_0000_0000_0000_0000,
                1 <= len <= 0x100_0000,
        ;
        assert(1 <= len * len <= 0x100_0000 * 0x100_0000) by (nonlinear_arith)
            requires
                1 <= len <= 0x100_0000,
        ;
    }
    let u: i128 = bx * len - cx;
    let v: i128 = by * len - cy;
    let ll: i128 = len * len;
    let far: i128 = 6 * len;
    proof {
        assert(0 < reach * reach <= (14875 * ll) * (14875 * ll)) by (nonlinear_arith)
            requires
                0 < reach <= 14875 * ll,
        ;
        assert((14875 * ll) * (14875 * ll) == 221265625 * (ll * ll)) by (nonlinear_arith);
        assert(1 <= ll * ll <= (0x100_0000 * 0x100_0000) * (0x100_0000 * 0x100_0000))
            by (nonlinear_arith)
            requires
                1 <= ll <= 0x100_0000 * 0x100_0000,
        ;
    }
    if u >= far || u <= -far || v >= far || v <= -far {
        proof {
            let uu = u * u;
            let vv = v * v;
            assert(uu >= 0 && vv >= 0 && (uu >= 36 * ll || vv >= 36 * ll)) by (nonlinear_arith)
                requires
                    uu == u * u,
                    vv == v * v,
                    ll == len * len,
                    len >= 1,
                    u >= 6 * len || u <= -6 * len || v >= 6 * len || v <= -6 * len,
            ;
            assert((uu + vv) * (2550 * 2550) * ll >= 234090000 * (ll * ll)) by (nonlinear_arith)
                requires
                    uu + vv >= 36 * ll,
                    ll >= 1,
            ;
        }
        false
    } else {
        proof {
            assert(0 <= u * u <= 36 * ll) by (nonlinear_arith)
                requires
                    -6 * len < u < 6 * len,
                    ll == len * len,
                    len >= 1,
            ;
            assert(0 <= v * v <= 36 * ll) by (nonlinear_arith)
                requires
                    -6 * len < v < 6 * len,
                    ll == len * len,
                    len >= 1,
            ;
        }
        let sum: i128 = u * u + v * v;
        let scale: i128 = RADIUS_UNITS * RADIUS_UNITS;
        proof {
            assert(0 <= sum * scale <= 468180000 * ll) by (nonlinear_arith)
                requires
                    0 <= sum <= 72 * ll,
                    scale == 2550 * 2550,
            ;
            assert(0 <= sum * scale * ll <= 468180000 * (ll * ll)) by (nonlinear_arith)
                requires
                    0 <= sum * scale <= 468180000 * ll,
                    1 <= ll,
            ;
        }
        sum * scale * ll <= reach * reach
    }
}

/// Carves a disc: paints every cell of the square around it that lies in
/// it.
fn dig_disc<const SIZE: usize>(
    level: &mut Level<SIZE>,
    cx: i128,
    cy: i128,
    len: i128,
    reach: i128,
    tile: Tile,
    only_on_void: bool,
)
    requires
        (Disc { cx: cx as int, cy: cy as int, len: len as int, reach: reach as int }).bounded(),
    ensures
        final(level)@ == carve_disc(
            old(level)@,
            SIZE as int,
            Disc { cx: cx as int, cy: cy as int, len: len as int, reach: reach as int },
            tile,
            only_on_void,
        ),
{
    let ghost disc = Disc { cx: cx as int, cy: cy as int, len: len as int, reach: reach as int };
    proof {
        assert(2550 <= 2550 * len * len <= 2550 * 0x100_0000 * 0x100_0000) by (nonlinear_arith)
            requires
                1 <= len <= 0x100_0000,
        ;
        assert(-0x400_0000_0000_0000 * 2550 * 0x100_0000 <= cx * 2550 * len
            <= 0x400_0000_0000_0000 * 2550 * 0x100_0000) by (nonlinear_arith)
            requires
                -0x400_0000_0000_0000 < cx < 0x400_0000_0000_0000,
                1 <= len <= 0x100_0000,
        ;
        assert(-0x400_0000_0000_0000 * 2550 * 0x100_0000 <= cy * 2550 * len
            <= 0x400_0000_0000_0000 * 2550 * 0x100_0000) by (nonlinear_arith)
            requires
                -0x400_0000_0000_0000 < cy < 0x400_0000_0000_0000,
                1 <= len <= 0x100_0000,
        ;
        assert(0 < reach <= 14875 * (0x100_0000 * 0x100_0000)) by (nonlinear_arith)
            requires
                0 < reach <= 14875 * (len * len),
                1 <= len <= 0x100_0000,
        ;
    }
    let den: i128 = RADIUS_UNITS * len * len;
    let ax: i128 = cx * RADIUS_UNITS * len;
    let ay: i128 = cy * RADIUS_UNITS * len;
    let lo_x: i128 = divide_toward_zero(ax - reach, den);
    let hi_x: i128 = divide_toward_zero(ax + reach, den);
    let lo_y: i128 = divide_toward_zero(ay - reach, den);
    let hi_y: i128 = divide_toward_zero(ay + reach, den);
    proof {
        lemma_div_toward_zero_monotone(ax - reach, ax + reach, den as int);
    }
    let mut bx: i128 = lo_x;
    while bx <= hi_x
        invariant
            disc == (Disc { cx: cx as int, cy: cy as int, len: len as int, reach: reach as int }),
            disc.bounded(),
            -0x1_0000_0000_0000_0000_0000_0000 < lo_x <= bx,
            bx <= hi_x + 1,
            hi_x < 0x1_0000_0000_0000_0000_0000_0000,
            -0x1_0000_0000_0000_0000_0000_0000 < lo_y,
            hi_y < 0x1_0000_0000_0000_0000_0000_0000,
            level@ == carve_columns(
                old(level)@,
                SIZE as int,
                disc,
                lo_x as int,
                (bx - lo_x) as nat,
                lo_y as int,
                span(lo_y as int, hi_y as int),
                tile,
                only_on_void,
            ),
        decreases hi_x + 1 - bx,
    {
        let ghost column_start = level@;
        let mut by: i128 = lo_y;
        while by <= hi_y
            invariant
                disc == (Disc { cx: cx as int, cy: cy as int, len: len as int, reach: reach as int }),
                disc.bounded(),
                -0x1_0000_0000_0000_0000_0000_0000 < bx < 0x1_0000_0000_0000_0000_0000_0000,
                -0x1_0000_0000_0000_0000_0000_0000 < lo_y,
                hi_y < 0x1_0000_0000_0000_0000_0000_0000,
                lo_y <= by || hi_y < lo_y,
                by <= hi_y + 1 || hi_y < lo_y,
                hi_y < lo_y ==> by == lo_y,
                level@ == carve_column(
                    column_start,
                    SIZE as int,
                    disc,
                    bx as int,
                    lo_y as int,
                    (if hi_y < lo_y {
                        0
                    } else {
                        by - lo_y
                    }) as nat,
                    tile,
                    only_on_void,
                ),
            decreases hi_y + 1 - by,
        {
            if disc_holds(bx, by, cx, cy, len, reach) {
                paint_cell(level, bx, by, tile, only_on_void);
            }
            by += 1;
        }
        bx += 1;
    }
}

/// The distance between two coordinates.
fn apart(a: usize, b: usize) -> (r: u128)
    ensures
        r == (if a >= b {
            a - b
        } else {
            b - a
        }),
{
    if a >= b {
        (a - b) as u128
    } else {
        (b - a) as u128
    }
}

/// Digs a tunnel of `tile` between two cells of the level, from the far end
/// `(to_x, to_y)` toward the near end `(from_x, from_y)`, if the two are at
/// least one cell and less than `max_distance` cells apart. With
/// `only_on_void` set the tunnel spares whatever is not void.
/// No tunnel is as long as `MAX_CARVE_DISTANCE`: either `max_distance`
/// rules that out, or the level is too small to hold one.
pub fn carve_from<const SIZE: usize>(
    level: &mut Level<SIZE>,
    random: &mut FastRandom,
    max_distance: usize,
    from_x: usize,
    from_y: usize,
    to_x: usize,
    to_y: usize,
    tile: Tile,
    only_on_void: bool,
)
    requires
        max_distance <= MAX_CARVE_DISTANCE || 2 * SIZE <= MAX_CARVE_DISTANCE,
        from_x < SIZE,
        from_y < SIZE,
        to_x < SIZE,
        to_y < SIZE,
    ensures
        (final(level)@, final(random)@) == tunnel(
            old(level)@,
            SIZE as int,
            old(random)@,
            max_distance as nat,
            from_x as int,
            from_y as int,
            to_x as int,
            to_y as int,
            tile,
            only_on_void,
        ),
{
    proof {
        use_type_invariant(&*level);
        level.lemma_inv();
        lemma_side_bound(SIZE as int);
    }
    let dx: u128 = apart(from_x, to_x);
    let dy: u128 = apart(from_y, to_y);
    proof {
        assert(dx * dx <= 0xffff_ffff * 0xffff_ffff && dx * dx == (from_x - to_x) * (from_x - to_x))
            by (nonlinear_arith)
            requires
                dx <= 0xffff_ffff,
                dx == (if from_x >= to_x {
                    from_x - to_x
                } else {
                    to_x - from_x
                }),
        ;
        assert(dy * dy <= 0xffff_ffff * 0xffff_ffff && dy * dy == (from_y - to_y) * (from_y - to_y))
            by (nonlinear_arith)
            requires
                dy <= 0xffff_ffff,
                dy == (if from_y >= to_y {
                    from_y - to_y
                } else {
                    to_y - from_y
                }),
        ;
    }
    let length: u64 = capped_sqrt(dx * dx + dy * dy, max_distance as u64);
    if length >= max_distance as u64 || length == 0 {
        return ;
    }
    proof {
        assert(length < MAX_CARVE_DISTANCE) by (nonlinear_arith)
            requires
                length < max_distance,
                max_distance <= 0x100_0000 || 2 * SIZE <= 0x100_0000,
                length * length <= dx * dx + dy * dy,
                0 <= dx < SIZE,
                0 <= dy < SIZE,
                0 <= length,
        ;
    }
    let k: i128 = random.next_less_than(256) as i128;
    let len: i128 = length as i128;
    let lead: i128 = len / 3;
    let steps: i128 = len + lead + 1;
    let ghost start = Walk {
        slots: level@,
        seed: random@,
        from_x: from_x as int,
        from_y: from_y as int,
    };
    let mut fx: usize = from_x;
    let mut fy: usize = from_y;
    let mut j: i128 = 0;
    while j < steps
        invariant
            0 <= j <= steps,
            steps == len + lead + 1,
            lead == len / 3,
            1 <= len < MAX_CARVE_DISTANCE,
            0 <= k < 256,
            SIZE > 0,
            SIZE <= 0xffff_ffff,
            fx < SIZE,
            fy < SIZE,
            to_x < SIZE,
            to_y < SIZE,
            (Walk { slots: level@, seed: random@, from_x: fx as int, from_y: fy as int })
                == carve_steps(
                start,
                SIZE as int,
                to_x as int,
                to_y as int,
                len as int,
                k as int,
                tile,
                only_on_void,
                j as nat,
            ),
        decreases steps - j,
    {
        let i: i128 = j - lead;
        let m: i128 = len - i;
        proof {
            assert(0 <= to_x * m <= 0xffff_ffff * 0x200_0000 && 0 <= to_y * m <= 0xffff_ffff
                * 0x200_0000) by (nonlinear_arith)
                requires
                    0 <= m <= 0x200_0000,
                    0 <= to_x <= 0xffff_ffff,
                    0 <= to_y <= 0xffff_ffff,
            ;
            assert(-0xffff_ffff * 0x100_0000 <= fx * i <= 0xffff_ffff * 0x100_0000 && -0xffff_ffff
                * 0x100_0000 <= fy * i <= 0xffff_ffff * 0x100_0000) by (nonlinear_arith)
                requires
                    -0x100_0000 <= i <= 0x100_0000,
                    0 <= fx <= 0xffff_ffff,
                    0 <= fy <= 0xffff_ffff,
            ;
            assert(1 <= len * len <= 0x100_0000 * 0x100_0000) by (nonlinear_arith)
                requires
                    1 <= len <= 0x100_0000,
            ;
            assert(0 <= 9 * (m * m) <= 16 * (len * len)) by (nonlinear_arith)
                requires
                    0 <= 3 * m <= 4 * len,
            ;
            assert(3060 * m * m == 340 * (9 * (m * m))) by (nonlinear_arith);
            assert(3825 * (len * len) <= len * len * (3825 + 22 * k) <= 9435 * (len * len))
                by (nonlinear_arith)
                requires
                    1 <= len * len,
                    0 <= k < 256,
            ;
        }
        let cx: i128 = to_x as i128 * m + fx as i128 * i;
        let cy: i128 = to_y as i128 * m + fy as i128 * i;
        let reach_now: i128 = len * len * (3825 + 22 * k) + 3060 * m * m;
        dig_disc(level, cx, cy, len, reach_now, tile, only_on_void);
        let odds: i128 = (15 * len + 62 * m) / (10 * len);
        proof {
            assert(1 <= (15 * len + 62 * m) / (10 * len) <= 15 * len + 62 * m) by (nonlinear_arith)
                requires
                    1 <= len,
                    0 <= m,
            ;
        }
        if random.one_in(odds as u64) {
            let jump_x: i64 = random.next_less_than(9) as i64 - 4;
            fx = wrap_offset(fx, jump_x, SIZE);
            let jump_y: i64 = random.next_less_than(9) as i64 - 4;
            fy = wrap_offset(fy, jump_y, SIZE);
        }
        j += 1;
    }
}

/// What relates the slots before and after any carving with `tile`: no
/// slot is added or lost, no occupant is touched, every tile is what it was or
/// has become `tile`, and where only void may be changed, nothing but void
/// has changed.
pub open spec fn painted(before: Seq<Slot>, after: Seq<Slot>, tile: Tile, only_on_void: bool) -> bool {
    &&& after.len() == before.len()
    &&& forall|i: int|
        0 <= i < before.len() ==> {
            &&& (#[trigger] after[i]).entity == before[i].entity
            &&& after[i].tile == before[i].tile || after[i].tile == tile
            &&& only_on_void && after[i].tile != before[i].tile ==> before[i].tile == Tile::Void
        }
}

/// Painting one cell is carving.
pub proof fn lemma_paint(slots: Seq<Slot>, size: int, bx: int, by: int, tile: Tile, only_on_void: bool)
    requires
        size > 0,
        slots.len() == size * size,
    ensures
        painted(slots, paint(slots, size, bx, by, tile, only_on_void), tile, only_on_void),
{
    lemma_flat_index(wrap(bx, size), wrap(by, size), size);
}

/// Carving part of a column is carving.
pub proof fn lemma_carve_column(
    slots: Seq<Slot>,
    size: int,
    disc: Disc,
    bx: int,
    lo_y: int,
    rows: nat,
    tile: Tile,
    only_on_void: bool,
)
    requires
        size > 0,
        slots.len() == size * size,
    ensures
        painted(
            slots,
            carve_column(slots, size, disc, bx, lo_y, rows, tile, only_on_void),
            tile,
            only_on_void,
        ),
    decreases rows,
{
    if rows > 0 {
        let before = carve_column(slots, size, disc, bx, lo_y, (rows - 1) as nat, tile, only_on_void);
        lemma_carve_column(slots, size, disc, bx, lo_y, (rows - 1) as nat, tile, only_on_void);
        let by = lo_y + rows - 1;
        if disc.holds(bx, by) {
            lemma_paint(before, size, bx, by, tile, only_on_void);
        }
    }
}

/// Carving some columns is carving.
pub proof fn lemma_carve_columns(
    slots: Seq<Slot>,
    size: int,
    disc: Disc,
    lo_x: int,
    cols: nat,
    lo_y: int,
    rows: nat,
    tile: Tile,
    only_on_void: bool,
)
    requires
        size > 0,
        slots.len() == size * size,
    ensures
        painted(
            slots,
            carve_columns(slots, size, disc, lo_x, cols, lo_y, rows, tile, only_on_void),
            tile,
            only_on_void,
        ),
    decreases cols,
{
    if cols > 0 {
        let before = carve_columns(
            slots,
            size,
            disc,
            lo_x,
            (cols - 1) as nat,
            lo_y,
            rows,
            tile,
            only_on_void,
        );
        lemma_carve_columns(slots, size, disc, lo_x, (cols - 1) as nat, lo_y, rows, tile, only_on_void);
        lemma_carve_column(before, size, disc, lo_x + cols - 1, lo_y, rows, tile, only_on_void);
    }
}

/// Any number of steps of a tunnel is carving.
pub proof fn lemma_carve_steps(
    walk: Walk,
    size: int,
    to_x: int,
    to_y: int,
    len: int,
    k: int,
    tile: Tile,
    only_on_void: bool,
    n: nat,
)
    requires
        size > 0,
        walk.slots.len() == size * size,
    ensures
        painted(
            walk.slots,
            carve_steps(walk, size, to_x, to_y, len, k, tile, only_on_void, n).slots,
            tile,
            only_on_void,
        ),
    decreases n,
{
    if n > 0 {
        let before = carve_steps(walk, size, to_x, to_y, len, k, tile, only_on_void, (n - 1) as nat);
        lemma_carve_steps(walk, size, to_x, to_y, len, k, tile, only_on_void, (n - 1) as nat);
        let i = n - 1 - len / 3;
        let disc = Disc {
            cx: along(to_x, before.from_x, len, i),
            cy: along(to_y, before.from_y, len, i),
            len,
            reach: reach(len, i, k),
        };
        lemma_carve_columns(
            before.slots,
            size,
            disc,
            disc.low(disc.cx),
            span(disc.low(disc.cx), disc.high(disc.cx)),
            disc.low(disc.cy),
            span(disc.low(disc.cy), disc.high(disc.cy)),
            tile,
            only_on_void,
        );
    }
}

/// A tunnel touches no occupant and changes tiles into its own tile only;
/// a tunnel through void only changes nothing but void, so it cannot erase
/// what was placed before.
pub proof fn lemma_tunnel_paints(
    slots: Seq<Slot>,
    size: int,
    seed: u64,
    max_distance: nat,
    from_x: int,
    from_y: int,
    to_x: int,
    to_y: int,
    tile: Tile,
    only_on_void: bool,
)
    requires
        size > 0,
        slots.len() == size * size,
    ensures
        painted(
            slots,
            tunnel(slots, size, seed, max_distance, from_x, from_y, to_x, to_y, tile, only_on_void).0,
            tile,
            only_on_void,
        ),
{
    let len = tunnel_length(from_x, from_y, to_x, to_y, max_distance);
    if !(len >= max_distance || len == 0) {
        let s0 = xorshift(seed);
        lemma_carve_steps(
            Walk { slots, seed: s0, from_x, from_y },
            size,
            to_x,
            to_y,
            len,
            (s0 % 256) as int,
            tile,
            only_on_void,
            (len + len / 3 + 1) as nat,
        );
    }
}

} // verus!
