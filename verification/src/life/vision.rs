//! What can be seen from a cell.
//!
//! Sight reaches the cells inside a circle. A ray is cast from the centre to
//! each of them; if any cell on the ray is opaque, the cell at its end is
//! dark. The brightness of a visible cell falls off linearly with its
//! distance, from one at the centre to zero on the circle. Brightness is
//! counted in units of one over `radius * VISION_UNITS`, so that the centre of
//! an open area has brightness `radius * VISION_UNITS`, which stands for one,
//! and a visible cell has that less its distance in units of one over
//! `VISION_UNITS`, rounded down.

use vstd::prelude::*;
use vstd::arithmetic::div_mod::lemma_fundamental_div_mod_converse;
use crate::util::math::{
    capped_root, div_toward_zero, int_sqrt, lemma_capped_root, lemma_capped_root_bounds,
    lemma_capped_root_monotone,
};
use crate::util::torus::{lemma_wrap, wrap, wrap_offset};
use crate::world::level::{flat_index, lemma_flat_index, Level, Slot};

verus! {

/// The largest radius that `look` accepts.
pub const MAX_VISION_RADIUS: usize = 0x7fff;

/// How many units of brightness and of distance make one cell's width.
pub const VISION_UNITS: u64 = 0x1_0000;

/// The squared distance of the offset from the centre.
pub open spec fn dist2(xoff: int, yoff: int) -> int {
    xoff * xoff + yoff * yoff
}

/// The `i`-th of the cells sampled on the ray from `(x, y)` to the cell at
/// offset `(xoff, yoff)`: the point `i / dist2` of the way along, both
/// coordinates rounded toward the centre. The ray to the centre itself is the
/// centre.
pub open spec fn ray_cell(x: int, y: int, xoff: int, yoff: int, i: int) -> (int, int) {
    let d = dist2(xoff, yoff);
    if d == 0 {
        (x, y)
    } else {
        (x + div_toward_zero(xoff * i, d), y + div_toward_zero(yoff * i, d))
    }
}

/// Whether none of the first `n` cells sampled on the ray is opaque.
pub open spec fn ray_clear(
    slots: Seq<Slot>,
    size: int,
    x: int,
    y: int,
    xoff: int,
    yoff: int,
    n: int,
) -> bool {
    forall|i: int|
        0 <= i < n ==> !slots[flat_index(
            (#[trigger] ray_cell(x, y, xoff, yoff, i)).0,
            ray_cell(x, y, xoff, yoff, i).1,
            size,
        )].tile.is_opaque()
}

/// The distance of a cell at squared distance `d` from the centre, in
/// units of one over `VISION_UNITS`, rounded down, and never more than the
/// radius.
pub open spec fn dimming(d: int, radius: int) -> int {
    capped_root(d * VISION_UNITS * VISION_UNITS, (radius * VISION_UNITS) as nat)
}

/// The brightness of the cell at offset `(xoff, yoff)` seen from `(x, y)`:
/// zero on and outside the circle and behind anything opaque, and else the
/// radius less the distance, in units of one over `VISION_UNITS`.
pub open spec fn brightness(
    slots: Seq<Slot>,
    size: int,
    x: int,
    y: int,
    radius: int,
    xoff: int,
    yoff: int,
) -> int {
    let d = dist2(xoff, yoff);
    if d < radius * radius && ray_clear(slots, size, x, y, xoff, yoff, d + 1) {
        radius * VISION_UNITS - dimming(d, radius)
    } else {
        0
    }
}

/// The brightness of the `k`-th entry of a vision grid of the given radius,
/// whose entries run column by column from offset `-radius` to `radius`.
pub open spec fn brightness_at(
    slots: Seq<Slot>,
    size: int,
    x: int,
    y: int,
    radius: int,
    k: int,
) -> int {
    let side = 2 * radius + 1;
    brightness(slots, size, x, y, radius, k / side - radius, k % side - radius)
}

/// Where nothing is opaque, every cell inside the circle has the radius
/// less its distance for brightness, so brightness falls as distance grows
/// and cells at the same distance are equally bright; on and outside the
/// circle brightness is zero.
pub proof fn lemma_open_area(
    slots: Seq<Slot>,
    size: int,
    x: int,
    y: int,
    radius: int,
    a: (int, int),
    b: (int, int),
)
    requires
        size > 0,
        slots.len() == size * size,
        radius >= 0,
        forall|i: int| 0 <= i < slots.len() ==> !(#[trigger] slots[i]).tile.is_opaque(),
    ensures
        dist2(a.0, a.1) < radius * radius ==> brightness(slots, size, x, y, radius, a.0, a.1)
            == radius * VISION_UNITS - dimming(dist2(a.0, a.1), radius),
        dist2(a.0, a.1) >= radius * radius ==> brightness(slots, size, x, y, radius, a.0, a.1)
            == 0,
        dist2(a.0, a.1) <= dist2(b.0, b.1) ==> brightness(slots, size, x, y, radius, a.0, a.1)
            >= brightness(slots, size, x, y, radius, b.0, b.1),
        dist2(a.0, a.1) == dist2(b.0, b.1) ==> brightness(slots, size, x, y, radius, a.0, a.1)
            == brightness(slots, size, x, y, radius, b.0, b.1),
{
    lemma_all_rays_clear(slots, size, x, y, a.0, a.1, dist2(a.0, a.1) + 1);
    lemma_all_rays_clear(slots, size, x, y, b.0, b.1, dist2(b.0, b.1) + 1);
    lemma_brightness_range(slots, size, x, y, radius, a.0, a.1);
    lemma_brightness_range(slots, size, x, y, radius, b.0, b.1);
    let da = dist2(a.0, a.1);
    let db = dist2(b.0, b.1);
    assert(da >= 0 && db >= 0) by (nonlinear_arith)
        requires
            da == a.0 * a.0 + a.1 * a.1,
            db == b.0 * b.0 + b.1 * b.1,
    ;
    if da <= db {
        assert(da * VISION_UNITS * VISION_UNITS <= db * VISION_UNITS * VISION_UNITS)
            by (nonlinear_arith)
            requires
                da <= db,
        ;
        assert(0 <= da * VISION_UNITS * VISION_UNITS) by (nonlinear_arith)
            requires
                0 <= da,
        ;
        lemma_capped_root_monotone(
            da * VISION_UNITS * VISION_UNITS,
            db * VISION_UNITS * VISION_UNITS,
            (radius * VISION_UNITS) as nat,
        );
    }
}

/// The brightness of a visible cell inside the circle is linear in its
/// distance: it is positive, and what it lacks of full brightness is the
/// distance in units of one over `VISION_UNITS`, rounded down. So brightness
/// over full brightness is one less distance over radius, rounded up by less
/// than one unit.
pub proof fn lemma_brightness_linear(
    slots: Seq<Slot>,
    size: int,
    x: int,
    y: int,
    radius: int,
    xoff: int,
    yoff: int,
)
    requires
        radius >= 0,
        dist2(xoff, yoff) < radius * radius,
        ray_clear(slots, size, x, y, xoff, yoff, dist2(xoff, yoff) + 1),
    ensures
        ({
            let full = radius * VISION_UNITS;
            let lack = full - brightness(slots, size, x, y, radius, xoff, yoff);
            &&& 0 <= lack < full
            &&& lack * lack <= dist2(xoff, yoff) * VISION_UNITS * VISION_UNITS
            &&& dist2(xoff, yoff) * VISION_UNITS * VISION_UNITS < (lack + 1) * (lack + 1)
        }),
{
    let d = dist2(xoff, yoff);
    let n = d * VISION_UNITS * VISION_UNITS;
    let full = radius * VISION_UNITS;
    assert(d >= 0) by (nonlinear_arith)
        requires
            d == xoff * xoff + yoff * yoff,
    ;
    assert(0 <= n && n < full * full && full >= 0) by (nonlinear_arith)
        requires
            0 <= d < radius * radius,
            radius >= 0,
            n == d * 0x1_0000 * 0x1_0000,
            full == radius * 0x1_0000,
    ;
    lemma_capped_root_bounds(n, full as nat);
}

/// Where nothing is opaque, every ray is clear.
pub proof fn lemma_all_rays_clear(
    slots: Seq<Slot>,
    size: int,
    x: int,
    y: int,
    xoff: int,
    yoff: int,
    n: int,
)
    requires
        size > 0,
        slots.len() == size * size,
        forall|i: int| 0 <= i < slots.len() ==> !(#[trigger] slots[i]).tile.is_opaque(),
    ensures
        ray_clear(slots, size, x, y, xoff, yoff, n),
{
    assert forall|i: int| 0 <= i < n implies !slots[flat_index(
        (#[trigger] ray_cell(x, y, xoff, yoff, i)).0,
        ray_cell(x, y, xoff, yoff, i).1,
        size,
    )].tile.is_opaque() by {
        let c = ray_cell(x, y, xoff, yoff, i);
        lemma_flat_index(wrap(c.0, size), wrap(c.1, size), size);
    }
}

/// Brightness is never negative and never more than full brightness.
pub proof fn lemma_brightness_range(
    slots: Seq<Slot>,
    size: int,
    x: int,
    y: int,
    radius: int,
    xoff: int,
    yoff: int,
)
    requires
        radius >= 0,
    ensures
        0 <= brightness(slots, size, x, y, radius, xoff, yoff) <= radius * VISION_UNITS,
{
    let d = dist2(xoff, yoff);
    assert(d >= 0) by (nonlinear_arith)
        requires
            d == xoff * xoff + yoff * yoff,
    ;
    assert(0 <= d * VISION_UNITS * VISION_UNITS) by (nonlinear_arith)
        requires
            0 <= d,
    ;
    lemma_capped_root_bounds(d * VISION_UNITS * VISION_UNITS, (radius * VISION_UNITS) as nat);
}

/// Whether the ray from `(x, y)` to the cell at `(xoff, yoff)`, which lies
/// at squared distance `d`, meets nothing opaque.
fn ray_is_clear<const SIZE: usize>(level: &Level<SIZE>, x: usize, y: usize, xoff: i64, yoff: i64, d: u64) -> (r:
    bool)
    requires
        -(MAX_VISION_RADIUS as int) <= xoff <= MAX_VISION_RADIUS,
        -(MAX_VISION_RADIUS as int) <= yoff <= MAX_VISION_RADIUS,
        d == dist2(xoff as int, yoff as int),
        d < 0x4000_0000,
    ensures
        r == ray_clear(level@, SIZE as int, x as int, y as int, xoff as int, yoff as int, d + 1),
{
    proof {
        use_type_invariant(level);
        level.lemma_inv();
    }
    let ax: u64 = if xoff < 0 {
        (-xoff) as u64
    } else {
        xoff as u64
    };
    let ay: u64 = if yoff < 0 {
        (-yoff) as u64
    } else {
        yoff as u64
    };
    let mut i: u64 = 0;
    while i <= d
        invariant
            level.wf(),
            0 <= i <= d + 1,
            d == dist2(xoff as int, yoff as int),
            d < 0x4000_0000,
            ax == (if xoff < 0 {
                -xoff
            } else {
                xoff as int
            }),
            ay == (if yoff < 0 {
                -yoff
            } else {
                yoff as int
            }),
            ax <= MAX_VISION_RADIUS,
            ay <= MAX_VISION_RADIUS,
            ray_clear(level@, SIZE as int, x as int, y as int, xoff as int, yoff as int, i as int),
        decreases d + 1 - i,
    {
        proof {
            assert(ax * i <= 0x7fff * 0x4000_0000) by (nonlinear_arith)
                requires
                    ax <= 0x7fff,
                    i <= 0x4000_0000,
            ;
            assert(ay * i <= 0x7fff * 0x4000_0000) by (nonlinear_arith)
                requires
                    ay <= 0x7fff,
                    i <= 0x4000_0000,
            ;
        }
        let qx: u64 = if d == 0 {
            0
        } else {
            ax * i / d
        };
        let qy: u64 = if d == 0 {
            0
        } else {
            ay * i / d
        };
        proof {
            if d != 0 {
                assert(ax * i / (d as int) <= ax * i) by (nonlinear_arith)
                    requires
                        d > 0,
                        ax * i >= 0,
                ;
                assert(ay * i / (d as int) <= ay * i) by (nonlinear_arith)
                    requires
                        d > 0,
                        ay * i >= 0,
                ;
            }
        }
        let ix: i64 = if xoff < 0 {
            -(qx as i64)
        } else {
            qx as i64
        };
        let iy: i64 = if yoff < 0 {
            -(qy as i64)
        } else {
            qy as i64
        };
        let vx: usize = wrap_offset(x, ix, SIZE);
        let vy: usize = wrap_offset(y, iy, SIZE);
        proof {
            let c = ray_cell(x as int, y as int, xoff as int, yoff as int, i as int);
            if d != 0 {
                assert(xoff * i == if xoff < 0 {
                    -(ax * i)
                } else {
                    ax * i
                }) by (nonlinear_arith)
                    requires
                        ax == (if xoff < 0 {
                            -xoff
                        } else {
                            xoff as int
                        }),
                ;
                assert(yoff * i == if yoff < 0 {
                    -(ay * i)
                } else {
                    ay * i
                }) by (nonlinear_arith)
                    requires
                        ay == (if yoff < 0 {
                            -yoff
                        } else {
                            yoff as int
                        }),
                ;
                assert(ax * i >= 0 && ay * i >= 0) by (nonlinear_arith)
                    requires
                        ax >= 0,
                        ay >= 0,
                        i >= 0,
                ;
            }
            lemma_wrap(c.0, SIZE as int);
            lemma_wrap(c.1, SIZE as int);
        }
        if level.tile(vx, vy).is_opaque() {
            return false;
        }
        i += 1;
    }
    true
}

/// Computes what can be seen from `(x, y)` within `radius`. The result has
/// one entry for each cell of the square of `2 * radius + 1` columns and rows
/// around the centre, running column by column; entry
/// `(xoff + radius) * (2 * radius + 1) + (yoff + radius)` is the brightness
/// of the cell at offset `(xoff, yoff)`.
pub fn look<const SIZE: usize>(level: &Level<SIZE>, x: usize, y: usize, radius: usize) -> (r: Vec<u64>)
    requires
        radius <= MAX_VISION_RADIUS,
    ensures
        r@.len() == (2 * radius + 1) * (2 * radius + 1),
        forall|k: int|
            0 <= k < r@.len() ==> (#[trigger] r@[k]) == brightness_at(
                level@,
                SIZE as int,
                x as int,
                y as int,
                radius as int,
                k,
            ),
{
    let side: u64 = 2 * (radius as u64) + 1;
    proof {
        assert(radius * radius < 0x4000_0000) by (nonlinear_arith)
            requires
                radius <= 0x7fff,
        ;
    }
    let rr: u64 = (radius as u64) * (radius as u64);
    let rad: i64 = radius as i64;
    let mut vision: Vec<u64> = Vec::new();
    let mut a: u64 = 0;
    while a < side
        invariant
            a <= side,
            side == 2 * radius + 1,
            rr == radius * radius,
            rr < 0x4000_0000,
            rad == radius,
            radius <= MAX_VISION_RADIUS,
            vision@.len() == a * side,
            forall|k: int|
                0 <= k < vision@.len() ==> (#[trigger] vision@[k]) == brightness_at(
                    level@,
                    SIZE as int,
                    x as int,
                    y as int,
                    radius as int,
                    k,
                ),
        decreases side - a,
    {
        let xoff: i64 = a as i64 - rad;
        let mut b: u64 = 0;
        while b < side
            invariant
                a < side,
                b <= side,
                side == 2 * radius + 1,
                rr == radius * radius,
                rr < 0x4000_0000,
                rad == radius,
                radius <= MAX_VISION_RADIUS,
                xoff == a - radius,
                vision@.len() == a * side + b,
                forall|k: int|
                    0 <= k < vision@.len() ==> (#[trigger] vision@[k]) == brightness_at(
                        level@,
                        SIZE as int,
                        x as int,
                        y as int,
                        radius as int,
                        k,
                    ),
            decreases side - b,
        {
            let yoff: i64 = b as i64 - rad;
            proof {
                assert(xoff * xoff <= 0x7fff * 0x7fff && xoff * xoff >= 0) by (nonlinear_arith)
                    requires
                        -0x7fff <= xoff <= 0x7fff,
                ;
                assert(yoff * yoff <= 0x7fff * 0x7fff && yoff * yoff >= 0) by (nonlinear_arith)
                    requires
                        -0x7fff <= yoff <= 0x7fff,
                ;
            }
            let d: u64 = (xoff * xoff + yoff * yoff) as u64;
            let value: u64 = if d < rr && ray_is_clear(level, x, y, xoff, yoff, d) {
                let far: u64 = int_sqrt(d * VISION_UNITS * VISION_UNITS);
                proof {
                    assert(far < radius * VISION_UNITS) by (nonlinear_arith)
                        requires
                            far * far <= d * 0x1_0000 * 0x1_0000,
                            d < radius * radius,
                            0 <= far,
                            0 <= radius,
                    ;
                    lemma_capped_root(
                        d * VISION_UNITS * VISION_UNITS,
                        (radius * VISION_UNITS) as nat,
                        far as int,
                    );
                }
                radius as u64 * VISION_UNITS - far
            } else {
                0
            };
            proof {
                let k = a * side + b;
                lemma_fundamental_div_mod_converse(k as int, side as int, a as int, b as int);
            }
            vision.push(value);
            b += 1;
        }
        proof {
            assert(a * side + side == (a + 1) * side) by (nonlinear_arith);
        }
        a += 1;
    }
    vision
}

} // verus!
