//! Arithmetic on a ring of `size` cells, the one-dimensional face of the torus.

use vstd::prelude::*;
use vstd::arithmetic::div_mod::{lemma_add_mod_noop, lemma_sub_mod_noop, lemma_mod_add_multiples_vanish, lemma_small_mod};

verus! {

/// The cell that the unbounded coordinate `v` denotes on a ring of `size`
/// cells: the remainder of the floored division, never negative.
pub open spec fn wrap(v: int, size: int) -> int {
    v % size
}

/// Wrapping is periodic, lands on the ring, and leaves cells of the ring alone.
pub proof fn lemma_wrap(v: int, size: int)
    requires
        size > 0,
    ensures
        0 <= wrap(v, size) < size,
        wrap(v + size, size) == wrap(v, size),
        wrap(wrap(v, size), size) == wrap(v, size),
        0 <= v < size ==> wrap(v, size) == v,
{
    lemma_mod_add_multiples_vanish(v, size);
    lemma_small_mod((v % size) as nat, size as nat);
    if 0 <= v < size {
        lemma_small_mod(v as nat, size as nat);
    }
}

/// Moves `delta` cells from `base` along a ring of `size` cells.
pub fn wrap_offset(base: usize, delta: i64, size: usize) -> (r: usize)
    requires
        size > 0,
    ensures
        r == wrap(base + delta, size as int),
        r < size,
{
    let s: u128 = size as u128;
    let b: u128 = base as u128 % s;
    if delta >= 0 {
        let d: u128 = delta as u128 % s;
        proof {
            lemma_add_mod_noop(base as int, delta as int, size as int);
        }
        ((b + d) % s) as usize
    } else {
        let d: u128 = (-(delta as i128)) as u128 % s;
        proof {
            lemma_sub_mod_noop(base as int, -(delta as int), size as int);
            lemma_mod_add_multiples_vanish(b - d, size as int);
        }
        ((b + s - d) % s) as usize
    }
}

/// Reduces an unbounded coordinate onto a ring of `size` cells.
pub fn wrap_wide(v: i128, size: usize) -> (r: usize)
    requires
        size > 0,
        v > i128::MIN,
    ensures
        r == wrap(v as int, size as int),
        r < size,
{
    let s: u128 = size as u128;
    if v >= 0 {
        (v as u128 % s) as usize
    } else {
        let d: u128 = (-v) as u128 % s;
        proof {
            lemma_sub_mod_noop(0, -(v as int), size as int);
            lemma_mod_add_multiples_vanish(-(d as int), size as int);
        }
        ((s - d) % s) as usize
    }
}

/// Reduces a coordinate onto a ring of `size` cells.
pub fn wrap_index(v: usize, size: usize) -> (r: usize)
    requires
        size > 0,
    ensures
        r == wrap(v as int, size as int),
        r < size,
{
    v % size
}

} // verus!
