//! The lattice tables of tileable three-dimensional simplex noise.
//!
//! The noise repeats with a period of six times `w6`, `h6` and `d6` lattice
//! cells along its three axes. Which gradient sits at a lattice point is read
//! from a permutation of the numbers below 256, which is derived from a seed
//! and from nothing else. Summing the contributions of the lattice points
//! around a point takes real numbers and is left to the caller.

use vstd::prelude::*;
use crate::util::math::{div_toward_zero, divide_toward_zero};
use crate::util::torus::{wrap, wrap_wide};

verus! {

/// The gradients, three components each. They approximate the directions
/// from the centre of a rhombicuboctahedron to its vertices.
pub const GRADIENTS_3D: [i8; 72] = [
    -11, 4, 4, -4, 11, 4, -4, 4, 11,
    11, 4, 4, 4, 11, 4, 4, 4, 11,
    -11, -4, 4, -4, -11, 4, -4, -4, 11,
    11, -4, 4, 4, -11, 4, 4, -4, 11,
    -11, 4, -4, -4, 11, -4, -4, 4, -11,
    11, 4, -4, 4, 11, -4, 4, 4, -11,
    -11, -4, -4, -4, -11, -4, -4, -4, -11,
    11, -4, -4, 4, -11, -4, 4, -4, -11,
];

/// The number of gradients.
pub const GRADIENT_COUNT: i16 = 24;

/// The multiplier of the linear congruential generator that shuffles the
/// permutation.
pub const LCG_MULTIPLIER: i64 = 6364136223846793005;

/// Its increment.
pub const LCG_INCREMENT: i64 = 1442695040888963407;

/// The largest sixth of a period that the tables accept: the largest whose
/// sixfold, the period, is a number of thirty-two bits.
pub const MAX_PERIOD_SIXTH: i32 = 357_913_941;

/// The largest lattice coordinate, in absolute value, that a gradient can be
/// looked up for: the largest number of thirty-two bits.
pub const MAX_LATTICE: i32 = 0x7fff_ffff;

/// The lattice tables of one noise field.
pub struct OpenSimplexTileable3D {
    pub perm: [i16; 256],
    pub perm_grad_index_3d: [i16; 256],
    pub w6: i32,
    pub h6: i32,
    pub d6: i32,
    pub s_offset: i32,
}

/// The successor of `seed` in the linear congruential sequence, computed
/// in sixty-four bits with wrap-around.
pub open spec fn lcg(seed: i64) -> i64 {
    seed.wrapping_mul(LCG_MULTIPLIER).wrapping_add(LCG_INCREMENT)
}

/// The position in a permutation table at which the gradient of table
/// entry `p` starts.
pub open spec fn grad_index(p: i16) -> int {
    (p as int % 24) * 3
}

/// What shuffling threads through its steps: the generator, the numbers
/// not yet dealt, and the permutation as far as it has been dealt.
pub struct Shuffle {
    pub seed: i64,
    pub source: Seq<i16>,
    pub perm: Seq<i16>,
}

/// The state after the last `n` entries of the permutation have been dealt.
/// Entry `i` is dealt by advancing the generator, picking the number at the
/// position `(seed + 31) mod (i + 1)` of those not yet dealt, and moving the
/// number at position `i` into its place.
pub open spec fn dealt(seed: i64, n: nat) -> Shuffle
    decreases n,
{
    if n == 0 {
        Shuffle {
            seed: lcg(lcg(lcg(seed))),
            source: Seq::new(256, |i: int| i as i16),
            perm: Seq::new(256, |i: int| 0i16),
        }
    } else {
        let before = dealt(seed, (n - 1) as nat);
        let i = 256 - n;
        let s = lcg(before.seed);
        let r = wrap(s.wrapping_add(31) as int, i + 1);
        Shuffle {
            seed: s,
            source: before.source.update(r, before.source[i]),
            perm: before.perm.update(i, before.source[r]),
        }
    }
}

/// Every number not yet dealt is a number below 256, and so is every
/// number dealt.
pub proof fn lemma_dealt_range(seed: i64, n: nat)
    requires
        n <= 256,
    ensures
        dealt(seed, n).source.len() == 256,
        dealt(seed, n).perm.len() == 256,
        forall|i: int| 0 <= i < 256 ==> 0 <= (#[trigger] dealt(seed, n).source[i]) < 256,
        forall|i: int| 0 <= i < 256 ==> 0 <= (#[trigger] dealt(seed, n).perm[i]) < 256,
    decreases n,
{
    if n > 0 {
        lemma_dealt_range(seed, (n - 1) as nat);
    }
}

impl OpenSimplexTileable3D {
    /// What the tables of a field are like: the permutation holds numbers
    /// below 256, the gradient positions follow from it, the sixths of the
    /// period are positive, and the offset is six times the largest of them.
    pub open spec fn wf(&self) -> bool {
        &&& forall|i: int| 0 <= i < 256 ==> 0 <= (#[trigger] self.perm[i]) < 256
        &&& forall|i: int|
            0 <= i < 256 ==> (#[trigger] self.perm_grad_index_3d[i]) == grad_index(self.perm[i])
        &&& 0 < self.w6 <= MAX_PERIOD_SIXTH
        &&& 0 < self.h6 <= MAX_PERIOD_SIXTH
        &&& 0 < self.d6 <= MAX_PERIOD_SIXTH
        &&& self.s_offset == 6 * largest(self.w6 as int, self.h6 as int, self.d6 as int)
    }

    /// Builds the tables from a given permutation.
    pub fn new_with_perm(perm: [i16; 256], w6: i32, h6: i32, d6: i32) -> (r: Self)
        requires
            forall|i: int| 0 <= i < 256 ==> 0 <= (#[trigger] perm[i]) < 256,
            0 < w6 <= MAX_PERIOD_SIXTH,
            0 < h6 <= MAX_PERIOD_SIXTH,
            0 < d6 <= MAX_PERIOD_SIXTH,
        ensures
            r.wf(),
            r.perm == perm,
            r.w6 == w6,
            r.h6 == h6,
            r.d6 == d6,
    {
        let mut perm_grad_index_3d = [0i16;256];
        let longest: i32 = if h6 >= d6 {
            if w6 >= h6 {
                w6
            } else {
                h6
            }
        } else {
            if w6 >= d6 {
                w6
            } else {
                d6
            }
        };
        let s_offset: i32 = longest * 6;
        let mut i: usize = 0;
        while i < 256
            invariant
                i <= 256,
                forall|k: int| 0 <= k < 256 ==> 0 <= (#[trigger] perm[k]) < 256,
                forall|k: int|
                    0 <= k < i ==> (#[trigger] perm_grad_index_3d[k]) == grad_index(perm[k]),
            decreases 256 - i,
        {
            perm_grad_index_3d[i] = (perm[i] % GRADIENT_COUNT) * 3;
            i += 1;
        }
        Self { perm, perm_grad_index_3d, w6, h6, d6, s_offset }
    }

    /// Builds the tables of a field with the same period along all axes.
    pub fn new_with_seed_square(seed: i64, s6: i32) -> (r: Self)
        requires
            0 < s6 <= MAX_PERIOD_SIXTH,
        ensures
            r.wf(),
            r.perm@ == dealt(seed, 256).perm,
            r.w6 == s6,
            r.h6 == s6,
            r.d6 == s6,
    {
        Self::new_with_seed(seed, s6, s6, s6)
    }

    /// Builds the tables from a seed. The permutation is dealt from the
    /// numbers below 256, last entry first, by a linear congruential generator
    /// that is warmed up with three rounds.
    pub fn new_with_seed(seed: i64, w6: i32, h6: i32, d6: i32) -> (r: Self)
        requires
            0 < w6 <= MAX_PERIOD_SIXTH,
            0 < h6 <= MAX_PERIOD_SIXTH,
            0 < d6 <= MAX_PERIOD_SIXTH,
        ensures
            r.wf(),
            r.perm@ == dealt(seed, 256).perm,
            r.w6 == w6,
            r.h6 == h6,
            r.d6 == d6,
    {
        let mut perm = [0i16;256];
        let mut source = [0i16;256];
        let mut c: usize = 0;
        while c < 256
            invariant
                c <= 256,
                forall|k: int| 0 <= k < c ==> (#[trigger] source[k]) == k,
                forall|k: int| 0 <= k < 256 ==> (#[trigger] perm[k]) == 0,
            decreases 256 - c,
        {
            source[c] = c as i16;
            c += 1;
        }
        let ghost first = seed;
        let mut seed: i64 = seed.wrapping_mul(LCG_MULTIPLIER).wrapping_add(LCG_INCREMENT);
        seed = seed.wrapping_mul(LCG_MULTIPLIER).wrapping_add(LCG_INCREMENT);
        seed = seed.wrapping_mul(LCG_MULTIPLIER).wrapping_add(LCG_INCREMENT);
        assert(source@ =~= dealt(first, 0).source) by {}
        assert(perm@ =~= dealt(first, 0).perm) by {}
        let mut n: usize = 0;
        while n < 256
            invariant
                n <= 256,
                (Shuffle { seed, source: source@, perm: perm@ }) == dealt(first, n as nat),
            decreases 256 - n,
        {
            let i: usize = 255 - n;
            seed = seed.wrapping_mul(LCG_MULTIPLIER).wrapping_add(LCG_INCREMENT);
            let r: usize = wrap_wide(seed.wrapping_add(31) as i128, i + 1);
            perm[i] = source[r];
            source[r] = source[i];
            n += 1;
        }
        proof {
            lemma_dealt_range(first, 256);
            assert forall|k: int| 0 <= k < 256 implies 0 <= (#[trigger] perm[k]) < 256 by {}
        }
        Self::new_with_perm(perm, w6, h6, d6)
    }
}

/// The largest of three numbers.
pub open spec fn largest(a: int, b: int, c: int) -> int {
    if a >= b && a >= c {
        a
    } else if b >= c {
        b
    } else {
        c
    }
}

/// A multiple of the divisor that a quotient rounded toward zero stands for
/// is no farther from zero than the dividend.
pub proof fn lemma_quotient_times_divisor(t: int, b: int)
    by (nonlinear_arith)
    requires
        b >= 1,
    ensures
        t >= 0 ==> 0 <= b * div_toward_zero(t, b) <= t,
        t < 0 ==> t <= b * div_toward_zero(t, b) <= 0,
{}

/// The number of lattice cells that make up the whole periods which the
/// lattice point lies from the origin along one axis, `c` being its
/// coordinate along that axis, `sum` the sum of all three and `sixth` a sixth
/// of the period.
pub open spec fn whole_periods(c: int, sum: int, sixth: int) -> int {
    sixth * div_toward_zero(div_toward_zero(3 * c + sum, 18), sixth)
}

/// Computes the lattice cells in the whole periods along one axis.
fn fold_axis(c: i32, sum: i128, sixth: i32) -> (r: i128)
    requires
        -MAX_LATTICE <= c <= MAX_LATTICE,
        -3 * MAX_LATTICE <= sum <= 3 * MAX_LATTICE,
        0 < sixth <= MAX_PERIOD_SIXTH,
    ensures
        r == whole_periods(c as int, sum as int, sixth as int),
        -MAX_LATTICE <= r <= MAX_LATTICE,
{
    let t: i128 = divide_toward_zero(3 * (c as i128) + sum, 18);
    proof {
        lemma_quotient_times_divisor(t as int, sixth as int);
    }
    let q: i128 = divide_toward_zero(t, sixth as i128);
    sixth as i128 * q
}

impl OpenSimplexTileable3D {
    /// The lattice point brought back into the first period of the field.
    pub open spec fn folded(&self, xsb: int, ysb: int, zsb: int) -> (int, int, int) {
        let sum = xsb + ysb + zsb;
        let px = whole_periods(xsb, sum, self.w6 as int);
        let py = whole_periods(ysb, sum, self.h6 as int);
        let pz = whole_periods(zsb, sum, self.d6 as int);
        (-5 * px + py + pz + xsb, px - 5 * py + pz + ysb, px + py - 5 * pz + zsb)
    }

    /// The position in the gradient table at which the gradient of the
    /// lattice point starts: the point is folded into the first period and
    /// hashed through the permutation, one coordinate after the other.
    pub open spec fn spec_gradient_index(&self, xsb: int, ysb: int, zsb: int) -> int {
        let f = self.folded(xsb, ysb, zsb);
        let a = self.perm[wrap(f.0, 256)];
        let b = self.perm[wrap(a + f.1, 256)];
        self.perm_grad_index_3d[wrap(b + f.2, 256)] as int
    }

    /// Looks up where the gradient of a lattice point starts in the
    /// gradient table. The three components of the gradient are the entries
    /// at the position returned and at the two that follow.
    pub fn gradient_index(&self, xsb: i32, ysb: i32, zsb: i32) -> (r: usize)
        requires
            self.wf(),
            -MAX_LATTICE <= xsb <= MAX_LATTICE,
            -MAX_LATTICE <= ysb <= MAX_LATTICE,
            -MAX_LATTICE <= zsb <= MAX_LATTICE,
        ensures
            r == self.spec_gradient_index(xsb as int, ysb as int, zsb as int),
            r + 2 < 72,
            r % 3 == 0,
    {
        let sum: i128 = xsb as i128 + ysb as i128 + zsb as i128;
        let px: i128 = fold_axis(xsb, sum, self.w6);
        let py: i128 = fold_axis(ysb, sum, self.h6);
        let pz: i128 = fold_axis(zsb, sum, self.d6);
        let xsbm: i128 = py + pz + xsb as i128 - 5 * px;
        let ysbm: i128 = px - 5 * py + pz + ysb as i128;
        let zsbm: i128 = px + py - 5 * pz + zsb as i128;
        let a: i16 = self.perm[wrap_wide(xsbm, 256)];
        let b: i16 = self.perm[wrap_wide(a as i128 + ysbm, 256)];
        let at: usize = wrap_wide(b as i128 + zsbm, 256);
        self.perm_grad_index_3d[at] as usize
    }
}

/// While the permutation is being dealt, the numbers not yet dealt differ
/// from one another, the numbers dealt differ from one another, and no number
/// is both.
pub proof fn lemma_dealt_distinct(seed: i64, n: nat)
    requires
        n <= 256,
    ensures
        ({
            let state = dealt(seed, n);
            let m = 256 - n;
            &&& forall|a: int, b: int|
                0 <= a < b < m ==> (#[trigger] state.source[a]) != (#[trigger] state.source[b])
            &&& forall|a: int, b: int|
                m <= a < b < 256 ==> (#[trigger] state.perm[a]) != (#[trigger] state.perm[b])
            &&& forall|a: int, b: int|
                0 <= a < m && m <= b < 256 ==> (#[trigger] state.source[a]) != (
                #[trigger] state.perm[b])
        }),
    decreases n,
{
    if n > 0 {
        lemma_dealt_distinct(seed, (n - 1) as nat);
        lemma_dealt_range(seed, (n - 1) as nat);
        let state = dealt(seed, n);
        let m = 256 - n;
        assert forall|a: int, b: int| 0 <= a < b < m implies (#[trigger] state.source[a]) != (
        #[trigger] state.source[b]) by {}
        assert forall|a: int, b: int| m <= a < b < 256 implies (#[trigger] state.perm[a]) != (
        #[trigger] state.perm[b]) by {}
        assert forall|a: int, b: int| 0 <= a < m && m <= b < 256 implies (#[trigger] state.source[a])
            != (#[trigger] state.perm[b]) by {}
    }
}

/// The table dealt from a seed is a permutation of the numbers below 256:
/// it has 256 entries, each of them is a number below 256, and no two are the
/// same.
pub proof fn lemma_dealt_is_permutation(seed: i64)
    ensures
        dealt(seed, 256).perm.len() == 256,
        forall|a: int| 0 <= a < 256 ==> 0 <= (#[trigger] dealt(seed, 256).perm[a]) < 256,
        forall|a: int, b: int|
            0 <= a < b < 256 ==> (#[trigger] dealt(seed, 256).perm[a]) != (#[trigger] dealt(
                seed,
                256,
            ).perm[b]),
{
    lemma_dealt_range(seed, 256);
    lemma_dealt_distinct(seed, 256);
}

} // verus!
