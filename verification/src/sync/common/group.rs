//! The generation ("lap") counter of one storage slot.
//!
//! A circular buffer reuses the same physical slot for unboundedly many
//! logical positions.  The generation distinguishes the current lap from the
//! next one, so a producer arriving at a slot that still holds an old value
//! cannot mistake it for a free slot of its own lap.

use vstd::prelude::*;
use vstd::arithmetic::div_mod::{
    lemma_div_denominator, lemma_div_non_zero, lemma_fundamental_div_mod,
    lemma_fundamental_div_mod_converse_mod, lemma_mod_division_less_than_divisor,
};
use vstd::arithmetic::mul::lemma_mul_inequality;

verus! {

/// Number of distinct generations a slot can carry before its counter wraps.
pub const GROUP_COUNT: usize = 0x10000;

/// A wrapping generation counter.
#[derive(Debug, Clone, Copy, PartialEq, Eq, Structural)]
pub struct MemoryGroup {
    group: u16,
}

impl MemoryGroup {
    /// The counter value as a mathematical integer in `[0, GROUP_COUNT)`.
    pub closed spec fn spec_group(self) -> int {
        self.group as int
    }

    /// Two counters with the same value are the same counter.
    pub proof fn lemma_eq(a: Self, b: Self)
        requires
            a.spec_group() == b.spec_group(),
        ensures
            a == b,
    {
    }

    /// The first generation.
    pub fn new() -> (r: Self)
        ensures
            r.spec_group() == 0,
    {
        Self { group: 0 }
    }

    /// How many generations exist before the counter wraps.
    pub fn max_group() -> (r: usize)
        ensures
            r == GROUP_COUNT,
    {
        GROUP_COUNT
    }

    /// The counter value.
    pub fn group(&self) -> (r: usize)
        ensures
            r == self.spec_group(),
    {
        self.group as usize
    }

    /// The next generation; wraps after `GROUP_COUNT` laps.
    pub fn next(&self) -> (r: Self)
        ensures
            r.spec_group() == (self.spec_group() + 1) % (GROUP_COUNT as int),
    {
        Self { group: self.group.wrapping_add(1) }
    }

    /// The cursor bound for a buffer of `size` slots: the largest multiple of
    /// `size * GROUP_COUNT` that fits in `usize`.  Cursors wrap there, so
    /// both the slot index (`cursor % size`) and the generation
    /// (`cursor / size % GROUP_COUNT`) stay exact across the wrap.
    pub fn max_idx(size: usize) -> (r: usize)
        requires
            1 <= size,
        ensures
            r == Self::spec_max_idx(size as int),
    {
        proof {
            Self::lemma_max_idx_fits(size as int);
        }
        usize::MAX / size / GROUP_COUNT * size * GROUP_COUNT
    }

    /// What [`Self::max_idx`] computes.
    pub open spec fn spec_max_idx(size: int) -> int {
        usize::MAX as int / size / (GROUP_COUNT as int) * size * (GROUP_COUNT as int)
    }

    /// The quotient times `size * GROUP_COUNT` stays below `usize::MAX`.
    proof fn lemma_max_idx_fits(size: int)
        requires
            1 <= size,
        ensures
            0 <= usize::MAX as int / size / (GROUP_COUNT as int) * size,
            usize::MAX as int / size / (GROUP_COUNT as int) * size <= usize::MAX as int,
            0 <= Self::spec_max_idx(size),
            Self::spec_max_idx(size) <= usize::MAX as int,
    {
        let m = usize::MAX as int;
        let g = GROUP_COUNT as int;
        let a = m / size;
        let q = a / g;
        lemma_fundamental_div_mod(a, g);
        lemma_mod_division_less_than_divisor(a, g);
        assert(a >= g * q);
        lemma_fundamental_div_mod(m, size);
        lemma_mod_division_less_than_divisor(m, size);
        assert(m >= size * a);
        lemma_mul_inequality(g * q, a, size);
        assert((g * q) * size <= a * size);
        assert(q * size * g == (g * q) * size) by (nonlinear_arith);
        assert(size * a == a * size) by (nonlinear_arith);
        assert(q * size * g <= m);
        assert(0 <= q * size) by (nonlinear_arith)
            requires
                0 <= q,
                0 <= size,
        ;
        assert(q * size <= q * size * g) by (nonlinear_arith)
            requires
                0 <= q * size,
                1 <= g,
        ;
    }

    /// The cursor bound is a multiple of `size` and of `size * GROUP_COUNT`,
    /// and is at least one full cycle when that fits in `usize`.
    pub proof fn lemma_max_idx(size: int)
        requires
            1 <= size,
        ensures
            Self::spec_max_idx(size) % size == 0,
            Self::spec_max_idx(size) % (size * (GROUP_COUNT as int)) == 0,
            0 <= Self::spec_max_idx(size) <= usize::MAX as int,
            size * (GROUP_COUNT as int) <= usize::MAX as int ==> Self::spec_max_idx(size) >= size
                * (GROUP_COUNT as int),
    {
        let m = usize::MAX as int;
        let g = GROUP_COUNT as int;
        let q = m / size / g;
        let r = Self::spec_max_idx(size);
        Self::lemma_max_idx_fits(size);
        assert(r == q * (size * g) && r == (q * g) * size) by (nonlinear_arith)
            requires
                r == q * size * g,
        ;
        assert(size * g > 0) by (nonlinear_arith)
            requires
                1 <= size,
                1 <= g,
        ;
        lemma_fundamental_div_mod_converse_mod(r, size * g, q, 0);
        lemma_fundamental_div_mod_converse_mod(r, size, q * g, 0);
        if size * g <= m {
            lemma_div_denominator(m, size, g);
            assert(q == m / (size * g));
            lemma_div_non_zero(m, size * g);
            assert(q >= 1);
            lemma_mul_inequality(1, q, size * g);
            assert(1 * (size * g) == size * g) by (nonlinear_arith);
        }
    }

    /// The generation a cursor value belongs to: lap `idx / size`, wrapped.
    pub fn from_idx(idx: usize, size: usize) -> (r: Self)
        requires
            1 <= size,
        ensures
            r.spec_group() == (idx as int / size as int) % (GROUP_COUNT as int),
    {
        let lap = idx / size;
        let g16: u16 = #[verifier::truncate] (lap as u16);
        proof {
            assert(g16 == lap as int % 0x10000) by (bit_vector)
                requires
                    g16 == lap as u16,
            ;
        }
        Self { group: g16 }
    }
}

} // verus!
