//! Shared facts about wrapping cursor arithmetic.
//!
//! The circular structures map an unbounded logical position `p` to a slot
//! `p % n` and wrap their stored cursors at a multiple `m` of `n`.  These
//! lemmas say that the wrap is invisible: slot index (and, for the
//! generation-tagged ring, the generation) only depend on the logical
//! position, and positions less than one lap apart never share a slot.

use vstd::arithmetic::div_mod::{
    lemma_fundamental_div_mod, lemma_fundamental_div_mod_converse_mod,
    lemma_hoist_over_denominator, lemma_mod_add_multiples_vanish,
    lemma_mod_division_less_than_divisor, lemma_mod_multiples_vanish,
};
use vstd::prelude::*;

verus! {

/// How `(base + d) % m` relates to `base % m` when `d` is below `m`.
pub(crate) proof fn lemma_mod_shift(base: int, d: int, m: int)
    requires
        0 < m,
        0 <= d < m,
    ensures
        base % m + d < m ==> (base + d) % m == base % m + d,
        base % m + d >= m ==> (base + d) % m == base % m + d - m,
{
    let q = base / m;
    let r = base % m;
    lemma_fundamental_div_mod(base, m);
    lemma_mod_division_less_than_divisor(base, m);
    if r + d < m {
        lemma_fundamental_div_mod_converse_mod(base + d, m, q, r + d);
    } else {
        assert(base + d == (q + 1) * m + (r + d - m)) by (nonlinear_arith)
            requires
                base == m * q + r,
        ;
        lemma_fundamental_div_mod_converse_mod(base + d, m, q + 1, r + d - m);
    }
}

/// Two distinct positions less than a window `n` apart land on distinct
/// slots.
pub(crate) proof fn lemma_window_residues(p: int, q: int, n: int)
    requires
        0 < n,
        p < q < p + n,
    ensures
        p % n != q % n,
{
    lemma_mod_shift(p, q - p, n);
}

/// How `(a + 1) % m` relates to `a % m`.
pub(crate) proof fn lemma_mod_succ(a: int, m: int)
    requires
        0 < m,
    ensures
        a % m == m - 1 ==> (a + 1) % m == 0,
        a % m < m - 1 ==> (a + 1) % m == a % m + 1,
{
    lemma_fundamental_div_mod(a, m);
    lemma_mod_division_less_than_divisor(a, m);
    if a % m == m - 1 {
        assert(a + 1 == (a / m + 1) * m + 0) by (nonlinear_arith)
            requires
                a == m * (a / m) + (m - 1),
        ;
        lemma_fundamental_div_mod_converse_mod(a + 1, m, a / m + 1, 0);
    } else {
        assert(a + 1 == (a / m) * m + (a % m + 1)) by (nonlinear_arith)
            requires
                a == m * (a / m) + a % m,
        ;
        lemma_fundamental_div_mod_converse_mod(a + 1, m, a / m, a % m + 1);
    }
}

/// How `(a - 1) % m` relates to `a % m`.
pub(crate) proof fn lemma_mod_pred(a: int, m: int)
    requires
        0 < m,
    ensures
        a % m >= 1 ==> (a - 1) % m == a % m - 1,
        a % m == 0 ==> (a - 1) % m == m - 1,
{
    lemma_mod_add_multiples_vanish(a - 1, m);
    lemma_mod_shift(a, m - 1, m);
    lemma_mod_division_less_than_divisor(a, m);
}

/// Wrapping a cursor at a multiple of `n` does not change its slot index.
pub(crate) proof fn lemma_wrap_residue(p: int, n: int, m: int)
    requires
        0 < n,
        0 < m,
        m % n == 0,
        0 <= p,
    ensures
        (p % m) % n == p % n,
{
    let q = p / m;
    let r = p % m;
    lemma_fundamental_div_mod(p, m);
    lemma_mod_division_less_than_divisor(p, m);
    lemma_fundamental_div_mod(m, n);
    assert(p == n * ((m / n) * q) + r) by (nonlinear_arith)
        requires
            p == m * q + r,
            m == n * (m / n),
    ;
    lemma_mod_multiples_vanish((m / n) * q, r, n);
}

/// Wrapping a cursor at a multiple of `n * g` does not change the
/// generation `cursor / n % g` either.
pub(crate) proof fn lemma_wrap_group(p: int, n: int, g: int, m: int)
    requires
        0 < n,
        0 < g,
        0 < m,
        m % (n * g) == 0,
        0 <= p,
    ensures
        ((p % m) / n) % g == (p / n) % g,
{
    let q = p / m;
    let r = p % m;
    let k = m / (n * g);
    lemma_fundamental_div_mod(p, m);
    lemma_mod_division_less_than_divisor(p, m);
    assert(n * g > 0) by (nonlinear_arith)
        requires
            0 < n,
            0 < g,
    ;
    lemma_fundamental_div_mod(m, n * g);
    assert(p == r + (g * k * q) * n) by (nonlinear_arith)
        requires
            p == m * q + r,
            m == (n * g) * k,
    ;
    lemma_hoist_over_denominator(r, g * k * q, n as nat);
    assert(p / n == r / n + g * k * q);
    assert(r / n + g * k * q == g * (k * q) + r / n) by (nonlinear_arith);
    lemma_mod_multiples_vanish(k * q, r / n, g);
}

} // verus!
