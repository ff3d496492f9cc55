//! Alignment arithmetic: powers of two and rounding up to a multiple of an
//! alignment, with the facts about them that the layout computations rely on.

use vstd::prelude::*;
use vstd::arithmetic::div_mod::{
    lemma_add_mod_noop, lemma_fundamental_div_mod, lemma_mod_bound, lemma_mod_multiples_basic,
    lemma_small_mod, lemma_sub_mod_noop,
};

verus! {

/// True when `n` is a (positive) power of two.
pub open spec fn is_pow2(n: int) -> bool
    decreases n,
{
    if n <= 0 {
        false
    } else if n == 1 {
        true
    } else {
        n % 2 == 0 && is_pow2(n / 2)
    }
}

/// The least multiple of `a` that is at least `x`.
pub open spec fn align_up(x: int, a: int) -> int
    recommends
        a >= 1,
        x >= 0,
{
    if x % a == 0 {
        x
    } else {
        x + a - x % a
    }
}

/// The larger of two integers.
pub open spec fn max_int(a: int, b: int) -> int {
    if a > b {
        a
    } else {
        b
    }
}

/// A power of two is positive.
pub proof fn lemma_pow2_pos(n: int)
    requires
        is_pow2(n),
    ensures
        n >= 1,
{
}

/// `align_up(x, a)` is a multiple of `a` and lies in `[x, x + a)`.
pub proof fn lemma_align_up_props(x: int, a: int)
    requires
        a >= 1,
        x >= 0,
    ensures
        align_up(x, a) % a == 0,
        x <= align_up(x, a),
        align_up(x, a) < x + a,
{
    lemma_mod_bound(x, a);
    if x % a == 0 {
    } else {
        lemma_fundamental_div_mod(x, a);
        assert(align_up(x, a) == (x / a + 1) * a) by (nonlinear_arith)
            requires
                x == a * (x / a) + x % a,
                align_up(x, a) == x + a - x % a,
        ;
        lemma_mod_multiples_basic(x / a + 1, a);
    }
}

/// No multiple of `a` lies strictly between `x` and `align_up(x, a)`:
/// any multiple of `a` at least `x` is at least `align_up(x, a)`.
pub proof fn lemma_align_up_min(x: int, a: int, m: int)
    requires
        a >= 1,
        0 <= x,
        x <= m,
        m % a == 0,
    ensures
        align_up(x, a) <= m,
{
    lemma_align_up_props(x, a);
    if align_up(x, a) > m {
        let lower = align_up(x, a) - a;
        assert(lower % a == 0) by {
            lemma_sub_mod_noop(align_up(x, a), a, a);
            lemma_mod_multiples_basic(1, a);
            lemma_small_mod(0, a as nat);
        }
        let d = m - lower;
        assert(d % a == 0) by {
            lemma_sub_mod_noop(m, lower, a);
            lemma_small_mod(0, a as nat);
        }
        assert(0 < d < a);
        lemma_small_mod(d as nat, a as nat);
    }
}

/// Rounding up is monotone in its argument.
pub proof fn lemma_align_up_mono(x: int, y: int, a: int)
    requires
        a >= 1,
        0 <= x,
        x <= y,
    ensures
        align_up(x, a) <= align_up(y, a),
{
    lemma_align_up_props(y, a);
    lemma_align_up_min(x, a, align_up(y, a));
}

/// The sum of two multiples of `a` is a multiple of `a`.
pub proof fn lemma_multiple_add(x: int, y: int, a: int)
    requires
        a >= 1,
        x % a == 0,
        y % a == 0,
    ensures
        (x + y) % a == 0,
{
    lemma_add_mod_noop(x, y, a);
    lemma_small_mod(0, a as nat);
}

/// Divisibility is transitive: a multiple of `b` is a multiple of any
/// divisor `a` of `b`.
pub proof fn lemma_divides_transitive(y: int, b: int, a: int)
    requires
        a >= 1,
        b >= 1,
        y % b == 0,
        b % a == 0,
    ensures
        y % a == 0,
{
    lemma_fundamental_div_mod(y, b);
    lemma_fundamental_div_mod(b, a);
    let q = (y / b) * (b / a);
    assert(y == q * a) by (nonlinear_arith)
        requires
            y == b * (y / b) + y % b,
            b == a * (b / a) + b % a,
            y % b == 0,
            b % a == 0,
            q == (y / b) * (b / a),
    ;
    lemma_mod_multiples_basic(q, a);
}

/// Between two powers of two, the smaller divides the larger.
pub proof fn lemma_pow2_le_divides(a: int, b: int)
    requires
        is_pow2(a),
        is_pow2(b),
        a <= b,
    ensures
        b % a == 0,
    decreases b,
{
    if a == 1 {
        lemma_mod_multiples_basic(b, 1);
    } else if a == b {
        lemma_mod_multiples_basic(1, a);
    } else {
        lemma_pow2_le_divides(a / 2, b / 2);
        let q = (b / 2) / (a / 2);
        lemma_fundamental_div_mod(b / 2, a / 2);
        assert(b == q * a) by (nonlinear_arith)
            requires
                b / 2 == (a / 2) * q,
                b % 2 == 0,
                a % 2 == 0,
                b == 2 * (b / 2) + b % 2,
                a == 2 * (a / 2) + a % 2,
        ;
        lemma_mod_multiples_basic(q, a);
    }
}

/// Adding a multiple of `a` commutes with rounding up to `a`.
pub proof fn lemma_align_up_add_multiple(x: int, p: int, a: int)
    requires
        a >= 1,
        x >= 0,
        p >= 0,
        p % a == 0,
    ensures
        align_up(x + p, a) == align_up(x, a) + p,
{
    lemma_align_up_props(x, a);
    lemma_align_up_props(x + p, a);
    lemma_multiple_add(align_up(x, a), p, a);
    lemma_align_up_min(x + p, a, align_up(x, a) + p);
    assert((align_up(x + p, a) - p) % a == 0) by {
        lemma_sub_mod_noop(align_up(x + p, a), p, a);
        lemma_small_mod(0, a as nat);
    }
    lemma_align_up_min(x, a, align_up(x + p, a) - p);
}

/// Rounding up to `a` and then to a multiple `b` of `a` is the same as
/// rounding up to `b` directly.
pub proof fn lemma_align_up_coarsen(x: int, a: int, b: int)
    requires
        a >= 1,
        b >= 1,
        b % a == 0,
        x >= 0,
    ensures
        align_up(align_up(x, a), b) == align_up(x, b),
{
    lemma_align_up_props(x, a);
    lemma_align_up_props(x, b);
    lemma_align_up_props(align_up(x, a), b);
    lemma_divides_transitive(align_up(x, b), b, a);
    lemma_align_up_min(x, a, align_up(x, b));
    lemma_align_up_min(align_up(x, a), b, align_up(x, b));
    lemma_align_up_mono(x, align_up(x, a), b);
}

/// Rounds `x` up to a multiple of `a`, or reports that the result does not
/// fit in 64 bits.
pub fn align_up_u64(x: u64, a: u64) -> (r: Option<u64>)
    requires
        a >= 1,
    ensures
        match r {
            Some(v) => v == align_up(x as int, a as int),
            None => align_up(x as int, a as int) > u64::MAX,
        },
{
    let rem = x % a;
    if rem == 0 {
        Some(x)
    } else {
        x.checked_add(a - rem)
    }
}

/// Decides whether `x` is a power of two.
pub fn is_pow2_u64(x: u64) -> (b: bool)
    ensures
        b == is_pow2(x as int),
{
    if x == 0 {
        return false;
    }
    let mut v = x;
    while v > 1
        invariant
            v >= 1,
            is_pow2(x as int) == is_pow2(v as int),
        decreases v,
    {
        if v % 2 == 1 {
            return false;
        }
        v = v / 2;
    }
    true
}

/// The larger of two 64-bit values.
pub fn max_u64(a: u64, b: u64) -> (r: u64)
    ensures
        r == max_int(a as int, b as int),
{
    if a > b {
        a
    } else {
        b
    }
}

} // verus!

verus! {

/// A non-negative multiple of a multiple of `a` is a multiple of `a`.
pub proof fn lemma_multiple_scale(c: int, s: int, a: int)
    requires
        a >= 1,
        s % a == 0,
    ensures
        (c * s) % a == 0,
{
    lemma_fundamental_div_mod(s, a);
    let q = c * (s / a);
    assert(c * s == q * a) by (nonlinear_arith)
        requires
            s == a * (s / a) + s % a,
            s % a == 0,
            q == c * (s / a),
    ;
    lemma_mod_multiples_basic(q, a);
}

} // verus!
