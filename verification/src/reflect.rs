//! Mirrored boundaries: every index, however far outside, stands for one inside.

use vstd::prelude::*;

verus! {

/// The mirror image of `index` in `[0, n)`: the axis is continued by reflection at its two
/// end samples, which are not repeated, so the continuation has period `2n - 2`.
pub open spec fn reflected(index: int, n: int) -> int {
    if n <= 1 {
        0
    } else {
        let k = index % (2 * n - 2);
        if k < n {
            k
        } else {
            2 * n - 2 - k
        }
    }
}

/// Mirrors an out-of-range index back into `[0, n)` (period `2n - 2`, edge not repeated).
pub fn reflect_index(index: isize, n: usize) -> (r: usize)
    requires
        2 * n - 2 <= isize::MAX,
    ensures
        r == reflected(index as int, n as int),
        n > 0 ==> r < n,
{
    if n <= 1 {
        return 0;
    }
    let n_i: isize = n as isize;
    let period: isize = 2 * (n_i - 1);
    let k: isize = if index >= 0 {
        index % period
    } else {
        // Euclidean remainder of a negative index, kept clear of overflow at `isize::MIN`.
        proof {
            lemma_negative_remainder(index as int, period as int);
        }
        period - 1 - (-(index + 1)) % period
    };
    if k >= n_i {
        (period - k) as usize
    } else {
        k as usize
    }
}

/// The remainder of a negative number, by way of the remainder of its complement.
proof fn lemma_negative_remainder(x: int, p: int)
    requires
        x < 0,
        p > 0,
    ensures
        x % p == p - 1 - (-(x + 1)) % p,
{
    let y = -(x + 1);
    let q = y / p;
    vstd::arithmetic::div_mod::lemma_fundamental_div_mod(y, p);
    assert(x == (-q - 1) * p + (p - 1 - y % p)) by (nonlinear_arith)
        requires
            y == -(x + 1),
            y == p * q + y % p,
    ;
    vstd::arithmetic::div_mod::lemma_fundamental_div_mod_converse(x, p, -q - 1, p - 1 - y % p);
}

/// A mirrored index lies inside the axis.
pub proof fn law_reflection_stays_inside(index: int, n: int)
    requires
        n > 0,
    ensures
        0 <= reflected(index, n) < n,
{
}

/// Mirroring leaves an index that lies inside the axis as it is.
pub proof fn law_reflection_fixes_inside(index: int, n: int)
    requires
        0 <= index < n,
    ensures
        reflected(index, n) == index,
{
    if n > 1 {
        vstd::arithmetic::div_mod::lemma_small_mod(index as nat, (2 * n - 2) as nat);
    }
}

/// The mirrored continuation repeats with period `2n - 2`.
pub proof fn law_reflection_is_periodic(index: int, turns: int, n: int)
    requires
        n > 1,
    ensures
        reflected(index + turns * (2 * n - 2), n) == reflected(index, n),
{
    vstd::arithmetic::div_mod::lemma_mod_multiples_vanish(turns, index, 2 * n - 2);
    assert((2 * n - 2) * turns + index == index + turns * (2 * n - 2)) by (nonlinear_arith);
}

/// The continuation is symmetric about both end samples, and the samples themselves are
/// not repeated: `offset` steps before the first sample lies what lies `offset` steps after
/// it, and likewise around the last one.
pub proof fn law_reflection_mirrors_at_the_ends(offset: int, n: int)
    requires
        n > 0,
    ensures
        reflected(-offset, n) == reflected(offset, n),
        reflected(n - 1 + offset, n) == reflected(n - 1 - offset, n),
{
    if n > 1 {
        let p = 2 * n - 2;
        lemma_complement(offset, p);
        lemma_complement(n - 1 + offset, p);
        law_reflection_is_periodic(-(n - 1 + offset), 1, n);
        assert(-(n - 1 + offset) + 1 * p == n - 1 - offset);
        lemma_even(offset, n);
        lemma_even(n - 1 + offset, n);
    }
}

/// The remainder of `-x` complements that of `x`.
proof fn lemma_complement(x: int, p: int)
    requires
        p > 0,
    ensures
        (-x) % p == if x % p == 0 { 0 } else { p - x % p },
{
    let q = x / p;
    vstd::arithmetic::div_mod::lemma_fundamental_div_mod(x, p);
    if x % p == 0 {
        assert(-x == (-q) * p + 0) by (nonlinear_arith)
            requires
                x == p * q + 0,
        ;
        vstd::arithmetic::div_mod::lemma_fundamental_div_mod_converse(-x, p, -q, 0);
    } else {
        assert(-x == (-q - 1) * p + (p - x % p)) by (nonlinear_arith)
            requires
                x == p * q + x % p,
        ;
        vstd::arithmetic::div_mod::lemma_fundamental_div_mod_converse(-x, p, -q - 1, p - x % p);
    }
}

/// Reflection does not see the sign of an index.
proof fn lemma_even(x: int, n: int)
    requires
        n > 1,
    ensures
        reflected(-x, n) == reflected(x, n),
{
    lemma_complement(x, 2 * n - 2);
}

} // verus!
