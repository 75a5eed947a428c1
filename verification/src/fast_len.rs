//! Transform lengths: the integers that have no prime factor above seven.

use vstd::arithmetic::div_mod::{
    lemma_fundamental_div_mod, lemma_mod_multiples_basic, lemma_mul_mod_noop,
};
use vstd::arithmetic::power::{lemma_pow0, lemma_pow_positive, pow};
use vstd::prelude::*;

verus! {

/// The product `2^a * 3^b * 5^c * 7^d`.
pub open spec fn smooth_product(a: nat, b: nat, c: nat, d: nat) -> int {
    pow(2, a) * (pow(3, b) * (pow(5, c) * pow(7, d)))
}

/// Whether `m` is a product of twos, threes, fives and sevens.
pub open spec fn is_seven_smooth(m: int) -> bool {
    exists|a: nat, b: nat, c: nat, d: nat| m == #[trigger] smooth_product(a, b, c, d)
}

/// Whether `m` is the smallest 7-smooth integer that is not below `n`.
pub open spec fn is_fast_len(n: int, m: int) -> bool {
    &&& n <= m
    &&& is_seven_smooth(m)
    &&& forall|k: int| n <= k < m ==> !#[trigger] is_seven_smooth(k)
}

/// The smallest 7-smooth integer that is not below `n`.
pub open spec fn fast_len(n: int) -> int {
    choose|m: int| is_fast_len(n, m)
}

/// A power is its base times the power below it.
proof fn lemma_pow_step(base: int, e: nat)
    requires
        e > 0,
    ensures
        pow(base, e) == base * pow(base, (e - 1) as nat),
{
    reveal(pow);
}

/// The four one-factor steps of a smooth product.
proof fn lemma_product_steps(a: nat, b: nat, c: nat, d: nat)
    ensures
        smooth_product(a, b, c, d) > 0,
        a > 0 ==> smooth_product(a, b, c, d) == 2 * smooth_product((a - 1) as nat, b, c, d),
        b > 0 ==> smooth_product(a, b, c, d) == 3 * smooth_product(a, (b - 1) as nat, c, d),
        c > 0 ==> smooth_product(a, b, c, d) == 5 * smooth_product(a, b, (c - 1) as nat, d),
        d > 0 ==> smooth_product(a, b, c, d) == 7 * smooth_product(a, b, c, (d - 1) as nat),
        smooth_product(0, 0, 0, 0) == 1,
{
    let w = pow(2, a);
    let x = pow(3, b);
    let y = pow(5, c);
    let z = pow(7, d);
    lemma_pow_positive(2, a);
    lemma_pow_positive(3, b);
    lemma_pow_positive(5, c);
    lemma_pow_positive(7, d);
    assert(w * (x * (y * z)) > 0) by (nonlinear_arith)
        requires
            w > 0,
            x > 0,
            y > 0,
            z > 0,
    ;
    if a > 0 {
        lemma_pow_step(2, a);
        let v = pow(2, (a - 1) as nat);
        assert(w * (x * (y * z)) == 2 * (v * (x * (y * z)))) by (nonlinear_arith)
            requires
                w == 2 * v,
        ;
    }
    if b > 0 {
        lemma_pow_step(3, b);
        let v = pow(3, (b - 1) as nat);
        assert(w * (x * (y * z)) == 3 * (w * (v * (y * z)))) by (nonlinear_arith)
            requires
                x == 3 * v,
        ;
    }
    if c > 0 {
        lemma_pow_step(5, c);
        let v = pow(5, (c - 1) as nat);
        assert(w * (x * (y * z)) == 5 * (w * (x * (v * z)))) by (nonlinear_arith)
            requires
                y == 5 * v,
        ;
    }
    if d > 0 {
        lemma_pow_step(7, d);
        let v = pow(7, (d - 1) as nat);
        assert(w * (x * (y * z)) == 7 * (w * (x * (y * v)))) by (nonlinear_arith)
            requires
                z == 7 * v,
        ;
    }
    lemma_pow0(2);
    lemma_pow0(3);
    lemma_pow0(5);
    lemma_pow0(7);
}

/// Two, three, five and seven are primes: one that divides a product divides a factor.
proof fn lemma_small_prime(p: int, x: int, y: int)
    requires
        p == 2 || p == 3 || p == 5 || p == 7,
        x % p != 0,
        (x * y) % p == 0,
    ensures
        y % p == 0,
{
    let u = x % p;
    let v = y % p;
    lemma_mul_mod_noop(x, y, p);
    assert((u * v) % p == 0);
    assert(1 <= u < 7);
    assert(0 <= v < p);
    if u == 1 {
        assert(u * v == v);
    } else if u == 2 {
        assert(u * v == 2 * v);
    } else if u == 3 {
        assert(u * v == 3 * v);
    } else if u == 4 {
        assert(u * v == 4 * v);
    } else if u == 5 {
        assert(u * v == 5 * v);
    } else {
        assert(u * v == 6 * v);
    }
}

/// If `x * y` is `p` times `z` and the prime `p` does not divide `x`, then `p` comes from `y`.
proof fn lemma_cancel(p: int, x: int, y: int, z: int) -> (w: int)
    requires
        p == 2 || p == 3 || p == 5 || p == 7,
        x % p != 0,
        x * y == p * z,
    ensures
        y == p * w,
        x * w == z,
{
    lemma_mod_multiples_basic(z, p);
    assert(p * z == z * p) by (nonlinear_arith);
    lemma_small_prime(p, x, y);
    let w = y / p;
    lemma_fundamental_div_mod(y, p);
    assert(x * w == z) by (nonlinear_arith)
        requires
            x * y == p * z,
            y == p * w,
            p > 0,
    ;
    w
}

/// A divisor of a smooth product that none of the four primes divides is one.
proof fn lemma_coprime_divisor(rest: int, k: int, a: nat, b: nat, c: nat, d: nat)
    requires
        rest > 0,
        rest % 2 != 0,
        rest % 3 != 0,
        rest % 5 != 0,
        rest % 7 != 0,
        rest * k == smooth_product(a, b, c, d),
    ensures
        rest == 1,
    decreases a + b + c + d,
{
    lemma_product_steps(a, b, c, d);
    if a > 0 {
        let w = lemma_cancel(2, rest, k, smooth_product((a - 1) as nat, b, c, d));
        lemma_coprime_divisor(rest, w, (a - 1) as nat, b, c, d);
    } else if b > 0 {
        let w = lemma_cancel(3, rest, k, smooth_product(a, (b - 1) as nat, c, d));
        lemma_coprime_divisor(rest, w, a, (b - 1) as nat, c, d);
    } else if c > 0 {
        let w = lemma_cancel(5, rest, k, smooth_product(a, b, (c - 1) as nat, d));
        lemma_coprime_divisor(rest, w, a, b, (c - 1) as nat, d);
    } else if d > 0 {
        let w = lemma_cancel(7, rest, k, smooth_product(a, b, c, (d - 1) as nat));
        lemma_coprime_divisor(rest, w, a, b, c, (d - 1) as nat);
    } else {
        assert(rest == 1) by (nonlinear_arith)
            requires
                rest > 0,
                rest * k == 1,
        ;
    }
}

/// What the 7-smooth numbers are: one, and every larger number that two, three, five or seven
/// divides with a quotient that is 7-smooth. No number below one is.
pub proof fn law_smooth_numbers_fall_apart_into_small_primes(m: int)
    ensures
        is_seven_smooth(1),
        m < 1 ==> !is_seven_smooth(m),
        m > 1 ==> (is_seven_smooth(m) <==> {
            ||| m % 2 == 0 && is_seven_smooth(m / 2)
            ||| m % 3 == 0 && is_seven_smooth(m / 3)
            ||| m % 5 == 0 && is_seven_smooth(m / 5)
            ||| m % 7 == 0 && is_seven_smooth(m / 7)
        }),
{
    lemma_product_steps(0, 0, 0, 0);
    assert(smooth_product(0, 0, 0, 0) == 1);
    if is_seven_smooth(m) {
        let (a, b, c, d) = choose|a: nat, b: nat, c: nat, d: nat|
            m == #[trigger] smooth_product(a, b, c, d);
        lemma_product_steps(a, b, c, d);
        if a > 0 {
            assert(m / 2 == smooth_product((a - 1) as nat, b, c, d));
        } else if b > 0 {
            assert(m / 3 == smooth_product(a, (b - 1) as nat, c, d));
        } else if c > 0 {
            assert(m / 5 == smooth_product(a, b, (c - 1) as nat, d));
        } else if d > 0 {
            assert(m / 7 == smooth_product(a, b, c, (d - 1) as nat));
        }
    }
    if m > 1 && m % 2 == 0 && is_seven_smooth(m / 2) {
        let (a, b, c, d) = choose|a: nat, b: nat, c: nat, d: nat|
            m / 2 == #[trigger] smooth_product(a, b, c, d);
        lemma_product_steps(a + 1, b, c, d);
        assert(m == smooth_product(a + 1, b, c, d));
    }
    if m > 1 && m % 3 == 0 && is_seven_smooth(m / 3) {
        let (a, b, c, d) = choose|a: nat, b: nat, c: nat, d: nat|
            m / 3 == #[trigger] smooth_product(a, b, c, d);
        lemma_product_steps(a, b + 1, c, d);
        assert(m == smooth_product(a, b + 1, c, d));
    }
    if m > 1 && m % 5 == 0 && is_seven_smooth(m / 5) {
        let (a, b, c, d) = choose|a: nat, b: nat, c: nat, d: nat|
            m / 5 == #[trigger] smooth_product(a, b, c, d);
        lemma_product_steps(a, b, c + 1, d);
        assert(m == smooth_product(a, b, c + 1, d));
    }
    if m > 1 && m % 7 == 0 && is_seven_smooth(m / 7) {
        let (a, b, c, d) = choose|a: nat, b: nat, c: nat, d: nat|
            m / 7 == #[trigger] smooth_product(a, b, c, d);
        lemma_product_steps(a, b, c, d + 1);
        assert(m == smooth_product(a, b, c, d + 1));
    }
}

/// Some power of two lies in `[n, 2n)`.
proof fn lemma_power_of_two_above(n: int) -> (e: nat)
    requires
        n >= 1,
    ensures
        n <= pow(2, e) < 2 * n,
    decreases n,
{
    if n == 1 {
        lemma_pow0(2);
        0
    } else {
        let below = lemma_power_of_two_above((n + 1) / 2);
        lemma_pow_step(2, below + 1);
        if pow(2, below) >= n {
            below
        } else {
            below + 1
        }
    }
}

/// A power of two is 7-smooth.
proof fn lemma_power_of_two_is_smooth(e: nat)
    ensures
        is_seven_smooth(pow(2, e)),
{
    lemma_pow0(3);
    lemma_pow0(5);
    lemma_pow0(7);
    assert(pow(2, e) * (1 * (1 * 1)) == pow(2, e)) by (nonlinear_arith);
    assert(smooth_product(e, 0, 0, 0) == pow(2, e));
}

/// Among the smooth numbers in `[current, top]` there is a smallest.
proof fn lemma_least_smooth(n: int, current: int, top: int)
    requires
        n <= current <= top,
        is_seven_smooth(top),
        forall|k: int| n <= k < current ==> !#[trigger] is_seven_smooth(k),
    ensures
        exists|m: int| #[trigger] is_fast_len(n, m) && m <= top,
    decreases top - current,
{
    if is_seven_smooth(current) {
        assert(is_fast_len(n, current));
    } else {
        lemma_least_smooth(n, current + 1, top);
    }
}

/// The next 7-smooth length exists, is the only one of its kind, and is less than twice
/// the length asked for.
pub proof fn law_fast_len(n: int)
    requires
        n >= 0,
    ensures
        is_fast_len(n, fast_len(n)),
        forall|m: int| #[trigger] is_fast_len(n, m) ==> m == fast_len(n),
        n <= fast_len(n),
        n >= 1 ==> fast_len(n) < 2 * n,
{
    let base = if n >= 1 {
        n
    } else {
        1
    };
    let e = lemma_power_of_two_above(base);
    lemma_power_of_two_is_smooth(e);
    lemma_least_smooth(n, n, pow(2, e));
    let m = choose|m: int| #[trigger] is_fast_len(n, m) && m <= pow(2, e);
    assert(is_fast_len(n, m));
    let f = fast_len(n);
    assert(is_fast_len(n, f));
    assert forall|o: int| #[trigger] is_fast_len(n, o) implies o == f by {
        assert(!(o < f));
        assert(!(f < o));
    }
}

/// A length that is 7-smooth already stands for itself, so taking the next fast length a
/// second time changes nothing.
pub proof fn law_fast_len_is_idempotent(n: int)
    requires
        n >= 0,
    ensures
        is_seven_smooth(n) ==> fast_len(n) == n,
        fast_len(fast_len(n)) == fast_len(n),
{
    law_fast_len(n);
    law_fast_len(fast_len(n));
    if is_seven_smooth(n) {
        assert(is_fast_len(n, n));
    }
    assert(is_fast_len(fast_len(n), fast_len(n)));
}

/// A longer axis never gets a shorter transform.
pub proof fn law_fast_len_is_monotone(n: int, m: int)
    requires
        0 <= n <= m,
    ensures
        fast_len(n) <= fast_len(m),
{
    law_fast_len(n);
    law_fast_len(m);
    if fast_len(m) < fast_len(n) {
        assert(!is_seven_smooth(fast_len(m)));
    }
}

/// Divides `value` by `p` as often as it goes.
fn strip_factor(value: usize, p: usize) -> (rest: usize)
    requires
        value > 0,
        p >= 2,
    ensures
        rest > 0,
        rest as int % p as int != 0,
        exists|e: nat| value == #[trigger] pow(p as int, e) * rest,
        forall|q: int| q > 0 && #[trigger] (rest as int % q) == 0 ==> value as int % q == 0,
{
    let mut rest: usize = value;
    let ghost mut e: nat = 0;
    proof {
        lemma_pow0(p as int);
    }
    while rest % p == 0
        invariant
            rest > 0,
            p >= 2,
            value == pow(p as int, e) * rest,
        decreases rest,
    {
        let ghost before = rest as int;
        rest = rest / p;
        proof {
            lemma_fundamental_div_mod(before, p as int);
            lemma_pow_step(p as int, e + 1);
            let power = pow(p as int, e);
            assert(rest > 0 && rest < before) by (nonlinear_arith)
                requires
                    before == p * rest,
                    before > 0,
                    p >= 2,
            ;
            assert(power * before == (p * power) * rest) by (nonlinear_arith)
                requires
                    before == p * rest,
            ;
            e = e + 1;
        }
    }
    proof {
        let power = pow(p as int, e);
        assert forall|q: int| q > 0 && #[trigger] (rest as int % q) == 0 implies value as int % q
            == 0 by {
            lemma_fundamental_div_mod(rest as int, q);
            let t = rest as int / q;
            assert(power * rest == (power * t) * q) by (nonlinear_arith)
                requires
                    rest == q * t,
            ;
            lemma_mod_multiples_basic(power * t, q);
        }
    }
    rest
}

/// Tests whether `candidate` has no prime factor above seven.
fn has_only_small_factors(candidate: usize) -> (r: bool)
    requires
        candidate > 0,
    ensures
        r == is_seven_smooth(candidate as int),
{
    let without_twos = strip_factor(candidate, 2);
    let without_threes = strip_factor(without_twos, 3);
    let without_fives = strip_factor(without_threes, 5);
    let rest = strip_factor(without_fives, 7);
    proof {
        let a = choose|e: nat| candidate == #[trigger] pow(2, e) * without_twos;
        let b = choose|e: nat| without_twos == #[trigger] pow(3, e) * without_threes;
        let c = choose|e: nat| without_threes == #[trigger] pow(5, e) * without_fives;
        let d = choose|e: nat| without_fives == #[trigger] pow(7, e) * rest;
        let w = pow(2, a);
        let x = pow(3, b);
        let y = pow(5, c);
        let z = pow(7, d);
        assert(candidate == rest * (w * (x * (y * z)))) by (nonlinear_arith)
            requires
                candidate == w * without_twos,
                without_twos == x * without_threes,
                without_threes == y * without_fives,
                without_fives == z * rest,
        ;
        assert(rest as int % 7 != 0);
        assert(rest as int % 5 != 0);
        assert(without_fives as int % 3 == 0 ==> without_threes as int % 3 == 0);
        assert(rest as int % 3 != 0);
        assert(without_threes as int % 2 == 0 ==> without_twos as int % 2 == 0);
        assert(without_fives as int % 2 == 0 ==> without_threes as int % 2 == 0);
        assert(rest as int % 2 != 0);
        if rest == 1 {
            assert(candidate == smooth_product(a, b, c, d));
        }
        if is_seven_smooth(candidate as int) {
            let (a1, b1, c1, d1) = choose|a1: nat, b1: nat, c1: nat, d1: nat|
                candidate as int == #[trigger] smooth_product(a1, b1, c1, d1);
            lemma_coprime_divisor(rest as int, w * (x * (y * z)), a1, b1, c1, d1);
        }
    }
    rest == 1
}

/// Smallest 7-smooth integer `>= n`, i.e. a length that fast Fourier transforms handle
/// efficiently.
pub fn next_fast_len(n: usize) -> (r: usize)
    requires
        n <= isize::MAX || exists|m: usize| n <= m && #[trigger] is_seven_smooth(m as int),
    ensures
        is_fast_len(n as int, r as int),
        r == fast_len(n as int),
{
    proof {
        law_fast_len(n as int);
        lemma_product_steps(1, 0, 0, 0);
        assert(is_seven_smooth(1));
    }
    let ghost top: int = fast_len(n as int);
    proof {
        if n <= isize::MAX {
            if n == 0 {
                assert(top <= 1);
            }
            assert(top <= usize::MAX);
        } else {
            let m = choose|m: usize| n <= m && #[trigger] is_seven_smooth(m as int);
            assert(top <= m);
        }
        if !(n >= 1) {
            assert(!is_seven_smooth(0)) by {
                if is_seven_smooth(0) {
                    let (a, b, c, d) = choose|a: nat, b: nat, c: nat, d: nat|
                        0int == #[trigger] smooth_product(a, b, c, d);
                    lemma_product_steps(a, b, c, d);
                }
            }
        }
    }
    let mut candidate: usize = if n >= 1 {
        n
    } else {
        1
    };
    while !has_only_small_factors(candidate)
        invariant
            candidate >= 1,
            candidate <= top <= usize::MAX,
            is_seven_smooth(top),
            n <= candidate,
            forall|k: int| n <= k < candidate ==> !#[trigger] is_seven_smooth(k),
        decreases top - candidate,
    {
        candidate = candidate + 1;
    }
    assert(is_fast_len(n as int, candidate as int));
    candidate
}

} // verus!
