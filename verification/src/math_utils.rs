//! Elementary number theory on `u64`: factorial, greatest common divisor and
//! primality.

use vstd::arithmetic::div_mod::{
    lemma_div_is_ordered_by_denominator, lemma_fundamental_div_mod, lemma_mod_multiples_basic,
    lemma_mod_multiples_vanish,
};
use vstd::prelude::*;

verus! {

/// Whether `d` divides `n`. Zero divides only zero.
pub open spec fn divides(d: nat, n: nat) -> bool {
    if d == 0 {
        n == 0
    } else {
        n % d == 0
    }
}

/// Every multiple of `d` is divisible by `d`.
pub proof fn lemma_multiple_is_divisible(d: nat, k: nat)
    ensures
        divides(d, k * d),
{
    if d == 0 {
        assert(k * d == 0) by (nonlinear_arith)
            requires
                d == 0,
        ;
    } else {
        lemma_mod_multiples_basic(k as int, d as int);
    }
}

/// A number divisible by `d > 0` is `d` times its quotient by `d`.
pub proof fn lemma_divisible_is_multiple(d: nat, n: nat)
    requires
        d > 0,
        divides(d, n),
    ensures
        n == (n / d) * d,
{
    lemma_fundamental_div_mod(n as int, d as int);
    assert(d * (n / d) == (n / d) * d) by (nonlinear_arith);
}

/// The product `1 * 2 * ... * n`, with the empty product `0! = 1`.
pub open spec fn factorial_spec(n: nat) -> nat
    decreases n,
{
    if n == 0 {
        1
    } else {
        n * factorial_spec((n - 1) as nat)
    }
}

/// The largest argument whose factorial fits in a `u64`.
pub const MAX_FACTORIAL_ARGUMENT: u64 = 20;

/// The factorials of `0..=21`, the last of them beyond `u64::MAX`.
pub proof fn lemma_factorial_values()
    ensures
        factorial_spec(0) == 1,
        factorial_spec(1) == 1,
        factorial_spec(2) == 2,
        factorial_spec(3) == 6,
        factorial_spec(4) == 24,
        factorial_spec(5) == 120,
        factorial_spec(6) == 720,
        factorial_spec(7) == 5_040,
        factorial_spec(8) == 40_320,
        factorial_spec(9) == 362_880,
        factorial_spec(10) == 3_628_800,
        factorial_spec(11) == 39_916_800,
        factorial_spec(12) == 479_001_600,
        factorial_spec(13) == 6_227_020_800,
        factorial_spec(14) == 87_178_291_200,
        factorial_spec(15) == 1_307_674_368_000,
        factorial_spec(16) == 20_922_789_888_000,
        factorial_spec(17) == 355_687_428_096_000,
        factorial_spec(18) == 6_402_373_705_728_000,
        factorial_spec(19) == 121_645_100_408_832_000,
        factorial_spec(20) == 2_432_902_008_176_640_000,
        factorial_spec(21) == 51_090_942_171_709_440_000,
{
    reveal_with_fuel(factorial_spec, 22);
}

/// The factorial never shrinks as its argument grows.
pub proof fn lemma_factorial_monotonic(i: nat, j: nat)
    requires
        i <= j,
    ensures
        1 <= factorial_spec(i) <= factorial_spec(j),
    decreases j,
{
    if j == 0 {
    } else if i == j {
        lemma_factorial_monotonic(0, (j - 1) as nat);
        assert(factorial_spec(j) >= 1) by (nonlinear_arith)
            requires
                factorial_spec(j) == j * factorial_spec((j - 1) as nat),
                j >= 1,
                factorial_spec((j - 1) as nat) >= 1,
        ;
    } else {
        lemma_factorial_monotonic(i, (j - 1) as nat);
        assert(factorial_spec(j) >= factorial_spec((j - 1) as nat)) by (nonlinear_arith)
            requires
                factorial_spec(j) == j * factorial_spec((j - 1) as nat),
                j >= 1,
                factorial_spec((j - 1) as nat) >= 1,
        ;
    }
}

/// A factorial fits in a `u64` exactly when its argument is at most
/// [`MAX_FACTORIAL_ARGUMENT`].
pub proof fn lemma_factorial_fits(n: nat)
    ensures
        factorial_spec(n) <= u64::MAX <==> n <= MAX_FACTORIAL_ARGUMENT,
{
    lemma_factorial_values();
    if n <= 20 {
        lemma_factorial_monotonic(n, 20);
    } else {
        lemma_factorial_monotonic(21, n);
    }
}

/// Computes `n!`, or `None` when the product does not fit in a `u64`.
pub fn factorial(n: u64) -> (result: Option<u64>)
    ensures
        n <= MAX_FACTORIAL_ARGUMENT ==> result == Some(factorial_spec(n as nat) as u64),
        n > MAX_FACTORIAL_ARGUMENT ==> result is None,
        result is Some <==> factorial_spec(n as nat) <= u64::MAX,
{
    proof {
        lemma_factorial_fits(n as nat);
    }
    if n > MAX_FACTORIAL_ARGUMENT {
        return None;
    }
    let mut result: u64 = 1;
    let mut i: u64 = 1;
    assert(factorial_spec(0) == 1 && factorial_spec(1) == 1) by {
        lemma_factorial_values();
    }
    while i < n
        invariant
            n <= MAX_FACTORIAL_ARGUMENT,
            1 <= i,
            i <= n || (n == 0 && i == 1),
            result == factorial_spec(i as nat),
        decreases n - i,
    {
        i = i + 1;
        proof {
            lemma_factorial_fits(i as nat);
            assert(result * i == factorial_spec(i as nat)) by (nonlinear_arith)
                requires
                    result == factorial_spec((i - 1) as nat),
                    factorial_spec(i as nat) == i * factorial_spec((i - 1) as nat),
            ;
        }
        match result.checked_mul(i) {
            Some(product) => {
                result = product;
            },
            None => {
                return None;
            },
        }
    }
    assert(factorial_spec(0) == factorial_spec(1)) by {
        lemma_factorial_values();
    }
    Some(result)
}

/// Whether `d` divides both `a` and `b`.
pub open spec fn is_common_divisor(d: nat, a: nat, b: nat) -> bool {
    divides(d, a) && divides(d, b)
}

/// Whether `g` is the greatest common divisor of `a` and `b`: a common
/// divisor that every common divisor divides. Of 0 and 0 this is 0.
pub open spec fn is_gcd(g: nat, a: nat, b: nat) -> bool {
    is_common_divisor(g, a, b) && forall|d: nat| #[trigger]
        is_common_divisor(d, a, b) ==> divides(d, g)
}

/// The value that Euclid's algorithm reaches from `a` and `b`.
pub open spec fn gcd_spec(a: nat, b: nat) -> nat
    decreases b,
{
    if b == 0 {
        a
    } else {
        gcd_spec(b, a % b)
    }
}

/// A divisor of `b` divides `a` exactly when it divides `a % b`.
proof fn lemma_divides_remainder(d: nat, a: nat, b: nat)
    requires
        b > 0,
        divides(d, b),
    ensures
        divides(d, a) <==> divides(d, a % b),
{
    lemma_divisible_is_multiple(d, b);
    lemma_fundamental_div_mod(a as int, b as int);
    let k = (a / b) * (b / d);
    assert(a == d * k + a % b) by (nonlinear_arith)
        requires
            a == b * (a / b) + a % b,
            b == (b / d) * d,
            k == (a / b) * (b / d),
    ;
    lemma_mod_multiples_vanish(k as int, (a % b) as int, d as int);
}

/// Two numbers that divide each other are equal.
proof fn lemma_divides_antisymmetric(x: nat, y: nat)
    requires
        divides(x, y),
        divides(y, x),
    ensures
        x == y,
{
    if x != 0 && y != 0 {
        lemma_divisible_is_multiple(x, y);
        lemma_divisible_is_multiple(y, x);
        let p = y / x;
        let q = x / y;
        assert(x == y) by (nonlinear_arith)
            requires
                y == p * x,
                x == q * y,
                x > 0,
                y > 0,
        ;
    }
}

/// Euclid's algorithm reaches the greatest common divisor.
pub proof fn lemma_gcd_spec_is_gcd(a: nat, b: nat)
    ensures
        is_gcd(gcd_spec(a, b), a, b),
    decreases b,
{
    let g = gcd_spec(a, b);
    if b == 0 {
        if a > 0 {
            lemma_multiple_is_divisible(a, 1);
        }
    } else {
        lemma_gcd_spec_is_gcd(b, a % b);
        lemma_divides_remainder(g, a, b);
        assert forall|d: nat| #[trigger] is_common_divisor(d, a, b) implies divides(d, g) by {
            lemma_divides_remainder(d, a, b);
            assert(is_common_divisor(d, b, a % b));
        }
    }
}

/// Two numbers have only one greatest common divisor.
pub proof fn lemma_gcd_unique(g: nat, h: nat, a: nat, b: nat)
    requires
        is_gcd(g, a, b),
        is_gcd(h, a, b),
    ensures
        g == h,
{
    assert(is_common_divisor(g, a, b));
    assert(is_common_divisor(h, a, b));
    lemma_divides_antisymmetric(g, h);
}

/// Unless both numbers are zero, no common divisor exceeds the greatest
/// common divisor, which is then positive.
pub proof fn lemma_gcd_is_greatest(d: nat, a: nat, b: nat)
    requires
        a != 0 || b != 0,
        is_common_divisor(d, a, b),
    ensures
        0 < d <= gcd_spec(a, b),
{
    let g = gcd_spec(a, b);
    lemma_gcd_spec_is_gcd(a, b);
    assert(divides(d, g));
    assert(g != 0);
    lemma_divisible_is_multiple(d, g);
    let q = g / d;
    assert(d <= g) by (nonlinear_arith)
        requires
            g == q * d,
            g > 0,
            d > 0,
    ;
}

/// The greatest common divisor does not depend on the order of its
/// arguments.
pub proof fn lemma_gcd_commutative(a: nat, b: nat)
    ensures
        gcd_spec(a, b) == gcd_spec(b, a),
{
    lemma_gcd_spec_is_gcd(a, b);
    lemma_gcd_spec_is_gcd(b, a);
    let g = gcd_spec(a, b);
    let h = gcd_spec(b, a);
    assert(is_common_divisor(h, a, b));
    assert(is_common_divisor(g, b, a));
    lemma_divides_antisymmetric(g, h);
}

/// Zero is neutral: the greatest common divisor of `a` and 0, in either
/// order, is `a`; that of 0 and 0 is 0.
pub proof fn lemma_gcd_with_zero(a: nat)
    ensures
        gcd_spec(a, 0) == a,
        gcd_spec(0, a) == a,
        gcd_spec(0, 0) == 0,
{
    lemma_gcd_commutative(0, a);
}

/// Computes the greatest common divisor of `a` and `b` by Euclid's
/// algorithm.
pub fn gcd(a: u64, b: u64) -> (result: u64)
    ensures
        result == gcd_spec(a as nat, b as nat),
        is_gcd(result as nat, a as nat, b as nat),
{
    let mut x: u64 = a;
    let mut y: u64 = b;
    while y != 0
        invariant
            gcd_spec(x as nat, y as nat) == gcd_spec(a as nat, b as nat),
        decreases y,
    {
        let remainder: u64 = x % y;
        x = y;
        y = remainder;
    }
    proof {
        lemma_gcd_spec_is_gcd(a as nat, b as nat);
    }
    x
}

/// A number is prime when it is at least 2 and no number strictly between 1
/// and itself divides it.
pub open spec fn is_prime_spec(n: nat) -> bool {
    n >= 2 && forall|d: nat| 2 <= d < n ==> !#[trigger] divides(d, n)
}

/// An even number divides no odd number.
proof fn lemma_even_divides_no_odd(d: nat, n: nat)
    requires
        d > 0,
        d % 2 == 0,
        n % 2 == 1,
    ensures
        !divides(d, n),
{
    if divides(d, n) {
        lemma_divisible_is_multiple(d, n);
        lemma_fundamental_div_mod(d as int, 2);
        let half = d / 2;
        let q = n / d;
        assert(n == (q * half) * 2) by (nonlinear_arith)
            requires
                n == q * d,
                d == 2 * half,
        ;
        lemma_mod_multiples_basic((q * half) as int, 2);
    }
}

/// The cofactor of a proper divisor `d` of `n` is itself a divisor of `n`,
/// lies in `2..n`, and shrinks as `d` grows.
proof fn lemma_cofactor(d: nat, n: nat)
    requires
        2 <= d < n,
        divides(d, n),
    ensures
        2 <= n / d < n,
        divides(n / d, n),
        n == (n / d) * d,
{
    lemma_divisible_is_multiple(d, n);
    let q = n / d;
    assert(2 <= q < n) by (nonlinear_arith)
        requires
            n == q * d,
            2 <= d < n,
    ;
    assert(n == d * q) by (nonlinear_arith)
        requires
            n == q * d,
    ;
    lemma_multiple_is_divisible(q, d);
}

/// If nothing in `2..bound` divides `n` and `bound` exceeds `n / bound`,
/// then `n` is prime: a divisor at or above `bound` would have a cofactor
/// below it.
proof fn lemma_trial_division_complete(n: nat, bound: nat)
    requires
        n >= 2,
        bound >= 2,
        bound > n / bound,
        forall|d: nat| 2 <= d < bound ==> !#[trigger] divides(d, n),
    ensures
        is_prime_spec(n),
{
    assert forall|d: nat| 2 <= d < n implies !#[trigger] divides(d, n) by {
        if d >= bound && divides(d, n) {
            lemma_cofactor(d, n);
            lemma_div_is_ordered_by_denominator(n as int, bound as int, d as int);
            assert(!divides(n / d, n));
        }
    }
}

/// Decides primality by trial division: after ruling out the numbers below
/// 2 and the even numbers above it, tries each odd divisor `i` from 3 for as
/// long as `i * i <= n`.
pub fn is_prime(n: u64) -> (result: bool)
    ensures
        result == is_prime_spec(n as nat),
{
    if n < 2 {
        return false;
    }
    if n == 2 {
        return true;
    }
    if n % 2 == 0 {
        assert(divides(2, n as nat));
        return false;
    }
    let mut i: u64 = 3;
    while i <= n / i
        invariant
            n >= 3,
            n % 2 == 1,
            3 <= i <= 0x1_0000_0001,
            i % 2 == 1,
            forall|d: nat| 2 <= d < i ==> !#[trigger] divides(d, n as nat),
        decreases 0x1_0000_0001 - i,
    {
        proof {
            if i >= 0x1_0000_0000 {
                lemma_div_is_ordered_by_denominator(n as int, 0x1_0000_0000, i as int);
            }
            lemma_fundamental_div_mod(n as int, i as int);
            assert(n >= 3 * i) by (nonlinear_arith)
                requires
                    n == i * (n / i) + (n % i),
                    n / i >= i,
                    i >= 3,
                    n % i >= 0,
            ;
        }
        if n % i == 0 {
            assert(divides(i as nat, n as nat));
            return false;
        }
        proof {
            lemma_even_divides_no_odd((i + 1) as nat, n as nat);
        }
        i = i + 2;
    }
    proof {
        lemma_trial_division_complete(n as nat, i as nat);
    }
    true
}

} // verus!
