//! Integer arithmetic that the token bucket needs: common multiples, and products
//! that are wider than a machine integer.

use vstd::prelude::*;

verus! {

/// Two integers below a common bound multiply to less than the bound's square.
pub(crate) proof fn lemma_product_bound(a: int, b: int, bound: int)
    requires
        0 <= a <= bound,
        0 <= b <= bound,
    ensures
        0 <= a * b <= bound * bound,
{
    assert(0 <= a * b <= bound * bound) by (nonlinear_arith)
        requires
            0 <= a <= bound,
            0 <= b <= bound,
    ;
}

/// A quotient and a remainder in range are the Euclidean ones.
pub(crate) proof fn lemma_quotient(n: int, d: int, q: int, r: int)
    requires
        n == q * d + r,
        0 <= r < d,
    ensures
        n / d == q,
        n % d == r,
{
    vstd::arithmetic::div_mod::lemma_fundamental_div_mod_converse(n, d, q, r);
}

/// The greatest common divisor, by Euclid's rule.
pub open spec fn gcd(a: nat, b: nat) -> nat
    decreases b,
{
    if b == 0 {
        a
    } else {
        gcd(b, a % b)
    }
}

/// The least common multiple.
pub open spec fn lcm(a: nat, b: nat) -> nat {
    a / gcd(a, b) * b
}

/// The greatest common divisor divides both numbers.
pub proof fn lemma_gcd_divides(a: nat, b: nat)
    requires
        a > 0,
    ensures
        gcd(a, b) > 0,
        a == gcd(a, b) * (a / gcd(a, b)),
        b == gcd(a, b) * (b / gcd(a, b)),
        a / gcd(a, b) >= 1,
    decreases b,
{
    let g = gcd(a, b) as int;
    if b == 0 {
        lemma_quotient(a as int, g, 1, 0);
        lemma_quotient(0, g, 0, 0);
        assert(g * 1 == g && g * 0 == 0) by (nonlinear_arith);
    } else {
        let r = a % b;
        lemma_gcd_divides(b, r);
        let p = b as int / g;
        let q = r as int / g;
        let n = a as int / b as int;
        vstd::arithmetic::div_mod::lemma_fundamental_div_mod(a as int, b as int);
        assert(a == (p * n + q) * g) by (nonlinear_arith)
            requires
                a == b * n + r,
                b == g * p,
                r == g * q,
        ;
        lemma_quotient(a as int, g, p * n + q, 0);
        assert(g * (p * n + q) == (p * n + q) * g) by (nonlinear_arith);
        assert(a as int / g >= 1) by (nonlinear_arith)
            requires
                a == g * (a as int / g),
                a > 0,
                g > 0,
        ;
    }
}

/// The least common multiple is a multiple of both numbers.
pub proof fn lemma_lcm_is_multiple(a: nat, b: nat)
    requires
        a > 0,
        b > 0,
    ensures
        lcm(a, b) == (a / gcd(a, b)) * b,
        lcm(a, b) == (b / gcd(a, b)) * a,
        a / gcd(a, b) >= 1,
        lcm(a, b) >= b,
{
    lemma_gcd_divides(a, b);
    let g = gcd(a, b);
    assert((a / g) * b == (b / g) * a) by (nonlinear_arith)
        requires
            a == g * (a / g),
            b == g * (b / g),
    ;
    assert((a / g) * b >= b) by (nonlinear_arith)
        requires
            a / g >= 1,
    ;
}

/// A number that is a multiple of another is their least common multiple.
pub proof fn lemma_lcm_of_multiple(n: nat, b: nat)
    requires
        n > 0,
        b > 0,
    ensures
        lcm(n * b, b) == n * b,
{
    lemma_quotient((n * b) as int, b as int, n as int, 0);
    reveal_with_fuel(gcd, 3);
    assert(gcd(n * b, b) == b);
}

/// Computes the greatest common divisor.
pub(crate) fn greatest_common_divisor(a: u64, b: u64) -> (divisor: u64)
    requires
        a > 0,
    ensures
        divisor == gcd(a as nat, b as nat),
        divisor > 0,
{
    let mut x: u64 = a;
    let mut y: u64 = b;
    while y > 0
        invariant
            x > 0,
            gcd(x as nat, y as nat) == gcd(a as nat, b as nat),
        decreases y,
    {
        let rest: u64 = x % y;
        x = y;
        y = rest;
    }
    x
}

/// `a * b` divided by `d`: the quotient and the remainder, though the product
/// itself may not fit in 128 bits.
pub(crate) fn mul_div_rem(a: u128, b: u128, d: u128) -> (res: (u128, u128))
    requires
        a < d,
        d <= 0x1_0000_0000_0000_0000_0000_0000,
        b <= 0x1_0000_0000_0000_0000_0000_0000,
    ensures
        res.0 * d + res.1 == a * b,
        res.1 < d,
        res.0 <= b,
    decreases b,
{
    if b == 0 {
        assert(0 * d + 0 == a * 0) by (nonlinear_arith);
        return (0, 0);
    }
    let (q, r) = mul_div_rem(a, b / 2, d);
    let extra: u128 = if b % 2 == 1 {
        a
    } else {
        0
    };
    let mut quotient: u128 = 2 * q;
    let mut rest: u128 = 2 * r + extra;
    proof {
        assert(b == 2 * (b / 2) + b % 2);
        assert(quotient * d + rest == a * b) by (nonlinear_arith)
            requires
                q * d + r == a * (b / 2),
                b == 2 * (b / 2) + b % 2,
                b % 2 == 1 || b % 2 == 0,
                extra == (if b % 2 == 1 {
                    a as int
                } else {
                    0
                }),
                quotient == 2 * q,
                rest == 2 * r + extra,
        ;
    }
    if rest >= d {
        assert((quotient + 1) * d == quotient * d + d) by (nonlinear_arith);
        rest = rest - d;
        quotient = quotient + 1;
    }
    if rest >= d {
        assert((quotient + 1) * d == quotient * d + d) by (nonlinear_arith);
        rest = rest - d;
        quotient = quotient + 1;
    }
    assert(quotient <= b) by (nonlinear_arith)
        requires
            quotient * d + rest == a * b,
            0 <= rest,
            a < d,
            0 <= b,
            0 <= quotient,
    ;
    (quotient, rest)
}

} // verus!
