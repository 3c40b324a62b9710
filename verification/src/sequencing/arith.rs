//! Greatest common divisors and least common multiples of natural numbers.

use vstd::arithmetic::div_mod::{
    lemma_fundamental_div_mod, lemma_mod_multiples_basic,
};
use vstd::prelude::*;

verus! {

/// The greatest common divisor, by Euclid's recursion. `gcd(a, 0)` is `a`.
pub open spec fn gcd(a: nat, b: nat) -> nat
    decreases b,
{
    if b == 0 {
        a
    } else {
        gcd(b, a % b)
    }
}

/// The least common multiple of two numbers; zero if either is zero.
pub open spec fn lcm(a: nat, b: nat) -> nat {
    if a == 0 || b == 0 {
        0
    } else {
        (a / gcd(a, b)) * b
    }
}

/// A number with a zero remainder is its divisor times the quotient.
pub proof fn lemma_multiple_has_quotient(n: nat, d: nat)
    requires
        d > 0,
        n % d == 0,
    ensures
        n == d * (n / d),
        n / d >= 0,
{
    lemma_fundamental_div_mod(n as int, d as int);
}

/// A product with `d` leaves no remainder on division by `d`.
pub proof fn lemma_product_is_multiple(k: int, d: nat, n: nat)
    requires
        d > 0,
        n == k * d,
    ensures
        n % d == 0,
{
    lemma_mod_multiples_basic(k, d as int);
}

/// The greatest common divisor of two numbers, not both zero, is positive.
pub proof fn lemma_gcd_positive(a: nat, b: nat)
    requires
        a > 0 || b > 0,
    ensures
        gcd(a, b) > 0,
    decreases b,
{
    if b != 0 {
        lemma_gcd_positive(b, a % b);
    }
}

/// The greatest common divisor divides both numbers.
pub proof fn lemma_gcd_divides(a: nat, b: nat)
    requires
        a > 0 || b > 0,
    ensures
        a % gcd(a, b) == 0,
        b % gcd(a, b) == 0,
    decreases b,
{
    let g = gcd(a, b);
    lemma_gcd_positive(a, b);
    if b != 0 {
        let r = a % b;
        lemma_gcd_divides(b, r);
        lemma_multiple_has_quotient(b, g);
        lemma_multiple_has_quotient(r, g);
        lemma_fundamental_div_mod(a as int, b as int);
        let kb = (b / g) as int;
        let kr = (r / g) as int;
        let q = (a / b) as int;
        assert(a == (kb * q + kr) * g) by (nonlinear_arith)
            requires
                a == b * q + r,
                b == g * kb,
                r == g * kr,
        ;
        lemma_product_is_multiple(kb * q + kr, g, a);
    }
}

/// Bezout's identity: the greatest common divisor is an integer combination
/// of the two numbers.
pub proof fn lemma_gcd_bezout(a: nat, b: nat) -> (c: (int, int))
    ensures
        gcd(a, b) == c.0 * a + c.1 * b,
    decreases b,
{
    if b == 0 {
        (1, 0)
    } else {
        let r = a % b;
        let q = (a / b) as int;
        let (x, y) = lemma_gcd_bezout(b, r);
        lemma_fundamental_div_mod(a as int, b as int);
        assert(x * b + y * r == y * a + (x - y * q) * b) by (nonlinear_arith)
            requires
                a == b * q + r,
        ;
        (y, x - y * q)
    }
}

/// The least common multiple of two positive numbers is positive and a
/// multiple of each.
pub proof fn lemma_lcm_is_common_multiple(a: nat, b: nat)
    requires
        a > 0,
        b > 0,
    ensures
        lcm(a, b) > 0,
        lcm(a, b) % a == 0,
        lcm(a, b) % b == 0,
        lcm(a, b) >= a,
        lcm(a, b) >= b,
{
    let g = gcd(a, b);
    lemma_gcd_positive(a, b);
    lemma_gcd_divides(a, b);
    lemma_multiple_has_quotient(a, g);
    lemma_multiple_has_quotient(b, g);
    let ka = (a / g) as int;
    let kb = (b / g) as int;
    let m = lcm(a, b);
    assert(ka > 0 && kb > 0) by (nonlinear_arith)
        requires
            a == g * ka,
            b == g * kb,
            a > 0,
            b > 0,
            g > 0,
            ka >= 0,
            kb >= 0,
    ;
    assert(m == kb * a && m >= a && m >= b && m > 0) by (nonlinear_arith)
        requires
            m == ka * b,
            a == g * ka,
            b == g * kb,
            ka > 0,
            kb > 0,
            a > 0,
            b > 0,
    ;
    lemma_product_is_multiple(ka, b, m);
    lemma_product_is_multiple(kb, a, m);
}

/// Every common multiple of two positive numbers is a multiple of their
/// least common multiple.
pub proof fn lemma_lcm_divides_common_multiples(a: nat, b: nat, m: nat)
    requires
        a > 0,
        b > 0,
        m % a == 0,
        m % b == 0,
    ensures
        m % lcm(a, b) == 0,
        m > 0 ==> lcm(a, b) <= m,
{
    let g = gcd(a, b);
    let l = lcm(a, b);
    lemma_gcd_positive(a, b);
    lemma_gcd_divides(a, b);
    lemma_lcm_is_common_multiple(a, b);
    lemma_multiple_has_quotient(a, g);
    lemma_multiple_has_quotient(m, a);
    lemma_multiple_has_quotient(m, b);
    let (x, y) = lemma_gcd_bezout(a, b);
    let ka = (a / g) as int;
    let s = (m / a) as int;
    let t = (m / b) as int;
    let k = x * t + y * s;
    assert(m * g == g * (l * k)) by (nonlinear_arith)
        requires
            g == x * a + y * b,
            m == a * s,
            m == b * t,
            a == g * ka,
            l == ka * b,
            k == x * t + y * s,
    ;
    assert(m == l * k) by (nonlinear_arith)
        requires
            m * g == g * (l * k),
            g > 0,
    ;
    lemma_product_is_multiple(k, l, m);
    if m > 0 {
        vstd::arithmetic::div_mod::lemma_mod_is_zero(m, l);
    }
}

/// Divisibility is transitive.
pub proof fn lemma_multiple_of_multiple(n: nat, m: nat, d: nat)
    requires
        m > 0,
        d > 0,
        n % m == 0,
        m % d == 0,
    ensures
        n % d == 0,
{
    lemma_multiple_has_quotient(n, m);
    let kn = (n / m) as int;
    let km = (m / d) as int;
    assert(n == (kn * km) * d) by (nonlinear_arith)
        requires
            n == m * kn,
            m == d * km,
    ;
    lemma_product_is_multiple(kn * km, d, n);
}

/// The least common multiple with a number that is zero or beyond a bound
/// is itself zero or beyond that bound.
pub proof fn lemma_lcm_stays_out_of_range(a: nat, b: nat, bound: nat)
    requires
        a == 0 || a > bound || b == 0 || b > bound,
    ensures
        lcm(a, b) == 0 || lcm(a, b) > bound,
{
    if a > 0 && b > 0 {
        lemma_lcm_is_common_multiple(a, b);
    }
}

/// The least common multiple does not depend on the order of its numbers.
pub proof fn lemma_lcm_is_commutative(a: nat, b: nat)
    ensures
        lcm(a, b) == lcm(b, a),
{
    if a > 0 && b > 0 {
        lemma_lcm_is_common_multiple(a, b);
        lemma_lcm_is_common_multiple(b, a);
        lemma_lcm_divides_common_multiples(a, b, lcm(b, a));
        lemma_lcm_divides_common_multiples(b, a, lcm(a, b));
    }
}

/// The least common multiple of three numbers does not depend on which two
/// of them are taken first.
pub proof fn lemma_lcm_is_associative(a: nat, b: nat, c: nat)
    ensures
        lcm(lcm(a, b), c) == lcm(a, lcm(b, c)),
{
    if a > 0 && b > 0 && c > 0 {
        let ab = lcm(a, b);
        let bc = lcm(b, c);
        let left = lcm(ab, c);
        let right = lcm(a, bc);
        lemma_lcm_is_common_multiple(a, b);
        lemma_lcm_is_common_multiple(b, c);
        lemma_lcm_is_common_multiple(ab, c);
        lemma_lcm_is_common_multiple(a, bc);
        lemma_multiple_of_multiple(left, ab, a);
        lemma_multiple_of_multiple(left, ab, b);
        lemma_multiple_of_multiple(right, bc, b);
        lemma_multiple_of_multiple(right, bc, c);
        lemma_lcm_divides_common_multiples(b, c, left);
        lemma_lcm_divides_common_multiples(a, bc, left);
        lemma_lcm_divides_common_multiples(a, b, right);
        lemma_lcm_divides_common_multiples(ab, c, right);
    }
}

/// The least common multiple of 1 and a number is the number.
pub proof fn lemma_lcm_with_one(a: nat)
    ensures
        lcm(1, a) == a,
        lcm(a, 1) == a,
{
    if a > 0 {
        lemma_lcm_is_common_multiple(1, a);
        lemma_lcm_divides_common_multiples(1, a, a);
        lemma_lcm_is_commutative(1, a);
    }
}

/// Computes the greatest common divisor of two numbers.
pub fn compute_gcd(a: u32, b: u32) -> (g: u32)
    ensures
        g == gcd(a as nat, b as nat),
{
    let mut x: u32 = a;
    let mut y: u32 = b;
    while y != 0
        invariant
            gcd(x as nat, y as nat) == gcd(a as nat, b as nat),
        decreases y,
    {
        let r: u32 = x % y;
        x = y;
        y = r;
    }
    x
}

/// Computes the least common multiple of two numbers, or `None` where it
/// does not fit in 32 bits.
pub fn checked_lcm(a: u32, b: u32) -> (m: Option<u32>)
    ensures
        match m {
            Some(value) => value == lcm(a as nat, b as nat),
            None => lcm(a as nat, b as nat) > u32::MAX,
        },
{
    if a == 0 || b == 0 {
        return Some(0);
    }
    let g = compute_gcd(a, b);
    proof {
        lemma_gcd_positive(a as nat, b as nat);
    }
    let q: u32 = a / g;
    assert(q as u64 * b as u64 <= 0xffff_ffff * 0xffff_ffff) by (nonlinear_arith)
        requires
            q <= 0xffff_ffff,
            b <= 0xffff_ffff,
    ;
    let product: u64 = (q as u64) * (b as u64);
    if product > u32::MAX as u64 {
        None
    } else {
        Some(product as u32)
    }
}

} // verus!
