//! Greatest common divisors: the definition by Euclid's recursion, the facts
//! about it that lowest-terms fractions rest on, and the loop that computes it.

use vstd::arithmetic::div_mod::{
    lemma_fundamental_div_mod,
    lemma_mod_multiples_basic,
    lemma_small_mod,
    lemma_truncate_middle,
};
use vstd::prelude::*;

verus! {

/// The greatest common divisor of `a` and `b`, with `gcd(0, 0) == 0`.
pub open spec fn gcd(a: nat, b: nat) -> nat
    decreases b,
{
    if b == 0 {
        a
    } else {
        gcd(b, a % b)
    }
}

/// `k` divides `a`.
pub open spec fn divides(k: nat, a: nat) -> bool {
    k > 0 && a % k == 0
}

/// A multiple of `k` is divisible by `k`.
pub proof fn lemma_multiple_divides(k: nat, m: int)
    requires
        k > 0,
        m >= 0,
    ensures
        divides(k, (k * m) as nat),
{
    assert(k * m >= 0) by (nonlinear_arith)
        requires
            k > 0,
            m >= 0,
    ;
    lemma_mod_multiples_basic(m, k as int);
    assert(k * m == m * k) by (nonlinear_arith);
}

/// What `k` divides is `k` times its quotient.
pub proof fn lemma_divides_quotient(k: nat, a: nat)
    requires
        divides(k, a),
    ensures
        a == k * (a / k),
        a / k >= 0,
{
    lemma_fundamental_div_mod(a as int, k as int);
}

/// The gcd is positive unless both arguments are zero, and divides both.
pub proof fn lemma_gcd_divides(a: nat, b: nat)
    requires
        a > 0 || b > 0,
    ensures
        gcd(a, b) > 0,
        divides(gcd(a, b), a),
        divides(gcd(a, b), b),
    decreases b,
{
    if b == 0 {
        assert(a % a == 0) by (nonlinear_arith)
            requires
                a > 0,
        ;
        assert(0nat % a == 0) by (nonlinear_arith)
            requires
                a > 0,
        ;
    } else {
        let r = a % b;
        lemma_gcd_divides(b, r);
        let g = gcd(b, r);
        lemma_divides_quotient(g, b);
        lemma_divides_quotient(g, r);
        lemma_fundamental_div_mod(a as int, b as int);
        let m: int = ((b / g) * (a / b) + r / g) as int;
        assert(a == g * m) by (nonlinear_arith)
            requires
                a == b * (a / b) + r,
                b == g * (b / g),
                r == g * (r / g),
                m == (b / g) * (a / b) + r / g,
        ;
        assert(m >= 0) by (nonlinear_arith)
            requires
                a == g * m,
                g > 0,
                a >= 0,
        ;
        lemma_multiple_divides(g, m);
    }
}

/// Every common divisor of `a` and `b` divides their gcd.
pub proof fn lemma_common_divisor(a: nat, b: nat, k: nat)
    requires
        divides(k, a),
        divides(k, b),
    ensures
        divides(k, gcd(a, b)),
    decreases b,
{
    if b != 0 {
        let r = a % b;
        lemma_divides_quotient(k, a);
        lemma_divides_quotient(k, b);
        lemma_fundamental_div_mod(a as int, b as int);
        let m: int = (a / k) as int - ((b / k) * (a / b)) as int;
        assert(r == k * m) by (nonlinear_arith)
            requires
                a == b * (a / b) + r,
                a == k * (a / k),
                b == k * (b / k),
                m == a / k - (b / k) * (a / b),
        ;
        assert(m >= 0) by (nonlinear_arith)
            requires
                r == k * m,
                k > 0,
                r >= 0,
        ;
        lemma_multiple_divides(k, m);
        lemma_common_divisor(b, r, k);
    }
}

/// A common factor moves out of the gcd.
pub proof fn lemma_gcd_scale(a: nat, b: nat, c: nat)
    requires
        c > 0,
    ensures
        gcd(c * a, c * b) == c * gcd(a, b),
    decreases b,
{
    if b == 0 {
        assert(c * b == 0) by (nonlinear_arith)
            requires
                b == 0,
        ;
    } else {
        assert(c * b > 0) by (nonlinear_arith)
            requires
                b > 0,
                c > 0,
        ;
        lemma_truncate_middle(a as int, c as int, b as int);
        assert((c * a) % (c * b) == c * (a % b));
        lemma_gcd_scale(b, a % b, c);
    }
}

/// The gcd does not depend on the order of its arguments.
pub proof fn lemma_gcd_symmetric(a: nat, b: nat)
    ensures
        gcd(a, b) == gcd(b, a),
{
    if a < b {
        lemma_small_mod(a, b);
        assert(gcd(a, b) == gcd(b, a % b));
    } else if b < a {
        lemma_small_mod(b, a);
        assert(gcd(b, a) == gcd(a, b % a));
    }
}

/// Dividing both arguments by their gcd leaves them coprime.
pub proof fn lemma_gcd_reduced(a: nat, b: nat)
    requires
        a > 0 || b > 0,
    ensures
        gcd(a / gcd(a, b), b / gcd(a, b)) == 1,
{
    let g = gcd(a, b);
    lemma_gcd_divides(a, b);
    lemma_divides_quotient(g, a);
    lemma_divides_quotient(g, b);
    let x = a / g;
    let y = b / g;
    lemma_gcd_scale(x, y, g);
    assert(g * gcd(x, y) == g);
    assert(gcd(x, y) == 1) by (nonlinear_arith)
        requires
            g * gcd(x, y) == g,
            g > 0,
    ;
}

/// Euclid's lemma: what is coprime to `b` and divides `b * c` divides `c`.
pub proof fn lemma_coprime_divides(a: nat, b: nat, c: nat)
    requires
        gcd(a, b) == 1,
        divides(a, b * c),
    ensures
        divides(a, c),
{
    if c == 0 {
        assert(0nat % a == 0) by (nonlinear_arith)
            requires
                a > 0,
        ;
    } else {
        lemma_gcd_scale(a, b, c);
        assert(c * gcd(a, b) == c) by (nonlinear_arith)
            requires
                gcd(a, b) == 1,
        ;
        assert(c * a == a * c) by (nonlinear_arith);
        assert(c * b == b * c) by (nonlinear_arith);
        lemma_multiple_divides(a, c as int);
        lemma_common_divisor(c * a, c * b, a);
    }
}

/// Computes the gcd by Euclid's algorithm.
pub fn compute_gcd(a: u128, b: u128) -> (g: u128)
    ensures
        g == gcd(a as nat, b as nat),
{
    let mut x: u128 = a;
    let mut y: u128 = b;
    while y != 0
        invariant
            gcd(x as nat, y as nat) == gcd(a as nat, b as nat),
        decreases y,
    {
        let r: u128 = x % y;
        x = y;
        y = r;
    }
    x
}

} // verus!
