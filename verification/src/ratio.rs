//! Exact rational numbers in lowest terms, with 64-bit numerator and
//! denominator. Every operation either returns the exact result or reports
//! that no such fraction can hold it.

use crate::gcd::{
    compute_gcd,
    divides,
    gcd,
    lemma_coprime_divides,
    lemma_divides_quotient,
    lemma_gcd_divides,
    lemma_gcd_reduced,
    lemma_gcd_symmetric,
    lemma_multiple_divides,
};
use vstd::arithmetic::div_mod::{lemma_fundamental_div_mod, lemma_fundamental_div_mod_converse};
use vstd::prelude::*;

verus! {

/// The largest magnitude of a numerator, and the largest denominator.
pub const LIMIT: i64 = 0x7fff_ffff_ffff_ffff;

/// The real number `n / d`.
pub open spec fn quotient(n: int, d: int) -> real {
    (n as real) / (d as real)
}

/// The magnitude of `n`.
pub open spec fn magnitude(n: int) -> nat {
    if n < 0 {
        (-n) as nat
    } else {
        n as nat
    }
}

/// The magnitude of `x`.
pub open spec fn absolute(x: real) -> real {
    if x < 0real {
        -x
    } else {
        x
    }
}

/// `n / d` is a fraction that a [`Ratio`] may hold, not necessarily in lowest terms.
pub open spec fn in_range(n: int, d: int) -> bool {
    -LIMIT <= n <= LIMIT && 0 < d <= LIMIT
}

/// Some fraction within the limits has the value `x`.
pub open spec fn representable(x: real) -> bool {
    exists|n: int, d: int| in_range(n, d) && x == quotient(n, d)
}

/// A fraction within the limits is representable.
pub proof fn lemma_in_range_representable(n: int, d: int)
    requires
        in_range(n, d),
    ensures
        representable(quotient(n, d)),
{
}

/// Scaling both parts of a fraction leaves its value.
pub proof fn lemma_quotient_scale(n: int, d: int, k: int)
    requires
        d != 0,
        k != 0,
    ensures
        quotient(n * k, d * k) == quotient(n, d),
{
    assert(((n * k) as real) / ((d * k) as real) == (n as real) / (d as real)) by (nonlinear_arith)
        requires
            d != 0,
            k != 0,
    ;
}

/// Fractions of equal value have equal cross products.
pub proof fn lemma_quotient_cross(n: int, d: int, p: int, q: int)
    requires
        d != 0,
        q != 0,
    ensures
        (quotient(n, d) == quotient(p, q)) == (n * q == p * d),
        d > 0 && q > 0 ==> (quotient(n, d) < quotient(p, q)) == (n * q < p * d),
        d > 0 && q > 0 ==> (quotient(n, d) <= quotient(p, q)) == (n * q <= p * d),
{
    assert(((n as real) / (d as real) == (p as real) / (q as real)) == (n * q == p * d))
        by (nonlinear_arith)
        requires
            d != 0,
            q != 0,
    ;
    if d > 0 && q > 0 {
        assert(((n as real) / (d as real) < (p as real) / (q as real)) == (n * q < p * d))
            by (nonlinear_arith)
            requires
                d > 0,
                q > 0,
        ;
    }
}

/// A fraction in lowest terms has the smallest parts among the fractions of its value.
pub proof fn lemma_lowest_terms_least(n: int, d: int, p: int, q: int)
    requires
        d > 0,
        q > 0,
        gcd(magnitude(n), d as nat) == 1,
        quotient(n, d) == quotient(p, q),
    ensures
        magnitude(n) <= magnitude(p),
        d <= q,
{
    lemma_quotient_cross(n, d, p, q);
    let a = magnitude(n);
    let b = magnitude(p);
    assert(a * q == b * d) by (nonlinear_arith)
        requires
            n * q == p * d,
            a == magnitude(n),
            b == magnitude(p),
            d > 0,
            q > 0,
    ;
    lemma_multiple_divides(d as nat, b as int);
    assert(d * b == b * d) by (nonlinear_arith);
    assert(divides(d as nat, a * (q as nat)));
    lemma_gcd_symmetric(a, d as nat);
    lemma_coprime_divides(d as nat, a, q as nat);
    lemma_divides_quotient(d as nat, q as nat);
    let k = q / d;
    assert(k >= 1 && b == a * k) by (nonlinear_arith)
        requires
            q == d * k,
            a * q == b * d,
            d > 0,
            q > 0,
    ;
    assert(a <= b) by (nonlinear_arith)
        requires
            b == a * k,
            k >= 1,
            a >= 0,
    ;
    assert(d <= q) by (nonlinear_arith)
        requires
            q == d * k,
            k >= 1,
            d > 0,
    ;
}

/// An exact rational number.
#[derive(Clone, Copy, Debug, PartialEq, Eq, Structural)]
pub struct Ratio {
    num: i64,
    den: i64,
}

impl View for Ratio {
    type V = real;

    /// The number that the fraction stands for.
    closed spec fn view(&self) -> real {
        quotient(self.num as int, self.den as int)
    }
}

impl Ratio {
    /// The fraction is in lowest terms, its denominator positive, both parts within the limit.
    #[verifier::type_invariant]
    pub closed spec fn well_formed(self) -> bool {
        &&& in_range(self.num as int, self.den as int)
        &&& gcd(magnitude(self.num as int), self.den as nat) == 1
    }

    /// Two well-formed fractions of one value are the same fraction.
    pub proof fn lemma_equal_values(self, other: Ratio)
        requires
            self.well_formed(),
            other.well_formed(),
            self@ == other@,
        ensures
            self == other,
    {
        lemma_lowest_terms_least(
            self.num as int,
            self.den as int,
            other.num as int,
            other.den as int,
        );
        lemma_lowest_terms_least(
            other.num as int,
            other.den as int,
            self.num as int,
            self.den as int,
        );
        lemma_quotient_cross(self.num as int, self.den as int, other.num as int, other.den as int);
        assert(self.num == other.num) by (nonlinear_arith)
            requires
                self.num * other.den == other.num * self.den,
                self.den == other.den,
                self.den > 0,
        ;
    }

    /// The value of a well-formed fraction is representable.
    pub proof fn lemma_representable(self)
        requires
            self.well_formed(),
        ensures
            representable(self@),
    {
        assert(in_range(self.num as int, self.den as int) && self@ == quotient(
            self.num as int,
            self.den as int,
        ));
    }

    /// The fraction `num / den` in lowest terms, where it can be held.
    pub(crate) fn from_parts(num: i128, den: i128) -> (r: Option<Ratio>)
        requires
            den > 0,
            num > i128::MIN,
        ensures
            r matches Some(v) ==> v@ == quotient(num as int, den as int),
            r is None <==> !representable(quotient(num as int, den as int)),
    {
        let a: u128 = if num < 0 {
            (-num) as u128
        } else {
            num as u128
        };
        let b: u128 = den as u128;
        let g: u128 = compute_gcd(a, b);
        proof {
            lemma_gcd_divides(a as nat, b as nat);
            lemma_divides_quotient(g as nat, a as nat);
            lemma_divides_quotient(g as nat, b as nat);
            lemma_gcd_reduced(a as nat, b as nat);
        }
        let x: u128 = a / g;
        let y: u128 = b / g;
        let ghost n: int = if num < 0 {
            -(x as int)
        } else {
            x as int
        };
        proof {
            assert(y > 0) by (nonlinear_arith)
                requires
                    b == g * y,
                    b > 0,
                    g > 0,
            ;
            assert(num == n * g && den == y * g) by (nonlinear_arith)
                requires
                    a == g * x,
                    b == g * y,
                    den == b,
                    num < 0 ==> num == -a && n == -x,
                    num >= 0 ==> num == a && n == x,
            ;
            lemma_quotient_scale(n, y as int, g as int);
            assert(magnitude(n) == x);
        }
        if x > LIMIT as u128 || y > LIMIT as u128 {
            proof {
                if representable(quotient(num as int, den as int)) {
                    let (p, q) = choose|p: int, q: int|
                        in_range(p, q) && quotient(num as int, den as int) == quotient(p, q);
                    lemma_lowest_terms_least(n, y as int, p, q);
                }
            }
            None
        } else {
            let v = Ratio {
                num: if num < 0 {
                    -(x as i64)
                } else {
                    x as i64
                },
                den: y as i64,
            };
            proof {
                assert(v.num == n);
                v.lemma_representable();
            }
            Some(v)
        }
    }

    /// The fraction `num / den`, unless `den` is zero or no fraction within the limits equals it.
    pub fn new(num: i64, den: i64) -> (r: Option<Ratio>)
        ensures
            r matches Some(v) ==> den != 0 && v@ == quotient(num as int, den as int),
            r is None <==> den == 0 || !representable(quotient(num as int, den as int)),
    {
        if den == 0 {
            None
        } else if den < 0 {
            proof {
                lemma_quotient_scale(num as int, den as int, -1);
                assert(num * -1 == -num && den * -1 == -den);
            }
            Self::from_parts(-(num as i128), -(den as i128))
        } else {
            Self::from_parts(num as i128, den as i128)
        }
    }

    /// The whole number `n`.
    pub fn whole(n: i32) -> (r: Ratio)
        ensures
            r@ == n as real,
            n == 0 ==> r == Self::nought(),
    {
        proof {
            assert(gcd(magnitude(n as int), 1) == 1) by {
                assert(gcd(magnitude(n as int), 1) == gcd(1, magnitude(n as int) % 1));
                assert(gcd(1, 0) == 1);
            }
            assert(quotient(n as int, 1) == n as real) by (nonlinear_arith)
                requires
                    quotient(n as int, 1) == (n as real) / (1int as real),
            ;
        }
        Ratio { num: n as i64, den: 1 }
    }

    /// The fraction that is zero.
    pub closed spec fn nought() -> Ratio {
        Ratio { num: 0, den: 1 }
    }

    /// Zero.
    pub fn zero() -> (r: Ratio)
        ensures
            r == Self::nought(),
            r@ == 0real,
    {
        Self::whole(0)
    }

    /// `n` hundredths.
    pub fn hundredths(n: i32) -> (r: Ratio)
        ensures
            r@ == (n as real) / 100real,
    {
        proof {
            lemma_in_range_representable(n as int, 100);
            assert(quotient(n as int, 100) == (n as real) / 100real) by (nonlinear_arith)
                requires
                    quotient(n as int, 100) == (n as real) / (100int as real),
            ;
        }
        Self::from_parts(n as i128, 100).unwrap()
    }

    /// One half.
    pub fn half() -> (r: Ratio)
        ensures
            r@ == 1real / 2real,
    {
        proof {
            lemma_in_range_representable(1, 2);
            assert(quotient(1, 2) == 1real / 2real) by (nonlinear_arith)
                requires
                    quotient(1, 2) == (1int as real) / (2int as real),
            ;
        }
        Self::from_parts(1, 2).unwrap()
    }

    /// The numerator of the fraction in lowest terms; it carries the sign.
    pub fn numer(&self) -> (n: i64)
        ensures
            n == self.spec_numer(),
            self@ == quotient(n as int, self.spec_denom()),
            gcd(magnitude(n as int), self.spec_denom() as nat) == 1,
            -LIMIT <= n <= LIMIT,
    {
        proof {
            use_type_invariant(self);
        }
        self.num
    }

    /// The denominator of the fraction in lowest terms; it is positive.
    pub fn denom(&self) -> (d: i64)
        ensures
            d == self.spec_denom(),
            self@ == quotient(self.spec_numer(), d as int),
            gcd(magnitude(self.spec_numer()), d as nat) == 1,
            0 < d <= LIMIT,
    {
        proof {
            use_type_invariant(self);
        }
        self.den
    }

    /// The numerator of the fraction in lowest terms.
    pub closed spec fn spec_numer(self) -> int {
        self.num as int
    }

    /// The denominator of the fraction in lowest terms.
    pub closed spec fn spec_denom(self) -> int {
        self.den as int
    }

    /// The sum, where a fraction within the limits equals it.
    pub fn add(&self, rhs: &Ratio) -> (r: Option<Ratio>)
        ensures
            r matches Some(v) ==> v@ == self@ + rhs@,
            r is None <==> !representable(self@ + rhs@),
    {
        proof {
            use_type_invariant(self);
            use_type_invariant(rhs);
            lemma_products_fit(self.num as int, rhs.den as int);
            lemma_products_fit(rhs.num as int, self.den as int);
            lemma_products_fit(self.den as int, rhs.den as int);
            lemma_quotient_sum(self.num as int, self.den as int, rhs.num as int, rhs.den as int);
        }
        let n: i128 = (self.num as i128) * (rhs.den as i128) + (rhs.num as i128) * (self.den as i128);
        let d: i128 = (self.den as i128) * (rhs.den as i128);
        proof {
            lemma_product_positive(self.den as int, rhs.den as int);
        }
        Self::from_parts(n, d)
    }

    /// The negation.
    pub fn neg(&self) -> (r: Ratio)
        ensures
            r@ == -self@,
    {
        proof {
            use_type_invariant(self);
            assert(quotient(-(self.num as int), self.den as int) == -quotient(
                self.num as int,
                self.den as int,
            )) by (nonlinear_arith)
                requires
                    self.den > 0,
                    quotient(-(self.num as int), self.den as int) == ((-(self.num as int)) as real) / (
                    self.den as real),
                    quotient(self.num as int, self.den as int) == (self.num as real) / (
                    self.den as real),
            ;
            assert(magnitude(-(self.num as int)) == magnitude(self.num as int));
        }
        Ratio { num: -self.num, den: self.den }
    }

    /// The difference, where a fraction within the limits equals it.
    pub fn sub(&self, rhs: &Ratio) -> (r: Option<Ratio>)
        ensures
            r matches Some(v) ==> v@ == self@ - rhs@,
            r is None <==> !representable(self@ - rhs@),
    {
        let m = rhs.neg();
        assert(self@ + m@ == self@ - rhs@);
        self.add(&m)
    }

    /// The product, where a fraction within the limits equals it.
    pub fn mul(&self, rhs: &Ratio) -> (r: Option<Ratio>)
        ensures
            r matches Some(v) ==> v@ == self@ * rhs@,
            r is None <==> !representable(self@ * rhs@),
    {
        proof {
            use_type_invariant(self);
            use_type_invariant(rhs);
            lemma_products_fit(self.num as int, rhs.num as int);
            lemma_products_fit(self.den as int, rhs.den as int);
            lemma_quotient_product(
                self.num as int,
                self.den as int,
                rhs.num as int,
                rhs.den as int,
            );
        }
        let n: i128 = (self.num as i128) * (rhs.num as i128);
        let d: i128 = (self.den as i128) * (rhs.den as i128);
        proof {
            lemma_product_positive(self.den as int, rhs.den as int);
        }
        Self::from_parts(n, d)
    }

    /// The quotient, unless `rhs` is zero or no fraction within the limits equals it.
    pub fn div(&self, rhs: &Ratio) -> (r: Option<Ratio>)
        ensures
            r matches Some(v) ==> rhs@ != 0real && v@ == self@ / rhs@,
            r is None <==> rhs@ == 0real || !representable(self@ / rhs@),
    {
        proof {
            use_type_invariant(self);
            use_type_invariant(rhs);
            lemma_products_fit(self.num as int, rhs.den as int);
            lemma_products_fit(self.den as int, rhs.num as int);
            lemma_quotient_sign(rhs.num as int, rhs.den as int);
        }
        if rhs.num == 0 {
            None
        } else {
            proof {
                lemma_quotient_ratio(
                    self.num as int,
                    self.den as int,
                    rhs.num as int,
                    rhs.den as int,
                );
            }
            let n: i128 = (self.num as i128) * (rhs.den as i128);
            let d: i128 = (self.den as i128) * (rhs.num as i128);
            if d < 0 {
                proof {
                    lemma_quotient_scale(n as int, d as int, -1);
                    assert(n * -1 == -n && d * -1 == -d);
                }
                Self::from_parts(-n, -d)
            } else {
                assert(d != 0) by (nonlinear_arith)
                    requires
                        d == self.den * rhs.num,
                        self.den > 0,
                        rhs.num != 0,
                ;
                Self::from_parts(n, d)
            }
        }
    }

    /// The value divided by the count `n`, unless `n` is zero or no fraction
    /// within the limits equals the quotient.
    pub fn div_count(&self, n: usize) -> (r: Option<Ratio>)
        ensures
            r matches Some(v) ==> n != 0 && v@ == self@ / (n as real),
            r is None <==> n == 0 || !representable(self@ / (n as real)),
    {
        if n == 0 {
            None
        } else {
            proof {
                use_type_invariant(self);
                assert(0 < self.den * n <= 0x7fff_ffff_ffff_ffff * 0xffff_ffff_ffff_ffff)
                    by (nonlinear_arith)
                    requires
                        0 < self.den <= 0x7fff_ffff_ffff_ffff,
                        0 < n <= 0xffff_ffff_ffff_ffff,
                ;
                assert(quotient(self.num as int, self.den * n) == quotient(
                    self.num as int,
                    self.den as int,
                ) / (n as real)) by (nonlinear_arith)
                    requires
                        self.den > 0,
                        n > 0,
                        quotient(self.num as int, self.den * n) == (self.num as real) / ((self.den
                            * n) as real),
                        quotient(self.num as int, self.den as int) == (self.num as real) / (
                        self.den as real),
                ;
            }
            Self::from_parts(self.num as i128, (self.den as i128) * (n as i128))
        }
    }

    /// Whether the value is below that of `rhs`.
    pub fn lt(&self, rhs: &Ratio) -> (b: bool)
        ensures
            b == (self@ < rhs@),
    {
        proof {
            use_type_invariant(self);
            use_type_invariant(rhs);
            lemma_products_fit(self.num as int, rhs.den as int);
            lemma_products_fit(rhs.num as int, self.den as int);
            lemma_quotient_cross(self.num as int, self.den as int, rhs.num as int, rhs.den as int);
        }
        (self.num as i128) * (rhs.den as i128) < (rhs.num as i128) * (self.den as i128)
    }

    /// Whether the value is at most that of `rhs`.
    pub fn le(&self, rhs: &Ratio) -> (b: bool)
        ensures
            b == (self@ <= rhs@),
    {
        proof {
            use_type_invariant(self);
            use_type_invariant(rhs);
            lemma_products_fit(self.num as int, rhs.den as int);
            lemma_products_fit(rhs.num as int, self.den as int);
            lemma_quotient_cross(self.num as int, self.den as int, rhs.num as int, rhs.den as int);
        }
        (self.num as i128) * (rhs.den as i128) <= (rhs.num as i128) * (self.den as i128)
    }

    /// Whether the two values are equal.
    pub fn same(&self, rhs: &Ratio) -> (b: bool)
        ensures
            b == (self@ == rhs@),
            b == (*self == *rhs),
    {
        proof {
            use_type_invariant(self);
            use_type_invariant(rhs);
            if self@ == rhs@ {
                self.lemma_equal_values(*rhs);
            }
        }
        self.num == rhs.num && self.den == rhs.den
    }

    /// Whether the value is zero.
    pub fn is_zero(&self) -> (b: bool)
        ensures
            b == (self@ == 0real),
    {
        proof {
            use_type_invariant(self);
            lemma_quotient_sign(self.num as int, self.den as int);
        }
        self.num == 0
    }

    /// Whether the value is below zero.
    pub fn is_negative(&self) -> (b: bool)
        ensures
            b == (self@ < 0real),
    {
        proof {
            use_type_invariant(self);
            lemma_quotient_sign(self.num as int, self.den as int);
        }
        self.num < 0
    }

    /// The magnitude.
    pub fn abs(&self) -> (r: Ratio)
        ensures
            r@ == absolute(self@),
    {
        if self.is_negative() {
            self.neg()
        } else {
            *self
        }
    }

    /// Half the sum, where a fraction within the limits equals it.
    pub fn mean(&self, rhs: &Ratio) -> (r: Option<Ratio>)
        ensures
            r matches Some(v) ==> v@ == (self@ + rhs@) / 2real,
            r is None <==> !representable((self@ + rhs@) / 2real),
    {
        proof {
            use_type_invariant(self);
            use_type_invariant(rhs);
            lemma_products_fit(self.num as int, rhs.den as int);
            lemma_products_fit(rhs.num as int, self.den as int);
            lemma_products_fit(self.den as int, rhs.den as int);
            lemma_quotient_sum(self.num as int, self.den as int, rhs.num as int, rhs.den as int);
            lemma_product_positive(self.den as int, rhs.den as int);
            let n = self.num * rhs.den + rhs.num * self.den;
            let d = self.den * rhs.den;
            assert(quotient(n, d) / 2real == quotient(n, d * 2)) by (nonlinear_arith)
                requires
                    d > 0,
                    quotient(n, d) == (n as real) / (d as real),
                    quotient(n, d * 2) == (n as real) / ((d * 2) as real),
            ;
        }
        let n: i128 = (self.num as i128) * (rhs.den as i128) + (rhs.num as i128) * (self.den as i128);
        let d: i128 = (self.den as i128) * (rhs.den as i128) * 2;
        Self::from_parts(n, d)
    }

    /// The largest whole number that is not above the value, as a fraction.
    pub fn floor_whole(&self) -> (r: Ratio)
        ensures
            r@ == self@.floor() as real,
    {
        let k = self.floor();
        proof {
            use_type_invariant(self);
            lemma_quotient_floor(self.num as int, self.den as int);
            lemma_fundamental_div_mod(self.num as int, self.den as int);
            lemma_in_range_representable(k as int, 1);
            assert(quotient(k as int, 1) == k as real) by (nonlinear_arith)
                requires
                    quotient(k as int, 1) == (k as real) / (1int as real),
            ;
        }
        Self::from_parts(k as i128, 1).unwrap()
    }

    /// The part of the value above the whole number below it.
    pub fn fract(&self) -> (r: Ratio)
        ensures
            r@ == self@ - (self@.floor() as real),
    {
        let k = self.floor();
        proof {
            use_type_invariant(self);
            lemma_quotient_floor(self.num as int, self.den as int);
            lemma_fundamental_div_mod(self.num as int, self.den as int);
            let m = (self.num as int) % (self.den as int);
            assert(self.num - k * self.den == m) by (nonlinear_arith)
                requires
                    self.num == self.den * k + m,
            ;
            lemma_in_range_representable(m, self.den as int);
            assert(quotient(m, self.den as int) == quotient(self.num as int, self.den as int) - (
            k as real)) by (nonlinear_arith)
                requires
                    self.num == self.den * k + m,
                    self.den > 0,
                    quotient(m, self.den as int) == (m as real) / (self.den as real),
                    quotient(self.num as int, self.den as int) == (self.num as real) / (
                    self.den as real),
            ;
            lemma_products_fit(k as int, self.den as int);
        }
        let m: i128 = (self.num as i128) - (k as i128) * (self.den as i128);
        Self::from_parts(m, self.den as i128).unwrap()
    }

    /// The largest whole number that is not above the value.
    pub fn floor(&self) -> (k: i64)
        ensures
            k == self@.floor(),
            -LIMIT <= k <= LIMIT,
    {
        proof {
            use_type_invariant(self);
            lemma_quotient_floor(self.num as int, self.den as int);
        }
        if self.num >= 0 {
            self.num / self.den
        } else {
            let m: i64 = -self.num;
            let q: i64 = m / self.den;
            let r: i64 = m % self.den;
            proof {
                lemma_fundamental_div_mod(m as int, self.den as int);
                if r == 0 {
                    assert(self.num == self.den * (-q) + 0) by (nonlinear_arith)
                        requires
                            m == self.den * q + r,
                            r == 0,
                            m == -self.num,
                    ;
                    lemma_fundamental_div_mod_converse(self.num as int, self.den as int, -q, 0);
                } else {
                    assert(self.num == self.den * (-q - 1) + (self.den - r)) by (nonlinear_arith)
                        requires
                            m == self.den * q + r,
                            m == -self.num,
                    ;
                    lemma_fundamental_div_mod_converse(
                        self.num as int,
                        self.den as int,
                        -q - 1,
                        self.den - r,
                    );
                }
                assert(0 <= q <= m - r) by (nonlinear_arith)
                    requires
                        m == self.den * q + r,
                        self.den >= 1,
                        0 <= r < self.den,
                        m >= 0,
                ;
            }
            if r == 0 {
                -q
            } else {
                -q - 1
            }
        }
    }
}

/// The product of two parts within the limit fits in 128 bits, twice over.
pub proof fn lemma_products_fit(a: int, b: int)
    requires
        -LIMIT <= a <= LIMIT,
        -LIMIT <= b <= LIMIT,
    ensures
        -0x3fff_ffff_ffff_ffff_0000_0000_0000_0001 <= a * b
            <= 0x3fff_ffff_ffff_ffff_0000_0000_0000_0001,
{
    assert(-LIMIT * LIMIT <= a * b <= LIMIT * LIMIT) by (nonlinear_arith)
        requires
            -LIMIT <= a <= LIMIT,
            -LIMIT <= b <= LIMIT,
    ;
    assert(LIMIT * LIMIT == 0x3fff_ffff_ffff_ffff_0000_0000_0000_0001) by (nonlinear_arith);
}

/// The product of two positive numbers is positive.
pub proof fn lemma_product_positive(a: int, b: int)
    requires
        a > 0,
        b > 0,
    ensures
        a * b > 0,
{
    assert(a * b > 0) by (nonlinear_arith)
        requires
            a > 0,
            b > 0,
    ;
}

/// The sum of two fractions, over the product of their denominators.
pub proof fn lemma_quotient_sum(n: int, d: int, p: int, q: int)
    requires
        d != 0,
        q != 0,
    ensures
        quotient(n, d) + quotient(p, q) == quotient(n * q + p * d, d * q),
{
    assert((n as real) / (d as real) + (p as real) / (q as real) == ((n * q + p * d) as real) / ((d
        * q) as real)) by (nonlinear_arith)
        requires
            d != 0,
            q != 0,
    ;
}

/// The product of two fractions, part by part.
pub proof fn lemma_quotient_product(n: int, d: int, p: int, q: int)
    requires
        d != 0,
        q != 0,
    ensures
        quotient(n, d) * quotient(p, q) == quotient(n * p, d * q),
{
    assert(((n as real) / (d as real)) * ((p as real) / (q as real)) == ((n * p) as real) / ((d
        * q) as real)) by (nonlinear_arith)
        requires
            d != 0,
            q != 0,
    ;
}

/// The quotient of two fractions, by the reciprocal.
pub proof fn lemma_quotient_ratio(n: int, d: int, p: int, q: int)
    requires
        d != 0,
        q != 0,
        p != 0,
    ensures
        quotient(n, d) / quotient(p, q) == quotient(n * q, d * p),
{
    assert(((n as real) / (d as real)) / ((p as real) / (q as real)) == ((n * q) as real) / ((d
        * p) as real)) by (nonlinear_arith)
        requires
            d != 0,
            q != 0,
            p != 0,
    ;
}

/// A fraction with a positive denominator has the sign of its numerator.
pub proof fn lemma_quotient_sign(n: int, d: int)
    requires
        d > 0,
    ensures
        (quotient(n, d) == 0real) == (n == 0),
        (quotient(n, d) < 0real) == (n < 0),
{
    assert((((n as real) / (d as real)) == 0real) == (n == 0)) by (nonlinear_arith)
        requires
            d > 0,
    ;
    assert((((n as real) / (d as real)) < 0real) == (n < 0)) by (nonlinear_arith)
        requires
            d > 0,
    ;
}

/// The floor of a fraction with a positive denominator is the Euclidean quotient.
pub proof fn lemma_quotient_floor(n: int, d: int)
    requires
        d > 0,
    ensures
        quotient(n, d).floor() == n / d,
{
    lemma_fundamental_div_mod(n, d);
    let k = n / d;
    let r = n % d;
    assert((k as real) <= (n as real) / (d as real) < ((k + 1) as real)) by (nonlinear_arith)
        requires
            n == d * k + r,
            0 <= r < d,
    ;
}

} // verus!
