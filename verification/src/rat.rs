//! Exact rational scalars on machine integers.
//!
//! A `Rat` is a fraction `num / den` with `den >= 1`. Arithmetic is exact:
//! each operation computes the mathematical result in wide intermediates,
//! reduces it by the greatest common divisor, and returns `None` when the
//! reduced numerator or denominator does not fit the field type. Orderings
//! and equality never fail: cross-multiplied comparisons always fit the
//! wide intermediates.

use vstd::prelude::*;
use vstd::math::abs;
use vstd::arithmetic::div_mod::{
    lemma_fundamental_div_mod, lemma_mod_multiples_vanish, lemma_small_mod,
};

verus! {

/// Greatest common divisor by Euclid's recursion.
pub open spec fn gcd(a: nat, b: nat) -> nat
    decreases b,
{
    if b == 0 {
        a
    } else {
        gcd(b, a % b)
    }
}

/// The gcd of two naturals, the second positive, is positive and divides both.
pub proof fn lemma_gcd_divides(a: nat, b: nat)
    requires
        b >= 1,
    ensures
        gcd(a, b) >= 1,
        a % gcd(a, b) == 0,
        b % gcd(a, b) == 0,
    decreases b,
{
    let r = a % b;
    if r == 0 {
        assert(gcd(a, b) == gcd(b, 0)) by {
            reveal_with_fuel(gcd, 2);
        }
        assert(gcd(b, 0) == b);
        lemma_small_mod(0nat, b);
        assert(b % b == 0) by {
            lemma_fundamental_div_mod(b as int, b as int);
            lemma_small_mod(0nat, b);
            assert((b as int * 1 + 0) % (b as int) == 0) by {
                lemma_mod_multiples_vanish(1, 0, b as int);
            }
        }
    } else {
        lemma_gcd_divides(b, r);
        let g = gcd(b, r);
        assert(gcd(a, b) == g);
        // a == b * (a / b) + r, and g divides both b and r, so g divides a.
        lemma_fundamental_div_mod(a as int, b as int);
        let q = a as int / b as int;
        assert(b % g == 0);
        let bq = b as int / g as int;
        lemma_fundamental_div_mod(b as int, g as int);
        assert(b as int == g as int * bq);
        assert(a as int == g as int * (bq * q) + r) by {
            assert(b as int * q == (g as int * bq) * q);
            vstd::arithmetic::mul::lemma_mul_is_associative(g as int, bq, q);
        }
        assert((g as int * (bq * q) + r as int) % (g as int) == r as int % (g as int)) by {
            lemma_mod_multiples_vanish(bq * q, r as int, g as int);
        }
    }
}

/// An exact rational scalar: the value `num / den`.
///
/// Well-formed values have `den >= 1` and `num > i64::MIN`, so the
/// magnitude of each field fits `i64::MAX` and every cross product of two
/// well-formed rationals fits an `i128`.
#[derive(Clone, Copy, Debug, PartialEq, Eq, Structural)]
pub struct Rat {
    pub num: i64,
    pub den: i64,
}

pub open spec fn rat_wf(r: Rat) -> bool {
    &&& r.den >= 1
    &&& r.num > i64::MIN
}

/// The reduced rational `n / d`, or `None` when the reduced fraction
/// does not fit the `i64` fields.
pub open spec fn reduce_rat(n: int, d: int) -> Option<Rat>
    recommends
        d >= 1,
{
    let g = gcd(abs(n), d as nat) as int;
    let nm = abs(n) as int / g;
    let dr = d / g;
    if nm <= i64::MAX as int && dr <= i64::MAX as int {
        Some(
            Rat {
                num: if n >= 0 {
                    nm as i64
                } else {
                    (-nm) as i64
                },
                den: dr as i64,
            },
        )
    } else {
        None
    }
}

/// A reduced rational is well formed and keeps the exact value:
/// `r.num / r.den == n / d` as a cross product.
pub proof fn lemma_reduce_rat(n: int, d: int)
    requires
        d >= 1,
        reduce_rat(n, d) matches Some(_),
    ensures
        reduce_rat(n, d) matches Some(r) ==> {
            &&& rat_wf(r)
            &&& r.num * d == n * r.den
            &&& (r.num == 0 <==> n == 0)
        },
{
    let g = gcd(abs(n), d as nat) as int;
    lemma_gcd_divides(abs(n), d as nat);
    let nm = abs(n) as int / g;
    let dr = d / g;
    lemma_fundamental_div_mod(abs(n) as int, g);
    lemma_fundamental_div_mod(d, g);
    assert(abs(n) as int == g * nm);
    assert(d == g * dr);
    assert(dr >= 1) by (nonlinear_arith)
        requires
            d == g * dr,
            d >= 1,
            g >= 1,
    ;
    assert(nm >= 0) by (nonlinear_arith)
        requires
            abs(n) as int == g * nm,
            abs(n) >= 0,
            g >= 1,
    ;
    let r = reduce_rat(n, d)->Some_0;
    assert(r.num * d == n * r.den) by {
        if n >= 0 {
            assert(abs(n) as int == n);
            assert(nm * (g * dr) == n * dr) by (nonlinear_arith)
                requires g * nm == n;
        } else {
            assert(abs(n) as int == -n);
            assert((-nm) * (g * dr) == n * dr) by (nonlinear_arith)
                requires g * nm == -n;
        }
    }
    assert(r.num == 0 <==> n == 0) by {
        if nm == 0 {
            assert(g * nm == 0) by (nonlinear_arith)
                requires nm == 0;
        }
        if n == 0 {
            assert(nm == 0) by (nonlinear_arith)
                requires
                    g * nm == 0,
                    g >= 1,
                    nm >= 0,
            ;
        }
    }
}

/// Euclid's algorithm on wide unsigned integers.
///
/// Relied on by the reduction step of every rational operation.
fn gcd_u128(a0: u128, b0: u128) -> (g: u128)
    ensures
        g == gcd(a0 as nat, b0 as nat),
{
    let mut a = a0;
    let mut b = b0;
    while b != 0
        invariant
            gcd(a as nat, b as nat) == gcd(a0 as nat, b0 as nat),
        decreases b,
    {
        let t = a % b;
        a = b;
        b = t;
    }
    a
}

/// Reduce the signed rational with magnitude `n_mag / d` and sign `neg`
/// to lowest terms, if the result fits the `i64` fields.
fn reduce_exec(neg: bool, n_mag: u128, d: u128) -> (r: Option<Rat>)
    requires
        1 <= d <= i128::MAX as u128,
        n_mag <= i128::MAX as u128,
    ensures
        r == reduce_rat(
            if neg {
                -(n_mag as int)
            } else {
                n_mag as int
            },
            d as int,
        ),
{
    let ghost n: int = if neg {
        -(n_mag as int)
    } else {
        n_mag as int
    };
    proof {
        assert(abs(n) == n_mag as nat);
        lemma_gcd_divides(n_mag as nat, d as nat);
    }
    let g = gcd_u128(n_mag, d);
    let nm = n_mag / g;
    let dr = d / g;
    if nm <= i64::MAX as u128 && dr <= i64::MAX as u128 {
        let num: i64 = if neg {
            -(nm as i64)
        } else {
            nm as i64
        };
        Some(Rat { num, den: dr as i64 })
    } else {
        None
    }
}

impl Rat {
    /// The rational `n / d`; rejects a non-positive denominator and the one
    /// numerator whose negation does not fit.
    pub fn new(n: i64, d: i64) -> (r: Option<Rat>)
        ensures
            r == if d >= 1 && n > i64::MIN {
                Some(Rat { num: n, den: d })
            } else {
                None::<Rat>
            },
            r matches Some(q) ==> rat_wf(q),
    {
        if d >= 1 && n > i64::MIN {
            Some(Rat { num: n, den: d })
        } else {
            None
        }
    }

    /// The integer `v` as a rational.
    pub fn from_int(v: i32) -> (r: Rat)
        ensures
            r == (Rat { num: v as i64, den: 1i64 }),
            rat_wf(r),
    {
        Rat { num: v as i64, den: 1 }
    }

    /// Exact sum, reduced; `None` when the reduced result leaves `i64`.
    pub fn checked_add(self, other: Rat) -> (r: Option<Rat>)
        requires
            rat_wf(self),
            rat_wf(other),
        ensures
            r == rat_add(self, other),
    {
        proof {
            lemma_i64_mul_bound(self.num as int, other.den as int);
            lemma_i64_mul_bound(other.num as int, self.den as int);
            lemma_i64_mul_bound(self.den as int, other.den as int);
        }
        let n1: i128 = (self.num as i128) * (other.den as i128);
        let n2: i128 = (other.num as i128) * (self.den as i128);
        let n: i128 = n1 + n2;
        let d: i128 = (self.den as i128) * (other.den as i128);
        proof {
            assert(d >= 1) by (nonlinear_arith)
                requires self.den >= 1, other.den >= 1, d == (self.den as i128) * (other.den as i128);
        }
        if n >= 0 {
            reduce_exec(false, n as u128, d as u128)
        } else {
            reduce_exec(true, (-n) as u128, d as u128)
        }
    }

    /// Exact difference, reduced; `None` when the result leaves `i64`.
    pub fn checked_sub(self, other: Rat) -> (r: Option<Rat>)
        requires
            rat_wf(self),
            rat_wf(other),
        ensures
            r == rat_sub(self, other),
    {
        self.checked_add(other.neg())
    }

    /// Exact product, reduced; `None` when the result leaves `i64`.
    pub fn checked_mul(self, other: Rat) -> (r: Option<Rat>)
        requires
            rat_wf(self),
            rat_wf(other),
        ensures
            r == rat_mul(self, other),
    {
        proof {
            lemma_i64_mul_bound(self.num as int, other.num as int);
            lemma_i64_mul_bound(self.den as int, other.den as int);
        }
        let n: i128 = (self.num as i128) * (other.num as i128);
        let d: i128 = (self.den as i128) * (other.den as i128);
        proof {
            assert(d >= 1) by (nonlinear_arith)
                requires self.den >= 1, other.den >= 1, d == (self.den as i128) * (other.den as i128);
        }
        if n >= 0 {
            reduce_exec(false, n as u128, d as u128)
        } else {
            reduce_exec(true, (-n) as u128, d as u128)
        }
    }

    /// Exact quotient, reduced; the divisor must not be zero.
    pub fn checked_div(self, other: Rat) -> (r: Option<Rat>)
        requires
            rat_wf(self),
            rat_wf(other),
            other.num != 0,
        ensures
            r == rat_div(self, other),
    {
        self.checked_mul(other.recip())
    }

    /// The reciprocal of a nonzero rational; always exact.
    pub fn recip(self) -> (r: Rat)
        requires
            rat_wf(self),
            self.num != 0,
        ensures
            r == rat_recip(self),
            rat_wf(r),
    {
        if self.num > 0 {
            Rat { num: self.den, den: self.num }
        } else {
            Rat { num: -self.den, den: -self.num }
        }
    }

    /// Exact negation; always fits.
    pub fn neg(self) -> (r: Rat)
        requires
            rat_wf(self),
        ensures
            r == rat_neg(self),
            rat_wf(r),
    {
        Rat { num: -self.num, den: self.den }
    }

    /// Exact absolute value; always fits.
    pub fn abs_val(self) -> (r: Rat)
        requires
            rat_wf(self),
        ensures
            r == rat_abs(self),
            rat_wf(r),
    {
        if self.num < 0 {
            Rat { num: -self.num, den: self.den }
        } else {
            self
        }
    }

    /// Exact `self <= other`; never fails.
    pub fn le(self, other: Rat) -> (r: bool)
        requires
            rat_wf(self),
            rat_wf(other),
        ensures
            r == rat_le(self, other),
    {
        proof {
            lemma_i64_mul_bound(self.num as int, other.den as int);
            lemma_i64_mul_bound(other.num as int, self.den as int);
        }
        (self.num as i128) * (other.den as i128) <= (other.num as i128) * (self.den as i128)
    }

    /// Exact `self < other`; never fails.
    pub fn lt(self, other: Rat) -> (r: bool)
        requires
            rat_wf(self),
            rat_wf(other),
        ensures
            r == rat_lt(self, other),
    {
        proof {
            lemma_i64_mul_bound(self.num as int, other.den as int);
            lemma_i64_mul_bound(other.num as int, self.den as int);
        }
        (self.num as i128) * (other.den as i128) < (other.num as i128) * (self.den as i128)
    }

    /// Exact value equality (`2/4` equals `1/2`); never fails.
    pub fn eq_val(self, other: Rat) -> (r: bool)
        requires
            rat_wf(self),
            rat_wf(other),
        ensures
            r == rat_eq(self, other),
    {
        proof {
            lemma_i64_mul_bound(self.num as int, other.den as int);
            lemma_i64_mul_bound(other.num as int, self.den as int);
        }
        (self.num as i128) * (other.den as i128) == (other.num as i128) * (self.den as i128)
    }

    /// Whether the value is zero.
    pub fn is_zero(self) -> (r: bool)
        requires
            rat_wf(self),
        ensures
            r == (self.num == 0),
    {
        self.num == 0
    }
}

/// The product of two values whose magnitudes fit `i64::MAX` is at most
/// `i64::MAX` squared, so two such products can still be added in an `i128`.
proof fn lemma_i64_mul_bound(x: int, y: int)
    requires
        -(i64::MAX as int) <= x <= i64::MAX,
        -(i64::MAX as int) <= y <= i64::MAX,
    ensures
        -85070591730234615847396907784232501249 <= x * y
            <= 85070591730234615847396907784232501249,
{
    assert(-85070591730234615847396907784232501249 <= x * y
        <= 85070591730234615847396907784232501249) by (nonlinear_arith)
        requires
            -9223372036854775807 <= x <= 9223372036854775807,
            -9223372036854775807 <= y <= 9223372036854775807,
    ;
}

pub open spec fn rat_add(a: Rat, b: Rat) -> Option<Rat> {
    reduce_rat(a.num * b.den + b.num * a.den, a.den * b.den)
}

pub open spec fn rat_neg(a: Rat) -> Rat {
    Rat { num: -a.num as i64, den: a.den }
}

pub open spec fn rat_sub(a: Rat, b: Rat) -> Option<Rat> {
    rat_add(a, rat_neg(b))
}

pub open spec fn rat_mul(a: Rat, b: Rat) -> Option<Rat> {
    reduce_rat(a.num * b.num, a.den * b.den)
}

pub open spec fn rat_recip(a: Rat) -> Rat
    recommends
        a.num != 0,
{
    if a.num > 0 {
        Rat { num: a.den, den: a.num }
    } else {
        Rat { num: -a.den as i64, den: -a.num as i64 }
    }
}

pub open spec fn rat_div(a: Rat, b: Rat) -> Option<Rat>
    recommends
        b.num != 0,
{
    rat_mul(a, rat_recip(b))
}

pub open spec fn rat_abs(a: Rat) -> Rat {
    if a.num < 0 {
        Rat { num: -a.num as i64, den: a.den }
    } else {
        a
    }
}

/// `a <= b` as values: `a.num / a.den <= b.num / b.den`.
pub open spec fn rat_le(a: Rat, b: Rat) -> bool {
    a.num * b.den <= b.num * a.den
}

pub open spec fn rat_lt(a: Rat, b: Rat) -> bool {
    a.num * b.den < b.num * a.den
}

/// Value equality: `2/4` equals `1/2`.
pub open spec fn rat_eq(a: Rat, b: Rat) -> bool {
    a.num * b.den == b.num * a.den
}

/// The ordering on well-formed rationals is transitive.
pub proof fn lemma_rat_le_trans(a: Rat, b: Rat, c: Rat)
    requires
        rat_wf(a),
        rat_wf(b),
        rat_wf(c),
        rat_le(a, b),
        rat_le(b, c),
    ensures
        rat_le(a, c),
{
    assert(a.num * c.den <= c.num * a.den) by (nonlinear_arith)
        requires
            a.den >= 1,
            b.den >= 1,
            c.den >= 1,
            a.num * b.den <= b.num * a.den,
            b.num * c.den <= c.num * b.den;
}

/// A sum that came out fits: it is well formed and has the exact value
/// `a + b`, witnessed by the cross product over the common denominator.
pub proof fn lemma_rat_add_exact(a: Rat, b: Rat)
    requires
        rat_wf(a),
        rat_wf(b),
        rat_add(a, b) matches Some(_),
    ensures
        rat_add(a, b) matches Some(r) ==> {
            &&& rat_wf(r)
            &&& r.num * (a.den * b.den) == (a.num * b.den + b.num * a.den) * r.den
            &&& (r.num == 0 <==> a.num * b.den + b.num * a.den == 0)
        },
{
    assert(a.den * b.den >= 1) by (nonlinear_arith)
        requires a.den >= 1, b.den >= 1;
    lemma_reduce_rat(a.num * b.den + b.num * a.den, a.den * b.den);
}

/// A product that came out fits: it is well formed and has the exact value
/// `a * b`, witnessed by the cross product.
pub proof fn lemma_rat_mul_exact(a: Rat, b: Rat)
    requires
        rat_wf(a),
        rat_wf(b),
        rat_mul(a, b) matches Some(_),
    ensures
        rat_mul(a, b) matches Some(r) ==> {
            &&& rat_wf(r)
            &&& r.num * (a.den * b.den) == (a.num * b.num) * r.den
            &&& (r.num == 0 <==> a.num == 0 || b.num == 0)
        },
{
    assert(a.den * b.den >= 1) by (nonlinear_arith)
        requires a.den >= 1, b.den >= 1;
    lemma_reduce_rat(a.num * b.num, a.den * b.den);
    assert(a.num * b.num == 0 <==> a.num == 0 || b.num == 0) by (nonlinear_arith);
}

} // verus!
