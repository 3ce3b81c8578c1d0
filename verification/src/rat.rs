//! Executable rational scalars. A `Rat` holds a numerator and a positive
//! denominator, both bounded by `MAG` so that any product of two components
//! fits a 128-bit intermediate. Every arithmetic operation computes the exact
//! rational result, normalizes it by the greatest common divisor, and returns
//! `None` exactly when the normalized result does not fit the representation.
use vstd::prelude::*;

use crate::frac::{
    f_abs, f_add, f_div, f_eq, f_fits, f_int, f_le, f_lt, f_max, f_min, f_mul, f_neg, f_norm,
    f_sub, gcd, lemma_div_exact, lemma_gcd_divides, lemma_neg_div, lemma_norm_same, Frac, MAG,
};

verus! {

/// An exact rational scalar: numerator over positive denominator.
#[derive(Clone, Copy, Debug)]
pub struct Rat {
    n: i64,
    d: i64,
}

/// Bounds on products of components within `MAG`: the product stays within
/// `MAG * MAG`, which fits an `i128`.
pub proof fn lemma_rat_mul_bound(x: int, y: int)
    by (nonlinear_arith)
    requires
        -(MAG as int) <= x <= MAG as int,
        -(MAG as int) <= y <= MAG as int,
    ensures
        -(MAG as int * MAG as int) <= x * y <= MAG as int * MAG as int,
{
}

/// Bounds on products of `Rat` components: with both factors in
/// `[-MAG, MAG]` the product stays within `MAG * MAG`, which fits an `i128`.
proof fn lemma_mul_bound(x: int, y: int, bx: int, by: int)
    by (nonlinear_arith)
    requires
        bx >= 0,
        by >= 0,
        -bx <= x <= bx,
        -by <= y <= by,
    ensures
        -(bx * by) <= x * y <= bx * by,
{
}

/// Euclid's algorithm, matching the specification `gcd` step for step.
pub(crate) fn gcd_exec(a: u128, b: u128) -> (g: u128)
    ensures
        g as int == gcd(a as int, b as int),
{
    let mut x: u128 = a;
    let mut y: u128 = b;
    while y != 0
        invariant
            gcd(x as int, y as int) == gcd(a as int, b as int),
        decreases y,
    {
        let t: u128 = x % y;
        x = y;
        y = t;
    }
    x
}

impl Rat {
    /// The fraction this scalar denotes.
    pub closed spec fn fr(self) -> Frac {
        Frac { n: self.n as int, d: self.d as int }
    }

    /// Well-formed: denominator positive, both components within `MAG`.
    pub open spec fn wf(self) -> bool {
        f_fits(self.fr())
    }

    pub fn num(self) -> (r: i64)
        ensures
            r as int == self.fr().n,
    {
        self.n
    }

    pub fn den(self) -> (r: i64)
        ensures
            r as int == self.fr().d,
    {
        self.d
    }

    /// The integer `i` as a rational.
    pub fn from_int(i: i64) -> (r: Rat)
        requires
            -MAG <= i <= MAG,
        ensures
            r.wf(),
            r.fr() == f_int(i as int),
    {
        Rat { n: i, d: 1 }
    }

    pub fn zero() -> (r: Rat)
        ensures
            r.wf(),
            r.fr() == f_int(0),
    {
        Rat { n: 0, d: 1 }
    }

    pub fn one() -> (r: Rat)
        ensures
            r.wf(),
            r.fr() == f_int(1),
    {
        Rat { n: 1, d: 1 }
    }

    /// Builds a scalar from components already known to be within bounds,
    /// without normalizing.
    pub(crate) fn from_wf_parts(n: i64, d: i64) -> (r: Rat)
        requires
            -MAG <= n <= MAG,
            0 < d <= MAG,
        ensures
            r.wf(),
            r.fr() == (Frac { n: n as int, d: d as int }),
    {
        Rat { n, d }
    }

    /// The normalized rational `n / d`, or `None` when even the normalized
    /// form exceeds the representation's bounds.
    pub fn new(n: i64, d: i64) -> (r: Option<Rat>)
        requires
            d > 0,
        ensures
            (r is Some) == f_fits(f_norm(Frac { n: n as int, d: d as int })),
            r matches Some(q) ==> q.wf() && q.fr() == f_norm(Frac { n: n as int, d: d as int })
                && f_eq(q.fr(), Frac { n: n as int, d: d as int }),
    {
        norm_parts(n as i128, d as i128)
    }

    /// Exact negation; never overflows since the bounds are symmetric.
    pub fn neg(self) -> (r: Rat)
        requires
            self.wf(),
        ensures
            r.wf(),
            r.fr() == f_neg(self.fr()),
    {
        Rat { n: -self.n, d: self.d }
    }

    /// Exact absolute value.
    pub fn abs(self) -> (r: Rat)
        requires
            self.wf(),
        ensures
            r.wf(),
            r.fr() == f_abs(self.fr()),
    {
        if self.n < 0 {
            Rat { n: -self.n, d: self.d }
        } else {
            self
        }
    }

    /// Exact sum, normalized; `None` exactly when the normalized sum does
    /// not fit.
    pub fn plus(self, o: Rat) -> (r: Option<Rat>)
        requires
            self.wf(),
            o.wf(),
        ensures
            (r is Some) == f_fits(f_norm(f_add(self.fr(), o.fr()))),
            r matches Some(q) ==> q.wf() && q.fr() == f_norm(f_add(self.fr(), o.fr()))
                && f_eq(q.fr(), f_add(self.fr(), o.fr())),
    {
        proof {
            lemma_mul_bound(self.fr().n, o.fr().d, MAG as int, MAG as int);
            lemma_mul_bound(o.fr().n, self.fr().d, MAG as int, MAG as int);
            lemma_mul_bound(self.fr().d, o.fr().d, MAG as int, MAG as int);
        }
        let num: i128 = (self.n as i128) * (o.d as i128) + (o.n as i128) * (self.d as i128);
        let den: i128 = (self.d as i128) * (o.d as i128);
        proof {
            lemma_pos_mul(self.fr().d, o.fr().d);
        }
        norm_parts(num, den)
    }

    /// Exact difference, normalized.
    pub fn minus(self, o: Rat) -> (r: Option<Rat>)
        requires
            self.wf(),
            o.wf(),
        ensures
            (r is Some) == f_fits(f_norm(f_sub(self.fr(), o.fr()))),
            r matches Some(q) ==> q.wf() && q.fr() == f_norm(f_sub(self.fr(), o.fr()))
                && f_eq(q.fr(), f_sub(self.fr(), o.fr())),
    {
        proof {
            lemma_mul_bound(self.fr().n, o.fr().d, MAG as int, MAG as int);
            lemma_mul_bound(o.fr().n, self.fr().d, MAG as int, MAG as int);
            lemma_mul_bound(self.fr().d, o.fr().d, MAG as int, MAG as int);
        }
        let num: i128 = (self.n as i128) * (o.d as i128) - (o.n as i128) * (self.d as i128);
        let den: i128 = (self.d as i128) * (o.d as i128);
        proof {
            lemma_pos_mul(self.fr().d, o.fr().d);
        }
        norm_parts(num, den)
    }

    /// Exact product, normalized.
    pub fn times(self, o: Rat) -> (r: Option<Rat>)
        requires
            self.wf(),
            o.wf(),
        ensures
            (r is Some) == f_fits(f_norm(f_mul(self.fr(), o.fr()))),
            r matches Some(q) ==> q.wf() && q.fr() == f_norm(f_mul(self.fr(), o.fr()))
                && f_eq(q.fr(), f_mul(self.fr(), o.fr())),
    {
        proof {
            lemma_mul_bound(self.fr().n, o.fr().n, MAG as int, MAG as int);
            lemma_mul_bound(self.fr().d, o.fr().d, MAG as int, MAG as int);
            lemma_pos_mul(self.fr().d, o.fr().d);
        }
        let num: i128 = (self.n as i128) * (o.n as i128);
        let den: i128 = (self.d as i128) * (o.d as i128);
        norm_parts(num, den)
    }

    /// Exact quotient, normalized. The divisor must be nonzero; callers test
    /// with `is_zero` first.
    pub fn over(self, o: Rat) -> (r: Option<Rat>)
        requires
            self.wf(),
            o.wf(),
            o.fr().n != 0,
        ensures
            (r is Some) == f_fits(f_norm(f_div(self.fr(), o.fr()))),
            r matches Some(q) ==> q.wf() && q.fr() == f_norm(f_div(self.fr(), o.fr()))
                && f_eq(q.fr(), f_div(self.fr(), o.fr())),
    {
        proof {
            lemma_mul_bound(self.fr().n, o.fr().d, MAG as int, MAG as int);
            lemma_mul_bound(self.fr().d, o.fr().n, MAG as int, MAG as int);
        }
        let num: i128 = (self.n as i128) * (o.d as i128);
        let den: i128 = (self.d as i128) * (o.n as i128);
        if o.n > 0 {
            proof {
                lemma_pos_mul(self.fr().d, o.fr().n);
            }
            norm_parts(num, den)
        } else {
            proof {
                lemma_pos_mul(self.fr().d, -o.fr().n);
                vstd::arithmetic::mul::lemma_mul_unary_negation(self.fr().d, o.fr().n);
                vstd::arithmetic::mul::lemma_mul_unary_negation(self.fr().n, o.fr().d);
                assert(-(den as int) == self.fr().d * (-o.fr().n));
                assert(-(num as int) == self.fr().n * (-o.fr().d));
            }
            norm_parts(-num, -den)
        }
    }

    /// Whether this scalar denotes zero.
    pub fn is_zero(self) -> (r: bool)
        requires
            self.wf(),
        ensures
            r == (self.fr().n == 0),
            r == f_eq(self.fr(), f_int(0)),
    {
        proof {
            vstd::arithmetic::mul::lemma_mul_basics(self.fr().n);
            vstd::arithmetic::mul::lemma_mul_by_zero_is_zero(self.fr().d);
        }
        self.n == 0
    }

    /// Exact order test, by cross multiplication.
    pub fn le(self, o: Rat) -> (r: bool)
        requires
            self.wf(),
            o.wf(),
        ensures
            r == f_le(self.fr(), o.fr()),
    {
        proof {
            lemma_mul_bound(self.fr().n, o.fr().d, MAG as int, MAG as int);
            lemma_mul_bound(o.fr().n, self.fr().d, MAG as int, MAG as int);
        }
        (self.n as i128) * (o.d as i128) <= (o.n as i128) * (self.d as i128)
    }

    /// Exact strict order test.
    pub fn lt(self, o: Rat) -> (r: bool)
        requires
            self.wf(),
            o.wf(),
        ensures
            r == f_lt(self.fr(), o.fr()),
    {
        proof {
            lemma_mul_bound(self.fr().n, o.fr().d, MAG as int, MAG as int);
            lemma_mul_bound(o.fr().n, self.fr().d, MAG as int, MAG as int);
        }
        (self.n as i128) * (o.d as i128) < (o.n as i128) * (self.d as i128)
    }

    /// Exact equality of the denoted rationals.
    pub fn eqv(self, o: Rat) -> (r: bool)
        requires
            self.wf(),
            o.wf(),
        ensures
            r == f_eq(self.fr(), o.fr()),
    {
        proof {
            lemma_mul_bound(self.fr().n, o.fr().d, MAG as int, MAG as int);
            lemma_mul_bound(o.fr().n, self.fr().d, MAG as int, MAG as int);
        }
        (self.n as i128) * (o.d as i128) == (o.n as i128) * (self.d as i128)
    }

    /// The larger of the two scalars.
    pub fn max_of(self, o: Rat) -> (r: Rat)
        requires
            self.wf(),
            o.wf(),
        ensures
            r.wf(),
            r.fr() == f_max(self.fr(), o.fr()),
    {
        if self.le(o) {
            o
        } else {
            self
        }
    }

    /// The smaller of the two scalars.
    pub fn min_of(self, o: Rat) -> (r: Rat)
        requires
            self.wf(),
            o.wf(),
        ensures
            r.wf(),
            r.fr() == f_min(self.fr(), o.fr()),
    {
        if self.le(o) {
            self
        } else {
            o
        }
    }
}

/// A product of positive factors is positive.
proof fn lemma_pos_mul(x: int, y: int)
    by (nonlinear_arith)
    requires
        x > 0,
        y > 0,
    ensures
        x * y > 0,
{
}

/// Normalize the exact fraction `n / d` by its greatest common divisor and
/// narrow it to the 64-bit representation. Returns `None` exactly when the
/// normalized fraction exceeds the bounds.
fn norm_parts(n: i128, d: i128) -> (r: Option<Rat>)
    requires
        d > 0,
        n > i128::MIN,
    ensures
        (r is Some) == f_fits(f_norm(Frac { n: n as int, d: d as int })),
        r matches Some(q) ==> q.wf() && q.fr() == f_norm(Frac { n: n as int, d: d as int })
            && f_eq(q.fr(), Frac { n: n as int, d: d as int }),
{
    let ghost fi = Frac { n: n as int, d: d as int };
    let neg: bool = n < 0;
    let na: u128 = if n < 0 {
        (-n) as u128
    } else {
        n as u128
    };
    proof {
        assert(na as int == vstd::math::abs(fi.n) as int);
    }
    let g: u128 = gcd_exec(na, d as u128);
    proof {
        lemma_gcd_divides(na as int, d as int);
    }
    let nn: u128 = na / g;
    let dd: u128 = (d as u128) / g;
    let ghost gi = g as int;
    proof {
        // The executable quotients match the specification's normalization.
        lemma_div_exact(d as int, gi);
        assert(dd as int == fi.d / gi);
        if n < 0 {
            lemma_neg_div(fi.n, gi);
        }
        // Positive denominator after normalization.
        assert(dd as int * gi == fi.d);
        assert(dd as int > 0) by (nonlinear_arith)
            requires
                dd as int * gi == fi.d,
                fi.d > 0,
                gi > 0,
        ;
        lemma_norm_same(fi);
    }
    if nn <= MAG as u128 && dd <= MAG as u128 {
        let q = Rat {
            n: if neg {
                -(nn as i64)
            } else {
                nn as i64
            },
            d: dd as i64,
        };
        proof {
            assert(q.fr() == f_norm(fi));
        }
        Some(q)
    } else {
        None
    }
}


/// The integer square root by bisection: the greatest `r` with `r * r <= t`.
fn isqrt_u128(t: u128) -> (r: u128)
    requires
        (t as int) < 0x40000000000000000000000000000000,
    ensures
        (r as int) * (r as int) <= t as int,
        (t as int) < ((r as int) + 1) * ((r as int) + 1),
{
    let mut lo: u128 = 0;
    let mut hi: u128 = 0x8000000000000000;
    proof {
        assert((hi as int) * (hi as int) == 0x40000000000000000000000000000000)
            by (nonlinear_arith)
            requires
                hi == 0x8000000000000000u128,
        ;
    }
    while hi - lo > 1
        invariant
            lo < hi,
            hi <= 0x8000000000000000u128,
            (lo as int) * (lo as int) <= t as int,
            (t as int) < (hi as int) * (hi as int),
        decreases hi - lo,
    {
        let mid: u128 = lo + (hi - lo) / 2;
        proof {
            assert((mid as int) * (mid as int) <= 0x40000000000000000000000000000000)
                by (nonlinear_arith)
                requires
                    mid as int <= 0x8000000000000000,
                    mid as int >= 0,
            ;
        }
        if mid * mid <= t {
            lo = mid;
        } else {
            hi = mid;
        }
    }
    lo
}

impl Rat {
    /// The square root of a nonnegative scalar, rounded down to a multiple
    /// of `1 / 32768`. The result `r` satisfies
    /// `r * r <= self < (r + 2/32768) * (r + 2/32768)`, so the error stays
    /// under `2 / 32768` whatever this scalar's own denominator is.
    pub fn sqrt_floor(self) -> (r: Rat)
        requires
            self.wf(),
            self.fr().n >= 0,
        ensures
            r.wf(),
            r.fr().n >= 0,
            r.fr().d == 32768,
            f_le(f_mul(r.fr(), r.fr()), self.fr()),
            f_lt(
                self.fr(),
                f_mul(
                    Frac { n: r.fr().n + 2, d: r.fr().d },
                    Frac { n: r.fr().n + 2, d: r.fr().d },
                ),
            ),
    {
        let nd2: u128 = (self.n as u128) * 1073741824u128;
        let t: u128 = nd2 / (self.d as u128);
        proof {
            assert(nd2 as int <= (MAG as int) * 0x40000000) by (nonlinear_arith)
                requires
                    nd2 as int == self.fr().n * 0x40000000,
                    0 <= self.fr().n <= MAG as int,
            ;
            assert(t as int <= nd2 as int) by {
                vstd::arithmetic::div_mod::lemma_div_is_ordered_by_denominator(
                    nd2 as int,
                    1,
                    self.fr().d,
                );
            }
        }
        let rn: u128 = isqrt_u128(t);
        proof {
            let sn = self.fr().n;
            let sd = self.fr().d;
            let rv = rn as int;
            let tv = t as int;
            // The root of a value within `2^92` is within `2^46`.
            assert(rv <= 0x400000000000) by (nonlinear_arith)
                requires
                    rv * rv <= tv,
                    tv <= (MAG as int) * 0x40000000,
                    rv >= 0,
            ;
            // Floor division: t * d <= n * 2^30 < t * d + d.
            vstd::arithmetic::div_mod::lemma_fundamental_div_mod(sn * 0x40000000, sd);
            assert(0 <= (sn * 0x40000000) % sd < sd) by {
                vstd::arithmetic::div_mod::lemma_mod_division_less_than_divisor(
                    sn * 0x40000000,
                    sd,
                );
            }
            // Lower bound: (rv/32768)^2 <= n/d.
            assert((rv * rv) * sd <= sn * (0x8000 * 0x8000)) by (nonlinear_arith)
                requires
                    rv * rv <= tv,
                    sn * 0x40000000 == sd * tv + (sn * 0x40000000) % sd,
                    0 <= (sn * 0x40000000) % sd,
                    sd > 0,
            ;
            // Upper bound: n/d < ((rv+2)/32768)^2.
            assert(sn * (0x8000 * 0x8000) < ((rv + 2) * (rv + 2)) * sd) by (nonlinear_arith)
                requires
                    tv < (rv + 1) * (rv + 1),
                    sn * 0x40000000 == sd * tv + (sn * 0x40000000) % sd,
                    (sn * 0x40000000) % sd < sd,
                    sd > 0,
                    rv >= 0,
            ;
        }
        Rat::from_wf_parts(rn as i64, 32768)
    }
}

} // verus!
