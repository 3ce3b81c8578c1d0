//! The mathematical model of the library: exact rational numbers as pairs of
//! unbounded integers, together with the greatest-common-divisor machinery
//! that the executable representation uses to normalize its results.
use vstd::prelude::*;

verus! {

/// A rational number `n / d`, used only in specifications. All executable
/// values of the library map into this model; a value is meaningful only
/// when its denominator is positive.
pub ghost struct Frac {
    pub n: int,
    pub d: int,
}

/// A denominator must be positive for the fraction to denote a rational.
pub open spec fn f_ok(f: Frac) -> bool {
    f.d > 0
}

/// Equality of the rationals the two fractions denote (cross multiplication).
pub open spec fn f_eq(a: Frac, b: Frac) -> bool {
    a.n * b.d == b.n * a.d
}

/// `a <= b` as rationals; meaningful when both denominators are positive.
pub open spec fn f_le(a: Frac, b: Frac) -> bool {
    a.n * b.d <= b.n * a.d
}

/// `a < b` as rationals; meaningful when both denominators are positive.
pub open spec fn f_lt(a: Frac, b: Frac) -> bool {
    a.n * b.d < b.n * a.d
}

/// The integer `i` as a fraction.
pub open spec fn f_int(i: int) -> Frac {
    Frac { n: i, d: 1 }
}

pub open spec fn f_add(a: Frac, b: Frac) -> Frac {
    Frac { n: a.n * b.d + b.n * a.d, d: a.d * b.d }
}

pub open spec fn f_sub(a: Frac, b: Frac) -> Frac {
    Frac { n: a.n * b.d - b.n * a.d, d: a.d * b.d }
}

pub open spec fn f_mul(a: Frac, b: Frac) -> Frac {
    Frac { n: a.n * b.n, d: a.d * b.d }
}

pub open spec fn f_neg(a: Frac) -> Frac {
    Frac { n: -a.n, d: a.d }
}

/// The reciprocal, with the sign moved into the numerator so that the
/// denominator stays positive whenever `a` is nonzero.
pub open spec fn f_inv(a: Frac) -> Frac {
    if a.n >= 0 {
        Frac { n: a.d, d: a.n }
    } else {
        Frac { n: -a.d, d: -a.n }
    }
}

pub open spec fn f_div(a: Frac, b: Frac) -> Frac {
    f_mul(a, f_inv(b))
}

pub open spec fn f_abs(a: Frac) -> Frac {
    if a.n >= 0 {
        a
    } else {
        f_neg(a)
    }
}

pub open spec fn f_min(a: Frac, b: Frac) -> Frac {
    if f_le(a, b) {
        a
    } else {
        b
    }
}

pub open spec fn f_max(a: Frac, b: Frac) -> Frac {
    if f_le(a, b) {
        b
    } else {
        a
    }
}

/// The fraction order is transitive.
pub proof fn lemma_f_le_trans(a: Frac, b: Frac, c: Frac)
    requires
        f_ok(a),
        f_ok(b),
        f_ok(c),
        f_le(a, b),
        f_le(b, c),
    ensures
        f_le(a, c),
{
    assert(a.n * c.d <= c.n * a.d) by (nonlinear_arith)
        requires
            a.n * b.d <= b.n * a.d,
            b.n * c.d <= c.n * b.d,
            a.d > 0,
            b.d > 0,
            c.d > 0,
    ;
}

/// The larger-of operation respects fraction equality.
pub proof fn lemma_f_max_congr(a: Frac, a2: Frac, b: Frac, b2: Frac)
    requires
        f_ok(a),
        f_ok(a2),
        f_ok(b),
        f_ok(b2),
        f_eq(a, a2),
        f_eq(b, b2),
    ensures
        f_eq(f_max(a, b), f_max(a2, b2)),
        f_eq(f_max(a2, b2), f_max(a, b)),
{
    lemma_f_le_congr(a, a2, b, b2);
}

proof fn lemma_sub_dist(u: int, v: int, z: int)
    by (nonlinear_arith)
    ensures
        (u - v) * z == u * z - v * z,
{
}

proof fn lemma_shuffle_pairs(a: int, b: int, c: int, d: int)
    by (nonlinear_arith)
    ensures
        (a * b) * (c * d) == (a * c) * (b * d),
{
}

/// Multiplication of fractions respects fraction equality.
pub proof fn lemma_f_mul_congr(a: Frac, a2: Frac, b: Frac, b2: Frac)
    requires
        f_ok(a),
        f_ok(a2),
        f_ok(b),
        f_ok(b2),
        f_eq(a, a2),
        f_eq(b, b2),
    ensures
        f_eq(f_mul(a, b), f_mul(a2, b2)),
{
    lemma_shuffle_pairs(a.n, b.n, a2.d, b2.d);
    lemma_shuffle_pairs(a2.n, b2.n, a.d, b.d);
    assert((a.n * a2.d) * (b.n * b2.d) == (a2.n * a.d) * (b2.n * b.d));
}

/// Subtraction of fractions respects fraction equality.
pub proof fn lemma_f_sub_congr(a: Frac, a2: Frac, b: Frac, b2: Frac)
    requires
        f_ok(a),
        f_ok(a2),
        f_ok(b),
        f_ok(b2),
        f_eq(a, a2),
        f_eq(b, b2),
    ensures
        f_eq(f_sub(a, b), f_sub(a2, b2)),
{
    let l = f_sub(a, b);
    let r = f_sub(a2, b2);
    lemma_sub_dist(a.n * b.d, b.n * a.d, a2.d * b2.d);
    lemma_shuffle_pairs(a.n, b.d, a2.d, b2.d);
    lemma_shuffle_pairs(b.n, a.d, b2.d, a2.d);
    assert((b.n * a.d) * (a2.d * b2.d) == (b.n * b2.d) * (a.d * a2.d)) by {
        lemma_shuffle_pairs(b.n, a.d, b2.d, a2.d);
        vstd::arithmetic::mul::lemma_mul_is_commutative(a2.d, b2.d);
        vstd::arithmetic::mul::lemma_mul_is_commutative(a.d, a2.d);
        lemma_shuffle_pairs(b.n, b2.d, a.d, a2.d);
    }
    assert((a.n * b.d - b.n * a.d) * (a2.d * b2.d) == (a.n * a2.d) * (b.d * b2.d) - (b.n * b2.d) * (
    a.d * a2.d));
    lemma_sub_dist(a2.n * b2.d, b2.n * a2.d, a.d * b.d);
    lemma_shuffle_pairs(a2.n, b2.d, a.d, b.d);
    assert((b2.n * a2.d) * (a.d * b.d) == (b2.n * b.d) * (a2.d * a.d)) by {
        lemma_shuffle_pairs(b2.n, a2.d, b.d, a.d);
        vstd::arithmetic::mul::lemma_mul_is_commutative(a.d, b.d);
        vstd::arithmetic::mul::lemma_mul_is_commutative(a2.d, a.d);
        lemma_shuffle_pairs(b2.n, b.d, a2.d, a.d);
    }
    assert((a2.n * b2.d - b2.n * a2.d) * (a.d * b.d) == (a2.n * a.d) * (b2.d * b.d) - (b2.n * b.d)
        * (a2.d * a.d));
    assert((a2.n * a.d) * (b.d * b2.d) == (a2.n * a.d) * (b2.d * b.d)) by {
        vstd::arithmetic::mul::lemma_mul_is_commutative(b.d, b2.d);
    }
    assert((b2.n * b.d) * (a.d * a2.d) == (b2.n * b.d) * (a2.d * a.d)) by {
        vstd::arithmetic::mul::lemma_mul_is_commutative(a.d, a2.d);
    }
    assert(l.n * r.d == (a.n * a2.d) * (b.d * b2.d) - (b.n * b2.d) * (a.d * a2.d));
    assert(r.n * l.d == (a2.n * a.d) * (b2.d * b.d) - (b2.n * b.d) * (a2.d * a.d));
    assert(l.n * r.d == r.n * l.d);
}

/// The reciprocal respects fraction equality on nonzero fractions.
pub proof fn lemma_f_inv_congr(b: Frac, b2: Frac)
    requires
        f_ok(b),
        f_ok(b2),
        f_eq(b, b2),
        b.n != 0,
    ensures
        b2.n != 0,
        f_ok(f_inv(b)),
        f_ok(f_inv(b2)),
        f_eq(f_inv(b), f_inv(b2)),
{
    assert((b.n > 0 ==> b2.n > 0) && (b.n < 0 ==> b2.n < 0) && b2.n != 0) by (nonlinear_arith)
        requires
            b.n * b2.d == b2.n * b.d,
            b.d > 0,
            b2.d > 0,
            b.n != 0,
    ;
    if b.n > 0 {
        assert(b.d * b2.n == b2.d * b.n) by (nonlinear_arith)
            requires
                b.n * b2.d == b2.n * b.d,
        ;
    } else {
        assert((-b.d) * (-b2.n) == (-b2.d) * (-b.n)) by (nonlinear_arith)
            requires
                b.n * b2.d == b2.n * b.d,
        ;
    }
}

/// Division of fractions respects fraction equality when the divisor is
/// nonzero.
pub proof fn lemma_f_div_congr(a: Frac, a2: Frac, b: Frac, b2: Frac)
    requires
        f_ok(a),
        f_ok(a2),
        f_ok(b),
        f_ok(b2),
        f_eq(a, a2),
        f_eq(b, b2),
        b.n != 0,
    ensures
        f_eq(f_div(a, b), f_div(a2, b2)),
        f_ok(f_div(a, b)),
        f_ok(f_div(a2, b2)),
{
    lemma_f_inv_congr(b, b2);
    lemma_f_mul_congr(a, a2, f_inv(b), f_inv(b2));
    assert(a.d * f_inv(b).d > 0) by (nonlinear_arith)
        requires
            a.d > 0,
            f_inv(b).d > 0,
    ;
    assert(a2.d * f_inv(b2).d > 0) by (nonlinear_arith)
        requires
            a2.d > 0,
            f_inv(b2).d > 0,
    ;
}

/// Subtracting and adding back the same fraction returns to the start.
pub proof fn lemma_f_sub_add_cancel(a: Frac, b: Frac)
    requires
        f_ok(a),
        f_ok(b),
    ensures
        f_eq(f_add(f_sub(a, b), b), a),
{
    let l = f_add(f_sub(a, b), b);
    assert(l.n * a.d == a.n * l.d) by (nonlinear_arith)
        requires
            l.n == (a.n * b.d - b.n * a.d) * b.d + b.n * (a.d * b.d),
            l.d == (a.d * b.d) * b.d,
    ;
}

/// Dividing by a nonzero fraction and multiplying back returns to the start.
pub proof fn lemma_f_div_mul_cancel(a: Frac, b: Frac)
    requires
        f_ok(a),
        f_ok(b),
        b.n != 0,
    ensures
        f_eq(f_mul(f_div(a, b), b), a),
        f_ok(f_div(a, b)),
{
    let iv = f_inv(b);
    assert(iv.d > 0);
    assert(a.d * iv.d > 0) by (nonlinear_arith)
        requires
            a.d > 0,
            iv.d > 0,
    ;
    let l = f_mul(f_div(a, b), b);
    if b.n >= 0 {
        assert(l.n * a.d == a.n * l.d) by (nonlinear_arith)
            requires
                l.n == (a.n * b.d) * b.n,
                l.d == (a.d * b.n) * b.d,
        ;
    } else {
        assert(l.n * a.d == a.n * l.d) by (nonlinear_arith)
            requires
                l.n == (a.n * -b.d) * b.n,
                l.d == (a.d * -b.n) * b.d,
        ;
    }
}

/// Adding and subtracting back the same fraction returns to the start.
pub proof fn lemma_f_add_sub_cancel(a: Frac, b: Frac)
    requires
        f_ok(a),
        f_ok(b),
    ensures
        f_eq(f_sub(f_add(a, b), a), b),
{
    let l = f_sub(f_add(a, b), a);
    assert(l.n * b.d == b.n * l.d) by (nonlinear_arith)
        requires
            l.n == (a.n * b.d + b.n * a.d) * a.d - a.n * (a.d * b.d),
            l.d == (a.d * b.d) * a.d,
    ;
}

/// Multiplying by a nonzero fraction and dividing back returns to the start.
pub proof fn lemma_f_mul_div_cancel(a: Frac, b: Frac)
    requires
        f_ok(a),
        f_ok(b),
        b.n != 0,
    ensures
        f_eq(f_div(f_mul(a, b), b), a),
        f_ok(f_div(f_mul(a, b), b)),
{
    let l = f_div(f_mul(a, b), b);
    if b.n >= 0 {
        assert(l.n * a.d == a.n * l.d && l.d > 0) by (nonlinear_arith)
            requires
                l.n == (a.n * b.n) * b.d,
                l.d == (a.d * b.d) * b.n,
                a.d > 0,
                b.d > 0,
                b.n > 0,
        ;
    } else {
        assert(l.n * a.d == a.n * l.d && l.d > 0) by (nonlinear_arith)
            requires
                l.n == (a.n * b.n) * (-b.d),
                l.d == (a.d * b.d) * (-b.n),
                a.d > 0,
                b.d > 0,
                b.n < 0,
        ;
    }
}

/// Equal fractions are zero together.
pub proof fn lemma_f_eq_zero(a: Frac, b: Frac)
    requires
        f_ok(a),
        f_ok(b),
        f_eq(a, b),
    ensures
        (a.n == 0) == (b.n == 0),
{
    assert((a.n == 0) == (b.n == 0)) by (nonlinear_arith)
        requires
            a.n * b.d == b.n * a.d,
            a.d > 0,
            b.d > 0,
    ;
}

/// Multiplication of fractions is associative up to fraction equality.
pub proof fn lemma_f_mul_assoc(a: Frac, b: Frac, c: Frac)
    ensures
        f_eq(f_mul(f_mul(a, b), c), f_mul(a, f_mul(b, c))),
{
    vstd::arithmetic::mul::lemma_mul_is_associative(a.n, b.n, c.n);
    vstd::arithmetic::mul::lemma_mul_is_associative(a.d, b.d, c.d);
}

/// The greatest common divisor by Euclid's recursion; the executable
/// normalization loop follows this definition step for step.
pub open spec fn gcd(a: int, b: int) -> int
    recommends
        a >= 0,
        b >= 0,
    decreases b,
        when b >= 0
{
    if b <= 0 {
        a
    } else {
        gcd(b, a % b)
    }
}

/// Euclid's recursion yields a positive result whenever either argument is
/// positive.
pub proof fn lemma_gcd_pos(a: int, b: int)
    requires
        a >= 0,
        b >= 0,
        a > 0 || b > 0,
    ensures
        gcd(a, b) > 0,
    decreases b,
{
    if b <= 0 {
    } else {
        assert(a % b >= 0 && a % b < b) by {
            vstd::arithmetic::div_mod::lemma_mod_division_less_than_divisor(a, b);
        }
        lemma_gcd_pos(b, a % b);
    }
}

/// The greatest common divisor divides both of its arguments.
pub proof fn lemma_gcd_divides(a: int, b: int)
    requires
        a >= 0,
        b >= 0,
        a > 0 || b > 0,
    ensures
        gcd(a, b) > 0,
        a % gcd(a, b) == 0,
        b % gcd(a, b) == 0,
    decreases b,
{
    lemma_gcd_pos(a, b);
    if b <= 0 {
        vstd::arithmetic::div_mod::lemma_mod_self_0(a);
        assert(b == 0);
        assert(b % a == 0) by {
            vstd::arithmetic::div_mod::lemma_small_mod(0, a as nat);
        }
    } else {
        assert(a % b >= 0 && a % b < b) by {
            vstd::arithmetic::div_mod::lemma_mod_division_less_than_divisor(a, b);
        }
        lemma_gcd_divides(b, a % b);
        let g = gcd(b, a % b);
        // a == b * (a / b) + a % b, and g divides both summands.
        vstd::arithmetic::div_mod::lemma_fundamental_div_mod(a, b);
        lemma_mod_multiple_product(a / b, b, g);
        assert((b * (a / b) + a % b) % g == 0) by {
            vstd::arithmetic::div_mod::lemma_add_mod_noop(b * (a / b), a % b, g);
        }
    }
}

/// If `g` divides `b` then `g` divides any multiple `q * b`.
proof fn lemma_mod_multiple_product(q: int, b: int, g: int)
    requires
        g > 0,
        b % g == 0,
    ensures
        (b * q) % g == 0,
{
    vstd::arithmetic::div_mod::lemma_fundamental_div_mod(b, g);
    assert(b == g * (b / g));
    assert(b * q == g * ((b / g) * q)) by {
        vstd::arithmetic::mul::lemma_mul_is_associative(g, b / g, q);
    }
    vstd::arithmetic::div_mod::lemma_mod_multiples_basic((b / g) * q, g);
}

/// Exact division: if `g` divides `x` then `x / g * g == x`, also for
/// negative `x`.
pub proof fn lemma_div_exact(x: int, g: int)
    requires
        g > 0,
        x % g == 0,
    ensures
        (x / g) * g == x,
{
    vstd::arithmetic::div_mod::lemma_fundamental_div_mod(x, g);
    vstd::arithmetic::mul::lemma_mul_is_commutative(x / g, g);
}

/// A fraction normalized by the greatest common divisor of its numerator's
/// magnitude and its denominator. This is exactly what the executable
/// operations return when the result fits.
pub open spec fn f_norm(f: Frac) -> Frac
    recommends
        f_ok(f),
{
    let g = gcd(vstd::math::abs(f.n) as int, f.d);
    Frac { n: f.n / g, d: f.d / g }
}

/// The magnitude bound of the executable representation: `2^62`.
pub const MAG: i64 = 4611686018427387904;

/// Whether a fraction fits the executable representation.
pub open spec fn f_fits(f: Frac) -> bool {
    -(MAG as int) <= f.n <= MAG as int && 0 < f.d <= MAG as int
}

/// Normalization keeps the denominator positive and does not change the
/// rational the fraction denotes.
pub proof fn lemma_norm_same(f: Frac)
    requires
        f_ok(f),
    ensures
        f_ok(f_norm(f)),
        f_eq(f_norm(f), f),
        f_eq(f, f_norm(f)),
{
    let a = vstd::math::abs(f.n) as int;
    let g = gcd(a, f.d);
    lemma_gcd_divides(a, f.d);
    lemma_abs_mod(f.n, g);
    lemma_div_exact(f.n, g);
    lemma_div_exact(f.d, g);
    let nn = f.n / g;
    let dd = f.d / g;
    assert(dd * g == f.d);
    assert(dd > 0) by (nonlinear_arith)
        requires
            dd * g == f.d,
            f.d > 0,
            g > 0,
    ;
    // (f.n / g) * f.d == f.n * (f.d / g): both equal nn * dd * g.
    assert(nn * f.d == f.n * dd) by {
        assert(nn * (dd * g) == (nn * dd) * g) by {
            vstd::arithmetic::mul::lemma_mul_is_associative(nn, dd, g);
        }
        assert((nn * g) * dd == (nn * dd) * g) by {
            vstd::arithmetic::mul::lemma_mul_is_associative(nn, g, dd);
            vstd::arithmetic::mul::lemma_mul_is_commutative(g, dd);
            vstd::arithmetic::mul::lemma_mul_is_associative(nn, dd, g);
        }
    }
}

/// Fraction equality is transitive.
pub proof fn lemma_f_eq_trans(a: Frac, b: Frac, c: Frac)
    requires
        f_ok(a),
        f_ok(b),
        f_ok(c),
        f_eq(a, b),
        f_eq(b, c),
    ensures
        f_eq(a, c),
{
    assert(a.n * c.d == c.n * a.d) by (nonlinear_arith)
        requires
            a.n * b.d == b.n * a.d,
            b.n * c.d == c.n * b.d,
            b.d > 0,
    ;
}

/// Replacing either side of a comparison by an equal fraction keeps the
/// comparison, both for `<=` and for `<`.
pub proof fn lemma_f_le_congr(a: Frac, a2: Frac, b: Frac, b2: Frac)
    requires
        f_ok(a),
        f_ok(a2),
        f_ok(b),
        f_ok(b2),
        f_eq(a, a2),
        f_eq(b, b2),
    ensures
        f_le(a, b) == f_le(a2, b2),
        f_lt(a, b) == f_lt(a2, b2),
{
    assert(f_le(a, b) ==> f_le(a2, b2)) by (nonlinear_arith)
        requires
            a.n * b.d <= b.n * a.d ==> a.n * b.d <= b.n * a.d,
            a.n * a2.d == a2.n * a.d,
            b.n * b2.d == b2.n * b.d,
            a.d > 0,
            a2.d > 0,
            b.d > 0,
            b2.d > 0,
    ;
    assert(f_le(a2, b2) ==> f_le(a, b)) by (nonlinear_arith)
        requires
            a.n * a2.d == a2.n * a.d,
            b.n * b2.d == b2.n * b.d,
            a.d > 0,
            a2.d > 0,
            b.d > 0,
            b2.d > 0,
    ;
    assert(f_lt(a, b) ==> f_lt(a2, b2)) by (nonlinear_arith)
        requires
            a.n * a2.d == a2.n * a.d,
            b.n * b2.d == b2.n * b.d,
            a.d > 0,
            a2.d > 0,
            b.d > 0,
            b2.d > 0,
    ;
    assert(f_lt(a2, b2) ==> f_lt(a, b)) by (nonlinear_arith)
        requires
            a.n * a2.d == a2.n * a.d,
            b.n * b2.d == b2.n * b.d,
            a.d > 0,
            a2.d > 0,
            b.d > 0,
            b2.d > 0,
    ;
}

/// The smaller-of operation respects fraction equality.
pub proof fn lemma_f_min_congr(a: Frac, a2: Frac, b: Frac, b2: Frac)
    requires
        f_ok(a),
        f_ok(a2),
        f_ok(b),
        f_ok(b2),
        f_eq(a, a2),
        f_eq(b, b2),
    ensures
        f_eq(f_min(a, b), f_min(a2, b2)),
        f_eq(f_min(a2, b2), f_min(a, b)),
{
    lemma_f_le_congr(a, a2, b, b2);
}

/// Divisibility is transitive: if `g` divides `h` and `h` divides `y`, then
/// `g` divides `y`.
pub proof fn lemma_divides_trans(g: int, h: int, y: int)
    requires
        g > 0,
        h > 0,
        h % g == 0,
        y % h == 0,
    ensures
        y % g == 0,
{
    vstd::arithmetic::div_mod::lemma_fundamental_div_mod(y, h);
    vstd::arithmetic::div_mod::lemma_fundamental_div_mod(h, g);
    assert(y == g * ((h / g) * (y / h))) by {
        vstd::arithmetic::mul::lemma_mul_is_associative(g, h / g, y / h);
    }
    vstd::arithmetic::div_mod::lemma_mod_multiples_basic((h / g) * (y / h), g);
}

/// Dividing numerator and denominator by a common exact divisor keeps the
/// denoted rational and the positive denominator.
pub proof fn lemma_div_pair_eq(n: int, d: int, g: int)
    requires
        g > 0,
        d > 0,
        n % g == 0,
        d % g == 0,
    ensures
        d / g > 0,
        f_eq(Frac { n: n / g, d: d / g }, Frac { n: n, d: d }),
        f_eq(Frac { n: n, d: d }, Frac { n: n / g, d: d / g }),
{
    lemma_div_exact(n, g);
    lemma_div_exact(d, g);
    let nn = n / g;
    let dd = d / g;
    assert(dd > 0) by (nonlinear_arith)
        requires
            dd * g == d,
            d > 0,
            g > 0,
    ;
    assert(nn * d == n * dd) by (nonlinear_arith)
        requires
            nn * g == n,
            dd * g == d,
    ;
}

/// Division of a negative integer by an exact divisor of its magnitude
/// equals the negated quotient of the magnitude.
pub proof fn lemma_neg_div(x: int, g: int)
    requires
        g > 0,
        x < 0,
        (vstd::math::abs(x) as int) % g == 0,
    ensures
        x / g == -((vstd::math::abs(x) as int) / g),
{
    let a = vstd::math::abs(x) as int;
    lemma_div_exact(a, g);
    let k = a / g;
    assert(x == g * (-k)) by {
        vstd::arithmetic::mul::lemma_mul_unary_negation(g, k);
        vstd::arithmetic::mul::lemma_mul_is_commutative(k, g);
    }
    assert((g * (-k)) / g == -k) by {
        vstd::arithmetic::div_mod::lemma_div_multiples_vanish(-k, g);
    }
}

/// If `g` divides `|x|` it divides `x`.
pub proof fn lemma_abs_mod(x: int, g: int)
    requires
        g > 0,
        (vstd::math::abs(x) as int) % g == 0,
    ensures
        x % g == 0,
{
    if x >= 0 {
    } else {
        let a = vstd::math::abs(x) as int;
        vstd::arithmetic::div_mod::lemma_fundamental_div_mod(a, g);
        assert(x == g * (-(a / g))) by {
            vstd::arithmetic::mul::lemma_mul_unary_negation(g, a / g);
        }
        vstd::arithmetic::div_mod::lemma_mod_multiples_basic(-(a / g), g);
    }
}

} // verus!
