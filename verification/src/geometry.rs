//! Points and affine transform matrices over exact rationals.
//!
//! A point or matrix keeps one shared positive denominator for all of its
//! components, so that composing transforms and applying them to points is a
//! polynomial computation over the numerators. Executable values are bounded
//! by `MAG`; every operation computes the exact result, normalizes it by the
//! greatest common divisor of all components, and reports `None` exactly when
//! the normalized result does not fit.
use vstd::prelude::*;

use crate::frac::{
    f_eq, gcd, lemma_abs_mod, lemma_div_exact, lemma_div_pair_eq, lemma_divides_trans,
    lemma_gcd_divides, lemma_neg_div, Frac, MAG,
};
use crate::rat::{gcd_exec, Rat};

verus! {

/// A point `(x / den, y / den)`, used in specifications.
pub ghost struct FPoint {
    pub x: int,
    pub y: int,
    pub den: int,
}

pub open spec fn fp_ok(p: FPoint) -> bool {
    p.den > 0
}

/// The x coordinate as a fraction.
pub open spec fn fp_x(p: FPoint) -> Frac {
    Frac { n: p.x, d: p.den }
}

/// The y coordinate as a fraction.
pub open spec fn fp_y(p: FPoint) -> Frac {
    Frac { n: p.y, d: p.den }
}

/// Two points denote the same location.
pub open spec fn fp_eq(p: FPoint, q: FPoint) -> bool {
    f_eq(fp_x(p), fp_x(q)) && f_eq(fp_y(p), fp_y(q))
}

/// An affine plane transform, used in specifications: the map
/// `(x, y) |-> ((a x + b y) / den + tx / den, (c x + d y) / den + ty / den)`.
pub ghost struct FMat {
    pub a: int,
    pub b: int,
    pub c: int,
    pub d: int,
    pub tx: int,
    pub ty: int,
    pub den: int,
}

pub open spec fn fm_ok(m: FMat) -> bool {
    m.den > 0
}

pub open spec fn fm_a(m: FMat) -> Frac {
    Frac { n: m.a, d: m.den }
}

pub open spec fn fm_b(m: FMat) -> Frac {
    Frac { n: m.b, d: m.den }
}

pub open spec fn fm_c(m: FMat) -> Frac {
    Frac { n: m.c, d: m.den }
}

pub open spec fn fm_d(m: FMat) -> Frac {
    Frac { n: m.d, d: m.den }
}

pub open spec fn fm_tx(m: FMat) -> Frac {
    Frac { n: m.tx, d: m.den }
}

pub open spec fn fm_ty(m: FMat) -> Frac {
    Frac { n: m.ty, d: m.den }
}

/// The exact image of point `p` under transform `m`.
pub open spec fn fm_apply(m: FMat, p: FPoint) -> FPoint {
    FPoint {
        x: m.a * p.x + m.b * p.y + m.tx * p.den,
        y: m.c * p.x + m.d * p.y + m.ty * p.den,
        den: m.den * p.den,
    }
}

/// The exact composition `outer after inner`: applying the result equals
/// applying `inner` first, then `outer`.
pub open spec fn fm_compose(o: FMat, i: FMat) -> FMat {
    FMat {
        a: o.a * i.a + o.b * i.c,
        b: o.a * i.b + o.b * i.d,
        c: o.c * i.a + o.d * i.c,
        d: o.c * i.b + o.d * i.d,
        tx: o.a * i.tx + o.b * i.ty + o.tx * i.den,
        ty: o.c * i.tx + o.d * i.ty + o.ty * i.den,
        den: o.den * i.den,
    }
}

pub open spec fn fm_identity() -> FMat {
    FMat { a: 1, b: 0, c: 0, d: 1, tx: 0, ty: 0, den: 1 }
}

/// Distributivity helpers, each small enough for the nonlinear solver.
proof fn lemma_dist2r(u: int, v: int, z: int)
    by (nonlinear_arith)
    ensures
        (u + v) * z == u * z + v * z,
{
}

proof fn lemma_dist3r(u: int, v: int, w: int, z: int)
    by (nonlinear_arith)
    ensures
        (u + v + w) * z == u * z + v * z + w * z,
{
}

proof fn lemma_dist3l(z: int, u: int, v: int, w: int)
    by (nonlinear_arith)
    ensures
        z * (u + v + w) == z * u + z * v + z * w,
{
}

proof fn lemma_assoc3(a: int, x: int, z: int)
    by (nonlinear_arith)
    ensures
        (a * x) * z == a * (x * z),
{
}

proof fn lemma_prod_shuffle(a: int, x: int, m: int, q: int)
    by (nonlinear_arith)
    ensures
        (a * x) * (m * q) == m * (a * (x * q)),
{
}

/// One row of the composition identity: multiplying out a composed row and
/// applying it to a point equals applying the two rows in sequence.
proof fn lemma_row_expand(
    a1: int,
    a2: int,
    t: int,
    i1: int,
    i2: int,
    i3: int,
    i4: int,
    i5: int,
    i6: int,
    iden: int,
    px: int,
    py: int,
    pden: int,
)
    ensures
        (a1 * i1 + a2 * i4) * px + (a1 * i2 + a2 * i5) * py + (a1 * i3 + a2 * i6 + t * iden)
            * pden == a1 * (i1 * px + i2 * py + i3 * pden) + a2 * (i4 * px + i5 * py + i6 * pden)
            + t * (iden * pden),
{
    lemma_dist2r(a1 * i1, a2 * i4, px);
    lemma_dist2r(a1 * i2, a2 * i5, py);
    lemma_dist3r(a1 * i3, a2 * i6, t * iden, pden);
    lemma_assoc3(a1, i1, px);
    lemma_assoc3(a2, i4, px);
    lemma_assoc3(a1, i2, py);
    lemma_assoc3(a2, i5, py);
    lemma_assoc3(a1, i3, pden);
    lemma_assoc3(a2, i6, pden);
    lemma_assoc3(t, iden, pden);
    lemma_dist3l(a1, i1 * px, i2 * py, i3 * pden);
    lemma_dist3l(a2, i4 * px, i5 * py, i6 * pden);
}

/// Composition means sequential application, exactly: the composed matrix
/// applied to any point is the very same fraction as applying the inner
/// transform first and the outer one second.
pub proof fn lemma_compose_apply(o: FMat, i: FMat, p: FPoint)
    ensures
        fm_apply(fm_compose(o, i), p) == fm_apply(o, fm_apply(i, p)),
{
    lemma_row_expand(
        o.a,
        o.b,
        o.tx,
        i.a,
        i.b,
        i.tx,
        i.c,
        i.d,
        i.ty,
        i.den,
        p.x,
        p.y,
        p.den,
    );
    lemma_row_expand(
        o.c,
        o.d,
        o.ty,
        i.a,
        i.b,
        i.tx,
        i.c,
        i.d,
        i.ty,
        i.den,
        p.x,
        p.y,
        p.den,
    );
    lemma_assoc3(o.den, i.den, p.den);
}

/// One row of the substitution identity: scaling a row product by the shared
/// denominators lets equal coordinates replace each other.
proof fn lemma_row_scale(a: int, b: int, t: int, m: int, x: int, y: int, d: int, q: int)
    ensures
        (a * x + b * y + t * d) * (m * q) == m * (a * (x * q) + b * (y * q) + t * (d * q)),
{
    lemma_dist3r(a * x, b * y, t * d, m * q);
    lemma_prod_shuffle(a, x, m, q);
    lemma_prod_shuffle(b, y, m, q);
    lemma_prod_shuffle(t, d, m, q);
    lemma_dist3l(m, a * (x * q), b * (y * q), t * (d * q));
}

/// Applying a transform to either of two points that denote the same
/// location yields the same location.
pub proof fn lemma_apply_point_eq(m: FMat, p: FPoint, q: FPoint)
    requires
        fm_ok(m),
        fp_ok(p),
        fp_ok(q),
        fp_eq(p, q),
    ensures
        fp_eq(fm_apply(m, p), fm_apply(m, q)),
{
    let l = fm_apply(m, p);
    let r = fm_apply(m, q);
    lemma_row_scale(m.a, m.b, m.tx, m.den, p.x, p.y, p.den, q.den);
    lemma_row_scale(m.a, m.b, m.tx, m.den, q.x, q.y, q.den, p.den);
    lemma_row_scale(m.c, m.d, m.ty, m.den, p.x, p.y, p.den, q.den);
    lemma_row_scale(m.c, m.d, m.ty, m.den, q.x, q.y, q.den, p.den);
    // The scaled sums agree term by term once the equal coordinates are
    // substituted.
    assert(m.a * (p.x * q.den) == m.a * (q.x * p.den));
    assert(m.b * (p.y * q.den) == m.b * (q.y * p.den));
    assert(m.c * (p.x * q.den) == m.c * (q.x * p.den));
    assert(m.d * (p.y * q.den) == m.d * (q.y * p.den));
    assert(m.tx * (p.den * q.den) == m.tx * (q.den * p.den)) by {
        vstd::arithmetic::mul::lemma_mul_is_commutative(p.den, q.den);
    }
    assert(m.ty * (p.den * q.den) == m.ty * (q.den * p.den)) by {
        vstd::arithmetic::mul::lemma_mul_is_commutative(p.den, q.den);
    }
    assert(l.x * r.den == r.x * l.den);
    assert(l.y * r.den == r.y * l.den);
}

/// Point equality is transitive.
pub proof fn lemma_fp_eq_trans(p: FPoint, q: FPoint, r: FPoint)
    requires
        fp_ok(p),
        fp_ok(q),
        fp_ok(r),
        fp_eq(p, q),
        fp_eq(q, r),
    ensures
        fp_eq(p, r),
{
    assert(p.x * r.den == r.x * p.den) by (nonlinear_arith)
        requires
            p.x * q.den == q.x * p.den,
            q.x * r.den == r.x * q.den,
            q.den > 0,
    ;
    assert(p.y * r.den == r.y * p.den) by (nonlinear_arith)
        requires
            p.y * q.den == q.y * p.den,
            q.y * r.den == r.y * q.den,
            q.den > 0,
    ;
}

/// The greatest common divisor of a point's components and denominator.
pub open spec fn gcd3(p: FPoint) -> int {
    gcd(
        vstd::math::abs(p.x) as int,
        gcd(vstd::math::abs(p.y) as int, p.den),
    )
}

/// The point normalized by the common divisor of all three components.
pub open spec fn fp_norm(p: FPoint) -> FPoint
    recommends
        fp_ok(p),
{
    let g = gcd3(p);
    FPoint { x: p.x / g, y: p.y / g, den: p.den / g }
}

/// Whether a point fits the executable representation.
pub open spec fn fp_fits(p: FPoint) -> bool {
    &&& -(MAG as int) <= p.x <= MAG as int
    &&& -(MAG as int) <= p.y <= MAG as int
    &&& 0 < p.den <= MAG as int
}

/// Point normalization keeps the denoted location and the positive
/// denominator.
pub proof fn lemma_fp_norm(p: FPoint)
    requires
        fp_ok(p),
    ensures
        fp_ok(fp_norm(p)),
        fp_eq(fp_norm(p), p),
        fp_eq(p, fp_norm(p)),
        gcd3(p) > 0,
        p.x % gcd3(p) == 0,
        p.y % gcd3(p) == 0,
        p.den % gcd3(p) == 0,
{
    let ax = vstd::math::abs(p.x) as int;
    let ay = vstd::math::abs(p.y) as int;
    let h = gcd(ay, p.den);
    lemma_gcd_divides(ay, p.den);
    let g = gcd(ax, h);
    lemma_gcd_divides(ax, h);
    lemma_divides_trans(g, h, ay);
    lemma_divides_trans(g, h, p.den);
    lemma_abs_mod(p.x, g);
    lemma_abs_mod(p.y, g);
    lemma_div_pair_eq(p.x, p.den, g);
    lemma_div_pair_eq(p.y, p.den, g);
}

/// An executable point: `(x / den, y / den)` with one shared positive
/// denominator.
#[derive(Clone, Copy, Debug)]
pub struct Point {
    x: i64,
    y: i64,
    den: i64,
}

/// Turn an exact signed quotient into its magnitude-quotient form, the form
/// the executable normalization computes.
proof fn lemma_signed_div(x: int, g: int)
    requires
        g > 0,
        x % g == 0,
    ensures
        x >= 0 ==> x / g == (vstd::math::abs(x) as int) / g,
        x < 0 ==> x / g == -((vstd::math::abs(x) as int) / g),
        x >= 0 ==> x / g >= 0,
        x < 0 ==> x / g <= 0,
{
    if x >= 0 {
        lemma_div_exact(x, g);
        assert(x / g >= 0) by (nonlinear_arith)
            requires
                (x / g) * g == x,
                x >= 0,
                g > 0,
        ;
    } else {
        assert((vstd::math::abs(x) as int) % g == 0) by {
            lemma_neg_abs_mod(x, g);
        }
        lemma_neg_div(x, g);
        let a = vstd::math::abs(x) as int;
        lemma_div_exact(a, g);
        assert(a / g >= 0) by (nonlinear_arith)
            requires
                (a / g) * g == a,
                a >= 0,
                g > 0,
        ;
    }
}

/// If `g` divides a negative `x` it divides `|x|`.
proof fn lemma_neg_abs_mod(x: int, g: int)
    requires
        g > 0,
        x < 0,
        x % g == 0,
    ensures
        (vstd::math::abs(x) as int) % g == 0,
{
    vstd::arithmetic::div_mod::lemma_fundamental_div_mod(x, g);
    let a = vstd::math::abs(x) as int;
    assert(a == g * (-(x / g))) by {
        vstd::arithmetic::mul::lemma_mul_unary_negation(g, x / g);
    }
    vstd::arithmetic::div_mod::lemma_mod_multiples_basic(-(x / g), g);
}

/// Normalize the exact point `(x / den, y / den)` and narrow it to the
/// 64-bit representation; `None` exactly when the normalized point exceeds
/// the bounds.
pub(crate) fn norm3_parts(x: i128, y: i128, den: i128) -> (r: Option<Point>)
    requires
        den > 0,
        x > i128::MIN,
        y > i128::MIN,
    ensures
        (r is Some) == fp_fits(fp_norm(FPoint { x: x as int, y: y as int, den: den as int })),
        r matches Some(p) ==> p.wf() && p.vp() == fp_norm(
            FPoint { x: x as int, y: y as int, den: den as int },
        ) && fp_eq(p.vp(), FPoint { x: x as int, y: y as int, den: den as int }),
{
    let ghost fp = FPoint { x: x as int, y: y as int, den: den as int };
    let xneg: bool = x < 0;
    let yneg: bool = y < 0;
    let ax: u128 = if x < 0 {
        (-x) as u128
    } else {
        x as u128
    };
    let ay: u128 = if y < 0 {
        (-y) as u128
    } else {
        y as u128
    };
    let h: u128 = gcd_exec(ay, den as u128);
    let g: u128 = gcd_exec(ax, h);
    proof {
        lemma_fp_norm(fp);
        lemma_signed_div(fp.x, g as int);
        lemma_signed_div(fp.y, g as int);
        lemma_div_exact(fp.den, g as int);
        if fp.x < 0 {
            lemma_neg_abs_mod(fp.x, g as int);
        }
        if fp.y < 0 {
            lemma_neg_abs_mod(fp.y, g as int);
        }
    }
    let nx: u128 = ax / g;
    let ny: u128 = ay / g;
    let nd: u128 = (den as u128) / g;
    if nx <= MAG as u128 && ny <= MAG as u128 && nd <= MAG as u128 {
        let p = Point {
            x: if xneg {
                -(nx as i64)
            } else {
                nx as i64
            },
            y: if yneg {
                -(ny as i64)
            } else {
                ny as i64
            },
            den: nd as i64,
        };
        proof {
            assert(p.vp() == fp_norm(fp));
        }
        Some(p)
    } else {
        None
    }
}

impl Point {
    /// The point this value denotes.
    pub closed spec fn vp(self) -> FPoint {
        FPoint { x: self.x as int, y: self.y as int, den: self.den as int }
    }

    /// Well-formed: positive denominator, all components within `MAG`.
    pub open spec fn wf(self) -> bool {
        fp_fits(self.vp())
    }

    /// The point with integer coordinates `(x, y)`.
    pub fn from_ints(x: i64, y: i64) -> (r: Point)
        requires
            -MAG <= x <= MAG,
            -MAG <= y <= MAG,
        ensures
            r.wf(),
            r.vp() == (FPoint { x: x as int, y: y as int, den: 1 }),
    {
        Point { x, y, den: 1 }
    }

    /// The point with the given rational coordinates, brought to one shared
    /// denominator and normalized.
    pub fn new(x: Rat, y: Rat) -> (r: Option<Point>)
        requires
            x.wf(),
            y.wf(),
        ensures
            r matches Some(p) ==> p.wf() && p.vp() == fp_norm(
                FPoint {
                    x: x.fr().n * y.fr().d,
                    y: y.fr().n * x.fr().d,
                    den: x.fr().d * y.fr().d,
                },
            ) && f_eq(fp_x(p.vp()), x.fr()) && f_eq(fp_y(p.vp()), y.fr()),
            (r is Some) == fp_fits(
                fp_norm(
                    FPoint {
                        x: x.fr().n * y.fr().d,
                        y: y.fr().n * x.fr().d,
                        den: x.fr().d * y.fr().d,
                    },
                ),
            ),
    {
        proof {
            crate::rat::lemma_rat_mul_bound(x.fr().n, y.fr().d);
            crate::rat::lemma_rat_mul_bound(y.fr().n, x.fr().d);
            crate::rat::lemma_rat_mul_bound(x.fr().d, y.fr().d);
            assert(x.fr().d * y.fr().d > 0) by (nonlinear_arith)
                requires
                    x.fr().d > 0,
                    y.fr().d > 0,
            ;
        }
        let xn: i128 = (x.num() as i128) * (y.den() as i128);
        let yn: i128 = (y.num() as i128) * (x.den() as i128);
        let dn: i128 = (x.den() as i128) * (y.den() as i128);
        let ghost cross = FPoint { x: xn as int, y: yn as int, den: dn as int };
        let r = norm3_parts(xn, yn, dn);
        proof {
            if r is Some {
                lemma_fp_norm(cross);
                let p = r->Some_0;
                // The shared-denominator form denotes the given coordinates.
                assert(f_eq(fp_x(cross), x.fr())) by (nonlinear_arith)
                    requires
                        cross.x == x.fr().n * y.fr().d,
                        cross.den == x.fr().d * y.fr().d,
                ;
                assert(f_eq(fp_y(cross), y.fr())) by (nonlinear_arith)
                    requires
                        cross.y == y.fr().n * x.fr().d,
                        cross.den == x.fr().d * y.fr().d,
                ;
                crate::frac::lemma_f_eq_trans(fp_x(p.vp()), fp_x(cross), x.fr());
                crate::frac::lemma_f_eq_trans(fp_y(p.vp()), fp_y(cross), y.fr());
            }
        }
        r
    }

    /// The raw components `(x, y, den)`.
    pub(crate) fn raw_parts(self) -> (r: (i64, i64, i64))
        ensures
            r.0 as int == self.vp().x,
            r.1 as int == self.vp().y,
            r.2 as int == self.vp().den,
    {
        (self.x, self.y, self.den)
    }

    /// The x coordinate.
    pub fn x(self) -> (r: Rat)
        requires
            self.wf(),
        ensures
            r.wf(),
            r.fr() == fp_x(self.vp()),
    {
        Rat::from_wf_parts(self.x, self.den)
    }

    /// The y coordinate.
    pub fn y(self) -> (r: Rat)
        requires
            self.wf(),
        ensures
            r.wf(),
            r.fr() == fp_y(self.vp()),
    {
        Rat::from_wf_parts(self.y, self.den)
    }

    /// The point with the y coordinate negated: the shape-to-screen y flip.
    pub fn flip_y(self) -> (r: Point)
        requires
            self.wf(),
        ensures
            r.wf(),
            r.vp() == (FPoint { x: self.vp().x, y: -self.vp().y, den: self.vp().den }),
    {
        Point { x: self.x, y: -self.y, den: self.den }
    }

    /// Whether the two points denote the same location.
    pub fn eqv(self, o: Point) -> (r: bool)
        requires
            self.wf(),
            o.wf(),
        ensures
            r == fp_eq(self.vp(), o.vp()),
    {
        proof {
            crate::rat::lemma_rat_mul_bound(self.vp().x, o.vp().den);
            crate::rat::lemma_rat_mul_bound(o.vp().x, self.vp().den);
            crate::rat::lemma_rat_mul_bound(self.vp().y, o.vp().den);
            crate::rat::lemma_rat_mul_bound(o.vp().y, self.vp().den);
        }
        (self.x as i128) * (o.den as i128) == (o.x as i128) * (self.den as i128)
            && (self.y as i128) * (o.den as i128) == (o.y as i128) * (self.den as i128)
    }
}


/// The greatest common divisor of all seven matrix components.
pub open spec fn gcd7(m: FMat) -> int {
    gcd(
        vstd::math::abs(m.a) as int,
        gcd(
            vstd::math::abs(m.b) as int,
            gcd(
                vstd::math::abs(m.c) as int,
                gcd(
                    vstd::math::abs(m.d) as int,
                    gcd(
                        vstd::math::abs(m.tx) as int,
                        gcd(vstd::math::abs(m.ty) as int, m.den),
                    ),
                ),
            ),
        ),
    )
}

/// The matrix normalized by the common divisor of all seven components.
pub open spec fn fm_norm(m: FMat) -> FMat
    recommends
        fm_ok(m),
{
    let g = gcd7(m);
    FMat {
        a: m.a / g,
        b: m.b / g,
        c: m.c / g,
        d: m.d / g,
        tx: m.tx / g,
        ty: m.ty / g,
        den: m.den / g,
    }
}

/// Whether a matrix fits the executable representation.
pub open spec fn fm_fits(m: FMat) -> bool {
    &&& -(MAG as int) <= m.a <= MAG as int
    &&& -(MAG as int) <= m.b <= MAG as int
    &&& -(MAG as int) <= m.c <= MAG as int
    &&& -(MAG as int) <= m.d <= MAG as int
    &&& -(MAG as int) <= m.tx <= MAG as int
    &&& -(MAG as int) <= m.ty <= MAG as int
    &&& 0 < m.den <= MAG as int
}

/// Matrix normalization keeps the positive denominator, divides every
/// component exactly, and keeps every entry's denoted fraction.
pub proof fn lemma_fm_norm(m: FMat)
    requires
        fm_ok(m),
    ensures
        fm_ok(fm_norm(m)),
        gcd7(m) > 0,
        m.a % gcd7(m) == 0,
        m.b % gcd7(m) == 0,
        m.c % gcd7(m) == 0,
        m.d % gcd7(m) == 0,
        m.tx % gcd7(m) == 0,
        m.ty % gcd7(m) == 0,
        m.den % gcd7(m) == 0,
        f_eq(fm_a(fm_norm(m)), fm_a(m)) && f_eq(fm_a(m), fm_a(fm_norm(m))),
        f_eq(fm_b(fm_norm(m)), fm_b(m)) && f_eq(fm_b(m), fm_b(fm_norm(m))),
        f_eq(fm_c(fm_norm(m)), fm_c(m)) && f_eq(fm_c(m), fm_c(fm_norm(m))),
        f_eq(fm_d(fm_norm(m)), fm_d(m)) && f_eq(fm_d(m), fm_d(fm_norm(m))),
        f_eq(fm_tx(fm_norm(m)), fm_tx(m)) && f_eq(fm_tx(m), fm_tx(fm_norm(m))),
        f_eq(fm_ty(fm_norm(m)), fm_ty(m)) && f_eq(fm_ty(m), fm_ty(fm_norm(m))),
{
    let aa = vstd::math::abs(m.a) as int;
    let ab = vstd::math::abs(m.b) as int;
    let ac = vstd::math::abs(m.c) as int;
    let ad = vstd::math::abs(m.d) as int;
    let atx = vstd::math::abs(m.tx) as int;
    let aty = vstd::math::abs(m.ty) as int;
    let t5 = gcd(aty, m.den);
    let t4 = gcd(atx, t5);
    let t3 = gcd(ad, t4);
    let t2 = gcd(ac, t3);
    let t1 = gcd(ab, t2);
    let g = gcd(aa, t1);
    lemma_gcd_divides(aty, m.den);
    lemma_gcd_divides(atx, t5);
    lemma_gcd_divides(ad, t4);
    lemma_gcd_divides(ac, t3);
    lemma_gcd_divides(ab, t2);
    lemma_gcd_divides(aa, t1);
    // Fold the chain down to divisibility of each component by `g`.
    lemma_divides_trans(g, t1, ab);
    lemma_divides_trans(g, t1, t2);
    lemma_divides_trans(g, t2, ac);
    lemma_divides_trans(g, t2, t3);
    lemma_divides_trans(g, t3, ad);
    lemma_divides_trans(g, t3, t4);
    lemma_divides_trans(g, t4, atx);
    lemma_divides_trans(g, t4, t5);
    lemma_divides_trans(g, t5, aty);
    lemma_divides_trans(g, t5, m.den);
    lemma_abs_mod(m.a, g);
    lemma_abs_mod(m.b, g);
    lemma_abs_mod(m.c, g);
    lemma_abs_mod(m.d, g);
    lemma_abs_mod(m.tx, g);
    lemma_abs_mod(m.ty, g);
    lemma_div_pair_eq(m.a, m.den, g);
    lemma_div_pair_eq(m.b, m.den, g);
    lemma_div_pair_eq(m.c, m.den, g);
    lemma_div_pair_eq(m.d, m.den, g);
    lemma_div_pair_eq(m.tx, m.den, g);
    lemma_div_pair_eq(m.ty, m.den, g);
}

/// An executable affine transform matrix with one shared positive
/// denominator: the map
/// `(x, y) |-> ((a x + b y + tx) / den, (c x + d y + ty) / den)`.
#[derive(Clone, Copy, Debug)]
pub struct Mat {
    a: i64,
    b: i64,
    c: i64,
    d: i64,
    tx: i64,
    ty: i64,
    den: i64,
}

/// Normalize the exact matrix and narrow it to the 64-bit representation;
/// `None` exactly when the normalized matrix exceeds the bounds.
pub(crate) fn norm7_parts(
    a: i128,
    b: i128,
    c: i128,
    d: i128,
    tx: i128,
    ty: i128,
    den: i128,
) -> (r: Option<Mat>)
    requires
        den > 0,
        a > i128::MIN,
        b > i128::MIN,
        c > i128::MIN,
        d > i128::MIN,
        tx > i128::MIN,
        ty > i128::MIN,
    ensures
        (r is Some) == fm_fits(
            fm_norm(
                FMat {
                    a: a as int,
                    b: b as int,
                    c: c as int,
                    d: d as int,
                    tx: tx as int,
                    ty: ty as int,
                    den: den as int,
                },
            ),
        ),
        r matches Some(m) ==> m.wf() && m.vm() == fm_norm(
            FMat {
                a: a as int,
                b: b as int,
                c: c as int,
                d: d as int,
                tx: tx as int,
                ty: ty as int,
                den: den as int,
            },
        ),
{
    let ghost fm = FMat {
        a: a as int,
        b: b as int,
        c: c as int,
        d: d as int,
        tx: tx as int,
        ty: ty as int,
        den: den as int,
    };
    let aa: u128 = if a < 0 {
        (-a) as u128
    } else {
        a as u128
    };
    let ab: u128 = if b < 0 {
        (-b) as u128
    } else {
        b as u128
    };
    let ac: u128 = if c < 0 {
        (-c) as u128
    } else {
        c as u128
    };
    let ad: u128 = if d < 0 {
        (-d) as u128
    } else {
        d as u128
    };
    let atx: u128 = if tx < 0 {
        (-tx) as u128
    } else {
        tx as u128
    };
    let aty: u128 = if ty < 0 {
        (-ty) as u128
    } else {
        ty as u128
    };
    let t5: u128 = gcd_exec(aty, den as u128);
    let t4: u128 = gcd_exec(atx, t5);
    let t3: u128 = gcd_exec(ad, t4);
    let t2: u128 = gcd_exec(ac, t3);
    let t1: u128 = gcd_exec(ab, t2);
    let g: u128 = gcd_exec(aa, t1);
    proof {
        lemma_fm_norm(fm);
        lemma_signed_div(fm.a, g as int);
        lemma_signed_div(fm.b, g as int);
        lemma_signed_div(fm.c, g as int);
        lemma_signed_div(fm.d, g as int);
        lemma_signed_div(fm.tx, g as int);
        lemma_signed_div(fm.ty, g as int);
        lemma_div_exact(fm.den, g as int);
        if fm.a < 0 {
            lemma_neg_abs_mod(fm.a, g as int);
        }
        if fm.b < 0 {
            lemma_neg_abs_mod(fm.b, g as int);
        }
        if fm.c < 0 {
            lemma_neg_abs_mod(fm.c, g as int);
        }
        if fm.d < 0 {
            lemma_neg_abs_mod(fm.d, g as int);
        }
        if fm.tx < 0 {
            lemma_neg_abs_mod(fm.tx, g as int);
        }
        if fm.ty < 0 {
            lemma_neg_abs_mod(fm.ty, g as int);
        }
    }
    let na: u128 = aa / g;
    let nb: u128 = ab / g;
    let nc: u128 = ac / g;
    let nd: u128 = ad / g;
    let ntx: u128 = atx / g;
    let nty: u128 = aty / g;
    let nden: u128 = (den as u128) / g;
    proof {
        assert(nden as int * (g as int) == fm.den);
        assert(nden as int > 0) by (nonlinear_arith)
            requires
                nden as int * (g as int) == fm.den,
                fm.den > 0,
                g as int > 0,
        ;
    }
    if na <= MAG as u128 && nb <= MAG as u128 && nc <= MAG as u128 && nd <= MAG as u128
        && ntx <= MAG as u128 && nty <= MAG as u128 && nden <= MAG as u128 {
        let m = Mat {
            a: if a < 0 {
                -(na as i64)
            } else {
                na as i64
            },
            b: if b < 0 {
                -(nb as i64)
            } else {
                nb as i64
            },
            c: if c < 0 {
                -(nc as i64)
            } else {
                nc as i64
            },
            d: if d < 0 {
                -(nd as i64)
            } else {
                nd as i64
            },
            tx: if tx < 0 {
                -(ntx as i64)
            } else {
                ntx as i64
            },
            ty: if ty < 0 {
                -(nty as i64)
            } else {
                nty as i64
            },
            den: nden as i64,
        };
        proof {
            assert(m.vm() == fm_norm(fm));
        }
        Some(m)
    } else {
        None
    }
}

impl Mat {
    /// The transform this value denotes.
    pub closed spec fn vm(self) -> FMat {
        FMat {
            a: self.a as int,
            b: self.b as int,
            c: self.c as int,
            d: self.d as int,
            tx: self.tx as int,
            ty: self.ty as int,
            den: self.den as int,
        }
    }

    /// Well-formed: positive denominator, all components within `MAG`.
    pub open spec fn wf(self) -> bool {
        fm_fits(self.vm())
    }

    /// Builds a matrix from components already known to be within bounds,
    /// without normalizing.
    pub(crate) fn from_wf_parts(a: i64, b: i64, c: i64, d: i64, tx: i64, ty: i64, den: i64) -> (r:
        Mat)
        requires
            -MAG <= a <= MAG,
            -MAG <= b <= MAG,
            -MAG <= c <= MAG,
            -MAG <= d <= MAG,
            -MAG <= tx <= MAG,
            -MAG <= ty <= MAG,
            0 < den <= MAG,
        ensures
            r.wf(),
            r.vm() == (FMat {
                a: a as int,
                b: b as int,
                c: c as int,
                d: d as int,
                tx: tx as int,
                ty: ty as int,
                den: den as int,
            }),
    {
        Mat { a, b, c, d, tx, ty, den }
    }

    /// The identity transform.
    pub fn identity() -> (r: Mat)
        ensures
            r.wf(),
            r.vm() == fm_identity(),
    {
        Mat { a: 1, b: 0, c: 0, d: 1, tx: 0, ty: 0, den: 1 }
    }

    /// The linear entry in row x, column x.
    pub fn entry_a(self) -> (r: Rat)
        requires
            self.wf(),
        ensures
            r.wf(),
            r.fr() == fm_a(self.vm()),
    {
        Rat::from_wf_parts(self.a, self.den)
    }

    /// The linear entry in row x, column y.
    pub fn entry_b(self) -> (r: Rat)
        requires
            self.wf(),
        ensures
            r.wf(),
            r.fr() == fm_b(self.vm()),
    {
        Rat::from_wf_parts(self.b, self.den)
    }

    /// The linear entry in row y, column x.
    pub fn entry_c(self) -> (r: Rat)
        requires
            self.wf(),
        ensures
            r.wf(),
            r.fr() == fm_c(self.vm()),
    {
        Rat::from_wf_parts(self.c, self.den)
    }

    /// The linear entry in row y, column y.
    pub fn entry_d(self) -> (r: Rat)
        requires
            self.wf(),
        ensures
            r.wf(),
            r.fr() == fm_d(self.vm()),
    {
        Rat::from_wf_parts(self.d, self.den)
    }

    /// The translation along x.
    pub fn entry_tx(self) -> (r: Rat)
        requires
            self.wf(),
        ensures
            r.wf(),
            r.fr() == fm_tx(self.vm()),
    {
        Rat::from_wf_parts(self.tx, self.den)
    }

    /// The translation along y.
    pub fn entry_ty(self) -> (r: Rat)
        requires
            self.wf(),
        ensures
            r.wf(),
            r.fr() == fm_ty(self.vm()),
    {
        Rat::from_wf_parts(self.ty, self.den)
    }

    /// The exact composition `self after inner`, normalized; `None` exactly
    /// when the normalized result does not fit the representation.
    pub fn compose(self, inner: &Mat) -> (r: Option<Mat>)
        requires
            self.wf(),
            inner.wf(),
        ensures
            (r is Some) == fm_fits(fm_norm(fm_compose(self.vm(), inner.vm()))),
            r matches Some(m) ==> m.wf() && m.vm() == fm_norm(fm_compose(self.vm(), inner.vm())),
    {
        proof {
            crate::rat::lemma_rat_mul_bound(self.vm().a, inner.vm().a);
            crate::rat::lemma_rat_mul_bound(self.vm().a, inner.vm().b);
            crate::rat::lemma_rat_mul_bound(self.vm().a, inner.vm().tx);
            crate::rat::lemma_rat_mul_bound(self.vm().b, inner.vm().c);
            crate::rat::lemma_rat_mul_bound(self.vm().b, inner.vm().d);
            crate::rat::lemma_rat_mul_bound(self.vm().b, inner.vm().ty);
            crate::rat::lemma_rat_mul_bound(self.vm().c, inner.vm().a);
            crate::rat::lemma_rat_mul_bound(self.vm().c, inner.vm().b);
            crate::rat::lemma_rat_mul_bound(self.vm().c, inner.vm().tx);
            crate::rat::lemma_rat_mul_bound(self.vm().d, inner.vm().c);
            crate::rat::lemma_rat_mul_bound(self.vm().d, inner.vm().d);
            crate::rat::lemma_rat_mul_bound(self.vm().d, inner.vm().ty);
            crate::rat::lemma_rat_mul_bound(self.vm().tx, inner.vm().den);
            crate::rat::lemma_rat_mul_bound(self.vm().ty, inner.vm().den);
            crate::rat::lemma_rat_mul_bound(self.vm().den, inner.vm().den);
            assert(self.vm().den * inner.vm().den > 0) by (nonlinear_arith)
                requires
                    self.vm().den > 0,
                    inner.vm().den > 0,
            ;
        }
        let a: i128 = (self.a as i128) * (inner.a as i128) + (self.b as i128) * (inner.c as i128);
        let b: i128 = (self.a as i128) * (inner.b as i128) + (self.b as i128) * (inner.d as i128);
        let c: i128 = (self.c as i128) * (inner.a as i128) + (self.d as i128) * (inner.c as i128);
        let d: i128 = (self.c as i128) * (inner.b as i128) + (self.d as i128) * (inner.d as i128);
        let tx: i128 = (self.a as i128) * (inner.tx as i128) + (self.b as i128) * (inner.ty
            as i128) + (self.tx as i128) * (inner.den as i128);
        let ty: i128 = (self.c as i128) * (inner.tx as i128) + (self.d as i128) * (inner.ty
            as i128) + (self.ty as i128) * (inner.den as i128);
        let den: i128 = (self.den as i128) * (inner.den as i128);
        norm7_parts(a, b, c, d, tx, ty, den)
    }

    /// The exact image of the point under this transform, normalized; `None`
    /// exactly when the normalized result does not fit the representation.
    pub fn apply(self, p: Point) -> (r: Option<Point>)
        requires
            self.wf(),
            p.wf(),
        ensures
            (r is Some) == fp_fits(fp_norm(fm_apply(self.vm(), p.vp()))),
            r matches Some(q) ==> q.wf() && q.vp() == fp_norm(fm_apply(self.vm(), p.vp()))
                && fp_eq(q.vp(), fm_apply(self.vm(), p.vp())),
    {
        proof {
            crate::rat::lemma_rat_mul_bound(self.vm().a, p.vp().x);
            crate::rat::lemma_rat_mul_bound(self.vm().b, p.vp().y);
            crate::rat::lemma_rat_mul_bound(self.vm().tx, p.vp().den);
            crate::rat::lemma_rat_mul_bound(self.vm().c, p.vp().x);
            crate::rat::lemma_rat_mul_bound(self.vm().d, p.vp().y);
            crate::rat::lemma_rat_mul_bound(self.vm().ty, p.vp().den);
            crate::rat::lemma_rat_mul_bound(self.vm().den, p.vp().den);
            assert(self.vm().den * p.vp().den > 0) by (nonlinear_arith)
                requires
                    self.vm().den > 0,
                    p.vp().den > 0,
            ;
        }
        let x: i128 = (self.a as i128) * (p.x as i128) + (self.b as i128) * (p.y as i128) + (
        self.tx as i128) * (p.den as i128);
        let y: i128 = (self.c as i128) * (p.x as i128) + (self.d as i128) * (p.y as i128) + (
        self.ty as i128) * (p.den as i128);
        let den: i128 = (self.den as i128) * (p.den as i128);
        let r = norm3_parts(x, y, den);
        proof {
            if r is Some {
                lemma_fp_norm(fm_apply(self.vm(), p.vp()));
            }
        }
        r
    }
}


/// Entry-by-entry equality of the fractions two matrices denote.
pub open spec fn fm_entries_eq(m: FMat, n: FMat) -> bool {
    &&& f_eq(fm_a(m), fm_a(n))
    &&& f_eq(fm_b(m), fm_b(n))
    &&& f_eq(fm_c(m), fm_c(n))
    &&& f_eq(fm_d(m), fm_d(n))
    &&& f_eq(fm_tx(m), fm_tx(n))
    &&& f_eq(fm_ty(m), fm_ty(n))
}

proof fn lemma_dist2l(z: int, u: int, v: int)
    by (nonlinear_arith)
    ensures
        z * (u + v) == z * u + z * v,
{
}

proof fn lemma_pair_scale(u: int, v: int, x: int, y: int, q: int, mm: int)
    ensures
        (u * x + v * y) * (mm * q) == mm * (u * (x * q) + v * (y * q)),
{
    lemma_dist2r(u * x, v * y, mm * q);
    lemma_prod_shuffle(u, x, mm, q);
    lemma_prod_shuffle(v, y, mm, q);
    lemma_dist2l(mm, u * (x * q), v * (y * q));
}

/// Entry equality is transitive.
pub proof fn lemma_fm_entries_eq_trans(m: FMat, n: FMat, o: FMat)
    requires
        fm_ok(m),
        fm_ok(n),
        fm_ok(o),
        fm_entries_eq(m, n),
        fm_entries_eq(n, o),
    ensures
        fm_entries_eq(m, o),
{
    crate::frac::lemma_f_eq_trans(fm_a(m), fm_a(n), fm_a(o));
    crate::frac::lemma_f_eq_trans(fm_b(m), fm_b(n), fm_b(o));
    crate::frac::lemma_f_eq_trans(fm_c(m), fm_c(n), fm_c(o));
    crate::frac::lemma_f_eq_trans(fm_d(m), fm_d(n), fm_d(o));
    crate::frac::lemma_f_eq_trans(fm_tx(m), fm_tx(n), fm_tx(o));
    crate::frac::lemma_f_eq_trans(fm_ty(m), fm_ty(n), fm_ty(o));
}

/// Composing with either of two entrywise-equal inner matrices yields
/// entrywise-equal results.
pub proof fn lemma_compose_right_eq(e: FMat, m: FMat, n: FMat)
    requires
        fm_ok(e),
        fm_ok(m),
        fm_ok(n),
        fm_entries_eq(m, n),
    ensures
        fm_ok(fm_compose(e, m)),
        fm_ok(fm_compose(e, n)),
        fm_entries_eq(fm_compose(e, m), fm_compose(e, n)),
{
    assert(e.den * m.den > 0) by (nonlinear_arith)
        requires
            e.den > 0,
            m.den > 0,
    ;
    assert(e.den * n.den > 0) by (nonlinear_arith)
        requires
            e.den > 0,
            n.den > 0,
    ;
    // Linear entries: two-term rows.
    lemma_pair_scale(e.a, e.b, m.a, m.c, n.den, e.den);
    lemma_pair_scale(e.a, e.b, n.a, n.c, m.den, e.den);
    lemma_pair_scale(e.a, e.b, m.b, m.d, n.den, e.den);
    lemma_pair_scale(e.a, e.b, n.b, n.d, m.den, e.den);
    lemma_pair_scale(e.c, e.d, m.a, m.c, n.den, e.den);
    lemma_pair_scale(e.c, e.d, n.a, n.c, m.den, e.den);
    lemma_pair_scale(e.c, e.d, m.b, m.d, n.den, e.den);
    lemma_pair_scale(e.c, e.d, n.b, n.d, m.den, e.den);
    // Translation entries: three-term rows.
    lemma_row_scale(e.a, e.b, e.tx, e.den, m.tx, m.ty, m.den, n.den);
    lemma_row_scale(e.a, e.b, e.tx, e.den, n.tx, n.ty, n.den, m.den);
    lemma_row_scale(e.c, e.d, e.ty, e.den, m.tx, m.ty, m.den, n.den);
    lemma_row_scale(e.c, e.d, e.ty, e.den, n.tx, n.ty, n.den, m.den);
    vstd::arithmetic::mul::lemma_mul_is_commutative(m.den, n.den);
}

/// Composing with either of two entrywise-equal outer matrices yields
/// entrywise-equal results.
pub proof fn lemma_compose_left_eq(e1: FMat, e2: FMat, m: FMat)
    requires
        fm_ok(e1),
        fm_ok(e2),
        fm_ok(m),
        fm_entries_eq(e1, e2),
    ensures
        fm_ok(fm_compose(e1, m)),
        fm_ok(fm_compose(e2, m)),
        fm_entries_eq(fm_compose(e1, m), fm_compose(e2, m)),
{
    assert(e1.den * m.den > 0) by (nonlinear_arith)
        requires
            e1.den > 0,
            m.den > 0,
    ;
    assert(e2.den * m.den > 0) by (nonlinear_arith)
        requires
            e2.den > 0,
            m.den > 0,
    ;
    // Reorder each row so the outer entries pair with the other outer
    // matrix's denominator, then substitute the equal entries.
    vstd::arithmetic::mul::lemma_mul_is_commutative(e1.a, m.a);
    vstd::arithmetic::mul::lemma_mul_is_commutative(e1.b, m.c);
    vstd::arithmetic::mul::lemma_mul_is_commutative(e1.a, m.b);
    vstd::arithmetic::mul::lemma_mul_is_commutative(e1.b, m.d);
    vstd::arithmetic::mul::lemma_mul_is_commutative(e1.c, m.a);
    vstd::arithmetic::mul::lemma_mul_is_commutative(e1.d, m.c);
    vstd::arithmetic::mul::lemma_mul_is_commutative(e1.c, m.b);
    vstd::arithmetic::mul::lemma_mul_is_commutative(e1.d, m.d);
    vstd::arithmetic::mul::lemma_mul_is_commutative(e1.a, m.tx);
    vstd::arithmetic::mul::lemma_mul_is_commutative(e1.b, m.ty);
    vstd::arithmetic::mul::lemma_mul_is_commutative(e1.tx, m.den);
    vstd::arithmetic::mul::lemma_mul_is_commutative(e1.c, m.tx);
    vstd::arithmetic::mul::lemma_mul_is_commutative(e1.d, m.ty);
    vstd::arithmetic::mul::lemma_mul_is_commutative(e1.ty, m.den);
    vstd::arithmetic::mul::lemma_mul_is_commutative(e2.a, m.a);
    vstd::arithmetic::mul::lemma_mul_is_commutative(e2.b, m.c);
    vstd::arithmetic::mul::lemma_mul_is_commutative(e2.a, m.b);
    vstd::arithmetic::mul::lemma_mul_is_commutative(e2.b, m.d);
    vstd::arithmetic::mul::lemma_mul_is_commutative(e2.c, m.a);
    vstd::arithmetic::mul::lemma_mul_is_commutative(e2.d, m.c);
    vstd::arithmetic::mul::lemma_mul_is_commutative(e2.c, m.b);
    vstd::arithmetic::mul::lemma_mul_is_commutative(e2.d, m.d);
    vstd::arithmetic::mul::lemma_mul_is_commutative(e2.a, m.tx);
    vstd::arithmetic::mul::lemma_mul_is_commutative(e2.b, m.ty);
    vstd::arithmetic::mul::lemma_mul_is_commutative(e2.tx, m.den);
    vstd::arithmetic::mul::lemma_mul_is_commutative(e2.c, m.tx);
    vstd::arithmetic::mul::lemma_mul_is_commutative(e2.d, m.ty);
    vstd::arithmetic::mul::lemma_mul_is_commutative(e2.ty, m.den);
    lemma_pair_scale(m.a, m.c, e1.a, e1.b, e2.den, m.den);
    lemma_pair_scale(m.a, m.c, e2.a, e2.b, e1.den, m.den);
    lemma_pair_scale(m.b, m.d, e1.a, e1.b, e2.den, m.den);
    lemma_pair_scale(m.b, m.d, e2.a, e2.b, e1.den, m.den);
    lemma_pair_scale(m.a, m.c, e1.c, e1.d, e2.den, m.den);
    lemma_pair_scale(m.a, m.c, e2.c, e2.d, e1.den, m.den);
    lemma_pair_scale(m.b, m.d, e1.c, e1.d, e2.den, m.den);
    lemma_pair_scale(m.b, m.d, e2.c, e2.d, e1.den, m.den);
    lemma_row_scale(m.tx, m.ty, m.den, m.den, e1.a, e1.b, e1.tx, e2.den);
    lemma_row_scale(m.tx, m.ty, m.den, m.den, e2.a, e2.b, e2.tx, e1.den);
    lemma_row_scale(m.tx, m.ty, m.den, m.den, e1.c, e1.d, e1.ty, e2.den);
    lemma_row_scale(m.tx, m.ty, m.den, m.den, e2.c, e2.d, e2.ty, e1.den);
    vstd::arithmetic::mul::lemma_mul_is_commutative(e1.den, e2.den);
    assert(fm_compose(e1, m).a * (e2.den * m.den) == fm_compose(e2, m).a * (e1.den * m.den));
    assert(fm_compose(e1, m).b * (e2.den * m.den) == fm_compose(e2, m).b * (e1.den * m.den));
    assert(fm_compose(e1, m).c * (e2.den * m.den) == fm_compose(e2, m).c * (e1.den * m.den));
    assert(fm_compose(e1, m).d * (e2.den * m.den) == fm_compose(e2, m).d * (e1.den * m.den));
    assert(fm_compose(e1, m).tx * (e2.den * m.den) == fm_compose(e2, m).tx * (e1.den * m.den));
    assert(fm_compose(e1, m).ty * (e2.den * m.den) == fm_compose(e2, m).ty * (e1.den * m.den));
}

/// Applying either of two entrywise-equal matrices to a point yields the
/// same location.
pub proof fn lemma_apply_matrix_eq(m: FMat, n: FMat, p: FPoint)
    requires
        fm_ok(m),
        fm_ok(n),
        fp_ok(p),
        fm_entries_eq(m, n),
    ensures
        fp_eq(fm_apply(m, p), fm_apply(n, p)),
        fp_ok(fm_apply(m, p)),
        fp_ok(fm_apply(n, p)),
{
    assert(m.den * p.den > 0) by (nonlinear_arith)
        requires
            m.den > 0,
            p.den > 0,
    ;
    assert(n.den * p.den > 0) by (nonlinear_arith)
        requires
            n.den > 0,
            p.den > 0,
    ;
    let l = fm_apply(m, p);
    let r = fm_apply(n, p);
    // Reorder each row so the matrix entries pair with the other matrix's
    // denominator.
    vstd::arithmetic::mul::lemma_mul_is_commutative(m.a, p.x);
    vstd::arithmetic::mul::lemma_mul_is_commutative(m.b, p.y);
    vstd::arithmetic::mul::lemma_mul_is_commutative(m.tx, p.den);
    vstd::arithmetic::mul::lemma_mul_is_commutative(m.c, p.x);
    vstd::arithmetic::mul::lemma_mul_is_commutative(m.d, p.y);
    vstd::arithmetic::mul::lemma_mul_is_commutative(m.ty, p.den);
    vstd::arithmetic::mul::lemma_mul_is_commutative(n.a, p.x);
    vstd::arithmetic::mul::lemma_mul_is_commutative(n.b, p.y);
    vstd::arithmetic::mul::lemma_mul_is_commutative(n.tx, p.den);
    vstd::arithmetic::mul::lemma_mul_is_commutative(n.c, p.x);
    vstd::arithmetic::mul::lemma_mul_is_commutative(n.d, p.y);
    vstd::arithmetic::mul::lemma_mul_is_commutative(n.ty, p.den);
    vstd::arithmetic::mul::lemma_mul_is_commutative(m.den, p.den);
    vstd::arithmetic::mul::lemma_mul_is_commutative(n.den, p.den);
    lemma_row_scale(p.x, p.y, p.den, p.den, m.a, m.b, m.tx, n.den);
    lemma_row_scale(p.x, p.y, p.den, p.den, n.a, n.b, n.tx, m.den);
    lemma_row_scale(p.x, p.y, p.den, p.den, m.c, m.d, m.ty, n.den);
    lemma_row_scale(p.x, p.y, p.den, p.den, n.c, n.d, n.ty, m.den);
    assert(l.x * r.den == r.x * l.den);
    assert(l.y * r.den == r.y * l.den);
}


/// Normalize-and-check at the specification level: what one executable
/// scalar operation returns.
pub open spec fn f_checked(f: Frac) -> Option<Frac> {
    let n = crate::frac::f_norm(f);
    if crate::frac::f_fits(n) {
        Some(n)
    } else {
        None
    }
}

/// The squared length of the transformed x basis vector.
pub open spec fn col_x_sq(m: FMat) -> Frac {
    crate::frac::f_add(
        crate::frac::f_mul(fm_a(m), fm_a(m)),
        crate::frac::f_mul(fm_c(m), fm_c(m)),
    )
}

/// The squared length of the transformed y basis vector.
pub open spec fn col_y_sq(m: FMat) -> Frac {
    crate::frac::f_add(
        crate::frac::f_mul(fm_b(m), fm_b(m)),
        crate::frac::f_mul(fm_d(m), fm_d(m)),
    )
}

/// The checked computation of one squared column length, as the executable
/// code performs it.
pub open spec fn col_sq_checked(u: Frac, v: Frac) -> Option<Frac> {
    match f_checked(crate::frac::f_mul(u, u)) {
        Option::None => Option::None,
        Option::Some(t1) => match f_checked(crate::frac::f_mul(v, v)) {
            Option::None => Option::None,
            Option::Some(t2) => f_checked(crate::frac::f_add(t1, t2)),
        },
    }
}

/// A square-root approximation `r` brackets `s`:
/// `r^2 <= s < (r + 2/r.d)^2`, with `r.d == 32768`, so the root is within
/// `2 / 32768` of the true square root whatever `s`'s denominator is.
pub open spec fn sqrt_brackets(r: Frac, s: Frac) -> bool {
    &&& r.n >= 0
    &&& r.d == 32768
    &&& crate::frac::f_le(crate::frac::f_mul(r, r), s)
    &&& crate::frac::f_lt(
        s,
        crate::frac::f_mul(Frac { n: r.n + 2, d: r.d }, Frac { n: r.n + 2, d: r.d }),
    )
}

impl Mat {
    /// The per-axis scale factors of this transform: the lengths of the
    /// transformed unit basis vectors, each approximated from below with an
    /// error under one over the computed denominator. Used to scale
    /// primitive extents (diameters, stroke widths) independent of rotation.
    /// `None` exactly when an intermediate square or sum does not fit the
    /// representation.
    pub fn get_scaling_factors(&self) -> (r: Option<(Rat, Rat)>)
        requires
            self.wf(),
        ensures
            (r is Some) == (col_sq_checked(fm_a(self.vm()), fm_c(self.vm())) is Some
                && col_sq_checked(fm_b(self.vm()), fm_d(self.vm())) is Some),
            r matches Some(f) ==> {
                &&& f.0.wf() && f.1.wf()
                &&& sqrt_brackets(f.0.fr(), col_x_sq(self.vm()))
                &&& sqrt_brackets(f.1.fr(), col_y_sq(self.vm()))
            },
    {
        let ea = self.entry_a();
        let eb = self.entry_b();
        let ec = self.entry_c();
        let ed = self.entry_d();
        let sx = match scale_of_column(ea, ec) {
            Some(v) => v,
            None => {
                return None;
            },
        };
        let sy = match scale_of_column(eb, ed) {
            Some(v) => v,
            None => {
                return None;
            },
        };
        Some((sx, sy))
    }
}

/// A sum of two squared fractions is nonnegative.
proof fn lemma_sq_sum_nonneg(u: Frac, v: Frac)
    requires
        crate::frac::f_ok(u),
        crate::frac::f_ok(v),
    ensures
        crate::frac::f_add(crate::frac::f_mul(u, u), crate::frac::f_mul(v, v)).n >= 0,
        crate::frac::f_ok(crate::frac::f_add(crate::frac::f_mul(u, u), crate::frac::f_mul(v, v))),
{
    assert((u.n * u.n) * (v.d * v.d) + (v.n * v.n) * (u.d * u.d) >= 0 && (u.d * u.d) * (v.d * v.d)
        > 0) by (nonlinear_arith)
        requires
            u.d > 0,
            v.d > 0,
    ;
}

/// A fraction equal to a nonnegative fraction is nonnegative.
proof fn lemma_f_eq_nonneg(a: Frac, b: Frac)
    requires
        crate::frac::f_ok(a),
        crate::frac::f_ok(b),
        crate::frac::f_eq(a, b),
        b.n >= 0,
    ensures
        a.n >= 0,
{
    assert(a.n >= 0) by (nonlinear_arith)
        requires
            a.n * b.d == b.n * a.d,
            a.d > 0,
            b.d > 0,
            b.n >= 0,
    ;
}

/// The length of one transformed basis vector, from its two linear entries.
fn scale_of_column(u: Rat, v: Rat) -> (r: Option<Rat>)
    requires
        u.wf(),
        v.wf(),
    ensures
        (r is Some) == (col_sq_checked(u.fr(), v.fr()) is Some),
        r matches Some(q) ==> q.wf() && sqrt_brackets(
            q.fr(),
            crate::frac::f_add(
                crate::frac::f_mul(u.fr(), u.fr()),
                crate::frac::f_mul(v.fr(), v.fr()),
            ),
        ),
    {
        let ghost exact = crate::frac::f_add(
            crate::frac::f_mul(u.fr(), u.fr()),
            crate::frac::f_mul(v.fr(), v.fr()),
        );
        let t1 = match u.times(u) {
            Some(t) => t,
            None => {
                return None;
            },
        };
        let t2 = match v.times(v) {
            Some(t) => t,
            None => {
                return None;
            },
        };
        let s2 = match t1.plus(t2) {
            Some(t) => t,
            None => {
                return None;
            },
        };
        proof {
            assert(u.fr().d * u.fr().d > 0 && v.fr().d * v.fr().d > 0 && t1.fr().d * t2.fr().d
                > 0) by (nonlinear_arith)
                requires
                    u.fr().d > 0,
                    v.fr().d > 0,
                    t1.fr().d > 0,
                    t2.fr().d > 0,
            ;
            // The computed sum denotes the exact squared length.
            crate::frac::lemma_norm_same(crate::frac::f_mul(u.fr(), u.fr()));
            crate::frac::lemma_norm_same(crate::frac::f_mul(v.fr(), v.fr()));
            crate::frac::lemma_norm_same(crate::frac::f_add(t1.fr(), t2.fr()));
            lemma_sq_sum_nonneg(u.fr(), v.fr());
            lemma_sq_sum_nonneg(t1.fr(), t2.fr());
            assert(crate::frac::f_eq(s2.fr(), exact)) by {
                lemma_add_congr_sq(u.fr(), v.fr(), t1.fr(), t2.fr(), s2.fr());
            }
            lemma_f_eq_nonneg(s2.fr(), exact);
        }
        let root = s2.sqrt_floor();
        proof {
            assert(root.fr().d * root.fr().d > 0) by (nonlinear_arith)
                requires
                    root.fr().d > 0,
            ;
            // Transfer the bracketing bounds from the computed sum to the
            // exact squared length.
            crate::frac::lemma_f_le_congr(
                crate::frac::f_mul(root.fr(), root.fr()),
                crate::frac::f_mul(root.fr(), root.fr()),
                s2.fr(),
                exact,
            );
            crate::frac::lemma_f_le_congr(
                s2.fr(),
                exact,
                crate::frac::f_mul(
                    Frac { n: root.fr().n + 2, d: root.fr().d },
                    Frac { n: root.fr().n + 2, d: root.fr().d },
                ),
                crate::frac::f_mul(
                    Frac { n: root.fr().n + 2, d: root.fr().d },
                    Frac { n: root.fr().n + 2, d: root.fr().d },
                ),
            );
        }
        Some(root)
    }

/// The computed pieces of a squared column length denote the exact sum.
proof fn lemma_add_congr_sq(u: Frac, v: Frac, t1: Frac, t2: Frac, s2: Frac)
    requires
        crate::frac::f_ok(u),
        crate::frac::f_ok(v),
        crate::frac::f_ok(t1),
        crate::frac::f_ok(t2),
        crate::frac::f_ok(s2),
        crate::frac::f_eq(t1, crate::frac::f_mul(u, u)),
        crate::frac::f_eq(t2, crate::frac::f_mul(v, v)),
        crate::frac::f_eq(s2, crate::frac::f_add(t1, t2)),
    ensures
        crate::frac::f_eq(
            s2,
            crate::frac::f_add(crate::frac::f_mul(u, u), crate::frac::f_mul(v, v)),
        ),
{
    let uu = crate::frac::f_mul(u, u);
    let vv = crate::frac::f_mul(v, v);
    assert(u.d * u.d > 0 && v.d * v.d > 0 && t1.d * t2.d > 0 && uu.d * vv.d > 0)
        by (nonlinear_arith)
        requires
            u.d > 0,
            v.d > 0,
            t1.d > 0,
            t2.d > 0,
            uu.d == u.d * u.d,
            vv.d == v.d * v.d,
    ;
    lemma_f_add_congr(t1, uu, t2, vv);
    crate::frac::lemma_f_eq_trans(
        s2,
        crate::frac::f_add(t1, t2),
        crate::frac::f_add(uu, vv),
    );
}

proof fn lemma_term_shuffle(a: int, b: int, c: int, d: int)
    by (nonlinear_arith)
    ensures
        (a * b) * (c * d) == (a * c) * (b * d),
{
}

/// Addition of fractions respects fraction equality.
pub proof fn lemma_f_add_congr(a: Frac, a2: Frac, b: Frac, b2: Frac)
    requires
        crate::frac::f_ok(a),
        crate::frac::f_ok(a2),
        crate::frac::f_ok(b),
        crate::frac::f_ok(b2),
        crate::frac::f_eq(a, a2),
        crate::frac::f_eq(b, b2),
    ensures
        crate::frac::f_eq(crate::frac::f_add(a, b), crate::frac::f_add(a2, b2)),
{
    let l = crate::frac::f_add(a, b);
    let r = crate::frac::f_add(a2, b2);
    lemma_dist2r(a.n * b.d, b.n * a.d, a2.d * b2.d);
    lemma_dist2r(a2.n * b2.d, b2.n * a2.d, a.d * b.d);
    lemma_term_shuffle(a.n, b.d, a2.d, b2.d);
    lemma_term_shuffle(b.n, a.d, b2.d, a2.d);
    lemma_term_shuffle(a2.n, b2.d, a.d, b.d);
    lemma_term_shuffle(b2.n, a2.d, b.d, a.d);
    // After the shuffles both sides pair the equal numerators with matching
    // denominator products.
    assert((a.n * a2.d) * (b.d * b2.d) == (a2.n * a.d) * (b.d * b2.d));
    assert((b.n * b2.d) * (a.d * a2.d) == (b2.n * b.d) * (a.d * a2.d));
    assert((b.d * b2.d) == (b2.d * b.d)) by {
        vstd::arithmetic::mul::lemma_mul_is_commutative(b.d, b2.d);
    }
    assert((a.d * a2.d) == (a2.d * a.d)) by {
        vstd::arithmetic::mul::lemma_mul_is_commutative(a.d, a2.d);
    }
    assert((b.n * a.d) * (a2.d * b2.d) == (b.n * b2.d) * (a.d * a2.d)) by {
        lemma_term_shuffle(b.n, a.d, b2.d, a2.d);
        vstd::arithmetic::mul::lemma_mul_is_commutative(a2.d, b2.d);
        vstd::arithmetic::mul::lemma_mul_is_commutative(a.d, a2.d);
        lemma_term_shuffle(b.n, b2.d, a.d, a2.d);
    }
    assert((a2.n * a.d) * (b.d * b2.d) == (a2.n * a.d) * (b2.d * b.d));
    assert((b2.n * b.d) * (a.d * a2.d) == (b2.n * b.d) * (a2.d * a.d));
    assert(l.n * r.d == (a.n * a2.d) * (b.d * b2.d) + (b.n * b2.d) * (a.d * a2.d));
    assert(r.n * l.d == (a2.n * a.d) * (b2.d * b.d) + (b2.n * b.d) * (a2.d * a.d));
    assert(l.n * r.d == r.n * l.d);
}

} // verus!
