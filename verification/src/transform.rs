//! The user placement transform: rotation about a pivot, optional per-axis
//! mirroring, uniform scale and a final offset, composed into one affine
//! matrix in a fixed, documented order.
use vstd::prelude::*;

use crate::frac::{f_abs, f_int, f_le, f_lt, Frac, MAG};
use crate::geometry::{
    fm_a, fm_apply, fm_b, fm_c, fm_compose, fm_d, fm_entries_eq, fm_fits, fm_norm, fm_ok, fp_eq,
    fp_ok, lemma_apply_matrix_eq, lemma_apply_point_eq, lemma_compose_apply,
    lemma_compose_right_eq, lemma_fm_entries_eq_trans, lemma_fm_norm, FMat, FPoint, Mat, Point,
};
use crate::rat::Rat;

verus! {

/// Per-axis mirroring flags: a set flag reflects that coordinate.
#[derive(Clone, Copy, Debug)]
pub struct Mirroring {
    pub x: bool,
    pub y: bool,
}

impl Default for Mirroring {
    /// No mirroring on either axis.
    fn default() -> (r: Mirroring)
        ensures
            !r.x,
            !r.y,
    {
        Mirroring { x: false, y: false }
    }
}

/// The user-adjustable placement of a layer. The rotation is carried as the
/// exact cosine/sine pair of the rotation angle; the caller supplies the pair
/// (rational approximations are fine, and quarter turns are exact).
#[derive(Clone, Copy, Debug)]
pub struct GerberTransform {
    pub rotation_cos: Rat,
    pub rotation_sin: Rat,
    pub mirroring: Mirroring,
    /// The pivot about which rotation and mirroring act.
    pub origin: Point,
    /// The final translation, applied after the pivoted rotation.
    pub offset: Point,
    /// The uniform scale, applied last.
    pub scale: Rat,
}

impl GerberTransform {
    /// The raw rotation matrix over the pair's shared denominator must fit
    /// the representation; denominators up to about two billion each do.
    pub open spec fn rotation_fits(self) -> bool {
        let c = self.rotation_cos.fr();
        let s = self.rotation_sin.fr();
        &&& -(MAG as int) <= c.n * s.d <= MAG as int
        &&& -(MAG as int) <= s.n * c.d <= MAG as int
        &&& c.d * s.d <= MAG as int
    }

    pub open spec fn wf(self) -> bool {
        &&& self.rotation_cos.wf()
        &&& self.rotation_sin.wf()
        &&& self.origin.wf()
        &&& self.offset.wf()
        &&& self.scale.wf()
        &&& self.rotation_fits()
    }
}

impl Default for GerberTransform {
    /// No rotation, no mirroring, pivot and offset at the origin, scale one.
    fn default() -> (r: GerberTransform)
        ensures
            r.wf(),
            r.rotation_cos.fr() == f_int(1),
            r.rotation_sin.fr() == f_int(0),
            !r.mirroring.x,
            !r.mirroring.y,
            r.origin.vp() == (FPoint { x: 0, y: 0, den: 1 }),
            r.offset.vp() == (FPoint { x: 0, y: 0, den: 1 }),
            r.scale.fr() == f_int(1),
    {
        GerberTransform {
            rotation_cos: Rat::one(),
            rotation_sin: Rat::zero(),
            mirroring: Mirroring { x: false, y: false },
            origin: Point::from_ints(0, 0),
            offset: Point::from_ints(0, 0),
            scale: Rat::one(),
        }
    }
}

/// Translation by the negated pivot: the first step of the placement.
pub open spec fn xf_origin_away(t: GerberTransform) -> FMat {
    let o = t.origin.vp();
    FMat { a: o.den, b: 0, c: 0, d: o.den, tx: -o.x, ty: -o.y, den: o.den }
}

/// Per-axis reflection about the (now pivot-centered) axes.
pub open spec fn xf_mirror(t: GerberTransform) -> FMat {
    FMat {
        a: if t.mirroring.x {
            -1
        } else {
            1
        },
        b: 0,
        c: 0,
        d: if t.mirroring.y {
            -1
        } else {
            1
        },
        tx: 0,
        ty: 0,
        den: 1,
    }
}

/// Rotation by the angle whose cosine/sine pair the transform carries.
pub open spec fn xf_rotation(t: GerberTransform) -> FMat {
    let c = t.rotation_cos.fr();
    let s = t.rotation_sin.fr();
    FMat {
        a: c.n * s.d,
        b: -(s.n * c.d),
        c: s.n * c.d,
        d: c.n * s.d,
        tx: 0,
        ty: 0,
        den: c.d * s.d,
    }
}

/// Translation back by the pivot.
pub open spec fn xf_origin_back(t: GerberTransform) -> FMat {
    let o = t.origin.vp();
    FMat { a: o.den, b: 0, c: 0, d: o.den, tx: o.x, ty: o.y, den: o.den }
}

/// The final translation offset.
pub open spec fn xf_offset(t: GerberTransform) -> FMat {
    let f = t.offset.vp();
    FMat { a: f.den, b: 0, c: 0, d: f.den, tx: f.x, ty: f.y, den: f.den }
}

/// The uniform scale.
pub open spec fn xf_scale(t: GerberTransform) -> FMat {
    let k = t.scale.fr();
    FMat { a: k.n, b: 0, c: 0, d: k.n, tx: 0, ty: 0, den: k.d }
}

/// The placement as one matrix: scale after offset after pivot-back after
/// rotation after mirroring after pivot-away. This order is the transform's
/// defining contract; the operations do not commute.
pub open spec fn placement_chain(t: GerberTransform) -> FMat {
    fm_compose(
        xf_scale(t),
        fm_compose(
            xf_offset(t),
            fm_compose(
                xf_origin_back(t),
                fm_compose(xf_rotation(t), fm_compose(xf_mirror(t), xf_origin_away(t))),
            ),
        ),
    )
}

/// The placement applied to a point step by step, in the documented order:
/// translate by the negated pivot, mirror, rotate, translate back, offset,
/// scale.
pub open spec fn placement_apply(t: GerberTransform, p: FPoint) -> FPoint {
    fm_apply(
        xf_scale(t),
        fm_apply(
            xf_offset(t),
            fm_apply(
                xf_origin_back(t),
                fm_apply(xf_rotation(t), fm_apply(xf_mirror(t), fm_apply(xf_origin_away(t), p))),
            ),
        ),
    )
}

/// The placement matrix applied to a point is exactly the step-by-step
/// placement: the closed composition reproduces the documented order.
pub proof fn lemma_placement_chain_applies(t: GerberTransform, p: FPoint)
    ensures
        fm_apply(placement_chain(t), p) == placement_apply(t, p),
{
    lemma_compose_apply(xf_mirror(t), xf_origin_away(t), p);
    lemma_compose_apply(
        xf_rotation(t),
        fm_compose(xf_mirror(t), xf_origin_away(t)),
        p,
    );
    lemma_compose_apply(
        xf_origin_back(t),
        fm_compose(xf_rotation(t), fm_compose(xf_mirror(t), xf_origin_away(t))),
        p,
    );
    lemma_compose_apply(
        xf_offset(t),
        fm_compose(
            xf_origin_back(t),
            fm_compose(xf_rotation(t), fm_compose(xf_mirror(t), xf_origin_away(t))),
        ),
        p,
    );
    lemma_compose_apply(
        xf_scale(t),
        fm_compose(
            xf_offset(t),
            fm_compose(
                xf_origin_back(t),
                fm_compose(xf_rotation(t), fm_compose(xf_mirror(t), xf_origin_away(t))),
            ),
        ),
        p,
    );
}

/// A matrix entrywise equal to the placement chain sends every point where
/// the documented step-by-step placement sends it.
pub proof fn lemma_to_matrix_applies(t: GerberTransform, mv: FMat, p: FPoint)
    requires
        fm_ok(mv),
        fm_ok(placement_chain(t)),
        fm_entries_eq(mv, placement_chain(t)),
        fp_ok(p),
    ensures
        fp_eq(fm_apply(mv, p), placement_apply(t, p)),
        fp_ok(fm_apply(mv, p)),
        fp_ok(placement_apply(t, p)),
{
    lemma_apply_matrix_eq(mv, placement_chain(t), p);
    lemma_placement_chain_applies(t, p);
}

/// The normalization-and-range check the executable composition performs
/// after each step.
pub open spec fn norm_checked(m: FMat) -> Option<FMat> {
    let n = fm_norm(m);
    if fm_fits(n) {
        Some(n)
    } else {
        None
    }
}

/// One checked composition step.
pub open spec fn compose_checked(e: FMat, r: Option<FMat>) -> Option<FMat> {
    match r {
        Option::None => Option::None,
        Option::Some(m) => norm_checked(fm_compose(e, m)),
    }
}

/// The exact value `to_matrix` returns: the placement chain, normalized and
/// range-checked after every step.
pub open spec fn to_matrix_checked(t: GerberTransform) -> Option<FMat> {
    compose_checked(
        xf_scale(t),
        compose_checked(
            xf_offset(t),
            compose_checked(
                xf_origin_back(t),
                compose_checked(
                    xf_rotation(t),
                    norm_checked(fm_compose(xf_mirror(t), xf_origin_away(t))),
                ),
            ),
        ),
    )
}

/// One entrywise-equivalence step along the executable composition chain.
proof fn lemma_step_entries(e: FMat, mv: FMat, c_prev: FMat)
    requires
        fm_ok(e),
        fm_ok(mv),
        fm_ok(c_prev),
        fm_entries_eq(mv, c_prev),
    ensures
        fm_ok(fm_compose(e, c_prev)),
        fm_ok(fm_norm(fm_compose(e, mv))),
        fm_entries_eq(fm_norm(fm_compose(e, mv)), fm_compose(e, c_prev)),
{
    lemma_compose_right_eq(e, mv, c_prev);
    lemma_fm_norm(fm_compose(e, mv));
    lemma_fm_entries_eq_trans(
        fm_norm(fm_compose(e, mv)),
        fm_compose(e, mv),
        fm_compose(e, c_prev),
    );
}

impl GerberTransform {
    /// The placement as one matrix, built by composing the six documented
    /// steps in order; `None` exactly when a normalized intermediate exceeds
    /// the representation's bounds. The result is entrywise equal to the
    /// exact placement chain, so it sends every point where the documented
    /// step order sends it (`lemma_to_matrix_applies`).
    pub fn to_matrix(&self) -> (r: Option<Mat>)
        requires
            self.wf(),
        ensures
            (r is Some) == (to_matrix_checked(*self) is Some),
            r matches Some(m) ==> {
                &&& m.wf()
                &&& to_matrix_checked(*self) == Some(m.vm())
                &&& fm_ok(placement_chain(*self))
                &&& fm_entries_eq(m.vm(), placement_chain(*self))
            },
    {
        let ghost t = *self;
        let (ox, oy, oden) = self.origin.raw_parts();
        let (fx, fy, fden) = self.offset.raw_parts();
        let t_away = Mat::from_wf_parts(oden, 0, 0, oden, -ox, -oy, oden);
        let t_back = Mat::from_wf_parts(oden, 0, 0, oden, ox, oy, oden);
        let t_off = Mat::from_wf_parts(fden, 0, 0, fden, fx, fy, fden);
        let mir = Mat::from_wf_parts(
            if self.mirroring.x {
                -1
            } else {
                1
            },
            0,
            0,
            if self.mirroring.y {
                -1
            } else {
                1
            },
            0,
            0,
            1,
        );
        let cn: i128 = self.rotation_cos.num() as i128;
        let cd: i128 = self.rotation_cos.den() as i128;
        let sn: i128 = self.rotation_sin.num() as i128;
        let sd: i128 = self.rotation_sin.den() as i128;
        proof {
            assert(cd * sd > 0) by (nonlinear_arith)
                requires
                    cd > 0,
                    sd > 0,
            ;
        }
        let rot = Mat::from_wf_parts(
            (cn * sd) as i64,
            (-(sn * cd)) as i64,
            (sn * cd) as i64,
            (cn * sd) as i64,
            0,
            0,
            (cd * sd) as i64,
        );
        let ghost c1 = xf_origin_away(t);
        let ghost c2 = fm_compose(xf_mirror(t), c1);
        let ghost c3 = fm_compose(xf_rotation(t), c2);
        let ghost c4 = fm_compose(xf_origin_back(t), c3);
        let ghost c5 = fm_compose(xf_offset(t), c4);
        let ghost c6 = fm_compose(xf_scale(t), c5);
        proof {
            assert(t_away.vm() == c1);
            assert(mir.vm() == xf_mirror(t));
            assert(rot.vm() == xf_rotation(t));
            assert(t_back.vm() == xf_origin_back(t));
            assert(t_off.vm() == xf_offset(t));
        }
        let m2 = match mir.compose(&t_away) {
            Some(m) => m,
            None => {
                return None;
            },
        };
        proof {
            lemma_step_entries(xf_mirror(t), t_away.vm(), c1);
        }
        let m3 = match rot.compose(&m2) {
            Some(m) => m,
            None => {
                return None;
            },
        };
        proof {
            lemma_step_entries(xf_rotation(t), m2.vm(), c2);
        }
        let m4 = match t_back.compose(&m3) {
            Some(m) => m,
            None => {
                return None;
            },
        };
        proof {
            lemma_step_entries(xf_origin_back(t), m3.vm(), c3);
        }
        let m5 = match t_off.compose(&m4) {
            Some(m) => m,
            None => {
                return None;
            },
        };
        proof {
            lemma_step_entries(xf_offset(t), m4.vm(), c4);
        }
        let s_mat = Mat::from_wf_parts(
            self.scale.num(),
            0,
            0,
            self.scale.num(),
            0,
            0,
            self.scale.den(),
        );
        proof {
            assert(s_mat.vm() == xf_scale(t));
        }
        let m6 = match s_mat.compose(&m5) {
            Some(m) => m,
            None => {
                return None;
            },
        };
        proof {
            lemma_step_entries(xf_scale(t), m5.vm(), c5);
        }
        Some(m6)
    }
}


/// The axis-alignment test: the linear part keeps the axes (off-diagonal
/// entries within the tolerance of zero) or swaps them (diagonal entries
/// within the tolerance), so axis-aligned rectangles stay axis-aligned.
pub open spec fn axis_aligned_spec(m: FMat, e: Frac) -> bool {
    ||| f_le(f_abs(fm_b(m)), e) && f_le(f_abs(fm_c(m)), e)
    ||| f_le(f_abs(fm_a(m)), e) && f_le(f_abs(fm_d(m)), e)
}

/// The quarter-turn test: the linear part swaps the axes (diagonal within
/// the tolerance of zero, off-diagonal outside it), so rendered width and
/// height must be swapped.
pub open spec fn swaps_axes_spec(m: FMat, e: Frac) -> bool {
    &&& f_le(f_abs(fm_a(m)), e)
    &&& f_le(f_abs(fm_d(m)), e)
    &&& f_lt(e, f_abs(fm_b(m)))
    &&& f_lt(e, f_abs(fm_c(m)))
}

impl Mat {
    /// Whether this transform maps axis-aligned rectangles to axis-aligned
    /// rectangles, up to the tolerance `eps`. The tolerance is explicit
    /// because rotation angles reach the transform as rational
    /// approximations of their cosine/sine, so an angle meant as a quarter
    /// turn may come out near, not at, zero.
    pub fn is_axis_aligned(&self, eps: Rat) -> (r: bool)
        requires
            self.wf(),
            eps.wf(),
        ensures
            r == axis_aligned_spec(self.vm(), eps.fr()),
    {
        self.entry_b().abs().le(eps) && self.entry_c().abs().le(eps) || self.entry_a().abs().le(
            eps,
        ) && self.entry_d().abs().le(eps)
    }

    /// Whether this transform swaps the roles of the x and y axes, up to the
    /// tolerance `eps` (a rotation near 90 or 270 degrees).
    pub fn is_90_or_270_rotation(&self, eps: Rat) -> (r: bool)
        requires
            self.wf(),
            eps.wf(),
        ensures
            r == swaps_axes_spec(self.vm(), eps.fr()),
    {
        self.entry_a().abs().le(eps) && self.entry_d().abs().le(eps) && eps.lt(
            self.entry_b().abs(),
        ) && eps.lt(self.entry_c().abs())
    }
}

/// A positive multiple of a positive value is positive.
proof fn lemma_pos_mul2(x: int, y: int)
    by (nonlinear_arith)
    requires
        x > 0,
        y > 0,
    ensures
        x * y > 0,
{
}

/// Scaling a strict fraction comparison by a positive factor keeps it.
proof fn lemma_scale_strict(en: int, ed: int, kn: int, kd: int, x: int)
    by (nonlinear_arith)
    requires
        x > 0,
        en * kd < kn * ed,
    ensures
        en * (kd * x) < (kn * x) * ed,
{
}

/// A nonnegative tolerance admits zero.
proof fn lemma_zero_within(en: int, ed: int, d: int)
    by (nonlinear_arith)
    requires
        en >= 0,
        d > 0,
    ensures
        0 * ed <= en * d,
{
}

/// For every axis-aligned placement - rotation a whole multiple of a quarter
/// turn, no mirroring - the axis-alignment test holds of the composed
/// placement matrix, and the axis-swap test holds exactly for the odd
/// multiples (90 and 270 degrees). The tolerance must be nonnegative and
/// smaller than the scale's magnitude.
pub proof fn lemma_quarter_turn_tests(t: GerberTransform, e: Frac)
    requires
        t.wf(),
        !t.mirroring.x,
        !t.mirroring.y,
        t.rotation_sin.fr() == f_int(0) && (t.rotation_cos.fr() == f_int(1)
            || t.rotation_cos.fr() == f_int(-1)) || t.rotation_cos.fr() == f_int(0) && (
        t.rotation_sin.fr() == f_int(1) || t.rotation_sin.fr() == f_int(-1)),
        crate::frac::f_ok(e),
        f_le(f_int(0), e),
        f_lt(e, f_abs(t.scale.fr())),
    ensures
        fm_ok(placement_chain(t)),
        axis_aligned_spec(placement_chain(t), e),
        swaps_axes_spec(placement_chain(t), e) == (t.rotation_cos.fr() == f_int(0)),
{
    let o = t.origin.vp();
    let f = t.offset.vp();
    let k = t.scale.fr();
    let ch = placement_chain(t);
    let x = f.den * (o.den * o.den);
    assert(o.den * o.den > 0) by (nonlinear_arith)
        requires
            o.den > 0,
    ;
    lemma_pos_mul2(f.den, o.den * o.den);
    assert(e.n >= 0);
    assert(e.n * k.d < (if k.n >= 0 { k.n } else { -k.n }) * e.d);
    if t.rotation_sin.fr() == f_int(0) {
        // 0 or 180 degrees: the rotation matrix is (+/-1, 0, 0, +/-1).
        assert(xf_rotation(t).b == 0);
        assert(xf_rotation(t).c == 0);
        assert(ch.b == k.n * (f.den * (o.den * 0)));
        assert(ch.c == k.n * (f.den * (o.den * 0)));
        assert(ch.b == 0) by (nonlinear_arith)
            requires
                ch.b == k.n * (f.den * (o.den * 0)),
        ;
        assert(ch.c == 0) by (nonlinear_arith)
            requires
                ch.c == k.n * (f.den * (o.den * 0)),
        ;
        let cv = t.rotation_cos.fr().n;
        assert(ch.a == k.n * (f.den * (o.den * (cv * o.den))));
        assert(ch.d == k.n * (f.den * (o.den * (cv * o.den))));
        assert(ch.den == k.d * (f.den * (o.den * ((1 * 1) * (1 * o.den)))));
        assert(ch.den == k.d * x);
        lemma_pos_mul2(k.d, x);
        lemma_zero_within(e.n, e.d, ch.den);
        // The diagonal has the scale's magnitude, which exceeds the
        // tolerance: the axis-swap test is off.
        if cv == 1 {
            assert(ch.a == k.n * x) by (nonlinear_arith)
                requires
                    ch.a == k.n * (f.den * (o.den * (1 * o.den))),
                    x == f.den * (o.den * o.den),
            ;
        } else {
            assert(ch.a == -(k.n * x)) by (nonlinear_arith)
                requires
                    ch.a == k.n * (f.den * (o.den * (-1 * o.den))),
                    x == f.den * (o.den * o.den),
            ;
        }
        let an = if ch.a >= 0 { ch.a } else { -ch.a };
        let kn = if k.n >= 0 { k.n } else { -k.n };
        assert(an == kn * x) by (nonlinear_arith)
            requires
                ch.a == k.n * x || ch.a == -(k.n * x),
                an == (if ch.a >= 0 { ch.a } else { -ch.a }),
                kn == (if k.n >= 0 { k.n } else { -k.n }),
                x > 0,
        ;
        lemma_scale_strict(e.n, e.d, kn, k.d, x);
        assert(e.n * ch.den < an * e.d);
        assert(!f_le(f_abs(fm_a(ch)), e));
        assert(!swaps_axes_spec(ch, e));
    } else {
        // 90 or 270 degrees: the rotation matrix is (0, -/+1, +/-1, 0).
        let sv = t.rotation_sin.fr().n;
        assert(xf_rotation(t).a == 0);
        assert(xf_rotation(t).d == 0);
        assert(xf_rotation(t).b == -sv);
        assert(xf_rotation(t).c == sv);
        assert(ch.a == k.n * (f.den * (o.den * (0 * o.den))));
        assert(ch.d == k.n * (f.den * (o.den * (0 * o.den))));
        assert(ch.a == 0) by (nonlinear_arith)
            requires
                ch.a == k.n * (f.den * (o.den * (0 * o.den))),
        ;
        assert(ch.d == 0) by (nonlinear_arith)
            requires
                ch.d == k.n * (f.den * (o.den * (0 * o.den))),
        ;
        assert(ch.b == k.n * (f.den * (o.den * (-sv * o.den))));
        assert(ch.c == k.n * (f.den * (o.den * (sv * o.den))));
        assert(ch.den == k.d * (f.den * (o.den * ((1 * 1) * (1 * o.den)))));
        assert(ch.den == k.d * x);
        lemma_pos_mul2(k.d, x);
        lemma_zero_within(e.n, e.d, ch.den);
        let bn = if ch.b >= 0 { ch.b } else { -ch.b };
        let cn2 = if ch.c >= 0 { ch.c } else { -ch.c };
        let kn = if k.n >= 0 { k.n } else { -k.n };
        assert(ch.b == -(k.n * x) || ch.b == k.n * x) by (nonlinear_arith)
            requires
                ch.b == k.n * (f.den * (o.den * (-sv * o.den))),
                x == f.den * (o.den * o.den),
                sv == 1 || sv == -1,
        ;
        assert(ch.c == k.n * x || ch.c == -(k.n * x)) by (nonlinear_arith)
            requires
                ch.c == k.n * (f.den * (o.den * (sv * o.den))),
                x == f.den * (o.den * o.den),
                sv == 1 || sv == -1,
        ;
        assert(bn == kn * x && cn2 == kn * x) by (nonlinear_arith)
            requires
                ch.b == k.n * x || ch.b == -(k.n * x),
                ch.c == k.n * x || ch.c == -(k.n * x),
                bn == (if ch.b >= 0 { ch.b } else { -ch.b }),
                cn2 == (if ch.c >= 0 { ch.c } else { -ch.c }),
                kn == (if k.n >= 0 { k.n } else { -k.n }),
                x > 0,
        ;
        lemma_scale_strict(e.n, e.d, kn, k.d, x);
        assert(e.n * ch.den < bn * e.d);
        assert(e.n * ch.den < cn2 * e.d);
        assert(swaps_axes_spec(ch, e));
    }
}


proof fn lemma_rot_cancel(u: int, v: int, x: int, y: int)
    by (nonlinear_arith)
    ensures
        u * (u * x + (-v) * y) + v * (v * x + u * y) == (u * u + v * v) * x,
        (-v) * (u * x + (-v) * y) + u * (v * x + u * y) == (u * u + v * v) * y,
{
}

proof fn lemma_same_square(a: int, b: int)
    by (nonlinear_arith)
    ensures
        (a * b) * (a * b) == (a * a) * (b * b),
{
}

proof fn lemma_scale_point_eq(e2: int, dd: int, x: int, d: int)
    by (nonlinear_arith)
    requires
        e2 == dd * dd,
    ensures
        (e2 * x) * d == x * (dd * (dd * d)),
{
}

/// Rotating by the inverse pair undoes a rotation about the origin, exactly,
/// whenever the pair lies on the unit circle.
proof fn lemma_rotation_cancel(c: Frac, s: Frac, q: FPoint)
    requires
        crate::frac::f_ok(c),
        crate::frac::f_ok(s),
        fp_ok(q),
        crate::frac::f_eq(
            crate::frac::f_add(crate::frac::f_mul(c, c), crate::frac::f_mul(s, s)),
            f_int(1),
        ),
    ensures
        fp_eq(fm_apply(rot_mat(c, crate::frac::f_neg(s)), fm_apply(rot_mat(c, s), q)), q),
        fp_ok(fm_apply(rot_mat(c, s), q)),
        fp_ok(fm_apply(rot_mat(c, crate::frac::f_neg(s)), fm_apply(rot_mat(c, s), q))),
{
    let u = c.n * s.d;
    let v = s.n * c.d;
    let dd = c.d * s.d;
    let r1 = rot_mat(c, s);
    let r2 = rot_mat(c, crate::frac::f_neg(s));
    assert(c.d * s.d > 0) by (nonlinear_arith)
        requires
            c.d > 0,
            s.d > 0,
    ;
    assert(dd > 0);
    assert(r2.b == v && r2.c == -v) by {
        vstd::arithmetic::mul::lemma_mul_unary_negation(s.n, c.d);
    }
    let w = fm_apply(r1, q);
    let z = fm_apply(r2, w);
    assert(w.x == u * q.x + (-v) * q.y);
    assert(w.y == v * q.x + u * q.y);
    let e2 = u * u + v * v;
    lemma_rot_cancel(u, v, q.x, q.y);
    assert(z.x == e2 * q.x);
    assert(z.y == e2 * q.y);
    assert(z.den == dd * (dd * q.den));
    // The unit-circle hypothesis says the squared pair sums to the squared
    // denominator.
    lemma_same_square(c.n, s.d);
    lemma_same_square(s.n, c.d);
    lemma_same_square(c.d, s.d);
    assert((c.n * c.n * (s.d * s.d) + s.n * s.n * (c.d * c.d)) * 1 == 1 * (c.d * c.d * (s.d
        * s.d)));
    assert(u * u == (c.n * c.n) * (s.d * s.d)) by (nonlinear_arith)
        requires
            u == c.n * s.d,
    ;
    assert(v * v == (s.n * s.n) * (c.d * c.d)) by (nonlinear_arith)
        requires
            v == s.n * c.d,
    ;
    assert(c.n * c.n * (s.d * s.d) == (c.n * c.n) * (s.d * s.d)) by (nonlinear_arith);
    assert(s.n * s.n * (c.d * c.d) == (s.n * s.n) * (c.d * c.d)) by (nonlinear_arith);
    assert(c.d * c.d * (s.d * s.d) == (c.d * c.d) * (s.d * s.d)) by (nonlinear_arith);
    assert(e2 == dd * dd);
    lemma_scale_point_eq(e2, dd, q.x, q.den);
    lemma_scale_point_eq(e2, dd, q.y, q.den);
    assert(fp_ok(w)) by {
        lemma_pos_mul2(dd, q.den);
    }
    assert(fp_ok(z)) by {
        lemma_pos_mul2(dd, w.den);
    }
}

/// The rotation matrix for a cosine/sine pair.
pub open spec fn rot_mat(c: Frac, s: Frac) -> FMat {
    FMat {
        a: c.n * s.d,
        b: -(s.n * c.d),
        c: s.n * c.d,
        d: c.n * s.d,
        tx: 0,
        ty: 0,
        den: c.d * s.d,
    }
}

proof fn lemma_tc_back_away(od: int, ox: int, px: int, pd: int)
    by (nonlinear_arith)
    ensures
        od * (od * px + (-ox) * pd) + ox * (od * pd) == (od * od) * px,
        od * (od * px + ox * pd) + (-ox) * (od * pd) == (od * od) * px,
{
}

proof fn lemma_sq_point_eq(od: int, x: int, d: int)
    by (nonlinear_arith)
    ensures
        ((od * od) * x) * d == x * (od * (od * d)),
{
}

/// Translating by the pivot and back (in either order) returns every point
/// to itself.
proof fn lemma_pivot_cancel(o: FPoint, m_in: FMat, m_out: FMat, p: FPoint)
    requires
        fp_ok(o),
        fp_ok(p),
        m_in == (FMat { a: o.den, b: 0, c: 0, d: o.den, tx: -o.x, ty: -o.y, den: o.den })
            && m_out == (FMat { a: o.den, b: 0, c: 0, d: o.den, tx: o.x, ty: o.y, den: o.den })
            || m_in == (FMat { a: o.den, b: 0, c: 0, d: o.den, tx: o.x, ty: o.y, den: o.den })
            && m_out == (FMat { a: o.den, b: 0, c: 0, d: o.den, tx: -o.x, ty: -o.y, den: o.den }),
    ensures
        fp_eq(fm_apply(m_out, fm_apply(m_in, p)), p),
        fp_ok(fm_apply(m_in, p)),
        fp_ok(fm_apply(m_out, fm_apply(m_in, p))),
{
    let w = fm_apply(m_in, p);
    let z = fm_apply(m_out, w);
    lemma_tc_back_away(o.den, o.x, p.x, p.den);
    lemma_tc_back_away(o.den, o.y, p.y, p.den);
    if m_in.tx == -o.x && m_in.ty == -o.y && m_out.tx == o.x && m_out.ty == o.y {
        assert(w.x == o.den * p.x + (-o.x) * p.den);
        assert(w.y == o.den * p.y + (-o.y) * p.den) by (nonlinear_arith)
            requires
                w.y == 0 * p.x + o.den * p.y + (-o.y) * p.den,
        ;
        assert(z.x == o.den * (o.den * p.x + (-o.x) * p.den) + o.x * (o.den * p.den));
        assert(z.y == o.den * (o.den * p.y + (-o.y) * p.den) + o.y * (o.den * p.den));
        assert(z.x == (o.den * o.den) * p.x);
        assert(z.y == (o.den * o.den) * p.y);
    } else {
        assert(w.x == o.den * p.x + o.x * p.den);
        assert(w.y == o.den * p.y + o.y * p.den) by (nonlinear_arith)
            requires
                w.y == 0 * p.x + o.den * p.y + o.y * p.den,
        ;
        assert(z.x == o.den * (o.den * p.x + o.x * p.den) + (-o.x) * (o.den * p.den));
        assert(z.y == o.den * (o.den * p.y + o.y * p.den) + (-o.y) * (o.den * p.den));
        assert(z.x == (o.den * o.den) * p.x);
        assert(z.y == (o.den * o.den) * p.y);
    }
    lemma_sq_point_eq(o.den, p.x, p.den);
    lemma_sq_point_eq(o.den, p.y, p.den);
    assert(fp_ok(w)) by {
        lemma_pos_mul2(o.den, p.den);
    }
    assert(fp_ok(z)) by {
        lemma_pos_mul2(o.den, w.den);
    }
}

/// Applying a placement and then the placement with the negated rotation and
/// the same pivot returns every point to itself, exactly - provided the
/// rotation pair lies on the unit circle, nothing is mirrored or scaled, and
/// the offset is zero.
pub proof fn lemma_rotation_round_trip(t1: GerberTransform, t2: GerberTransform, p: FPoint)
    requires
        t1.wf(),
        t2.wf(),
        fp_ok(p),
        !t1.mirroring.x && !t1.mirroring.y && !t2.mirroring.x && !t2.mirroring.y,
        t1.scale.fr() == f_int(1) && t2.scale.fr() == f_int(1),
        t1.offset.vp() == (FPoint { x: 0, y: 0, den: 1 }),
        t2.offset.vp() == (FPoint { x: 0, y: 0, den: 1 }),
        t2.origin.vp() == t1.origin.vp(),
        t2.rotation_cos.fr() == t1.rotation_cos.fr(),
        t2.rotation_sin.fr() == crate::frac::f_neg(t1.rotation_sin.fr()),
        crate::frac::f_eq(
            crate::frac::f_add(
                crate::frac::f_mul(t1.rotation_cos.fr(), t1.rotation_cos.fr()),
                crate::frac::f_mul(t1.rotation_sin.fr(), t1.rotation_sin.fr()),
            ),
            f_int(1),
        ),
    ensures
        fp_eq(placement_apply(t2, placement_apply(t1, p)), p),
{
    let c = t1.rotation_cos.fr();
    let s = t1.rotation_sin.fr();
    let o = t1.origin.vp();
    let away = xf_origin_away(t1);
    let back = xf_origin_back(t1);
    let r1 = rot_mat(c, s);
    let r2 = rot_mat(c, crate::frac::f_neg(s));
    assert(xf_rotation(t1) == r1);
    assert(xf_rotation(t2) == r2);
    assert(xf_origin_away(t2) == away);
    assert(xf_origin_back(t2) == back);
    // Mirroring, offset and scale are the identity here, so each placement
    // collapses to pivot-away, rotation, pivot-back.
    let q0 = fm_apply(away, p);
    let w1 = fm_apply(r1, q0);
    let q2 = fm_apply(back, w1);
    assert(fm_apply(xf_mirror(t1), q0) == q0);
    assert(fm_apply(xf_offset(t1), q2) == q2);
    assert(fm_apply(xf_scale(t1), q2) == q2);
    assert(placement_apply(t1, p) == q2);
    assert(c.d * s.d > 0) by (nonlinear_arith)
        requires
            c.d > 0,
            s.d > 0,
    ;
    assert(r1.den > 0);
    assert(r2.den > 0);
    assert(fp_ok(q0)) by {
        lemma_pos_mul2(o.den, p.den);
    }
    assert(fp_ok(w1)) by {
        lemma_pos_mul2(r1.den, q0.den);
    }
    assert(fp_ok(q2)) by {
        lemma_pos_mul2(o.den, w1.den);
    }
    // The second placement collapses the same way.
    let u0 = fm_apply(away, q2);
    let v1 = fm_apply(r2, u0);
    let z = fm_apply(back, v1);
    assert(fm_apply(xf_mirror(t2), u0) == u0);
    assert(fm_apply(xf_offset(t2), z) == z);
    assert(fm_apply(xf_scale(t2), z) == z);
    assert(placement_apply(t2, q2) == z);
    // Pivot-away cancels the first placement's pivot-back ...
    lemma_pivot_cancel(o, back, away, w1);
    assert(fp_eq(u0, w1));
    assert(fp_ok(u0));
    // ... so the two rotations meet and cancel ...
    lemma_apply_point_eq(r2, u0, w1);
    lemma_rotation_cancel(c, s, q0);
    assert(fp_eq(fm_apply(r2, w1), q0));
    assert(fp_ok(v1)) by {
        lemma_pos_mul2(r2.den, u0.den);
    }
    crate::geometry::lemma_fp_eq_trans(v1, fm_apply(r2, w1), q0);
    // ... and the remaining pivot translations cancel around the point.
    lemma_apply_point_eq(back, v1, q0);
    lemma_pivot_cancel(o, away, back, p);
    assert(fp_eq(fm_apply(back, q0), p));
    assert(fp_ok(z)) by {
        lemma_pos_mul2(o.den, v1.den);
    }
    crate::geometry::lemma_fp_eq_trans(z, fm_apply(back, q0), p);
}

} // verus!
