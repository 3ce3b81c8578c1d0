//! The pannable, zoomable view: a screen translation and a uniform scale
//! mapping post-transform shape coordinates to screen pixels, and the
//! fit-view computation that frames a bounding box inside a viewport.
use vstd::prelude::*;

use crate::bbox::{point_checked, BoundingBox};
use crate::frac::{
    f_add, f_div, f_eq, f_int, f_le, f_min, f_mul, f_ok, f_sub, lemma_f_div_congr,
    lemma_f_eq_trans, lemma_f_min_congr, lemma_f_mul_congr, lemma_f_sub_congr, Frac,
};
use crate::geometry::{f_checked, fp_x, fp_y, lemma_f_add_congr, FPoint, Point};
use crate::rat::Rat;

verus! {

/// One half, for midpoints.
pub open spec fn f_half() -> Frac {
    Frac { n: 1, d: 2 }
}

/// The view: screen translation and uniform zoom. A shape-space coordinate
/// `p` appears on screen at `translation + p * scale`.
#[derive(Clone, Copy, Debug)]
pub struct ViewState {
    pub translation: Point,
    pub scale: Rat,
}

/// The exact screen position of one coordinate.
pub open spec fn view_coord(tc: Frac, pc: Frac, k: Frac) -> Frac {
    f_add(tc, f_mul(pc, k))
}

/// The checked computation of one screen coordinate, as the executable code
/// performs it.
pub open spec fn view_coord_checked(tc: Frac, pc: Frac, k: Frac) -> Option<Frac> {
    match f_checked(f_mul(pc, k)) {
        Option::None => Option::None,
        Option::Some(m) => f_checked(f_add(tc, m)),
    }
}

/// The checked pan update, as the executable code computes it.
pub open spec fn pan_checked(v: ViewState, dx: Frac, dy: Frac) -> Option<FPoint> {
    match f_checked(f_add(fp_x(v.translation.vp()), dx)) {
        Option::None => Option::None,
        Option::Some(nx) => match f_checked(f_add(fp_y(v.translation.vp()), dy)) {
            Option::None => Option::None,
            Option::Some(ny) => point_checked(nx, ny),
        },
    }
}

/// The checked inverse mapping of a screen point, as the executable code
/// computes it: refused outright for a collapsed (zero-scale) view.
pub open spec fn screen_to_gerber_checked(v: ViewState, p: FPoint) -> Option<FPoint> {
    if v.scale.fr().n == 0 {
        Option::None
    } else {
        match f_checked(f_sub(fp_x(p), fp_x(v.translation.vp()))) {
            Option::None => Option::None,
            Option::Some(dx) => match f_checked(f_sub(fp_y(p), fp_y(v.translation.vp()))) {
                Option::None => Option::None,
                Option::Some(dy) => match f_checked(f_div(dx, v.scale.fr())) {
                    Option::None => Option::None,
                    Option::Some(gx) => match f_checked(f_div(dy, v.scale.fr())) {
                        Option::None => Option::None,
                        Option::Some(gy) => point_checked(gx, gy),
                    },
                },
            },
        }
    }
}

/// The checked screen position of a point.
pub open spec fn view_map_checked(v: ViewState, p: FPoint) -> Option<FPoint> {
    match view_coord_checked(fp_x(v.translation.vp()), fp_x(p), v.scale.fr()) {
        Option::None => Option::None,
        Option::Some(xc) => match view_coord_checked(
            fp_y(v.translation.vp()),
            fp_y(p),
            v.scale.fr(),
        ) {
            Option::None => Option::None,
            Option::Some(yc) => point_checked(xc, yc),
        },
    }
}

impl ViewState {
    pub open spec fn wf(self) -> bool {
        self.translation.wf() && self.scale.wf()
    }

    /// Translation zero, scale one.
    pub fn new_identity() -> (r: ViewState)
        ensures
            r.wf(),
            r.translation.vp() == (FPoint { x: 0, y: 0, den: 1 }),
            r.scale.fr() == f_int(1),
    {
        ViewState { translation: Point::from_ints(0, 0), scale: Rat::one() }
    }

    /// Shift the view by a pointer-drag delta, in screen pixels. On success
    /// the translation moves by exactly the delta and the zoom is untouched;
    /// on overflow the view is left unchanged.
    pub fn pan(&mut self, dx: Rat, dy: Rat) -> (ok: bool)
        requires
            old(self).wf(),
            dx.wf(),
            dy.wf(),
        ensures
            ok == (pan_checked(*old(self), dx.fr(), dy.fr()) is Some),
            !ok ==> *final(self) == *old(self),
            ok ==> {
                &&& final(self).wf()
                &&& final(self).scale == old(self).scale
                &&& f_eq(
                    fp_x(final(self).translation.vp()),
                    f_add(fp_x(old(self).translation.vp()), dx.fr()),
                )
                &&& f_eq(
                    fp_y(final(self).translation.vp()),
                    f_add(fp_y(old(self).translation.vp()), dy.fr()),
                )
            },
    {
        let nx = match self.translation.x().plus(dx) {
            Some(t) => t,
            None => {
                return false;
            },
        };
        let ny = match self.translation.y().plus(dy) {
            Some(t) => t,
            None => {
                return false;
            },
        };
        let moved = match Point::new(nx, ny) {
            Some(p) => p,
            None => {
                return false;
            },
        };
        proof {
            let ex = f_add(fp_x(self.translation.vp()), dx.fr());
            let ey = f_add(fp_y(self.translation.vp()), dy.fr());
            assert(crate::frac::f_ok(ex) && crate::frac::f_ok(ey)) by (nonlinear_arith)
                requires
                    ex.d == self.translation.vp().den * dx.fr().d,
                    ey.d == self.translation.vp().den * dy.fr().d,
                    self.translation.vp().den > 0,
                    dx.fr().d > 0,
                    dy.fr().d > 0,
            ;
            crate::frac::lemma_f_eq_trans(fp_x(moved.vp()), nx.fr(), ex);
            crate::frac::lemma_f_eq_trans(fp_y(moved.vp()), ny.fr(), ey);
        }
        self.translation = moved;
        true
    }

    /// The screen position of a shape-space coordinate pair:
    /// `translation + p * scale`. `None` exactly when an intermediate does
    /// not fit the representation.
    pub fn gerber_to_screen_coords(&self, p: Point) -> (r: Option<Point>)
        requires
            self.wf(),
            p.wf(),
        ensures
            (r is Some) == (view_map_checked(*self, p.vp()) is Some),
            r matches Some(q) ==> {
                &&& q.wf()
                &&& f_eq(
                    fp_x(q.vp()),
                    view_coord(fp_x(self.translation.vp()), fp_x(p.vp()), self.scale.fr()),
                )
                &&& f_eq(
                    fp_y(q.vp()),
                    view_coord(fp_y(self.translation.vp()), fp_y(p.vp()), self.scale.fr()),
                )
            },
    {
        let sx = match view_coord_exec(self.translation.x(), p.x(), self.scale) {
            Some(c) => c,
            None => {
                return None;
            },
        };
        let sy = match view_coord_exec(self.translation.y(), p.y(), self.scale) {
            Some(c) => c,
            None => {
                return None;
            },
        };
        proof {
            assert(view_map_checked(*self, p.vp()) == point_checked(sx.fr(), sy.fr()));
        }
        let r = Point::new(sx, sy);
        proof {
            if r is Some {
                let q = r->Some_0;
                let vcx = view_coord(fp_x(self.translation.vp()), fp_x(p.vp()), self.scale.fr());
                let vcy = view_coord(fp_y(self.translation.vp()), fp_y(p.vp()), self.scale.fr());
                assert(f_ok(vcx) && f_ok(vcy)) by (nonlinear_arith)
                    requires
                        vcx.d == self.translation.vp().den * (p.vp().den * self.scale.fr().d),
                        vcy.d == self.translation.vp().den * (p.vp().den * self.scale.fr().d),
                        self.translation.vp().den > 0,
                        p.vp().den > 0,
                        self.scale.fr().d > 0,
                ;
                crate::frac::lemma_f_eq_trans(
                    fp_x(q.vp()),
                    sx.fr(),
                    view_coord(fp_x(self.translation.vp()), fp_x(p.vp()), self.scale.fr()),
                );
                crate::frac::lemma_f_eq_trans(
                    fp_y(q.vp()),
                    sy.fr(),
                    view_coord(fp_y(self.translation.vp()), fp_y(p.vp()), self.scale.fr()),
                );
            }
        }
        r
    }

    /// The shape-space position under a screen coordinate pair: the exact
    /// inverse `(p - translation) / scale`. `None` when the scale is zero (a
    /// collapsed view has no inverse) or an intermediate does not fit.
    pub fn screen_to_gerber_coords(&self, p: Point) -> (r: Option<Point>)
        requires
            self.wf(),
            p.wf(),
        ensures
            (r is Some) == (screen_to_gerber_checked(*self, p.vp()) is Some),
            self.scale.fr().n == 0 ==> r is None,
            r matches Some(q) ==> {
                &&& self.scale.fr().n != 0
                &&& q.wf()
                &&& f_eq(
                    fp_x(q.vp()),
                    f_div(f_sub(fp_x(p.vp()), fp_x(self.translation.vp())), self.scale.fr()),
                )
                &&& f_eq(
                    fp_y(q.vp()),
                    f_div(f_sub(fp_y(p.vp()), fp_y(self.translation.vp())), self.scale.fr()),
                )
            },
    {
        if self.scale.is_zero() {
            return None;
        }
        let dx = match p.x().minus(self.translation.x()) {
            Some(c) => c,
            None => {
                return None;
            },
        };
        let dy = match p.y().minus(self.translation.y()) {
            Some(c) => c,
            None => {
                return None;
            },
        };
        let gx = match dx.over(self.scale) {
            Some(c) => c,
            None => {
                return None;
            },
        };
        let gy = match dy.over(self.scale) {
            Some(c) => c,
            None => {
                return None;
            },
        };
        let r = Point::new(gx, gy);
        proof {
            if r is Some {
                let q = r->Some_0;
                let ex = f_sub(fp_x(p.vp()), fp_x(self.translation.vp()));
                let ey = f_sub(fp_y(p.vp()), fp_y(self.translation.vp()));
                assert(f_ok(ex) && f_ok(ey)) by (nonlinear_arith)
                    requires
                        ex.d == p.vp().den * self.translation.vp().den,
                        ey.d == p.vp().den * self.translation.vp().den,
                        p.vp().den > 0,
                        self.translation.vp().den > 0,
                ;
                lemma_f_div_congr(dx.fr(), ex, self.scale.fr(), self.scale.fr());
                lemma_f_div_congr(dy.fr(), ey, self.scale.fr(), self.scale.fr());
                crate::frac::lemma_f_eq_trans(gx.fr(), f_div(dx.fr(), self.scale.fr()), f_div(ex, self.scale.fr()));
                crate::frac::lemma_f_eq_trans(gy.fr(), f_div(dy.fr(), self.scale.fr()), f_div(ey, self.scale.fr()));
                crate::frac::lemma_f_eq_trans(fp_x(q.vp()), gx.fr(), f_div(ex, self.scale.fr()));
                crate::frac::lemma_f_eq_trans(fp_y(q.vp()), gy.fr(), f_div(ey, self.scale.fr()));
            }
        }
        r
    }
}

/// One screen coordinate: `tc + pc * k`, via the checked scalar operations.
fn view_coord_exec(tc: Rat, pc: Rat, k: Rat) -> (r: Option<Rat>)
    requires
        tc.wf(),
        pc.wf(),
        k.wf(),
    ensures
        (r is Some) == (view_coord_checked(tc.fr(), pc.fr(), k.fr()) is Some),
        r matches Some(c) ==> c.wf() && Some(c.fr()) == view_coord_checked(
            tc.fr(),
            pc.fr(),
            k.fr(),
        ) && f_eq(c.fr(), view_coord(tc.fr(), pc.fr(), k.fr())),
{
    let m = match pc.times(k) {
        Some(m) => m,
        None => {
            return None;
        },
    };
    let s = match tc.plus(m) {
        Some(s) => s,
        None => {
            return None;
        },
    };
    proof {
        let exact_m = f_mul(pc.fr(), k.fr());
        assert(f_ok(exact_m)) by (nonlinear_arith)
            requires
                exact_m.d == pc.fr().d * k.fr().d,
                pc.fr().d > 0,
                k.fr().d > 0,
        ;
        lemma_f_add_congr(tc.fr(), tc.fr(), m.fr(), exact_m);
        let sum1 = f_add(tc.fr(), m.fr());
        let sum2 = f_add(tc.fr(), exact_m);
        assert(f_ok(sum1) && f_ok(sum2)) by (nonlinear_arith)
            requires
                sum1.d == tc.fr().d * m.fr().d,
                sum2.d == tc.fr().d * exact_m.d,
                tc.fr().d > 0,
                m.fr().d > 0,
                exact_m.d > 0,
        ;
        crate::frac::lemma_f_eq_trans(s.fr(), sum1, sum2);
    }
    Some(s)
}


/// The width of a box.
pub open spec fn box_width(b: BoundingBox) -> Frac {
    f_sub(b.max_x.fr(), b.min_x.fr())
}

/// The height of a box.
pub open spec fn box_height(b: BoundingBox) -> Frac {
    f_sub(b.max_y.fr(), b.min_y.fr())
}

/// The x coordinate of a box's center.
pub open spec fn box_center_x(b: BoundingBox) -> Frac {
    f_mul(f_add(b.min_x.fr(), b.max_x.fr()), f_half())
}

/// The y coordinate of a box's center.
pub open spec fn box_center_y(b: BoundingBox) -> Frac {
    f_mul(f_add(b.min_y.fr(), b.max_y.fr()), f_half())
}

/// The scale fit-view chooses: the zoom fraction of the tighter of the two
/// viewport-to-box ratios, or one for a degenerate (zero-width or
/// zero-height) box.
pub open spec fn fit_scale(vp: BoundingBox, tb: BoundingBox, zoom: Frac) -> Frac {
    if box_width(tb).n == 0 || box_height(tb).n == 0 {
        f_int(1)
    } else {
        f_mul(zoom, f_min(f_div(box_width(vp), box_width(tb)), f_div(box_height(vp), box_height(tb))))
    }
}

/// The translation fit-view chooses along x: it places the scaled box center
/// at the viewport center.
pub open spec fn fit_translation_x(vp: BoundingBox, tb: BoundingBox, zoom: Frac) -> Frac {
    f_sub(box_center_x(vp), f_mul(box_center_x(tb), fit_scale(vp, tb, zoom)))
}

/// The translation fit-view chooses along y.
pub open spec fn fit_translation_y(vp: BoundingBox, tb: BoundingBox, zoom: Frac) -> Frac {
    f_sub(box_center_y(vp), f_mul(box_center_y(tb), fit_scale(vp, tb, zoom)))
}

/// The checked fit-view scale, as the executable code computes it.
pub open spec fn fit_scale_checked(vp: BoundingBox, tb: BoundingBox, zoom: Frac) -> Option<Frac> {
    match f_checked(f_sub(tb.max_x.fr(), tb.min_x.fr())) {
        Option::None => Option::None,
        Option::Some(bw) => match f_checked(f_sub(tb.max_y.fr(), tb.min_y.fr())) {
            Option::None => Option::None,
            Option::Some(bh) => if bw.n == 0 || bh.n == 0 {
                Option::Some(f_int(1))
            } else {
                match f_checked(f_sub(vp.max_x.fr(), vp.min_x.fr())) {
                    Option::None => Option::None,
                    Option::Some(vw) => match f_checked(f_sub(vp.max_y.fr(), vp.min_y.fr())) {
                        Option::None => Option::None,
                        Option::Some(vh) => match f_checked(f_div(vw, bw)) {
                            Option::None => Option::None,
                            Option::Some(rx) => match f_checked(f_div(vh, bh)) {
                                Option::None => Option::None,
                                Option::Some(ry) => f_checked(f_mul(zoom, f_min(rx, ry))),
                            },
                        },
                    },
                }
            },
        },
    }
}

/// The checked fit-view translation along one axis.
pub open spec fn fit_translation_checked(
    tmin: Frac,
    tmax: Frac,
    vmin: Frac,
    vmax: Frac,
    k: Frac,
) -> Option<Frac> {
    match f_checked(f_add(vmin, vmax)) {
        Option::None => Option::None,
        Option::Some(s1) => match f_checked(f_mul(s1, f_half())) {
            Option::None => Option::None,
            Option::Some(cv) => match f_checked(f_add(tmin, tmax)) {
                Option::None => Option::None,
                Option::Some(s2) => match f_checked(f_mul(s2, f_half())) {
                    Option::None => Option::None,
                    Option::Some(ct) => match f_checked(f_mul(ct, k)) {
                        Option::None => Option::None,
                        Option::Some(ck) => f_checked(f_sub(cv, ck)),
                    },
                },
            },
        },
    }
}

/// The checked fit-view result: scale and translation pair.
pub open spec fn fit_view_checked(vp: BoundingBox, tb: BoundingBox, zoom: Frac) -> Option<
    (Frac, Frac, Frac),
> {
    match fit_scale_checked(vp, tb, zoom) {
        Option::None => Option::None,
        Option::Some(k) => match fit_translation_checked(
            tb.min_x.fr(),
            tb.max_x.fr(),
            vp.min_x.fr(),
            vp.max_x.fr(),
            k,
        ) {
            Option::None => Option::None,
            Option::Some(tx) => match fit_translation_checked(
                tb.min_y.fr(),
                tb.max_y.fr(),
                vp.min_y.fr(),
                vp.max_y.fr(),
                k,
            ) {
                Option::None => Option::None,
                Option::Some(ty) => match point_checked(tx, ty) {
                    Option::None => Option::None,
                    Option::Some(_) => Option::Some((k, tx, ty)),
                },
            },
        },
    }
}

/// The scale the checked computation returns denotes the exact fit scale.
proof fn lemma_fit_scale_exact(vp: BoundingBox, tb: BoundingBox, zoom: Frac, k: Frac)
    requires
        vp.wf(),
        tb.wf(),
        f_ok(zoom),
        fit_scale_checked(vp, tb, zoom) == Some(k),
    ensures
        f_ok(k),
        f_eq(k, fit_scale(vp, tb, zoom)),
{
    let bw_e = box_width(tb);
    let bh_e = box_height(tb);
    let vw_e = box_width(vp);
    let vh_e = box_height(vp);
    assert(f_ok(bw_e) && f_ok(bh_e) && f_ok(vw_e) && f_ok(vh_e)) by (nonlinear_arith)
        requires
            bw_e.d == tb.max_x.fr().d * tb.min_x.fr().d,
            bh_e.d == tb.max_y.fr().d * tb.min_y.fr().d,
            vw_e.d == vp.max_x.fr().d * vp.min_x.fr().d,
            vh_e.d == vp.max_y.fr().d * vp.min_y.fr().d,
            tb.max_x.fr().d > 0,
            tb.min_x.fr().d > 0,
            tb.max_y.fr().d > 0,
            tb.min_y.fr().d > 0,
            vp.max_x.fr().d > 0,
            vp.min_x.fr().d > 0,
            vp.max_y.fr().d > 0,
            vp.min_y.fr().d > 0,
    ;
    crate::frac::lemma_norm_same(bw_e);
    crate::frac::lemma_norm_same(bh_e);
    let bw = crate::frac::f_norm(bw_e);
    let bh = crate::frac::f_norm(bh_e);
    crate::frac::lemma_f_eq_zero(bw, bw_e);
    crate::frac::lemma_f_eq_zero(bh, bh_e);
    if bw.n == 0 || bh.n == 0 {
    } else {
        crate::frac::lemma_norm_same(vw_e);
        crate::frac::lemma_norm_same(vh_e);
        let vw = crate::frac::f_norm(vw_e);
        let vh = crate::frac::f_norm(vh_e);
        lemma_f_div_congr(vw, vw_e, bw, bw_e);
        lemma_f_div_congr(vh, vh_e, bh, bh_e);
        crate::frac::lemma_norm_same(f_div(vw, bw));
        crate::frac::lemma_norm_same(f_div(vh, bh));
        let rx = crate::frac::f_norm(f_div(vw, bw));
        let ry = crate::frac::f_norm(f_div(vh, bh));
        crate::frac::lemma_f_eq_trans(rx, f_div(vw, bw), f_div(vw_e, bw_e));
        crate::frac::lemma_f_eq_trans(ry, f_div(vh, bh), f_div(vh_e, bh_e));
        lemma_f_min_congr(rx, f_div(vw_e, bw_e), ry, f_div(vh_e, bh_e));
        let mn = f_min(rx, ry);
        let mn_e = f_min(f_div(vw_e, bw_e), f_div(vh_e, bh_e));
        assert(f_ok(mn) && f_ok(mn_e));
        lemma_f_mul_congr(zoom, zoom, mn, mn_e);
        assert(f_ok(f_mul(zoom, mn)) && f_ok(f_mul(zoom, mn_e))) by (nonlinear_arith)
            requires
                zoom.d > 0,
                mn.d > 0,
                mn_e.d > 0,
                f_mul(zoom, mn).d == zoom.d * mn.d,
                f_mul(zoom, mn_e).d == zoom.d * mn_e.d,
        ;
        crate::frac::lemma_norm_same(f_mul(zoom, mn));
        crate::frac::lemma_f_eq_trans(k, f_mul(zoom, mn), f_mul(zoom, mn_e));
    }
}

/// The translation the checked computation returns denotes the exact
/// centering translation.
proof fn lemma_fit_translation_exact(
    tmin: Frac,
    tmax: Frac,
    vmin: Frac,
    vmax: Frac,
    k: Frac,
    k_e: Frac,
    t: Frac,
)
    requires
        f_ok(tmin),
        f_ok(tmax),
        f_ok(vmin),
        f_ok(vmax),
        f_ok(k),
        f_ok(k_e),
        f_eq(k, k_e),
        fit_translation_checked(tmin, tmax, vmin, vmax, k) == Some(t),
    ensures
        f_ok(t),
        f_eq(t, f_sub(f_mul(f_add(vmin, vmax), f_half()), f_mul(f_mul(f_add(tmin, tmax), f_half()), k_e))),
{
    let s1_e = f_add(vmin, vmax);
    let s2_e = f_add(tmin, tmax);
    assert(f_ok(s1_e) && f_ok(s2_e)) by (nonlinear_arith)
        requires
            s1_e.d == vmin.d * vmax.d,
            s2_e.d == tmin.d * tmax.d,
            vmin.d > 0,
            vmax.d > 0,
            tmin.d > 0,
            tmax.d > 0,
    ;
    crate::frac::lemma_norm_same(s1_e);
    crate::frac::lemma_norm_same(s2_e);
    let s1 = crate::frac::f_norm(s1_e);
    let s2 = crate::frac::f_norm(s2_e);
    lemma_f_mul_congr(s1, s1_e, f_half(), f_half());
    lemma_f_mul_congr(s2, s2_e, f_half(), f_half());
    let cv_e = f_mul(s1_e, f_half());
    let ct_e = f_mul(s2_e, f_half());
    assert(f_ok(cv_e) && f_ok(ct_e) && f_ok(f_mul(s1, f_half())) && f_ok(f_mul(s2, f_half())))
        by (nonlinear_arith)
        requires
            cv_e.d == s1_e.d * 2,
            ct_e.d == s2_e.d * 2,
            f_mul(s1, f_half()).d == s1.d * 2,
            f_mul(s2, f_half()).d == s2.d * 2,
            s1_e.d > 0,
            s2_e.d > 0,
            s1.d > 0,
            s2.d > 0,
    ;
    crate::frac::lemma_norm_same(f_mul(s1, f_half()));
    crate::frac::lemma_norm_same(f_mul(s2, f_half()));
    let cv = crate::frac::f_norm(f_mul(s1, f_half()));
    let ct = crate::frac::f_norm(f_mul(s2, f_half()));
    crate::frac::lemma_f_eq_trans(cv, f_mul(s1, f_half()), cv_e);
    crate::frac::lemma_f_eq_trans(ct, f_mul(s2, f_half()), ct_e);
    lemma_f_mul_congr(ct, ct_e, k, k_e);
    let ck_e = f_mul(ct_e, k_e);
    assert(f_ok(ck_e) && f_ok(f_mul(ct, k))) by (nonlinear_arith)
        requires
            ck_e.d == ct_e.d * k_e.d,
            f_mul(ct, k).d == ct.d * k.d,
            ct_e.d > 0,
            k_e.d > 0,
            ct.d > 0,
            k.d > 0,
    ;
    crate::frac::lemma_norm_same(f_mul(ct, k));
    let ck = crate::frac::f_norm(f_mul(ct, k));
    crate::frac::lemma_f_eq_trans(ck, f_mul(ct, k), ck_e);
    lemma_f_sub_congr(cv, cv_e, ck, ck_e);
    let sub_e = f_sub(cv_e, ck_e);
    assert(f_ok(sub_e) && f_ok(f_sub(cv, ck))) by (nonlinear_arith)
        requires
            sub_e.d == cv_e.d * ck_e.d,
            f_sub(cv, ck).d == cv.d * ck.d,
            cv_e.d > 0,
            ck_e.d > 0,
            cv.d > 0,
            ck.d > 0,
    ;
    crate::frac::lemma_norm_same(f_sub(cv, ck));
    crate::frac::lemma_f_eq_trans(t, f_sub(cv, ck), sub_e);
}

impl ViewState {
    /// Frame the target box inside the viewport: center it and scale it so
    /// it occupies at most the `zoom` fraction of the viewport. A target box
    /// of zero width or height gets scale one, centered. On success the new
    /// scale and translation satisfy the exact fit formulas; on overflow the
    /// view is left unchanged.
    pub fn fit_view(&mut self, viewport: &BoundingBox, target: &BoundingBox, zoom: Rat) -> (ok:
        bool)
        requires
            old(self).wf(),
            viewport.wf(),
            target.wf(),
            zoom.wf(),
        ensures
            ok == (fit_view_checked(*viewport, *target, zoom.fr()) is Some),
            !ok ==> *final(self) == *old(self),
            ok ==> {
                &&& final(self).wf()
                &&& f_eq(final(self).scale.fr(), fit_scale(*viewport, *target, zoom.fr()))
                &&& f_eq(
                    fp_x(final(self).translation.vp()),
                    fit_translation_x(*viewport, *target, zoom.fr()),
                )
                &&& f_eq(
                    fp_y(final(self).translation.vp()),
                    fit_translation_y(*viewport, *target, zoom.fr()),
                )
            },
    {
        let k = match fit_scale_exec(viewport, target, zoom) {
            Some(k) => k,
            None => {
                return false;
            },
        };
        let tx = match fit_translation_exec(target.min_x, target.max_x, viewport.min_x, viewport.max_x, k) {
            Some(t) => t,
            None => {
                return false;
            },
        };
        let ty = match fit_translation_exec(target.min_y, target.max_y, viewport.min_y, viewport.max_y, k) {
            Some(t) => t,
            None => {
                return false;
            },
        };
        let tr = match Point::new(tx, ty) {
            Some(p) => p,
            None => {
                return false;
            },
        };
        proof {
            lemma_fit_scale_exact(*viewport, *target, zoom.fr(), k.fr());
            lemma_fit_formula_ok(*viewport, *target, zoom.fr());
            lemma_fit_translation_exact(
                target.min_x.fr(),
                target.max_x.fr(),
                viewport.min_x.fr(),
                viewport.max_x.fr(),
                k.fr(),
                fit_scale(*viewport, *target, zoom.fr()),
                tx.fr(),
            );
            lemma_fit_translation_exact(
                target.min_y.fr(),
                target.max_y.fr(),
                viewport.min_y.fr(),
                viewport.max_y.fr(),
                k.fr(),
                fit_scale(*viewport, *target, zoom.fr()),
                ty.fr(),
            );
            let fx = fit_translation_x(*viewport, *target, zoom.fr());
            let fy = fit_translation_y(*viewport, *target, zoom.fr());
            crate::frac::lemma_f_eq_trans(fp_x(tr.vp()), tx.fr(), fx);
            crate::frac::lemma_f_eq_trans(fp_y(tr.vp()), ty.fr(), fy);
        }
        self.scale = k;
        self.translation = tr;
        true
    }
}

/// The exact fit formulas have positive denominators.
proof fn lemma_fit_formula_ok(vp: BoundingBox, tb: BoundingBox, zoom: Frac)
    requires
        vp.wf(),
        tb.wf(),
        f_ok(zoom),
    ensures
        f_ok(fit_scale(vp, tb, zoom)),
        f_ok(fit_translation_x(vp, tb, zoom)),
        f_ok(fit_translation_y(vp, tb, zoom)),
{
    let k = fit_scale(vp, tb, zoom);
    assert(f_ok(k)) by {
        if box_width(tb).n == 0 || box_height(tb).n == 0 {
        } else {
            let bw = box_width(tb);
            let bh = box_height(tb);
            let vw = box_width(vp);
            let vh = box_height(vp);
            assert(f_ok(bw) && f_ok(bh) && f_ok(vw) && f_ok(vh)) by (nonlinear_arith)
                requires
                    bw.d == tb.max_x.fr().d * tb.min_x.fr().d,
                    bh.d == tb.max_y.fr().d * tb.min_y.fr().d,
                    vw.d == vp.max_x.fr().d * vp.min_x.fr().d,
                    vh.d == vp.max_y.fr().d * vp.min_y.fr().d,
                    tb.max_x.fr().d > 0,
                    tb.min_x.fr().d > 0,
                    tb.max_y.fr().d > 0,
                    tb.min_y.fr().d > 0,
                    vp.max_x.fr().d > 0,
                    vp.min_x.fr().d > 0,
                    vp.max_y.fr().d > 0,
                    vp.min_y.fr().d > 0,
            ;
            assert(crate::frac::f_inv(bw).d > 0 && crate::frac::f_inv(bh).d > 0);
            let rx = f_div(vw, bw);
            let ry = f_div(vh, bh);
            assert(f_ok(rx) && f_ok(ry)) by (nonlinear_arith)
                requires
                    rx.d == vw.d * crate::frac::f_inv(bw).d,
                    ry.d == vh.d * crate::frac::f_inv(bh).d,
                    vw.d > 0,
                    vh.d > 0,
                    crate::frac::f_inv(bw).d > 0,
                    crate::frac::f_inv(bh).d > 0,
            ;
            let mn = f_min(rx, ry);
            assert(f_ok(k)) by (nonlinear_arith)
                requires
                    k.d == zoom.d * mn.d,
                    zoom.d > 0,
                    mn.d > 0,
            ;
        }
    }
    let cvx = box_center_x(vp);
    let ctx = box_center_x(tb);
    let cvy = box_center_y(vp);
    let cty = box_center_y(tb);
    assert(f_ok(cvx) && f_ok(ctx) && f_ok(cvy) && f_ok(cty)) by (nonlinear_arith)
        requires
            cvx.d == (vp.min_x.fr().d * vp.max_x.fr().d) * 2,
            ctx.d == (tb.min_x.fr().d * tb.max_x.fr().d) * 2,
            cvy.d == (vp.min_y.fr().d * vp.max_y.fr().d) * 2,
            cty.d == (tb.min_y.fr().d * tb.max_y.fr().d) * 2,
            vp.min_x.fr().d > 0,
            vp.max_x.fr().d > 0,
            tb.min_x.fr().d > 0,
            tb.max_x.fr().d > 0,
            vp.min_y.fr().d > 0,
            vp.max_y.fr().d > 0,
            tb.min_y.fr().d > 0,
            tb.max_y.fr().d > 0,
    ;
    assert(f_ok(fit_translation_x(vp, tb, zoom))) by (nonlinear_arith)
        requires
            fit_translation_x(vp, tb, zoom).d == cvx.d * (ctx.d * k.d),
            cvx.d > 0,
            ctx.d > 0,
            k.d > 0,
    ;
    assert(f_ok(fit_translation_y(vp, tb, zoom))) by (nonlinear_arith)
        requires
            fit_translation_y(vp, tb, zoom).d == cvy.d * (cty.d * k.d),
            cvy.d > 0,
            cty.d > 0,
            k.d > 0,
    ;
}

/// The fit scale, via the checked scalar operations.
fn fit_scale_exec(vp: &BoundingBox, tb: &BoundingBox, zoom: Rat) -> (r: Option<Rat>)
    requires
        vp.wf(),
        tb.wf(),
        zoom.wf(),
    ensures
        (r is Some) == (fit_scale_checked(*vp, *tb, zoom.fr()) is Some),
        r matches Some(k) ==> k.wf() && Some(k.fr()) == fit_scale_checked(*vp, *tb, zoom.fr()),
{
    let bw = match tb.max_x.minus(tb.min_x) {
        Some(v) => v,
        None => {
            return None;
        },
    };
    let bh = match tb.max_y.minus(tb.min_y) {
        Some(v) => v,
        None => {
            return None;
        },
    };
    if bw.is_zero() || bh.is_zero() {
        return Some(Rat::one());
    }
    let vw = match vp.max_x.minus(vp.min_x) {
        Some(v) => v,
        None => {
            return None;
        },
    };
    let vh = match vp.max_y.minus(vp.min_y) {
        Some(v) => v,
        None => {
            return None;
        },
    };
    let rx = match vw.over(bw) {
        Some(v) => v,
        None => {
            return None;
        },
    };
    let ry = match vh.over(bh) {
        Some(v) => v,
        None => {
            return None;
        },
    };
    let mn = rx.min_of(ry);
    zoom.times(mn)
}

/// The fit translation along one axis, via the checked scalar operations.
fn fit_translation_exec(tmin: Rat, tmax: Rat, vmin: Rat, vmax: Rat, k: Rat) -> (r: Option<Rat>)
    requires
        tmin.wf(),
        tmax.wf(),
        vmin.wf(),
        vmax.wf(),
        k.wf(),
    ensures
        (r is Some) == (fit_translation_checked(tmin.fr(), tmax.fr(), vmin.fr(), vmax.fr(), k.fr())
            is Some),
        r matches Some(t) ==> t.wf() && Some(t.fr()) == fit_translation_checked(
            tmin.fr(),
            tmax.fr(),
            vmin.fr(),
            vmax.fr(),
            k.fr(),
        ),
{
    let half = Rat::from_wf_parts(1, 2);
    let s1 = match vmin.plus(vmax) {
        Some(v) => v,
        None => {
            return None;
        },
    };
    let cv = match s1.times(half) {
        Some(v) => v,
        None => {
            return None;
        },
    };
    let s2 = match tmin.plus(tmax) {
        Some(v) => v,
        None => {
            return None;
        },
    };
    let ct = match s2.times(half) {
        Some(v) => v,
        None => {
            return None;
        },
    };
    let ck = match ct.times(k) {
        Some(v) => v,
        None => {
            return None;
        },
    };
    cv.minus(ck)
}


/// Fit-view frames the target: the scaled target center lands exactly on
/// the viewport center, and along the limiting axis the scaled target width
/// is exactly the zoom fraction of the viewport width (for a nondegenerate
/// target).
pub proof fn lemma_fit_view_frames(vp: BoundingBox, tb: BoundingBox, zoom: Frac)
    requires
        vp.wf(),
        tb.wf(),
        f_ok(zoom),
    ensures
        f_eq(
            f_add(
                fit_translation_x(vp, tb, zoom),
                f_mul(box_center_x(tb), fit_scale(vp, tb, zoom)),
            ),
            box_center_x(vp),
        ),
        f_eq(
            f_add(
                fit_translation_y(vp, tb, zoom),
                f_mul(box_center_y(tb), fit_scale(vp, tb, zoom)),
            ),
            box_center_y(vp),
        ),
        box_width(tb).n != 0 && box_height(tb).n != 0 && f_le(
            f_div(box_width(vp), box_width(tb)),
            f_div(box_height(vp), box_height(tb)),
        ) ==> f_eq(f_mul(fit_scale(vp, tb, zoom), box_width(tb)), f_mul(zoom, box_width(vp))),
        box_width(tb).n != 0 && box_height(tb).n != 0 && !f_le(
            f_div(box_width(vp), box_width(tb)),
            f_div(box_height(vp), box_height(tb)),
        ) ==> f_eq(f_mul(fit_scale(vp, tb, zoom), box_height(tb)), f_mul(zoom, box_height(vp))),
{
    let k = fit_scale(vp, tb, zoom);
    lemma_fit_formula_ok(vp, tb, zoom);
    let cvx = box_center_x(vp);
    let ctx = box_center_x(tb);
    let cvy = box_center_y(vp);
    let cty = box_center_y(tb);
    assert(f_ok(cvx) && f_ok(ctx) && f_ok(cvy) && f_ok(cty)) by (nonlinear_arith)
        requires
            cvx.d == (vp.min_x.fr().d * vp.max_x.fr().d) * 2,
            ctx.d == (tb.min_x.fr().d * tb.max_x.fr().d) * 2,
            cvy.d == (vp.min_y.fr().d * vp.max_y.fr().d) * 2,
            cty.d == (tb.min_y.fr().d * tb.max_y.fr().d) * 2,
            vp.min_x.fr().d > 0,
            vp.max_x.fr().d > 0,
            tb.min_x.fr().d > 0,
            tb.max_x.fr().d > 0,
            vp.min_y.fr().d > 0,
            vp.max_y.fr().d > 0,
            tb.min_y.fr().d > 0,
            tb.max_y.fr().d > 0,
    ;
    assert(f_ok(f_mul(ctx, k)) && f_ok(f_mul(cty, k))) by (nonlinear_arith)
        requires
            f_mul(ctx, k).d == ctx.d * k.d,
            f_mul(cty, k).d == cty.d * k.d,
            ctx.d > 0,
            cty.d > 0,
            k.d > 0,
    ;
    crate::frac::lemma_f_sub_add_cancel(cvx, f_mul(ctx, k));
    crate::frac::lemma_f_sub_add_cancel(cvy, f_mul(cty, k));
    if box_width(tb).n != 0 && box_height(tb).n != 0 {
        let bw = box_width(tb);
        let bh = box_height(tb);
        let vw = box_width(vp);
        let vh = box_height(vp);
        assert(f_ok(bw) && f_ok(bh) && f_ok(vw) && f_ok(vh)) by (nonlinear_arith)
            requires
                bw.d == tb.max_x.fr().d * tb.min_x.fr().d,
                bh.d == tb.max_y.fr().d * tb.min_y.fr().d,
                vw.d == vp.max_x.fr().d * vp.min_x.fr().d,
                vh.d == vp.max_y.fr().d * vp.min_y.fr().d,
                tb.max_x.fr().d > 0,
                tb.min_x.fr().d > 0,
                tb.max_y.fr().d > 0,
                tb.min_y.fr().d > 0,
                vp.max_x.fr().d > 0,
                vp.min_x.fr().d > 0,
                vp.max_y.fr().d > 0,
                vp.min_y.fr().d > 0,
        ;
        let rx = f_div(vw, bw);
        let ry = f_div(vh, bh);
        crate::frac::lemma_f_div_mul_cancel(vw, bw);
        crate::frac::lemma_f_div_mul_cancel(vh, bh);
        assert(f_ok(rx) && f_ok(ry));
        if f_le(rx, ry) {
            assert(k == f_mul(zoom, rx));
            crate::frac::lemma_f_mul_assoc(zoom, rx, bw);
            assert(f_ok(f_mul(rx, bw)) && f_ok(f_mul(f_mul(zoom, rx), bw)) && f_ok(
                f_mul(zoom, f_mul(rx, bw)),
            ) && f_ok(f_mul(zoom, vw))) by (nonlinear_arith)
                requires
                    zoom.d > 0,
                    rx.d > 0,
                    bw.d > 0,
                    vw.d > 0,
                    f_mul(rx, bw).d == rx.d * bw.d,
                    f_mul(f_mul(zoom, rx), bw).d == (zoom.d * rx.d) * bw.d,
                    f_mul(zoom, f_mul(rx, bw)).d == zoom.d * (rx.d * bw.d),
                    f_mul(zoom, vw).d == zoom.d * vw.d,
            ;
            lemma_f_mul_congr(zoom, zoom, f_mul(rx, bw), vw);
            crate::frac::lemma_f_eq_trans(
                f_mul(k, bw),
                f_mul(zoom, f_mul(rx, bw)),
                f_mul(zoom, vw),
            );
        } else {
            assert(k == f_mul(zoom, ry));
            crate::frac::lemma_f_mul_assoc(zoom, ry, bh);
            assert(f_ok(f_mul(ry, bh)) && f_ok(f_mul(f_mul(zoom, ry), bh)) && f_ok(
                f_mul(zoom, f_mul(ry, bh)),
            ) && f_ok(f_mul(zoom, vh))) by (nonlinear_arith)
                requires
                    zoom.d > 0,
                    ry.d > 0,
                    bh.d > 0,
                    vh.d > 0,
                    f_mul(ry, bh).d == ry.d * bh.d,
                    f_mul(f_mul(zoom, ry), bh).d == (zoom.d * ry.d) * bh.d,
                    f_mul(zoom, f_mul(ry, bh)).d == zoom.d * (ry.d * bh.d),
                    f_mul(zoom, vh).d == zoom.d * vh.d,
            ;
            lemma_f_mul_congr(zoom, zoom, f_mul(ry, bh), vh);
            crate::frac::lemma_f_eq_trans(
                f_mul(k, bh),
                f_mul(zoom, f_mul(ry, bh)),
                f_mul(zoom, vh),
            );
        }
    }
}


/// The screen mapping and its inverse cancel: mapping a coordinate to the
/// screen and reading it back through the inverse returns the coordinate,
/// whenever the zoom is nonzero. This is the cursor-readout round trip.
pub proof fn lemma_view_round_trip(tc: Frac, pc: Frac, k: Frac)
    requires
        f_ok(tc),
        f_ok(pc),
        f_ok(k),
        k.n != 0,
    ensures
        f_eq(f_div(f_sub(view_coord(tc, pc, k), tc), k), pc),
{
    let m = f_mul(pc, k);
    assert(f_ok(m)) by (nonlinear_arith)
        requires
            m.d == pc.d * k.d,
            pc.d > 0,
            k.d > 0,
    ;
    crate::frac::lemma_f_add_sub_cancel(tc, m);
    let lhs = f_sub(view_coord(tc, pc, k), tc);
    assert(f_ok(lhs)) by (nonlinear_arith)
        requires
            lhs.d == (tc.d * m.d) * tc.d,
            tc.d > 0,
            m.d > 0,
    ;
    lemma_f_div_congr(lhs, m, k, k);
    crate::frac::lemma_f_mul_div_cancel(pc, k);
    crate::frac::lemma_f_eq_trans(f_div(lhs, k), f_div(m, k), pc);
}

} // verus!
