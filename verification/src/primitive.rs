//! The primitive model: the five shape kinds a layer is made of, each with
//! its exposure flag, its bounding box, and the verified computation of its
//! screen geometry under a composed transform and a view.
use vstd::prelude::*;

use crate::arc::ArcDirection;
use crate::bbox::BoundingBox;
use crate::frac::{
    f_add, f_eq, f_int, f_le, f_max, f_min, f_mul, f_ok, f_sub, lemma_f_mul_congr, Frac,
};
use crate::geometry::{
    f_checked, fm_apply, fp_eq, fp_ok, fp_x, fp_y, lemma_apply_point_eq, lemma_f_add_congr, FMat,
    FPoint, Mat, Point,
};
use crate::polygon::{ip_wf, ring_convex, IPoint, Tessellation};
use crate::rat::Rat;
use crate::view::{view_coord, ViewState};

verus! {

/// The paint semantics of a primitive: adding paint or clearing it. Here it
/// only selects the color at render time.
#[derive(Clone, Copy, Debug, PartialEq, Eq, Structural)]
pub enum Exposure {
    Add,
    Subtract,
}

/// The fixed-point unit of polygon vertices: one unit is `1 / 65536`.
pub const UNIT: i64 = 65536;

/// A filled circle.
#[derive(Clone, Copy, Debug)]
pub struct CircleGerberPrimitive {
    pub center: Point,
    pub diameter: Rat,
    pub exposure: Exposure,
}

/// An axis-aligned rectangle, held by its bottom-left corner (pre-rotation).
#[derive(Clone, Copy, Debug)]
pub struct RectangleGerberPrimitive {
    pub origin: Point,
    pub width: Rat,
    pub height: Rat,
    pub exposure: Exposure,
}

/// A stroked segment with round caps of half the stroke width.
#[derive(Clone, Copy, Debug)]
pub struct LineGerberPrimitive {
    pub start: Point,
    pub end: Point,
    pub width: Rat,
    pub exposure: Exposure,
}

/// A stroked circular arc.
#[derive(Clone, Copy, Debug)]
pub struct ArcGerberPrimitive {
    pub center: Point,
    pub radius: Rat,
    pub start_angle: Rat,
    pub end_angle: Rat,
    pub direction: ArcDirection,
    pub width: Rat,
    pub exposure: Exposure,
}

/// A polygon's vertex ring with its classification, and its triangulation
/// exactly when the ring is not convex. Both are computed once, at
/// construction; the geometry is immutable afterwards, so they are never
/// recomputed per frame.
#[derive(Clone, Debug)]
pub struct PolygonGeometry {
    pub relative_vertices: Vec<IPoint>,
    pub is_convex: bool,
    pub tessellation: Option<Tessellation>,
}

impl PolygonGeometry {
    pub open spec fn wf(self) -> bool {
        &&& self.relative_vertices.len() <= 16777216
        &&& forall|i: int|
            0 <= i < self.relative_vertices.len() ==> ip_wf(
                #[trigger] self.relative_vertices@[i],
            )
        &&& self.is_convex == ring_convex(self.relative_vertices@)
        &&& (self.is_convex ==> self.tessellation is None)
        &&& (self.tessellation matches Some(t) ==> {
            &&& !self.is_convex
            &&& t.vertices@ == self.relative_vertices@
            &&& t.indices.len() == 3 * (self.relative_vertices.len() - 2)
            &&& self.relative_vertices.len() >= 3
            &&& forall|j: int|
                0 <= j < t.indices.len() ==> (#[trigger] t.indices@[j])
                    < self.relative_vertices.len()
        })
    }

    /// Classify the ring and triangulate it when it is not convex. A ring
    /// that cannot be triangulated (self-intersecting or degenerate) keeps
    /// `None` and is skipped at render time.
    pub fn new(relative_vertices: Vec<IPoint>) -> (r: PolygonGeometry)
        requires
            relative_vertices.len() <= 16777216,
            forall|i: int|
                0 <= i < relative_vertices.len() ==> ip_wf(#[trigger] relative_vertices@[i]),
        ensures
            r.wf(),
            r.relative_vertices@ == relative_vertices@,
            r.is_convex == ring_convex(relative_vertices@),
    {
        let convex = crate::polygon::is_convex_ring(&relative_vertices);
        let tessellation = if convex {
            None
        } else {
            crate::polygon::tessellate_ring(&relative_vertices)
        };
        PolygonGeometry { relative_vertices, is_convex: convex, tessellation }
    }
}

/// A filled (possibly tessellated) polygonal region.
#[derive(Clone, Debug)]
pub struct PolygonGerberPrimitive {
    pub center: Point,
    pub exposure: Exposure,
    pub geometry: PolygonGeometry,
}

/// A layer's primitive: one of the five shape kinds. The variant set is
/// closed; rendering matches on it exhaustively.
#[derive(Clone, Debug)]
pub enum GerberPrimitive {
    Circle(CircleGerberPrimitive),
    Rectangle(RectangleGerberPrimitive),
    Line(LineGerberPrimitive),
    Arc(ArcGerberPrimitive),
    Polygon(PolygonGerberPrimitive),
}

impl GerberPrimitive {
    pub open spec fn wf(self) -> bool {
        match self {
            GerberPrimitive::Circle(c) => c.center.wf() && c.diameter.wf() && f_le(
                f_int(0),
                c.diameter.fr(),
            ),
            GerberPrimitive::Rectangle(r) => r.origin.wf() && r.width.wf() && r.height.wf()
                && f_le(f_int(0), r.width.fr()) && f_le(f_int(0), r.height.fr()),
            GerberPrimitive::Line(l) => l.start.wf() && l.end.wf() && l.width.wf() && f_le(
                f_int(0),
                l.width.fr(),
            ),
            GerberPrimitive::Arc(a) => a.center.wf() && a.radius.wf() && a.width.wf()
                && a.start_angle.wf() && a.end_angle.wf() && crate::arc::angle_wf(
                a.start_angle.fr(),
            ) && crate::arc::angle_wf(a.end_angle.fr()) && f_le(f_int(0), a.radius.fr()) && f_le(
                f_int(0),
                a.width.fr(),
            ),
            GerberPrimitive::Polygon(p) => p.center.wf() && p.geometry.wf(),
        }
    }

    pub fn exposure(&self) -> (r: Exposure)
        ensures
            r == self.exposure_spec(),
    {
        match self {
            GerberPrimitive::Circle(c) => c.exposure,
            GerberPrimitive::Rectangle(r) => r.exposure,
            GerberPrimitive::Line(l) => l.exposure,
            GerberPrimitive::Arc(a) => a.exposure,
            GerberPrimitive::Polygon(p) => p.exposure,
        }
    }

    pub open spec fn exposure_spec(self) -> Exposure {
        match self {
            GerberPrimitive::Circle(c) => c.exposure,
            GerberPrimitive::Rectangle(r) => r.exposure,
            GerberPrimitive::Line(l) => l.exposure,
            GerberPrimitive::Arc(a) => a.exposure,
            GerberPrimitive::Polygon(p) => p.exposure,
        }
    }
}

/// The exact screen position of a shape-space point: negate y once (shape
/// space is y-up, the screen is y-down), apply the composed transform, then
/// the view's zoom and pan.
pub open spec fn screen_x_of(m: FMat, v: ViewState, p: FPoint) -> Frac {
    view_coord(
        fp_x(v.translation.vp()),
        fp_x(fm_apply(m, FPoint { x: p.x, y: -p.y, den: p.den })),
        v.scale.fr(),
    )
}

pub open spec fn screen_y_of(m: FMat, v: ViewState, p: FPoint) -> Frac {
    view_coord(
        fp_y(v.translation.vp()),
        fp_y(fm_apply(m, FPoint { x: p.x, y: -p.y, den: p.den })),
        v.scale.fr(),
    )
}

/// The checked screen mapping of a point, as the executable code computes
/// it: the y flip is exact; the matrix application and the view mapping each
/// normalize and range-check.
pub open spec fn map_to_screen_checked(m: FMat, v: ViewState, p: FPoint) -> Option<FPoint> {
    match crate::bbox::apply_checked(m, FPoint { x: p.x, y: -p.y, den: p.den }) {
        Option::None => Option::None,
        Option::Some(q) => crate::view::view_map_checked(v, q),
    }
}

/// Whether a circle's whole checked screen computation fits.
pub open spec fn circle_screen_checked(
    c: CircleGerberPrimitive,
    m: FMat,
    sx: Frac,
    v: ViewState,
) -> bool {
    &&& map_to_screen_checked(m, v, c.center.vp()) is Some
    &&& match f_checked(f_mul(c.diameter.fr(), sx)) {
        Option::None => false,
        Option::Some(t1) => match f_checked(f_mul(t1, Frac { n: 1, d: 2 })) {
            Option::None => false,
            Option::Some(t2) => f_checked(f_mul(t2, v.scale.fr())) is Some,
        },
    }
}

/// Whether a line's whole checked screen computation fits.
pub open spec fn line_screen_checked(l: LineGerberPrimitive, m: FMat, v: ViewState) -> bool {
    &&& map_to_screen_checked(m, v, l.start.vp()) is Some
    &&& map_to_screen_checked(m, v, l.end.vp()) is Some
    &&& f_checked(f_mul(l.width.fr(), v.scale.fr())) is Some
    &&& match f_checked(f_mul(l.width.fr(), Frac { n: 1, d: 2 })) {
        Option::None => false,
        Option::Some(hw) => f_checked(f_mul(hw, v.scale.fr())) is Some,
    }
}

/// Whether building a point from two checked coordinates and mapping it to
/// the screen fits.
pub open spec fn corner_screen_checked(m: FMat, v: ViewState, xc: Frac, yc: Frac) -> bool {
    match crate::bbox::point_checked(xc, yc) {
        Option::None => false,
        Option::Some(p) => map_to_screen_checked(m, v, p) is Some,
    }
}

/// Whether a rectangle's whole checked screen computation fits, along the
/// branch the axis-alignment test selects.
pub open spec fn rectangle_screen_checked(
    rp: RectangleGerberPrimitive,
    m: FMat,
    sx: Frac,
    sy: Frac,
    v: ViewState,
    e: Frac,
) -> bool {
    let ox = fp_x(rp.origin.vp());
    let oy = fp_y(rp.origin.vp());
    let w = rp.width.fr();
    let h = rp.height.fr();
    if crate::transform::axis_aligned_spec(m, e) {
        let wsrc = if crate::transform::swaps_axes_spec(m, e) {
            h
        } else {
            w
        };
        let hsrc = if crate::transform::swaps_axes_spec(m, e) {
            w
        } else {
            h
        };
        match f_checked(f_mul(w, Frac { n: 1, d: 2 })) {
            Option::None => false,
            Option::Some(hw) => match f_checked(f_mul(h, Frac { n: 1, d: 2 })) {
                Option::None => false,
                Option::Some(hh) => match f_checked(f_add(ox, hw)) {
                    Option::None => false,
                    Option::Some(cx) => match f_checked(f_add(oy, hh)) {
                        Option::None => false,
                        Option::Some(cy) => {
                            &&& corner_screen_checked(m, v, cx, cy)
                            &&& match f_checked(f_mul(wsrc, sx)) {
                                Option::None => false,
                                Option::Some(w1) => f_checked(f_mul(w1, v.scale.fr())) is Some,
                            }
                            &&& match f_checked(f_mul(hsrc, sy)) {
                                Option::None => false,
                                Option::Some(h1) => f_checked(f_mul(h1, v.scale.fr())) is Some,
                            }
                        },
                    },
                },
            },
        }
    } else {
        match f_checked(f_add(ox, w)) {
            Option::None => false,
            Option::Some(oxw) => match f_checked(f_add(oy, h)) {
                Option::None => false,
                Option::Some(oyh) => {
                    &&& corner_screen_checked(m, v, ox, oy)
                    &&& corner_screen_checked(m, v, oxw, oy)
                    &&& corner_screen_checked(m, v, oxw, oyh)
                    &&& corner_screen_checked(m, v, ox, oyh)
                },
            },
        }
    }
}

/// The screen position of a shape-space point: the y negation, the composed
/// transform, then the view. This is the single place where y flips sign.
pub fn map_to_screen(m: &Mat, v: &ViewState, p: Point) -> (r: Option<Point>)
    requires
        m.wf(),
        v.wf(),
        p.wf(),
    ensures
        (r is Some) == (map_to_screen_checked(m.vm(), *v, p.vp()) is Some),
        r matches Some(q) ==> {
            &&& q.wf()
            &&& f_eq(fp_x(q.vp()), screen_x_of(m.vm(), *v, p.vp()))
            &&& f_eq(fp_y(q.vp()), screen_y_of(m.vm(), *v, p.vp()))
        },
{
    let flipped = p.flip_y();
    let moved = match m.apply(flipped) {
        Some(q) => q,
        None => {
            return None;
        },
    };
    let r = v.gerber_to_screen_coords(moved);
    proof {
        if r is Some {
            let q = r->Some_0;
            let exact = fm_apply(m.vm(), flipped.vp());
            assert(fp_ok(exact)) by (nonlinear_arith)
                requires
                    exact.den == m.vm().den * flipped.vp().den,
                    m.vm().den > 0,
                    flipped.vp().den > 0,
            ;
            // The view coordinates of the normalized image equal those of the
            // exact image.
            lemma_view_coord_congr(
                fp_x(v.translation.vp()),
                fp_x(moved.vp()),
                fp_x(exact),
                v.scale.fr(),
            );
            lemma_view_coord_congr(
                fp_y(v.translation.vp()),
                fp_y(moved.vp()),
                fp_y(exact),
                v.scale.fr(),
            );
            crate::frac::lemma_f_eq_trans(
                fp_x(q.vp()),
                view_coord(fp_x(v.translation.vp()), fp_x(moved.vp()), v.scale.fr()),
                screen_x_of(m.vm(), *v, p.vp()),
            );
            crate::frac::lemma_f_eq_trans(
                fp_y(q.vp()),
                view_coord(fp_y(v.translation.vp()), fp_y(moved.vp()), v.scale.fr()),
                screen_y_of(m.vm(), *v, p.vp()),
            );
        }
    }
    r
}

/// A view coordinate computed from either of two equal shape coordinates is
/// the same screen coordinate.
proof fn lemma_view_coord_congr(tc: Frac, pc: Frac, pc2: Frac, k: Frac)
    requires
        f_ok(tc),
        f_ok(pc),
        f_ok(pc2),
        f_ok(k),
        f_eq(pc, pc2),
    ensures
        f_eq(view_coord(tc, pc, k), view_coord(tc, pc2, k)),
        f_ok(view_coord(tc, pc, k)),
        f_ok(view_coord(tc, pc2, k)),
{
    lemma_f_mul_congr(pc, pc2, k, k);
    let m1 = f_mul(pc, k);
    let m2 = f_mul(pc2, k);
    assert(f_ok(m1) && f_ok(m2)) by (nonlinear_arith)
        requires
            m1.d == pc.d * k.d,
            m2.d == pc2.d * k.d,
            pc.d > 0,
            pc2.d > 0,
            k.d > 0,
    ;
    lemma_f_add_congr(tc, tc, m1, m2);
    assert(f_ok(view_coord(tc, pc, k)) && f_ok(view_coord(tc, pc2, k))) by (nonlinear_arith)
        requires
            view_coord(tc, pc, k).d == tc.d * m1.d,
            view_coord(tc, pc2, k).d == tc.d * m2.d,
            tc.d > 0,
            m1.d > 0,
            m2.d > 0,
    ;
}

/// The screen geometry of a circle: the mapped center, and the radius as
/// half the diameter scaled by the transform's x scale factor and the view
/// zoom.
pub fn circle_screen_geometry(
    c: &CircleGerberPrimitive,
    m: &Mat,
    scale_x: Rat,
    v: &ViewState,
) -> (r: Option<(Point, Rat)>)
    requires
        m.wf(),
        v.wf(),
        scale_x.wf(),
        c.center.wf(),
        c.diameter.wf(),
    ensures
        (r is Some) == circle_screen_checked(*c, m.vm(), scale_x.fr(), *v),
        r matches Some(g) ==> {
            &&& g.0.wf()
            &&& g.1.wf()
            &&& f_eq(fp_x(g.0.vp()), screen_x_of(m.vm(), *v, c.center.vp()))
            &&& f_eq(fp_y(g.0.vp()), screen_y_of(m.vm(), *v, c.center.vp()))
            &&& f_eq(
                g.1.fr(),
                f_mul(
                    f_mul(f_mul(c.diameter.fr(), scale_x.fr()), Frac { n: 1, d: 2 }),
                    v.scale.fr(),
                ),
            )
        },
{
    let center = match map_to_screen(m, v, c.center) {
        Some(p) => p,
        None => {
            return None;
        },
    };
    let half = Rat::from_wf_parts(1, 2);
    let scaled = match c.diameter.times(scale_x) {
        Some(s) => s,
        None => {
            return None;
        },
    };
    let halved = match scaled.times(half) {
        Some(s) => s,
        None => {
            return None;
        },
    };
    let radius = match halved.times(v.scale) {
        Some(s) => s,
        None => {
            return None;
        },
    };
    proof {
        lemma_scaled_chain(
            c.diameter.fr(),
            scale_x.fr(),
            v.scale.fr(),
            scaled.fr(),
            halved.fr(),
            radius.fr(),
        );
    }
    Some((center, radius))
}

/// The three-step scaling chain denotes the exact product.
proof fn lemma_scaled_chain(d: Frac, sx: Frac, k: Frac, scaled: Frac, halved: Frac, radius: Frac)
    requires
        f_ok(d),
        f_ok(sx),
        f_ok(k),
        f_ok(scaled),
        f_ok(halved),
        f_ok(radius),
        f_eq(scaled, f_mul(d, sx)),
        f_eq(halved, f_mul(scaled, Frac { n: 1, d: 2 })),
        f_eq(radius, f_mul(halved, k)),
    ensures
        f_eq(radius, f_mul(f_mul(f_mul(d, sx), Frac { n: 1, d: 2 }), k)),
{
    let e1 = f_mul(d, sx);
    assert(f_ok(e1)) by (nonlinear_arith)
        requires
            e1.d == d.d * sx.d,
            d.d > 0,
            sx.d > 0,
    ;
    lemma_f_mul_congr(scaled, e1, Frac { n: 1, d: 2 }, Frac { n: 1, d: 2 });
    let e2 = f_mul(e1, Frac { n: 1, d: 2 });
    let h1 = f_mul(scaled, Frac { n: 1, d: 2 });
    assert(f_ok(e2) && f_ok(h1)) by (nonlinear_arith)
        requires
            e2.d == e1.d * 2,
            h1.d == scaled.d * 2,
            e1.d > 0,
            scaled.d > 0,
    ;
    crate::frac::lemma_f_eq_trans(halved, h1, e2);
    lemma_f_mul_congr(halved, e2, k, k);
    let e3 = f_mul(e2, k);
    let r1 = f_mul(halved, k);
    assert(f_ok(e3) && f_ok(r1)) by (nonlinear_arith)
        requires
            e3.d == e2.d * k.d,
            r1.d == halved.d * k.d,
            e2.d > 0,
            halved.d > 0,
            k.d > 0,
    ;
    crate::frac::lemma_f_eq_trans(radius, r1, e3);
}

/// The screen geometry of a line: both endpoints mapped, the stroke width
/// and the cap radius scaled by the view zoom.
pub fn line_screen_geometry(l: &LineGerberPrimitive, m: &Mat, v: &ViewState) -> (r: Option<
    (Point, Point, Rat, Rat),
>)
    requires
        m.wf(),
        v.wf(),
        l.start.wf(),
        l.end.wf(),
        l.width.wf(),
    ensures
        (r is Some) == line_screen_checked(*l, m.vm(), *v),
        r matches Some(g) ==> {
            &&& g.0.wf() && g.1.wf() && g.2.wf() && g.3.wf()
            &&& f_eq(fp_x(g.0.vp()), screen_x_of(m.vm(), *v, l.start.vp()))
            &&& f_eq(fp_y(g.0.vp()), screen_y_of(m.vm(), *v, l.start.vp()))
            &&& f_eq(fp_x(g.1.vp()), screen_x_of(m.vm(), *v, l.end.vp()))
            &&& f_eq(fp_y(g.1.vp()), screen_y_of(m.vm(), *v, l.end.vp()))
            &&& f_eq(g.2.fr(), f_mul(l.width.fr(), v.scale.fr()))
            &&& f_eq(
                g.3.fr(),
                f_mul(f_mul(l.width.fr(), Frac { n: 1, d: 2 }), v.scale.fr()),
            )
        },
{
    let a = match map_to_screen(m, v, l.start) {
        Some(p) => p,
        None => {
            return None;
        },
    };
    let b = match map_to_screen(m, v, l.end) {
        Some(p) => p,
        None => {
            return None;
        },
    };
    let stroke = match l.width.times(v.scale) {
        Some(s) => s,
        None => {
            return None;
        },
    };
    let half = Rat::from_wf_parts(1, 2);
    let halfw = match l.width.times(half) {
        Some(s) => s,
        None => {
            return None;
        },
    };
    let cap = match halfw.times(v.scale) {
        Some(s) => s,
        None => {
            return None;
        },
    };
    proof {
        let e1 = f_mul(l.width.fr(), Frac { n: 1, d: 2 });
        assert(f_ok(e1)) by (nonlinear_arith)
            requires
                e1.d == l.width.fr().d * 2,
                l.width.fr().d > 0,
        ;
        lemma_f_mul_congr(halfw.fr(), e1, v.scale.fr(), v.scale.fr());
        let e2 = f_mul(e1, v.scale.fr());
        let c1 = f_mul(halfw.fr(), v.scale.fr());
        assert(f_ok(e2) && f_ok(c1)) by (nonlinear_arith)
            requires
                e2.d == e1.d * v.scale.fr().d,
                c1.d == halfw.fr().d * v.scale.fr().d,
                e1.d > 0,
                halfw.fr().d > 0,
                v.scale.fr().d > 0,
        ;
        crate::frac::lemma_f_eq_trans(cap.fr(), c1, e2);
    }
    Some((a, b, stroke, cap))
}


/// Mapping either of two equal shape-space points to the screen gives the
/// same screen coordinates.
pub proof fn lemma_screen_of_point_congr(m: FMat, v: ViewState, p: FPoint, q: FPoint)
    requires
        crate::geometry::fm_ok(m),
        v.wf(),
        fp_ok(p),
        fp_ok(q),
        fp_eq(p, q),
    ensures
        f_eq(screen_x_of(m, v, p), screen_x_of(m, v, q)),
        f_eq(screen_y_of(m, v, p), screen_y_of(m, v, q)),
        f_ok(screen_x_of(m, v, p)),
        f_ok(screen_y_of(m, v, p)),
        f_ok(screen_x_of(m, v, q)),
        f_ok(screen_y_of(m, v, q)),
{
    let pf = FPoint { x: p.x, y: -p.y, den: p.den };
    let qf = FPoint { x: q.x, y: -q.y, den: q.den };
    assert(fp_eq(pf, qf)) by {
        assert((-p.y) * q.den == (-q.y) * p.den) by (nonlinear_arith)
            requires
                p.y * q.den == q.y * p.den,
        ;
    }
    lemma_apply_point_eq(m, pf, qf);
    let ip = fm_apply(m, pf);
    let iq = fm_apply(m, qf);
    assert(fp_ok(ip) && fp_ok(iq)) by (nonlinear_arith)
        requires
            ip.den == m.den * p.den,
            iq.den == m.den * q.den,
            m.den > 0,
            p.den > 0,
            q.den > 0,
    ;
    lemma_view_coord_congr(fp_x(v.translation.vp()), fp_x(ip), fp_x(iq), v.scale.fr());
    lemma_view_coord_congr(fp_y(v.translation.vp()), fp_y(ip), fp_y(iq), v.scale.fr());
}

/// The canonical pair of two coordinates denotes exactly those coordinates.
pub proof fn lemma_fp_of_coords(a: Frac, b: Frac)
    requires
        f_ok(a),
        f_ok(b),
    ensures
        fp_ok(crate::bbox::fp_of(a, b)),
        f_eq(fp_x(crate::bbox::fp_of(a, b)), a),
        f_eq(a, fp_x(crate::bbox::fp_of(a, b))),
        f_eq(fp_y(crate::bbox::fp_of(a, b)), b),
        f_eq(b, fp_y(crate::bbox::fp_of(a, b))),
{
    let c = crate::bbox::fp_of(a, b);
    assert(c.den > 0 && c.x * a.d == a.n * c.den && c.y * b.d == b.n * c.den) by (nonlinear_arith)
        requires
            c.x == a.n * b.d,
            c.y == b.n * a.d,
            c.den == a.d * b.d,
            a.d > 0,
            b.d > 0,
    ;
}

/// The two-step scaling chain denotes the exact product.
proof fn lemma_mul2_chain(a: Frac, b: Frac, c: Frac, t1: Frac, r: Frac)
    requires
        f_ok(a),
        f_ok(b),
        f_ok(c),
        f_ok(t1),
        f_ok(r),
        f_eq(t1, f_mul(a, b)),
        f_eq(r, f_mul(t1, c)),
    ensures
        f_eq(r, f_mul(f_mul(a, b), c)),
{
    let e1 = f_mul(a, b);
    assert(f_ok(e1)) by (nonlinear_arith)
        requires
            e1.d == a.d * b.d,
            a.d > 0,
            b.d > 0,
    ;
    lemma_f_mul_congr(t1, e1, c, c);
    let e2 = f_mul(e1, c);
    let r1 = f_mul(t1, c);
    assert(f_ok(e2) && f_ok(r1)) by (nonlinear_arith)
        requires
            e2.d == e1.d * c.d,
            r1.d == t1.d * c.d,
            e1.d > 0,
            t1.d > 0,
            c.d > 0,
    ;
    crate::frac::lemma_f_eq_trans(r, r1, e2);
}

/// The shape-space center of a rectangle: the bottom-left origin plus half
/// the extents.
pub open spec fn rect_center(rp: RectangleGerberPrimitive) -> FPoint {
    crate::bbox::fp_of(
        f_add(fp_x(rp.origin.vp()), f_mul(rp.width.fr(), Frac { n: 1, d: 2 })),
        f_add(fp_y(rp.origin.vp()), f_mul(rp.height.fr(), Frac { n: 1, d: 2 })),
    )
}

/// The shape-space corners of a rectangle, counter-clockwise from the
/// origin corner.
pub open spec fn rect_corner(rp: RectangleGerberPrimitive, j: int) -> FPoint {
    let ox = fp_x(rp.origin.vp());
    let oy = fp_y(rp.origin.vp());
    let w = rp.width.fr();
    let h = rp.height.fr();
    if j == 0 {
        crate::bbox::fp_of(ox, oy)
    } else if j == 1 {
        crate::bbox::fp_of(f_add(ox, w), oy)
    } else if j == 2 {
        crate::bbox::fp_of(f_add(ox, w), f_add(oy, h))
    } else {
        crate::bbox::fp_of(ox, f_add(oy, h))
    }
}

/// The screen geometry of a rectangle: under an axis-aligned transform a
/// center/extents pair (with extents swapped under a quarter-turn
/// transform), otherwise the four mapped corners.
#[derive(Clone, Debug)]
pub enum RectangleScreenGeometry {
    Aligned { center: Point, width: Rat, height: Rat, swapped: bool },
    Rotated { corners: Vec<Point> },
}

/// The screen geometry of a rectangle. The axis-aligned fast path applies
/// exactly when the composed transform passes the axis-alignment test for
/// the given tolerance; the extents swap exactly when it passes the
/// quarter-turn test.
pub fn rectangle_screen_geometry(
    rp: &RectangleGerberPrimitive,
    m: &Mat,
    scale_x: Rat,
    scale_y: Rat,
    v: &ViewState,
    eps: Rat,
) -> (r: Option<RectangleScreenGeometry>)
    requires
        m.wf(),
        v.wf(),
        scale_x.wf(),
        scale_y.wf(),
        eps.wf(),
        rp.origin.wf(),
        rp.width.wf(),
        rp.height.wf(),
    ensures
        (r is Some) == rectangle_screen_checked(
            *rp,
            m.vm(),
            scale_x.fr(),
            scale_y.fr(),
            *v,
            eps.fr(),
        ),
        r matches Some(g) ==> match g {
            RectangleScreenGeometry::Aligned { center, width, height, swapped } => {
                &&& crate::transform::axis_aligned_spec(m.vm(), eps.fr())
                &&& swapped == crate::transform::swaps_axes_spec(m.vm(), eps.fr())
                &&& center.wf() && width.wf() && height.wf()
                &&& f_eq(fp_x(center.vp()), screen_x_of(m.vm(), *v, rect_center(*rp)))
                &&& f_eq(fp_y(center.vp()), screen_y_of(m.vm(), *v, rect_center(*rp)))
                &&& f_eq(
                    width.fr(),
                    f_mul(
                        f_mul(
                            if swapped {
                                rp.height.fr()
                            } else {
                                rp.width.fr()
                            },
                            scale_x.fr(),
                        ),
                        v.scale.fr(),
                    ),
                )
                &&& f_eq(
                    height.fr(),
                    f_mul(
                        f_mul(
                            if swapped {
                                rp.width.fr()
                            } else {
                                rp.height.fr()
                            },
                            scale_y.fr(),
                        ),
                        v.scale.fr(),
                    ),
                )
            },
            RectangleScreenGeometry::Rotated { corners } => {
                &&& !crate::transform::axis_aligned_spec(m.vm(), eps.fr())
                &&& corners.len() == 4
                &&& forall|j: int| 0 <= j < 4 ==> (#[trigger] corners@[j]).wf()
                &&& forall|j: int|
                    0 <= j < 4 ==> f_eq(
                        fp_x((#[trigger] corners@[j]).vp()),
                        screen_x_of(m.vm(), *v, rect_corner(*rp, j)),
                    ) && f_eq(fp_y(corners@[j].vp()), screen_y_of(m.vm(), *v, rect_corner(*rp, j)))
            },
        },
{
    let half = Rat::from_wf_parts(1, 2);
    if m.is_axis_aligned(eps) {
        let swapped = m.is_90_or_270_rotation(eps);
        let hw = match rp.width.times(half) {
            Some(t) => t,
            None => {
                return None;
            },
        };
        let hh = match rp.height.times(half) {
            Some(t) => t,
            None => {
                return None;
            },
        };
        let cx = match rp.origin.x().plus(hw) {
            Some(t) => t,
            None => {
                return None;
            },
        };
        let cy = match rp.origin.y().plus(hh) {
            Some(t) => t,
            None => {
                return None;
            },
        };
        let c_shape = match Point::new(cx, cy) {
            Some(p) => p,
            None => {
                return None;
            },
        };
        let center = match map_to_screen(m, v, c_shape) {
            Some(p) => p,
            None => {
                return None;
            },
        };
        let wsrc = if swapped {
            rp.height
        } else {
            rp.width
        };
        let hsrc = if swapped {
            rp.width
        } else {
            rp.height
        };
        let w1 = match wsrc.times(scale_x) {
            Some(t) => t,
            None => {
                return None;
            },
        };
        let width = match w1.times(v.scale) {
            Some(t) => t,
            None => {
                return None;
            },
        };
        let h1 = match hsrc.times(scale_y) {
            Some(t) => t,
            None => {
                return None;
            },
        };
        let height = match h1.times(v.scale) {
            Some(t) => t,
            None => {
                return None;
            },
        };
        proof {
            lemma_mul2_chain(wsrc.fr(), scale_x.fr(), v.scale.fr(), w1.fr(), width.fr());
            lemma_mul2_chain(hsrc.fr(), scale_y.fr(), v.scale.fr(), h1.fr(), height.fr());
            // The built shape-space center denotes the exact rectangle center.
            let exm = f_mul(rp.width.fr(), Frac { n: 1, d: 2 });
            let eym = f_mul(rp.height.fr(), Frac { n: 1, d: 2 });
            assert(f_ok(exm) && f_ok(eym)) by (nonlinear_arith)
                requires
                    exm.d == rp.width.fr().d * 2,
                    eym.d == rp.height.fr().d * 2,
                    rp.width.fr().d > 0,
                    rp.height.fr().d > 0,
            ;
            lemma_f_add_congr(fp_x(rp.origin.vp()), fp_x(rp.origin.vp()), hw.fr(), exm);
            lemma_f_add_congr(fp_y(rp.origin.vp()), fp_y(rp.origin.vp()), hh.fr(), eym);
            let a1 = f_add(fp_x(rp.origin.vp()), hw.fr());
            let a2 = f_add(fp_x(rp.origin.vp()), exm);
            let b1 = f_add(fp_y(rp.origin.vp()), hh.fr());
            let b2 = f_add(fp_y(rp.origin.vp()), eym);
            assert(f_ok(a1) && f_ok(a2) && f_ok(b1) && f_ok(b2)) by (nonlinear_arith)
                requires
                    a1.d == rp.origin.vp().den * hw.fr().d,
                    a2.d == rp.origin.vp().den * exm.d,
                    b1.d == rp.origin.vp().den * hh.fr().d,
                    b2.d == rp.origin.vp().den * eym.d,
                    rp.origin.vp().den > 0,
                    hw.fr().d > 0,
                    exm.d > 0,
                    hh.fr().d > 0,
                    eym.d > 0,
            ;
            crate::frac::lemma_f_eq_trans(cx.fr(), a1, a2);
            crate::frac::lemma_f_eq_trans(cy.fr(), b1, b2);
            lemma_center_exact(*rp, cx.fr(), cy.fr(), c_shape.vp());
            lemma_screen_of_point_congr(m.vm(), *v, c_shape.vp(), rect_center(*rp));
            crate::frac::lemma_f_eq_trans(
                fp_x(center.vp()),
                screen_x_of(m.vm(), *v, c_shape.vp()),
                screen_x_of(m.vm(), *v, rect_center(*rp)),
            );
            crate::frac::lemma_f_eq_trans(
                fp_y(center.vp()),
                screen_y_of(m.vm(), *v, c_shape.vp()),
                screen_y_of(m.vm(), *v, rect_center(*rp)),
            );
        }
        Some(RectangleScreenGeometry::Aligned { center, width, height, swapped })
    } else {
        let ox = rp.origin.x();
        let oy = rp.origin.y();
        let oxw = match ox.plus(rp.width) {
            Some(t) => t,
            None => {
                return None;
            },
        };
        let oyh = match oy.plus(rp.height) {
            Some(t) => t,
            None => {
                return None;
            },
        };
        proof {
            let oxf = fp_x(rp.origin.vp());
            let oyf = fp_y(rp.origin.vp());
            let exw = f_add(oxf, rp.width.fr());
            let eyh = f_add(oyf, rp.height.fr());
            assert(f_ok(exw) && f_ok(eyh)) by (nonlinear_arith)
                requires
                    exw.d == rp.origin.vp().den * rp.width.fr().d,
                    eyh.d == rp.origin.vp().den * rp.height.fr().d,
                    rp.origin.vp().den > 0,
                    rp.width.fr().d > 0,
                    rp.height.fr().d > 0,
            ;
            lemma_fp_of_coords(oxf, oyf);
            lemma_fp_of_coords(exw, oyf);
            lemma_fp_of_coords(exw, eyh);
            lemma_fp_of_coords(oxf, eyh);
            lemma_sym(oxw.fr(), exw);
            lemma_sym(oyh.fr(), eyh);
            crate::frac::lemma_f_eq_trans(fp_x(rect_corner(*rp, 1)), exw, oxw.fr());
            crate::frac::lemma_f_eq_trans(fp_x(rect_corner(*rp, 2)), exw, oxw.fr());
            crate::frac::lemma_f_eq_trans(fp_y(rect_corner(*rp, 2)), eyh, oyh.fr());
            crate::frac::lemma_f_eq_trans(fp_y(rect_corner(*rp, 3)), eyh, oyh.fr());
        }
        let s0 = match corner_to_screen(m, v, ox, oy, Ghost(rect_corner(*rp, 0))) {
            Some(p) => p,
            None => {
                return None;
            },
        };
        let s1 = match corner_to_screen(m, v, oxw, oy, Ghost(rect_corner(*rp, 1))) {
            Some(p) => p,
            None => {
                return None;
            },
        };
        let s2 = match corner_to_screen(m, v, oxw, oyh, Ghost(rect_corner(*rp, 2))) {
            Some(p) => p,
            None => {
                return None;
            },
        };
        let s3 = match corner_to_screen(m, v, ox, oyh, Ghost(rect_corner(*rp, 3))) {
            Some(p) => p,
            None => {
                return None;
            },
        };
        let corners = vec![s0, s1, s2, s3];
        proof {
            assert(corners@[0] == s0 && corners@[1] == s1 && corners@[2] == s2 && corners@[3]
                == s3);
        }
        Some(RectangleScreenGeometry::Rotated { corners })
    }
}

/// Build a shape point from two coordinates and map it to the screen; the
/// result lands where the exact target point lands, provided the given
/// coordinates denote the target's coordinates.
pub(crate) fn corner_to_screen(m: &Mat, v: &ViewState, xc: Rat, yc: Rat, Ghost(target): Ghost<FPoint>) -> (r:
    Option<Point>)
    requires
        m.wf(),
        v.wf(),
        xc.wf(),
        yc.wf(),
        fp_ok(target),
        f_eq(fp_x(target), xc.fr()),
        f_eq(fp_y(target), yc.fr()),
    ensures
        (r is Some) == corner_screen_checked(m.vm(), *v, xc.fr(), yc.fr()),
        r matches Some(q) ==> {
            &&& q.wf()
            &&& f_eq(fp_x(q.vp()), screen_x_of(m.vm(), *v, target))
            &&& f_eq(fp_y(q.vp()), screen_y_of(m.vm(), *v, target))
        },
{
    let p = match Point::new(xc, yc) {
        Some(p) => p,
        None => {
            return None;
        },
    };
    let r = map_to_screen(m, v, p);
    proof {
        if r is Some {
            let q = r->Some_0;
            // The built point denotes the target location.
            assert(fp_eq(p.vp(), target)) by {
                lemma_coord_pair_eq(p.vp(), target, xc.fr(), yc.fr());
            }
            lemma_screen_of_point_congr(m.vm(), *v, p.vp(), target);
            crate::frac::lemma_f_eq_trans(
                fp_x(q.vp()),
                screen_x_of(m.vm(), *v, p.vp()),
                screen_x_of(m.vm(), *v, target),
            );
            crate::frac::lemma_f_eq_trans(
                fp_y(q.vp()),
                screen_y_of(m.vm(), *v, p.vp()),
                screen_y_of(m.vm(), *v, target),
            );
        }
    }
    r
}

/// Two points whose coordinates both denote the same pair denote the same
/// location.
proof fn lemma_coord_pair_eq(p: FPoint, q: FPoint, xc: Frac, yc: Frac)
    requires
        fp_ok(p),
        fp_ok(q),
        f_ok(xc),
        f_ok(yc),
        f_eq(fp_x(p), xc),
        f_eq(fp_y(p), yc),
        f_eq(fp_x(q), xc),
        f_eq(fp_y(q), yc),
    ensures
        fp_eq(p, q),
{
    lemma_sym(fp_x(q), xc);
    lemma_sym(fp_y(q), yc);
    crate::frac::lemma_f_eq_trans(fp_x(p), xc, fp_x(q));
    crate::frac::lemma_f_eq_trans(fp_y(p), yc, fp_y(q));
}

proof fn lemma_sym(a: Frac, b: Frac)
    requires
        f_eq(a, b),
    ensures
        f_eq(b, a),
{
}

/// The rectangle's exact center has the computed coordinates.
proof fn lemma_center_exact(rp: RectangleGerberPrimitive, cx: Frac, cy: Frac, built: FPoint)
    requires
        rp.origin.wf(),
        rp.width.wf(),
        rp.height.wf(),
        f_ok(cx),
        f_ok(cy),
        fp_ok(built),
        f_eq(cx, f_add(fp_x(rp.origin.vp()), f_mul(rp.width.fr(), Frac { n: 1, d: 2 }))),
        f_eq(cy, f_add(fp_y(rp.origin.vp()), f_mul(rp.height.fr(), Frac { n: 1, d: 2 }))),
        f_eq(fp_x(built), cx),
        f_eq(fp_y(built), cy),
    ensures
        fp_eq(built, rect_center(rp)),
        fp_ok(rect_center(rp)),
{
    let ex = f_add(fp_x(rp.origin.vp()), f_mul(rp.width.fr(), Frac { n: 1, d: 2 }));
    let ey = f_add(fp_y(rp.origin.vp()), f_mul(rp.height.fr(), Frac { n: 1, d: 2 }));
    let c = rect_center(rp);
    assert(f_ok(ex) && f_ok(ey) && fp_ok(c) && c.x == ex.n * ey.d && c.y == ey.n * ex.d && c.den
        == ex.d * ey.d) by (nonlinear_arith)
        requires
            ex.d == rp.origin.vp().den * (rp.width.fr().d * 2),
            ey.d == rp.origin.vp().den * (rp.height.fr().d * 2),
            c == crate::bbox::fp_of(ex, ey),
            rp.origin.vp().den > 0,
            rp.width.fr().d > 0,
            rp.height.fr().d > 0,
    ;
    assert(f_eq(fp_x(c), ex) && f_eq(fp_y(c), ey)) by (nonlinear_arith)
        requires
            c.x == ex.n * ey.d,
            c.y == ey.n * ex.d,
            c.den == ex.d * ey.d,
            ex.d > 0,
            ey.d > 0,
    ;
    crate::frac::lemma_f_eq_trans(fp_x(built), cx, ex);
    crate::frac::lemma_f_eq_trans(fp_y(built), cy, ey);
    lemma_sym(fp_x(c), ex);
    lemma_sym(fp_y(c), ey);
    crate::frac::lemma_f_eq_trans(fp_x(built), ex, fp_x(c));
    crate::frac::lemma_f_eq_trans(fp_y(built), ey, fp_y(c));
}


/// The absolute shape-space position of one polygon vertex: the center plus
/// the fixed-point relative vertex.
pub open spec fn poly_vertex_abs(pp: PolygonGerberPrimitive, j: int) -> FPoint {
    let vtx = pp.geometry.relative_vertices@[j];
    crate::bbox::fp_of(
        f_add(fp_x(pp.center.vp()), Frac { n: vtx.x as int, d: UNIT as int }),
        f_add(fp_y(pp.center.vp()), Frac { n: vtx.y as int, d: UNIT as int }),
    )
}

/// The absolute shape-space vertices of a polygon, each the center plus the
/// relative vertex at its fixed-point unit.
/// The checked computation of one absolute polygon vertex: two checked sums
/// and the shared-denominator point.
pub open spec fn poly_vertex_chain(pp: PolygonGerberPrimitive, j: int) -> Option<FPoint> {
    let vtx = pp.geometry.relative_vertices@[j];
    match f_checked(f_add(fp_x(pp.center.vp()), Frac { n: vtx.x as int, d: UNIT as int })) {
        Option::None => Option::None,
        Option::Some(ax) => match f_checked(
            f_add(fp_y(pp.center.vp()), Frac { n: vtx.y as int, d: UNIT as int }),
        ) {
            Option::None => Option::None,
            Option::Some(ay) => crate::bbox::point_checked(ax, ay),
        },
    }
}

/// Whether the checked computations of the first `k` absolute vertices all
/// fit.
pub open spec fn poly_abs_prefix_ok(pp: PolygonGerberPrimitive, k: int) -> bool
    decreases k,
{
    if k <= 0 {
        true
    } else {
        poly_abs_prefix_ok(pp, k - 1) && poly_vertex_chain(pp, k - 1) is Some
    }
}

/// A prefix that fits contains every earlier vertex's fit.
pub proof fn lemma_poly_prefix_ok(pp: PolygonGerberPrimitive, k: int, i: int)
    requires
        0 <= i < k,
        poly_abs_prefix_ok(pp, k),
    ensures
        poly_vertex_chain(pp, i) is Some,
    decreases k,
{
    if i < k - 1 {
        lemma_poly_prefix_ok(pp, k - 1, i);
    }
}

pub fn polygon_absolute_vertices(pp: &PolygonGerberPrimitive) -> (r: Option<Vec<Point>>)
    requires
        pp.center.wf(),
        pp.geometry.wf(),
    ensures
        (r is Some) == poly_abs_prefix_ok(*pp, pp.geometry.relative_vertices.len() as int),
        r matches Some(v) ==> {
            &&& v.len() == pp.geometry.relative_vertices.len()
            &&& forall|j: int| 0 <= j < v.len() ==> (#[trigger] v@[j]).wf()
            &&& forall|j: int|
                0 <= j < v.len() ==> Some((#[trigger] v@[j]).vp()) == poly_vertex_chain(*pp, j)
            &&& forall|j: int|
                0 <= j < v.len() ==> fp_eq((#[trigger] v@[j]).vp(), poly_vertex_abs(*pp, j))
                    && fp_ok(poly_vertex_abs(*pp, j))
        },
{
    let n = pp.geometry.relative_vertices.len();
    let mut out: Vec<Point> = Vec::new();
    let mut j: usize = 0;
    while j < n
        invariant
            n == pp.geometry.relative_vertices.len(),
            0 <= j <= n,
            out.len() == j,
            pp.center.wf(),
            pp.geometry.wf(),
            forall|k: int| 0 <= k < j ==> (#[trigger] out@[k]).wf(),
            poly_abs_prefix_ok(*pp, j as int),
            forall|k: int|
                0 <= k < j ==> Some((#[trigger] out@[k]).vp()) == poly_vertex_chain(*pp, k),
            forall|k: int|
                0 <= k < j ==> fp_eq((#[trigger] out@[k]).vp(), poly_vertex_abs(*pp, k)) && fp_ok(
                    poly_vertex_abs(*pp, k),
                ),
        decreases n - j,
    {
        let vtx = pp.geometry.relative_vertices[j];
        let rx = Rat::from_wf_parts(vtx.x, UNIT);
        let ry = Rat::from_wf_parts(vtx.y, UNIT);
        let ax = match pp.center.x().plus(rx) {
            Some(t) => t,
            None => {
                proof {
                    lemma_poly_chain_fails(*pp, n as int, j as int);
                }
                return None;
            },
        };
        let ay = match pp.center.y().plus(ry) {
            Some(t) => t,
            None => {
                proof {
                    lemma_poly_chain_fails(*pp, n as int, j as int);
                }
                return None;
            },
        };
        let p = match Point::new(ax, ay) {
            Some(p) => p,
            None => {
                proof {
                    lemma_poly_chain_fails(*pp, n as int, j as int);
                }
                return None;
            },
        };
        proof {
            let exa = f_add(fp_x(pp.center.vp()), rx.fr());
            let eya = f_add(fp_y(pp.center.vp()), ry.fr());
            assert(f_ok(exa) && f_ok(eya)) by (nonlinear_arith)
                requires
                    exa.d == pp.center.vp().den * (UNIT as int),
                    eya.d == pp.center.vp().den * (UNIT as int),
                    pp.center.vp().den > 0,
            ;
            lemma_fp_of_coords(exa, eya);
            crate::frac::lemma_f_eq_trans(fp_x(p.vp()), ax.fr(), exa);
            crate::frac::lemma_f_eq_trans(fp_y(p.vp()), ay.fr(), eya);
            lemma_coord_pair_eq(p.vp(), poly_vertex_abs(*pp, j as int), exa, eya);
        }
        out.push(p);
        j = j + 1;
    }
    Some(out)
}

/// A vertex whose chain fails makes the whole prefix fail.
proof fn lemma_poly_chain_fails(pp: PolygonGerberPrimitive, n: int, j: int)
    requires
        0 <= j < n,
        poly_vertex_chain(pp, j) is None,
    ensures
        !poly_abs_prefix_ok(pp, n),
{
    if poly_abs_prefix_ok(pp, n) {
        lemma_poly_prefix_ok(pp, n, j);
    }
}

/// Ordered interval ends: the center minus a nonnegative half-extent is
/// below the center plus it.
proof fn lemma_interval(c: Frac, h: Frac)
    requires
        f_ok(c),
        f_ok(h),
        f_le(f_int(0), h),
    ensures
        f_le(f_sub(c, h), f_add(c, h)),
        f_ok(f_sub(c, h)),
        f_ok(f_add(c, h)),
{
    let l = f_sub(c, h);
    let r = f_add(c, h);
    assert(l.d > 0 && r.d > 0 && l.n * r.d <= r.n * l.d) by (nonlinear_arith)
        requires
            l.n == c.n * h.d - h.n * c.d,
            r.n == c.n * h.d + h.n * c.d,
            l.d == c.d * h.d,
            r.d == c.d * h.d,
            c.d > 0,
            h.d > 0,
            h.n >= 0,
    ;
}

/// Substituting an equal half-extent into an interval end keeps the denoted
/// coordinate.
proof fn lemma_interval_chain(c: Frac, h: Frac, he: Frac, lo: Frac, hi: Frac)
    requires
        f_ok(c),
        f_ok(h),
        f_ok(he),
        f_ok(lo),
        f_ok(hi),
        f_eq(h, he),
        f_eq(lo, f_sub(c, h)),
        f_eq(hi, f_add(c, h)),
    ensures
        f_eq(lo, f_sub(c, he)),
        f_eq(hi, f_add(c, he)),
{
    crate::frac::lemma_f_sub_congr(c, c, h, he);
    lemma_f_add_congr(c, c, h, he);
    let s1 = f_sub(c, h);
    let s2 = f_sub(c, he);
    let a1 = f_add(c, h);
    let a2 = f_add(c, he);
    assert(f_ok(s1) && f_ok(s2) && f_ok(a1) && f_ok(a2)) by (nonlinear_arith)
        requires
            s1.d == c.d * h.d,
            s2.d == c.d * he.d,
            a1.d == c.d * h.d,
            a2.d == c.d * he.d,
            c.d > 0,
            h.d > 0,
            he.d > 0,
    ;
    crate::frac::lemma_f_eq_trans(lo, s1, s2);
    crate::frac::lemma_f_eq_trans(hi, a1, a2);
}

/// Whether the four interval ends of a square box around a center fit.
pub open spec fn box4_checked(cx: Frac, cy: Frac, h: Frac) -> bool {
    &&& f_checked(f_sub(cx, h)) is Some
    &&& f_checked(f_add(cx, h)) is Some
    &&& f_checked(f_sub(cy, h)) is Some
    &&& f_checked(f_add(cy, h)) is Some
}

/// Whether a circle's checked bounding-box computation fits.
pub open spec fn circle_box_checked(c: CircleGerberPrimitive) -> bool {
    match f_checked(f_mul(c.diameter.fr(), Frac { n: 1, d: 2 })) {
        Option::None => false,
        Option::Some(h) => box4_checked(fp_x(c.center.vp()), fp_y(c.center.vp()), h),
    }
}

/// Whether an arc's checked bounding-box computation fits.
pub open spec fn arc_box_checked(a: ArcGerberPrimitive) -> bool {
    match f_checked(f_mul(a.width.fr(), Frac { n: 1, d: 2 })) {
        Option::None => false,
        Option::Some(hw) => match f_checked(f_add(a.radius.fr(), hw)) {
            Option::None => false,
            Option::Some(h) => box4_checked(fp_x(a.center.vp()), fp_y(a.center.vp()), h),
        },
    }
}

/// Whether a rectangle's checked bounding-box computation fits.
pub open spec fn rect_box_checked(r: RectangleGerberPrimitive) -> bool {
    &&& f_checked(f_add(fp_x(r.origin.vp()), r.width.fr())) is Some
    &&& f_checked(f_add(fp_y(r.origin.vp()), r.height.fr())) is Some
}

/// Whether a line's checked bounding-box computation fits.
pub open spec fn line_box_checked(l: LineGerberPrimitive) -> bool {
    let sx = fp_x(l.start.vp());
    let ex = fp_x(l.end.vp());
    let sy = fp_y(l.start.vp());
    let ey = fp_y(l.end.vp());
    match f_checked(f_mul(l.width.fr(), Frac { n: 1, d: 2 })) {
        Option::None => false,
        Option::Some(hw) => {
            &&& f_checked(f_sub(f_min(sx, ex), hw)) is Some
            &&& f_checked(f_add(f_max(sx, ex), hw)) is Some
            &&& f_checked(f_sub(f_min(sy, ey), hw)) is Some
            &&& f_checked(f_add(f_max(sy, ey), hw)) is Some
        },
    }
}

/// Whether a primitive's checked bounding-box computation fits, by kind.
pub open spec fn prim_box_checked(p: GerberPrimitive) -> bool {
    match p {
        GerberPrimitive::Circle(c) => circle_box_checked(c),
        GerberPrimitive::Rectangle(r) => rect_box_checked(r),
        GerberPrimitive::Line(l) => line_box_checked(l),
        GerberPrimitive::Arc(a) => arc_box_checked(a),
        GerberPrimitive::Polygon(pp) => poly_abs_prefix_ok(
            pp,
            pp.geometry.relative_vertices.len() as int,
        ),
    }
}

/// The box `b` covers the primitive's exact extent: for the analytic kinds
/// it contains the primitive's exact bounding interval on both axes; for a
/// polygon it contains every absolute vertex.
pub open spec fn box_covers_prim(b: BoundingBox, p: GerberPrimitive) -> bool {
    match p {
        GerberPrimitive::Circle(c) => {
            let h = f_mul(c.diameter.fr(), Frac { n: 1, d: 2 });
            let cx = fp_x(c.center.vp());
            let cy = fp_y(c.center.vp());
            &&& f_le(b.min_x.fr(), f_sub(cx, h))
            &&& f_le(f_add(cx, h), b.max_x.fr())
            &&& f_le(b.min_y.fr(), f_sub(cy, h))
            &&& f_le(f_add(cy, h), b.max_y.fr())
        },
        GerberPrimitive::Rectangle(r) => {
            let ox = fp_x(r.origin.vp());
            let oy = fp_y(r.origin.vp());
            &&& f_le(b.min_x.fr(), ox)
            &&& f_le(f_add(ox, r.width.fr()), b.max_x.fr())
            &&& f_le(b.min_y.fr(), oy)
            &&& f_le(f_add(oy, r.height.fr()), b.max_y.fr())
        },
        GerberPrimitive::Line(l) => {
            let hw = f_mul(l.width.fr(), Frac { n: 1, d: 2 });
            let sx = fp_x(l.start.vp());
            let ex = fp_x(l.end.vp());
            let sy = fp_y(l.start.vp());
            let ey = fp_y(l.end.vp());
            &&& f_le(b.min_x.fr(), f_sub(f_min(sx, ex), hw))
            &&& f_le(f_add(f_max(sx, ex), hw), b.max_x.fr())
            &&& f_le(b.min_y.fr(), f_sub(f_min(sy, ey), hw))
            &&& f_le(f_add(f_max(sy, ey), hw), b.max_y.fr())
        },
        GerberPrimitive::Arc(a) => {
            let h = f_add(a.radius.fr(), f_mul(a.width.fr(), Frac { n: 1, d: 2 }));
            let cx = fp_x(a.center.vp());
            let cy = fp_y(a.center.vp());
            &&& f_le(b.min_x.fr(), f_sub(cx, h))
            &&& f_le(f_add(cx, h), b.max_x.fr())
            &&& f_le(b.min_y.fr(), f_sub(cy, h))
            &&& f_le(f_add(cy, h), b.max_y.fr())
        },
        GerberPrimitive::Polygon(pp) => forall|j: int|
            0 <= j < pp.geometry.relative_vertices.len() ==> crate::bbox::contains_fp(
                b,
                #[trigger] poly_vertex_abs(pp, j),
            ),
    }
}

/// A box that covers a primitive still covers it after its bounds widen.
pub proof fn lemma_covers_widen(old_b: BoundingBox, new_b: BoundingBox, p: GerberPrimitive)
    requires
        old_b.wf(),
        new_b.wf(),
        p.wf(),
        box_covers_prim(old_b, p),
        f_le(new_b.min_x.fr(), old_b.min_x.fr()),
        f_le(old_b.max_x.fr(), new_b.max_x.fr()),
        f_le(new_b.min_y.fr(), old_b.min_y.fr()),
        f_le(old_b.max_y.fr(), new_b.max_y.fr()),
    ensures
        box_covers_prim(new_b, p),
{
    match p {
        GerberPrimitive::Circle(c) => {
            let h = f_mul(c.diameter.fr(), Frac { n: 1, d: 2 });
            lemma_pos_prod(c.diameter.fr().d, 2);
            lemma_pos_prod(c.center.vp().den, h.d);
            lemma_widen_interval(
                old_b,
                new_b,
                f_sub(fp_x(c.center.vp()), h),
                f_add(fp_x(c.center.vp()), h),
                f_sub(fp_y(c.center.vp()), h),
                f_add(fp_y(c.center.vp()), h),
                c.center.vp().den * (c.diameter.fr().d * 2),
            );
        },
        GerberPrimitive::Rectangle(r) => {
            lemma_pos_prod(r.origin.vp().den, r.width.fr().d);
            lemma_pos_prod(r.origin.vp().den, r.height.fr().d);
            crate::frac::lemma_f_le_trans(
                new_b.min_x.fr(),
                old_b.min_x.fr(),
                fp_x(r.origin.vp()),
            );
            crate::frac::lemma_f_le_trans(
                f_add(fp_x(r.origin.vp()), r.width.fr()),
                old_b.max_x.fr(),
                new_b.max_x.fr(),
            );
            crate::frac::lemma_f_le_trans(
                new_b.min_y.fr(),
                old_b.min_y.fr(),
                fp_y(r.origin.vp()),
            );
            crate::frac::lemma_f_le_trans(
                f_add(fp_y(r.origin.vp()), r.height.fr()),
                old_b.max_y.fr(),
                new_b.max_y.fr(),
            );
        },
        GerberPrimitive::Line(l) => {
            let hw = f_mul(l.width.fr(), Frac { n: 1, d: 2 });
            let sx = fp_x(l.start.vp());
            let ex = fp_x(l.end.vp());
            let sy = fp_y(l.start.vp());
            let ey = fp_y(l.end.vp());
            lemma_pos_prod(l.width.fr().d, 2);
            lemma_pos_prod(f_min(sx, ex).d, hw.d);
            lemma_pos_prod(f_max(sx, ex).d, hw.d);
            lemma_pos_prod(f_min(sy, ey).d, hw.d);
            lemma_pos_prod(f_max(sy, ey).d, hw.d);
            crate::frac::lemma_f_le_trans(
                new_b.min_x.fr(),
                old_b.min_x.fr(),
                f_sub(f_min(sx, ex), hw),
            );
            crate::frac::lemma_f_le_trans(
                f_add(f_max(sx, ex), hw),
                old_b.max_x.fr(),
                new_b.max_x.fr(),
            );
            crate::frac::lemma_f_le_trans(
                new_b.min_y.fr(),
                old_b.min_y.fr(),
                f_sub(f_min(sy, ey), hw),
            );
            crate::frac::lemma_f_le_trans(
                f_add(f_max(sy, ey), hw),
                old_b.max_y.fr(),
                new_b.max_y.fr(),
            );
        },
        GerberPrimitive::Arc(a) => {
            let h = f_add(a.radius.fr(), f_mul(a.width.fr(), Frac { n: 1, d: 2 }));
            lemma_pos_prod(a.width.fr().d, 2);
            lemma_pos_prod(a.radius.fr().d, a.width.fr().d * 2);
            lemma_pos_prod(a.center.vp().den, h.d);
            lemma_widen_interval(
                old_b,
                new_b,
                f_sub(fp_x(a.center.vp()), h),
                f_add(fp_x(a.center.vp()), h),
                f_sub(fp_y(a.center.vp()), h),
                f_add(fp_y(a.center.vp()), h),
                a.center.vp().den * (a.radius.fr().d * (a.width.fr().d * 2)),
            );
        },
        GerberPrimitive::Polygon(pp) => {
            assert forall|j: int|
                0 <= j < pp.geometry.relative_vertices.len() implies crate::bbox::contains_fp(
                new_b,
                #[trigger] poly_vertex_abs(pp, j),
            ) by {
                let q = poly_vertex_abs(pp, j);
                assert(fp_ok(q)) by (nonlinear_arith)
                    requires
                        q.den == (pp.center.vp().den * (UNIT as int)) * (pp.center.vp().den * (
                        UNIT as int)),
                        pp.center.vp().den > 0,
                ;
                crate::frac::lemma_f_le_trans(new_b.min_x.fr(), old_b.min_x.fr(), fp_x(q));
                crate::frac::lemma_f_le_trans(fp_x(q), old_b.max_x.fr(), new_b.max_x.fr());
                crate::frac::lemma_f_le_trans(new_b.min_y.fr(), old_b.min_y.fr(), fp_y(q));
                crate::frac::lemma_f_le_trans(fp_y(q), old_b.max_y.fr(), new_b.max_y.fr());
            }
        },
    }
}

/// A product of positive factors is positive.
proof fn lemma_pos_prod(a: int, b: int)
    by (nonlinear_arith)
    requires
        a > 0,
        b > 0,
    ensures
        a * b > 0,
{
}

/// Transfer the four interval bounds across a widened box.
proof fn lemma_widen_interval(
    old_b: BoundingBox,
    new_b: BoundingBox,
    lo_x: Frac,
    hi_x: Frac,
    lo_y: Frac,
    hi_y: Frac,
    den_hint: int,
)
    requires
        old_b.wf(),
        new_b.wf(),
        f_ok(lo_x),
        f_ok(hi_x),
        f_ok(lo_y),
        f_ok(hi_y),
        f_le(old_b.min_x.fr(), lo_x),
        f_le(hi_x, old_b.max_x.fr()),
        f_le(old_b.min_y.fr(), lo_y),
        f_le(hi_y, old_b.max_y.fr()),
        f_le(new_b.min_x.fr(), old_b.min_x.fr()),
        f_le(old_b.max_x.fr(), new_b.max_x.fr()),
        f_le(new_b.min_y.fr(), old_b.min_y.fr()),
        f_le(old_b.max_y.fr(), new_b.max_y.fr()),
    ensures
        f_le(new_b.min_x.fr(), lo_x),
        f_le(hi_x, new_b.max_x.fr()),
        f_le(new_b.min_y.fr(), lo_y),
        f_le(hi_y, new_b.max_y.fr()),
{
    crate::frac::lemma_f_le_trans(new_b.min_x.fr(), old_b.min_x.fr(), lo_x);
    crate::frac::lemma_f_le_trans(hi_x, old_b.max_x.fr(), new_b.max_x.fr());
    crate::frac::lemma_f_le_trans(new_b.min_y.fr(), old_b.min_y.fr(), lo_y);
    crate::frac::lemma_f_le_trans(hi_y, old_b.max_y.fr(), new_b.max_y.fr());
}

impl CircleGerberPrimitive {
    /// The circle's bounding box: the center plus and minus half the
    /// diameter on both axes.
    pub fn bounding_box(&self) -> (r: Option<BoundingBox>)
        requires
            self.center.wf(),
            self.diameter.wf(),
            f_le(f_int(0), self.diameter.fr()),
        ensures
            (r is Some) == circle_box_checked(*self),
            r matches Some(b) ==> {
                &&& b.wf()
                &&& f_eq(
                    b.min_x.fr(),
                    f_sub(
                        fp_x(self.center.vp()),
                        f_mul(self.diameter.fr(), Frac { n: 1, d: 2 }),
                    ),
                )
                &&& f_eq(
                    b.max_x.fr(),
                    f_add(
                        fp_x(self.center.vp()),
                        f_mul(self.diameter.fr(), Frac { n: 1, d: 2 }),
                    ),
                )
                &&& f_eq(
                    b.min_y.fr(),
                    f_sub(
                        fp_y(self.center.vp()),
                        f_mul(self.diameter.fr(), Frac { n: 1, d: 2 }),
                    ),
                )
                &&& f_eq(
                    b.max_y.fr(),
                    f_add(
                        fp_y(self.center.vp()),
                        f_mul(self.diameter.fr(), Frac { n: 1, d: 2 }),
                    ),
                )
            },
    {
        let half = Rat::from_wf_parts(1, 2);
        let hd = match self.diameter.times(half) {
            Some(t) => t,
            None => {
                return None;
            },
        };
        box_around(self.center, hd, Ghost(f_mul(self.diameter.fr(), Frac { n: 1, d: 2 })))
    }
}

impl ArcGerberPrimitive {
    /// A conservative bounding box for the arc: the full circle of its
    /// radius plus half its stroke width, around its center. It contains the
    /// arc whatever its sweep; a tight box would need the arc's extremal
    /// angles.
    pub fn bounding_box(&self) -> (r: Option<BoundingBox>)
        requires
            self.center.wf(),
            self.radius.wf(),
            self.width.wf(),
            f_le(f_int(0), self.radius.fr()),
            f_le(f_int(0), self.width.fr()),
        ensures
            (r is Some) == arc_box_checked(*self),
            r matches Some(b) ==> {
                &&& b.wf()
                &&& f_eq(
                    b.min_x.fr(),
                    f_sub(
                        fp_x(self.center.vp()),
                        f_add(self.radius.fr(), f_mul(self.width.fr(), Frac { n: 1, d: 2 })),
                    ),
                )
                &&& f_eq(
                    b.max_x.fr(),
                    f_add(
                        fp_x(self.center.vp()),
                        f_add(self.radius.fr(), f_mul(self.width.fr(), Frac { n: 1, d: 2 })),
                    ),
                )
                &&& f_eq(
                    b.min_y.fr(),
                    f_sub(
                        fp_y(self.center.vp()),
                        f_add(self.radius.fr(), f_mul(self.width.fr(), Frac { n: 1, d: 2 })),
                    ),
                )
                &&& f_eq(
                    b.max_y.fr(),
                    f_add(
                        fp_y(self.center.vp()),
                        f_add(self.radius.fr(), f_mul(self.width.fr(), Frac { n: 1, d: 2 })),
                    ),
                )
            },
    {
        let half = Rat::from_wf_parts(1, 2);
        let hw = match self.width.times(half) {
            Some(t) => t,
            None => {
                return None;
            },
        };
        let reach = match self.radius.plus(hw) {
            Some(t) => t,
            None => {
                return None;
            },
        };
        let ghost exact = f_add(self.radius.fr(), f_mul(self.width.fr(), Frac { n: 1, d: 2 }));
        proof {
            let hm = f_mul(self.width.fr(), Frac { n: 1, d: 2 });
            assert(f_ok(hm)) by (nonlinear_arith)
                requires
                    hm.d == self.width.fr().d * 2,
                    self.width.fr().d > 0,
            ;
            lemma_f_add_congr(self.radius.fr(), self.radius.fr(), hw.fr(), hm);
            let a1 = f_add(self.radius.fr(), hw.fr());
            assert(f_ok(a1) && f_ok(exact)) by (nonlinear_arith)
                requires
                    a1.d == self.radius.fr().d * hw.fr().d,
                    exact.d == self.radius.fr().d * hm.d,
                    self.radius.fr().d > 0,
                    hw.fr().d > 0,
                    hm.d > 0,
            ;
            crate::frac::lemma_f_eq_trans(reach.fr(), a1, exact);
        }
        box_around(self.center, reach, Ghost(exact))
    }
}

/// The square box of the given half-extent around a center point. The
/// half-extent scalar must denote the exact extent.
fn box_around(center: Point, h: Rat, Ghost(exact): Ghost<Frac>) -> (r: Option<BoundingBox>)
    requires
        center.wf(),
        h.wf(),
        f_ok(exact),
        f_eq(h.fr(), exact),
        f_le(f_int(0), exact),
    ensures
        (r is Some) == box4_checked(fp_x(center.vp()), fp_y(center.vp()), h.fr()),
        r matches Some(b) ==> {
            &&& b.wf()
            &&& f_eq(b.min_x.fr(), f_sub(fp_x(center.vp()), exact))
            &&& f_eq(b.max_x.fr(), f_add(fp_x(center.vp()), exact))
            &&& f_eq(b.min_y.fr(), f_sub(fp_y(center.vp()), exact))
            &&& f_eq(b.max_y.fr(), f_add(fp_y(center.vp()), exact))
        },
{
    let cx = center.x();
    let cy = center.y();
    let min_x = match cx.minus(h) {
        Some(t) => t,
        None => {
            return None;
        },
    };
    let max_x = match cx.plus(h) {
        Some(t) => t,
        None => {
            return None;
        },
    };
    let min_y = match cy.minus(h) {
        Some(t) => t,
        None => {
            return None;
        },
    };
    let max_y = match cy.plus(h) {
        Some(t) => t,
        None => {
            return None;
        },
    };
    proof {
        // The nonnegative bound carries from the exact extent to the scalar.
        assert(f_le(f_int(0), h.fr())) by {
            crate::frac::lemma_f_le_congr(f_int(0), f_int(0), h.fr(), exact);
        }
        lemma_interval(fp_x(center.vp()), h.fr());
        lemma_interval(fp_y(center.vp()), h.fr());
        lemma_interval(fp_x(center.vp()), exact);
        lemma_interval(fp_y(center.vp()), exact);
        lemma_interval_chain(fp_x(center.vp()), h.fr(), exact, min_x.fr(), max_x.fr());
        lemma_interval_chain(fp_y(center.vp()), h.fr(), exact, min_y.fr(), max_y.fr());
        // The box is ordered because the denoted ends are ordered.
        crate::frac::lemma_f_le_congr(
            min_x.fr(),
            f_sub(fp_x(center.vp()), exact),
            max_x.fr(),
            f_add(fp_x(center.vp()), exact),
        );
        crate::frac::lemma_f_le_congr(
            min_y.fr(),
            f_sub(fp_y(center.vp()), exact),
            max_y.fr(),
            f_add(fp_y(center.vp()), exact),
        );
    }
    Some(BoundingBox { min_x, min_y, max_x, max_y })
}

impl RectangleGerberPrimitive {
    /// The rectangle's bounding box: from its origin corner to the origin
    /// plus its extents.
    pub fn bounding_box(&self) -> (r: Option<BoundingBox>)
        requires
            self.origin.wf(),
            self.width.wf(),
            self.height.wf(),
            f_le(f_int(0), self.width.fr()),
            f_le(f_int(0), self.height.fr()),
        ensures
            (r is Some) == rect_box_checked(*self),
            r matches Some(b) ==> {
                &&& b.wf()
                &&& b.min_x.fr() == fp_x(self.origin.vp())
                &&& b.min_y.fr() == fp_y(self.origin.vp())
                &&& f_eq(b.max_x.fr(), f_add(fp_x(self.origin.vp()), self.width.fr()))
                &&& f_eq(b.max_y.fr(), f_add(fp_y(self.origin.vp()), self.height.fr()))
            },
    {
        let min_x = self.origin.x();
        let min_y = self.origin.y();
        let max_x = match min_x.plus(self.width) {
            Some(t) => t,
            None => {
                return None;
            },
        };
        let max_y = match min_y.plus(self.height) {
            Some(t) => t,
            None => {
                return None;
            },
        };
        proof {
            lemma_grow_end(fp_x(self.origin.vp()), self.width.fr(), max_x.fr());
            lemma_grow_end(fp_y(self.origin.vp()), self.height.fr(), max_y.fr());
        }
        Some(BoundingBox { min_x, min_y, max_x, max_y })
    }
}

/// A coordinate grown by a nonnegative extent stays at or above the start.
proof fn lemma_grow_end(c: Frac, w: Frac, hi: Frac)
    requires
        f_ok(c),
        f_ok(w),
        f_ok(hi),
        f_le(f_int(0), w),
        f_eq(hi, f_add(c, w)),
    ensures
        f_le(c, hi),
{
    let a = f_add(c, w);
    assert(f_ok(a) && f_le(c, a)) by (nonlinear_arith)
        requires
            a.n == c.n * w.d + w.n * c.d,
            a.d == c.d * w.d,
            c.d > 0,
            w.d > 0,
            w.n >= 0,
    ;
    lemma_sym(hi, a);
    crate::frac::lemma_f_le_congr(c, c, a, hi);
}

impl LineGerberPrimitive {
    /// The line's bounding box: the endpoints' envelope widened by half the
    /// stroke width (the stroke and its round caps reach that far).
    pub fn bounding_box(&self) -> (r: Option<BoundingBox>)
        requires
            self.start.wf(),
            self.end.wf(),
            self.width.wf(),
            f_le(f_int(0), self.width.fr()),
        ensures
            (r is Some) == line_box_checked(*self),
            r matches Some(b) ==> {
                &&& b.wf()
                &&& f_eq(
                    b.min_x.fr(),
                    f_sub(
                        f_min(fp_x(self.start.vp()), fp_x(self.end.vp())),
                        f_mul(self.width.fr(), Frac { n: 1, d: 2 }),
                    ),
                )
                &&& f_eq(
                    b.max_x.fr(),
                    f_add(
                        f_max(fp_x(self.start.vp()), fp_x(self.end.vp())),
                        f_mul(self.width.fr(), Frac { n: 1, d: 2 }),
                    ),
                )
                &&& f_eq(
                    b.min_y.fr(),
                    f_sub(
                        f_min(fp_y(self.start.vp()), fp_y(self.end.vp())),
                        f_mul(self.width.fr(), Frac { n: 1, d: 2 }),
                    ),
                )
                &&& f_eq(
                    b.max_y.fr(),
                    f_add(
                        f_max(fp_y(self.start.vp()), fp_y(self.end.vp())),
                        f_mul(self.width.fr(), Frac { n: 1, d: 2 }),
                    ),
                )
            },
    {
        let half = Rat::from_wf_parts(1, 2);
        let hw = match self.width.times(half) {
            Some(t) => t,
            None => {
                return None;
            },
        };
        let lo_x = self.start.x().min_of(self.end.x());
        let hi_x = self.start.x().max_of(self.end.x());
        let lo_y = self.start.y().min_of(self.end.y());
        let hi_y = self.start.y().max_of(self.end.y());
        let min_x = match lo_x.minus(hw) {
            Some(t) => t,
            None => {
                return None;
            },
        };
        let max_x = match hi_x.plus(hw) {
            Some(t) => t,
            None => {
                return None;
            },
        };
        let min_y = match lo_y.minus(hw) {
            Some(t) => t,
            None => {
                return None;
            },
        };
        let max_y = match hi_y.plus(hw) {
            Some(t) => t,
            None => {
                return None;
            },
        };
        proof {
            let hm = f_mul(self.width.fr(), Frac { n: 1, d: 2 });
            assert(f_ok(hm)) by (nonlinear_arith)
                requires
                    hm.d == self.width.fr().d * 2,
                    self.width.fr().d > 0,
            ;
            lemma_envelope(
                fp_x(self.start.vp()),
                fp_x(self.end.vp()),
                hw.fr(),
                hm,
                min_x.fr(),
                max_x.fr(),
            );
            lemma_envelope(
                fp_y(self.start.vp()),
                fp_y(self.end.vp()),
                hw.fr(),
                hm,
                min_y.fr(),
                max_y.fr(),
            );
        }
        Some(BoundingBox { min_x, min_y, max_x, max_y })
    }
}

/// The widened envelope of two coordinates: the computed ends denote the
/// exact formulas and are ordered.
proof fn lemma_envelope(a: Frac, b: Frac, h: Frac, he: Frac, lo: Frac, hi: Frac)
    requires
        f_ok(a),
        f_ok(b),
        f_ok(h),
        f_ok(he),
        f_ok(lo),
        f_ok(hi),
        f_eq(h, he),
        f_le(f_int(0), he),
        f_eq(lo, f_sub(f_min(a, b), h)),
        f_eq(hi, f_add(f_max(a, b), h)),
    ensures
        f_eq(lo, f_sub(f_min(a, b), he)),
        f_eq(hi, f_add(f_max(a, b), he)),
        f_le(lo, hi),
{
    let mn = f_min(a, b);
    let mx = f_max(a, b);
    assert(f_ok(mn) && f_ok(mx) && f_le(mn, mx));
    crate::frac::lemma_f_sub_congr(mn, mn, h, he);
    lemma_f_add_congr(mx, mx, h, he);
    let s1 = f_sub(mn, h);
    let s2 = f_sub(mn, he);
    let a1 = f_add(mx, h);
    let a2 = f_add(mx, he);
    assert(f_ok(s1) && f_ok(s2) && f_ok(a1) && f_ok(a2)) by (nonlinear_arith)
        requires
            s1.d == mn.d * h.d,
            s2.d == mn.d * he.d,
            a1.d == mx.d * h.d,
            a2.d == mx.d * he.d,
            mn.d > 0,
            mx.d > 0,
            h.d > 0,
            he.d > 0,
    ;
    crate::frac::lemma_f_eq_trans(lo, s1, s2);
    crate::frac::lemma_f_eq_trans(hi, a1, a2);
    // lo <= mn - 0 <= mx + 0 <= hi.
    assert(f_le(s2, mn) && f_le(mx, a2)) by (nonlinear_arith)
        requires
            s2.n == mn.n * he.d - he.n * mn.d,
            s2.d == mn.d * he.d,
            a2.n == mx.n * he.d + he.n * mx.d,
            a2.d == mx.d * he.d,
            mn.d > 0,
            mx.d > 0,
            he.d > 0,
            he.n >= 0,
    ;
    crate::frac::lemma_f_le_trans(s2, mn, mx);
    crate::frac::lemma_f_le_trans(s2, mx, a2);
    crate::frac::lemma_f_le_congr(lo, s2, hi, a2);
}


impl PolygonGerberPrimitive {
    /// The polygon's bounding box: the minimal box around its absolute
    /// vertices. An empty ring gets the degenerate box at the origin.
    pub fn bounding_box(&self) -> (r: Option<BoundingBox>)
        requires
            self.center.wf(),
            self.geometry.wf(),
        ensures
            (r is Some) == poly_abs_prefix_ok(
                *self,
                self.geometry.relative_vertices.len() as int,
            ),
            r matches Some(b) ==> {
                &&& b.wf()
                &&& forall|j: int|
                    0 <= j < self.geometry.relative_vertices.len() ==> crate::bbox::contains_fp(
                        b,
                        #[trigger] poly_vertex_abs(*self, j),
                    )
            },
    {
        let abs = match polygon_absolute_vertices(self) {
            Some(v) => v,
            None => {
                return None;
            },
        };
        let b = crate::bbox::BoundingBox::from_points(&abs);
        proof {
            assert forall|j: int|
                0 <= j < self.geometry.relative_vertices.len() implies crate::bbox::contains_fp(
                b,
                #[trigger] poly_vertex_abs(*self, j),
            ) by {
                crate::bbox::lemma_contains_congr(b, abs@[j].vp(), poly_vertex_abs(*self, j));
            }
        }
        Some(b)
    }
}

impl GerberPrimitive {
    /// The primitive's bounding box, by its kind; the per-kind methods give
    /// the exact formulas. `None` when the box does not fit the
    /// representation.
    pub fn bounding_box(&self) -> (r: Option<BoundingBox>)
        requires
            self.wf(),
        ensures
            (r is Some) == prim_box_checked(*self),
            r matches Some(b) ==> b.wf() && box_covers_prim(b, *self),
    {
        match self {
            GerberPrimitive::Circle(c) => c.bounding_box(),
            GerberPrimitive::Rectangle(rect) => rect.bounding_box(),
            GerberPrimitive::Line(l) => l.bounding_box(),
            GerberPrimitive::Arc(a) => a.bounding_box(),
            GerberPrimitive::Polygon(p) => p.bounding_box(),
        }
    }
}

} // verus!
