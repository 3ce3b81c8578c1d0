//! Axis-aligned bounding boxes over exact rational coordinates: the minimal
//! box around a point set, its four corners in a fixed order, and the box
//! around a transformed box (transform the corners, then re-enclose — a
//! rotated box's tight enclosure is not the transform of its min/max pair).
use vstd::prelude::*;

use crate::frac::{
    f_eq, f_int, f_le, f_max, f_min, f_ok, lemma_f_le_congr, lemma_f_le_trans,
    lemma_f_max_congr, lemma_f_min_congr, Frac,
};
use crate::geometry::{
    fm_apply, fp_eq, fp_norm, fp_ok, fp_x, fp_y, lemma_apply_point_eq, lemma_fp_norm, FMat,
    FPoint, Mat, Point,
};
use crate::rat::Rat;

verus! {

/// An axis-aligned box, held as its two corner coordinate pairs.
#[derive(Clone, Copy, Debug)]
pub struct BoundingBox {
    pub min_x: Rat,
    pub min_y: Rat,
    pub max_x: Rat,
    pub max_y: Rat,
}

/// Whether the box contains the point.
pub open spec fn contains_fp(b: BoundingBox, p: FPoint) -> bool {
    &&& f_le(b.min_x.fr(), fp_x(p))
    &&& f_le(fp_x(p), b.max_x.fr())
    &&& f_le(b.min_y.fr(), fp_y(p))
    &&& f_le(fp_y(p), b.max_y.fr())
}

/// The canonical point with the two given coordinates, on their shared
/// denominator.
pub open spec fn fp_of(xf: Frac, yf: Frac) -> FPoint {
    FPoint { x: xf.n * yf.d, y: yf.n * xf.d, den: xf.d * yf.d }
}

/// The smallest of four fractions.
pub open spec fn f_min4(a: Frac, b: Frac, c: Frac, d: Frac) -> Frac {
    f_min(f_min(f_min(a, b), c), d)
}

/// The largest of four fractions.
pub open spec fn f_max4(a: Frac, b: Frac, c: Frac, d: Frac) -> Frac {
    f_max(f_max(f_max(a, b), c), d)
}

/// The four corners of a box, counted clockwise from the bottom-left in the
/// y-up shape space: bottom-left, top-left, top-right, bottom-right.
pub open spec fn box_corner(b: BoundingBox, k: int) -> FPoint {
    if k == 0 {
        fp_of(b.min_x.fr(), b.min_y.fr())
    } else if k == 1 {
        fp_of(b.min_x.fr(), b.max_y.fr())
    } else if k == 2 {
        fp_of(b.max_x.fr(), b.max_y.fr())
    } else {
        fp_of(b.max_x.fr(), b.min_y.fr())
    }
}

impl BoundingBox {
    /// Well-formed: all coordinates in range and the corners ordered.
    pub open spec fn wf(self) -> bool {
        &&& self.min_x.wf()
        &&& self.min_y.wf()
        &&& self.max_x.wf()
        &&& self.max_y.wf()
        &&& f_le(self.min_x.fr(), self.max_x.fr())
        &&& f_le(self.min_y.fr(), self.max_y.fr())
    }

    /// The degenerate box at the origin, returned for an empty point set so
    /// that callers need not special-case emptiness.
    pub fn zero() -> (r: BoundingBox)
        ensures
            r.wf(),
            r.min_x.fr() == f_int(0),
            r.min_y.fr() == f_int(0),
            r.max_x.fr() == f_int(0),
            r.max_y.fr() == f_int(0),
    {
        BoundingBox {
            min_x: Rat::zero(),
            min_y: Rat::zero(),
            max_x: Rat::zero(),
            max_y: Rat::zero(),
        }
    }

    /// The minimal axis-aligned box containing all the points: every point
    /// lies within it, and each of its four bounds is attained by one of the
    /// points. An empty input yields the degenerate box at the origin.
    pub fn from_points(points: &Vec<Point>) -> (r: BoundingBox)
        requires
            forall|i: int| 0 <= i < points.len() ==> (#[trigger] points@[i]).wf(),
        ensures
            r.wf(),
            points.len() == 0 ==> r.min_x.fr() == f_int(0) && r.min_y.fr() == f_int(0)
                && r.max_x.fr() == f_int(0) && r.max_y.fr() == f_int(0),
            forall|i: int| 0 <= i < points.len() ==> contains_fp(r, (#[trigger] points@[i]).vp()),
            points.len() > 0 ==> exists|i: int| 0 <= i < points.len() && f_eq(
                r.min_x.fr(),
                fp_x((#[trigger] points@[i]).vp()),
            ),
            points.len() > 0 ==> exists|i: int| 0 <= i < points.len() && f_eq(
                r.max_x.fr(),
                fp_x((#[trigger] points@[i]).vp()),
            ),
            points.len() > 0 ==> exists|i: int| 0 <= i < points.len() && f_eq(
                r.min_y.fr(),
                fp_y((#[trigger] points@[i]).vp()),
            ),
            points.len() > 0 ==> exists|i: int| 0 <= i < points.len() && f_eq(
                r.max_y.fr(),
                fp_y((#[trigger] points@[i]).vp()),
            ),
    {
        if points.len() == 0 {
            return BoundingBox::zero();
        }
        let p0 = points[0];
        let mut min_x = p0.x();
        let mut min_y = p0.y();
        let mut max_x = p0.x();
        let mut max_y = p0.y();
        let mut i: usize = 1;
        while i < points.len()
            invariant
                1 <= i <= points.len(),
                forall|j: int| 0 <= j < points.len() ==> (#[trigger] points@[j]).wf(),
                min_x.wf() && min_y.wf() && max_x.wf() && max_y.wf(),
                forall|j: int| 0 <= j < i ==> f_le(
                    min_x.fr(),
                    fp_x((#[trigger] points@[j]).vp()),
                ) && f_le(fp_x(points@[j].vp()), max_x.fr()) && f_le(
                    min_y.fr(),
                    fp_y(points@[j].vp()),
                ) && f_le(fp_y(points@[j].vp()), max_y.fr()),
                exists|j: int| 0 <= j < i && f_eq(min_x.fr(), fp_x((#[trigger] points@[j]).vp())),
                exists|j: int| 0 <= j < i && f_eq(max_x.fr(), fp_x((#[trigger] points@[j]).vp())),
                exists|j: int| 0 <= j < i && f_eq(min_y.fr(), fp_y((#[trigger] points@[j]).vp())),
                exists|j: int| 0 <= j < i && f_eq(max_y.fr(), fp_y((#[trigger] points@[j]).vp())),
            decreases points.len() - i,
        {
            let p = points[i];
            let px = p.x();
            let py = p.y();
            if px.lt(min_x) {
                proof {
                    lemma_le_widen_min(min_x.fr(), px.fr(), points@, i as int);
                }
                min_x = px;
            }
            if max_x.lt(px) {
                proof {
                    lemma_le_widen_max(max_x.fr(), px.fr(), points@, i as int);
                }
                max_x = px;
            }
            if py.lt(min_y) {
                proof {
                    lemma_le_widen_min_y(min_y.fr(), py.fr(), points@, i as int);
                }
                min_y = py;
            }
            if max_y.lt(py) {
                proof {
                    lemma_le_widen_max_y(max_y.fr(), py.fr(), points@, i as int);
                }
                max_y = py;
            }
            i = i + 1;
        }
        proof {
            let w = choose|j: int| 0 <= j < points.len() && f_eq(
                min_x.fr(),
                fp_x((#[trigger] points@[j]).vp()),
            );
            let v = choose|j: int| 0 <= j < points.len() && f_eq(
                max_x.fr(),
                fp_x((#[trigger] points@[j]).vp()),
            );
            lemma_bounds_ordered(min_x.fr(), max_x.fr(), fp_x(points@[w].vp()), points@, w, v);
            let w2 = choose|j: int| 0 <= j < points.len() && f_eq(
                min_y.fr(),
                fp_y((#[trigger] points@[j]).vp()),
            );
            let v2 = choose|j: int| 0 <= j < points.len() && f_eq(
                max_y.fr(),
                fp_y((#[trigger] points@[j]).vp()),
            );
            lemma_bounds_ordered(min_y.fr(), max_y.fr(), fp_y(points@[w2].vp()), points@, w2, v2);
        }
        BoundingBox { min_x, min_y, max_x, max_y }
    }
}

/// A new, smaller minimum keeps every point that the old minimum bounded.
proof fn lemma_le_widen_min(old_m: Frac, new_m: Frac, pts: Seq<Point>, i: int)
    requires
        f_ok(old_m),
        f_ok(new_m),
        crate::frac::f_lt(new_m, old_m),
        0 <= i < pts.len(),
        forall|j: int| 0 <= j < pts.len() ==> (#[trigger] pts[j]).wf(),
        forall|j: int| 0 <= j < i ==> f_le(old_m, fp_x((#[trigger] pts[j]).vp())),
    ensures
        forall|j: int| 0 <= j < i ==> f_le(new_m, fp_x((#[trigger] pts[j]).vp())),
{
    assert forall|j: int| 0 <= j < i implies f_le(new_m, fp_x((#[trigger] pts[j]).vp())) by {
        lemma_f_le_trans(new_m, old_m, fp_x(pts[j].vp()));
    }
}

proof fn lemma_le_widen_max(old_m: Frac, new_m: Frac, pts: Seq<Point>, i: int)
    requires
        f_ok(old_m),
        f_ok(new_m),
        crate::frac::f_lt(old_m, new_m),
        0 <= i < pts.len(),
        forall|j: int| 0 <= j < pts.len() ==> (#[trigger] pts[j]).wf(),
        forall|j: int| 0 <= j < i ==> f_le(fp_x((#[trigger] pts[j]).vp()), old_m),
    ensures
        forall|j: int| 0 <= j < i ==> f_le(fp_x((#[trigger] pts[j]).vp()), new_m),
{
    assert forall|j: int| 0 <= j < i implies f_le(fp_x((#[trigger] pts[j]).vp()), new_m) by {
        lemma_f_le_trans(fp_x(pts[j].vp()), old_m, new_m);
    }
}

proof fn lemma_le_widen_min_y(old_m: Frac, new_m: Frac, pts: Seq<Point>, i: int)
    requires
        f_ok(old_m),
        f_ok(new_m),
        crate::frac::f_lt(new_m, old_m),
        0 <= i < pts.len(),
        forall|j: int| 0 <= j < pts.len() ==> (#[trigger] pts[j]).wf(),
        forall|j: int| 0 <= j < i ==> f_le(old_m, fp_y((#[trigger] pts[j]).vp())),
    ensures
        forall|j: int| 0 <= j < i ==> f_le(new_m, fp_y((#[trigger] pts[j]).vp())),
{
    assert forall|j: int| 0 <= j < i implies f_le(new_m, fp_y((#[trigger] pts[j]).vp())) by {
        lemma_f_le_trans(new_m, old_m, fp_y(pts[j].vp()));
    }
}

proof fn lemma_le_widen_max_y(old_m: Frac, new_m: Frac, pts: Seq<Point>, i: int)
    requires
        f_ok(old_m),
        f_ok(new_m),
        crate::frac::f_lt(old_m, new_m),
        0 <= i < pts.len(),
        forall|j: int| 0 <= j < pts.len() ==> (#[trigger] pts[j]).wf(),
        forall|j: int| 0 <= j < i ==> f_le(fp_y((#[trigger] pts[j]).vp()), old_m),
    ensures
        forall|j: int| 0 <= j < i ==> f_le(fp_y((#[trigger] pts[j]).vp()), new_m),
{
    assert forall|j: int| 0 <= j < i implies f_le(fp_y((#[trigger] pts[j]).vp()), new_m) by {
        lemma_f_le_trans(fp_y(pts[j].vp()), old_m, new_m);
    }
}

/// A minimum attained at one point and a maximum attained at another are
/// ordered through any point both bound.
proof fn lemma_bounds_ordered(
    mn: Frac,
    mx: Frac,
    witness: Frac,
    pts: Seq<Point>,
    w: int,
    v: int,
)
    requires
        f_ok(mn),
        f_ok(mx),
        f_ok(witness),
        f_le(mn, witness),
        f_le(witness, mx),
    ensures
        f_le(mn, mx),
{
    lemma_f_le_trans(mn, witness, mx);
}


/// The checked construction of a corner point, as the executable code
/// performs it.
pub open spec fn point_checked(xf: Frac, yf: Frac) -> Option<FPoint> {
    let n = fp_norm(fp_of(xf, yf));
    if crate::geometry::fp_fits(n) {
        Some(n)
    } else {
        None
    }
}

/// The checked application of a transform to a point.
pub open spec fn apply_checked(m: FMat, p: FPoint) -> Option<FPoint> {
    let n = fp_norm(fm_apply(m, p));
    if crate::geometry::fp_fits(n) {
        Some(n)
    } else {
        None
    }
}

/// The checked image of one corner of a box.
pub open spec fn corner_image_checked(m: FMat, b: BoundingBox, k: int) -> Option<FPoint> {
    match point_checked(corner_x(b, k), corner_y(b, k)) {
        Option::None => Option::None,
        Option::Some(p) => apply_checked(m, p),
    }
}

/// The x coordinate of corner `k`, clockwise from bottom-left.
pub open spec fn corner_x(b: BoundingBox, k: int) -> Frac {
    if k == 0 || k == 1 {
        b.min_x.fr()
    } else {
        b.max_x.fr()
    }
}

/// The y coordinate of corner `k`, clockwise from bottom-left.
pub open spec fn corner_y(b: BoundingBox, k: int) -> Frac {
    if k == 0 || k == 3 {
        b.min_y.fr()
    } else {
        b.max_y.fr()
    }
}

/// The smallest of four fractions is below each, and each is below the
/// largest of the four.
proof fn lemma_min4_max4_bounds(a: Frac, b: Frac, c: Frac, d: Frac)
    requires
        f_ok(a),
        f_ok(b),
        f_ok(c),
        f_ok(d),
    ensures
        f_le(f_min4(a, b, c, d), a),
        f_le(a, f_max4(a, b, c, d)),
        f_ok(f_min4(a, b, c, d)),
        f_ok(f_max4(a, b, c, d)),
        f_le(f_min4(a, b, c, d), f_max4(a, b, c, d)),
{
    let m1 = f_min(a, b);
    let m2 = f_min(m1, c);
    let m3 = f_min(m2, d);
    assert(f_le(m1, a));
    if !f_le(m2, a) {
        lemma_f_le_trans(c, m1, a);
    }
    if !f_le(m3, a) {
        lemma_f_le_trans(d, m2, a);
    }
    let x1 = f_max(a, b);
    let x2 = f_max(x1, c);
    let x3 = f_max(x2, d);
    assert(f_le(a, x1));
    if f_le(x1, c) {
        lemma_f_le_trans(a, x1, c);
    }
    assert(f_le(a, x2));
    if f_le(x2, d) {
        lemma_f_le_trans(a, x2, d);
    }
    assert(f_le(a, x3));
    lemma_f_le_trans(m3, a, x3);
}

impl BoundingBox {
    /// The four corners, clockwise from the bottom-left in the y-up shape
    /// space; `None` exactly when a corner's shared-denominator form does
    /// not fit the representation. The order is fixed because callers pair
    /// corners with their transformed counterparts.
    pub fn vertices(&self) -> (r: Option<Vec<Point>>)
        requires
            self.wf(),
        ensures
            (r is Some) == (forall|k: int| 0 <= k < 4 ==> #[trigger] point_checked(
                corner_x(*self, k),
                corner_y(*self, k),
            ) is Some),
            r matches Some(v) ==> {
                &&& v.len() == 4
                &&& forall|k: int| 0 <= k < 4 ==> (#[trigger] v@[k]).wf()
                &&& forall|k: int| 0 <= k < 4 ==> f_eq(fp_x((#[trigger] v@[k]).vp()), corner_x(*self, k))
                    && f_eq(fp_y(v@[k].vp()), corner_y(*self, k))
            },
    {
        let p0 = match Point::new(self.min_x, self.min_y) {
            Some(p) => p,
            None => {
                proof {
                    assert(point_checked(corner_x(*self, 0), corner_y(*self, 0)) is None);
                }
                return None;
            },
        };
        let p1 = match Point::new(self.min_x, self.max_y) {
            Some(p) => p,
            None => {
                proof {
                    assert(point_checked(corner_x(*self, 1), corner_y(*self, 1)) is None);
                }
                return None;
            },
        };
        let p2 = match Point::new(self.max_x, self.max_y) {
            Some(p) => p,
            None => {
                proof {
                    assert(point_checked(corner_x(*self, 2), corner_y(*self, 2)) is None);
                }
                return None;
            },
        };
        let p3 = match Point::new(self.max_x, self.min_y) {
            Some(p) => p,
            None => {
                proof {
                    assert(point_checked(corner_x(*self, 3), corner_y(*self, 3)) is None);
                }
                return None;
            },
        };
        let v = vec![p0, p1, p2, p3];
        proof {
            assert(v@[0] == p0 && v@[1] == p1 && v@[2] == p2 && v@[3] == p3);
        }
        Some(v)
    }

    /// The axis-aligned box enclosing the four corners, each transformed
    /// individually by `m` - not the transform of the min/max pair, which
    /// would be too small for a rotated box. `None` exactly when a corner or
    /// its image does not fit the representation. Each bound of the result
    /// is the exact minimum or maximum of the four images' coordinates.
    pub fn apply_transform_matrix(&self, m: &Mat) -> (r: Option<BoundingBox>)
        requires
            self.wf(),
            m.wf(),
        ensures
            (r is Some) == (forall|k: int| 0 <= k < 4 ==> #[trigger] corner_image_checked(
                m.vm(),
                *self,
                k,
            ) is Some),
            r matches Some(b) ==> {
                &&& b.wf()
                &&& f_eq(
                    b.min_x.fr(),
                    f_min4(
                        fp_x(fm_apply(m.vm(), box_corner(*self, 0))),
                        fp_x(fm_apply(m.vm(), box_corner(*self, 1))),
                        fp_x(fm_apply(m.vm(), box_corner(*self, 2))),
                        fp_x(fm_apply(m.vm(), box_corner(*self, 3))),
                    ),
                )
                &&& f_eq(
                    b.max_x.fr(),
                    f_max4(
                        fp_x(fm_apply(m.vm(), box_corner(*self, 0))),
                        fp_x(fm_apply(m.vm(), box_corner(*self, 1))),
                        fp_x(fm_apply(m.vm(), box_corner(*self, 2))),
                        fp_x(fm_apply(m.vm(), box_corner(*self, 3))),
                    ),
                )
                &&& f_eq(
                    b.min_y.fr(),
                    f_min4(
                        fp_y(fm_apply(m.vm(), box_corner(*self, 0))),
                        fp_y(fm_apply(m.vm(), box_corner(*self, 1))),
                        fp_y(fm_apply(m.vm(), box_corner(*self, 2))),
                        fp_y(fm_apply(m.vm(), box_corner(*self, 3))),
                    ),
                )
                &&& f_eq(
                    b.max_y.fr(),
                    f_max4(
                        fp_y(fm_apply(m.vm(), box_corner(*self, 0))),
                        fp_y(fm_apply(m.vm(), box_corner(*self, 1))),
                        fp_y(fm_apply(m.vm(), box_corner(*self, 2))),
                        fp_y(fm_apply(m.vm(), box_corner(*self, 3))),
                    ),
                )
            },
    {
        let q0 = match corner_image(self.min_x, self.min_y, m) {
            Some(q) => q,
            None => {
                proof {
                    assert(corner_image_checked(m.vm(), *self, 0) is None);
                }
                return None;
            },
        };
        let q1 = match corner_image(self.min_x, self.max_y, m) {
            Some(q) => q,
            None => {
                proof {
                    assert(corner_image_checked(m.vm(), *self, 1) is None);
                }
                return None;
            },
        };
        let q2 = match corner_image(self.max_x, self.max_y, m) {
            Some(q) => q,
            None => {
                proof {
                    assert(corner_image_checked(m.vm(), *self, 2) is None);
                }
                return None;
            },
        };
        let q3 = match corner_image(self.max_x, self.min_y, m) {
            Some(q) => q,
            None => {
                proof {
                    assert(corner_image_checked(m.vm(), *self, 3) is None);
                }
                return None;
            },
        };
        let ghost i0 = fm_apply(m.vm(), box_corner(*self, 0));
        let ghost i1 = fm_apply(m.vm(), box_corner(*self, 1));
        let ghost i2 = fm_apply(m.vm(), box_corner(*self, 2));
        let ghost i3 = fm_apply(m.vm(), box_corner(*self, 3));
        let min_x = q0.x().min_of(q1.x()).min_of(q2.x()).min_of(q3.x());
        let max_x = q0.x().max_of(q1.x()).max_of(q2.x()).max_of(q3.x());
        let min_y = q0.y().min_of(q1.y()).min_of(q2.y()).min_of(q3.y());
        let max_y = q0.y().max_of(q1.y()).max_of(q2.y()).max_of(q3.y());
        proof {
            lemma_chain4_min(
                fp_x(q0.vp()),
                fp_x(q1.vp()),
                fp_x(q2.vp()),
                fp_x(q3.vp()),
                fp_x(i0),
                fp_x(i1),
                fp_x(i2),
                fp_x(i3),
            );
            lemma_chain4_max(
                fp_x(q0.vp()),
                fp_x(q1.vp()),
                fp_x(q2.vp()),
                fp_x(q3.vp()),
                fp_x(i0),
                fp_x(i1),
                fp_x(i2),
                fp_x(i3),
            );
            lemma_chain4_min(
                fp_y(q0.vp()),
                fp_y(q1.vp()),
                fp_y(q2.vp()),
                fp_y(q3.vp()),
                fp_y(i0),
                fp_y(i1),
                fp_y(i2),
                fp_y(i3),
            );
            lemma_chain4_max(
                fp_y(q0.vp()),
                fp_y(q1.vp()),
                fp_y(q2.vp()),
                fp_y(q3.vp()),
                fp_y(i0),
                fp_y(i1),
                fp_y(i2),
                fp_y(i3),
            );
            lemma_min4_max4_bounds(fp_x(q0.vp()), fp_x(q1.vp()), fp_x(q2.vp()), fp_x(q3.vp()));
            lemma_min4_max4_bounds(fp_y(q0.vp()), fp_y(q1.vp()), fp_y(q2.vp()), fp_y(q3.vp()));
        }
        Some(BoundingBox { min_x, min_y, max_x, max_y })
    }
}

/// The image of one corner under the transform: build the shared-denominator
/// point, apply, and report exactly the checked-chain result.
fn corner_image(xc: Rat, yc: Rat, m: &Mat) -> (r: Option<Point>)
    requires
        xc.wf(),
        yc.wf(),
        m.wf(),
    ensures
        (r is Some) == (match point_checked(xc.fr(), yc.fr()) {
            Option::None => false,
            Option::Some(p) => apply_checked(m.vm(), p) is Some,
        }),
        r matches Some(q) ==> q.wf() && fp_eq(q.vp(), fm_apply(m.vm(), fp_of(xc.fr(), yc.fr())))
            && fp_ok(fm_apply(m.vm(), fp_of(xc.fr(), yc.fr()))),
{
    let ghost corner = fp_of(xc.fr(), yc.fr());
    proof {
        assert(fp_ok(corner)) by (nonlinear_arith)
            requires
                corner.den == xc.fr().d * yc.fr().d,
                xc.fr().d > 0,
                yc.fr().d > 0,
        ;
    }
    let p = match Point::new(xc, yc) {
        Some(p) => p,
        None => {
            return None;
        },
    };
    let q = match m.apply(p) {
        Some(q) => q,
        None => {
            return None;
        },
    };
    proof {
        lemma_fp_norm(corner);
        assert(p.vp() == fp_norm(corner));
        lemma_apply_point_eq(m.vm(), p.vp(), corner);
        assert(fp_ok(fm_apply(m.vm(), corner))) by (nonlinear_arith)
            requires
                fm_apply(m.vm(), corner).den == m.vm().den * corner.den,
                m.vm().den > 0,
                corner.den > 0,
        ;
        assert(fp_ok(fm_apply(m.vm(), p.vp()))) by (nonlinear_arith)
            requires
                fm_apply(m.vm(), p.vp()).den == m.vm().den * p.vp().den,
                m.vm().den > 0,
                p.vp().den > 0,
        ;
        crate::geometry::lemma_fp_eq_trans(q.vp(), fm_apply(m.vm(), p.vp()), fm_apply(m.vm(), corner));
    }
    Some(q)
}

/// Chained two-place minima over equal fractions stay equal.
proof fn lemma_chain4_min(
    a: Frac,
    b: Frac,
    c: Frac,
    d: Frac,
    a2: Frac,
    b2: Frac,
    c2: Frac,
    d2: Frac,
)
    requires
        f_ok(a) && f_ok(b) && f_ok(c) && f_ok(d),
        f_ok(a2) && f_ok(b2) && f_ok(c2) && f_ok(d2),
        f_eq(a, a2) && f_eq(b, b2) && f_eq(c, c2) && f_eq(d, d2),
    ensures
        f_eq(f_min4(a, b, c, d), f_min4(a2, b2, c2, d2)),
        f_ok(f_min4(a, b, c, d)),
{
    lemma_f_min_congr(a, a2, b, b2);
    lemma_f_min_congr(f_min(a, b), f_min(a2, b2), c, c2);
    lemma_f_min_congr(f_min(f_min(a, b), c), f_min(f_min(a2, b2), c2), d, d2);
}

/// Chained two-place maxima over equal fractions stay equal.
proof fn lemma_chain4_max(
    a: Frac,
    b: Frac,
    c: Frac,
    d: Frac,
    a2: Frac,
    b2: Frac,
    c2: Frac,
    d2: Frac,
)
    requires
        f_ok(a) && f_ok(b) && f_ok(c) && f_ok(d),
        f_ok(a2) && f_ok(b2) && f_ok(c2) && f_ok(d2),
        f_eq(a, a2) && f_eq(b, b2) && f_eq(c, c2) && f_eq(d, d2),
    ensures
        f_eq(f_max4(a, b, c, d), f_max4(a2, b2, c2, d2)),
        f_ok(f_max4(a, b, c, d)),
{
    lemma_f_max_congr(a, a2, b, b2);
    lemma_f_max_congr(f_max(a, b), f_max(a2, b2), c, c2);
    lemma_f_max_congr(f_max(f_max(a, b), c), f_max(f_max(a2, b2), c2), d, d2);
}


/// Under a 45-degree-style rotation (cosine equal to sine, any positive
/// rational `v` for both) the bounding box of a square of half-extent `h`
/// centered at the origin is a square whose half-extent `e` satisfies,
/// exactly,
/// `e^2 - 2 h^2 == 2 h^2 ((v^2 + v^2) - 1)`:
/// the squared box half-extent misses the square's squared half-diagonal by
/// exactly the rotation pair's defect from the unit circle. For a pair on
/// the unit circle the defect is zero and the box half-extent is exactly the
/// half-diagonal; for a rational approximation of cosine 45 degrees the
/// error is exactly `2 h^2` times the approximation's defect. The box grows
/// by the rotation's geometric effect, no more.
pub proof fn lemma_rotated_square_box(h: Frac, v: Frac, b: BoundingBox)
    requires
        f_ok(h),
        h.n > 0,
        f_ok(v),
        v.n > 0,
        b.min_x.fr() == crate::frac::f_neg(h) && b.min_y.fr() == crate::frac::f_neg(h),
        b.max_x.fr() == h && b.max_y.fr() == h,
    ensures
        f_ok(
            f_max4(
                fp_x(fm_apply(crate::transform::rot_mat(v, v), box_corner(b, 0))),
                fp_x(fm_apply(crate::transform::rot_mat(v, v), box_corner(b, 1))),
                fp_x(fm_apply(crate::transform::rot_mat(v, v), box_corner(b, 2))),
                fp_x(fm_apply(crate::transform::rot_mat(v, v), box_corner(b, 3))),
            ),
        ),
        f_eq(
            crate::frac::f_sub(
                crate::frac::f_mul(
                    f_max4(
                        fp_x(fm_apply(crate::transform::rot_mat(v, v), box_corner(b, 0))),
                        fp_x(fm_apply(crate::transform::rot_mat(v, v), box_corner(b, 1))),
                        fp_x(fm_apply(crate::transform::rot_mat(v, v), box_corner(b, 2))),
                        fp_x(fm_apply(crate::transform::rot_mat(v, v), box_corner(b, 3))),
                    ),
                    f_max4(
                        fp_x(fm_apply(crate::transform::rot_mat(v, v), box_corner(b, 0))),
                        fp_x(fm_apply(crate::transform::rot_mat(v, v), box_corner(b, 1))),
                        fp_x(fm_apply(crate::transform::rot_mat(v, v), box_corner(b, 2))),
                        fp_x(fm_apply(crate::transform::rot_mat(v, v), box_corner(b, 3))),
                    ),
                ),
                crate::frac::f_mul(f_int(2), crate::frac::f_mul(h, h)),
            ),
            crate::frac::f_mul(
                crate::frac::f_mul(f_int(2), crate::frac::f_mul(h, h)),
                crate::frac::f_sub(
                    crate::frac::f_add(crate::frac::f_mul(v, v), crate::frac::f_mul(v, v)),
                    f_int(1),
                ),
            ),
        ),
{
    let m = crate::transform::rot_mat(v, v);
    let u = v.n * v.d;
    let dd = v.d * v.d;
    let hh = h.n * h.d;
    let hd2 = h.d * h.d;
    let x0 = fp_x(fm_apply(m, box_corner(b, 0)));
    let x1 = fp_x(fm_apply(m, box_corner(b, 1)));
    let x2 = fp_x(fm_apply(m, box_corner(b, 2)));
    let x3 = fp_x(fm_apply(m, box_corner(b, 3)));
    // The image x numerators: 0 for the corners on the rotation axis, plus
    // and minus twice u*h for the other two.
    assert(x0.n == 0 && x2.n == 0 && x1.n == u * (-2 * hh) && x3.n == u * (2 * hh) && x0.d == dd
        * hd2 && x1.d == dd * hd2 && x2.d == dd * hd2 && x3.d == dd * hd2) by (nonlinear_arith)
        requires
            x0.n == u * ((-h.n) * h.d) + (-(u)) * ((-h.n) * h.d) + 0 * (h.d * h.d),
            x1.n == u * ((-h.n) * h.d) + (-(u)) * (h.n * h.d) + 0 * (h.d * h.d),
            x2.n == u * (h.n * h.d) + (-(u)) * (h.n * h.d) + 0 * (h.d * h.d),
            x3.n == u * (h.n * h.d) + (-(u)) * ((-h.n) * h.d) + 0 * (h.d * h.d),
            x0.d == dd * (h.d * h.d),
            x1.d == dd * (h.d * h.d),
            x2.d == dd * (h.d * h.d),
            x3.d == dd * (h.d * h.d),
            hh == h.n * h.d,
            hd2 == h.d * h.d,
    ;
    assert(u > 0 && dd > 0 && hh > 0 && hd2 > 0 && dd * hd2 > 0 && u * (2 * hh) > 0 && u * (-2
        * hh) < 0) by (nonlinear_arith)
        requires
            v.n > 0,
            v.d > 0,
            h.n > 0,
            h.d > 0,
            u == v.n * v.d,
            dd == v.d * v.d,
            hh == h.n * h.d,
            hd2 == h.d * h.d,
    ;
    // The maximum is the positive image.
    assert(!f_le(x0, x1)) by (nonlinear_arith)
        requires
            x0.n == 0,
            x1.n < 0,
            x0.d == x1.d,
            x0.d > 0,
    ;
    assert(f_le(x0, x2)) by (nonlinear_arith)
        requires
            x0.n == 0,
            x2.n == 0,
            x0.d == x2.d,
            x0.d > 0,
    ;
    assert(f_le(x2, x3)) by (nonlinear_arith)
        requires
            x2.n == 0,
            x3.n > 0,
            x2.d == x3.d,
            x2.d > 0,
    ;
    let e = f_max4(x0, x1, x2, x3);
    assert(e == x3);
    let sq = crate::frac::f_mul(e, e);
    let t2h = crate::frac::f_mul(f_int(2), crate::frac::f_mul(h, h));
    let defect = crate::frac::f_sub(
        crate::frac::f_add(crate::frac::f_mul(v, v), crate::frac::f_mul(v, v)),
        f_int(1),
    );
    assert(sq.n == 4 * ((u * u) * (hh * hh))) by (nonlinear_arith)
        requires
            sq.n == (u * (2 * hh)) * (u * (2 * hh)),
    ;
    assert(u * u == (v.n * v.n) * (v.d * v.d)) by (nonlinear_arith)
        requires
            u == v.n * v.d,
    ;
    assert(hh * hh == (h.n * h.n) * (h.d * h.d)) by (nonlinear_arith)
        requires
            hh == h.n * h.d,
    ;
    assert(sq.d == (dd * dd) * (hd2 * hd2)) by (nonlinear_arith)
        requires
            sq.d == (dd * hd2) * (dd * hd2),
    ;
    assert(dd * dd == (v.d * v.d) * (v.d * v.d)) by (nonlinear_arith)
        requires
            dd == v.d * v.d,
    ;
    assert(hd2 * hd2 == (h.d * h.d) * (h.d * h.d)) by (nonlinear_arith)
        requires
            hd2 == h.d * h.d,
    ;
    let lhs = crate::frac::f_sub(sq, t2h);
    let rhs = crate::frac::f_mul(t2h, defect);
    // The identity `e^2 - 2 h^2 == 2 h^2 (2 v^2 - 1)`, over the named
    // component products.
    lemma_defect_identity(
        (v.n * v.n) * (v.d * v.d),
        (v.d * v.d) * (v.d * v.d),
        h.n * h.n,
        h.d * h.d,
        lhs.n,
        lhs.d,
        rhs.n,
        rhs.d,
    );
}

/// The squared-half-extent defect identity, over opaque component products.
#[verifier::rlimit(100)]
proof fn lemma_defect_identity(
    k: int,
    vd4: int,
    hn2: int,
    hd2: int,
    lhsn: int,
    lhsd: int,
    rhsn: int,
    rhsd: int,
)
    requires
        lhsn == (4 * (k * (hn2 * hd2))) * (1 * hd2) - (2 * hn2) * (vd4 * (hd2 * hd2)),
        lhsd == (vd4 * (hd2 * hd2)) * (1 * hd2),
        rhsn == (2 * hn2) * ((k + k) * 1 - 1 * vd4),
        rhsd == (1 * hd2) * (vd4 * 1),
    ensures
        lhsn * rhsd == rhsn * lhsd,
{
    let f = 2 * k - vd4;
    assert(rhsn == (2 * hn2) * f) by (nonlinear_arith)
        requires
            rhsn == (2 * hn2) * ((k + k) * 1 - 1 * vd4),
            f == 2 * k - vd4,
    ;
    assert(lhsn == (2 * (hn2 * (hd2 * hd2))) * f) by (nonlinear_arith)
        requires
            lhsn == (4 * (k * (hn2 * hd2))) * (1 * hd2) - (2 * hn2) * (vd4 * (hd2 * hd2)),
            f == 2 * k - vd4,
    ;
    assert(((2 * (hn2 * (hd2 * hd2))) * f) * ((1 * hd2) * (vd4 * 1)) == ((2 * hn2) * f) * ((vd4 * (
    hd2 * hd2)) * (1 * hd2))) by (nonlinear_arith);
}


/// A box containing one of two equal points contains the other.
pub proof fn lemma_contains_congr(b: BoundingBox, p: FPoint, q: FPoint)
    requires
        b.wf(),
        fp_ok(p),
        fp_ok(q),
        fp_eq(p, q),
        contains_fp(b, p),
    ensures
        contains_fp(b, q),
{
    lemma_f_le_congr(b.min_x.fr(), b.min_x.fr(), fp_x(p), fp_x(q));
    lemma_f_le_congr(fp_x(p), fp_x(q), b.max_x.fr(), b.max_x.fr());
    lemma_f_le_congr(b.min_y.fr(), b.min_y.fr(), fp_y(p), fp_y(q));
    lemma_f_le_congr(fp_y(p), fp_y(q), b.max_y.fr(), b.max_y.fr());
}

} // verus!
