//! The render front end: a layer of primitives, the composed
//! image-and-placement matrix with its cached per-axis scale factors, and
//! the per-frame plan of screen-space draw operations that an unverified
//! painter consumes.
use vstd::prelude::*;

use crate::arc::{arc_angles, is_full_circle};
use crate::bbox::BoundingBox;
use crate::frac::f_eq;
use crate::geometry::{
    fm_apply, fm_compose, fm_entries_eq, fm_fits, fm_norm, fm_ok, fp_eq, fp_ok,
    lemma_apply_matrix_eq,
    lemma_compose_apply, lemma_compose_left_eq, lemma_compose_right_eq, lemma_fm_entries_eq_trans,
    lemma_fm_norm, FMat, FPoint, Mat, Point,
};
use crate::primitive::{
    circle_screen_geometry, lemma_fp_of_coords, line_screen_geometry, map_to_screen,
    polygon_absolute_vertices, rectangle_screen_geometry, Exposure, GerberPrimitive,
    RectangleScreenGeometry,
};
use crate::rat::Rat;
use crate::transform::{placement_apply, placement_chain, GerberTransform};
use crate::view::ViewState;

verus! {

/// Options of one render pass, passed explicitly so independent views can
/// render concurrently with different settings. All off by default.
#[derive(Clone, Debug)]
pub struct RenderConfiguration {
    /// Gives each shape a unique color.
    pub use_unique_shape_colors: bool,
    /// Draws the shape number in the center of the shape.
    pub use_shape_numbering: bool,
    /// Draws the vertex number at the start of each line.
    pub use_vertex_numbering: bool,
    /// Draws a bounding box for each shape.
    pub use_shape_bboxes: bool,
}

impl Default for RenderConfiguration {
    fn default() -> (r: RenderConfiguration)
        ensures
            !r.use_unique_shape_colors,
            !r.use_shape_numbering,
            !r.use_vertex_numbering,
            !r.use_shape_bboxes,
    {
        RenderConfiguration {
            use_unique_shape_colors: false,
            use_shape_numbering: false,
            use_vertex_numbering: false,
            use_shape_bboxes: false,
        }
    }
}

/// A layer: its primitives in draw order (later primitives draw over
/// earlier ones), the document's intrinsic image transform, and nothing
/// else. Both are fixed at construction; a document edit rebuilds the whole
/// layer.
pub struct GerberLayer {
    pub primitives: Vec<GerberPrimitive>,
    pub image_transform: GerberTransform,
    pub bounding_box: BoundingBox,
}

impl GerberLayer {
    pub open spec fn wf(self) -> bool {
        &&& self.image_transform.wf()
        &&& self.bounding_box.wf()
        &&& forall|i: int| 0 <= i < self.primitives.len() ==> (#[trigger] self.primitives@[i]).wf()
    }

    pub fn new(primitives: Vec<GerberPrimitive>, image_transform: GerberTransform) -> (r:
        GerberLayer)
        requires
            image_transform.wf(),
            forall|i: int| 0 <= i < primitives.len() ==> (#[trigger] primitives@[i]).wf(),
        ensures
            r.wf(),
            r.primitives@ == primitives@,
            r.image_transform() == image_transform,
            forall|i: int|
                0 <= i < primitives.len() && crate::primitive::prim_box_checked(
                    #[trigger] primitives@[i],
                ) ==> crate::primitive::box_covers_prim(r.bounding_box, primitives@[i]),
    {
        // Cache the document box once, at construction: fold together the
        // boxes of all primitives. A primitive whose own box does not fit
        // the representation is left out rather than failing the layer; a
        // layer with no boxed primitive gets the degenerate box at the
        // origin.
        let mut acc: Option<BoundingBox> = None;
        let mut i: usize = 0;
        while i < primitives.len()
            invariant
                0 <= i <= primitives.len(),
                forall|j: int| 0 <= j < primitives.len() ==> (#[trigger] primitives@[j]).wf(),
                acc matches Some(ab) ==> ab.wf(),
                forall|j: int|
                    0 <= j < i && crate::primitive::prim_box_checked(#[trigger] primitives@[j])
                        ==> acc is Some && crate::primitive::box_covers_prim(
                        acc->Some_0,
                        primitives@[j],
                    ),
            decreases primitives.len() - i,
        {
            if let Some(b) = primitives[i].bounding_box() {
                let merged = match acc {
                    None => b,
                    Some(ab) => {
                        let m = BoundingBox {
                            min_x: ab.min_x.min_of(b.min_x),
                            min_y: ab.min_y.min_of(b.min_y),
                            max_x: ab.max_x.max_of(b.max_x),
                            max_y: ab.max_y.max_of(b.max_y),
                        };
                        proof {
                            lemma_merge_wf(ab, b, m);
                            assert forall|j: int|
                                0 <= j < i && crate::primitive::prim_box_checked(
                                    #[trigger] primitives@[j],
                                ) implies crate::primitive::box_covers_prim(
                                m,
                                primitives@[j],
                            ) by {
                                crate::primitive::lemma_covers_widen(ab, m, primitives@[j]);
                            }
                            crate::primitive::lemma_covers_widen(b, m, primitives@[i as int]);
                        }
                        m
                    },
                };
                acc = Some(merged);
            }
            i = i + 1;
        }
        let bounding_box = match acc {
            Some(ab) => ab,
            None => BoundingBox::zero(),
        };
        GerberLayer { primitives, image_transform, bounding_box }
    }

    /// The cached box around all primitives, computed at construction.
    pub fn bounding_box(&self) -> (r: BoundingBox)
        requires
            self.wf(),
        ensures
            r == self.bounding_box,
            r.wf(),
    {
        self.bounding_box
    }

    pub open spec fn primitives_spec(self) -> Seq<GerberPrimitive> {
        self.primitives@
    }

    pub fn primitives(&self) -> (r: &Vec<GerberPrimitive>)
        ensures
            r@ == self.primitives_spec(),
    {
        &self.primitives
    }

    pub open spec fn image_transform(self) -> GerberTransform {
        self.image_transform
    }

    pub fn image_transform_value(&self) -> (r: GerberTransform)
        ensures
            r == self.image_transform(),
    {
        self.image_transform
    }
}

/// The color a draw operation asks for: the pass's base color or a unique
/// per-shape color derived from the shape index. The painter resolves it.
#[derive(Clone, Copy, Debug, PartialEq, Eq, Structural)]
pub enum PaintColor {
    Base,
    Unique(usize),
}

/// The screen-space geometry of one drawn primitive. All coordinates are
/// screen pixels; only the arc still carries shape-space data (its sample
/// angles await the painter's trigonometry).
#[derive(Clone, Debug)]
pub enum ScreenShape {
    Circle { center: Point, radius: Rat },
    AlignedRect { center: Point, width: Rat, height: Rat },
    Quad { corners: Vec<Point> },
    Segment { start: Point, end: Point, stroke: Rat, cap_radius: Rat },
    ArcPath { center: Point, radius: Rat, angles: Vec<Rat>, closed: bool, stroke: Rat },
    ConvexPolygon { vertices: Vec<Point> },
    Mesh { vertices: Vec<Point>, indices: Vec<usize> },
    /// Degenerate or unrepresentable geometry: drawn as nothing.
    Skipped,
}

/// One draw operation of a render plan.
#[derive(Clone, Debug)]
pub struct DrawOp {
    pub shape_index: usize,
    pub exposure: Exposure,
    pub color: PaintColor,
    pub shape_number: Option<usize>,
    pub shape: ScreenShape,
    /// The screen corners of the primitive's own bounding box, present when
    /// the pass draws per-shape box overlays and the corners fit.
    pub bbox_outline: Option<Vec<Point>>,
    /// Whether the painter should label this shape's vertices with their
    /// indices (polygons only).
    pub label_vertices: bool,
}

/// A renderer for one frame: the composed transform matrix (image transform
/// after user placement), its cached per-axis scale factors, the view, and
/// the pass configuration.
pub struct GerberRenderer {
    pub configuration: RenderConfiguration,
    pub view: ViewState,
    pub transform_matrix: Mat,
    pub transform_scaling: (Rat, Rat),
}

/// A plain element-by-element copy of an index list.
fn copy_indices(src: &Vec<usize>) -> (r: Vec<usize>)
    ensures
        r@ == src@,
{
    let mut out: Vec<usize> = Vec::new();
    let mut i: usize = 0;
    while i < src.len()
        invariant
            0 <= i <= src.len(),
            out@ == src@.subrange(0, i as int),
        decreases src.len() - i,
    {
        out.push(src[i]);
        proof {
            assert(out@ == src@.subrange(0, i as int + 1));
        }
        i = i + 1;
    }
    proof {
        assert(out@ == src@);
    }
    out
}

/// Folding two well-formed boxes with componentwise minima and maxima gives
/// a well-formed box whose bounds widen both inputs.
proof fn lemma_merge_wf(a: BoundingBox, b: BoundingBox, m: BoundingBox)
    requires
        a.wf(),
        b.wf(),
        m.min_x.fr() == crate::frac::f_min(a.min_x.fr(), b.min_x.fr()),
        m.min_y.fr() == crate::frac::f_min(a.min_y.fr(), b.min_y.fr()),
        m.max_x.fr() == crate::frac::f_max(a.max_x.fr(), b.max_x.fr()),
        m.max_y.fr() == crate::frac::f_max(a.max_y.fr(), b.max_y.fr()),
        m.min_x.wf() && m.min_y.wf() && m.max_x.wf() && m.max_y.wf(),
    ensures
        m.wf(),
        crate::frac::f_le(m.min_x.fr(), a.min_x.fr()),
        crate::frac::f_le(a.max_x.fr(), m.max_x.fr()),
        crate::frac::f_le(m.min_y.fr(), a.min_y.fr()),
        crate::frac::f_le(a.max_y.fr(), m.max_y.fr()),
        crate::frac::f_le(m.min_x.fr(), b.min_x.fr()),
        crate::frac::f_le(b.max_x.fr(), m.max_x.fr()),
        crate::frac::f_le(m.min_y.fr(), b.min_y.fr()),
        crate::frac::f_le(b.max_y.fr(), m.max_y.fr()),
{
    crate::frac::lemma_f_le_trans(m.min_x.fr(), a.min_x.fr(), a.max_x.fr());
    crate::frac::lemma_f_le_trans(m.min_x.fr(), a.max_x.fr(), m.max_x.fr());
    crate::frac::lemma_f_le_trans(m.min_y.fr(), a.min_y.fr(), a.max_y.fr());
    crate::frac::lemma_f_le_trans(m.min_y.fr(), a.max_y.fr(), m.max_y.fr());
}

/// The exact composed transform of a frame: the layer's image transform
/// chain composed after the user placement chain.
pub open spec fn frame_matrix(image: GerberTransform, placement: GerberTransform) -> FMat {
    fm_compose(placement_chain(image), placement_chain(placement))
}

/// The checked composed matrix of a frame, as the executable code computes
/// it: both placements' checked matrices, composed and normalized.
pub open spec fn frame_matrix_checked(
    image: GerberTransform,
    placement: GerberTransform,
) -> Option<FMat> {
    match crate::transform::to_matrix_checked(placement) {
        Option::None => Option::None,
        Option::Some(mp) => match crate::transform::to_matrix_checked(image) {
            Option::None => Option::None,
            Option::Some(mi) => {
                let c = fm_norm(fm_compose(mi, mp));
                if fm_fits(c) {
                    Option::Some(c)
                } else {
                    Option::None
                }
            },
        },
    }
}

/// Whether a whole frame fits: the composed matrix and both of its column
/// lengths.
pub open spec fn frame_checked(image: GerberTransform, placement: GerberTransform) -> bool {
    match frame_matrix_checked(image, placement) {
        Option::None => false,
        Option::Some(c) => crate::geometry::col_sq_checked(
            crate::geometry::fm_a(c),
            crate::geometry::fm_c(c),
        ) is Some && crate::geometry::col_sq_checked(
            crate::geometry::fm_b(c),
            crate::geometry::fm_d(c),
        ) is Some,
    }
}

/// A matrix entrywise equal to the frame matrix sends every point where the
/// two documented placements send it: placement first, image transform
/// second.
pub proof fn lemma_frame_matrix_applies(
    image: GerberTransform,
    placement: GerberTransform,
    mv: FMat,
    p: FPoint,
)
    requires
        fm_ok(mv),
        fm_ok(placement_chain(image)),
        fm_ok(placement_chain(placement)),
        fm_entries_eq(mv, frame_matrix(image, placement)),
        fp_ok(p),
    ensures
        fp_eq(fm_apply(mv, p), placement_apply(image, placement_apply(placement, p))),
{
    lemma_compose_right_eq(placement_chain(image), placement_chain(placement), placement_chain(placement));
    lemma_apply_matrix_eq(mv, frame_matrix(image, placement), p);
    lemma_compose_apply(placement_chain(image), placement_chain(placement), p);
    crate::transform::lemma_placement_chain_applies(placement, p);
    let inner = fm_apply(placement_chain(placement), p);
    assert(fp_ok(inner)) by (nonlinear_arith)
        requires
            inner.den == placement_chain(placement).den * p.den,
            placement_chain(placement).den > 0,
            p.den > 0,
    ;
    crate::transform::lemma_placement_chain_applies(image, inner);
    crate::geometry::lemma_fp_eq_trans(
        fm_apply(mv, p),
        fm_apply(frame_matrix(image, placement), p),
        placement_apply(image, placement_apply(placement, p)),
    );
}

/// Whether the checked screen computations of the first `k` absolute
/// polygon vertices, and their screen mappings, all fit.
pub open spec fn poly_map_prefix_ok(
    pp: crate::primitive::PolygonGerberPrimitive,
    m: FMat,
    v: ViewState,
    k: int,
) -> bool
    decreases k,
{
    if k <= 0 {
        true
    } else {
        poly_map_prefix_ok(pp, m, v, k - 1) && (match crate::primitive::poly_vertex_chain(
            pp,
            k - 1,
        ) {
            Option::None => false,
            Option::Some(q) => crate::primitive::map_to_screen_checked(m, v, q) is Some,
        })
    }
}

/// Whether a polygon's whole checked screen computation fits: every absolute
/// vertex and its screen image.
pub open spec fn polygon_screen_checked(
    pp: crate::primitive::PolygonGerberPrimitive,
    m: FMat,
    v: ViewState,
) -> bool {
    &&& crate::primitive::poly_abs_prefix_ok(pp, pp.geometry.relative_vertices.len() as int)
    &&& poly_map_prefix_ok(pp, m, v, pp.geometry.relative_vertices.len() as int)
}

/// Over points that carry the polygon's checked vertex values, the two
/// mapping prefixes agree.
proof fn lemma_poly_map_prefix_eq(
    pp: crate::primitive::PolygonGerberPrimitive,
    m: FMat,
    v: ViewState,
    pts: Seq<Point>,
    k: int,
)
    requires
        forall|j: int|
            0 <= j < k ==> Some((#[trigger] pts[j]).vp()) == crate::primitive::poly_vertex_chain(
                pp,
                j,
            ),
    ensures
        map_prefix_ok(m, v, pts, k) == poly_map_prefix_ok(pp, m, v, k),
    decreases k,
{
    if k > 0 {
        lemma_poly_map_prefix_eq(pp, m, v, pts, k - 1);
    }
}

/// Whether the checked screen mappings of the first `k` points all fit.
pub open spec fn map_prefix_ok(m: FMat, v: ViewState, pts: Seq<Point>, k: int) -> bool
    decreases k,
{
    if k <= 0 {
        true
    } else {
        map_prefix_ok(m, v, pts, k - 1) && crate::primitive::map_to_screen_checked(
            m,
            v,
            pts[k - 1].vp(),
        ) is Some
    }
}

/// A prefix that fits contains every earlier point's fit.
proof fn lemma_map_prefix_ok(m: FMat, v: ViewState, pts: Seq<Point>, k: int, i: int)
    requires
        0 <= i < k,
        map_prefix_ok(m, v, pts, k),
    ensures
        crate::primitive::map_to_screen_checked(m, v, pts[i].vp()) is Some,
    decreases k,
{
    if i < k - 1 {
        lemma_map_prefix_ok(m, v, pts, k - 1, i);
    }
}

/// A point whose mapping fails makes the whole prefix fail.
proof fn lemma_map_point_fails(m: FMat, v: ViewState, pts: Seq<Point>, k: int, i: int)
    requires
        0 <= i < k,
        !(crate::primitive::map_to_screen_checked(m, v, pts[i].vp()) is Some),
    ensures
        !map_prefix_ok(m, v, pts, k),
{
    if map_prefix_ok(m, v, pts, k) {
        lemma_map_prefix_ok(m, v, pts, k, i);
    }
}

/// The draw operation's shape field is the right variant for the primitive's
/// kind and carries the values the per-shape geometry functions ensure;
/// `Skipped` appears exactly when the primitive's checked screen computation
/// does not fit (or a non-convex polygon has no tessellation).
pub open spec fn shape_matches(
    m: Mat,
    sx: Rat,
    sy: Rat,
    v: ViewState,
    eps: Rat,
    prim: GerberPrimitive,
    shape: ScreenShape,
) -> bool {
    match prim {
        GerberPrimitive::Circle(c) => match shape {
            ScreenShape::Circle { center, radius } => {
                &&& crate::primitive::circle_screen_checked(c, m.vm(), sx.fr(), v)
                &&& center.wf() && radius.wf()
                &&& f_eq(
                    crate::geometry::fp_x(center.vp()),
                    crate::primitive::screen_x_of(m.vm(), v, c.center.vp()),
                )
                &&& f_eq(
                    crate::geometry::fp_y(center.vp()),
                    crate::primitive::screen_y_of(m.vm(), v, c.center.vp()),
                )
                &&& f_eq(
                    radius.fr(),
                    crate::frac::f_mul(
                        crate::frac::f_mul(
                            crate::frac::f_mul(c.diameter.fr(), sx.fr()),
                            crate::frac::Frac { n: 1, d: 2 },
                        ),
                        v.scale.fr(),
                    ),
                )
            },
            ScreenShape::Skipped => !crate::primitive::circle_screen_checked(
                c,
                m.vm(),
                sx.fr(),
                v,
            ),
            _ => false,
        },
        GerberPrimitive::Rectangle(rp) => match shape {
            ScreenShape::AlignedRect { center, width, height } => {
                &&& crate::transform::axis_aligned_spec(m.vm(), eps.fr())
                &&& crate::primitive::rectangle_screen_checked(
                    rp,
                    m.vm(),
                    sx.fr(),
                    sy.fr(),
                    v,
                    eps.fr(),
                )
                &&& center.wf() && width.wf() && height.wf()
                &&& f_eq(
                    crate::geometry::fp_x(center.vp()),
                    crate::primitive::screen_x_of(m.vm(), v, crate::primitive::rect_center(rp)),
                )
                &&& f_eq(
                    crate::geometry::fp_y(center.vp()),
                    crate::primitive::screen_y_of(m.vm(), v, crate::primitive::rect_center(rp)),
                )
                &&& f_eq(
                    width.fr(),
                    crate::frac::f_mul(
                        crate::frac::f_mul(
                            if crate::transform::swaps_axes_spec(m.vm(), eps.fr()) {
                                rp.height.fr()
                            } else {
                                rp.width.fr()
                            },
                            sx.fr(),
                        ),
                        v.scale.fr(),
                    ),
                )
                &&& f_eq(
                    height.fr(),
                    crate::frac::f_mul(
                        crate::frac::f_mul(
                            if crate::transform::swaps_axes_spec(m.vm(), eps.fr()) {
                                rp.width.fr()
                            } else {
                                rp.height.fr()
                            },
                            sy.fr(),
                        ),
                        v.scale.fr(),
                    ),
                )
            },
            ScreenShape::Quad { corners } => {
                &&& !crate::transform::axis_aligned_spec(m.vm(), eps.fr())
                &&& crate::primitive::rectangle_screen_checked(
                    rp,
                    m.vm(),
                    sx.fr(),
                    sy.fr(),
                    v,
                    eps.fr(),
                )
                &&& corners.len() == 4
                &&& forall|j: int| 0 <= j < 4 ==> (#[trigger] corners@[j]).wf()
                &&& forall|j: int|
                    0 <= j < 4 ==> f_eq(
                        crate::geometry::fp_x((#[trigger] corners@[j]).vp()),
                        crate::primitive::screen_x_of(
                            m.vm(),
                            v,
                            crate::primitive::rect_corner(rp, j),
                        ),
                    ) && f_eq(
                        crate::geometry::fp_y(corners@[j].vp()),
                        crate::primitive::screen_y_of(
                            m.vm(),
                            v,
                            crate::primitive::rect_corner(rp, j),
                        ),
                    )
            },
            ScreenShape::Skipped => !crate::primitive::rectangle_screen_checked(
                rp,
                m.vm(),
                sx.fr(),
                sy.fr(),
                v,
                eps.fr(),
            ),
            _ => false,
        },
        GerberPrimitive::Line(l) => match shape {
            ScreenShape::Segment { start, end, stroke, cap_radius } => {
                &&& crate::primitive::line_screen_checked(l, m.vm(), v)
                &&& start.wf() && end.wf() && stroke.wf() && cap_radius.wf()
                &&& f_eq(
                    crate::geometry::fp_x(start.vp()),
                    crate::primitive::screen_x_of(m.vm(), v, l.start.vp()),
                )
                &&& f_eq(
                    crate::geometry::fp_y(start.vp()),
                    crate::primitive::screen_y_of(m.vm(), v, l.start.vp()),
                )
                &&& f_eq(
                    crate::geometry::fp_x(end.vp()),
                    crate::primitive::screen_x_of(m.vm(), v, l.end.vp()),
                )
                &&& f_eq(
                    crate::geometry::fp_y(end.vp()),
                    crate::primitive::screen_y_of(m.vm(), v, l.end.vp()),
                )
                &&& f_eq(stroke.fr(), crate::frac::f_mul(l.width.fr(), v.scale.fr()))
                &&& f_eq(
                    cap_radius.fr(),
                    crate::frac::f_mul(
                        crate::frac::f_mul(l.width.fr(), crate::frac::Frac { n: 1, d: 2 }),
                        v.scale.fr(),
                    ),
                )
            },
            ScreenShape::Skipped => !crate::primitive::line_screen_checked(l, m.vm(), v),
            _ => false,
        },
        GerberPrimitive::Arc(a) => match shape {
            ScreenShape::ArcPath { center, radius, angles, closed, stroke } => {
                &&& center == a.center
                &&& radius == a.radius
                &&& closed == crate::arc::full_circle_spec(a.start_angle.fr(), a.end_angle.fr())
                &&& crate::arc::arc_angles_checked(
                    a.start_angle.fr(),
                    a.end_angle.fr(),
                    a.direction,
                )
                &&& crate::geometry::f_checked(
                    crate::frac::f_mul(a.width.fr(), v.scale.fr()),
                ) is Some
                &&& angles.len() == crate::arc::arc_sample_count(
                    a.start_angle.fr(),
                    a.end_angle.fr(),
                )
                &&& forall|i: int| 0 <= i < angles.len() ==> (#[trigger] angles@[i]).wf()
                &&& forall|i: int|
                    0 <= i < angles.len() ==> f_eq(
                        (#[trigger] angles@[i]).fr(),
                        crate::frac::f_add(
                            a.start_angle.fr(),
                            crate::frac::f_mul(
                                crate::frac::f_int(i),
                                crate::arc::arc_step(
                                    a.start_angle.fr(),
                                    a.end_angle.fr(),
                                    a.direction,
                                ),
                            ),
                        ),
                    )
                &&& stroke.wf()
                &&& f_eq(stroke.fr(), crate::frac::f_mul(a.width.fr(), v.scale.fr()))
            },
            ScreenShape::Skipped => !(crate::arc::arc_angles_checked(
                a.start_angle.fr(),
                a.end_angle.fr(),
                a.direction,
            ) && crate::geometry::f_checked(
                crate::frac::f_mul(a.width.fr(), v.scale.fr()),
            ) is Some),
            _ => false,
        },
        GerberPrimitive::Polygon(pp) => match shape {
            ScreenShape::ConvexPolygon { vertices } => {
                &&& pp.geometry.is_convex
                &&& polygon_screen_checked(pp, m.vm(), v)
                &&& vertices.len() == pp.geometry.relative_vertices.len()
                &&& forall|j: int| 0 <= j < vertices.len() ==> (#[trigger] vertices@[j]).wf()
                &&& forall|j: int|
                    0 <= j < vertices.len() ==> f_eq(
                        crate::geometry::fp_x((#[trigger] vertices@[j]).vp()),
                        crate::primitive::screen_x_of(
                            m.vm(),
                            v,
                            crate::primitive::poly_vertex_abs(pp, j),
                        ),
                    ) && f_eq(
                        crate::geometry::fp_y(vertices@[j].vp()),
                        crate::primitive::screen_y_of(
                            m.vm(),
                            v,
                            crate::primitive::poly_vertex_abs(pp, j),
                        ),
                    )
            },
            ScreenShape::Mesh { vertices, indices } => {
                &&& !pp.geometry.is_convex
                &&& pp.geometry.tessellation is Some
                &&& indices@ == pp.geometry.tessellation->Some_0.indices@
                &&& polygon_screen_checked(pp, m.vm(), v)
                &&& vertices.len() == pp.geometry.relative_vertices.len()
                &&& forall|j: int| 0 <= j < vertices.len() ==> (#[trigger] vertices@[j]).wf()
                &&& forall|j: int|
                    0 <= j < vertices.len() ==> f_eq(
                        crate::geometry::fp_x((#[trigger] vertices@[j]).vp()),
                        crate::primitive::screen_x_of(
                            m.vm(),
                            v,
                            crate::primitive::poly_vertex_abs(pp, j),
                        ),
                    ) && f_eq(
                        crate::geometry::fp_y(vertices@[j].vp()),
                        crate::primitive::screen_y_of(
                            m.vm(),
                            v,
                            crate::primitive::poly_vertex_abs(pp, j),
                        ),
                    )
            },
            ScreenShape::Skipped => !(polygon_screen_checked(pp, m.vm(), v) && (
            pp.geometry.is_convex || pp.geometry.tessellation is Some)),
            _ => false,
        },
    }
}

impl GerberRenderer {
    pub open spec fn wf(self) -> bool {
        &&& self.view.wf()
        &&& self.transform_matrix.wf()
        &&& self.transform_scaling.0.wf()
        &&& self.transform_scaling.1.wf()
    }

    pub open spec fn view_spec(self) -> ViewState {
        self.view
    }

    pub open spec fn matrix_spec(self) -> Mat {
        self.transform_matrix
    }

    pub open spec fn configuration_spec(self) -> RenderConfiguration {
        self.configuration
    }

    /// Compose the layer's image transform with the user placement into one
    /// matrix and cache its per-axis scale factors (extracting them is the
    /// expensive part, so it happens once per frame, not once per shape).
    /// `None` when a transform or the composition does not fit the
    /// representation.
    pub fn new(
        configuration: &RenderConfiguration,
        view: ViewState,
        transform: &GerberTransform,
        layer: &GerberLayer,
    ) -> (r: Option<GerberRenderer>)
        requires
            view.wf(),
            transform.wf(),
            layer.wf(),
        ensures
            (r is Some) == frame_checked(layer.image_transform(), *transform),
            r matches Some(g) ==> {
                &&& g.wf()
                &&& g.view_spec() == view
                &&& g.configuration_spec() == *configuration
                &&& Some(g.matrix_spec().vm()) == frame_matrix_checked(
                    layer.image_transform(),
                    *transform,
                )
                &&& fm_ok(placement_chain(layer.image_transform()))
                &&& fm_ok(placement_chain(*transform))
                &&& fm_entries_eq(
                    g.matrix_spec().vm(),
                    frame_matrix(layer.image_transform(), *transform),
                )
                &&& crate::geometry::sqrt_brackets(
                    g.scaling_spec().0.fr(),
                    crate::geometry::col_x_sq(g.matrix_spec().vm()),
                )
                &&& crate::geometry::sqrt_brackets(
                    g.scaling_spec().1.fr(),
                    crate::geometry::col_y_sq(g.matrix_spec().vm()),
                )
            },
    {
        let image_t = layer.image_transform_value();
        let place_m = match transform.to_matrix() {
            Some(m) => m,
            None => {
                return None;
            },
        };
        let image_m = match image_t.to_matrix() {
            Some(m) => m,
            None => {
                return None;
            },
        };
        let composed = match image_m.compose(&place_m) {
            Some(m) => m,
            None => {
                return None;
            },
        };
        let scaling = match composed.get_scaling_factors() {
            Some(s) => s,
            None => {
                return None;
            },
        };
        proof {
            let ci = placement_chain(layer.image_transform());
            let cp = placement_chain(*transform);
            let raw = fm_compose(image_m.vm(), place_m.vm());
            assert(fm_ok(raw)) by (nonlinear_arith)
                requires
                    raw.den == image_m.vm().den * place_m.vm().den,
                    image_m.vm().den > 0,
                    place_m.vm().den > 0,
            ;
            lemma_fm_norm(raw);
            lemma_compose_right_eq(image_m.vm(), place_m.vm(), cp);
            lemma_compose_left_eq(image_m.vm(), ci, cp);
            lemma_fm_entries_eq_trans(composed.vm(), raw, fm_compose(image_m.vm(), cp));
            lemma_fm_entries_eq_trans(
                composed.vm(),
                fm_compose(image_m.vm(), cp),
                fm_compose(ci, cp),
            );
        }
        Some(
            GerberRenderer {
                configuration: RenderConfiguration {
                    use_unique_shape_colors: configuration.use_unique_shape_colors,
                    use_shape_numbering: configuration.use_shape_numbering,
                    use_vertex_numbering: configuration.use_vertex_numbering,
                    use_shape_bboxes: configuration.use_shape_bboxes,
                },
                view,
                transform_matrix: composed,
                transform_scaling: scaling,
            },
        )
    }

    pub open spec fn scaling_spec(self) -> (Rat, Rat) {
        self.transform_scaling
    }

    /// Converts shape-space coordinates to screen coordinates through the
    /// composed matrix and the view, negating y exactly once.
    pub fn gerber_to_screen_coordinates(&self, position: Point) -> (r: Option<Point>)
        requires
            self.wf(),
            position.wf(),
        ensures
            (r is Some) == (crate::primitive::map_to_screen_checked(
                self.transform_matrix.vm(),
                self.view,
                position.vp(),
            ) is Some),
            r matches Some(q) ==> {
                &&& q.wf()
                &&& f_eq(
                    crate::geometry::fp_x(q.vp()),
                    crate::primitive::screen_x_of(
                        self.matrix_spec().vm(),
                        self.view_spec(),
                        position.vp(),
                    ),
                )
                &&& f_eq(
                    crate::geometry::fp_y(q.vp()),
                    crate::primitive::screen_y_of(
                        self.matrix_spec().vm(),
                        self.view_spec(),
                        position.vp(),
                    ),
                )
            },
    {
        map_to_screen(&self.transform_matrix, &self.view, position)
    }

    /// The draw plan of one frame: one operation per primitive, in draw
    /// order. Each operation carries the primitive's index, exposure, the
    /// color choice and shape-number label the configuration asks for, and
    /// the screen geometry computed by the per-shape functions; a primitive
    /// whose geometry does not fit the representation degrades to a skip.
    pub fn paint_layer(&self, layer: &GerberLayer, eps: Rat) -> (r: Vec<DrawOp>)
        requires
            self.wf(),
            layer.wf(),
            eps.wf(),
        ensures
            r.len() == layer.primitives_spec().len(),
            forall|k: int|
                0 <= k < r.len() ==> {
                    &&& (#[trigger] r@[k]).shape_index == k
                    &&& r@[k].exposure == layer.primitives_spec()[k].exposure_spec()
                    &&& r@[k].color == (if self.configuration_spec().use_unique_shape_colors {
                        PaintColor::Unique(k as usize)
                    } else {
                        PaintColor::Base
                    })
                    &&& r@[k].shape_number == (if self.configuration_spec().use_shape_numbering {
                        Some(k as usize)
                    } else {
                        None::<usize>
                    })
                    &&& shape_matches(
                        self.matrix_spec(),
                        self.scaling_spec().0,
                        self.scaling_spec().1,
                        self.view_spec(),
                        eps,
                        layer.primitives_spec()[k],
                        r@[k].shape,
                    )
                    &&& (!self.configuration_spec().use_shape_bboxes ==> r@[k].bbox_outline
                        is None)
                    &&& (r@[k].bbox_outline matches Some(o) ==> o.len() == 4 && forall|j: int|
                        0 <= j < o.len() ==> (#[trigger] o@[j]).wf())
                    &&& r@[k].label_vertices == (
                    self.configuration_spec().use_vertex_numbering
                        && layer.primitives_spec()[k] is Polygon)
                },
    {
        let prims = layer.primitives();
        let n = prims.len();
        let mut ops: Vec<DrawOp> = Vec::new();
        let mut k: usize = 0;
        while k < n
            invariant
                n == prims.len(),
                prims@ == layer.primitives_spec(),
                0 <= k <= n,
                ops.len() == k,
                self.wf(),
                eps.wf(),
                forall|i: int| 0 <= i < prims.len() ==> (#[trigger] prims@[i]).wf(),
                forall|i: int|
                    0 <= i < k ==> {
                        &&& (#[trigger] ops@[i]).shape_index == i
                        &&& ops@[i].exposure == prims@[i].exposure_spec()
                        &&& ops@[i].color == (if self.configuration_spec().use_unique_shape_colors {
                            PaintColor::Unique(i as usize)
                        } else {
                            PaintColor::Base
                        })
                        &&& ops@[i].shape_number == (if self.configuration_spec().use_shape_numbering {
                            Some(i as usize)
                        } else {
                            None::<usize>
                        })
                        &&& shape_matches(
                            self.matrix_spec(),
                            self.scaling_spec().0,
                            self.scaling_spec().1,
                            self.view_spec(),
                            eps,
                            prims@[i],
                            ops@[i].shape,
                        )
                        &&& (!self.configuration_spec().use_shape_bboxes ==> ops@[i].bbox_outline
                            is None)
                        &&& (ops@[i].bbox_outline matches Some(o) ==> o.len() == 4 && forall|j: int|
                            0 <= j < o.len() ==> (#[trigger] o@[j]).wf())
                        &&& ops@[i].label_vertices == (
                        self.configuration_spec().use_vertex_numbering && prims@[i] is Polygon)
                    },
            decreases n - k,
        {
            let prim = &prims[k];
            let exposure = prim.exposure();
            let color = if self.configuration.use_unique_shape_colors {
                PaintColor::Unique(k)
            } else {
                PaintColor::Base
            };
            let shape_number = if self.configuration.use_shape_numbering {
                Some(k)
            } else {
                None
            };
            let shape = self.shape_of(prim, eps);
            let bbox_outline = if self.configuration.use_shape_bboxes {
                self.bbox_outline_of(prim)
            } else {
                None
            };
            let label_vertices = self.configuration.use_vertex_numbering && match prim {
                GerberPrimitive::Polygon(_) => true,
                _ => false,
            };
            let op = DrawOp {
                shape_index: k,
                exposure,
                color,
                shape_number,
                shape,
                bbox_outline,
                label_vertices,
            };
            ops.push(op);
            k = k + 1;
        }
        ops
    }

    /// The screen geometry of one primitive, by its kind: the variant
    /// matches the primitive and carries the ensured per-shape values, with
    /// `Skipped` exactly when the checked computation does not fit.
    fn shape_of(&self, prim: &GerberPrimitive, eps: Rat) -> (r: ScreenShape)
        requires
            self.wf(),
            prim.wf(),
            eps.wf(),
        ensures
            shape_matches(
                self.matrix_spec(),
                self.scaling_spec().0,
                self.scaling_spec().1,
                self.view_spec(),
                eps,
                *prim,
                r,
            ),
    {
        match prim {
            GerberPrimitive::Circle(c) => {
                match circle_screen_geometry(
                    c,
                    &self.transform_matrix,
                    self.transform_scaling.0,
                    &self.view,
                ) {
                    Some((center, radius)) => ScreenShape::Circle { center, radius },
                    None => ScreenShape::Skipped,
                }
            },
            GerberPrimitive::Rectangle(rect) => {
                match rectangle_screen_geometry(
                    rect,
                    &self.transform_matrix,
                    self.transform_scaling.0,
                    self.transform_scaling.1,
                    &self.view,
                    eps,
                ) {
                    Some(RectangleScreenGeometry::Aligned { center, width, height, swapped: _ }) =>
                        ScreenShape::AlignedRect { center, width, height },
                    Some(RectangleScreenGeometry::Rotated { corners }) => ScreenShape::Quad {
                        corners,
                    },
                    None => ScreenShape::Skipped,
                }
            },
            GerberPrimitive::Line(line) => {
                match line_screen_geometry(line, &self.transform_matrix, &self.view) {
                    Some((start, end, stroke, cap_radius)) => ScreenShape::Segment {
                        start,
                        end,
                        stroke,
                        cap_radius,
                    },
                    None => ScreenShape::Skipped,
                }
            },
            GerberPrimitive::Arc(arc) => {
                let closed = is_full_circle(arc.start_angle, arc.end_angle);
                let angles = match arc_angles(arc.start_angle, arc.end_angle, arc.direction) {
                    Some(a) => a,
                    None => {
                        return ScreenShape::Skipped;
                    },
                };
                let stroke = match arc.width.times(self.view.scale) {
                    Some(s) => s,
                    None => {
                        return ScreenShape::Skipped;
                    },
                };
                ScreenShape::ArcPath {
                    center: arc.center,
                    radius: arc.radius,
                    angles,
                    closed,
                    stroke,
                }
            },
            GerberPrimitive::Polygon(poly) => {
                let ghost n_ring = poly.geometry.relative_vertices.len() as int;
                let abs = match polygon_absolute_vertices(poly) {
                    Some(v) => v,
                    None => {
                        return ScreenShape::Skipped;
                    },
                };
                let screen = match self.map_all(&abs) {
                    Some(v) => v,
                    None => {
                        proof {
                            lemma_poly_map_prefix_eq(
                                *poly,
                                self.transform_matrix.vm(),
                                self.view,
                                abs@,
                                n_ring,
                            );
                        }
                        return ScreenShape::Skipped;
                    },
                };
                proof {
                    lemma_poly_map_prefix_eq(
                        *poly,
                        self.transform_matrix.vm(),
                        self.view,
                        abs@,
                        n_ring,
                    );
                    // The mapped vertices land where the exact absolute
                    // vertices land.
                    assert forall|j: int| 0 <= j < screen.len() implies f_eq(
                        crate::geometry::fp_x((#[trigger] screen@[j]).vp()),
                        crate::primitive::screen_x_of(
                            self.transform_matrix.vm(),
                            self.view,
                            crate::primitive::poly_vertex_abs(*poly, j),
                        ),
                    ) && f_eq(
                        crate::geometry::fp_y(screen@[j].vp()),
                        crate::primitive::screen_y_of(
                            self.transform_matrix.vm(),
                            self.view,
                            crate::primitive::poly_vertex_abs(*poly, j),
                        ),
                    ) by {
                        crate::primitive::lemma_screen_of_point_congr(
                            self.transform_matrix.vm(),
                            self.view,
                            abs@[j].vp(),
                            crate::primitive::poly_vertex_abs(*poly, j),
                        );
                        crate::frac::lemma_f_eq_trans(
                            crate::geometry::fp_x(screen@[j].vp()),
                            crate::primitive::screen_x_of(
                                self.transform_matrix.vm(),
                                self.view,
                                abs@[j].vp(),
                            ),
                            crate::primitive::screen_x_of(
                                self.transform_matrix.vm(),
                                self.view,
                                crate::primitive::poly_vertex_abs(*poly, j),
                            ),
                        );
                        crate::frac::lemma_f_eq_trans(
                            crate::geometry::fp_y(screen@[j].vp()),
                            crate::primitive::screen_y_of(
                                self.transform_matrix.vm(),
                                self.view,
                                abs@[j].vp(),
                            ),
                            crate::primitive::screen_y_of(
                                self.transform_matrix.vm(),
                                self.view,
                                crate::primitive::poly_vertex_abs(*poly, j),
                            ),
                        );
                    }
                }
                if poly.geometry.is_convex {
                    ScreenShape::ConvexPolygon { vertices: screen }
                } else {
                    match &poly.geometry.tessellation {
                        Some(t) => {
                            let indices = copy_indices(&t.indices);
                            ScreenShape::Mesh { vertices: screen, indices }
                        },
                        None => ScreenShape::Skipped,
                    }
                }
            },
        }
    }

    /// The screen corners of a primitive's own bounding box, for the
    /// per-shape box overlay; `None` when the box or a corner's screen image
    /// does not fit the representation.
    fn bbox_outline_of(&self, prim: &GerberPrimitive) -> (r: Option<Vec<Point>>)
        requires
            self.wf(),
            prim.wf(),
        ensures
            r matches Some(v) ==> v.len() == 4 && forall|j: int|
                0 <= j < v.len() ==> (#[trigger] v@[j]).wf(),
    {
        let b = match prim.bounding_box() {
            Some(b) => b,
            None => {
                return None;
            },
        };
        proof {
            lemma_fp_of_coords(b.min_x.fr(), b.min_y.fr());
            lemma_fp_of_coords(b.min_x.fr(), b.max_y.fr());
            lemma_fp_of_coords(b.max_x.fr(), b.max_y.fr());
            lemma_fp_of_coords(b.max_x.fr(), b.min_y.fr());
        }
        let c0 = match crate::primitive::corner_to_screen(
            &self.transform_matrix,
            &self.view,
            b.min_x,
            b.min_y,
            Ghost(crate::bbox::fp_of(b.min_x.fr(), b.min_y.fr())),
        ) {
            Some(p) => p,
            None => {
                return None;
            },
        };
        let c1 = match crate::primitive::corner_to_screen(
            &self.transform_matrix,
            &self.view,
            b.min_x,
            b.max_y,
            Ghost(crate::bbox::fp_of(b.min_x.fr(), b.max_y.fr())),
        ) {
            Some(p) => p,
            None => {
                return None;
            },
        };
        let c2 = match crate::primitive::corner_to_screen(
            &self.transform_matrix,
            &self.view,
            b.max_x,
            b.max_y,
            Ghost(crate::bbox::fp_of(b.max_x.fr(), b.max_y.fr())),
        ) {
            Some(p) => p,
            None => {
                return None;
            },
        };
        let c3 = match crate::primitive::corner_to_screen(
            &self.transform_matrix,
            &self.view,
            b.max_x,
            b.min_y,
            Ghost(crate::bbox::fp_of(b.max_x.fr(), b.min_y.fr())),
        ) {
            Some(p) => p,
            None => {
                return None;
            },
        };
        let v = vec![c0, c1, c2, c3];
        proof {
            assert(v@[0] == c0 && v@[1] == c1 && v@[2] == c2 && v@[3] == c3);
        }
        Some(v)
    }

    /// Map a list of shape-space points to the screen; `None` when any of
    /// them does not fit.
    fn map_all(&self, points: &Vec<Point>) -> (r: Option<Vec<Point>>)
        requires
            self.wf(),
            forall|i: int| 0 <= i < points.len() ==> (#[trigger] points@[i]).wf(),
        ensures
            (r is Some) == map_prefix_ok(
                self.matrix_spec().vm(),
                self.view_spec(),
                points@,
                points.len() as int,
            ),
            r matches Some(v) ==> {
                &&& v.len() == points.len()
                &&& forall|i: int| 0 <= i < v.len() ==> (#[trigger] v@[i]).wf()
                &&& forall|i: int|
                    0 <= i < v.len() ==> f_eq(
                        crate::geometry::fp_x((#[trigger] v@[i]).vp()),
                        crate::primitive::screen_x_of(
                            self.matrix_spec().vm(),
                            self.view_spec(),
                            points@[i].vp(),
                        ),
                    ) && f_eq(
                        crate::geometry::fp_y(v@[i].vp()),
                        crate::primitive::screen_y_of(
                            self.matrix_spec().vm(),
                            self.view_spec(),
                            points@[i].vp(),
                        ),
                    )
            },
    {
        let n = points.len();
        let mut out: Vec<Point> = Vec::new();
        let mut i: usize = 0;
        while i < n
            invariant
                n == points.len(),
                0 <= i <= n,
                out.len() == i,
                self.wf(),
                map_prefix_ok(self.matrix_spec().vm(), self.view_spec(), points@, i as int),
                forall|j: int| 0 <= j < points.len() ==> (#[trigger] points@[j]).wf(),
                forall|j: int| 0 <= j < i ==> (#[trigger] out@[j]).wf(),
                forall|j: int|
                    0 <= j < i ==> f_eq(
                        crate::geometry::fp_x((#[trigger] out@[j]).vp()),
                        crate::primitive::screen_x_of(
                            self.matrix_spec().vm(),
                            self.view_spec(),
                            points@[j].vp(),
                        ),
                    ) && f_eq(
                        crate::geometry::fp_y(out@[j].vp()),
                        crate::primitive::screen_y_of(
                            self.matrix_spec().vm(),
                            self.view_spec(),
                            points@[j].vp(),
                        ),
                    ),
            decreases n - i,
        {
            let q = match map_to_screen(&self.transform_matrix, &self.view, points[i]) {
                Some(q) => q,
                None => {
                    proof {
                        lemma_map_point_fails(
                            self.matrix_spec().vm(),
                            self.view_spec(),
                            points@,
                            points.len() as int,
                            i as int,
                        );
                    }
                    return None;
                },
            };
            out.push(q);
            i = i + 1;
        }
        Some(out)
    }
}

} // verus!
