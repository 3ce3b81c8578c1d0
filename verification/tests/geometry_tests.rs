use gerber_viewer::arc::{arc_angles, is_full_circle, segment_count, ArcDirection};
use gerber_viewer::bbox::BoundingBox;
use gerber_viewer::geometry::Point;
use gerber_viewer::polygon::{is_convex_ring, tessellate_ring, IPoint};
use gerber_viewer::primitive::{
    circle_screen_geometry, CircleGerberPrimitive, Exposure, GerberPrimitive, PolygonGeometry,
    PolygonGerberPrimitive, RectangleGerberPrimitive,
};
use gerber_viewer::rat::Rat;
use gerber_viewer::renderer::{
    GerberLayer, GerberRenderer, PaintColor, RenderConfiguration, ScreenShape,
};
use gerber_viewer::transform::{GerberTransform, Mirroring};
use gerber_viewer::view::ViewState;

fn rat(n: i64, d: i64) -> Rat {
    Rat::new(n, d).unwrap()
}

fn whole(n: i64) -> Rat {
    Rat::from_int(n)
}

fn assert_rat_eq(a: Rat, b: Rat) {
    assert!(a.eqv(b), "expected {:?} == {:?}", a, b);
}

#[test]
fn rat_addition_is_exact() {
    let a = rat(1, 3);
    let b = rat(1, 6);
    let sum = a.plus(b).unwrap();
    assert_rat_eq(sum, rat(1, 2));
    assert_eq!(sum.num(), 1);
    assert_eq!(sum.den(), 2);
}

#[test]
fn rat_normalizes_by_gcd() {
    let q = rat(2, 4);
    assert_eq!(q.num(), 1);
    assert_eq!(q.den(), 2);
    let p = rat(-10, 15);
    assert_eq!(p.num(), -2);
    assert_eq!(p.den(), 3);
}

#[test]
fn rat_multiplication_and_division() {
    let a = rat(3, 4);
    let b = rat(2, 3);
    assert_rat_eq(a.times(b).unwrap(), rat(1, 2));
    assert_rat_eq(a.over(b).unwrap(), rat(9, 8));
    assert_rat_eq(a.over(rat(-1, 2)).unwrap(), rat(-3, 2));
}

#[test]
fn rat_overflow_reports_none() {
    let big = whole(4611686018427387904);
    assert!(big.times(big).is_none());
    assert!(big.plus(whole(1)).is_none());
    assert!(big.minus(whole(1)).is_some());
}

#[test]
fn rat_sqrt_floor_brackets() {
    // The root comes out over the fixed denominator 32768, within 2/32768
    // below the true square root: sqrt(1.99) = 1.41067..., floor at that
    // precision is 46224/32768 = 1.41064...
    let two = rat(199, 100);
    let r = two.sqrt_floor();
    assert_eq!(r.den(), 32768);
    assert_eq!(r.num(), 46224);
    // r^2 <= s < (r + 2/32768)^2.
    assert!(r.times(r).unwrap().le(two));
    let up = rat(46226, 32768);
    assert!(two.lt(up.times(up).unwrap()));
    // A perfect square is exact.
    let nine = whole(9);
    let r3 = nine.sqrt_floor();
    assert_rat_eq(r3, whole(3));
    // A unit shear's column length: sqrt(2) within the documented error.
    let r2 = whole(2).sqrt_floor();
    let err = rat(1414213562, 1000000000).minus(r2).unwrap().abs();
    assert!(err.le(rat(2, 32768)));
}

#[test]
fn identity_transform_keeps_points() {
    let t = GerberTransform::default();
    let m = t.to_matrix().unwrap();
    let p = Point::from_ints(7, -3);
    let q = m.apply(p).unwrap();
    assert!(q.eqv(p));
}

#[test]
fn quarter_turn_is_axis_aligned_and_swaps_axes() {
    // 90 degrees: cosine 0, sine 1.
    let t = GerberTransform {
        rotation_cos: whole(0),
        rotation_sin: whole(1),
        mirroring: Mirroring::default(),
        origin: Point::from_ints(0, 0),
        offset: Point::from_ints(0, 0),
        scale: whole(1),
    };
    let m = t.to_matrix().unwrap();
    let eps = rat(1, 10000);
    assert!(m.is_axis_aligned(eps));
    assert!(m.is_90_or_270_rotation(eps));
    // 180 degrees: cosine -1, sine 0: aligned, but no axis swap.
    let t2 = GerberTransform { rotation_cos: whole(-1), rotation_sin: whole(0), ..t };
    let m2 = t2.to_matrix().unwrap();
    assert!(m2.is_axis_aligned(eps));
    assert!(!m2.is_90_or_270_rotation(eps));
    // 45 degrees (approximately): neither.
    let t3 = GerberTransform { rotation_cos: rat(408, 577), rotation_sin: rat(408, 577), ..t };
    let m3 = t3.to_matrix().unwrap();
    assert!(!m3.is_axis_aligned(eps));
    assert!(!m3.is_90_or_270_rotation(eps));
}

#[test]
fn rotation_round_trip_returns_points() {
    // cosine 3/5, sine 4/5 lies exactly on the unit circle.
    let origin = Point::new(rat(15, 1), rat(20, 1)).unwrap();
    let forward = GerberTransform {
        rotation_cos: rat(3, 5),
        rotation_sin: rat(4, 5),
        mirroring: Mirroring::default(),
        origin,
        offset: Point::from_ints(0, 0),
        scale: whole(1),
    };
    let back = GerberTransform { rotation_sin: rat(-4, 5), ..forward };
    let mf = forward.to_matrix().unwrap();
    let mb = back.to_matrix().unwrap();
    let p = Point::from_ints(7, 11);
    let once = mf.apply(p).unwrap();
    let twice = mb.apply(once).unwrap();
    assert!(twice.eqv(p));
    assert!(!once.eqv(p));
}

#[test]
fn mirroring_flips_coordinates() {
    let t = GerberTransform {
        rotation_cos: whole(1),
        rotation_sin: whole(0),
        mirroring: Mirroring { x: true, y: false },
        origin: Point::from_ints(0, 0),
        offset: Point::from_ints(0, 0),
        scale: whole(1),
    };
    let m = t.to_matrix().unwrap();
    let q = m.apply(Point::from_ints(4, 9)).unwrap();
    assert!(q.eqv(Point::from_ints(-4, 9)));
}

#[test]
fn placement_applies_offset_and_scale_in_order() {
    // Scale 2 applies after the offset: (1,0) + offset (10,0), then * 2.
    let t = GerberTransform {
        rotation_cos: whole(1),
        rotation_sin: whole(0),
        mirroring: Mirroring::default(),
        origin: Point::from_ints(0, 0),
        offset: Point::from_ints(10, 0),
        scale: whole(2),
    };
    let m = t.to_matrix().unwrap();
    let q = m.apply(Point::from_ints(1, 0)).unwrap();
    assert!(q.eqv(Point::from_ints(22, 0)));
}

#[test]
fn bounding_box_from_points_is_tight() {
    let pts = vec![
        Point::from_ints(1, 5),
        Point::from_ints(-3, 2),
        Point::from_ints(4, -7),
    ];
    let b = BoundingBox::from_points(&pts);
    assert_rat_eq(b.min_x, whole(-3));
    assert_rat_eq(b.max_x, whole(4));
    assert_rat_eq(b.min_y, whole(-7));
    assert_rat_eq(b.max_y, whole(5));
}

#[test]
fn bounding_box_of_empty_point_set_is_degenerate() {
    let b = BoundingBox::from_points(&Vec::new());
    assert_rat_eq(b.min_x, whole(0));
    assert_rat_eq(b.max_x, whole(0));
    assert_rat_eq(b.min_y, whole(0));
    assert_rat_eq(b.max_y, whole(0));
}

#[test]
fn bounding_box_vertices_run_clockwise_from_bottom_left() {
    let b = BoundingBox { min_x: whole(1), min_y: whole(2), max_x: whole(3), max_y: whole(4) };
    let v = b.vertices().unwrap();
    assert_eq!(v.len(), 4);
    assert!(v[0].eqv(Point::from_ints(1, 2)));
    assert!(v[1].eqv(Point::from_ints(1, 4)));
    assert!(v[2].eqv(Point::from_ints(3, 4)));
    assert!(v[3].eqv(Point::from_ints(3, 2)));
}

#[test]
fn transformed_box_of_rotated_square_grows_to_half_diagonal() {
    // A unit square centered at the origin under a rotation by 45 degrees
    // (cosine = sine = 408/577, within 4e-6 of the unit circle): the box
    // half-extent must be the square's half-diagonal, sqrt(2)/2 = 0.7071...
    let h = rat(1, 2);
    let b = BoundingBox { min_x: h.neg(), min_y: h.neg(), max_x: h, max_y: h };
    let t = GerberTransform {
        rotation_cos: rat(408, 577),
        rotation_sin: rat(408, 577),
        mirroring: Mirroring::default(),
        origin: Point::from_ints(0, 0),
        offset: Point::from_ints(0, 0),
        scale: whole(1),
    };
    let m = t.to_matrix().unwrap();
    let rb = b.apply_transform_matrix(&m).unwrap();
    // Half-diagonal squared of the unit square is 1/2; the box half-extent
    // squared must match it to within the rotation pair's approximation.
    let e = rb.max_x;
    let e2 = e.times(e).unwrap();
    let err = e2.minus(rat(1, 2)).unwrap();
    // The error is exactly 2 h^2 times the pair's unit-circle defect:
    // 2 (408/577)^2 - 1 == -1/332929, scaled by 2 h^2 == 1/2.
    assert_rat_eq(err, rat(-1, 665858));
    assert!(err.abs().le(rat(1, 100000)), "error too large: {:?}", err);
    // And the box is square and symmetric.
    assert_rat_eq(rb.max_x, rb.max_y);
    assert_rat_eq(rb.min_x, e.neg());
}

#[test]
fn full_circle_arc_is_closed_with_enough_segments() {
    // Two pi as the same rational the library uses: 710/113.
    let start = whole(0);
    let end = rat(710, 113);
    assert!(is_full_circle(start, end));
    let n = segment_count(start, end);
    assert_eq!(n, 64);
    assert!(n >= 16);
    let angles = arc_angles(start, end, ArcDirection::CounterClockwise).unwrap();
    // A full circle closes via its flag: 64 samples, no duplicated seam
    // point at the end angle.
    assert_eq!(angles.len(), 64);
    assert_rat_eq(angles[0], whole(0));
    assert!(!angles[63].eqv(end));
}

#[test]
fn quarter_arc_gets_fewer_segments_than_half_arc() {
    let start = whole(0);
    let quarter = rat(355, 226);
    let half = rat(355, 113);
    assert!(!is_full_circle(start, quarter));
    let nq = segment_count(start, quarter);
    let nh = segment_count(start, half);
    assert_eq!(nq, 16);
    assert_eq!(nh, 32);
    assert!(nq <= nh);
}

#[test]
fn arc_angles_step_clockwise_downward() {
    let start = whole(0);
    let end = rat(355, 113);
    let angles = arc_angles(start, end, ArcDirection::Clockwise).unwrap();
    assert_eq!(angles.len(), 33);
    assert_rat_eq(angles[0], whole(0));
    // The last sample is the start minus the sweep.
    assert_rat_eq(angles[32], rat(-355, 113));
}

#[test]
fn convex_hexagon_is_classified_convex_without_tessellation() {
    let hexagon = vec![
        IPoint { x: 4, y: 0 },
        IPoint { x: 2, y: 3 },
        IPoint { x: -2, y: 3 },
        IPoint { x: -4, y: 0 },
        IPoint { x: -2, y: -3 },
        IPoint { x: 2, y: -3 },
    ];
    assert!(is_convex_ring(&hexagon));
    let g = PolygonGeometry::new(hexagon);
    assert!(g.is_convex);
    assert!(g.tessellation.is_none());
}

#[test]
fn star_ring_is_tessellated_into_vertex_count_minus_two_triangles() {
    let star = vec![
        IPoint { x: 0, y: 8 },
        IPoint { x: 2, y: 2 },
        IPoint { x: 8, y: 2 },
        IPoint { x: 3, y: -1 },
        IPoint { x: 5, y: -7 },
        IPoint { x: 0, y: -3 },
        IPoint { x: -5, y: -7 },
        IPoint { x: -3, y: -1 },
        IPoint { x: -8, y: 2 },
        IPoint { x: -2, y: 2 },
    ];
    assert!(!is_convex_ring(&star));
    let t = tessellate_ring(&star).unwrap();
    assert_eq!(t.indices.len(), 3 * (star.len() - 2));
    assert!(t.indices.iter().all(|&i| i < star.len()));
    let g = PolygonGeometry::new(star);
    assert!(!g.is_convex);
    assert!(g.tessellation.is_some());
}

#[test]
fn degenerate_collinear_ring_is_not_convex() {
    let line = vec![
        IPoint { x: 0, y: 0 },
        IPoint { x: 1, y: 0 },
        IPoint { x: 2, y: 0 },
    ];
    assert!(!is_convex_ring(&line));
}

#[test]
fn fit_view_frames_box_at_half_zoom() {
    let viewport = BoundingBox {
        min_x: whole(0),
        min_y: whole(0),
        max_x: whole(1000),
        max_y: whole(1000),
    };
    let target = BoundingBox { min_x: whole(0), min_y: whole(0), max_x: whole(100), max_y: whole(100) };
    let mut view = ViewState::new_identity();
    assert!(view.fit_view(&viewport, &target, rat(1, 2)));
    // 0.5 * (1000 / 100) = 5: the box occupies 500 of 1000 pixels.
    assert_rat_eq(view.scale, whole(5));
    // The box center (50, 50) lands on the viewport center (500, 500).
    let center = Point::from_ints(50, 50);
    let mapped = view.gerber_to_screen_coords(center).unwrap();
    assert!(mapped.eqv(Point::from_ints(500, 500)));
}

#[test]
fn fit_view_of_degenerate_box_defaults_to_scale_one() {
    let viewport = BoundingBox {
        min_x: whole(0),
        min_y: whole(0),
        max_x: whole(1000),
        max_y: whole(1000),
    };
    let target = BoundingBox { min_x: whole(5), min_y: whole(0), max_x: whole(5), max_y: whole(100) };
    let mut view = ViewState::new_identity();
    assert!(view.fit_view(&viewport, &target, rat(1, 2)));
    assert_rat_eq(view.scale, whole(1));
}

#[test]
fn screen_round_trip_recovers_shape_coordinates() {
    let view = ViewState { translation: Point::from_ints(320, 240), scale: whole(4) };
    let p = Point::from_ints(10, -20);
    let s = view.gerber_to_screen_coords(p).unwrap();
    assert!(s.eqv(Point::from_ints(360, 160)));
    let back = view.screen_to_gerber_coords(s).unwrap();
    assert!(back.eqv(p));
}

#[test]
fn screen_to_gerber_refuses_zero_scale() {
    let view = ViewState { translation: Point::from_ints(0, 0), scale: whole(0) };
    assert!(view.screen_to_gerber_coords(Point::from_ints(1, 1)).is_none());
}

#[test]
fn circle_maps_end_to_end_to_screen() {
    // A circle at the origin with diameter 10, identity transform and
    // identity view, lands at the origin with radius 5 (the y negation is a
    // no-op at the origin).
    let circle = CircleGerberPrimitive {
        center: Point::from_ints(0, 0),
        diameter: whole(10),
        exposure: Exposure::Add,
    };
    let layer = GerberLayer::new(
        vec![GerberPrimitive::Circle(circle)],
        GerberTransform::default(),
    );
    let config = RenderConfiguration::default();
    let view = ViewState::new_identity();
    let renderer = GerberRenderer::new(&config, view, &GerberTransform::default(), &layer)
        .unwrap();
    let (center, radius) = circle_screen_geometry(
        &circle,
        &renderer.transform_matrix,
        renderer.transform_scaling.0,
        &renderer.view,
    )
    .unwrap();
    assert!(center.eqv(Point::from_ints(0, 0)));
    assert_rat_eq(radius, whole(5));
}

#[test]
fn screen_mapping_negates_y_once() {
    let t = GerberTransform::default();
    let layer = GerberLayer::new(Vec::new(), t);
    let config = RenderConfiguration::default();
    let view = ViewState::new_identity();
    let renderer = GerberRenderer::new(&config, view, &t, &layer).unwrap();
    let q = renderer
        .gerber_to_screen_coordinates(Point::from_ints(3, 4))
        .unwrap();
    assert!(q.eqv(Point::from_ints(3, -4)));
}

#[test]
fn paint_layer_emits_one_op_per_primitive_in_order() {
    let circle = CircleGerberPrimitive {
        center: Point::from_ints(0, 0),
        diameter: whole(10),
        exposure: Exposure::Add,
    };
    let circle2 = CircleGerberPrimitive {
        center: Point::from_ints(5, 5),
        diameter: whole(2),
        exposure: Exposure::Subtract,
    };
    let layer = GerberLayer::new(
        vec![
            GerberPrimitive::Circle(circle),
            GerberPrimitive::Circle(circle2),
        ],
        GerberTransform::default(),
    );
    let config = RenderConfiguration {
        use_unique_shape_colors: true,
        use_shape_numbering: true,
        use_vertex_numbering: false,
        use_shape_bboxes: false,
    };
    let view = ViewState::new_identity();
    let renderer = GerberRenderer::new(&config, view, &GerberTransform::default(), &layer)
        .unwrap();
    let ops = renderer.paint_layer(&layer, rat(1, 10000));
    assert_eq!(ops.len(), 2);
    assert_eq!(ops[0].shape_index, 0);
    assert_eq!(ops[1].shape_index, 1);
    assert_eq!(ops[0].color, PaintColor::Unique(0));
    assert_eq!(ops[1].color, PaintColor::Unique(1));
    assert_eq!(ops[0].shape_number, Some(0));
    assert_eq!(ops[0].exposure, Exposure::Add);
    assert_eq!(ops[1].exposure, Exposure::Subtract);
    match &ops[0].shape {
        ScreenShape::Circle { center, radius } => {
            assert!(center.eqv(Point::from_ints(0, 0)));
            assert!(radius.eqv(whole(5)));
        },
        other => panic!("expected a circle, got {:?}", other),
    }
}

#[test]
fn scale_factors_match_uniform_scale() {
    // A pure scale-by-3 transform has both column lengths exactly 3.
    let t = GerberTransform { scale: whole(3), ..GerberTransform::default() };
    let m = t.to_matrix().unwrap();
    let (sx, sy) = m.get_scaling_factors().unwrap();
    assert_rat_eq(sx, whole(3));
    assert_rat_eq(sy, whole(3));
}

#[test]
fn circle_bounding_box_is_center_plus_minus_radius() {
    let circle = CircleGerberPrimitive {
        center: Point::from_ints(10, -2),
        diameter: whole(6),
        exposure: Exposure::Add,
    };
    let b = circle.bounding_box().unwrap();
    assert_rat_eq(b.min_x, whole(7));
    assert_rat_eq(b.max_x, whole(13));
    assert_rat_eq(b.min_y, whole(-5));
    assert_rat_eq(b.max_y, whole(1));
}

#[test]
fn layer_caches_box_around_its_primitives() {
    let circle = CircleGerberPrimitive {
        center: Point::from_ints(0, 0),
        diameter: whole(10),
        exposure: Exposure::Add,
    };
    let layer = GerberLayer::new(
        vec![GerberPrimitive::Circle(circle)],
        GerberTransform::default(),
    );
    let b = layer.bounding_box();
    assert_rat_eq(b.min_x, whole(-5));
    assert_rat_eq(b.max_x, whole(5));
    assert_rat_eq(b.min_y, whole(-5));
    assert_rat_eq(b.max_y, whole(5));
}

#[test]
fn paint_layer_without_options_uses_base_color_and_no_labels() {
    let circle = CircleGerberPrimitive {
        center: Point::from_ints(1, 1),
        diameter: whole(2),
        exposure: Exposure::Add,
    };
    let layer = GerberLayer::new(
        vec![GerberPrimitive::Circle(circle)],
        GerberTransform::default(),
    );
    let config = RenderConfiguration::default();
    let view = ViewState::new_identity();
    let renderer = GerberRenderer::new(&config, view, &GerberTransform::default(), &layer)
        .unwrap();
    let ops = renderer.paint_layer(&layer, rat(1, 10000));
    assert_eq!(ops.len(), 1);
    assert_eq!(ops[0].color, PaintColor::Base);
    assert_eq!(ops[0].shape_number, None);
}

#[test]
fn pan_moves_translation_by_the_drag_delta() {
    let mut view = ViewState { translation: Point::from_ints(100, 50), scale: whole(2) };
    assert!(view.pan(rat(15, 1), rat(-5, 1)));
    assert!(view.translation.eqv(Point::from_ints(115, 45)));
    assert_rat_eq(view.scale, whole(2));
}

#[test]
fn collinear_ring_cannot_be_tessellated() {
    let line = vec![
        IPoint { x: 0, y: 0 },
        IPoint { x: 1, y: 0 },
        IPoint { x: 2, y: 0 },
        IPoint { x: 3, y: 0 },
    ];
    assert!(tessellate_ring(&line).is_none());
}

#[test]
fn rotated_rectangle_renders_as_four_corners() {
    let rect = RectangleGerberPrimitive {
        origin: Point::from_ints(0, 0),
        width: whole(4),
        height: whole(2),
        exposure: Exposure::Add,
    };
    let layer = GerberLayer::new(
        vec![GerberPrimitive::Rectangle(rect)],
        GerberTransform::default(),
    );
    // A rotation by roughly 45 degrees forces the slow path.
    let transform = GerberTransform {
        rotation_cos: rat(408, 577),
        rotation_sin: rat(408, 577),
        mirroring: Mirroring::default(),
        origin: Point::from_ints(0, 0),
        offset: Point::from_ints(0, 0),
        scale: whole(1),
    };
    let config = RenderConfiguration::default();
    let view = ViewState::new_identity();
    let renderer = GerberRenderer::new(&config, view, &transform, &layer).unwrap();
    let ops = renderer.paint_layer(&layer, rat(1, 10000));
    match &ops[0].shape {
        ScreenShape::Quad { corners } => assert_eq!(corners.len(), 4),
        other => panic!("expected four corners, got {:?}", other),
    }
    // Without rotation the fast axis-aligned path runs instead.
    let renderer2 =
        GerberRenderer::new(&config, view, &GerberTransform::default(), &layer).unwrap();
    let ops2 = renderer2.paint_layer(&layer, rat(1, 10000));
    match &ops2[0].shape {
        ScreenShape::AlignedRect { center, width, height } => {
            // Center (2, 1) maps to (2, -1) after the y flip.
            assert!(center.eqv(Point::from_ints(2, -1)));
            assert_rat_eq(*width, whole(4));
            assert_rat_eq(*height, whole(2));
        },
        other => panic!("expected an aligned rectangle, got {:?}", other),
    }
}

#[test]
fn concave_polygon_renders_as_a_mesh() {
    let star = vec![
        IPoint { x: 0, y: 8 },
        IPoint { x: 2, y: 2 },
        IPoint { x: 8, y: 2 },
        IPoint { x: 3, y: -1 },
        IPoint { x: 5, y: -7 },
        IPoint { x: 0, y: -3 },
        IPoint { x: -5, y: -7 },
        IPoint { x: -3, y: -1 },
        IPoint { x: -8, y: 2 },
        IPoint { x: -2, y: 2 },
    ];
    let poly = PolygonGerberPrimitive {
        center: Point::from_ints(0, 0),
        exposure: Exposure::Add,
        geometry: PolygonGeometry::new(star),
    };
    let layer = GerberLayer::new(
        vec![GerberPrimitive::Polygon(poly)],
        GerberTransform::default(),
    );
    let config = RenderConfiguration::default();
    let view = ViewState::new_identity();
    let renderer =
        GerberRenderer::new(&config, view, &GerberTransform::default(), &layer).unwrap();
    let ops = renderer.paint_layer(&layer, rat(1, 10000));
    match &ops[0].shape {
        ScreenShape::Mesh { vertices, indices } => {
            assert_eq!(vertices.len(), 10);
            assert_eq!(indices.len(), 24);
        },
        other => panic!("expected a mesh, got {:?}", other),
    }
}

#[test]
fn failed_tessellation_polygon_emits_no_fill() {
    // A collinear ring is not convex and cannot be tessellated, so its
    // geometry carries no tessellation and the plan skips it; the other
    // primitives still render.
    let bad_ring = vec![
        IPoint { x: 0, y: 0 },
        IPoint { x: 65536, y: 0 },
        IPoint { x: 131072, y: 0 },
    ];
    let geometry = PolygonGeometry::new(bad_ring);
    assert!(!geometry.is_convex);
    assert!(geometry.tessellation.is_none());
    let polygon = GerberPrimitive::Polygon(PolygonGerberPrimitive {
        center: Point::from_ints(0, 0),
        exposure: Exposure::Add,
        geometry,
    });
    let circle = GerberPrimitive::Circle(CircleGerberPrimitive {
        center: Point::from_ints(3, 3),
        diameter: whole(2),
        exposure: Exposure::Add,
    });
    let layer = GerberLayer::new(vec![polygon, circle], GerberTransform::default());
    let config = RenderConfiguration::default();
    let renderer = GerberRenderer::new(
        &config,
        ViewState::new_identity(),
        &GerberTransform::default(),
        &layer,
    )
    .unwrap();
    let ops = renderer.paint_layer(&layer, rat(1, 10000));
    assert!(matches!(ops[0].shape, ScreenShape::Skipped));
    assert!(matches!(ops[1].shape, ScreenShape::Circle { .. }));
}

#[test]
fn exposure_changes_no_geometry() {
    // Identical circles that differ only in exposure produce identical
    // screen geometry; exposure only picks the color.
    let mk = |exposure| {
        let circle = GerberPrimitive::Circle(CircleGerberPrimitive {
            center: Point::from_ints(2, 7),
            diameter: whole(6),
            exposure,
        });
        let layer = GerberLayer::new(vec![circle], GerberTransform::default());
        let config = RenderConfiguration::default();
        let renderer = GerberRenderer::new(
            &config,
            ViewState::new_identity(),
            &GerberTransform::default(),
            &layer,
        )
        .unwrap();
        renderer.paint_layer(&layer, rat(1, 10000))
    };
    let add_ops = mk(Exposure::Add);
    let sub_ops = mk(Exposure::Subtract);
    match (&add_ops[0].shape, &sub_ops[0].shape) {
        (
            ScreenShape::Circle { center: c1, radius: r1 },
            ScreenShape::Circle { center: c2, radius: r2 },
        ) => {
            assert!(c1.eqv(*c2));
            assert!(r1.eqv(*r2));
        },
        other => panic!("expected two circles, got {:?}", other),
    }
    assert_eq!(add_ops[0].exposure, Exposure::Add);
    assert_eq!(sub_ops[0].exposure, Exposure::Subtract);
}

#[test]
fn bbox_overlay_flag_controls_outline_emission() {
    let circle = GerberPrimitive::Circle(CircleGerberPrimitive {
        center: Point::from_ints(0, 0),
        diameter: whole(10),
        exposure: Exposure::Add,
    });
    let layer = GerberLayer::new(vec![circle], GerberTransform::default());
    let off = RenderConfiguration::default();
    let renderer_off = GerberRenderer::new(
        &off,
        ViewState::new_identity(),
        &GerberTransform::default(),
        &layer,
    )
    .unwrap();
    let ops_off = renderer_off.paint_layer(&layer, rat(1, 10000));
    assert!(ops_off[0].bbox_outline.is_none());
    assert!(!ops_off[0].label_vertices);
    let on = RenderConfiguration {
        use_shape_bboxes: true,
        ..RenderConfiguration::default()
    };
    let renderer_on = GerberRenderer::new(
        &on,
        ViewState::new_identity(),
        &GerberTransform::default(),
        &layer,
    )
    .unwrap();
    let ops_on = renderer_on.paint_layer(&layer, rat(1, 10000));
    let outline = ops_on[0].bbox_outline.as_ref().unwrap();
    assert_eq!(outline.len(), 4);
    // The circle's box corners, y-flipped onto the screen.
    assert!(outline[0].eqv(Point::from_ints(-5, 5)));
    assert!(outline[2].eqv(Point::from_ints(5, -5)));
}

#[test]
fn vertex_numbering_flag_marks_polygon_ops() {
    let hexagon = vec![
        IPoint { x: 4, y: 0 },
        IPoint { x: 2, y: 3 },
        IPoint { x: -2, y: 3 },
        IPoint { x: -4, y: 0 },
        IPoint { x: -2, y: -3 },
        IPoint { x: 2, y: -3 },
    ];
    let polygon = GerberPrimitive::Polygon(PolygonGerberPrimitive {
        center: Point::from_ints(0, 0),
        exposure: Exposure::Add,
        geometry: PolygonGeometry::new(hexagon),
    });
    let circle = GerberPrimitive::Circle(CircleGerberPrimitive {
        center: Point::from_ints(9, 9),
        diameter: whole(1),
        exposure: Exposure::Add,
    });
    let layer = GerberLayer::new(vec![polygon, circle], GerberTransform::default());
    let config = RenderConfiguration {
        use_vertex_numbering: true,
        ..RenderConfiguration::default()
    };
    let renderer = GerberRenderer::new(
        &config,
        ViewState::new_identity(),
        &GerberTransform::default(),
        &layer,
    )
    .unwrap();
    let ops = renderer.paint_layer(&layer, rat(1, 10000));
    assert!(ops[0].label_vertices);
    assert!(!ops[1].label_vertices);
}

#[test]
fn tessellation_triples_wind_counter_clockwise() {
    // Whatever way the ring winds, emitted triangles are CCW in the ring's
    // own plane: every triple has a positive doubled area.
    let star_ccw = vec![
        IPoint { x: 0, y: 8 },
        IPoint { x: -2, y: 2 },
        IPoint { x: -8, y: 2 },
        IPoint { x: -3, y: -1 },
        IPoint { x: -5, y: -7 },
        IPoint { x: 0, y: -3 },
        IPoint { x: 5, y: -7 },
        IPoint { x: 3, y: -1 },
        IPoint { x: 8, y: 2 },
        IPoint { x: 2, y: 2 },
    ];
    let cross = |o: IPoint, a: IPoint, b: IPoint| -> i64 {
        (a.x - o.x) * (b.y - o.y) - (a.y - o.y) * (b.x - o.x)
    };
    for ring in [star_ccw.clone(), star_ccw.iter().rev().cloned().collect::<Vec<_>>()] {
        let t = tessellate_ring(&ring).unwrap();
        assert_eq!(t.indices.len(), 24);
        for tri in t.indices.chunks(3) {
            let c = cross(ring[tri[0]], ring[tri[1]], ring[tri[2]]);
            assert!(c > 0, "triangle {:?} winds the wrong way ({})", tri, c);
        }
    }
}

#[test]
fn triangle_ring_tessellates_exactly_when_nondegenerate() {
    let proper = vec![
        IPoint { x: 0, y: 0 },
        IPoint { x: 4, y: 0 },
        IPoint { x: 0, y: 4 },
    ];
    let t = tessellate_ring(&proper).unwrap();
    assert_eq!(t.indices.len(), 3);
    let flat = vec![
        IPoint { x: 0, y: 0 },
        IPoint { x: 2, y: 2 },
        IPoint { x: 4, y: 4 },
    ];
    assert!(tessellate_ring(&flat).is_none());
}
