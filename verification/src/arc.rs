//! Arc discretization: how many segments an arc gets, whether it closes into
//! a full circle, and the exact angle of every sample point. Angles are
//! radians held as exact rationals; turning an angle into a coordinate pair
//! is the caller's trigonometry, outside this library.
use vstd::prelude::*;

use crate::frac::{
    f_abs, f_add, f_div, f_eq, f_int, f_le, f_mul, f_neg, f_ok, f_sub, lemma_f_eq_trans, Frac,
};
use crate::rat::Rat;

verus! {

/// The winding direction of an arc.
#[derive(Clone, Copy, Debug, PartialEq, Eq, Structural)]
pub enum ArcDirection {
    Clockwise,
    CounterClockwise,
}

/// A full turn, two pi, as the rational approximation 710/113 (within one
/// part in ten million).
pub open spec fn f_tau() -> Frac {
    Frac { n: 710, d: 113 }
}

/// The tolerance for the full-circle test: one thousandth of a radian. It
/// absorbs both the approximation of two pi and rational rounding of angles
/// that were meant to close the circle.
pub open spec fn f_circle_tol() -> Frac {
    Frac { n: 1, d: 1000 }
}

/// The fewest segments any arc gets, so a short arc still looks round.
pub const MIN_SEGMENTS: usize = 16;

/// The most segments any arc gets.
pub const MAX_SEGMENTS: usize = 4096;

/// Segments for a full turn before clamping.
pub const SEGMENTS_PER_TURN: usize = 64;

/// The magnitude bound on angle components: numerators and denominators up
/// to `2^40`, far beyond any radian angle at any useful precision.
pub const ANG_MAX: i64 = 1099511627776;

pub open spec fn angle_wf(a: Frac) -> bool {
    -(ANG_MAX as int) <= a.n <= ANG_MAX as int && 0 < a.d <= ANG_MAX as int
}

/// The swept angle, as a magnitude.
pub open spec fn sweep_of(start: Frac, end: Frac) -> Frac {
    f_abs(f_sub(end, start))
}

/// Whether the arc closes into a full circle: the endpoints coincide within
/// the tolerance, or the sweep covers a full turn within the tolerance.
pub open spec fn full_circle_spec(start: Frac, end: Frac) -> bool {
    f_le(sweep_of(start, end), f_circle_tol()) || f_le(
        f_sub(f_tau(), f_circle_tol()),
        sweep_of(start, end),
    )
}

/// The ceiling of a nonnegative fraction.
pub open spec fn ceil_frac(f: Frac) -> int
    recommends
        f_ok(f),
        f.n >= 0,
{
    (f.n + f.d - 1) / f.d
}

/// The segment count for a sweep: proportional to the swept angle at
/// `SEGMENTS_PER_TURN` per full turn, clamped between the minimum and
/// maximum counts. Proportional counts keep visual smoothness independent of
/// arc length; the clamp guards degenerate and enormous sweeps.
pub open spec fn segment_count_spec(sweep: Frac) -> int
    recommends
        f_ok(sweep),
        sweep.n >= 0,
{
    let q = ceil_frac(f_mul(sweep, Frac { n: 7232, d: 710 }));
    if q < MIN_SEGMENTS as int {
        MIN_SEGMENTS as int
    } else if q > MAX_SEGMENTS as int {
        MAX_SEGMENTS as int
    } else {
        q
    }
}

/// The segment count never falls below the configured minimum nor rises
/// above the configured maximum.
pub proof fn lemma_segment_count_bounds(sweep: Frac)
    ensures
        MIN_SEGMENTS as int <= segment_count_spec(sweep) <= MAX_SEGMENTS as int,
{
}

/// The swept angle of an arc, as an exact scalar.
fn sweep_exec(start: Rat, end: Rat) -> (r: (i128, i128))
    requires
        start.wf(),
        end.wf(),
        angle_wf(start.fr()),
        angle_wf(end.fr()),
    ensures
        r.0 as int == sweep_of(start.fr(), end.fr()).n || r.0 as int == -sweep_of(
            start.fr(),
            end.fr(),
        ).n,
        r.0 >= 0,
        r.0 as int == vstd::math::abs(f_sub(end.fr(), start.fr()).n) as int,
        r.1 as int == sweep_of(start.fr(), end.fr()).d,
        r.1 > 0,
        r.1 <= (ANG_MAX as i128) * (ANG_MAX as i128),
        r.0 <= 2 * (ANG_MAX as i128) * (ANG_MAX as i128),
{
    proof {
        lemma_angle_products(start.fr(), end.fr());
    }
    let num: i128 = (end.num() as i128) * (start.den() as i128) - (start.num() as i128) * (end.den()
        as i128);
    let den: i128 = (end.den() as i128) * (start.den() as i128);
    let a: i128 = if num < 0 {
        -num
    } else {
        num
    };
    proof {
        let sw = sweep_of(start.fr(), end.fr());
        assert(sw.d == den as int) by {
            vstd::arithmetic::mul::lemma_mul_is_commutative(end.fr().d, start.fr().d);
        }
    }
    (a, den)
}

proof fn lemma_angle_products(s: Frac, e: Frac)
    by (nonlinear_arith)
    requires
        angle_wf(s),
        angle_wf(e),
    ensures
        -(ANG_MAX as int) * (ANG_MAX as int) <= e.n * s.d <= (ANG_MAX as int) * (ANG_MAX as int),
        -(ANG_MAX as int) * (ANG_MAX as int) <= s.n * e.d <= (ANG_MAX as int) * (ANG_MAX as int),
        0 < e.d * s.d <= (ANG_MAX as int) * (ANG_MAX as int),
        e.d * s.d == s.d * e.d,
{
}

/// Whether the arc closes into a full circle, within the documented
/// tolerance.
pub fn is_full_circle(start: Rat, end: Rat) -> (r: bool)
    requires
        start.wf(),
        end.wf(),
        angle_wf(start.fr()),
        angle_wf(end.fr()),
    ensures
        r == full_circle_spec(start.fr(), end.fr()),
{
    let (a, d) = sweep_exec(start, end);
    proof {
        lemma_sweep_cmp(a as int, d as int);
    }
    // sweep <= 1/1000, or tau - tol = (710*1000 - 113) / (113*1000) <= sweep.
    let close_to_zero: bool = a * 1000 <= d;
    let covers_turn: bool = 709887 * d <= a * 113000;
    close_to_zero || covers_turn
}

/// The two comparisons in the full-circle test, written over the sweep's
/// components.
proof fn lemma_sweep_cmp(a: int, d: int)
    requires
        d > 0,
        a >= 0,
        a <= 2 * (ANG_MAX as int) * (ANG_MAX as int),
        d <= (ANG_MAX as int) * (ANG_MAX as int),
    ensures
        (a * 1000 <= d * 1) == f_le(Frac { n: a, d: d }, f_circle_tol()),
        (709887 * d <= a * 113000) == f_le(
            f_sub(f_tau(), f_circle_tol()),
            Frac { n: a, d: d },
        ),
        a * 1000 <= 2000 * (ANG_MAX as int) * (ANG_MAX as int),
        a * 113000 <= 226000 * (ANG_MAX as int) * (ANG_MAX as int),
        709887 * d <= 709887 * (ANG_MAX as int) * (ANG_MAX as int),
{
    assert(a * 1000 <= 2000 * (ANG_MAX as int) * (ANG_MAX as int) && a * 113000 <= 226000 * (
    ANG_MAX as int) * (ANG_MAX as int) && 709887 * d <= 709887 * (ANG_MAX as int) * (ANG_MAX
        as int)) by (nonlinear_arith)
        requires
            a >= 0,
            d > 0,
            a <= 2 * (ANG_MAX as int) * (ANG_MAX as int),
            d <= (ANG_MAX as int) * (ANG_MAX as int),
    ;
    assert(f_sub(f_tau(), f_circle_tol()) == (Frac { n: 709887, d: 113000 }));
}

/// The number of segments this arc is discretized into.
pub fn segment_count(start: Rat, end: Rat) -> (r: usize)
    requires
        start.wf(),
        end.wf(),
        angle_wf(start.fr()),
        angle_wf(end.fr()),
    ensures
        r as int == segment_count_spec(sweep_of(start.fr(), end.fr())),
        MIN_SEGMENTS <= r <= MAX_SEGMENTS,
{
    let (a, d) = sweep_exec(start, end);
    proof {
        lemma_count_bounds(a as int, d as int);
    }
    // ceil((a/d) * 7232/710) == (a*7232 + d*710 - 1) / (d*710).
    let q_num: i128 = a * 7232 + d * 710 - 1;
    let q_den: i128 = d * 710;
    let q: i128 = q_num / q_den;
    let r: usize = if q < 16 {
        16
    } else if q > 4096 {
        4096
    } else {
        q as usize
    };
    proof {
        let sw = sweep_of(start.fr(), end.fr());
        let prod = f_mul(sw, Frac { n: 7232, d: 710 });
        assert(prod.n == a as int * 7232 && prod.d == d as int * 710);
        assert(ceil_frac(prod) == q as int);
    }
    r
}

/// Bounds for the segment-count arithmetic.
proof fn lemma_count_bounds(a: int, d: int)
    by (nonlinear_arith)
    requires
        d > 0,
        a >= 0,
        a <= 2 * (ANG_MAX as int) * (ANG_MAX as int),
        d <= (ANG_MAX as int) * (ANG_MAX as int),
    ensures
        a * 7232 <= 14464 * (ANG_MAX as int) * (ANG_MAX as int),
        0 < d * 710 <= 710 * (ANG_MAX as int) * (ANG_MAX as int),
        0 <= (a * 7232 + d * 710 - 1) / (d * 710),
{
    assert(a * 7232 + d * 710 - 1 >= 0);
    vstd::arithmetic::div_mod::lemma_div_pos_is_pos(a * 7232 + d * 710 - 1, d * 710);
}

/// How many sample angles an arc gets: one per segment boundary, except
/// that a full circle omits the final sample — the closed flag replaces the
/// seam point, so stroke joins render correctly instead of doubling it.
pub open spec fn arc_sample_count(start: Frac, end: Frac) -> int {
    if full_circle_spec(start, end) {
        segment_count_spec(sweep_of(start, end))
    } else {
        segment_count_spec(sweep_of(start, end)) + 1
    }
}

/// The checked arc step, as the executable code computes it.
pub open spec fn arc_step_checked(start: Frac, end: Frac, direction: ArcDirection) -> Option<
    Frac,
> {
    match crate::geometry::f_checked(f_sub(end, start)) {
        Option::None => Option::None,
        Option::Some(d) => {
            let signed = match direction {
                ArcDirection::CounterClockwise => f_abs(d),
                ArcDirection::Clockwise => f_neg(f_abs(d)),
            };
            crate::geometry::f_checked(
                f_div(signed, f_int(segment_count_spec(sweep_of(start, end)))),
            )
        },
    }
}

/// Whether the checked computation of sample `i` fits.
pub open spec fn arc_sample_ok(start: Frac, step: Frac, i: int) -> bool {
    match crate::geometry::f_checked(f_mul(f_int(i), step)) {
        Option::None => false,
        Option::Some(m) => crate::geometry::f_checked(f_add(start, m)) is Some,
    }
}

/// Whether the checked computations of the first `k` samples all fit.
pub open spec fn arc_prefix_ok(start: Frac, step: Frac, k: int) -> bool
    decreases k,
{
    if k <= 0 {
        true
    } else {
        arc_prefix_ok(start, step, k - 1) && arc_sample_ok(start, step, k - 1)
    }
}

/// A prefix that fits contains every earlier sample's fit.
pub proof fn lemma_arc_prefix_ok(start: Frac, step: Frac, k: int, i: int)
    requires
        0 <= i < k,
        arc_prefix_ok(start, step, k),
    ensures
        arc_sample_ok(start, step, i),
    decreases k,
{
    if i < k - 1 {
        lemma_arc_prefix_ok(start, step, k - 1, i);
    }
}

/// A sample whose chain fails makes the whole prefix fail.
proof fn lemma_arc_sample_fails(start: Frac, step: Frac, k: int, i: int)
    requires
        0 <= i < k,
        !arc_sample_ok(start, step, i),
    ensures
        !arc_prefix_ok(start, step, k),
{
    if arc_prefix_ok(start, step, k) {
        lemma_arc_prefix_ok(start, step, k, i);
    }
}

/// Whether an arc's whole checked sample computation fits.
pub open spec fn arc_angles_checked(start: Frac, end: Frac, direction: ArcDirection) -> bool {
    match arc_step_checked(start, end, direction) {
        Option::None => false,
        Option::Some(st) => arc_prefix_ok(start, st, arc_sample_count(start, end)),
    }
}

/// The sample angles of an arc: equal exact steps from the start angle,
/// advancing counter-clockwise (rising) or clockwise (falling) as directed.
/// An open arc gets `count + 1` samples ending at the end angle; a full
/// circle gets `count` samples and closes via its flag rather than a
/// duplicated seam point. `None` exactly when a step or sum does not fit the
/// representation.
pub fn arc_angles(start: Rat, end: Rat, direction: ArcDirection) -> (r: Option<Vec<Rat>>)
    requires
        start.wf(),
        end.wf(),
        angle_wf(start.fr()),
        angle_wf(end.fr()),
    ensures
        (r is Some) == arc_angles_checked(start.fr(), end.fr(), direction),
        r matches Some(v) ==> {
            &&& v.len() == arc_sample_count(start.fr(), end.fr())
            &&& v.len() >= MIN_SEGMENTS
            &&& forall|i: int| 0 <= i < v.len() ==> (#[trigger] v@[i]).wf()
            &&& forall|i: int|
                0 <= i < v.len() ==> f_eq(
                    (#[trigger] v@[i]).fr(),
                    f_add(
                        start.fr(),
                        f_mul(f_int(i), arc_step(start.fr(), end.fr(), direction)),
                    ),
                )
        },
{
    let n = segment_count(start, end);
    let samples: usize = if is_full_circle(start, end) {
        n
    } else {
        n + 1
    };
    let sweep_signed = match end.minus(start) {
        Some(s) => s,
        None => {
            return None;
        },
    };
    let magnitude = sweep_signed.abs();
    let signed = match direction {
        ArcDirection::CounterClockwise => magnitude,
        ArcDirection::Clockwise => magnitude.neg(),
    };
    let denom = Rat::from_int(n as i64);
    proof {
        assert(denom.fr().n != 0);
    }
    let step = match signed.over(denom) {
        Some(s) => s,
        None => {
            return None;
        },
    };
    proof {
        lemma_step_exact(
            start.fr(),
            end.fr(),
            direction,
            sweep_signed.fr(),
            signed.fr(),
            n as int,
            step.fr(),
        );
        assert(arc_step_checked(start.fr(), end.fr(), direction) == Some(step.fr()));
    }
    let mut v: Vec<Rat> = Vec::new();
    let mut i: usize = 0;
    while i < samples
        invariant
            n >= 16,
            n <= 4096,
            samples == n || samples == n + 1,
            samples as int == arc_sample_count(start.fr(), end.fr()),
            0 <= i <= samples,
            v.len() == i,
            start.wf(),
            step.wf(),
            arc_step_checked(start.fr(), end.fr(), direction) == Some(step.fr()),
            arc_prefix_ok(start.fr(), step.fr(), i as int),
            f_eq(step.fr(), arc_step(start.fr(), end.fr(), direction)),
            f_ok(arc_step(start.fr(), end.fr(), direction)),
            forall|j: int| 0 <= j < i ==> (#[trigger] v@[j]).wf(),
            forall|j: int|
                0 <= j < i ==> f_eq(
                    (#[trigger] v@[j]).fr(),
                    f_add(
                        start.fr(),
                        f_mul(f_int(j), arc_step(start.fr(), end.fr(), direction)),
                    ),
                ),
        decreases samples - i,
    {
        let fi = Rat::from_int(i as i64);
        let scaled = match fi.times(step) {
            Some(s) => s,
            None => {
                proof {
                    lemma_arc_sample_fails(start.fr(), step.fr(), samples as int, i as int);
                }
                return None;
            },
        };
        let angle = match start.plus(scaled) {
            Some(a) => a,
            None => {
                proof {
                    lemma_arc_sample_fails(start.fr(), step.fr(), samples as int, i as int);
                }
                return None;
            },
        };
        proof {
            lemma_angle_exact(
                start.fr(),
                step.fr(),
                arc_step(start.fr(), end.fr(), direction),
                i as int,
                scaled.fr(),
                angle.fr(),
            );
        }
        v.push(angle);
        i = i + 1;
    }
    Some(v)
}

/// The exact signed step of an arc: the signed sweep over the segment count.
pub open spec fn arc_step(start: Frac, end: Frac, direction: ArcDirection) -> Frac {
    let magnitude = sweep_of(start, end);
    let signed = match direction {
        ArcDirection::CounterClockwise => magnitude,
        ArcDirection::Clockwise => f_neg(magnitude),
    };
    f_div(signed, f_int(segment_count_spec(sweep_of(start, end))))
}

/// The computed step denotes the exact arc step.
proof fn lemma_step_exact(
    start: Frac,
    end: Frac,
    direction: ArcDirection,
    diff: Frac,
    signed: Frac,
    n: int,
    step: Frac,
)
    requires
        f_ok(start),
        f_ok(end),
        f_ok(diff),
        f_ok(signed),
        f_ok(step),
        f_eq(diff, f_sub(end, start)),
        signed == (match direction {
            ArcDirection::CounterClockwise => f_abs(diff),
            ArcDirection::Clockwise => f_neg(f_abs(diff)),
        }),
        n == segment_count_spec(sweep_of(start, end)),
        n >= 1,
        f_eq(step, f_div(signed, f_int(n))),
    ensures
        f_eq(step, arc_step(start, end, direction)),
        f_ok(arc_step(start, end, direction)),
{
    let mag_e = sweep_of(start, end);
    let sub_e = f_sub(end, start);
    assert(f_ok(sub_e) && f_ok(mag_e)) by (nonlinear_arith)
        requires
            sub_e.d == end.d * start.d,
            end.d > 0,
            start.d > 0,
            mag_e.d == sub_e.d,
    ;
    // The magnitude of an equal fraction is an equal fraction.
    assert(f_eq(f_abs(diff), mag_e)) by {
        assert(diff.n * sub_e.d == sub_e.n * diff.d);
        assert((diff.n >= 0) == (sub_e.n >= 0)) by (nonlinear_arith)
            requires
                diff.n * sub_e.d == sub_e.n * diff.d,
                diff.d > 0,
                sub_e.d > 0,
        ;
        if diff.n >= 0 {
        } else {
            assert((-diff.n) * sub_e.d == (-sub_e.n) * diff.d) by (nonlinear_arith)
                requires
                    diff.n * sub_e.d == sub_e.n * diff.d,
            ;
        }
    }
    let signed_e = match direction {
        ArcDirection::CounterClockwise => mag_e,
        ArcDirection::Clockwise => f_neg(mag_e),
    };
    assert(f_eq(signed, signed_e)) by {
        if direction is Clockwise {
            assert((-f_abs(diff).n) * mag_e.d == (-mag_e.n) * f_abs(diff).d) by (nonlinear_arith)
                requires
                    f_abs(diff).n * mag_e.d == mag_e.n * f_abs(diff).d,
            ;
        }
    }
    assert(f_ok(signed_e) && f_ok(f_abs(diff)));
    crate::frac::lemma_f_div_congr(signed, signed_e, f_int(n), f_int(n));
    crate::frac::lemma_f_eq_trans(step, f_div(signed, f_int(n)), f_div(signed_e, f_int(n)));
}

/// The computed sample angle denotes the exact formula.
proof fn lemma_angle_exact(
    start: Frac,
    step: Frac,
    step_e: Frac,
    i: int,
    scaled: Frac,
    angle: Frac,
)
    requires
        f_ok(start),
        f_ok(step),
        f_ok(step_e),
        f_ok(scaled),
        f_ok(angle),
        i >= 0,
        f_eq(step, step_e),
        f_eq(scaled, f_mul(f_int(i), step)),
        f_eq(angle, f_add(start, scaled)),
    ensures
        f_eq(angle, f_add(start, f_mul(f_int(i), step_e))),
{
    crate::frac::lemma_f_mul_congr(f_int(i), f_int(i), step, step_e);
    let m1 = f_mul(f_int(i), step);
    let m2 = f_mul(f_int(i), step_e);
    assert(f_ok(m1) && f_ok(m2)) by (nonlinear_arith)
        requires
            m1.d == 1 * step.d,
            m2.d == 1 * step_e.d,
            step.d > 0,
            step_e.d > 0,
    ;
    crate::frac::lemma_f_eq_trans(scaled, m1, m2);
    crate::geometry::lemma_f_add_congr(start, start, scaled, m2);
    let a1 = f_add(start, scaled);
    let a2 = f_add(start, m2);
    assert(f_ok(a1) && f_ok(a2)) by (nonlinear_arith)
        requires
            a1.d == start.d * scaled.d,
            a2.d == start.d * m2.d,
            start.d > 0,
            scaled.d > 0,
            m2.d > 0,
    ;
    crate::frac::lemma_f_eq_trans(angle, a1, a2);
}


/// The segment count grows with the swept angle: a shorter sweep never gets
/// more segments than a longer one.
pub proof fn lemma_segment_count_monotone(s1: Frac, s2: Frac)
    requires
        f_ok(s1),
        f_ok(s2),
        s1.n >= 0,
        s2.n >= 0,
        f_le(s1, s2),
    ensures
        segment_count_spec(s1) <= segment_count_spec(s2),
{
    let a = f_mul(s1, Frac { n: 7232, d: 710 });
    let b = f_mul(s2, Frac { n: 7232, d: 710 });
    assert(f_ok(a) && f_ok(b) && a.n >= 0 && b.n >= 0 && f_le(a, b)) by (nonlinear_arith)
        requires
            a.n == s1.n * 7232,
            a.d == s1.d * 710,
            b.n == s2.n * 7232,
            b.d == s2.d * 710,
            s1.d > 0,
            s2.d > 0,
            s1.n >= 0,
            s2.n >= 0,
            s1.n * s2.d <= s2.n * s1.d,
    ;
    lemma_ceil_monotone(a, b);
}

/// The ceiling of a nonnegative fraction grows with the fraction.
proof fn lemma_ceil_monotone(a: Frac, b: Frac)
    requires
        f_ok(a),
        f_ok(b),
        a.n >= 0,
        b.n >= 0,
        f_le(a, b),
    ensures
        ceil_frac(a) <= ceil_frac(b),
{
    let qa = ceil_frac(a);
    let qb = ceil_frac(b);
    // The ceiling is at least the fraction: qb * b.d >= b.n.
    vstd::arithmetic::div_mod::lemma_fundamental_div_mod(b.n + b.d - 1, b.d);
    assert(0 <= (b.n + b.d - 1) % b.d < b.d) by {
        vstd::arithmetic::div_mod::lemma_mod_division_less_than_divisor(b.n + b.d - 1, b.d);
    }
    assert(qb * b.d >= b.n) by (nonlinear_arith)
        requires
            b.n + b.d - 1 == b.d * qb + (b.n + b.d - 1) % b.d,
            0 <= (b.n + b.d - 1) % b.d < b.d,
    ;
    // So qb, as an integer, is at least a: qb * a.d >= a.n.
    assert(qb * a.d >= a.n) by (nonlinear_arith)
        requires
            qb * b.d >= b.n,
            a.n * b.d <= b.n * a.d,
            a.d > 0,
            b.d > 0,
    ;
    // Any integer at least a is at least the ceiling of a.
    assert(a.n + a.d - 1 <= qb * a.d + (a.d - 1));
    assert((a.n + a.d - 1) / a.d <= (qb * a.d + (a.d - 1)) / a.d) by {
        vstd::arithmetic::div_mod::lemma_div_is_ordered(
            a.n + a.d - 1,
            qb * a.d + (a.d - 1),
            a.d,
        );
    }
    assert((qb * a.d + (a.d - 1)) / a.d == qb) by {
        vstd::arithmetic::div_mod::lemma_fundamental_div_mod_converse(
            qb * a.d + (a.d - 1),
            a.d,
            qb,
            a.d - 1,
        );
    }
}

} // verus!
