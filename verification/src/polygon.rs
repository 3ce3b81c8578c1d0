//! Polygon classification and tessellation. Vertices are integer pairs in
//! fixed-point units relative to the polygon's center; both convexity and
//! triangulation are scale-invariant, so the unit never enters the logic.
use vstd::prelude::*;

verus! {

/// A vertex relative to a polygon's center, in fixed-point units.
#[derive(Clone, Copy, Debug, PartialEq, Eq, Structural)]
pub struct IPoint {
    pub x: i64,
    pub y: i64,
}

/// Components bounded so that any cross product of vertex differences fits
/// an `i128`.
pub const VMAX: i64 = 1073741824;

pub open spec fn ip_wf(p: IPoint) -> bool {
    -VMAX <= p.x <= VMAX && -VMAX <= p.y <= VMAX
}

/// Twice the signed area of the triangle `o`, `a`, `b`: positive for a
/// counter-clockwise turn, negative for clockwise, zero for collinear.
pub open spec fn cross3(o: IPoint, a: IPoint, b: IPoint) -> int {
    (a.x - o.x) * (b.y - o.y) - (a.y - o.y) * (b.x - o.x)
}

/// The ring index after `i`, wrapping at `len`.
pub open spec fn wrap(j: int, len: int) -> int {
    if j < len {
        j
    } else {
        j - len
    }
}

/// The turn at ring position `i`: the cross product of the two edges that
/// meet there.
pub open spec fn turn_at(vs: Seq<IPoint>, i: int) -> int {
    cross3(vs[i], vs[wrap(i + 1, vs.len() as int)], vs[wrap(i + 2, vs.len() as int)])
}

/// A ring is convex when all turns agree in strict sign. A degenerate ring
/// (a collinear or repeated vertex gives a zero turn) counts as non-convex,
/// so that it is tessellated rather than filled under a wrong convexity
/// assumption.
pub open spec fn ring_convex(vs: Seq<IPoint>) -> bool {
    vs.len() >= 3 && ((forall|i: int| 0 <= i < vs.len() ==> #[trigger] turn_at(vs, i) > 0) || (
    forall|i: int| 0 <= i < vs.len() ==> #[trigger] turn_at(vs, i) < 0))
}

/// The exec cross product over 128-bit intermediates.
fn cross3_exec(o: IPoint, a: IPoint, b: IPoint) -> (r: i128)
    requires
        ip_wf(o),
        ip_wf(a),
        ip_wf(b),
    ensures
        r as int == cross3(o, a, b),
{
    proof {
        lemma_cross_bound(o, a, b);
    }
    (a.x as i128 - o.x as i128) * (b.y as i128 - o.y as i128) - (a.y as i128 - o.y as i128) * (b.x
        as i128 - o.x as i128)
}

/// Cross products of bounded vertices fit well inside an `i128`.
proof fn lemma_cross_bound(o: IPoint, a: IPoint, b: IPoint)
    by (nonlinear_arith)
    requires
        ip_wf(o),
        ip_wf(a),
        ip_wf(b),
    ensures
        -(4 * (VMAX as int) * (VMAX as int)) <= (a.x - o.x) * (b.y - o.y) <= 4 * (VMAX as int) * (
        VMAX as int),
        -(4 * (VMAX as int) * (VMAX as int)) <= (a.y - o.y) * (b.x - o.x) <= 4 * (VMAX as int) * (
        VMAX as int),
{
}

/// Whether the vertex ring is strictly convex. Walks consecutive vertex
/// triples and checks that every turn has the same strict sign; a zero turn
/// (degenerate ring) is conservatively non-convex.
pub fn is_convex_ring(vs: &Vec<IPoint>) -> (r: bool)
    requires
        forall|i: int| 0 <= i < vs.len() ==> ip_wf(#[trigger] vs@[i]),
    ensures
        r == ring_convex(vs@),
{
    if vs.len() < 3 {
        return false;
    }
    let n = vs.len();
    let mut all_pos = true;
    let mut all_neg = true;
    let mut i: usize = 0;
    while i < n
        invariant
            n == vs.len(),
            n >= 3,
            0 <= i <= n,
            forall|j: int| 0 <= j < vs.len() ==> ip_wf(#[trigger] vs@[j]),
            all_pos == (forall|j: int| 0 <= j < i ==> #[trigger] turn_at(vs@, j) > 0),
            all_neg == (forall|j: int| 0 <= j < i ==> #[trigger] turn_at(vs@, j) < 0),
        decreases n - i,
    {
        let i1 = if i + 1 < n {
            i + 1
        } else {
            i + 1 - n
        };
        let i2 = if i1 + 1 < n {
            i1 + 1
        } else {
            i1 + 1 - n
        };
        let c = cross3_exec(vs[i], vs[i1], vs[i2]);
        proof {
            assert(i1 as int == wrap(i as int + 1, n as int));
            assert(i2 as int == wrap(i as int + 2, n as int));
            assert(c as int == turn_at(vs@, i as int));
        }
        all_pos = all_pos && c > 0;
        all_neg = all_neg && c < 0;
        i = i + 1;
    }
    all_pos || all_neg
}

/// The ring position before `e`, wrapping at `m`.
pub open spec fn ring_prev(e: int, m: int) -> int {
    if e == 0 {
        m - 1
    } else {
        e - 1
    }
}

/// The ring position after `e`, wrapping at `m`.
pub open spec fn ring_next(e: int, m: int) -> int {
    if e + 1 < m {
        e + 1
    } else {
        0
    }
}

/// Reversing a triangle's vertex order negates its signed area.
proof fn lemma_cross_reverse(a: IPoint, b: IPoint, c: IPoint)
    by (nonlinear_arith)
    ensures
        cross3(c, b, a) == -cross3(a, b, c),
{
}

/// A triangulated polygon: the vertex ring and a flat list of index
/// triples, three consecutive entries per triangle.
#[derive(Clone, Debug)]
pub struct Tessellation {
    pub vertices: Vec<IPoint>,
    pub indices: Vec<usize>,
}

/// Triangulate a (possibly non-convex) vertex ring by ear clipping. On
/// success the triangle count is exactly the vertex count minus two, every
/// index is in range, and every emitted triple is wound counter-clockwise in
/// the ring's own (y-up) plane, whichever way the ring itself winds. A ring
/// that yields no ear (self-intersecting or fully degenerate) gives `None`,
/// so that one bad shape degrades to a skip rather than an error.
pub fn tessellate_ring(vs: &Vec<IPoint>) -> (r: Option<Tessellation>)
    requires
        vs.len() <= 16777216,
        forall|i: int| 0 <= i < vs.len() ==> ip_wf(#[trigger] vs@[i]),
    ensures
        vs.len() < 3 ==> r is None,
        vs.len() == 3 ==> (r is Some) == (cross3(vs@[0], vs@[1], vs@[2]) != 0),
        r matches Some(t) ==> {
            &&& vs.len() >= 3
            &&& t.vertices@ == vs@
            &&& t.indices.len() == 3 * (vs.len() - 2)
            &&& forall|j: int| 0 <= j < t.indices.len() ==> (#[trigger] t.indices@[j]) < vs.len()
            &&& forall|k: int|
                0 <= k && 3 * k + 2 < t.indices.len() ==> cross3(
                    vs@[#[trigger] t.indices@[3 * k] as int],
                    vs@[t.indices@[3 * k + 1] as int],
                    vs@[t.indices@[3 * k + 2] as int],
                ) > 0
        },
{
    if vs.len() < 3 {
        return None;
    }
    let n = vs.len();
    // The winding of the whole ring decides which turns are ears.
    let ccw = signed_area_doubled(vs) >= 0;
    let mut remaining: Vec<usize> = Vec::new();
    let mut k: usize = 0;
    while k < n
        invariant
            n == vs.len(),
            0 <= k <= n,
            remaining.len() == k,
            forall|j: int| 0 <= j < k ==> (#[trigger] remaining@[j]) == j,
        decreases n - k,
    {
        remaining.push(k);
        k = k + 1;
    }
    proof {
        assert(forall|j: int| 0 <= j < remaining.len() ==> (#[trigger] remaining@[j]) < n);
    }
    let mut indices: Vec<usize> = Vec::new();
    while remaining.len() > 3
        invariant
            n == vs.len(),
            n >= 3,
            n == 3 ==> remaining.len() == 3 && remaining@[0] == 0 && remaining@[1] == 1
                && remaining@[2] == 2,
            3 <= remaining.len() <= n,
            forall|i: int| 0 <= i < vs.len() ==> ip_wf(#[trigger] vs@[i]),
            forall|j: int| 0 <= j < remaining.len() ==> (#[trigger] remaining@[j]) < n,
            indices.len() == 3 * (n - remaining.len()),
            forall|j: int| 0 <= j < indices.len() ==> (#[trigger] indices@[j]) < n,
            forall|k: int|
                0 <= k && 3 * k + 2 < indices.len() ==> cross3(
                    vs@[#[trigger] indices@[3 * k] as int],
                    vs@[indices@[3 * k + 1] as int],
                    vs@[indices@[3 * k + 2] as int],
                ) > 0,
        decreases remaining.len(),
    {
        let found = find_ear(vs, &remaining, ccw);
        let e = match found {
            Some(e) => e,
            None => {
                return None;
            },
        };
        let m = remaining.len();
        let ip = remaining[if e == 0 {
            m - 1
        } else {
            e - 1
        }];
        let ic = remaining[e];
        let inx = remaining[if e + 1 < m {
            e + 1
        } else {
            0
        }];
        proof {
            if !ccw {
                lemma_cross_reverse(vs@[ip as int], vs@[ic as int], vs@[inx as int]);
            }
        }
        if ccw {
            indices.push(ip);
            indices.push(ic);
            indices.push(inx);
        } else {
            indices.push(inx);
            indices.push(ic);
            indices.push(ip);
        }
        remaining.remove(e);
    }
    // The last three remaining positions form the final triangle; a
    // degenerate (collinear) final triple has no winding and fails the ring.
    let ip = remaining[0];
    let ic = remaining[1];
    let inx = remaining[2];
    let last_turn = cross3_exec(vs[ip], vs[ic], vs[inx]);
    if last_turn == 0 {
        return None;
    }
    proof {
        if last_turn < 0 {
            lemma_cross_reverse(vs@[ip as int], vs@[ic as int], vs@[inx as int]);
        }
    }
    if last_turn > 0 {
        indices.push(ip);
        indices.push(ic);
        indices.push(inx);
    } else {
        indices.push(inx);
        indices.push(ic);
        indices.push(ip);
    }
    let mut vertices: Vec<IPoint> = Vec::new();
    let mut k2: usize = 0;
    while k2 < n
        invariant
            n == vs.len(),
            0 <= k2 <= n,
            vertices@ == vs@.subrange(0, k2 as int),
            forall|i: int| 0 <= i < vs.len() ==> ip_wf(#[trigger] vs@[i]),
        decreases n - k2,
    {
        vertices.push(vs[k2]);
        proof {
            assert(vertices@ == vs@.subrange(0, k2 as int + 1));
        }
        k2 = k2 + 1;
    }
    proof {
        assert(vertices@ == vs@);
    }
    Some(Tessellation { vertices, indices })
}

/// Twice the ring's signed area (the shoelace sum); its sign gives the
/// winding direction.
fn signed_area_doubled(vs: &Vec<IPoint>) -> (r: i128)
    requires
        vs.len() >= 1,
        vs.len() <= 16777216,
        forall|i: int| 0 <= i < vs.len() ==> ip_wf(#[trigger] vs@[i]),
{
    let n = vs.len();
    let mut acc: i128 = 0;
    let mut i: usize = 0;
    while i < n
        invariant
            n == vs.len(),
            0 <= i <= n,
            forall|j: int| 0 <= j < vs.len() ==> ip_wf(#[trigger] vs@[j]),
            n <= 16777216,
            -(i as i128) * 0x40000000000000000 <= acc <= (i as i128) * 0x40000000000000000,
        decreases n - i,
    {
        let j = if i + 1 < n {
            i + 1
        } else {
            0
        };
        let a = vs[i];
        let b = vs[j];
        proof {
            lemma_shoelace_bound(a, b, i as int);
        }
        acc = acc + ((a.x as i128) * (b.y as i128) - (b.x as i128) * (a.y as i128));
        i = i + 1;
    }
    acc
}

/// One shoelace term is within `2 * VMAX^2`, so the running sum stays well
/// inside the 128-bit range.
proof fn lemma_shoelace_bound(a: IPoint, b: IPoint, i: int)
    by (nonlinear_arith)
    requires
        ip_wf(a),
        ip_wf(b),
        0 <= i < 16777216,
    ensures
        -0x40000000000000000 <= a.x * b.y <= 0x40000000000000000,
        -0x40000000000000000 <= b.x * a.y <= 0x40000000000000000,
        -0x40000000000000000 <= a.x * b.y - b.x * a.y <= 0x40000000000000000,
        (i + 1) * 0x40000000000000000 == i * 0x40000000000000000 + 0x40000000000000000,
        0 <= i * 0x40000000000000000 <= 0x3ffffffffffffffffff0000000000000,
        (i + 1) * 0x40000000000000000 <= 0x40000000000000000000000,
{
}

/// Find an ear among the remaining ring positions: a vertex whose turn
/// matches the ring winding and whose triangle holds no other remaining
/// vertex. Returns its position in `remaining`.
fn find_ear(vs: &Vec<IPoint>, remaining: &Vec<usize>, ccw: bool) -> (r: Option<usize>)
    requires
        remaining.len() >= 3,
        forall|i: int| 0 <= i < vs.len() ==> ip_wf(#[trigger] vs@[i]),
        forall|j: int| 0 <= j < remaining.len() ==> (#[trigger] remaining@[j]) < vs.len(),
    ensures
        r matches Some(e) ==> {
            &&& e < remaining.len()
            &&& {
                let m = remaining.len() as int;
                let turn = cross3(
                    vs@[remaining@[ring_prev(e as int, m)] as int],
                    vs@[remaining@[e as int] as int],
                    vs@[remaining@[ring_next(e as int, m)] as int],
                );
                if ccw {
                    turn > 0
                } else {
                    turn < 0
                }
            }
        },
{
    let m = remaining.len();
    let mut e: usize = 0;
    while e < m
        invariant
            m == remaining.len(),
            m >= 3,
            0 <= e <= m,
            forall|i: int| 0 <= i < vs.len() ==> ip_wf(#[trigger] vs@[i]),
            forall|j: int| 0 <= j < remaining.len() ==> (#[trigger] remaining@[j]) < vs.len(),
        decreases m - e,
    {
        let pi = remaining[if e == 0 {
            m - 1
        } else {
            e - 1
        }];
        let ci = remaining[e];
        let ni = remaining[if e + 1 < m {
            e + 1
        } else {
            0
        }];
        let p = vs[pi];
        let c = vs[ci];
        let nx = vs[ni];
        proof {
            assert(ip_wf(vs@[pi as int]) && ip_wf(vs@[ci as int]) && ip_wf(vs@[ni as int]));
        }
        let turn = cross3_exec(p, c, nx);
        let convex_here = if ccw {
            turn > 0
        } else {
            turn < 0
        };
        if convex_here {
            let mut empty = true;
            let mut j: usize = 0;
            while j < m
                invariant
                    m == remaining.len(),
                    0 <= j <= m,
                    ip_wf(p) && ip_wf(c) && ip_wf(nx),
                    forall|i: int| 0 <= i < vs.len() ==> ip_wf(#[trigger] vs@[i]),
                    forall|jj: int| 0 <= jj < remaining.len() ==> (#[trigger] remaining@[jj])
                        < vs.len(),
                decreases m - j,
            {
                let qi = remaining[j];
                let q = vs[qi];
                proof {
                    assert(ip_wf(vs@[qi as int]));
                }
                if !(q.x == p.x && q.y == p.y) && !(q.x == c.x && q.y == c.y) && !(q.x == nx.x
                    && q.y == nx.y) {
                    if point_in_triangle(p, c, nx, q, ccw) {
                        empty = false;
                    }
                }
                j = j + 1;
            }
            if empty {
                proof {
                    assert(pi == remaining@[ring_prev(e as int, m as int)]);
                    assert(ni == remaining@[ring_next(e as int, m as int)]);
                }
                return Some(e);
            }
        }
        e = e + 1;
    }
    None
}

/// Whether `q` lies inside (or on the boundary of) the triangle, oriented by
/// the ring winding.
fn point_in_triangle(a: IPoint, b: IPoint, c: IPoint, q: IPoint, ccw: bool) -> (r: bool)
    requires
        ip_wf(a),
        ip_wf(b),
        ip_wf(c),
        ip_wf(q),
{
    let c1 = cross3_exec(a, b, q);
    let c2 = cross3_exec(b, c, q);
    let c3 = cross3_exec(c, a, q);
    if ccw {
        c1 >= 0 && c2 >= 0 && c3 >= 0
    } else {
        c1 <= 0 && c2 <= 0 && c3 <= 0
    }
}

} // verus!
