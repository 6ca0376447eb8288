use vstd::prelude::*;

use crate::collision::Ball;
use crate::geometry::{dot_spec, len_sq, Vec2};

verus! {

/// Largest magnitude of a polygon vertex, and of a ball's center and radius,
/// that [`Ball::collides_polygon`] accepts.
pub const POLY_LIMIT: i64 = 0x1_0000;

pub open spec fn in_poly_limit(v: (int, int)) -> bool {
    -POLY_LIMIT <= v.0 <= POLY_LIMIT && -POLY_LIMIT <= v.1 <= POLY_LIMIT
}

pub open spec fn sub_spec(a: (int, int), b: (int, int)) -> (int, int) {
    (a.0 - b.0, a.1 - b.1)
}

/// Squared distance from `p` to the segment `a`-`b`, as a fraction
/// `(num, den)` with `den > 0`. The projection parameter of `p` on the line
/// is `dot(p - a, b - a) / dot(b - a, b - a)`, clamped to the segment; a
/// segment of length zero is the point `a`.
pub open spec fn seg_dist(p: (int, int), a: (int, int), b: (int, int)) -> (int, int) {
    let d = sub_spec(b, a);
    let w = sub_spec(p, a);
    let dd = len_sq(d);
    let t = dot_spec(w, d);
    if dd == 0 || t <= 0 {
        (len_sq(w), 1)
    } else if t >= dd {
        (len_sq(sub_spec(p, b)), 1)
    } else {
        (len_sq(w) * dd - t * t, dd)
    }
}

/// Vector from the point of segment `a`-`b` nearest to `p` towards `p`,
/// scaled by the positive denominator of [`seg_dist`].
pub open spec fn seg_dir(p: (int, int), a: (int, int), b: (int, int)) -> (int, int) {
    let d = sub_spec(b, a);
    let w = sub_spec(p, a);
    let dd = len_sq(d);
    let t = dot_spec(w, d);
    if dd == 0 || t <= 0 {
        w
    } else if t >= dd {
        sub_spec(p, b)
    } else {
        (w.0 * dd - t * d.0, w.1 * dd - t * d.1)
    }
}

/// Index of the vertex that closes edge `k` of a loop of `n` vertices.
pub open spec fn next(k: int, n: int) -> int {
    if k + 1 == n {
        0
    } else {
        k + 1
    }
}

pub open spec fn edge_dist(poly: Seq<Vec2>, p: (int, int), k: int) -> (int, int) {
    seg_dist(p, poly[k]@, poly[next(k, poly.len() as int)]@)
}

/// Whether edge `i` is strictly nearer to `p` than edge `j`.
pub open spec fn nearer(poly: Seq<Vec2>, p: (int, int), i: int, j: int) -> bool {
    let di = edge_dist(poly, p, i);
    let dj = edge_dist(poly, p, j);
    di.0 * dj.1 < dj.0 * di.1
}

/// Edge `k` is nearest to `p`, and strictly nearer than every edge before it.
pub open spec fn first_nearest(poly: Seq<Vec2>, p: (int, int), k: int) -> bool {
    &&& 0 <= k < poly.len()
    &&& forall|j: int| 0 <= j < poly.len() ==> !nearer(poly, p, j, k)
    &&& forall|j: int| 0 <= j < k ==> nearer(poly, p, k, j)
}

/// Whether a ball centered at `p` with radius `radius` overlaps edge `k` by
/// a positive depth.
pub open spec fn edge_overlaps(poly: Seq<Vec2>, p: (int, int), radius: int, k: int) -> bool {
    let d = edge_dist(poly, p, k);
    d.0 < radius * radius * d.1
}

/// Contact direction for edge `k`: from the nearest point of the edge towards
/// the center, or `(1, 0)` when the center lies on the edge.
pub open spec fn contact_dir(poly: Seq<Vec2>, p: (int, int), k: int) -> (int, int) {
    let v = seg_dir(p, poly[k]@, poly[next(k, poly.len() as int)]@);
    if v == (0int, 0int) {
        (1, 0)
    } else {
        v
    }
}

proof fn lemma_seg_den_pos(p: (int, int), a: (int, int), b: (int, int))
    ensures
        seg_dist(p, a, b).1 > 0,
{
    let d = sub_spec(b, a);
    assert(len_sq(d) >= 0) by (nonlinear_arith)
        requires
            len_sq(d) == d.0 * d.0 + d.1 * d.1,
    {
    }
}

proof fn lemma_nearer_trans(a1: int, b1: int, a2: int, b2: int, a3: int, b3: int)
    requires
        b1 > 0,
        b2 > 0,
        b3 > 0,
        a1 * b2 < a2 * b1,
        a2 * b3 <= a3 * b2,
    ensures
        a1 * b3 < a3 * b1,
{
    assert(a1 * b2 * b3 < a2 * b1 * b3) by (nonlinear_arith)
        requires
            a1 * b2 < a2 * b1,
            b3 > 0,
    {
    }
    assert(a2 * b3 * b1 <= a3 * b2 * b1) by (nonlinear_arith)
        requires
            a2 * b3 <= a3 * b2,
            b1 > 0,
    {
    }
    assert(a1 * b3 * b2 < a3 * b1 * b2) by (nonlinear_arith)
        requires
            a1 * b2 * b3 < a2 * b1 * b3,
            a2 * b3 * b1 <= a3 * b2 * b1,
    {
    }
    assert(a1 * b3 < a3 * b1) by (nonlinear_arith)
        requires
            a1 * b3 * b2 < a3 * b1 * b2,
            b2 > 0,
    {
    }
}

proof fn lemma_not_nearer_trans(a1: int, b1: int, a2: int, b2: int, a3: int, b3: int)
    requires
        b1 > 0,
        b2 > 0,
        b3 > 0,
        a1 * b2 <= a2 * b1,
        a2 * b3 <= a3 * b2,
    ensures
        a1 * b3 <= a3 * b1,
{
    assert(a1 * b2 * b3 <= a2 * b1 * b3) by (nonlinear_arith)
        requires
            a1 * b2 <= a2 * b1,
            b3 > 0,
    {
    }
    assert(a2 * b3 * b1 <= a3 * b2 * b1) by (nonlinear_arith)
        requires
            a2 * b3 <= a3 * b2,
            b1 > 0,
    {
    }
    assert(a1 * b3 <= a3 * b1) by (nonlinear_arith)
        requires
            a1 * b2 * b3 <= a2 * b1 * b3,
            a2 * b3 * b1 <= a3 * b2 * b1,
            b2 > 0,
    {
    }
}

/// The distance to a segment does not depend on the order of its ends.
pub proof fn lemma_seg_dist_symmetric(p: (int, int), a: (int, int), b: (int, int))
    ensures
        seg_dist(p, a, b) == seg_dist(p, b, a),
{
    let d = sub_spec(b, a);
    let w = sub_spec(p, a);
    let dd = len_sq(d);
    let t = dot_spec(w, d);
    let d2 = sub_spec(a, b);
    let w2 = sub_spec(p, b);
    assert(len_sq(d2) == dd) by (nonlinear_arith)
        requires
            d2 == (-d.0, -d.1),
            dd == d.0 * d.0 + d.1 * d.1,
    {
    }
    assert(dot_spec(w2, d2) == dd - t) by (nonlinear_arith)
        requires
            w2 == (w.0 - d.0, w.1 - d.1),
            d2 == (-d.0, -d.1),
            dd == d.0 * d.0 + d.1 * d.1,
            t == w.0 * d.0 + w.1 * d.1,
    {
    }
    assert(len_sq(w2) == len_sq(w) - 2 * t + dd) by (nonlinear_arith)
        requires
            w2 == (w.0 - d.0, w.1 - d.1),
            dd == d.0 * d.0 + d.1 * d.1,
            t == w.0 * d.0 + w.1 * d.1,
    {
    }
    assert(dd >= 0) by (nonlinear_arith)
        requires
            dd == d.0 * d.0 + d.1 * d.1,
    {
    }
    if dd == 0 {
        assert(d.0 == 0 && d.1 == 0) by (nonlinear_arith)
            requires
                dd == d.0 * d.0 + d.1 * d.1,
                dd == 0,
        {
        }
        assert(a == b);
    } else if 0 < t && t < dd {
        assert(len_sq(w2) * dd - (dd - t) * (dd - t) == len_sq(w) * dd - t * t) by (nonlinear_arith)
            requires
                len_sq(w2) == len_sq(w) - 2 * t + dd,
        {
        }
    }
}

/// A polygon of two vertices is a single segment traversed both ways: its two
/// edges are equally near to any center, so the first one is the nearest, and
/// the ball touches the polygon exactly when it overlaps that segment.
pub proof fn lemma_segment_polygon(poly: Seq<Vec2>, p: (int, int), radius: int)
    requires
        poly.len() == 2,
    ensures
        first_nearest(poly, p, 0),
        edge_dist(poly, p, 1) == edge_dist(poly, p, 0),
        (forall|k: int| 0 <= k < poly.len() ==> !edge_overlaps(poly, p, radius, k))
            == !edge_overlaps(poly, p, radius, 0),
        contact_dir(poly, p, 0) == (if seg_dir(p, poly[0]@, poly[1]@) == (0int, 0int) {
            (1int, 0int)
        } else {
            seg_dir(p, poly[0]@, poly[1]@)
        }),
{
    lemma_seg_dist_symmetric(p, poly[0]@, poly[1]@);
    assert(edge_dist(poly, p, 1) == edge_dist(poly, p, 0));
    assert(forall|j: int| 0 <= j < 2 ==> !nearer(poly, p, j, 0));
    if !edge_overlaps(poly, p, radius, 0) {
        assert forall|k: int| 0 <= k < poly.len() implies !edge_overlaps(poly, p, radius, k) by {
            assert(edge_dist(poly, p, k) == edge_dist(poly, p, 0));
        }
    }
}

/// Squared distance from `p` to segment `a`-`b` as a fraction, and the
/// scaled direction from the segment towards `p`.
fn segment_contact(p: Vec2, a: Vec2, b: Vec2) -> (r: (i128, i128, Vec2))
    requires
        in_poly_limit(p@),
        in_poly_limit(a@),
        in_poly_limit(b@),
    ensures
        (r.0 as int, r.1 as int) == seg_dist(p@, a@, b@),
        0 < r.1 <= 0x8_0000_0000,
        -0x40_0000_0000_0000_0000 <= r.0 <= 0x40_0000_0000_0000_0000,
        r.2@ == seg_dir(p@, a@, b@),
{
    let (dx, dy) = (b.x - a.x, b.y - a.y);
    let (wx, wy) = (p.x - a.x, p.y - a.y);
    proof {
        let lim = 0x2_0000int;
        assert(dx * dx <= lim * lim && dy * dy <= lim * lim && wx * wx <= lim * lim && wy * wy
            <= lim * lim && -lim * lim <= wx * dx <= lim * lim && -lim * lim <= wy * dy <= lim
            * lim && dx * dx >= 0 && dy * dy >= 0 && wx * wx >= 0 && wy * wy >= 0)
            by (nonlinear_arith)
            requires
                -lim <= dx <= lim,
                -lim <= dy <= lim,
                -lim <= wx <= lim,
                -lim <= wy <= lim,
        {
        }
    }
    let dd = dx * dx + dy * dy;
    let t = wx * dx + wy * dy;
    let ww = wx * wx + wy * wy;
    if dd == 0 || t <= 0 {
        (ww as i128, 1, Vec2 { x: wx, y: wy })
    } else if t >= dd {
        let (ux, uy) = (p.x - b.x, p.y - b.y);
        proof {
            let lim = 0x2_0000int;
            assert(0 <= ux * ux <= lim * lim && 0 <= uy * uy <= lim * lim) by (nonlinear_arith)
                requires
                    -lim <= ux <= lim,
                    -lim <= uy <= lim,
            {
            }
        }
        ((ux * ux + uy * uy) as i128, 1, Vec2 { x: ux, y: uy })
    } else {
        proof {
            let lim = 0x2_0000int;
            let sq = lim * lim * 2;
            assert(0 <= ww * dd <= sq * sq && 0 <= t * t <= sq * sq) by (nonlinear_arith)
                requires
                    0 <= ww <= sq,
                    0 < dd <= sq,
                    0 < t < dd,
            {
            }
            assert(-sq * lim <= wx * dd <= sq * lim && -sq * lim <= wy * dd <= sq * lim && -sq
                * lim <= t * dx <= sq * lim && -sq * lim <= t * dy <= sq * lim)
                by (nonlinear_arith)
                requires
                    -lim <= dx <= lim,
                    -lim <= dy <= lim,
                    -lim <= wx <= lim,
                    -lim <= wy <= lim,
                    0 < dd <= sq,
                    0 < t < dd,
            {
            }
        }
        let num = (ww as i128) * (dd as i128) - (t as i128) * (t as i128);
        (num, dd as i128, Vec2 { x: wx * dd - t * dx, y: wy * dd - t * dy })
    }
}

impl Ball {
    pub open spec fn poly_wf(&self, poly: Seq<Vec2>) -> bool {
        &&& in_poly_limit(self.pos@)
        &&& 0 < self.radius <= POLY_LIMIT
        &&& forall|k: int| 0 <= k < poly.len() ==> in_poly_limit(#[trigger] poly[k]@)
    }

    /// Contact of the ball with the closed loop of vertices `poly` (at least
    /// two of them). Among all edges the nearest to the center is taken, the
    /// first one on a tie; the ball touches when it overlaps that edge by a
    /// positive depth. Returns that edge's index and the contact direction:
    /// a positive multiple of the unit normal pointing from the edge towards
    /// the center, or `(1, 0)` when the center lies on the edge.
    pub fn collides_polygon(&self, poly: &Vec<Vec2>) -> (r: Option<(usize, Vec2)>)
        requires
            self.poly_wf(poly@),
        ensures
            r.is_none() == (poly@.len() < 2 || forall|k: int|
                0 <= k < poly@.len() ==> !edge_overlaps(poly@, self.pos@, self.radius as int, k)),
            r matches Some((k, n)) ==> {
                &&& first_nearest(poly@, self.pos@, k as int)
                &&& edge_overlaps(poly@, self.pos@, self.radius as int, k as int)
                &&& n@ == contact_dir(poly@, self.pos@, k as int)
            },
    {
        let n = poly.len();
        if n < 2 {
            return None;
        }
        let ghost p = self.pos@;
        let (mut best_num, mut best_den, mut best_dir) = segment_contact(self.pos, poly[0], poly[1]);
        let mut best: usize = 0;
        let mut i: usize = 1;
        assert(edge_dist(poly@, p, 0) == seg_dist(p, poly@[0]@, poly@[1]@));
        while i < n
            invariant
                n == poly@.len(),
                n >= 2,
                p == self.pos@,
                self.poly_wf(poly@),
                1 <= i <= n,
                best < i,
                (best_num as int, best_den as int) == edge_dist(poly@, p, best as int),
                0 < best_den <= 0x8_0000_0000,
                -0x40_0000_0000_0000_0000 <= best_num <= 0x40_0000_0000_0000_0000,
                best_dir@ == seg_dir(p, poly@[best as int]@, poly@[next(best as int, n as int)]@),
                forall|j: int| 0 <= j < i ==> !nearer(poly@, p, j, best as int),
                forall|j: int| 0 <= j < best ==> nearer(poly@, p, best as int, j),
            decreases n - i,
        {
            let b = if i + 1 == n { poly[0] } else { poly[i + 1] };
            let (num, den, dir) = segment_contact(self.pos, poly[i], b);
            assert((num as int, den as int) == edge_dist(poly@, p, i as int));
            proof {
                let nb = 0x40_0000_0000_0000_0000int;
                let db = 0x8_0000_0000int;
                assert(-nb * db <= num * best_den <= nb * db && -nb * db <= best_num * den <= nb
                    * db) by (nonlinear_arith)
                    requires
                        -nb <= num <= nb,
                        -nb <= best_num <= nb,
                        0 < den <= db,
                        0 < best_den <= db,
                {
                }
            }
            if num * best_den < best_num * den {
                proof {
                    assert forall|j: int| 0 <= j < i implies nearer(poly@, p, i as int, j) by {
                        let dj = edge_dist(poly@, p, j);
                        assert(!nearer(poly@, p, j, best as int));
                        lemma_seg_den_pos(p, poly@[j]@, poly@[next(j, n as int)]@);
                        lemma_nearer_trans(num as int, den as int, best_num as int, best_den as int, dj.0, dj.1);
                    }
                }
                best = i;
                best_num = num;
                best_den = den;
                best_dir = dir;
                assert forall|j: int| 0 <= j <= i implies !nearer(poly@, p, j, best as int) by {
                    if j < i {
                        assert(nearer(poly@, p, i as int, j));
                    }
                }
            } else {
                assert(!nearer(poly@, p, i as int, best as int));
            }
            i = i + 1;
        }
        let rad = self.radius as i128;
        proof {
            assert(0 < rad * rad <= 0x1_0000_0000 && 0 < rad * rad * best_den <= 0x1_0000_0000
                * 0x8_0000_0000) by (nonlinear_arith)
                requires
                    0 < rad <= 0x1_0000,
                    0 < best_den <= 0x8_0000_0000,
            {
            }
        }
        if best_num < rad * rad * best_den {
            let dir = if best_dir.x == 0 && best_dir.y == 0 { Vec2 { x: 1, y: 0 } } else { best_dir };
            assert(edge_overlaps(poly@, p, self.radius as int, best as int));
            Some((best, dir))
        } else {
            proof {
                assert forall|k: int| 0 <= k < n implies !edge_overlaps(poly@, p, self.radius as int, k) by {
                    let dk = edge_dist(poly@, p, k);
                    assert(!nearer(poly@, p, k, best as int));
                    lemma_seg_den_pos(p, poly@[k]@, poly@[next(k, n as int)]@);
                    lemma_not_nearer_trans(rad * rad, 1, best_num as int, best_den as int, dk.0, dk.1);
                }
            }
            None
        }
    }
}

} // verus!
